use vstd::prelude::*;

use crate::file_info::{
    forest_measure, forest_view, lemma_forest_measure_prefix, lemma_forest_measure_prefix_le, lemma_forest_view,
    tree_measure, EntryView, FileEntry, Measure, SortCriteria,
    SortDirection, SortState,
};
use crate::text::{chars_of, lowercase, to_lowercase};

verus! {

broadcast use lemma_forest_view;

/// Lexicographic order of character sequences by code point, as `Ord` orders strings:
/// -1 when `a` comes first, 1 when `b` does, 0 when they are equal.
pub open spec fn lex_order(a: Seq<char>, b: Seq<char>) -> int
    decreases a.len(),
{
    if a.len() == 0 {
        if b.len() == 0 {
            0
        } else {
            -1
        }
    } else if b.len() == 0 {
        1
    } else if a[0] < b[0] {
        -1
    } else if a[0] > b[0] {
        1
    } else {
        lex_order(a.skip(1), b.skip(1))
    }
}

/// Order of optional times: an unknown time comes before every known one.
pub open spec fn option_order(a: Option<i64>, b: Option<i64>) -> int {
    match (a, b) {
        (None, None) => 0,
        (None, Some(_)) => -1,
        (Some(_), None) => 1,
        (Some(x), Some(y)) => if x < y {
            -1
        } else if x > y {
            1
        } else {
            0
        },
    }
}

/// Order of two numbers.
pub open spec fn nat_order(a: nat, b: nat) -> int {
    if a < b {
        -1
    } else if a > b {
        1
    } else {
        0
    }
}

/// Order of two entries by lowercased name.
pub open spec fn name_order(a: EntryView, b: EntryView) -> int {
    lex_order(lowercase(a.name), lowercase(b.name))
}

/// The order in which a listing shows two entries: folders before files; then, with no
/// ordering chosen, by lowercased name; otherwise by the chosen column (a folder's size is
/// the size of its subtree), reversed for a descending order.
pub open spec fn entry_order(a: EntryView, b: EntryView, st: Option<SortState>) -> int {
    if a.is_dir && !b.is_dir {
        -1
    } else if !a.is_dir && b.is_dir {
        1
    } else {
        match st {
            None => name_order(a, b),
            Some(s) => {
                let o = match s.criteria {
                    SortCriteria::Name => name_order(a, b),
                    SortCriteria::Created => option_order(a.created, b.created),
                    SortCriteria::Modified => option_order(a.modified, b.modified),
                    SortCriteria::Size => nat_order(
                        tree_measure(a, Measure::TotalSize),
                        tree_measure(b, Measure::TotalSize),
                    ),
                };
                if s.direction == SortDirection::Desc {
                    -o
                } else {
                    o
                }
            },
        }
    }
}

/// Descending is ascending reversed, for every column: two entries of the same kind
/// compare the other way round. Between a folder and a file the direction does not matter:
/// folders come first either way.
pub proof fn lemma_descending_reverses(a: EntryView, b: EntryView, c: SortCriteria)
    ensures
        a.is_dir == b.is_dir ==> entry_order(a, b, Some(SortState { criteria: c, direction: SortDirection::Desc }))
            == -entry_order(a, b, Some(SortState { criteria: c, direction: SortDirection::Asc })),
        a.is_dir != b.is_dir ==> entry_order(a, b, Some(SortState { criteria: c, direction: SortDirection::Desc }))
            == entry_order(a, b, Some(SortState { criteria: c, direction: SortDirection::Asc })),
        a.is_dir && !b.is_dir ==> entry_order(a, b, Some(SortState { criteria: c, direction: SortDirection::Desc })) < 0,
{
}

/// Every folder's total size, at every depth, fits in a `u64`.
pub open spec fn totals_fit(v: EntryView) -> bool
    decreases v, 1nat,
{
    &&& tree_measure(v, Measure::TotalSize) <= u64::MAX
    &&& totals_fit_all(v.children)
}

/// `totals_fit` holds of every entry of the sequence.
pub open spec fn totals_fit_all(s: Seq<EntryView>) -> bool
    decreases s, 0nat,
{
    s.len() == 0 || (totals_fit_all(s.drop_last()) && totals_fit(s.last()))
}

/// `totals_fit_all`, element by element.
pub proof fn lemma_totals_fit_all(s: Seq<EntryView>)
    ensures
        totals_fit_all(s) <==> forall|i: int| 0 <= i < s.len() ==> #[trigger] totals_fit(s[i]),
    decreases s.len(),
{
    if s.len() > 0 {
        lemma_totals_fit_all(s.drop_last());
        if forall|i: int| 0 <= i < s.len() ==> #[trigger] totals_fit(s[i]) {
            assert forall|i: int| 0 <= i < s.drop_last().len() implies #[trigger] totals_fit(s.drop_last()[i]) by {
                assert(s.drop_last()[i] == s[i]);
            }
            assert(totals_fit(s[s.len() - 1]));
            assert(totals_fit_all(s));
        }
        if totals_fit_all(s) {
            assert forall|i: int| 0 <= i < s.len() implies #[trigger] totals_fit(s[i]) by {
                if i < s.len() - 1 {
                    assert(s.drop_last()[i] == s[i]);
                }
            }
        }
    }
}

/// What sorting by `st` needs of a sequence of entries: with the size column chosen,
/// every total it computes fits in a `u64`.
pub open spec fn sortable(s: Seq<EntryView>, st: Option<SortState>) -> bool {
    match st {
        Some(x) => x.criteria == SortCriteria::Size ==> forall|i: int|
            0 <= i < s.len() ==> #[trigger] totals_fit(s[i]),
        None => true,
    }
}

/// `p` maps each position of `after` to the position in `before` it came from, and
/// `after` is ordered by `st`, equal entries keeping their former order.
pub open spec fn stable_witness(
    before: Seq<EntryView>,
    after: Seq<EntryView>,
    p: Seq<int>,
    st: Option<SortState>,
) -> bool {
    &&& p.len() == before.len()
    &&& after.len() == before.len()
    &&& forall|i: int| 0 <= i < p.len() ==> 0 <= #[trigger] p[i] < before.len()
    &&& forall|i: int, j: int| 0 <= i < j < p.len() ==> p[i] != p[j]
    &&& forall|i: int| 0 <= i < p.len() ==> #[trigger] after[i] == before[p[i]]
    &&& forall|i: int, j: int|
        #![trigger after[i], after[j]]
        0 <= i < j < after.len() ==> entry_order(after[i], after[j], st) < 0 || (entry_order(
            after[i],
            after[j],
            st,
        ) == 0 && p[i] < p[j])
}

/// `after` is `before` sorted stably by `st`.
pub open spec fn stably_sorted(before: Seq<EntryView>, after: Seq<EntryView>, st: Option<SortState>) -> bool {
    exists|p: Seq<int>| stable_witness(before, after, p, st)
}

/// Lexicographic order gives -1, 0 or 1.
pub proof fn lemma_lex_order_range(a: Seq<char>, b: Seq<char>)
    ensures
        -1 <= lex_order(a, b) <= 1,
    decreases a.len(),
{
    if a.len() > 0 && b.len() > 0 {
        lemma_lex_order_range(a.skip(1), b.skip(1));
    }
}

/// The order of two entries is -1, 0 or 1.
pub proof fn lemma_entry_order_range(a: EntryView, b: EntryView, st: Option<SortState>)
    ensures
        -1 <= entry_order(a, b, st) <= 1,
{
    lemma_lex_order_range(lowercase(a.name), lowercase(b.name));
}

/// Swapping the arguments of lexicographic order negates it.
pub proof fn lemma_lex_order_antisymmetric(a: Seq<char>, b: Seq<char>)
    ensures
        lex_order(a, b) == -lex_order(b, a),
    decreases a.len(),
{
    if a.len() > 0 && b.len() > 0 {
        lemma_lex_order_antisymmetric(a.skip(1), b.skip(1));
    }
}

/// Lexicographic order is transitive.
pub proof fn lemma_lex_order_transitive(a: Seq<char>, b: Seq<char>, c: Seq<char>)
    requires
        lex_order(a, b) <= 0,
        lex_order(b, c) <= 0,
    ensures
        lex_order(a, c) <= 0,
    decreases a.len(),
{
    if a.len() > 0 && b.len() > 0 && c.len() > 0 && a[0] == b[0] && b[0] == c[0] {
        lemma_lex_order_transitive(a.skip(1), b.skip(1), c.skip(1));
    }
}

/// The order of entries is a total preorder: swapping two entries negates it, and it is
/// transitive. This is what a stable sort by `compare_entries` needs of its comparison.
pub proof fn lemma_entry_order_total_preorder(
    a: EntryView,
    b: EntryView,
    c: EntryView,
    st: Option<SortState>,
)
    ensures
        entry_order(a, b, st) == -entry_order(b, a, st),
        entry_order(a, b, st) <= 0 && entry_order(b, c, st) <= 0 ==> entry_order(a, c, st) <= 0,
{
    let (la, lb, lc) = (lowercase(a.name), lowercase(b.name), lowercase(c.name));
    lemma_lex_order_antisymmetric(la, lb);
    lemma_lex_order_range(la, lb);
    lemma_lex_order_range(lb, lc);
    lemma_lex_order_range(la, lc);
    lemma_lex_order_antisymmetric(lb, lc);
    lemma_lex_order_antisymmetric(la, lc);
    if lex_order(la, lb) <= 0 && lex_order(lb, lc) <= 0 {
        lemma_lex_order_transitive(la, lb, lc);
    }
    if lex_order(lc, lb) <= 0 && lex_order(lb, la) <= 0 {
        lemma_lex_order_transitive(lc, lb, la);
    }
}

/// The number a comparison result stands for.
pub open spec fn ordering_value(o: std::cmp::Ordering) -> int {
    match o {
        std::cmp::Ordering::Less => -1,
        std::cmp::Ordering::Equal => 0,
        std::cmp::Ordering::Greater => 1,
    }
}

/// Lexicographic order of two character sequences.
pub fn lex_compare(a: &Vec<char>, b: &Vec<char>) -> (r: i8)
    ensures
        r == lex_order(a@, b@),
{
    let mut i: usize = 0;
    assert(a@.skip(0) =~= a@);
    assert(b@.skip(0) =~= b@);
    while i < a.len() && i < b.len()
        invariant
            0 <= i <= a@.len(),
            i <= b@.len(),
            lex_order(a@, b@) == lex_order(a@.skip(i as int), b@.skip(i as int)),
        decreases a@.len() - i,
    {
        assert(a@.skip(i as int).skip(1) =~= a@.skip(i + 1));
        assert(b@.skip(i as int).skip(1) =~= b@.skip(i + 1));
        if a[i] < b[i] {
            return -1;
        } else if a[i] > b[i] {
            return 1;
        }
        i = i + 1;
    }
    if i == a.len() {
        if i == b.len() {
            0
        } else {
            -1
        }
    } else {
        1
    }
}

fn order_option(a: Option<i64>, b: Option<i64>) -> (r: i8)
    ensures
        r == option_order(a, b),
{
    match (a, b) {
        (None, None) => 0,
        (None, Some(_)) => -1,
        (Some(_), None) => 1,
        (Some(x), Some(y)) => if x < y {
            -1
        } else if x > y {
            1
        } else {
            0
        },
    }
}

fn order_by_name(a: &FileEntry, b: &FileEntry) -> (r: i8)
    ensures
        r == name_order(a@, b@),
{
    let la = to_lowercase(a.name.as_str());
    let lb = to_lowercase(b.name.as_str());
    let ca = chars_of(la.as_str());
    let cb = chars_of(lb.as_str());
    lex_compare(&ca, &cb)
}

/// The order of two entries under `st`, as a number.
pub fn entry_order_exec(a: &FileEntry, b: &FileEntry, st: Option<SortState>) -> (r: i8)
    requires
        st matches Some(x) && x.criteria == SortCriteria::Size ==> (tree_measure(
            a@,
            Measure::TotalSize,
        ) <= u64::MAX && tree_measure(b@, Measure::TotalSize) <= u64::MAX),
    ensures
        r == entry_order(a@, b@, st),
{
    if a.is_dir && !b.is_dir {
        return -1;
    }
    if !a.is_dir && b.is_dir {
        return 1;
    }
    match st {
        None => order_by_name(a, b),
        Some(s) => {
            proof {
                lemma_lex_order_range(lowercase(a@.name), lowercase(b@.name));
            }
            let o: i8 = match s.criteria {
                SortCriteria::Name => order_by_name(a, b),
                SortCriteria::Created => order_option(a.created, b.created),
                SortCriteria::Modified => order_option(a.modified, b.modified),
                SortCriteria::Size => {
                    let size_a = if a.is_dir {
                        a.total_size()
                    } else {
                        a.size
                    };
                    let size_b = if b.is_dir {
                        b.total_size()
                    } else {
                        b.size
                    };
                    if size_a < size_b {
                        -1
                    } else if size_a > size_b {
                        1
                    } else {
                        0
                    }
                },
            };
            if s.direction == SortDirection::Desc {
                -o
            } else {
                o
            }
        },
    }
}

/// The comparison that listings are sorted with.
pub fn compare_entries(a: &FileEntry, b: &FileEntry, st: Option<SortState>) -> (r:
    std::cmp::Ordering)
    requires
        st matches Some(x) && x.criteria == SortCriteria::Size ==> (tree_measure(
            a@,
            Measure::TotalSize,
        ) <= u64::MAX && tree_measure(b@, Measure::TotalSize) <= u64::MAX),
    ensures
        ordering_value(r) == entry_order(a@, b@, st),
{
    let o = entry_order_exec(a, b, st);
    proof {
        lemma_entry_order_range(a@, b@, st);
    }
    if o < 0 {
        std::cmp::Ordering::Less
    } else if o > 0 {
        std::cmp::Ordering::Greater
    } else {
        std::cmp::Ordering::Equal
    }
}

/// `slice::sort_by` with `compare_entries`: a stable sort, which leaves the entries ordered
/// by the comparison, equal ones in their former order. What it claims rests on the
/// comparison being a total preorder, which `lemma_entry_order_total_preorder` proves.
#[verifier::external_body]
fn sort_entries(v: &mut Vec<FileEntry>, st: Option<SortState>)
    requires
        sortable(forest_view(old(v)@), st),
    ensures
        stably_sorted(forest_view(old(v)@), forest_view(final(v)@), st),
{
    v.sort_by(|a, b| compare_entries(a, b, st));
}

/// Joining two sequences adds their measures.
pub proof fn lemma_forest_measure_append(a: Seq<EntryView>, b: Seq<EntryView>, m: Measure)
    ensures
        forest_measure(a + b, m) == forest_measure(a, m) + forest_measure(b, m),
    decreases b.len(),
{
    if b.len() == 0 {
        assert(a + b =~= a);
    } else {
        assert((a + b).drop_last() =~= a + b.drop_last());
        lemma_forest_measure_append(a, b.drop_last(), m);
    }
}

/// Taking one element out of a sequence takes its measure out of the sum.
pub proof fn lemma_forest_measure_remove(s: Seq<EntryView>, k: int, m: Measure)
    requires
        0 <= k < s.len(),
    ensures
        forest_measure(s, m) == forest_measure(s.remove(k), m) + tree_measure(s[k], m),
{
    let a = s.take(k);
    let b = s.skip(k + 1);
    assert(s =~= a + seq![s[k]] + b);
    assert(s.remove(k) =~= a + b);
    lemma_forest_measure_append(a + seq![s[k]], b, m);
    lemma_forest_measure_append(a, seq![s[k]], m);
    lemma_forest_measure_append(a, b, m);
    assert(seq![s[k]].drop_last() =~= Seq::<EntryView>::empty());
    assert(forest_measure(Seq::<EntryView>::empty(), m) == 0);
    assert(forest_measure(seq![s[k]], m) == tree_measure(s[k], m));
}

/// Rearranging a sequence, each element keeping its measure, keeps the sum.
pub proof fn lemma_forest_measure_permuted(
    o: Seq<EntryView>,
    n: Seq<EntryView>,
    p: Seq<int>,
    m: Measure,
)
    requires
        p.len() == o.len(),
        n.len() == o.len(),
        forall|i: int| 0 <= i < p.len() ==> 0 <= #[trigger] p[i] < o.len(),
        forall|i: int, j: int| 0 <= i < j < p.len() ==> p[i] != p[j],
        forall|i: int| 0 <= i < p.len() ==> #[trigger] tree_measure(n[i], m) == tree_measure(o[p[i]], m),
    ensures
        forest_measure(n, m) == forest_measure(o, m),
    decreases n.len(),
{
    if n.len() > 0 {
        let last = n.len() - 1;
        let k = p[last];
        let n2 = n.drop_last();
        let o2 = o.remove(k);
        let p2 = Seq::new(last as nat, |i: int| if p[i] < k { p[i] } else { p[i] - 1 });
        assert forall|i: int| 0 <= i < p2.len() implies 0 <= #[trigger] p2[i] < o2.len() by {
            assert(p[i] != p[last]);
        }
        assert forall|i: int, j: int| 0 <= i < j < p2.len() implies p2[i] != p2[j] by {
            assert(p[i] != p[last]);
            assert(p[j] != p[last]);
        }
        assert forall|i: int| 0 <= i < p2.len() implies #[trigger] tree_measure(n2[i], m)
            == tree_measure(o2[p2[i]], m) by {
            assert(p[i] != p[last]);
            assert(tree_measure(n[i], m) == tree_measure(o[p[i]], m));
        }
        lemma_forest_measure_permuted(o2, n2, p2, m);
        lemma_forest_measure_remove(o, k, m);
        assert(forest_measure(n, m) == forest_measure(n2, m) + tree_measure(n[last], m));
    }
}

/// How a sorted entry relates to the entry it came from: its own fields are unchanged,
/// and its children are sorted by `st`, folders among them recursively.
pub open spec fn sort_rel(before: EntryView, after: EntryView, st: Option<SortState>) -> bool
    decreases before, 2nat,
{
    &&& after == EntryView { children: after.children, ..before }
    &&& exists|p: Seq<int>| #[trigger] is_witness(p) && forest_sorted_with(before.children, after.children, p, st, st, false)
}

/// Marks a sequence as a candidate witness in an existential.
pub open spec fn is_witness(p: Seq<int>) -> bool {
    true
}

/// `after` holds the entries of `before`, each sorted by `inner` (all of them with `all`,
/// only folders without it; the others unchanged), arranged stably in the order `top`.
pub open spec fn forest_sorted(
    before: Seq<EntryView>,
    after: Seq<EntryView>,
    inner: Option<SortState>,
    top: Option<SortState>,
    all: bool,
) -> bool {
    exists|p: Seq<int>| #[trigger] forest_sorted_with(before, after, p, inner, top, all)
}

/// `forest_sorted`, where `p` maps each position of `after` to its position in `before`.
pub open spec fn forest_sorted_with(
    before: Seq<EntryView>,
    after: Seq<EntryView>,
    p: Seq<int>,
    inner: Option<SortState>,
    top: Option<SortState>,
    all: bool,
) -> bool
    decreases before, 0nat,
{
    &&& p.len() == before.len()
    &&& after.len() == before.len()
    &&& forall|i: int, j: int| 0 <= i < j < p.len() ==> p[i] != p[j]
    &&& forall|i: int|
        0 <= i < p.len() ==> {
            &&& 0 <= #[trigger] p[i] < before.len()
            &&& if all || before[p[i]].is_dir {
                sort_rel(before[p[i]], after[i], inner)
            } else {
                after[i] == before[p[i]]
            }
        }
    &&& forall|i: int, j: int|
        #![trigger after[i], after[j]]
        0 <= i < j < after.len() ==> entry_order(after[i], after[j], top) < 0 || (entry_order(
            after[i],
            after[j],
            top,
        ) == 0 && p[i] < p[j])
}

/// How a child of a folder being sorted relates to what it becomes: folders (or, with
/// `all`, every entry) are sorted, files kept as they are.
pub open spec fn child_sorted(before: EntryView, after: EntryView, st: Option<SortState>, all: bool) -> bool {
    if all || before.is_dir {
        sort_rel(before, after, st)
    } else {
        after == before
    }
}

/// Sorting each child, then stably arranging them by `top`, sorts the sequence.
proof fn lemma_forest_sorted_compose(
    before: Seq<EntryView>,
    mid: Seq<EntryView>,
    after: Seq<EntryView>,
    inner: Option<SortState>,
    top: Option<SortState>,
    all: bool,
)
    requires
        mid.len() == before.len(),
        forall|i: int| 0 <= i < before.len() ==> #[trigger] child_sorted(before[i], mid[i], inner, all),
        stably_sorted(mid, after, top),
    ensures
        forest_sorted(before, after, inner, top, all),
{
    let q = choose|q: Seq<int>| stable_witness(mid, after, q, top);
    assert forall|i: int| 0 <= i < q.len() implies {
        &&& 0 <= #[trigger] q[i] < before.len()
        &&& if all || before[q[i]].is_dir {
            sort_rel(before[q[i]], after[i], inner)
        } else {
            after[i] == before[q[i]]
        }
    } by {
        assert(child_sorted(before[q[i]], mid[q[i]], inner, all));
    }
    assert(forest_sorted_with(before, after, q, inner, top, all));
    assert(forest_sorted(before, after, inner, top, all));
}

/// Entries whose measures agree one by one have the same total.
proof fn lemma_forest_measure_pointwise(o: Seq<EntryView>, n: Seq<EntryView>, m: Measure)
    requires
        n.len() == o.len(),
        forall|i: int| 0 <= i < o.len() ==> #[trigger] tree_measure(n[i], m) == tree_measure(o[i], m),
    ensures
        forest_measure(n, m) == forest_measure(o, m),
{
    let p = Seq::new(o.len(), |i: int| i);
    lemma_forest_measure_permuted(o, n, p, m);
}

/// A stable sort keeps the total of a measure.
proof fn lemma_stably_sorted_measure(before: Seq<EntryView>, after: Seq<EntryView>, st: Option<SortState>, m: Measure)
    requires
        stably_sorted(before, after, st),
    ensures
        forest_measure(after, m) == forest_measure(before, m),
        after.len() == before.len(),
        forall|i: int| 0 <= i < after.len() ==> exists|j: int| 0 <= j < before.len() && #[trigger] after[i] == before[j],
{
    let q = choose|q: Seq<int>| stable_witness(before, after, q, st);
    assert forall|i: int| 0 <= i < q.len() implies #[trigger] tree_measure(after[i], m) == tree_measure(before[q[i]], m) by {
        assert(after[i] == before[q[i]]);
    }
    lemma_forest_measure_permuted(before, after, q, m);
    assert forall|i: int| 0 <= i < after.len() implies exists|j: int| 0 <= j < before.len() && #[trigger] after[i] == before[j] by {
        assert(after[i] == before[q[i]]);
    }
}

/// A child of a folder being sorted is done: it is sorted as `child_sorted` says, keeps
/// its total size, and keeps its totals fitting.
pub open spec fn child_done(before: EntryView, after: EntryView, st: Option<SortState>, all: bool) -> bool {
    &&& child_sorted(before, after, st, all)
    &&& tree_measure(after, Measure::TotalSize) == tree_measure(before, Measure::TotalSize)
    &&& totals_fit(before) ==> totals_fit(after)
}

impl FileEntry {
    /// Sorts the children of this entry by `sort_state` (folders first; by name when no
    /// ordering is chosen), after sorting the children of each child folder the same way.
    pub fn sort_recursive(&mut self, sort_state: Option<SortState>)
        requires
            sort_state matches Some(x) && x.criteria == SortCriteria::Size ==> totals_fit(old(self)@),
        ensures
            sort_rel(old(self)@, final(self)@, sort_state),
            tree_measure(final(self)@, Measure::TotalSize) == tree_measure(old(self)@, Measure::TotalSize),
            totals_fit(old(self)@) ==> totals_fit(final(self)@),
        decreases old(self)@,
    {
        let ghost before = self.children@;
        let ghost bv = old(self)@.children;
        let ghost size_sort = sort_state matches Some(x) && x.criteria == SortCriteria::Size;
        proof {
            lemma_forest_view(before);
            assert(bv == forest_view(before));
        }
        let n = self.children.len();
        for i in 0..n
            invariant
                n == before.len(),
                self.children@.len() == n,
                bv == forest_view(before),
                bv.len() == n,
                forall|j: int| 0 <= j < n ==> #[trigger] bv[j] == before[j]@,
                bv == old(self)@.children,
                size_sort == (sort_state matches Some(x) && x.criteria == SortCriteria::Size),
                size_sort ==> totals_fit(old(self)@),
                forall|j: int|
                    0 <= j < i ==> #[trigger] child_done(bv[j], self.children@[j]@, sort_state, false),
                forall|j: int| i <= j < n ==> #[trigger] self.children@[j] == before[j],
                self.name == old(self).name,
                self.path == old(self).path,
                self.is_dir == old(self).is_dir,
                self.size == old(self).size,
                self.created == old(self).created,
                self.modified == old(self).modified,
                self.accessed == old(self).accessed,
                self.selected == old(self).selected,
                self.expanded == old(self).expanded,
                self.category == old(self).category,
        {
            if self.children[i].is_dir {
                proof {
                    assert(decreases_to!(old(self)@ => old(self)@.children[i as int]));
                    if size_sort {
                        assert(totals_fit(old(self)@));
                        lemma_totals_fit_all(old(self)@.children);
                        assert(old(self)@.children[i as int] == bv[i as int]);
                        assert(totals_fit(old(self)@.children[i as int]));
                    }
                }
                self.children[i].sort_recursive(sort_state);
            }
            proof {
                assert(child_done(bv[i as int], self.children@[i as int]@, sort_state, false));
            }
        }
        let ghost mid = forest_view(self.children@);
        proof {
            lemma_forest_view(self.children@);
            assert forall|j: int| 0 <= j < n implies #[trigger] mid[j] == self.children@[j]@ by {}
            if size_sort {
                assert forall|j: int| 0 <= j < mid.len() implies #[trigger] totals_fit(mid[j]) by {
                    assert(totals_fit(old(self)@));
                    lemma_totals_fit_all(old(self)@.children);
                    assert(old(self)@.children[j] == bv[j]);
                    assert(totals_fit(bv[j]));
                    assert(child_done(bv[j], self.children@[j]@, sort_state, false));
                    assert(totals_fit(self.children@[j]@));
                }
            }
        }
        sort_entries(&mut self.children, sort_state);
        proof {
            let after = forest_view(self.children@);
            lemma_forest_view(self.children@);
            assert forall|j: int| 0 <= j < n implies #[trigger] child_sorted(bv[j], mid[j], sort_state, false) by {
                assert(child_done(bv[j], mid[j], sort_state, false));
            }
            lemma_forest_sorted_compose(bv, mid, after, sort_state, sort_state, false);
            let p = choose|p: Seq<int>| forest_sorted_with(bv, after, p, sort_state, sort_state, false);
            assert(forest_sorted_with(old(self)@.children, final(self)@.children, p, sort_state, sort_state, false));
            assert(is_witness(p));
            assert(sort_rel(old(self)@, final(self)@, sort_state));
            assert forall|j: int| 0 <= j < n implies #[trigger] tree_measure(mid[j], Measure::TotalSize)
                == tree_measure(bv[j], Measure::TotalSize) by {
                assert(child_done(bv[j], mid[j], sort_state, false));
            }
            lemma_forest_measure_pointwise(bv, mid, Measure::TotalSize);
            lemma_stably_sorted_measure(mid, after, sort_state, Measure::TotalSize);
            if totals_fit(old(self)@) {
                lemma_totals_fit_all(old(self)@.children);
                assert forall|j: int| 0 <= j < after.len() implies #[trigger] totals_fit(after[j]) by {
                    let k = choose|k: int| 0 <= k < mid.len() && after[j] == mid[k];
                    assert(old(self)@.children[k] == bv[k]);
                    assert(totals_fit(bv[k]));
                    assert(child_done(bv[k], mid[k], sort_state, false));
                    assert(totals_fit(mid[k]));
                }
                assert(final(self)@.children == after);
                lemma_totals_fit_all(after);
                assert(tree_measure(final(self)@, Measure::TotalSize) == tree_measure(old(self)@, Measure::TotalSize));
                assert(tree_measure(old(self)@, Measure::TotalSize) <= u64::MAX);
                assert(totals_fit(final(self)@));
            }
        }
    }
}

/// Sorts a listing: the children of every entry are sorted by `inner` (recursively, as
/// `sort_recursive` does), then the entries themselves are arranged stably by `top`.
pub fn sort_forest(entries: &mut Vec<FileEntry>, inner: Option<SortState>, top: Option<SortState>)
    requires
        sortable(forest_view(old(entries)@), inner),
        sortable(forest_view(old(entries)@), top),
    ensures
        forest_sorted(forest_view(old(entries)@), forest_view(final(entries)@), inner, top, true),
        forest_measure(forest_view(final(entries)@), Measure::TotalSize) == forest_measure(
            forest_view(old(entries)@),
            Measure::TotalSize,
        ),
{
    let ghost before = entries@;
    let ghost bv = forest_view(before);
    let ghost inner_size = inner matches Some(x) && x.criteria == SortCriteria::Size;
    let ghost top_size = top matches Some(x) && x.criteria == SortCriteria::Size;
    proof {
        lemma_forest_view(before);
    }
    let n = entries.len();
    for i in 0..n
        invariant
            n == before.len(),
            entries@.len() == n,
            bv == forest_view(before),
            bv.len() == n,
            forall|j: int| 0 <= j < n ==> #[trigger] bv[j] == before[j]@,
            inner_size == (inner matches Some(x) && x.criteria == SortCriteria::Size),
            top_size == (top matches Some(x) && x.criteria == SortCriteria::Size),
            inner_size ==> forall|j: int| 0 <= j < n ==> #[trigger] totals_fit(bv[j]),
            top_size ==> forall|j: int| 0 <= j < n ==> #[trigger] totals_fit(bv[j]),
            forall|j: int| 0 <= j < i ==> #[trigger] child_done(bv[j], entries@[j]@, inner, true),
            forall|j: int| i <= j < n ==> #[trigger] entries@[j] == before[j],
    {
        proof {
            if inner_size {
                assert(totals_fit(bv[i as int]));
            }
        }
        entries[i].sort_recursive(inner);
        proof {
            assert(child_done(bv[i as int], entries@[i as int]@, inner, true));
        }
    }
    let ghost mid = forest_view(entries@);
    proof {
        lemma_forest_view(entries@);
        assert forall|j: int| 0 <= j < n implies #[trigger] mid[j] == entries@[j]@ by {}
        if top_size {
            assert forall|j: int| 0 <= j < mid.len() implies #[trigger] totals_fit(mid[j]) by {
                assert(totals_fit(bv[j]));
                assert(child_done(bv[j], entries@[j]@, inner, true));
            }
        }
    }
    sort_entries(entries, top);
    proof {
        let after = forest_view(entries@);
        assert forall|j: int| 0 <= j < n implies #[trigger] child_sorted(bv[j], mid[j], inner, true) by {
            assert(child_done(bv[j], mid[j], inner, true));
        }
        lemma_forest_sorted_compose(bv, mid, after, inner, top, true);
        assert forall|j: int| 0 <= j < n implies #[trigger] tree_measure(mid[j], Measure::TotalSize)
            == tree_measure(bv[j], Measure::TotalSize) by {
            assert(child_done(bv[j], mid[j], inner, true));
        }
        lemma_forest_measure_pointwise(bv, mid, Measure::TotalSize);
        lemma_stably_sorted_measure(mid, after, top, Measure::TotalSize);
    }
}

/// The total size of an entry, computed with checks: `None` when it, or the total of some
/// folder below it, would not fit in a `u64`.
pub fn checked_total(e: &FileEntry) -> (r: Option<u64>)
    ensures
        r is Some <==> totals_fit(e@),
        r matches Some(t) ==> t == tree_measure(e@, Measure::TotalSize),
    decreases e@,
{
    if !e.is_dir {
        proof {
            lemma_forest_view(e.children@);
            lemma_totals_fit_all(e@.children);
        }
        let fits = children_fit(&e.children);
        proof {
            if fits {
                assert forall|j: int| 0 <= j < e@.children.len() implies #[trigger] totals_fit(e@.children[j]) by {
                    assert(e@.children[j] == e.children@[j]@);
                }
            } else {
                let k = choose|k: int| 0 <= k < e.children@.len() && !totals_fit(#[trigger] e.children@[k]@);
                assert(e@.children[k] == e.children@[k]@);
            }
        }
        return if fits { Some(e.size) } else { None };
    }
    let ghost s = e@.children;
    proof {
        lemma_forest_view(e.children@);
        lemma_totals_fit_all(s);
    }
    let mut acc: u64 = 0;
    for i in 0..e.children.len()
        invariant
            s == e@.children,
            s == forest_view(e.children@),
            s.len() == e.children@.len(),
            e.is_dir,
            forall|j: int| 0 <= j < e.children@.len() ==> #[trigger] s[j] == e.children@[j]@,
            forall|j: int| 0 <= j < i ==> #[trigger] totals_fit(s[j]),
            acc == forest_measure(s.take(i as int), Measure::TotalSize),
    {
        proof {
            assert(decreases_to!(e@ => e@.children));
            assert(decreases_to!(e@.children => e@.children[i as int]));
            lemma_forest_measure_prefix(s, i as int, Measure::TotalSize);
        }
        match checked_total(&e.children[i]) {
            None => {
                proof {
                    assert(!totals_fit(s[i as int]));
                    lemma_totals_fit_all(s);
                }
                return None;
            },
            Some(t) => {
                match acc.checked_add(t) {
                    None => {
                        proof {
                            lemma_forest_measure_prefix_le(s, i + 1, Measure::TotalSize);
                            assert(s[i as int] == e.children@[i as int]@);
                            assert(t == tree_measure(s[i as int], Measure::TotalSize));
                            assert(forest_measure(s.take(i + 1), Measure::TotalSize) > u64::MAX);
                            assert(tree_measure(e@, Measure::TotalSize) == forest_measure(s, Measure::TotalSize));
                        }
                        return None;
                    },
                    Some(x) => {
                        acc = x;
                    },
                }
            },
        }
    }
    assert(s.take(s.len() as int) =~= s);
    Some(acc)
}

/// Whether every entry's totals fit (see `totals_fit`).
fn children_fit(children: &Vec<FileEntry>) -> (r: bool)
    ensures
        r == (forall|j: int| 0 <= j < children@.len() ==> #[trigger] totals_fit(children@[j]@)),
    decreases forest_view(children@),
{
    proof {
        lemma_forest_view(children@);
    }
    for i in 0..children.len()
        invariant
            forall|j: int| 0 <= j < i ==> #[trigger] totals_fit(children@[j]@),
    {
        proof {
            lemma_forest_view(children@);
            assert(forest_view(children@)[i as int] == children@[i as int]@);
            assert(decreases_to!(forest_view(children@) => forest_view(children@)[i as int]));
        }
        if checked_total(&children[i]).is_none() {
            return false;
        }
    }
    true
}

/// Whether the entries can be sorted by `st` (see `sortable`).
pub fn is_sortable(entries: &Vec<FileEntry>, st: Option<SortState>) -> (r: bool)
    ensures
        r == sortable(forest_view(entries@), st),
{
    proof {
        lemma_forest_view(entries@);
    }
    match st {
        Some(x) => {
            if x.criteria == SortCriteria::Size {
                let r = children_fit(entries);
                proof {
                    let fv = forest_view(entries@);
                    if r {
                        assert forall|i: int| 0 <= i < fv.len() implies #[trigger] totals_fit(fv[i]) by {
                            assert(fv[i] == entries@[i]@);
                            assert(totals_fit(entries@[i]@));
                        }
                    } else {
                        let k = choose|k: int| 0 <= k < entries@.len() && !totals_fit(#[trigger] entries@[k]@);
                        assert(fv[k] == entries@[k]@);
                    }
                }
                r
            } else {
                true
            }
        },
        None => true,
    }
}

/// Orders one level of a listing as a scan leaves it: folders first, then by name without
/// regard to case, equal entries in their former order; the levels below are untouched.
pub fn sort_level(entries: &mut Vec<FileEntry>)
    ensures
        stably_sorted(forest_view(old(entries)@), forest_view(final(entries)@), None),
{
    sort_entries(entries, None);
}

/// `after` is `before` with its own selection and expansion flags possibly changed and its
/// children rearranged, each of them reshaped the same way, at every depth.
pub open spec fn reshaped(before: EntryView, after: EntryView) -> bool
    decreases before, 1nat,
{
    &&& after == EntryView { selected: after.selected, expanded: after.expanded, children: after.children, ..before }
    &&& exists|p: Seq<int>| #[trigger] is_witness(p) && reshaped_with(before.children, after.children, p)
}

/// `after` holds the entries of `before` rearranged, each reshaped; `p` maps each position
/// of `after` to its position in `before`.
pub open spec fn reshaped_with(before: Seq<EntryView>, after: Seq<EntryView>, p: Seq<int>) -> bool
    decreases before, 0nat,
{
    &&& p.len() == before.len()
    &&& after.len() == before.len()
    &&& forall|i: int, j: int| 0 <= i < j < p.len() ==> p[i] != p[j]
    &&& forall|i: int|
        0 <= i < p.len() ==> {
            &&& 0 <= #[trigger] p[i] < before.len()
            &&& reshaped(before[p[i]], after[i])
        }
}

/// `after` is the listing `before` rearranged at any depth, with any selection and
/// expansion flags.
pub open spec fn reshaped_forest(before: Seq<EntryView>, after: Seq<EntryView>) -> bool {
    exists|p: Seq<int>| #[trigger] is_witness(p) && reshaped_with(before, after, p)
}

/// The measures that depend neither on the order of entries nor on their flags.
pub open spec fn flag_blind(m: Measure) -> bool {
    m is Entries || m is AllSizes || m is TotalSize || m is Files
}

/// An entry is a reshaping of itself.
pub proof fn lemma_reshaped_refl(x: EntryView)
    ensures
        reshaped(x, x),
    decreases x,
{
    let n = x.children.len();
    let p = Seq::new(n, |i: int| i);
    assert forall|i: int| 0 <= i < p.len() implies {
        &&& 0 <= #[trigger] p[i] < x.children.len()
        &&& reshaped(x.children[p[i]], x.children[i])
    } by {
        assert(decreases_to!(x => x.children[i]));
        lemma_reshaped_refl(x.children[i]);
    }
    assert(reshaped_with(x.children, x.children, p));
    assert(is_witness(p));
}

/// Reshaping an entry keeps every measure that ignores order and flags.
pub proof fn lemma_reshaped_measure(x: EntryView, y: EntryView, m: Measure)
    requires
        reshaped(x, y),
        flag_blind(m),
    ensures
        tree_measure(y, m) == tree_measure(x, m),
    decreases x, 1nat,
{
    let p = choose|p: Seq<int>| #[trigger] is_witness(p) && reshaped_with(x.children, y.children, p);
    lemma_reshaped_with_measure(x.children, y.children, p, m);
}

/// `lemma_reshaped_measure` for the entries of a listing.
pub proof fn lemma_reshaped_with_measure(o: Seq<EntryView>, n: Seq<EntryView>, p: Seq<int>, m: Measure)
    requires
        reshaped_with(o, n, p),
        flag_blind(m),
    ensures
        forest_measure(n, m) == forest_measure(o, m),
    decreases o, 0nat,
{
    assert forall|i: int| 0 <= i < p.len() implies #[trigger] tree_measure(n[i], m) == tree_measure(o[p[i]], m) by {
        assert(0 <= p[i] < o.len());
        assert(decreases_to!(o => o[p[i]]));
        lemma_reshaped_measure(o[p[i]], n[i], m);
    }
    lemma_forest_measure_permuted(o, n, p, m);
}

/// A sorted entry is a reshaping of the entry it came from.
pub proof fn lemma_sort_rel_reshaped(x: EntryView, y: EntryView, st: Option<SortState>)
    requires
        sort_rel(x, y, st),
    ensures
        reshaped(x, y),
    decreases x, 1nat,
{
    let p = choose|p: Seq<int>| #[trigger] is_witness(p) && forest_sorted_with(x.children, y.children, p, st, st, false);
    lemma_forest_sorted_with_reshaped(x.children, y.children, p, st, st, false);
    assert(is_witness(p));
}

/// A sorted listing is a reshaping of the listing it came from, entry by entry.
pub proof fn lemma_forest_sorted_with_reshaped(
    o: Seq<EntryView>,
    n: Seq<EntryView>,
    p: Seq<int>,
    inner: Option<SortState>,
    top: Option<SortState>,
    all: bool,
)
    requires
        forest_sorted_with(o, n, p, inner, top, all),
    ensures
        reshaped_with(o, n, p),
    decreases o, 0nat,
{
    assert forall|i: int| 0 <= i < p.len() implies {
        &&& 0 <= #[trigger] p[i] < o.len()
        &&& reshaped(o[p[i]], n[i])
    } by {
        assert(0 <= p[i] < o.len());
        assert(decreases_to!(o => o[p[i]]));
        if all || o[p[i]].is_dir {
            lemma_sort_rel_reshaped(o[p[i]], n[i], inner);
        } else {
            lemma_reshaped_refl(n[i]);
        }
    }
}

/// A sorted listing (see `sort_forest`) is a reshaping of the listing it came from.
pub proof fn lemma_forest_sorted_reshaped(
    o: Seq<EntryView>,
    n: Seq<EntryView>,
    inner: Option<SortState>,
    top: Option<SortState>,
    all: bool,
)
    requires
        forest_sorted(o, n, inner, top, all),
    ensures
        reshaped_forest(o, n),
{
    let p = choose|p: Seq<int>| #[trigger] forest_sorted_with(o, n, p, inner, top, all);
    lemma_forest_sorted_with_reshaped(o, n, p, inner, top, all);
    assert(is_witness(p));
}

/// The fields a listing is ordered by agree: the kind, the name, the two times and the
/// total size.
pub open spec fn same_keys(x: EntryView, y: EntryView) -> bool {
    &&& x.is_dir == y.is_dir
    &&& x.name == y.name
    &&& x.created == y.created
    &&& x.modified == y.modified
    &&& tree_measure(x, Measure::TotalSize) == tree_measure(y, Measure::TotalSize)
}

/// A sorted entry keeps the fields it is ordered by.
proof fn lemma_sort_rel_keys(x: EntryView, y: EntryView, st: Option<SortState>)
    requires
        sort_rel(x, y, st),
    ensures
        same_keys(x, y),
{
    lemma_sort_rel_reshaped(x, y, st);
    lemma_reshaped_measure(x, y, Measure::TotalSize);
}

/// A strictly increasing map of the positions of a sequence into themselves maps each
/// position to itself: no position is mapped below itself ...
proof fn lemma_increasing_at_least(p: Seq<int>, i: int)
    requires
        0 <= i < p.len(),
        forall|k: int| 0 <= k < p.len() ==> 0 <= #[trigger] p[k] < p.len(),
        forall|k: int, l: int| 0 <= k < l < p.len() ==> p[k] < p[l],
    ensures
        p[i] >= i,
    decreases i,
{
    if i > 0 {
        lemma_increasing_at_least(p, i - 1);
        assert(p[i - 1] < p[i]);
    }
}

/// ... and none above itself.
proof fn lemma_increasing_at_most(p: Seq<int>, i: int)
    requires
        0 <= i < p.len(),
        forall|k: int| 0 <= k < p.len() ==> 0 <= #[trigger] p[k] < p.len(),
        forall|k: int, l: int| 0 <= k < l < p.len() ==> p[k] < p[l],
    ensures
        p[i] <= i,
    decreases p.len() - i,
{
    if i < p.len() - 1 {
        lemma_increasing_at_most(p, i + 1);
        assert(p[i] < p[i + 1]);
    }
}

/// Sorting a listing that the same sort produced changes nothing: `b` came from `a`
/// through `q`, and `c` from `b` through `p`.
proof fn lemma_resorted_with(
    a: Seq<EntryView>,
    b: Seq<EntryView>,
    c: Seq<EntryView>,
    q: Seq<int>,
    p: Seq<int>,
    inner: Option<SortState>,
    top: Option<SortState>,
    all: bool,
)
    requires
        forest_sorted_with(a, b, q, inner, top, all),
        forest_sorted_with(b, c, p, inner, top, all),
    ensures
        c == b,
    decreases b, 0nat,
{
    // Each entry of `c` is ordered as the entry of `b` it came from.
    assert forall|i: int| 0 <= i < p.len() implies same_keys(b[p[i]], #[trigger] c[i]) by {
        assert(0 <= p[i] < b.len());
        if all || b[p[i]].is_dir {
            lemma_sort_rel_keys(b[p[i]], c[i], inner);
        }
    }
    // `b` is already in order, so the sort keeps every entry in place.
    assert forall|i: int, j: int| 0 <= i < j < p.len() implies p[i] < p[j] by {
        assert(same_keys(b[p[i]], c[i]));
        assert(same_keys(b[p[j]], c[j]));
        assert(entry_order(c[i], c[j], top) == entry_order(b[p[i]], b[p[j]], top));
        lemma_entry_order_total_preorder(b[p[i]], b[p[j]], b[p[j]], top);
        if p[j] < p[i] {
            assert(entry_order(b[p[j]], b[p[i]], top) <= 0);
        }
    }
    lemma_increasing_identity(p);
    assert forall|i: int| 0 <= i < c.len() implies #[trigger] c[i] == b[i] by {
        assert(p[i] == i);
        assert(0 <= q[i] < a.len());
        if all || b[i].is_dir {
            assert(all || a[q[i]].is_dir);
            assert(sort_rel(a[q[i]], b[i], inner));
            assert(sort_rel(b[i], c[i], inner));
            assert(decreases_to!(b => b[i]));
            lemma_sort_twice(a[q[i]], b[i], c[i], inner);
        }
    }
    assert(c =~= b);
}

/// A strictly increasing map of the positions of a sequence into themselves is the
/// identity.
proof fn lemma_increasing_identity(p: Seq<int>)
    requires
        forall|k: int| 0 <= k < p.len() ==> 0 <= #[trigger] p[k] < p.len(),
        forall|k: int, l: int| 0 <= k < l < p.len() ==> p[k] < p[l],
    ensures
        forall|k: int| 0 <= k < p.len() ==> #[trigger] p[k] == k,
{
    assert forall|k: int| 0 <= k < p.len() implies #[trigger] p[k] == k by {
        lemma_increasing_at_least(p, k);
        lemma_increasing_at_most(p, k);
    }
}

/// Sorting twice is sorting once: when `b` is `a` sorted by `st` (see `sort_recursive`)
/// and `c` is `b` sorted by `st` again, `c` is `b`.
pub proof fn lemma_sort_twice(a: EntryView, b: EntryView, c: EntryView, st: Option<SortState>)
    requires
        sort_rel(a, b, st),
        sort_rel(b, c, st),
    ensures
        c == b,
    decreases b, 1nat,
{
    let q = choose|q: Seq<int>| #[trigger] is_witness(q) && forest_sorted_with(a.children, b.children, q, st, st, false);
    let p = choose|p: Seq<int>| #[trigger] is_witness(p) && forest_sorted_with(b.children, c.children, p, st, st, false);
    lemma_resorted_with(a.children, b.children, c.children, q, p, st, st, false);
}

/// Sorting a listing twice is sorting it once: when `b` is `a` sorted by `sort_forest`
/// and `c` is `b` sorted again the same way, `c` is `b`.
pub proof fn lemma_sort_forest_twice(
    a: Seq<EntryView>,
    b: Seq<EntryView>,
    c: Seq<EntryView>,
    inner: Option<SortState>,
    top: Option<SortState>,
)
    requires
        forest_sorted(a, b, inner, top, true),
        forest_sorted(b, c, inner, top, true),
    ensures
        c == b,
{
    let q = choose|q: Seq<int>| #[trigger] forest_sorted_with(a, b, q, inner, top, true);
    let p = choose|p: Seq<int>| #[trigger] forest_sorted_with(b, c, p, inner, top, true);
    lemma_resorted_with(a, b, c, q, p, inner, top, true);
}

} // verus!
