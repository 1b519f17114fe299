use vstd::prelude::*;

use crate::file_info::{
    forest_measure, forest_view, lemma_forest_view, path_view, selection_set, selection_set_forest, tree_measure,
    EntryView, FileEntry, Measure,
};
use crate::text::{chars_from, chars_of, decimal, ends_with, eq_chars, has_suffix, lowercase, owned, push_decimal, push_str, to_lowercase};
use crate::utils::{is_older_than_days_at, later_of, later_time, now_nanos, older_at, SECS_PER_DAY};

verus! {

broadcast use lemma_forest_view;

/// The outcome of deleting the selected entries.
#[derive(Debug)]
pub struct CleanResult {
    /// Number of files deleted.
    pub deleted: usize,
    /// The entries (or batches) that could not be deleted, each with the reason.
    pub failed: Vec<(String, String)>,
}

/// Whether one exclusion pattern `p` covers a name, both already lowercased: the same
/// name; a pattern that starts with `.` and ends the name; or a pattern `*.ext` whose
/// `.ext` ends the name.
pub open spec fn pattern_covers(name: Seq<char>, p: Seq<char>) -> bool {
    ||| name == p
    ||| (p.len() >= 1 && p[0] == '.' && has_suffix(name, p))
    ||| (p.len() >= 2 && p[0] == '*' && p[1] == '.' && has_suffix(name, p.skip(1)))
}

/// Whether some pattern of the list covers the name, compared without regard to case.
pub open spec fn excluded_by(name: Seq<char>, patterns: Seq<Seq<char>>) -> bool {
    exists|i: int| 0 <= i < patterns.len() && pattern_covers(lowercase(name), lowercase(#[trigger] patterns[i]))
}

/// Exclusion ignores the case of letters on both sides: a pattern that is the name itself,
/// or the name written in other case, excludes it; and names or patterns that lowercase
/// alike are excluded alike.
pub proof fn lemma_exclusion_ignores_case(name: Seq<char>, patterns: Seq<Seq<char>>, other: Seq<char>, others: Seq<Seq<char>>)
    ensures
        patterns.contains(name) ==> excluded_by(name, patterns),
        (exists|i: int| 0 <= i < patterns.len() && lowercase(#[trigger] patterns[i]) == lowercase(name)) ==> excluded_by(name, patterns),
        lowercase(other) == lowercase(name) ==> (excluded_by(other, patterns) == excluded_by(name, patterns)),
        others.len() == patterns.len() && (forall|i: int| 0 <= i < patterns.len() ==> lowercase(#[trigger] others[i]) == lowercase(patterns[i]))
            ==> (excluded_by(name, others) == excluded_by(name, patterns)),
{
    if others.len() == patterns.len() && (forall|i: int| 0 <= i < patterns.len() ==> lowercase(#[trigger] others[i]) == lowercase(patterns[i])) {
        if excluded_by(name, patterns) {
            let i = choose|i: int| 0 <= i < patterns.len() && pattern_covers(lowercase(name), lowercase(#[trigger] patterns[i]));
            assert(lowercase(others[i]) == lowercase(patterns[i]));
            assert(pattern_covers(lowercase(name), lowercase(others[i])));
        }
        if excluded_by(name, others) {
            let i = choose|i: int| 0 <= i < others.len() && pattern_covers(lowercase(name), lowercase(#[trigger] others[i]));
            assert(lowercase(others[i]) == lowercase(patterns[i]));
            assert(pattern_covers(lowercase(name), lowercase(patterns[i])));
        }
    }
    if patterns.contains(name) {
        let i = choose|i: int| 0 <= i < patterns.len() && patterns[i] == name;
        assert(pattern_covers(lowercase(name), lowercase(patterns[i])));
    }
    if exists|i: int| 0 <= i < patterns.len() && lowercase(#[trigger] patterns[i]) == lowercase(name) {
        let i = choose|i: int| 0 <= i < patterns.len() && lowercase(#[trigger] patterns[i]) == lowercase(name);
        assert(pattern_covers(lowercase(name), lowercase(patterns[i])));
    }
}

/// The exclusion patterns as character sequences.
pub open spec fn patterns_view(list: Seq<String>) -> Seq<Seq<char>> {
    list.map_values(|s: String| s@)
}

/// Whether `name` is on the exclusion list (see `pattern_covers`), ignoring case.
pub fn is_excluded_by_name(name: &str, exclude_list: &[String]) -> (r: bool)
    ensures
        r == excluded_by(name@, patterns_view(exclude_list@)),
{
    let lower = to_lowercase(name);
    let lower_name = chars_of(lower.as_str());
    let ghost pats = patterns_view(exclude_list@);
    for k in 0..exclude_list.len()
        invariant
            lower_name@ == lowercase(name@),
            pats == patterns_view(exclude_list@),
            pats.len() == exclude_list@.len(),
            forall|j: int| 0 <= j < k ==> !pattern_covers(lowercase(name@), lowercase(#[trigger] pats[j])),
    {
        let lp = to_lowercase(exclude_list[k].as_str());
        let p = chars_of(lp.as_str());
        proof {
            assert(pats[k as int] == exclude_list@[k as int]@);
        }
        if eq_chars(&lower_name, &p) {
            return true;
        }
        if p.len() >= 1 && p[0] == '.' && ends_with(&lower_name, &p) {
            return true;
        }
        if p.len() >= 2 && p[0] == '*' && p[1] == '.' {
            let tail = chars_from(&p, 1);
            if ends_with(&lower_name, &tail) {
                return true;
            }
        }
    }
    false
}

/// The most recent of the modification, access and creation times an entry has.
pub open spec fn latest_time(v: EntryView) -> Option<i64> {
    later_time(later_time(v.modified, v.accessed), v.created)
}

/// Whether every entry of the sequence is selected.
pub open spec fn all_selected(s: Seq<EntryView>) -> bool {
    forall|i: int| 0 <= i < s.len() ==> #[trigger] s[i].selected
}

/// The entry after selecting old files throughout its subtree: an excluded entry is
/// unselected with everything below it; a folder is selected when it has children and
/// all of them end up selected; a file is selected when its latest time is older than
/// `days` days at `now`.
pub open spec fn select_old_tree(v: EntryView, days: u64, patterns: Seq<Seq<char>>, now: u64) -> EntryView
    decreases v, 1nat,
{
    if excluded_by(v.name, patterns) {
        selection_set(v, false)
    } else if v.is_dir {
        let ch = select_old_forest(v.children, days, patterns, now);
        EntryView { selected: ch.len() > 0 && all_selected(ch), children: ch, ..v }
    } else {
        EntryView { selected: older_at(latest_time(v), days, now), ..v }
    }
}

/// `select_old_tree` applied to each entry of a sequence.
pub open spec fn select_old_forest(s: Seq<EntryView>, days: u64, patterns: Seq<Seq<char>>, now: u64) -> Seq<EntryView>
    decreases s, 0nat,
{
    if s.len() == 0 {
        s
    } else {
        select_old_forest(s.drop_last(), days, patterns, now).push(select_old_tree(s.last(), days, patterns, now))
    }
}

/// `select_old_forest`, element by element.
pub proof fn lemma_select_old_forest(s: Seq<EntryView>, days: u64, patterns: Seq<Seq<char>>, now: u64)
    ensures
        select_old_forest(s, days, patterns, now).len() == s.len(),
        forall|i: int| 0 <= i < s.len() ==> #[trigger] select_old_forest(s, days, patterns, now)[i]
            == select_old_tree(s[i], days, patterns, now),
    decreases s.len(),
{
    if s.len() > 0 {
        lemma_select_old_forest(s.drop_last(), days, patterns, now);
    }
}

/// The latest known time of an entry.
fn latest_time_of(e: &FileEntry) -> (r: Option<i64>)
    ensures
        r == latest_time(e@),
{
    later_of(later_of(e.modified, e.accessed), e.created)
}

/// Selects, throughout the tree, the files older than `days` days by the clock reading
/// `now`, as `select_old_tree` says of each entry.
pub fn select_old_files_at(entries: &mut Vec<FileEntry>, days: u64, exclude_list: &[String], now: u64)
    requires
        days * SECS_PER_DAY <= u64::MAX,
    ensures
        forest_view(final(entries)@) == select_old_forest(
            forest_view(old(entries)@),
            days,
            patterns_view(exclude_list@),
            now,
        ),
    decreases forest_view(old(entries)@),
{
    let ghost before = entries@;
    let ghost bv = forest_view(before);
    let ghost pats = patterns_view(exclude_list@);
    proof {
        lemma_forest_view(before);
        lemma_select_old_forest(bv, days, pats, now);
    }
    let n = entries.len();
    for i in 0..n
        invariant
            n == before.len(),
            before == old(entries)@,
            entries@.len() == n,
            bv == forest_view(before),
            bv.len() == n,
            pats == patterns_view(exclude_list@),
            days * SECS_PER_DAY <= u64::MAX,
            forall|j: int| 0 <= j < n ==> #[trigger] bv[j] == before[j]@,
            forall|j: int| 0 <= j < i ==> #[trigger] entries@[j]@ == select_old_tree(bv[j], days, pats, now),
            forall|j: int| i <= j < n ==> #[trigger] entries@[j] == before[j],
    {
        let entry = &mut entries[i];
        if is_excluded_by_name(entry.name.as_str(), exclude_list) {
            entry.set_selected_recursive(false);
        } else if entry.is_dir {
            proof {
                assert(bv[i as int].children == forest_view(entry.children@));
                assert(decreases_to!(bv => bv[i as int].children));
            }
            select_old_files_at(&mut entry.children, days, exclude_list, now);
            let all = all_children_selected(&entry.children);
            entry.selected = all;
            proof {
                lemma_forest_view(entry.children@);
                let ch = select_old_forest(bv[i as int].children, days, pats, now);
                assert(entry@.children == ch);
            }
        } else {
            let latest = latest_time_of(entry);
            entry.selected = is_older_than_days_at(latest, days, now);
        }
    }
    proof {
        lemma_forest_view(entries@);
        lemma_select_old_forest(bv, days, pats, now);
        assert forall|j: int| 0 <= j < n implies #[trigger] forest_view(entries@)[j] == select_old_forest(bv, days, pats, now)[j] by {
            assert(entries@[j]@ == select_old_tree(bv[j], days, pats, now));
        }
        assert(forest_view(entries@) =~= select_old_forest(bv, days, pats, now));
    }
}

/// Whether there are entries and all of them are selected.
fn all_children_selected(children: &Vec<FileEntry>) -> (r: bool)
    ensures
        r == (forest_view(children@).len() > 0 && all_selected(forest_view(children@))),
{
    proof {
        lemma_forest_view(children@);
    }
    if children.len() == 0 {
        return false;
    }
    for i in 0..children.len()
        invariant
            forall|j: int| 0 <= j < i ==> #[trigger] children@[j].selected,
    {
        if !children[i].selected {
            proof {
                lemma_forest_view(children@);
            }
            assert(forest_view(children@)[i as int] == children@[i as int]@);
            assert(!forest_view(children@)[i as int].selected);
            return false;
        }
    }
    assert forall|j: int| 0 <= j < forest_view(children@).len() implies #[trigger] forest_view(children@)[j].selected by {
        assert(children@[j].selected);
    }
    true
}

/// Selects the files older than `days` days throughout the tree, by one reading of the
/// clock (see `select_old_files_at`); excluded entries and everything below them are
/// unselected, and a folder is selected when all of its children are.
pub fn select_old_files(entries: &mut Vec<FileEntry>, days: u64, exclude_list: &[String])
    requires
        days * SECS_PER_DAY <= u64::MAX,
    ensures
        exists|now: u64| forest_view(final(entries)@) == select_old_forest(
            forest_view(old(entries)@),
            days,
            patterns_view(exclude_list@),
            now,
        ),
{
    let now = now_nanos();
    select_old_files_at(entries, days, exclude_list, now);
}

/// The entry after selecting old files among the top level only: excluded entries and
/// folders are unselected (their contents untouched), files are selected when older than
/// `days` days at `now`.
pub open spec fn select_old_shallow(v: EntryView, days: u64, patterns: Seq<Seq<char>>, now: u64) -> EntryView {
    if excluded_by(v.name, patterns) || v.is_dir {
        EntryView { selected: false, ..v }
    } else {
        EntryView { selected: older_at(latest_time(v), days, now), ..v }
    }
}

/// `after` is `before` with its top level selected as `select_old_shallow` says.
pub open spec fn shallow_selection(
    before: Seq<EntryView>,
    after: Seq<EntryView>,
    days: u64,
    patterns: Seq<Seq<char>>,
    now: u64,
) -> bool {
    &&& after.len() == before.len()
    &&& forall|i: int| 0 <= i < before.len() ==> #[trigger] after[i] == select_old_shallow(before[i], days, patterns, now)
}

/// Selects the old files of the top level only, by the clock reading `now`.
pub fn select_old_files_shallow_at(entries: &mut Vec<FileEntry>, days: u64, exclude_list: &[String], now: u64)
    requires
        days * SECS_PER_DAY <= u64::MAX,
    ensures
        shallow_selection(forest_view(old(entries)@), forest_view(final(entries)@), days, patterns_view(exclude_list@), now),
{
    let ghost before = entries@;
    let ghost pats = patterns_view(exclude_list@);
    let n = entries.len();
    for i in 0..n
        invariant
            n == before.len(),
            entries@.len() == n,
            pats == patterns_view(exclude_list@),
            days * SECS_PER_DAY <= u64::MAX,
            forall|j: int| 0 <= j < i ==> #[trigger] entries@[j]@ == select_old_shallow(before[j]@, days, pats, now),
            forall|j: int| i <= j < n ==> #[trigger] entries@[j] == before[j],
    {
        let entry = &mut entries[i];
        if is_excluded_by_name(entry.name.as_str(), exclude_list) {
            entry.selected = false;
        } else if entry.is_dir {
            entry.selected = false;
        } else {
            let latest = latest_time_of(entry);
            entry.selected = is_older_than_days_at(latest, days, now);
        }
    }
    proof {
        lemma_forest_view(entries@);
        lemma_forest_view(before);
        assert forall|j: int| 0 <= j < n implies #[trigger] forest_view(entries@)[j] == select_old_shallow(forest_view(before)[j], days, pats, now) by {
            assert(entries@[j]@ == select_old_shallow(before[j]@, days, pats, now));
        }
    }
}

/// Selects the old files of the top level only, by one reading of the clock.
pub fn select_old_files_shallow(entries: &mut Vec<FileEntry>, days: u64, exclude_list: &[String])
    requires
        days * SECS_PER_DAY <= u64::MAX,
    ensures
        exists|now: u64| #[trigger] shallow_selection(forest_view(old(entries)@), forest_view(final(entries)@), days, patterns_view(exclude_list@), now),
{
    let now = now_nanos();
    select_old_files_shallow_at(entries, days, exclude_list, now);
}

/// The entry with its own `selected` flag cleared, and those below it when it is a folder.
pub open spec fn deselect_tree(v: EntryView) -> EntryView
    decreases v, 1nat,
{
    EntryView {
        selected: false,
        children: if v.is_dir {
            deselect_forest(v.children)
        } else {
            v.children
        },
        ..v
    }
}

/// `deselect_tree` applied to each entry of a sequence.
pub open spec fn deselect_forest(s: Seq<EntryView>) -> Seq<EntryView>
    decreases s, 0nat,
{
    if s.len() == 0 {
        s
    } else {
        deselect_forest(s.drop_last()).push(deselect_tree(s.last()))
    }
}

/// `deselect_forest`, element by element.
pub proof fn lemma_deselect_forest(s: Seq<EntryView>)
    ensures
        deselect_forest(s).len() == s.len(),
        forall|i: int| 0 <= i < s.len() ==> #[trigger] deselect_forest(s)[i] == deselect_tree(s[i]),
    decreases s.len(),
{
    if s.len() > 0 {
        lemma_deselect_forest(s.drop_last());
    }
}

/// Unselects every entry, descending into folders.
pub fn deselect_all(entries: &mut Vec<FileEntry>)
    ensures
        forest_view(final(entries)@) == deselect_forest(forest_view(old(entries)@)),
    decreases forest_view(old(entries)@),
{
    let ghost before = entries@;
    let ghost bv = forest_view(before);
    proof {
        lemma_forest_view(before);
        lemma_deselect_forest(bv);
    }
    let n = entries.len();
    for i in 0..n
        invariant
            n == before.len(),
            before == old(entries)@,
            entries@.len() == n,
            bv == forest_view(before),
            bv.len() == n,
            forall|j: int| 0 <= j < n ==> #[trigger] bv[j] == before[j]@,
            forall|j: int| 0 <= j < i ==> #[trigger] entries@[j]@ == deselect_tree(bv[j]),
            forall|j: int| i <= j < n ==> #[trigger] entries@[j] == before[j],
    {
        let entry = &mut entries[i];
        entry.selected = false;
        if entry.is_dir {
            proof {
                assert(bv[i as int].children == forest_view(entry.children@));
                assert(decreases_to!(bv => bv[i as int].children));
            }
            deselect_all(&mut entry.children);
        }
    }
    proof {
        lemma_forest_view(entries@);
        lemma_deselect_forest(bv);
        assert forall|j: int| 0 <= j < n implies #[trigger] forest_view(entries@)[j] == deselect_forest(bv)[j] by {
            assert(entries@[j]@ == deselect_tree(bv[j]));
        }
        assert(forest_view(entries@) =~= deselect_forest(bv));
    }
}

/// The selected items to delete, in order: a selected entry stands for itself, with the
/// number of selected files (and empty folders) in it; below an unselected folder the
/// search goes on; an unselected file gives nothing.
pub open spec fn selected_items(s: Seq<EntryView>) -> Seq<(Seq<Seq<char>>, nat)>
    decreases s, 0nat,
{
    if s.len() == 0 {
        Seq::empty()
    } else {
        selected_items(s.drop_last()) + items_of(s.last())
    }
}

/// The selected items found at one entry (see `selected_items`).
pub open spec fn items_of(v: EntryView) -> Seq<(Seq<Seq<char>>, nat)>
    decreases v, 1nat,
{
    if v.selected {
        seq![(v.path, tree_measure(v, Measure::SelectedCount))]
    } else if v.is_dir {
        selected_items(v.children)
    } else {
        Seq::empty()
    }
}

/// Paths and counts as character sequences and numbers.
pub open spec fn items_view(items: Seq<(Vec<String>, usize)>) -> Seq<(Seq<Seq<char>>, nat)> {
    items.map_values(|it: (Vec<String>, usize)| (path_view(it.0@), it.1 as nat))
}

/// The views of two joined item lists are the joined views.
proof fn lemma_items_view_append(a: Seq<(Vec<String>, usize)>, b: Seq<(Vec<String>, usize)>)
    ensures
        items_view(a + b) == items_view(a) + items_view(b),
{
    assert(items_view(a + b) =~= items_view(a) + items_view(b));
}

/// The paths of the selected items with the number of files each stands for (see
/// `selected_items`).
pub fn collect_selected_paths(entries: &Vec<FileEntry>) -> (r: Vec<(Vec<String>, usize)>)
    requires
        forest_measure(forest_view(entries@), Measure::SelectedCount) <= usize::MAX,
    ensures
        items_view(r@) == selected_items(forest_view(entries@)),
    decreases forest_view(entries@),
{
    let ghost bv = forest_view(entries@);
    proof {
        lemma_forest_view(entries@);
    }
    let mut paths: Vec<(Vec<String>, usize)> = Vec::new();
    for i in 0..entries.len()
        invariant
            bv == forest_view(entries@),
            bv.len() == entries@.len(),
            forall|j: int| 0 <= j < entries@.len() ==> #[trigger] bv[j] == entries@[j]@,
            forest_measure(bv, Measure::SelectedCount) <= usize::MAX,
            items_view(paths@) == selected_items(bv.take(i as int)),
    {
        let entry = &entries[i];
        proof {
            assert(bv.take(i + 1).drop_last() =~= bv.take(i as int));
            assert(bv.take(i + 1).last() == bv[i as int]);
            assert(selected_items(bv.take(i + 1)) == selected_items(bv.take(i as int)) + items_of(bv[i as int]));
            crate::file_info::lemma_forest_measure_elem_le(bv, i as int, Measure::SelectedCount);
        }
        if entry.selected {
            let count = entry.count_selected();
            let item = (entry.path.clone(), count);
            let mut more: Vec<(Vec<String>, usize)> = Vec::new();
            more.push(item);
            proof {
                assert(path_view(item.0@) =~= path_view(entry.path@));
                assert(items_view(more@) =~= seq![(bv[i as int].path, tree_measure(bv[i as int], Measure::SelectedCount))]);
                lemma_items_view_append(paths@, more@);
            }
            paths.append(&mut more);
        } else if entry.is_dir {
            proof {
                assert(bv[i as int].children == forest_view(entry.children@));
                assert(decreases_to!(bv => bv[i as int].children));
            }
            let mut more = collect_selected_paths(&entry.children);
            proof {
                lemma_items_view_append(paths@, more@);
            }
            paths.append(&mut more);
        } else {
            proof {
                assert(items_of(bv[i as int]) =~= Seq::<(Seq<Seq<char>>, nat)>::empty());
                assert(selected_items(bv.take(i + 1)) =~= selected_items(bv.take(i as int)));
            }
        }
    }
    proof {
        assert(bv.take(bv.len() as int) =~= bv);
    }
    paths
}

/// The number of files a list of items stands for.
pub open spec fn count_sum(items: Seq<(Seq<Seq<char>>, nat)>) -> nat
    decreases items.len(),
{
    if items.len() == 0 {
        0
    } else {
        count_sum(items.drop_last()) + items.last().1
    }
}

/// Counting joined lists adds their counts.
pub proof fn lemma_count_sum_append(a: Seq<(Seq<Seq<char>>, nat)>, b: Seq<(Seq<Seq<char>>, nat)>)
    ensures
        count_sum(a + b) == count_sum(a) + count_sum(b),
    decreases b.len(),
{
    if b.len() == 0 {
        assert(a + b =~= a);
    } else {
        assert((a + b).drop_last() =~= a + b.drop_last());
        lemma_count_sum_append(a, b.drop_last());
    }
}

/// The files the selected items stand for are no more than the selected files.
pub proof fn lemma_selected_items_count(s: Seq<EntryView>)
    ensures
        count_sum(selected_items(s)) <= forest_measure(s, Measure::SelectedCount),
    decreases s, 0nat,
{
    if s.len() > 0 {
        lemma_selected_items_count(s.drop_last());
        lemma_items_of_count(s.last());
        lemma_count_sum_append(selected_items(s.drop_last()), items_of(s.last()));
    }
}

/// The files the items of one entry stand for are no more than its selected files.
pub proof fn lemma_items_of_count(v: EntryView)
    ensures
        count_sum(items_of(v)) <= tree_measure(v, Measure::SelectedCount),
    decreases v, 1nat,
{
    if v.selected {
        let it = seq![(v.path, tree_measure(v, Measure::SelectedCount))];
        assert(it.drop_last() =~= Seq::<(Seq<Seq<char>>, nat)>::empty());
        assert(count_sum(Seq::<(Seq<Seq<char>>, nat)>::empty()) == 0);
        assert(count_sum(it) == tree_measure(v, Measure::SelectedCount));
    } else if v.is_dir {
        lemma_selected_items_count(v.children);
    }
}

/// Selected items are sent to the recycle bin in batches of this many items; nothing is
/// ever deleted for good.
pub const TRASH_BATCH_SIZE: usize = 50;

/// The items cut into consecutive batches of `size` (the last one possibly shorter).
pub open spec fn chunks<T>(items: Seq<T>, size: nat) -> Seq<Seq<T>>
    decreases items.len(),
{
    if items.len() == 0 || size == 0 {
        Seq::empty()
    } else if items.len() <= size {
        seq![items]
    } else {
        seq![items.take(size as int)] + chunks(items.skip(size as int), size)
    }
}

/// One step of a deletion: the paths removed together and the files they stand for.
#[derive(Debug)]
pub struct DeleteBatch {
    pub paths: Vec<Vec<String>>,
    pub files: usize,
}

/// The deletion of the selected entries, cut into steps.
#[derive(Debug)]
pub struct DeletionPlan {
    pub batches: Vec<DeleteBatch>,
    /// The files all the steps stand for.
    pub total_files: usize,
}

/// A step as the paths of its items and the files they stand for.
pub open spec fn batch_view(b: DeleteBatch) -> (Seq<Seq<Seq<char>>>, nat) {
    (b.paths@.map_values(|p: Vec<String>| path_view(p@)), b.files as nat)
}

/// The step that deletes a batch of items.
pub open spec fn batch_of(chunk: Seq<(Seq<Seq<char>>, nat)>) -> (Seq<Seq<Seq<char>>>, nat) {
    (chunk.map_values(|it: (Seq<Seq<char>>, nat)| it.0), count_sum(chunk))
}

/// The steps a deletion goes through: the selected items in batches of
/// `TRASH_BATCH_SIZE`, each sent to the recycle bin together.
pub open spec fn deletion_steps(s: Seq<EntryView>) -> Seq<(Seq<Seq<Seq<char>>>, nat)> {
    chunks(selected_items(s), TRASH_BATCH_SIZE as nat).map_values(
        |c: Seq<(Seq<Seq<char>>, nat)>| batch_of(c),
    )
}

/// Builds one step from consecutive items.
fn make_batch(items: &Vec<(Vec<String>, usize)>, from: usize, to: usize) -> (r: DeleteBatch)
    requires
        from <= to <= items@.len(),
        count_sum(items_view(items@).subrange(from as int, to as int)) <= usize::MAX,
    ensures
        batch_view(r) == batch_of(items_view(items@).subrange(from as int, to as int)),
{
    let ghost iv = items_view(items@);
    let mut paths: Vec<Vec<String>> = Vec::new();
    let mut files: usize = 0;
    let mut k = from;
    while k < to
        invariant
            from <= k <= to <= items@.len(),
            iv == items_view(items@),
            iv.len() == items@.len(),
            count_sum(iv.subrange(from as int, to as int)) <= usize::MAX,
            paths@.map_values(|p: Vec<String>| path_view(p@)) == iv.subrange(from as int, k as int).map_values(|it: (Seq<Seq<char>>, nat)| it.0),
            files == count_sum(iv.subrange(from as int, k as int)),
        decreases to - k,
    {
        let ghost before = iv.subrange(from as int, k as int);
        let ghost after = iv.subrange(from as int, k + 1);
        proof {
            assert(after.drop_last() =~= before);
            assert(iv.subrange(from as int, to as int) =~= after + iv.subrange(k + 1, to as int));
            lemma_count_sum_append(after, iv.subrange(k + 1, to as int));
        }
        let p = items[k].0.clone();
        proof {
            assert(path_view(p@) =~= path_view(items@[k as int].0@));
            assert(iv[k as int].0 == path_view(items@[k as int].0@));
            assert(after =~= before.push(iv[k as int]));
        }
        let ghost old_paths = paths@;
        paths.push(p);
        files = files + items[k].1;
        k = k + 1;
        proof {
            assert(paths@ == old_paths.push(p));
            assert(paths@.map_values(|p: Vec<String>| path_view(p@)) =~= old_paths.map_values(|p: Vec<String>| path_view(p@)).push(path_view(p@)));
            assert(after.map_values(|it: (Seq<Seq<char>>, nat)| it.0) =~= before.map_values(|it: (Seq<Seq<char>>, nat)| it.0).push(iv[k - 1].0));
            assert(paths@.map_values(|p: Vec<String>| path_view(p@)) =~= after.map_values(|it: (Seq<Seq<char>>, nat)| it.0));
        }
    }
    DeleteBatch { paths, files }
}

/// Cuts the selected items (see `collect_selected_paths`) into batches of
/// `TRASH_BATCH_SIZE` items for the recycle bin; `total_files` is the number of files
/// they all stand for.
pub fn plan_deletion(entries: &Vec<FileEntry>) -> (r: DeletionPlan)
    requires
        forest_measure(forest_view(entries@), Measure::SelectedCount) <= usize::MAX,
    ensures
        r.batches@.map_values(|b: DeleteBatch| batch_view(b)) == deletion_steps(forest_view(entries@)),
        r.total_files == count_sum(selected_items(forest_view(entries@))),
        batch_files_sum(r.batches@) == r.total_files,
{
    let items = collect_selected_paths(entries);
    let ghost iv = items_view(items@);
    proof {
        lemma_selected_items_count(forest_view(entries@));
    }
    let size: usize = TRASH_BATCH_SIZE;
    let mut batches: Vec<DeleteBatch> = Vec::new();
    let mut total: usize = 0;
    let mut start: usize = 0;
    assert(iv.skip(0) =~= iv);
    while start < items.len()
        invariant
            iv == items_view(items@),
            iv.len() == items@.len(),
            size == TRASH_BATCH_SIZE,
            start <= items@.len(),
            count_sum(iv) <= usize::MAX,
            total == count_sum(iv.take(start as int)),
            total == batch_files_sum(batches@),
            batches@.map_values(|b: DeleteBatch| batch_view(b)) + chunks(iv.skip(start as int), size as nat).map_values(
                |c: Seq<(Seq<Seq<char>>, nat)>| batch_of(c),
            ) == chunks(iv, size as nat).map_values(|c: Seq<(Seq<Seq<char>>, nat)>| batch_of(c)),
        decreases items@.len() - start,
    {
        let end: usize = if items.len() - start <= size { items.len() } else { start + size };
        proof {
            assert(iv.take(end as int) =~= iv.take(start as int) + iv.subrange(start as int, end as int));
            assert(iv =~= iv.take(end as int) + iv.skip(end as int));
            lemma_count_sum_append(iv.take(start as int), iv.subrange(start as int, end as int));
            lemma_count_sum_append(iv.take(end as int), iv.skip(end as int));
            let rest = iv.skip(start as int);
            assert(rest.take(size as int) =~= iv.subrange(start as int, end as int) || rest.len() <= size);
            if rest.len() <= size {
                assert(rest =~= iv.subrange(start as int, end as int));
                assert(chunks(rest, size as nat) == seq![rest]);
                assert(iv.skip(end as int) =~= Seq::<(Seq<Seq<char>>, nat)>::empty());
            } else {
                assert(rest.skip(size as int) =~= iv.skip(end as int));
                assert(chunks(rest, size as nat) == seq![rest.take(size as int)] + chunks(rest.skip(size as int), size as nat));
            }
        }
        let b = make_batch(&items, start, end);
        let ghost old_batches = batches@;
        let files = b.files;
        batches.push(b);
        assert(batches@.drop_last() =~= old_batches);
        total = total + files;
        proof {
            let rest = iv.skip(start as int);
            let f = |c: Seq<(Seq<Seq<char>>, nat)>| batch_of(c);
            assert(batches@.map_values(|b: DeleteBatch| batch_view(b)) =~= old_batches.map_values(|b: DeleteBatch| batch_view(b)).push(batch_of(iv.subrange(start as int, end as int))));
            assert(chunks(rest, size as nat).map_values(f) =~= seq![batch_of(iv.subrange(start as int, end as int))] + chunks(iv.skip(end as int), size as nat).map_values(f));
        }
        start = end;
    }
    proof {
        assert(iv.take(iv.len() as int) =~= iv);
        assert(iv.skip(iv.len() as int) =~= Seq::<(Seq<Seq<char>>, nat)>::empty());
    }
    DeletionPlan { batches, total_files: total }
}

/// The measures that do not depend on which entries are selected.
pub open spec fn selection_blind(m: Measure) -> bool {
    m is Entries || m is AllSizes || m is TotalSize || m is Files
}

/// Setting every selection flag of a subtree keeps its selection-blind measures.
pub proof fn lemma_selection_set_measure(v: EntryView, b: bool, m: Measure)
    requires
        selection_blind(m),
    ensures
        tree_measure(selection_set(v, b), m) == tree_measure(v, m),
    decreases v, 1nat,
{
    lemma_selection_set_forest_measure(v.children, b, m);
}

/// `lemma_selection_set_measure` for a sequence of entries.
pub proof fn lemma_selection_set_forest_measure(s: Seq<EntryView>, b: bool, m: Measure)
    requires
        selection_blind(m),
    ensures
        forest_measure(selection_set_forest(s, b), m) == forest_measure(s, m),
    decreases s, 0nat,
{
    if s.len() > 0 {
        lemma_selection_set_forest_measure(s.drop_last(), b, m);
        lemma_selection_set_measure(s.last(), b, m);
        let t = selection_set_forest(s, b);
        assert(t.drop_last() == selection_set_forest(s.drop_last(), b));
        assert(t.last() == selection_set(s.last(), b));
    }
}

/// Selecting old files keeps the selection-blind measures of a subtree.
pub proof fn lemma_select_old_measure(v: EntryView, days: u64, patterns: Seq<Seq<char>>, now: u64, m: Measure)
    requires
        selection_blind(m),
    ensures
        tree_measure(select_old_tree(v, days, patterns, now), m) == tree_measure(v, m),
    decreases v, 1nat,
{
    if excluded_by(v.name, patterns) {
        lemma_selection_set_measure(v, false, m);
    } else if v.is_dir {
        lemma_select_old_forest_measure(v.children, days, patterns, now, m);
    }
}

/// `lemma_select_old_measure` for a sequence of entries.
pub proof fn lemma_select_old_forest_measure(s: Seq<EntryView>, days: u64, patterns: Seq<Seq<char>>, now: u64, m: Measure)
    requires
        selection_blind(m),
    ensures
        forest_measure(select_old_forest(s, days, patterns, now), m) == forest_measure(s, m),
    decreases s, 0nat,
{
    if s.len() > 0 {
        lemma_select_old_forest_measure(s.drop_last(), days, patterns, now, m);
        lemma_select_old_measure(s.last(), days, patterns, now, m);
        let t = select_old_forest(s, days, patterns, now);
        assert(t.drop_last() == select_old_forest(s.drop_last(), days, patterns, now));
        assert(t.last() == select_old_tree(s.last(), days, patterns, now));
    }
}

/// Selecting old files at the top level keeps the selection-blind measures.
pub proof fn lemma_shallow_selection_measure(
    before: Seq<EntryView>,
    after: Seq<EntryView>,
    days: u64,
    patterns: Seq<Seq<char>>,
    now: u64,
    m: Measure,
)
    requires
        selection_blind(m),
        shallow_selection(before, after, days, patterns, now),
    ensures
        forest_measure(after, m) == forest_measure(before, m),
    decreases before.len(),
{
    if before.len() > 0 {
        let k = before.len() - 1;
        assert(shallow_selection(before.drop_last(), after.drop_last(), days, patterns, now)) by {
            assert forall|i: int| 0 <= i < before.drop_last().len() implies #[trigger] after.drop_last()[i]
                == select_old_shallow(before.drop_last()[i], days, patterns, now) by {
                assert(after[i] == select_old_shallow(before[i], days, patterns, now));
            }
        }
        lemma_shallow_selection_measure(before.drop_last(), after.drop_last(), days, patterns, now, m);
        assert(after[k] == select_old_shallow(before[k], days, patterns, now));
        assert(tree_measure(after[k], m) == tree_measure(before[k], m));
    }
}

/// Selected files and empty folders are among the entries, and their sizes among the sizes
/// of all entries.
pub proof fn lemma_selected_within(v: EntryView)
    ensures
        tree_measure(v, Measure::SelectedCount) <= tree_measure(v, Measure::Entries),
        tree_measure(v, Measure::SelectedSize) <= tree_measure(v, Measure::AllSizes),
    decreases v, 1nat,
{
    lemma_selected_within_forest(v.children);
}

/// `lemma_selected_within` for a sequence of entries.
pub proof fn lemma_selected_within_forest(s: Seq<EntryView>)
    ensures
        forest_measure(s, Measure::SelectedCount) <= forest_measure(s, Measure::Entries),
        forest_measure(s, Measure::SelectedSize) <= forest_measure(s, Measure::AllSizes),
    decreases s, 0nat,
{
    if s.len() > 0 {
        lemma_selected_within_forest(s.drop_last());
        lemma_selected_within(s.last());
    }
}

impl CleanResult {
    /// Nothing deleted yet, nothing failed.
    pub fn new() -> (r: CleanResult)
        ensures
            r.deleted == 0,
            r.failed@.len() == 0,
    {
        CleanResult { deleted: 0, failed: Vec::new() }
    }

    /// A step deleted the files it stands for.
    pub fn record_deleted(&mut self, files: usize)
        requires
            old(self).deleted + files <= usize::MAX,
        ensures
            final(self).deleted == old(self).deleted + files,
            final(self).failed@ == old(self).failed@,
    {
        self.deleted = self.deleted + files;
    }

    /// A step failed: what it was about, and why.
    pub fn record_failure(&mut self, name: String, reason: String)
        ensures
            final(self).deleted == old(self).deleted,
            final(self).failed@ == old(self).failed@.push((name, reason)),
    {
        self.failed.push((name, reason));
    }
}

impl DeletionPlan {
    /// The files the steps before step `k` stand for: the progress shown before step `k`.
    pub fn files_before(&self, k: usize) -> (r: usize)
        requires
            k <= self.batches@.len(),
            batch_files_sum(self.batches@) == self.total_files,
        ensures
            r == batch_files_sum(self.batches@.take(k as int)),
    {
        proof {
            lemma_batch_files_sum_prefix(self.batches@, k as int);
        }
        let mut acc: usize = 0;
        for i in 0..k
            invariant
                k <= self.batches@.len(),
                batch_files_sum(self.batches@.take(k as int)) <= usize::MAX,
                acc == batch_files_sum(self.batches@.take(i as int)),
        {
            proof {
                assert(self.batches@.take(i + 1).drop_last() =~= self.batches@.take(i as int));
                lemma_batch_files_sum_prefix(self.batches@.take(k as int), i + 1);
                assert(self.batches@.take(k as int).take(i + 1) =~= self.batches@.take(i + 1));
            }
            acc = acc + self.batches[i].files;
        }
        acc
    }
}

/// The files a sequence of steps stands for.
pub open spec fn batch_files_sum(bs: Seq<DeleteBatch>) -> nat
    decreases bs.len(),
{
    if bs.len() == 0 {
        0
    } else {
        batch_files_sum(bs.drop_last()) + bs.last().files as nat
    }
}

/// A prefix of the steps stands for no more files than all of them.
proof fn lemma_batch_files_sum_prefix(bs: Seq<DeleteBatch>, i: int)
    requires
        0 <= i <= bs.len(),
    ensures
        batch_files_sum(bs.take(i)) <= batch_files_sum(bs),
    decreases bs.len() - i,
{
    if i < bs.len() {
        assert(bs.take(i + 1).drop_last() =~= bs.take(i));
        lemma_batch_files_sum_prefix(bs, i + 1);
    } else {
        assert(bs.take(i) =~= bs);
    }
}

/// The progress message before a batch: `Đang xóa nhóm chứa: <name>`, the name of the
/// batch's first item.
pub fn deletion_step_message(file_name: &str) -> (r: String)
    ensures
        r@ == "Đang xóa nhóm chứa: "@ + file_name@,
{
    let mut s = String::new();
    push_str(&mut s, "Đang xóa nhóm chứa: ");
    push_str(&mut s, file_name);
    s
}

/// The last progress message of a deletion.
pub fn deletion_done_message() -> (r: String)
    ensures
        r@ == "Hoàn tất!"@,
{
    owned("Hoàn tất!")
}

/// What a failed batch of a deletion is reported as: `Nhóm số <k + 1>` for the `k`-th
/// batch sent to the recycle bin.
pub fn batch_label(k: usize) -> (r: String)
    requires
        k < usize::MAX,
    ensures
        r@ == "Nhóm số "@ + decimal(k as nat + 1),
{
    let mut s = String::new();
    push_str(&mut s, "Nhóm số ");
    push_decimal(&mut s, (k + 1) as u64);
    s
}

/// Why a batch sent to the recycle bin failed: `Lỗi xóa hàng loạt: <e>`.
pub fn deletion_error_message(error: &str) -> (r: String)
    ensures
        r@ == "Lỗi xóa hàng loạt: "@ + error@,
{
    let mut s = String::new();
    push_str(&mut s, "Lỗi xóa hàng loạt: ");
    push_str(&mut s, error);
    s
}

/// A listing as a scan makes it: files have no children, at every depth.
pub open spec fn tree_well_formed(v: EntryView) -> bool
    decreases v, 1nat,
{
    &&& (!v.is_dir ==> v.children.len() == 0)
    &&& forest_well_formed(v.children)
}

/// `tree_well_formed` of every entry of a sequence.
pub open spec fn forest_well_formed(s: Seq<EntryView>) -> bool
    decreases s, 0nat,
{
    s.len() == 0 || (forest_well_formed(s.drop_last()) && tree_well_formed(s.last()))
}

/// After deselecting everything, nothing is selected: no file counts as selected and the
/// selected size is zero.
pub proof fn lemma_deselect_all_clears(s: Seq<EntryView>)
    requires
        forest_well_formed(s),
    ensures
        forest_measure(deselect_forest(s), Measure::SelectedCount) == 0,
        forest_measure(deselect_forest(s), Measure::SelectedSize) == 0,
    decreases s, 0nat,
{
    if s.len() > 0 {
        lemma_deselect_all_clears(s.drop_last());
        lemma_deselect_tree_clears(s.last());
        let d = deselect_forest(s);
        assert(d.drop_last() == deselect_forest(s.drop_last()));
        assert(d.last() == deselect_tree(s.last()));
    }
}

/// `lemma_deselect_all_clears` for one entry.
pub proof fn lemma_deselect_tree_clears(v: EntryView)
    requires
        tree_well_formed(v),
    ensures
        tree_measure(deselect_tree(v), Measure::SelectedCount) == 0,
        tree_measure(deselect_tree(v), Measure::SelectedSize) == 0,
    decreases v, 1nat,
{
    if v.is_dir {
        lemma_deselect_all_clears(v.children);
    } else {
        assert(v.children =~= Seq::<EntryView>::empty());
    }
}

/// The selected items stand for exactly the selected files (and empty folders): the
/// progress of a deletion ends at the number the confirmation showed.
pub proof fn lemma_selected_items_cover(s: Seq<EntryView>)
    requires
        forest_well_formed(s),
    ensures
        count_sum(selected_items(s)) == forest_measure(s, Measure::SelectedCount),
    decreases s, 0nat,
{
    if s.len() > 0 {
        lemma_selected_items_cover(s.drop_last());
        lemma_items_of_cover(s.last());
        lemma_count_sum_append(selected_items(s.drop_last()), items_of(s.last()));
    }
}

/// `lemma_selected_items_cover` for one entry.
pub proof fn lemma_items_of_cover(v: EntryView)
    requires
        tree_well_formed(v),
    ensures
        count_sum(items_of(v)) == tree_measure(v, Measure::SelectedCount),
    decreases v, 1nat,
{
    if v.selected {
        let it = seq![(v.path, tree_measure(v, Measure::SelectedCount))];
        assert(it.drop_last() =~= Seq::<(Seq<Seq<char>>, nat)>::empty());
        assert(count_sum(Seq::<(Seq<Seq<char>>, nat)>::empty()) == 0);
    } else if v.is_dir {
        lemma_selected_items_cover(v.children);
    } else {
        assert(v.children =~= Seq::<EntryView>::empty());
        assert(count_sum(Seq::<(Seq<Seq<char>>, nat)>::empty()) == 0);
    }
}

} // verus!
