use vstd::prelude::*;
use vstd::set_lib::{lemma_int_range, lemma_len_subset, lemma_map_size, set_int_range};

use crate::file_info::{forest_view, lemma_forest_view, path_view, EntryView, FileCategory, FileEntry};
use crate::text::{
    push_str, chars_of, decimal, eq_chars, lemma_decimal_injective, owned, push_char, push_chars, push_decimal,
    string_from_chars, sub_chars,
};

verus! {

/// The outcome of sorting files into folders by kind.
#[derive(Debug)]
pub struct SortResult {
    /// Number of files moved.
    pub moved: usize,
    /// The files (or folders) that could not be handled, each with the reason.
    pub failed: Vec<(String, String)>,
}

/// The kinds whose folders sorting may create, in the order they are listed.
pub open spec fn sort_categories() -> Seq<FileCategory> {
    seq![
        FileCategory::Document,
        FileCategory::Image,
        FileCategory::Video,
        FileCategory::Audio,
        FileCategory::Archive,
        FileCategory::Executable,
        FileCategory::Code,
        FileCategory::Other,
    ]
}

/// The names of the folders sorting creates: those of `sort_categories`, empty ones left out.
pub open spec fn sort_folder_names() -> Seq<Seq<char>> {
    sort_categories().map_values(|c: FileCategory| c.folder_name_spec()).filter(|n: Seq<char>| n.len() > 0)
}

/// The names of the folders that sorting by kind creates.
pub fn get_sort_folder_names() -> (r: Vec<&'static str>)
    ensures
        r@.map_values(|s: &str| s@) == sort_folder_names(),
{
    let mut cats: Vec<FileCategory> = Vec::new();
    cats.push(FileCategory::Document);
    cats.push(FileCategory::Image);
    cats.push(FileCategory::Video);
    cats.push(FileCategory::Audio);
    cats.push(FileCategory::Archive);
    cats.push(FileCategory::Executable);
    cats.push(FileCategory::Code);
    cats.push(FileCategory::Other);
    assert(cats@ =~= sort_categories());
    let ghost names = sort_categories().map_values(|c: FileCategory| c.folder_name_spec());
    let mut out: Vec<&'static str> = Vec::new();
    for i in 0..cats.len()
        invariant
            cats@ == sort_categories(),
            names == sort_categories().map_values(|c: FileCategory| c.folder_name_spec()),
            out@.map_values(|s: &str| s@) == names.take(i as int).filter(|n: Seq<char>| n.len() > 0),
    {
        let n = cats[i].folder_name();
        proof {
            assert(names[i as int] == n@);
            assert(names.take(i + 1) =~= names.take(i as int).push(n@));
            names.take(i as int).lemma_filter_push(n@, |n: Seq<char>| n.len() > 0);
        }
        let nc = chars_of(n);
        if nc.len() > 0 {
            let ghost before = out@;
            out.push(n);
            assert(out@.map_values(|s: &str| s@) =~= before.map_values(|s: &str| s@).push(n@));
        }
    }
    assert(names.take(names.len() as int) =~= names);
    out
}

/// The position of the last `.` in `s`, if any.
pub open spec fn last_dot(s: Seq<char>) -> Option<int>
    decreases s.len(),
{
    if s.len() == 0 {
        None
    } else if s.last() == '.' {
        Some(s.len() - 1)
    } else {
        last_dot(s.drop_last())
    }
}

/// The stem of a file name as a path gives it: everything before the last `.`, unless
/// the name is empty, `.` or `..`, has no `.`, or starts with its only `.`, in which cases
/// the whole name.
pub open spec fn name_stem(name: Seq<char>) -> Seq<char> {
    if name.len() == 0 || name == seq!['.'] || name == seq!['.', '.'] {
        name
    } else {
        match last_dot(name) {
            Some(i) => if i == 0 {
                name
            } else {
                name.take(i)
            },
            None => name,
        }
    }
}

/// The extension of a file name, with its dot, as a path gives it (empty when there is
/// none; `.` alone when the name ends with a dot).
pub open spec fn name_extension(name: Seq<char>) -> Seq<char> {
    if name.len() == 0 || name == seq!['.'] || name == seq!['.', '.'] {
        Seq::empty()
    } else {
        match last_dot(name) {
            Some(i) => if i == 0 {
                Seq::empty()
            } else {
                name.skip(i)
            },
            None => Seq::empty(),
        }
    }
}

/// The name tried after `name` is taken: the stem, `_`, the number, the extension.
pub open spec fn numbered_name(name: Seq<char>, k: nat) -> Seq<char> {
    name_stem(name) + seq!['_'] + decimal(k) + name_extension(name)
}

/// The `k`-th name tried: the name itself, then the numbered names from 1 on.
pub open spec fn candidate_name(name: Seq<char>, k: nat) -> Seq<char> {
    if k == 0 {
        name
    } else {
        numbered_name(name, k)
    }
}

/// The lowercase ASCII letters, in order.
pub open spec fn lower_letters() -> Seq<char> {
    seq!['a', 'b', 'c', 'd', 'e', 'f', 'g', 'h', 'i', 'j', 'k', 'l', 'm', 'n', 'o', 'p', 'q', 'r', 's', 't', 'u', 'v', 'w', 'x', 'y', 'z']
}

/// A character with an uppercase ASCII letter made lowercase.
pub open spec fn fold_char(c: char) -> char {
    if 'A' <= c <= 'Z' {
        lower_letters()[c as int - 'A' as int]
    } else {
        c
    }
}

/// A name with its ASCII letters made lowercase, so that names differing only in the case
/// of those letters compare equal, as they do on a case-insensitive file system.
pub open spec fn fold_case(s: Seq<char>) -> Seq<char> {
    s.map_values(|c: char| fold_char(c))
}

/// The names of a folder, each with its case folded.
pub open spec fn folded_names(existing: Seq<Seq<char>>) -> Seq<Seq<char>> {
    existing.map_values(|n: Seq<char>| fold_case(n))
}

/// Whether a folder holding `existing` already has `name`, ignoring the case of letters.
pub open spec fn name_taken(existing: Seq<Seq<char>>, name: Seq<char>) -> bool {
    folded_names(existing).contains(fold_case(name))
}

/// The name a file gets in a folder that already holds `existing`: the first candidate
/// (see `candidate_name`) that is not taken, names differing only in the case of letters
/// counting as the same.
pub open spec fn unique_name(name: Seq<char>, existing: Seq<Seq<char>>, k: nat) -> bool {
    &&& !name_taken(existing, candidate_name(name, k))
    &&& forall|j: nat| j < k ==> name_taken(existing, #[trigger] candidate_name(name, j))
}

/// Folding the case of two joined names folds each.
proof fn lemma_fold_concat(a: Seq<char>, b: Seq<char>)
    ensures
        fold_case(a + b) == fold_case(a) + fold_case(b),
{
    assert(fold_case(a + b) =~= fold_case(a) + fold_case(b));
}

/// Digits are left as they are by case folding.
proof fn lemma_fold_decimal(n: nat)
    ensures
        fold_case(decimal(n)) == decimal(n),
    decreases n,
{
    if n >= 10 {
        lemma_fold_decimal(n / 10);
        lemma_fold_concat(decimal(n / 10), seq![crate::text::digit_char(n % 10)]);
        assert(fold_case(seq![crate::text::digit_char(n % 10)]) =~= seq![crate::text::digit_char(n % 10)]);
        assert(decimal(n) == decimal(n / 10) + seq![crate::text::digit_char(n % 10)]);
    } else {
        assert(fold_case(decimal(n)) =~= decimal(n));
    }
}

/// Different numbers give different names, also with their case folded.
proof fn lemma_folded_numbered_injective(name: Seq<char>, a: nat, b: nat)
    requires
        fold_case(numbered_name(name, a)) == fold_case(numbered_name(name, b)),
    ensures
        a == b,
{
    let stem = name_stem(name);
    let ext = name_extension(name);
    let us = seq!['_'];
    lemma_fold_concat(stem + us + decimal(a), ext);
    lemma_fold_concat(stem + us, decimal(a));
    lemma_fold_concat(stem, us);
    lemma_fold_concat(stem + us + decimal(b), ext);
    lemma_fold_concat(stem + us, decimal(b));
    lemma_fold_decimal(a);
    lemma_fold_decimal(b);
    let fa = fold_case(numbered_name(name, a));
    let fb = fold_case(numbered_name(name, b));
    assert(fa == fold_case(stem) + fold_case(us) + decimal(a) + fold_case(ext));
    assert(fb == fold_case(stem) + fold_case(us) + decimal(b) + fold_case(ext));
    let lo = stem.len() + 1;
    assert(fa.len() == fb.len());
    assert(fa.subrange(lo as int, fa.len() - ext.len()) =~= decimal(a));
    assert(fb.subrange(lo as int, fb.len() - ext.len()) =~= decimal(b));
    lemma_decimal_injective(a, b);
}

/// A numbered name is longer than the name it is made from.
proof fn lemma_numbered_name_longer(name: Seq<char>, k: nat)
    ensures
        numbered_name(name, k).len() > name.len(),
{
    let stem = name_stem(name);
    let ext = name_extension(name);
    if !(name.len() == 0 || name == seq!['.'] || name == seq!['.', '.']) {
        if let Some(i) = last_dot(name) {
            lemma_last_dot_range(name);
        }
    }
    assert(stem.len() + ext.len() == name.len());
}

/// Where `last_dot` finds a dot, it lies inside the name.
proof fn lemma_last_dot_range(s: Seq<char>)
    ensures
        last_dot(s) matches Some(i) ==> 0 <= i < s.len(),
    decreases s.len(),
{
    if s.len() > 0 && s.last() != '.' {
        lemma_last_dot_range(s.drop_last());
    }
}

/// The name and `m` taken numbered names are all distinct, also with their case folded,
/// so they are no more than the names of the folder.
proof fn lemma_taken_bound(name: Seq<char>, existing: Seq<Seq<char>>, m: int)
    requires
        m >= 0,
        name_taken(existing, name),
        forall|k: int| 1 <= k <= m ==> name_taken(existing, #[trigger] numbered_name(name, k as nat)),
    ensures
        m < existing.len(),
{
    let fe = folded_names(existing);
    let x = set_int_range(1, m + 1);
    let f = |k: int| fold_case(numbered_name(name, k as nat));
    lemma_int_range(1, m + 1);
    assert(vstd::relations::injective_on(f, x)) by {
        assert forall|a: int, b: int| x.contains(a) && x.contains(b) && #[trigger] f(a) == #[trigger] f(b) implies a == b by {
            lemma_folded_numbered_injective(name, a as nat, b as nat);
        }
    }
    let y = x.map(f);
    lemma_map_size(x, y, f);
    assert(!y.contains(fold_case(name))) by {
        if y.contains(fold_case(name)) {
            let k = choose|k: int| x.contains(k) && f(k) == fold_case(name);
            lemma_numbered_name_longer(name, k as nat);
            assert(f(k).len() == numbered_name(name, k as nat).len());
            assert(fold_case(name).len() == name.len());
        }
    }
    let z = y.insert(fold_case(name));
    assert(z.subset_of(fe.to_set())) by {
        assert forall|s: Seq<char>| z.contains(s) implies fe.to_set().contains(s) by {
            if s != fold_case(name) {
                let k = choose|k: int| x.contains(k) && f(k) == s;
                assert(name_taken(existing, numbered_name(name, k as nat)));
            }
        }
    }
    fe.lemma_cardinality_of_set();
    lemma_len_subset(z, fe.to_set());
}

/// Appends the `k`-th numbered name for `name` to `s`.
fn numbered(stem: &Vec<char>, ext: &Vec<char>, k: u64) -> (r: String)
    ensures
        r@ == stem@ + seq!['_'] + decimal(k as nat) + ext@,
{
    let mut s = String::new();
    push_chars(&mut s, stem);
    push_char(&mut s, '_');
    push_decimal(&mut s, k);
    push_chars(&mut s, ext);
    s
}

/// The position of the last `.` in `s`, if any.
fn find_last_dot(s: &Vec<char>) -> (r: Option<usize>)
    ensures
        match r {
            Some(i) => last_dot(s@) == Some(i as int) && i < s@.len(),
            None => last_dot(s@) is None,
        },
{
    let mut k: usize = s.len();
    assert(s@.take(k as int) =~= s@);
    while k > 0
        invariant
            k <= s@.len(),
            last_dot(s@) == last_dot(s@.take(k as int)),
        decreases k,
    {
        assert(s@.take(k as int).drop_last() =~= s@.take(k - 1));
        if s[k - 1] == '.' {
            return Some(k - 1);
        }
        k = k - 1;
    }
    None
}

/// A character with an uppercase ASCII letter made lowercase (see `fold_char`).
fn fold_char_exec(c: char) -> (r: char)
    ensures
        r == fold_char(c),
{
    if 'A' <= c && c <= 'Z' {
        let lower: [char; 26] = [
            'a', 'b', 'c', 'd', 'e', 'f', 'g', 'h', 'i', 'j', 'k', 'l', 'm', 'n', 'o', 'p', 'q', 'r', 's', 't', 'u', 'v',
            'w', 'x', 'y', 'z',
        ];
        assert(lower@ =~= lower_letters());
        let i = (c as u32 - 'A' as u32) as usize;
        lower[i]
    } else {
        c
    }
}

/// The characters of a name with its case folded (see `fold_case`).
fn fold_chars(s: &str) -> (r: Vec<char>)
    ensures
        r@ == fold_case(s@),
{
    let cs = chars_of(s);
    let mut out: Vec<char> = Vec::new();
    for i in 0..cs.len()
        invariant
            cs@ == s@,
            out@ == fold_case(cs@.take(i as int)),
    {
        out.push(fold_char_exec(cs[i]));
        assert(fold_case(cs@.take(i + 1)) =~= fold_case(cs@.take(i as int)).push(fold_char(cs@[i as int])));
    }
    assert(cs@.take(cs@.len() as int) =~= cs@);
    out
}

/// Whether the name is among `existing`, ignoring the case of letters.
fn is_taken(name: &String, existing: &Vec<String>) -> (r: bool)
    ensures
        r == name_taken(existing@.map_values(|s: String| s@), name@),
{
    let ghost ev = existing@.map_values(|s: String| s@);
    let ghost fe = folded_names(ev);
    let target = fold_chars(name.as_str());
    for i in 0..existing.len()
        invariant
            ev == existing@.map_values(|s: String| s@),
            fe == folded_names(ev),
            target@ == fold_case(name@),
            forall|j: int| 0 <= j < i ==> fe[j] != target@,
    {
        let candidate = fold_chars(existing[i].as_str());
        if eq_chars(&candidate, &target) {
            assert(fe[i as int] == target@);
            return true;
        }
    }
    false
}

/// The name under which a file called `file_name` can be put in a folder that holds the
/// names `existing` without replacing one, also where names differing only in the case of
/// letters are the same file: the name itself if it is free, otherwise the first free
/// `stem_N.ext` for N = 1, 2, ... (see `unique_name`).
pub fn get_unique_path(file_name: &str, existing: &Vec<String>) -> (r: String)
    ensures
        exists|k: nat| unique_name(file_name@, existing@.map_values(|s: String| s@), k) && r@ == candidate_name(file_name@, k),
{
    let ghost ev = existing@.map_values(|s: String| s@);
    let first = owned(file_name);
    if !is_taken(&first, existing) {
        assert(unique_name(file_name@, ev, 0));
        return first;
    }
    let name = chars_of(file_name);
    // stem and extension as a path splits them
    let dot = find_last_dot(&name);
    let is_special = name.len() == 0 || (name.len() == 1 && name[0] == '.') || (name.len() == 2 && name[0] == '.' && name[1] == '.');
    proof {
        if name@.len() == 1 && name@[0] == '.' {
            assert(name@ =~= seq!['.']);
        }
        if name@.len() == 2 && name@[0] == '.' && name@[1] == '.' {
            assert(name@ =~= seq!['.', '.']);
        }
        if name@ == seq!['.'] {
            assert(name@.len() == 1);
        }
        if name@ == seq!['.', '.'] {
            assert(name@.len() == 2);
        }
    }
    let (stem, ext): (Vec<char>, Vec<char>) = if is_special {
        (sub_chars(&name, 0, name.len()), Vec::new())
    } else {
        match dot {
            Some(i) => if i == 0 {
                (sub_chars(&name, 0, name.len()), Vec::new())
            } else {
                (sub_chars(&name, 0, i), sub_chars(&name, i, name.len()))
            },
            None => (sub_chars(&name, 0, name.len()), Vec::new()),
        }
    };
    proof {
        assert(name@.subrange(0, name@.len() as int) =~= name@);
        if let Some(i) = dot {
            assert(name@.subrange(0, i as int) =~= name@.take(i as int));
            assert(name@.subrange(i as int, name@.len() as int) =~= name@.skip(i as int));
        }
        assert(stem@ == name_stem(file_name@));
        assert(ext@ == name_extension(file_name@));
    }
    let count = existing.len();
    let mut k: u64 = 1;
    loop
        invariant
            count == existing@.len(),
            1 <= k,
            k <= existing@.len(),
            ev == existing@.map_values(|s: String| s@),
            ev.len() == existing@.len(),
            stem@ == name_stem(file_name@),
            ext@ == name_extension(file_name@),
            name_taken(ev, file_name@),
            forall|j: int| 1 <= j < k ==> name_taken(ev, #[trigger] numbered_name(file_name@, j as nat)),
        decreases existing@.len() + 1 - k,
    {
        let candidate = numbered(&stem, &ext, k);
        if !is_taken(&candidate, existing) {
            proof {
                assert forall|j: nat| j < k implies name_taken(ev, #[trigger] candidate_name(file_name@, j)) by {
                    if j > 0 {
                        let ji = j as int;
                        assert(name_taken(ev, numbered_name(file_name@, ji as nat)));
                    }
                }
                assert(unique_name(file_name@, ev, k as nat));
            }
            return candidate;
        }
        proof {
            assert forall|j: int| 1 <= j <= k implies name_taken(ev, #[trigger] numbered_name(file_name@, j as nat)) by {
                if j < k {
                    assert(name_taken(ev, numbered_name(file_name@, j as nat)));
                }
            }
            lemma_taken_bound(file_name@, ev, k as int);
        }
        assert(k < count);
        k = k + 1;
    }
}

/// A move of one file into the folder for its kind.
#[derive(Debug)]
pub struct SortMove {
    /// Position of the file among the entries given.
    pub entry: usize,
    /// The name of the folder for its kind.
    pub folder: &'static str,
    /// The path of that folder: the base path and the folder's name.
    pub target_dir: Vec<String>,
}

/// Whether an entry is to be moved into the folder `base + [folder]`: a file whose kind has
/// a folder, and which is not already directly inside it.
pub open spec fn needs_move(v: EntryView, base: Seq<Seq<char>>) -> bool {
    let folder = v.category.folder_name_spec();
    &&& !v.is_dir
    &&& folder.len() > 0
    &&& !(v.path.len() > 0 && v.path.drop_last() == base.push(folder))
}

/// `moves` are those that sorting the entries `ev` by kind under `base` makes, in order: one
/// for each entry that `needs_move`, into the folder for its kind under `base`.
pub open spec fn is_sort_plan(ev: Seq<EntryView>, base: Seq<Seq<char>>, moves: Seq<SortMove>) -> bool {
    &&& moves.len() <= ev.len()
    &&& forall|m: int| 0 <= m < moves.len() ==> {
        &&& #[trigger] moves[m].entry < ev.len()
        &&& moves[m].folder@ == ev[moves[m].entry as int].category.folder_name_spec()
        &&& path_view(moves[m].target_dir@) == base.push(moves[m].folder@)
    }
    &&& forall|m: int, n: int| 0 <= m < n < moves.len() ==> moves[m].entry < moves[n].entry
    &&& forall|i: int| 0 <= i < ev.len() ==> (needs_move(#[trigger] ev[i], base)
        <==> exists|m: int| 0 <= m < moves.len() && moves[m].entry == i)
}

/// The moves sorting the entries by kind makes (see `is_sort_plan`).
pub fn plan_sort(entries: &Vec<FileEntry>, base_path: &Vec<String>) -> (r: Vec<SortMove>)
    ensures
        is_sort_plan(forest_view(entries@), path_view(base_path@), r@),
        r@.len() <= entries@.len(),
        forall|m: int| 0 <= m < r@.len() ==> {
            &&& #[trigger] r@[m].entry < entries@.len()
            &&& r@[m].folder@ == entries@[r@[m].entry as int]@.category.folder_name_spec()
            &&& path_view(r@[m].target_dir@) == path_view(base_path@).push(r@[m].folder@)
        },
        forall|m: int, n: int| 0 <= m < n < r@.len() ==> r@[m].entry < r@[n].entry,
        forall|i: int| 0 <= i < entries@.len() ==> (needs_move(#[trigger] entries@[i]@, path_view(base_path@))
            <==> exists|m: int| 0 <= m < r@.len() && r@[m].entry == i),
{
    let ghost base = path_view(base_path@);
    let mut out: Vec<SortMove> = Vec::new();
    for i in 0..entries.len()
        invariant
            base == path_view(base_path@),
            out@.len() <= i,
            forall|m: int| 0 <= m < out@.len() ==> {
                &&& #[trigger] out@[m].entry < i
                &&& out@[m].folder@ == entries@[out@[m].entry as int]@.category.folder_name_spec()
                &&& path_view(out@[m].target_dir@) == base.push(out@[m].folder@)
            },
            forall|m: int, n: int| 0 <= m < n < out@.len() ==> out@[m].entry < out@[n].entry,
            forall|j: int| 0 <= j < i ==> (needs_move(#[trigger] entries@[j]@, base)
                <==> exists|m: int| 0 <= m < out@.len() && out@[m].entry == j),
    {
        let planned = plan_move(&entries[i], i, base_path);
        let ghost old_out = out@;
        if let Some(mv) = planned {
            out.push(mv);
        }
        proof {
            assert forall|j: int| 0 <= j < i + 1 implies (needs_move(#[trigger] entries@[j]@, base)
                <==> exists|m: int| 0 <= m < out@.len() && out@[m].entry == j) by {
                if j < i {
                    if exists|m: int| 0 <= m < old_out.len() && old_out[m].entry == j {
                        let m = choose|m: int| 0 <= m < old_out.len() && old_out[m].entry == j;
                        assert(out@[m] == old_out[m]);
                    }
                    if exists|m: int| 0 <= m < out@.len() && out@[m].entry == j {
                        let m = choose|m: int| 0 <= m < out@.len() && out@[m].entry == j;
                        assert(m < old_out.len());
                        assert(old_out[m] == out@[m]);
                    }
                } else if planned is Some {
                    assert(out@[out@.len() - 1].entry == j);
                } else {
                    assert(out@ == old_out);
                }
            }
        }
    }
    proof {
        lemma_forest_view(entries@);
        let ev = forest_view(entries@);
        assert forall|i: int| 0 <= i < ev.len() implies (needs_move(#[trigger] ev[i], base)
            <==> exists|m: int| 0 <= m < out@.len() && out@[m].entry == i) by {
            assert(ev[i] == entries@[i]@);
        }
        assert forall|m: int| 0 <= m < out@.len() implies {
            &&& #[trigger] out@[m].entry < ev.len()
            &&& out@[m].folder@ == ev[out@[m].entry as int].category.folder_name_spec()
            &&& path_view(out@[m].target_dir@) == base.push(out@[m].folder@)
        } by {
            assert(ev[out@[m].entry as int] == entries@[out@[m].entry as int]@);
        }
    }
    out
}

/// The move for one entry, at position `idx`, if it `needs_move`.
fn plan_move(entry: &FileEntry, idx: usize, base_path: &Vec<String>) -> (r: Option<SortMove>)
    ensures
        r is Some <==> needs_move(entry@, path_view(base_path@)),
        r matches Some(m) ==> {
            &&& m.entry == idx
            &&& m.folder@ == entry@.category.folder_name_spec()
            &&& path_view(m.target_dir@) == path_view(base_path@).push(m.folder@)
        },
{
    let ghost base = path_view(base_path@);
    if entry.is_dir {
        return None;
    }
    let folder = entry.category.folder_name();
    let fc = chars_of(folder);
    if fc.len() == 0 {
        return None;
    }
    let mut target: Vec<String> = Vec::new();
    for k in 0..base_path.len()
        invariant
            path_view(target@) == base.take(k as int),
            base == path_view(base_path@),
    {
        let ghost before = target@;
        let c = base_path[k].clone();
        target.push(c);
        assert(path_view(target@) =~= path_view(before).push(c@));
        assert(base.take(k + 1) =~= base.take(k as int).push(base[k as int]));
    }
    assert(base.take(base.len() as int) =~= base);
    let ghost before_t = target@;
    let fs = owned(folder);
    target.push(fs);
    assert(path_view(target@) =~= path_view(before_t).push(folder@));
    if is_in_folder(&entry.path, &target) {
        return None;
    }
    Some(SortMove { entry: idx, folder, target_dir: target })
}

/// Whether the entry at `path` lies directly in the folder `dir`.
fn is_in_folder(path: &Vec<String>, dir: &Vec<String>) -> (r: bool)
    ensures
        r == (path@.len() > 0 && path_view(path@).drop_last() == path_view(dir@)),
{
    let ghost pv = path_view(path@);
    let ghost dv = path_view(dir@);
    assert(pv.len() == path@.len() && dv.len() == dir@.len());
    if path.len() == 0 || path.len() - 1 != dir.len() {
        return false;
    }
    for k in 0..dir.len()
        invariant
            pv == path_view(path@),
            dv == path_view(dir@),
            path@.len() == dir@.len() + 1,
            forall|j: int| 0 <= j < k ==> pv[j] == dv[j],
    {
        if path[k] != dir[k] {
            assert(pv.drop_last()[k as int] != dv[k as int]);
            return false;
        }
    }
    assert(pv.drop_last() =~= dv);
    true
}

impl SortResult {
    /// Nothing moved yet, nothing failed.
    pub fn new() -> (r: SortResult)
        ensures
            r.moved == 0,
            r.failed@.len() == 0,
    {
        SortResult { moved: 0, failed: Vec::new() }
    }

    /// One more file was moved.
    pub fn record_moved(&mut self)
        requires
            old(self).moved < usize::MAX,
        ensures
            final(self).moved == old(self).moved + 1,
            final(self).failed@ == old(self).failed@,
    {
        self.moved = self.moved + 1;
    }

    /// A file (or a folder) could not be handled, and why.
    pub fn record_failure(&mut self, name: String, reason: String)
        ensures
            final(self).moved == old(self).moved,
            final(self).failed@ == old(self).failed@.push((name, reason)),
    {
        self.failed.push((name, reason));
    }
}

/// Why a move failed.
#[derive(Debug, Clone, Copy, PartialEq, Eq, Structural)]
pub enum SortFailure {
    /// The folder for the kind could not be created.
    CreateFolder,
    /// The file was copied but the original could not be removed.
    RemoveOriginal,
    /// The file could be neither renamed nor copied.
    Move,
}

/// The reason given for a failure, with the system's error text `e`.
pub fn sort_failure_message(kind: SortFailure, e: &str) -> (r: String)
    ensures
        r@ == (match kind {
            SortFailure::CreateFolder => "Không thể tạo thư mục: "@,
            SortFailure::RemoveOriginal => "Không thể xóa gốc: "@,
            SortFailure::Move => "Không thể di chuyển: "@,
        }) + e@,
{
    let mut s = String::new();
    match kind {
        SortFailure::CreateFolder => push_str(&mut s, "Không thể tạo thư mục: "),
        SortFailure::RemoveOriginal => push_str(&mut s, "Không thể xóa gốc: "),
        SortFailure::Move => push_str(&mut s, "Không thể di chuyển: "),
    }
    push_str(&mut s, e);
    s
}

/// The reason given for a failure of kind `kind`, with the system's error text `e` (see
/// `sort_failure_message`).
pub open spec fn failure_text(kind: SortFailure, e: Seq<char>) -> Seq<char> {
    (match kind {
        SortFailure::CreateFolder => "Không thể tạo thư mục: "@,
        SortFailure::RemoveOriginal => "Không thể xóa gốc: "@,
        SortFailure::Move => "Không thể di chuyển: "@,
    }) + e
}

/// `after` is `before` with one more failure, `name` for `reason`, and no more files moved.
pub open spec fn one_more_failure(before: SortResult, after: SortResult, name: Seq<char>, reason: Seq<char>) -> bool {
    &&& after.moved == before.moved
    &&& after.failed@.len() == before.failed@.len() + 1
    &&& after.failed@.drop_last() == before.failed@
    &&& after.failed@.last().0@ == name
    &&& after.failed@.last().1@ == reason
}

/// What carrying out one planned move reports after each file operation.
#[derive(Debug)]
pub enum MoveEvent {
    /// The folder for the kind could not be created.
    FolderFailed { error: String },
    /// The file was renamed into place.
    Renamed,
    /// Renaming failed.
    RenameFailed { error: String },
    /// The file was copied into place after renaming failed.
    Copied,
    /// Copying failed too; `rename_error` is why renaming had failed.
    CopyFailed { rename_error: String },
    /// The original was removed after copying.
    Removed,
    /// The original could not be removed after copying.
    RemoveFailed { error: String },
}

/// What to do next for a move.
#[derive(Debug)]
pub enum MoveAction {
    /// Copy the file into place, then report how it went (with `rename_error` should it fail).
    Copy { rename_error: String },
    /// Remove the original, then report how it went.
    RemoveOriginal,
    /// The move is over; go on with the next one.
    NextMove,
}

/// One step of carrying out a move (see `plan_sort`): records what an operation's outcome
/// means for the result and says what to do next. A file that cannot be renamed is copied
/// and its original removed; a folder that cannot be created is reported under the
/// folder's name, a file that can be neither renamed nor copied with the rename's error,
/// and an original that cannot be removed with that error.
pub fn move_step(result: &mut SortResult, folder: &str, file_name: &str, event: MoveEvent) -> (r: MoveAction)
    requires
        old(result).moved < usize::MAX,
    ensures
        match event {
            MoveEvent::FolderFailed { error } => r is NextMove
                && one_more_failure(*old(result), *final(result), folder@, failure_text(SortFailure::CreateFolder, error@)),
            MoveEvent::Renamed => r is NextMove && final(result).moved == old(result).moved + 1
                && final(result).failed@ == old(result).failed@,
            MoveEvent::RenameFailed { error } => (r matches MoveAction::Copy { rename_error } && rename_error@ == error@)
                && *final(result) == *old(result),
            MoveEvent::Copied => r is RemoveOriginal && *final(result) == *old(result),
            MoveEvent::CopyFailed { rename_error } => r is NextMove
                && one_more_failure(*old(result), *final(result), file_name@, failure_text(SortFailure::Move, rename_error@)),
            MoveEvent::Removed => r is NextMove && final(result).moved == old(result).moved + 1
                && final(result).failed@ == old(result).failed@,
            MoveEvent::RemoveFailed { error } => r is NextMove
                && one_more_failure(*old(result), *final(result), file_name@, failure_text(SortFailure::RemoveOriginal, error@)),
        },
{
    match event {
        MoveEvent::FolderFailed { error } => {
            let reason = sort_failure_message(SortFailure::CreateFolder, error.as_str());
            result.record_failure(owned(folder), reason);
            assert(result.failed@.drop_last() =~= old(result).failed@);
            MoveAction::NextMove
        },
        MoveEvent::Renamed => {
            result.record_moved();
            MoveAction::NextMove
        },
        MoveEvent::RenameFailed { error } => MoveAction::Copy { rename_error: error },
        MoveEvent::Copied => MoveAction::RemoveOriginal,
        MoveEvent::CopyFailed { rename_error } => {
            let reason = sort_failure_message(SortFailure::Move, rename_error.as_str());
            result.record_failure(owned(file_name), reason);
            assert(result.failed@.drop_last() =~= old(result).failed@);
            MoveAction::NextMove
        },
        MoveEvent::Removed => {
            result.record_moved();
            MoveAction::NextMove
        },
        MoveEvent::RemoveFailed { error } => {
            let reason = sort_failure_message(SortFailure::RemoveOriginal, error.as_str());
            result.record_failure(owned(file_name), reason);
            assert(result.failed@.drop_last() =~= old(result).failed@);
            MoveAction::NextMove
        },
    }
}

} // verus!
