use vstd::prelude::*;

use std::collections::HashMap;

use crate::cache::{copy_path, hex_lower, sha256, sha256_digest};
use crate::file_info::path_view;
use crate::cleaner::CleanResult;
use crate::text::{
    chars_of, decimal, decimal_string, owned, push_char, push_decimal, push_str, replace_all, replace_str,
    string_from_chars, sub_chars,
};
use crate::utils::{format_size, size_text};
use vstd::utf8::encode_utf8;

verus! {

broadcast use vstd::std_specs::hash::group_hash_axioms;

/// Where a search for duplicates stands.
#[derive(Debug, Clone, PartialEq)]
pub enum ScanStatus {
    /// Nothing under way.
    Idle,
    /// Walking the folder; `current` files found so far.
    Scanning { message: String, current: usize, total: usize },
    /// Reading the contents of the candidate files; `current` of `total` done.
    Hashing { message: String, current: usize, total: usize },
    /// Moving the selected duplicates to the recycle bin.
    Deleting { message: String },
    /// The search has finished.
    Done,
}

impl Default for ScanStatus {
    fn default() -> (r: ScanStatus)
        ensures
            r is Idle,
    {
        ScanStatus::Idle
    }
}

/// A file met while walking the folder: its path, size in bytes and name.
#[derive(Debug)]
pub struct FoundFile {
    pub path: Vec<String>,
    pub size: u64,
    pub name: String,
}

/// The value of a found file.
pub struct FoundView {
    pub path: Seq<Seq<char>>,
    pub size: u64,
    pub name: Seq<char>,
}

impl View for FoundFile {
    type V = FoundView;

    open spec fn view(&self) -> FoundView {
        FoundView { path: path_view(self.path@), size: self.size, name: self.name@ }
    }
}

/// One of a group of files with the same contents.
#[derive(Debug, Clone)]
pub struct DuplicateFile {
    pub path: Vec<String>,
    pub name: String,
    pub size: u64,
    pub selected: bool,
}

/// The value of a duplicate file.
pub struct DupView {
    pub path: Seq<Seq<char>>,
    pub name: Seq<char>,
    pub size: u64,
    pub selected: bool,
}

impl View for DuplicateFile {
    type V = DupView;

    open spec fn view(&self) -> DupView {
        DupView { path: path_view(self.path@), name: self.name@, size: self.size, selected: self.selected }
    }
}

/// Files with the same contents: the digest of the contents (lowercase hexadecimal), the
/// size of the first file found, and the files.
#[derive(Debug, Clone)]
pub struct DuplicateGroup {
    pub hash: String,
    pub size: u64,
    pub files: Vec<DuplicateFile>,
}

/// The value of a group.
pub struct GroupView {
    pub hash: Seq<char>,
    pub size: u64,
    pub files: Seq<DupView>,
}

impl View for DuplicateGroup {
    type V = GroupView;

    open spec fn view(&self) -> GroupView {
        GroupView { hash: self.hash@, size: self.size, files: files_view(self.files@) }
    }
}

/// The values of a sequence of duplicate files.
pub open spec fn files_view(fs: Seq<DuplicateFile>) -> Seq<DupView> {
    fs.map_values(|f: DuplicateFile| f@)
}

/// The values of a sequence of groups.
pub open spec fn groups_view(gs: Seq<DuplicateGroup>) -> Seq<GroupView> {
    gs.map_values(|g: DuplicateGroup| g@)
}

/// What the duplicate finder page keeps between frames.
#[derive(Debug)]
pub struct DuplicateFinderState {
    /// The groups found by the last search.
    pub groups: Vec<DuplicateGroup>,
    /// Where the search stands.
    pub status: ScanStatus,
    /// The outcome of the last deletion, and whether it is an error.
    pub result_message: Option<(String, bool)>,
}

impl Default for DuplicateFinderState {
    fn default() -> (r: DuplicateFinderState)
        ensures
            r.groups@.len() == 0,
            r.status is Idle,
            r.result_message is None,
    {
        DuplicateFinderState { groups: Vec::new(), status: ScanStatus::Idle, result_message: None }
    }
}

// ---------------------------------------------------------------------------
// Progress reports

/// Files found between two reports while walking the folder.
pub const SCAN_REPORT_EVERY: usize = 500;

/// Candidates read between two reports while hashing.
pub const HASH_REPORT_EVERY: usize = 10;

/// Candidates larger than this are reported each on their own.
pub const LARGE_FILE: u64 = 10 * 1024 * 1024;

/// The report sent while walking the folder, when `found` files have been kept so far:
/// one every `SCAN_REPORT_EVERY` files (and at none found yet), with the message
/// `<label> <found> file...`.
pub fn scan_progress(found_label: &str, found: usize) -> (r: Option<ScanStatus>)
    ensures
        r is Some <==> found % SCAN_REPORT_EVERY == 0,
        r matches Some(st) ==> st matches ScanStatus::Scanning { message, current, total }
            && message@ == found_label@ + seq![' '] + decimal(found as nat) + " file..."@
            && current == found && total == 0,
{
    if found % SCAN_REPORT_EVERY != 0 {
        return None;
    }
    let mut message = String::new();
    push_str(&mut message, found_label);
    push_char(&mut message, ' ');
    push_decimal(&mut message, found as u64);
    push_str(&mut message, " file...");
    Some(ScanStatus::Scanning { message, current: found, total: 0 })
}

/// The report that reading the candidates begins.
pub fn hashing_started(checking_msg: &str, total: usize) -> (r: ScanStatus)
    ensures
        r matches ScanStatus::Hashing { message, current, total: t } && message@ == checking_msg@
            && current == 0 && t == total,
{
    let mut message = String::new();
    push_str(&mut message, checking_msg);
    ScanStatus::Hashing { message, current: 0, total }
}

/// The report sent before reading candidate `index` (of `total`) of `size` bytes: one
/// every `HASH_REPORT_EVERY` candidates and one for each file over `LARGE_FILE`, with the
/// message `<label> (<index>/<total>)`.
pub fn hashing_progress(reading_msg: &str, index: usize, total: usize, size: u64) -> (r: Option<ScanStatus>)
    ensures
        r is Some <==> (index % HASH_REPORT_EVERY == 0 || size > LARGE_FILE),
        r matches Some(st) ==> st matches ScanStatus::Hashing { message, current, total: t }
            && message@ == reading_msg@ + " ("@ + decimal(index as nat) + seq!['/'] + decimal(total as nat) + seq![')']
            && current == index && t == total,
{
    if !(index % HASH_REPORT_EVERY == 0 || size > LARGE_FILE) {
        return None;
    }
    let mut message = String::new();
    push_str(&mut message, reading_msg);
    push_str(&mut message, " (");
    push_decimal(&mut message, index as u64);
    push_char(&mut message, '/');
    push_decimal(&mut message, total as u64);
    push_char(&mut message, ')');
    Some(ScanStatus::Hashing { message, current: index, total })
}

// ---------------------------------------------------------------------------
// Content digests

/// `hex::encode`: the bytes in lowercase hexadecimal, two digits per byte, high half
/// first.
#[verifier::external_body]
fn hex_encode(bytes: &Vec<u8>) -> (r: String)
    ensures
        r@ == hex_lower(bytes@),
{
    hex::encode(bytes)
}

/// The digest that identifies a file's contents: SHA-256 of the bytes, in lowercase
/// hexadecimal.
pub fn content_hash(bytes: &[u8]) -> (r: String)
    ensures
        r@ == hex_lower(sha256_digest(bytes@)),
{
    let digest = sha256(bytes);
    hex_encode(&digest)
}

// ---------------------------------------------------------------------------
// Candidates: files whose size another file shares

/// How many of the files have the given size.
pub open spec fn size_count(files: Seq<FoundView>, size: u64) -> nat {
    files.filter(|f: FoundView| f.size == size).len()
}

/// The files whose size at least one other file has, in the order found: only they can
/// have a duplicate.
pub open spec fn size_candidates_of(files: Seq<FoundView>) -> Seq<FoundView> {
    files.filter(|f: FoundView| size_count(files, f.size) >= 2)
}

/// The values of a sequence of found files.
pub open spec fn found_view(fs: Seq<FoundFile>) -> Seq<FoundView> {
    fs.map_values(|f: FoundFile| f@)
}

impl FoundFile {
    /// A copy of the file's record.
    pub fn copy(&self) -> (r: FoundFile)
        ensures
            r@ == self@,
    {
        FoundFile { path: copy_path(&self.path), size: self.size, name: self.name.clone() }
    }
}

/// Counting one more file of a size.
proof fn lemma_size_count_push(files: Seq<FoundView>, f: FoundView, size: u64)
    ensures
        size_count(files.push(f), size) == size_count(files, size) + (if f.size == size { 1nat } else { 0nat }),
{
    files.lemma_filter_push(f, |g: FoundView| g.size == size);
}

/// A count over a prefix is no more than the prefix's length.
proof fn lemma_size_count_le(files: Seq<FoundView>, size: u64)
    ensures
        size_count(files, size) <= files.len(),
{
    files.lemma_filter_len(|g: FoundView| g.size == size);
}

/// The files that share their size with another file, in the order given.
pub fn size_candidates(files: &Vec<FoundFile>) -> (r: Vec<FoundFile>)
    ensures
        found_view(r@) == size_candidates_of(found_view(files@)),
{
    let ghost fv = found_view(files@);
    let mut counts: HashMap<u64, usize> = HashMap::new();
    for i in 0..files.len()
        invariant
            fv == found_view(files@),
            fv.len() == files@.len(),
            forall|s: u64| #[trigger] counts@.contains_key(s) <==> size_count(fv.take(i as int), s) > 0,
            forall|s: u64| counts@.contains_key(s) ==> #[trigger] counts@[s] == size_count(fv.take(i as int), s),
    {
        let size = files[i].size;
        proof {
            assert(fv.take(i + 1) =~= fv.take(i as int).push(fv[i as int]));
            assert forall|s: u64| #[trigger] size_count(fv.take(i + 1), s) == size_count(fv.take(i as int), s) + (if fv[i as int].size == s { 1nat } else { 0nat }) by {
                lemma_size_count_push(fv.take(i as int), fv[i as int], s);
            }
            lemma_size_count_le(fv.take(i as int), size);
        }
        let c: usize = match counts.get(&size) {
            Some(c) => *c,
            None => 0,
        };
        counts.insert(size, c + 1);
    }
    assert(fv.take(fv.len() as int) =~= fv);
    let mut out: Vec<FoundFile> = Vec::new();
    for i in 0..files.len()
        invariant
            fv == found_view(files@),
            fv.len() == files@.len(),
            forall|s: u64| #[trigger] counts@.contains_key(s) <==> size_count(fv, s) > 0,
            forall|s: u64| counts@.contains_key(s) ==> #[trigger] counts@[s] == size_count(fv, s),
            found_view(out@) == fv.take(i as int).filter(|f: FoundView| size_count(fv, f.size) >= 2),
    {
        let size = files[i].size;
        let shared = match counts.get(&size) {
            Some(c) => *c >= 2,
            None => false,
        };
        proof {
            assert(fv.take(i + 1) =~= fv.take(i as int).push(fv[i as int]));
            fv.take(i as int).lemma_filter_push(fv[i as int], |f: FoundView| size_count(fv, f.size) >= 2);
            assert(shared == (size_count(fv, fv[i as int].size) >= 2));
        }
        if shared {
            let ghost before = out@;
            let f = files[i].copy();
            out.push(f);
            assert(found_view(out@) =~= found_view(before).push(fv[i as int]));
        }
    }
    assert(fv.take(fv.len() as int) =~= fv);
    out
}

// ---------------------------------------------------------------------------
// Grouping by contents

/// A found file as a member of a group: not selected.
pub open spec fn as_duplicate(f: FoundView) -> DupView {
    DupView { path: f.path, name: f.name, size: f.size, selected: false }
}

/// A digest as a character sequence (`None` where a file could not be read).
pub open spec fn hash_view(h: Option<String>) -> Option<Seq<char>> {
    match h {
        Some(s) => Some(s@),
        None => None,
    }
}

/// The candidates, each with its digest, as values.
pub open spec fn hashed_view(items: Seq<(FoundFile, Option<String>)>) -> Seq<(FoundView, Option<Seq<char>>)> {
    items.map_values(|it: (FoundFile, Option<String>)| (it.0@, hash_view(it.1)))
}

/// The files that were read, each with its digest, in order.
pub open spec fn hashed_files(items: Seq<(FoundView, Option<Seq<char>>)>) -> Seq<(Seq<char>, DupView)>
    decreases items.len(),
{
    if items.len() == 0 {
        Seq::empty()
    } else {
        let rest = hashed_files(items.drop_last());
        match items.last().1 {
            Some(h) => rest.push((h, as_duplicate(items.last().0))),
            None => rest,
        }
    }
}

/// The digests that occur, each once, in the order they first occur.
pub open spec fn distinct_hashes(pairs: Seq<(Seq<char>, DupView)>) -> Seq<Seq<char>>
    decreases pairs.len(),
{
    if pairs.len() == 0 {
        Seq::empty()
    } else {
        let d = distinct_hashes(pairs.drop_last());
        if d.contains(pairs.last().0) {
            d
        } else {
            d.push(pairs.last().0)
        }
    }
}

/// Whether a file read has digest `h`.
pub open spec fn hash_is(h: Seq<char>) -> spec_fn((Seq<char>, DupView)) -> bool {
    |p: (Seq<char>, DupView)| p.0 == h
}

/// The files with digest `h`, in order.
pub open spec fn files_with_hash(pairs: Seq<(Seq<char>, DupView)>, h: Seq<char>) -> Seq<DupView> {
    pairs.filter(hash_is(h)).map_values(|p: (Seq<char>, DupView)| p.1)
}

/// The group of the files with digest `h`; its size is that of the first of them.
pub open spec fn group_for(pairs: Seq<(Seq<char>, DupView)>, h: Seq<char>) -> GroupView {
    GroupView { hash: h, size: files_with_hash(pairs, h)[0].size, files: files_with_hash(pairs, h) }
}

/// One group per digest, in the order the digests first occur.
pub open spec fn hash_groups(pairs: Seq<(Seq<char>, DupView)>) -> Seq<GroupView> {
    distinct_hashes(pairs).map_values(|h: Seq<char>| group_for(pairs, h))
}

/// A digest occurs among the files exactly when it has a group.
proof fn lemma_distinct_hashes(pairs: Seq<(Seq<char>, DupView)>, h: Seq<char>)
    ensures
        distinct_hashes(pairs).contains(h) <==> files_with_hash(pairs, h).len() > 0,
        distinct_hashes(pairs).no_duplicates(),
    decreases pairs.len(),
{
    let pred = hash_is(h);
    assert(files_with_hash(pairs, h).len() == pairs.filter(pred).len());
    if pairs.len() == 0 {
        assert(pairs.filter(pred) =~= Seq::<(Seq<char>, DupView)>::empty());
    } else {
        let init = pairs.drop_last();
        let x = pairs.last().0;
        lemma_distinct_hashes(init, h);
        lemma_distinct_hashes(init, x);
        assert(files_with_hash(init, h).len() == init.filter(pred).len());
        assert(pairs =~= init.push(pairs.last()));
        init.lemma_filter_push(pairs.last(), pred);
        let d = distinct_hashes(init);
        if x == h {
            assert(pairs.filter(pred) == init.filter(pred).push(pairs.last()));
            assert(pairs.filter(pred).len() > 0);
        } else {
            assert(pairs.filter(pred) == init.filter(pred));
        }
        if !d.contains(x) {
            let d2 = d.push(x);
            assert(distinct_hashes(pairs) == d2);
            assert forall|i: int, j: int| 0 <= i < j < d2.len() implies d2[i] != d2[j] by {
                if j == d.len() {
                    assert(d.contains(d[i]));
                }
            }
            if x == h {
                assert(d2[d.len() as int] == x);
                assert(d2.contains(h));
            } else {
                if d2.contains(h) {
                    let i = choose|i: int| 0 <= i < d2.len() && d2[i] == h;
                    assert(i < d.len());
                    assert(d[i] == h);
                }
                if d.contains(h) {
                    let i = choose|i: int| 0 <= i < d.len() && d[i] == h;
                    assert(d2[i] == h);
                }
            }
        } else {
            assert(distinct_hashes(pairs) == d);
        }
    }
}

/// Adding a file with digest `h` to the files read so far.
proof fn lemma_hash_groups_push(pairs: Seq<(Seq<char>, DupView)>, h: Seq<char>, f: DupView)
    ensures
        ({
            let d = distinct_hashes(pairs);
            let gs = hash_groups(pairs);
            let gs2 = hash_groups(pairs.push((h, f)));
            match d.index_of_first(h) {
                Some(k) => gs2 == gs.update(k, GroupView { files: gs[k].files.push(f), ..gs[k] }),
                None => gs2 == gs.push(GroupView { hash: h, size: f.size, files: seq![f] }),
            }
        }),
{
    let new_pairs = pairs.push((h, f));
    let d = distinct_hashes(pairs);
    assert(new_pairs.drop_last() =~= pairs);
    lemma_distinct_hashes(pairs, h);
    assert forall|x: Seq<char>| #[trigger] files_with_hash(new_pairs, x) == (if x == h {
        files_with_hash(pairs, x).push(f)
    } else {
        files_with_hash(pairs, x)
    }) by {
        let pred = hash_is(x);
        pairs.lemma_filter_push((h, f), pred);
        if x == h {
            assert(pairs.push((h, f)).filter(pred) == pairs.filter(pred).push((h, f)));
            assert(files_with_hash(new_pairs, x) =~= files_with_hash(pairs, x).push(f));
        } else {
            assert(pairs.push((h, f)).filter(pred) == pairs.filter(pred));
        }
    }
    match d.index_of_first(h) {
        Some(k) => {
            d.index_of_first_ensures(h);
            assert(distinct_hashes(new_pairs) == d);
            let gs = hash_groups(pairs);
            let gs2 = hash_groups(new_pairs);
            assert(files_with_hash(pairs, h).len() > 0);
            assert forall|i: int| 0 <= i < d.len() implies #[trigger] gs2[i] == gs.update(k, GroupView { files: gs[k].files.push(f), ..gs[k] })[i] by {
                if i == k {
                    assert(files_with_hash(new_pairs, h)[0] == files_with_hash(pairs, h)[0]);
                } else {
                    assert(d[i] != h);
                }
            }
            assert(gs2 =~= gs.update(k, GroupView { files: gs[k].files.push(f), ..gs[k] }));
        },
        None => {
            d.index_of_first_ensures(h);
            assert(!d.contains(h));
            assert(distinct_hashes(new_pairs) == d.push(h));
            assert(files_with_hash(pairs, h).len() == 0);
            assert(files_with_hash(new_pairs, h) =~= seq![f]);
            let gs = hash_groups(pairs);
            let gs2 = hash_groups(new_pairs);
            assert forall|i: int| 0 <= i < d.len() implies #[trigger] gs2[i] == gs[i] by {
                assert(d[i] != h);
            }
            assert(gs2 =~= gs.push(GroupView { hash: h, size: f.size, files: seq![f] }));
        },
    }
}

impl DuplicateGroup {
    /// Adds a file at the end of the group.
    fn add_file(&mut self, f: DuplicateFile)
        ensures
            final(self)@ == (GroupView { files: old(self)@.files.push(f@), ..old(self)@ }),
    {
        let ghost before = self.files@;
        self.files.push(f);
        assert(files_view(self.files@) =~= files_view(before).push(f@));
    }
}

/// The digests of the groups, in order.
pub open spec fn group_hashes(gs: Seq<DuplicateGroup>) -> Seq<Seq<char>> {
    gs.map_values(|g: DuplicateGroup| g.hash@)
}

/// The position of the group with digest `h`, if any.
fn find_group(groups: &Vec<DuplicateGroup>, h: &String) -> (r: Option<usize>)
    ensures
        r matches Some(k) ==> k < groups@.len(),
        match r {
            Some(k) => group_hashes(groups@).index_of_first(h@) == Some(k as int),
            None => group_hashes(groups@).index_of_first(h@) is None,
        },
{
    let ghost hs = group_hashes(groups@);
    for i in 0..groups.len()
        invariant
            hs == group_hashes(groups@),
            hs.len() == groups@.len(),
            forall|j: int| 0 <= j < i ==> hs[j] != h@,
    {
        if groups[i].hash == *h {
            proof {
                assert(hs[i as int] == h@);
                hs.index_of_first_ensures(h@);
            }
            return Some(i);
        }
    }
    proof {
        hs.index_of_first_ensures(h@);
    }
    None
}

/// The groups of files with the same digest, one per digest in the order the digests first
/// occur; each candidate comes with its digest, `None` for a file that could not be read,
/// which is left out.
fn group_by_hash(items: &Vec<(FoundFile, Option<String>)>) -> (r: Vec<DuplicateGroup>)
    ensures
        groups_view(r@) == hash_groups(hashed_files(hashed_view(items@))),
{
    let ghost iv = hashed_view(items@);
    let mut groups: Vec<DuplicateGroup> = Vec::new();
    for i in 0..items.len()
        invariant
            iv == hashed_view(items@),
            iv.len() == items@.len(),
            groups_view(groups@) == hash_groups(hashed_files(iv.take(i as int))),
    {
        let ghost pairs = hashed_files(iv.take(i as int));
        proof {
            assert(iv.take(i + 1).drop_last() =~= iv.take(i as int));
        }
        match &items[i].1 {
            Some(h) => {
                let f = &items[i].0;
                let dup = DuplicateFile { path: copy_path(&f.path), name: f.name.clone(), size: f.size, selected: false };
                proof {
                    assert(iv[i as int].1 == Some(h@));
                    assert(hashed_files(iv.take(i + 1)) == pairs.push((h@, as_duplicate(iv[i as int].0))));
                    assert(dup@ == as_duplicate(iv[i as int].0));
                    lemma_hash_groups_push(pairs, h@, dup@);
                    let d = distinct_hashes(pairs);
                    assert(groups_view(groups@).len() == d.len());
                    assert forall|j: int| 0 <= j < d.len() implies #[trigger] group_hashes(groups@)[j] == d[j] by {
                        assert(groups_view(groups@)[j] == groups@[j]@);
                        assert(hash_groups(pairs)[j] == group_for(pairs, d[j]));
                    }
                    assert(group_hashes(groups@) =~= distinct_hashes(pairs));
                }
                match find_group(&groups, h) {
                    Some(k) => {
                        let ghost before = groups@;
                        let ghost dv = dup@;
                        groups[k].add_file(dup);
                        proof {
                            assert(groups@[k as int]@ == GroupView { files: before[k as int]@.files.push(dv), ..before[k as int]@ });
                            assert(groups_view(before)[k as int] == before[k as int]@);
                            assert(groups_view(groups@) =~= groups_view(before).update(k as int, groups@[k as int]@));
                        }
                    },
                    None => {
                        let ghost before = groups@;
                        let mut members: Vec<DuplicateFile> = Vec::new();
                        let size = dup.size;
                        members.push(dup);
                        let g = DuplicateGroup { hash: h.clone(), size, files: members };
                        assert(g@.files =~= seq![dup@]);
                        groups.push(g);
                        assert(groups_view(groups@) =~= groups_view(before).push(g@));
                    },
                }
            },
            None => {
                proof {
                    assert(iv[i as int].1 is None);
                    assert(hashed_files(iv.take(i + 1)) == pairs);
                }
            },
        }
    }
    assert(iv.take(iv.len() as int) =~= iv);
    groups
}

/// Whether a group holds more than one file.
pub open spec fn duplicated() -> spec_fn(GroupView) -> bool {
    |g: GroupView| g.files.len() > 1
}

/// Drops the groups with a single file.
fn keep_duplicated(groups: &mut Vec<DuplicateGroup>)
    ensures
        groups_view(final(groups)@) == groups_view(old(groups)@).filter(duplicated()),
{
    let ghost orig = groups_view(groups@);
    let ghost mut c: int = 0;
    let mut k: usize = 0;
    while k < groups.len()
        invariant
            orig == groups_view(old(groups)@),
            0 <= k <= groups@.len(),
            0 <= c <= orig.len(),
            groups_view(groups@).take(k as int) == orig.take(c).filter(duplicated()),
            groups_view(groups@).skip(k as int) == orig.skip(c),
        decreases groups@.len() - k,
    {
        let ghost gv = groups_view(groups@);
        proof {
            assert(gv.len() == groups@.len());
            assert(gv.skip(k as int).len() > 0);
            assert(orig.skip(c).len() > 0);
            assert(orig.skip(c)[0] == gv.skip(k as int)[0]);
            assert(orig.skip(c)[0] == gv[k as int]);
            assert(orig.take(c + 1) =~= orig.take(c).push(orig[c]));
            orig.take(c).lemma_filter_push(orig[c], duplicated());
            assert(orig.skip(c + 1) =~= orig.skip(c).skip(1));
        }
        if groups[k].files.len() > 1 {
            proof {
                assert(gv[k as int].files.len() == groups@[k as int].files@.len());
                assert(gv.take(k + 1) =~= gv.take(k as int).push(gv[k as int]));
                assert(gv.skip(k + 1) =~= gv.skip(k as int).skip(1));
                c = c + 1;
            }
            k = k + 1;
        } else {
            let _dropped = groups.remove(k);
            proof {
                assert(groups_view(groups@) =~= gv.remove(k as int));
                assert(groups_view(groups@).take(k as int) =~= gv.take(k as int));
                assert(groups_view(groups@).skip(k as int) =~= gv.skip(k + 1));
                assert(gv.skip(k + 1) =~= gv.skip(k as int).skip(1));
                c = c + 1;
            }
        }
    }
    proof {
        assert(groups_view(groups@).skip(k as int).len() == 0);
        assert(orig.skip(c).len() == 0);
        assert(orig.take(c) =~= orig);
        assert(groups_view(groups@).take(k as int) =~= groups_view(groups@));
    }
}

/// `x` put into a sequence ordered by `key`: after every element whose key is not greater.
pub open spec fn insert_by_key<T>(x: T, s: Seq<T>, key: spec_fn(T) -> int) -> Seq<T>
    decreases s.len(),
{
    if s.len() == 0 {
        seq![x]
    } else if key(s[0]) <= key(x) {
        seq![s[0]] + insert_by_key(x, s.drop_first(), key)
    } else {
        seq![x] + s
    }
}

/// The elements ordered by `key`, smallest first; elements with equal keys keep their
/// order (each element in turn is put after the ones before it with a key not greater).
pub open spec fn sort_by_key<T>(s: Seq<T>, key: spec_fn(T) -> int) -> Seq<T>
    decreases s.len(),
{
    if s.len() == 0 {
        s
    } else {
        insert_by_key(s.last(), sort_by_key(s.drop_last(), key), key)
    }
}

/// Whether the keys of the elements never decrease.
pub open spec fn sorted_by_key<T>(s: Seq<T>, key: spec_fn(T) -> int) -> bool {
    forall|i: int, j: int| 0 <= i < j < s.len() ==> key(#[trigger] s[i]) <= key(#[trigger] s[j])
}

/// Inserting at the first position whose key is greater.
proof fn lemma_insert_by_key_at<T>(x: T, s: Seq<T>, key: spec_fn(T) -> int, p: int)
    requires
        0 <= p <= s.len(),
        forall|j: int| 0 <= j < p ==> key(#[trigger] s[j]) <= key(x),
        p == s.len() || key(s[p]) > key(x),
    ensures
        insert_by_key(x, s, key) == s.insert(p, x),
    decreases p,
{
    if s.len() == 0 {
        assert(s.insert(p, x) =~= seq![x]);
    } else if p == 0 {
        assert(s.insert(p, x) =~= seq![x] + s);
    } else {
        let t = s.drop_first();
        assert forall|j: int| 0 <= j < p - 1 implies key(#[trigger] t[j]) <= key(x) by {
            assert(key(s[j + 1]) <= key(x));
        }
        lemma_insert_by_key_at(x, t, key, p - 1);
        assert(s.insert(p, x) =~= seq![s[0]] + t.insert(p - 1, x));
    }
}

/// Where `insert_by_key` puts the element: at the first position whose key is greater.
proof fn lemma_insert_by_key_position<T>(x: T, s: Seq<T>, key: spec_fn(T) -> int) -> (p: int)
    ensures
        0 <= p <= s.len(),
        insert_by_key(x, s, key) == s.insert(p, x),
        forall|j: int| 0 <= j < p ==> key(#[trigger] s[j]) <= key(x),
        p < s.len() ==> key(s[p]) > key(x),
    decreases s.len(),
{
    if s.len() == 0 {
        assert(s.insert(0, x) =~= seq![x]);
        0
    } else if key(s[0]) <= key(x) {
        let t = s.drop_first();
        let q = lemma_insert_by_key_position(x, t, key);
        assert(s.insert(q + 1, x) =~= seq![s[0]] + t.insert(q, x));
        assert forall|j: int| 0 <= j < q + 1 implies key(#[trigger] s[j]) <= key(x) by {
            if j > 0 {
                assert(s[j] == t[j - 1]);
            }
        }
        q + 1
    } else {
        assert(s.insert(0, x) =~= seq![x] + s);
        0
    }
}

/// Sorting by key gives the elements in an order whose keys never decrease, and the same
/// elements, each as many times.
pub proof fn lemma_sort_by_key<T>(s: Seq<T>, key: spec_fn(T) -> int)
    ensures
        sorted_by_key(sort_by_key(s, key), key),
        sort_by_key(s, key).to_multiset() == s.to_multiset(),
        sort_by_key(s, key).len() == s.len(),
    decreases s.len(),
{
    broadcast use vstd::seq_lib::to_multiset_build, vstd::seq_lib::to_multiset_insert;

    if s.len() == 0 {
    } else {
        let t = sort_by_key(s.drop_last(), key);
        lemma_sort_by_key(s.drop_last(), key);
        let x = s.last();
        let p = lemma_insert_by_key_position(x, t, key);
        let r = t.insert(p, x);
        assert(s =~= s.drop_last().push(x));
        assert forall|i: int, j: int| 0 <= i < j < r.len() implies key(#[trigger] r[i]) <= key(#[trigger] r[j]) by {
            if j < p {
                assert(r[i] == t[i] && r[j] == t[j]);
            } else if j == p {
                assert(r[i] == t[i]);
            } else if i < p {
                assert(r[i] == t[i] && r[j] == t[j - 1]);
                assert(key(t[i]) <= key(t[j - 1]));
            } else if i == p {
                assert(r[j] == t[j - 1]);
                assert(key(t[p]) > key(x));
                if j - 1 > p {
                    assert(key(t[p]) <= key(t[j - 1]));
                }
            } else {
                assert(r[i] == t[i - 1] && r[j] == t[j - 1]);
            }
        }
    }
}

/// A group's key when ordering by size, largest first.
pub open spec fn size_desc() -> spec_fn(GroupView) -> int {
    |g: GroupView| -(g.size as int)
}

/// Sorts the groups by size, largest first, keeping the order of groups of equal size.
fn sort_groups_by_size(groups: &mut Vec<DuplicateGroup>)
    ensures
        groups_view(final(groups)@) == sort_by_key(groups_view(old(groups)@), size_desc()),
{
    let ghost orig = groups_view(groups@);
    let n = groups.len();
    if n == 0 {
        return;
    }
    assert(orig.take(1).drop_last() =~= Seq::<GroupView>::empty());
    assert(sort_by_key(Seq::<GroupView>::empty(), size_desc()) == Seq::<GroupView>::empty());
    assert(orig.take(1).last() == orig[0]);
    assert(sort_by_key(orig.take(1), size_desc()) == insert_by_key(orig[0], Seq::<GroupView>::empty(), size_desc()));
    assert(insert_by_key(orig[0], Seq::<GroupView>::empty(), size_desc()) == seq![orig[0]]);
    assert(groups_view(groups@).take(1) =~= sort_by_key(orig.take(1), size_desc()));
    let mut i: usize = 1;
    while i < n
        invariant
            orig == groups_view(old(groups)@),
            n == orig.len(),
            groups@.len() == n,
            1 <= i <= n,
            groups_view(groups@).take(i as int) == sort_by_key(orig.take(i as int), size_desc()),
            groups_view(groups@).skip(i as int) == orig.skip(i as int),
        decreases n - i,
    {
        let ghost gv = groups_view(groups@);
        let ghost sorted = gv.take(i as int);
        let g = groups.remove(i);
        let ghost gg = g@;
        proof {
            assert(gv[i as int] == orig[i as int]) by {
                assert(gv.skip(i as int)[0] == orig.skip(i as int)[0]);
            }
            assert(groups_view(groups@) =~= gv.remove(i as int));
            assert(groups_view(groups@).take(i as int) =~= sorted);
        }
        let mut p: usize = 0;
        while p < i && groups[p].size >= g.size
            invariant
                0 <= p <= i,
                i < n,
                gg == g@,
                groups@.len() == n - 1,
                groups_view(groups@).take(i as int) == sorted,
                forall|j: int| 0 <= j < p ==> size_desc()(#[trigger] sorted[j]) <= size_desc()(gg),
            decreases i - p,
        {
            assert(sorted[p as int] == groups@[p as int]@);
            assert(size_desc()(sorted[p as int]) <= size_desc()(gg));
            p = p + 1;
        }
        proof {
            if p < i {
                assert(sorted[p as int] == groups@[p as int]@);
            }
            lemma_insert_by_key_at(gg, sorted, size_desc(), p as int);
            assert(orig.take(i + 1).drop_last() =~= orig.take(i as int));
            assert(orig.take(i + 1).last() == orig[i as int]);
        }
        let ghost before = groups@;
        groups.insert(p, g);
        proof {
            assert(groups_view(groups@) =~= groups_view(before).insert(p as int, gg));
            assert(groups_view(groups@).take(i + 1) =~= sorted.insert(p as int, gg));
            assert(groups_view(groups@).skip(i + 1) =~= gv.skip(i + 1));
            assert(gv.skip(i + 1) =~= orig.skip(i + 1)) by {
                assert forall|j: int| 0 <= j < gv.skip(i + 1).len() implies #[trigger] gv.skip(i + 1)[j] == orig.skip(i + 1)[j] by {
                    assert(gv.skip(i as int)[j + 1] == orig.skip(i as int)[j + 1]);
                }
            }
        }
        i = i + 1;
    }
    assert(groups_view(groups@).take(n as int) =~= groups_view(groups@));
    assert(orig.take(n as int) =~= orig);
}

/// The groups a search for duplicates ends with: the candidates that were read grouped by
/// digest (see `hash_groups`), the groups of a single file dropped, ordered by size, largest
/// first (groups of equal size in the order their digests first occur).
pub open spec fn duplicate_groups(items: Seq<(FoundView, Option<Seq<char>>)>) -> Seq<GroupView> {
    sort_by_key(hash_groups(hashed_files(items)).filter(duplicated()), size_desc())
}

/// What a search for duplicates decides once the candidates (see `size_candidates`) have
/// been read: each candidate comes with the digest of its contents (see `content_hash`),
/// `None` if it could not be read; the result is the groups of `duplicate_groups`.
pub fn scan_duplicates_task(hashed: &Vec<(FoundFile, Option<String>)>) -> (r: Vec<DuplicateGroup>)
    ensures
        groups_view(r@) == duplicate_groups(hashed_view(hashed@)),
{
    let mut groups = group_by_hash(hashed);
    keep_duplicated(&mut groups);
    sort_groups_by_size(&mut groups);
    groups
}

/// Keeping some elements of a sequence without repeats gives one without repeats.
proof fn lemma_filter_no_duplicates<T>(s: Seq<T>, pred: spec_fn(T) -> bool)
    requires
        s.no_duplicates(),
    ensures
        s.filter(pred).no_duplicates(),
    decreases s.len(),
{
    if s.len() > 0 {
        let init = s.drop_last();
        let x = s.last();
        assert(s =~= init.push(x));
        assert(init.no_duplicates());
        lemma_filter_no_duplicates(init, pred);
        init.lemma_filter_push(x, pred);
        if pred(x) {
            let f = init.filter(pred);
            let f2 = f.push(x);
            assert forall|i: int, j: int| 0 <= i < j < f2.len() implies f2[i] != f2[j] by {
                if j == f.len() {
                    assert(f.contains(f[i]));
                    init.lemma_filter_contains_rev(pred, f[i]);
                    if f[i] == x {
                        let k = choose|k: int| 0 <= k < init.len() && init[k] == x;
                        assert(s[k] == s[s.len() - 1]);
                    }
                }
            }
        }
    }
}

/// The groups, one per digest, are all different.
proof fn lemma_hash_groups_no_duplicates(pairs: Seq<(Seq<char>, DupView)>)
    ensures
        hash_groups(pairs).no_duplicates(),
{
    let d = distinct_hashes(pairs);
    lemma_distinct_hashes(pairs, Seq::empty());
    let gs = hash_groups(pairs);
    assert forall|i: int, j: int| 0 <= i < j < gs.len() implies gs[i] != gs[j] by {
        assert(gs[i].hash == d[i] && gs[j].hash == d[j]);
    }
}

/// What a search for duplicates ends with: every group holds at least two files, exactly
/// the files read with the group's digest, and is as large as its first file; every digest
/// that two or more files have has a group; no two groups have the same digest; and the
/// groups are ordered by size, largest first.
pub proof fn lemma_duplicate_groups(items: Seq<(FoundView, Option<Seq<char>>)>)
    ensures
        ({
            let r = duplicate_groups(items);
            let pairs = hashed_files(items);
            &&& forall|i: int| 0 <= i < r.len() ==> (#[trigger] r[i]).files.len() >= 2
                && r[i].files == files_with_hash(pairs, r[i].hash)
                && r[i].size == r[i].files[0].size
            &&& forall|h: Seq<char>| #[trigger] files_with_hash(pairs, h).len() >= 2
                ==> exists|i: int| 0 <= i < r.len() && r[i].hash == h
            &&& forall|i: int, j: int| 0 <= i < j < r.len() ==> (#[trigger] r[i]).hash != (#[trigger] r[j]).hash
            &&& forall|i: int, j: int| 0 <= i < j < r.len() ==> (#[trigger] r[i]).size >= (#[trigger] r[j]).size
        }),
{
    broadcast use vstd::seq_lib::to_multiset_contains;

    let pairs = hashed_files(items);
    let gs = hash_groups(pairs);
    let kept = gs.filter(duplicated());
    let r = duplicate_groups(items);
    lemma_sort_by_key(kept, size_desc());
    assert(r == sort_by_key(kept, size_desc()));
    let d = distinct_hashes(pairs);
    assert forall|i: int| 0 <= i < r.len() implies (#[trigger] r[i]).files.len() >= 2
        && r[i].files == files_with_hash(pairs, r[i].hash)
        && r[i].size == r[i].files[0].size by {
        assert(r.to_multiset().count(r[i]) > 0);
        assert(kept.contains(r[i]));
        let k = choose|k: int| 0 <= k < kept.len() && kept[k] == r[i];
        gs.lemma_filter_pred(duplicated(), k);
        gs.lemma_filter_contains_rev(duplicated(), r[i]);
        let m = choose|m: int| 0 <= m < gs.len() && gs[m] == r[i];
        assert(gs[m] == group_for(pairs, d[m]));
    }
    assert forall|h: Seq<char>| #[trigger] files_with_hash(pairs, h).len() >= 2
        implies exists|i: int| 0 <= i < r.len() && r[i].hash == h by {
        lemma_distinct_hashes(pairs, h);
        let m = choose|m: int| 0 <= m < d.len() && d[m] == h;
        assert(gs[m] == group_for(pairs, h));
        gs.lemma_filter_contains(duplicated(), m);
        assert(kept.to_multiset().count(gs[m]) > 0);
        assert(r.to_multiset().count(gs[m]) > 0);
        let i = choose|i: int| 0 <= i < r.len() && r[i] == gs[m];
        assert(r[i].hash == h);
    }
    lemma_hash_groups_no_duplicates(pairs);
    lemma_filter_no_duplicates(gs, duplicated());
    kept.lemma_multiset_has_no_duplicates();
    r.lemma_multiset_has_no_duplicates_conv();
    assert forall|i: int, j: int| 0 <= i < j < r.len() implies (#[trigger] r[i]).hash != (#[trigger] r[j]).hash by {
        if r[i].hash == r[j].hash {
            assert(r[i].files == files_with_hash(pairs, r[i].hash));
            assert(r[j].files == files_with_hash(pairs, r[j].hash));
            assert(r[i] == r[j]);
        }
    }
    assert forall|i: int, j: int| 0 <= i < j < r.len() implies (#[trigger] r[i]).size >= (#[trigger] r[j]).size by {
        assert(size_desc()(r[i]) <= size_desc()(r[j]));
    }
}

// ---------------------------------------------------------------------------
// Choosing which duplicates to delete

/// The length in bytes (UTF-8) of a file's name, as `str::len` gives it.
pub open spec fn name_bytes() -> spec_fn(DupView) -> int {
    |f: DupView| (encode_utf8(f.name).len() as usize) as int
}

/// The files with all but the first selected.
pub open spec fn keep_first_only(s: Seq<DupView>) -> Seq<DupView> {
    Seq::new(s.len(), |i: int| DupView { selected: i != 0, ..s[i] })
}

/// A group after quick selection: its files ordered by the length of their names in bytes,
/// shortest first (equal lengths keeping their order), and all but the first selected.
pub open spec fn quick_selected(g: GroupView) -> GroupView {
    GroupView { files: keep_first_only(sort_by_key(g.files, name_bytes())), ..g }
}

/// A group with none of its files selected.
pub open spec fn unselected_group(g: GroupView) -> GroupView {
    GroupView { files: g.files.map_values(|f: DupView| DupView { selected: false, ..f }), ..g }
}

/// Whether a file is left unselected.
pub open spec fn not_selected() -> spec_fn(DupView) -> bool {
    |f: DupView| !f.selected
}

/// A group without its selected files.
pub open spec fn without_selected(g: GroupView) -> GroupView {
    GroupView { files: g.files.filter(not_selected()), ..g }
}

/// The files of all the groups, group after group.
pub open spec fn all_files(gs: Seq<GroupView>) -> Seq<DupView>
    decreases gs.len(),
{
    if gs.len() == 0 {
        Seq::empty()
    } else {
        all_files(gs.drop_last()) + gs.last().files
    }
}

/// Whether a file is selected.
pub open spec fn is_selected() -> spec_fn(DupView) -> bool {
    |f: DupView| f.selected
}

/// The sum of the sizes of the files.
pub open spec fn size_sum(fs: Seq<DupView>) -> nat
    decreases fs.len(),
{
    if fs.len() == 0 {
        0
    } else {
        size_sum(fs.drop_last()) + fs.last().size as nat
    }
}

impl DuplicateFile {
    /// Selects or unselects the file.
    pub fn set_selected(&mut self, selected: bool)
        ensures
            final(self)@ == (DupView { selected, ..old(self)@ }),
    {
        self.selected = selected;
    }
}

/// Sorts files by the length of their names in bytes, shortest first, keeping the order of
/// names of equal length.
fn sort_files_by_name_len(files: &mut Vec<DuplicateFile>)
    ensures
        files_view(final(files)@) == sort_by_key(files_view(old(files)@), name_bytes()),
{
    let ghost orig = files_view(files@);
    let n = files.len();
    if n == 0 {
        return;
    }
    assert(orig.take(1).drop_last() =~= Seq::<DupView>::empty());
    assert(sort_by_key(Seq::<DupView>::empty(), name_bytes()) == Seq::<DupView>::empty());
    assert(orig.take(1).last() == orig[0]);
    assert(sort_by_key(orig.take(1), name_bytes()) == insert_by_key(orig[0], Seq::<DupView>::empty(), name_bytes()));
    assert(files_view(files@).take(1) =~= sort_by_key(orig.take(1), name_bytes()));
    let mut i: usize = 1;
    while i < n
        invariant
            orig == files_view(old(files)@),
            n == orig.len(),
            files@.len() == n,
            1 <= i <= n,
            files_view(files@).take(i as int) == sort_by_key(orig.take(i as int), name_bytes()),
            files_view(files@).skip(i as int) == orig.skip(i as int),
        decreases n - i,
    {
        let ghost fv = files_view(files@);
        let ghost sorted = fv.take(i as int);
        let f = files.remove(i);
        let ghost ff = f@;
        let key = f.name.as_str().len();
        proof {
            assert(fv[i as int] == orig[i as int]) by {
                assert(fv.skip(i as int)[0] == orig.skip(i as int)[0]);
            }
            assert(files_view(files@) =~= fv.remove(i as int));
            assert(files_view(files@).take(i as int) =~= sorted);
        }
        let mut p: usize = 0;
        while p < i && files[p].name.as_str().len() <= key
            invariant
                0 <= p <= i,
                i < n,
                ff == f@,
                key as int == name_bytes()(ff),
                files@.len() == n - 1,
                files_view(files@).take(i as int) == sorted,
                forall|j: int| 0 <= j < p ==> name_bytes()(#[trigger] sorted[j]) <= name_bytes()(ff),
            decreases i - p,
        {
            assert(sorted[p as int] == files@[p as int]@);
            assert(name_bytes()(sorted[p as int]) <= name_bytes()(ff));
            p = p + 1;
        }
        proof {
            if p < i {
                assert(sorted[p as int] == files@[p as int]@);
            }
            lemma_insert_by_key_at(ff, sorted, name_bytes(), p as int);
            assert(orig.take(i + 1).drop_last() =~= orig.take(i as int));
            assert(orig.take(i + 1).last() == orig[i as int]);
        }
        let ghost before = files@;
        files.insert(p, f);
        proof {
            assert(files_view(files@) =~= files_view(before).insert(p as int, ff));
            assert(files_view(files@).take(i + 1) =~= sorted.insert(p as int, ff));
            assert(files_view(files@).skip(i + 1) =~= fv.skip(i + 1));
            assert(fv.skip(i + 1) =~= orig.skip(i + 1)) by {
                assert forall|j: int| 0 <= j < fv.skip(i + 1).len() implies #[trigger] fv.skip(i + 1)[j] == orig.skip(i + 1)[j] by {
                    assert(fv.skip(i as int)[j + 1] == orig.skip(i as int)[j + 1]);
                }
            }
        }
        i = i + 1;
    }
    assert(files_view(files@).take(n as int) =~= files_view(files@));
    assert(orig.take(n as int) =~= orig);
}

impl DuplicateGroup {
    /// Quick selection in one group (see `quick_selected`).
    pub fn quick_select(&mut self)
        ensures
            final(self)@ == quick_selected(old(self)@),
    {
        let mut files: Vec<DuplicateFile> = Vec::new();
        std::mem::swap(&mut files, &mut self.files);
        sort_files_by_name_len(&mut files);
        let ghost sorted = files_view(files@);
        let n = files.len();
        for i in 0..n
            invariant
                n == files@.len(),
                sorted.len() == n,
                forall|j: int| 0 <= j < i ==> #[trigger] files@[j]@ == keep_first_only(sorted)[j],
                forall|j: int| i <= j < n ==> #[trigger] files@[j]@ == sorted[j],
        {
            files[i].set_selected(i != 0);
        }
        assert(files_view(files@) =~= keep_first_only(sorted));
        self.files = files;
    }

    /// Unselects every file of the group.
    pub fn deselect_files(&mut self)
        ensures
            final(self)@ == unselected_group(old(self)@),
    {
        let ghost orig = files_view(self.files@);
        let n = self.files.len();
        for i in 0..n
            invariant
                n == self.files@.len(),
                orig.len() == n,
                self.hash == old(self).hash,
                self.size == old(self).size,
                orig == files_view(old(self).files@),
                forall|j: int| 0 <= j < i ==> #[trigger] self.files@[j]@ == (DupView { selected: false, ..orig[j] }),
                forall|j: int| i <= j < n ==> #[trigger] self.files@[j]@ == orig[j],
        {
            self.files[i].set_selected(false);
        }
        assert(files_view(self.files@) =~= orig.map_values(|f: DupView| DupView { selected: false, ..f }));
    }

    /// Drops the selected files of the group.
    pub fn drop_selected(&mut self)
        ensures
            final(self)@ == without_selected(old(self)@),
    {
        let ghost orig = files_view(self.files@);
        let mut files: Vec<DuplicateFile> = Vec::new();
        std::mem::swap(&mut files, &mut self.files);
        let ghost mut c: int = 0;
        let mut k: usize = 0;
        while k < files.len()
            invariant
                orig == files_view(old(self).files@),
                0 <= k <= files@.len(),
                0 <= c <= orig.len(),
                files_view(files@).take(k as int) == orig.take(c).filter(not_selected()),
                files_view(files@).skip(k as int) == orig.skip(c),
                self.hash == old(self).hash,
                self.size == old(self).size,
            decreases files@.len() - k,
        {
            let ghost fv = files_view(files@);
            proof {
                assert(fv.skip(k as int).len() > 0);
                assert(orig.skip(c)[0] == fv.skip(k as int)[0]);
                assert(orig.skip(c)[0] == fv[k as int]);
                assert(orig.take(c + 1) =~= orig.take(c).push(orig[c]));
                orig.take(c).lemma_filter_push(orig[c], not_selected());
                assert(orig.skip(c + 1) =~= orig.skip(c).skip(1));
            }
            if !files[k].selected {
                proof {
                    assert(fv.take(k + 1) =~= fv.take(k as int).push(fv[k as int]));
                    assert(fv.skip(k + 1) =~= fv.skip(k as int).skip(1));
                    c = c + 1;
                }
                k = k + 1;
            } else {
                let _dropped = files.remove(k);
                proof {
                    assert(files_view(files@) =~= fv.remove(k as int));
                    assert(files_view(files@).take(k as int) =~= fv.take(k as int));
                    assert(files_view(files@).skip(k as int) =~= fv.skip(k + 1));
                    assert(fv.skip(k + 1) =~= fv.skip(k as int).skip(1));
                    c = c + 1;
                }
            }
        }
        proof {
            assert(files_view(files@).skip(k as int).len() == 0);
            assert(orig.take(c) =~= orig);
            assert(files_view(files@).take(k as int) =~= files_view(files@));
        }
        self.files = files;
    }
}

/// Quick selection: in every group, the files ordered by the length of their names and all
/// but the first (the shortest name) selected.
pub fn quick_select(groups: &mut Vec<DuplicateGroup>)
    ensures
        groups_view(final(groups)@) == groups_view(old(groups)@).map_values(|g: GroupView| quick_selected(g)),
{
    let ghost orig = groups_view(groups@);
    let n = groups.len();
    for i in 0..n
        invariant
            n == groups@.len(),
            orig == groups_view(old(groups)@),
            orig.len() == n,
            forall|j: int| 0 <= j < i ==> #[trigger] groups@[j]@ == quick_selected(orig[j]),
            forall|j: int| i <= j < n ==> #[trigger] groups@[j]@ == orig[j],
    {
        groups[i].quick_select();
    }
    assert(groups_view(groups@) =~= orig.map_values(|g: GroupView| quick_selected(g)));
}

/// Unselects every file of every group.
pub fn deselect_all_duplicates(groups: &mut Vec<DuplicateGroup>)
    ensures
        groups_view(final(groups)@) == groups_view(old(groups)@).map_values(|g: GroupView| unselected_group(g)),
{
    let ghost orig = groups_view(groups@);
    let n = groups.len();
    for i in 0..n
        invariant
            n == groups@.len(),
            orig == groups_view(old(groups)@),
            orig.len() == n,
            forall|j: int| 0 <= j < i ==> #[trigger] groups@[j]@ == unselected_group(orig[j]),
            forall|j: int| i <= j < n ==> #[trigger] groups@[j]@ == orig[j],
    {
        groups[i].deselect_files();
    }
    assert(groups_view(groups@) =~= orig.map_values(|g: GroupView| unselected_group(g)));
}

/// After the selected files were deleted: every group without its selected files, and the
/// groups left with a single file (or none) dropped.
pub fn remove_deleted_duplicates(groups: &mut Vec<DuplicateGroup>)
    ensures
        groups_view(final(groups)@) == groups_view(old(groups)@).map_values(|g: GroupView| without_selected(g)).filter(duplicated()),
{
    let ghost orig = groups_view(groups@);
    let n = groups.len();
    for i in 0..n
        invariant
            n == groups@.len(),
            orig == groups_view(old(groups)@),
            orig.len() == n,
            forall|j: int| 0 <= j < i ==> #[trigger] groups@[j]@ == without_selected(orig[j]),
            forall|j: int| i <= j < n ==> #[trigger] groups@[j]@ == orig[j],
    {
        groups[i].drop_selected();
    }
    assert(groups_view(groups@) =~= orig.map_values(|g: GroupView| without_selected(g)));
    keep_duplicated(groups);
}

/// The files of joined sequences of groups are the joined files.
proof fn lemma_all_files_append(a: Seq<GroupView>, b: Seq<GroupView>)
    ensures
        all_files(a + b) == all_files(a) + all_files(b),
    decreases b.len(),
{
    if b.len() == 0 {
        assert(a + b =~= a);
        assert(all_files(a) + all_files(b) =~= all_files(a));
    } else {
        assert((a + b).drop_last() =~= a + b.drop_last());
        lemma_all_files_append(a, b.drop_last());
        assert(all_files(a + b) =~= all_files(a) + all_files(b));
    }
}

/// Sizes of joined sequences add up.
proof fn lemma_size_sum_append(a: Seq<DupView>, b: Seq<DupView>)
    ensures
        size_sum(a + b) == size_sum(a) + size_sum(b),
    decreases b.len(),
{
    if b.len() == 0 {
        assert(a + b =~= a);
    } else {
        assert((a + b).drop_last() =~= a + b.drop_last());
        lemma_size_sum_append(a, b.drop_last());
    }
}

/// The files of the first `i + 1` groups: those of the first `i`, then those of group `i`;
/// and they come before the files of the rest.
proof fn lemma_all_files_split(gs: Seq<GroupView>, i: int)
    requires
        0 <= i < gs.len(),
    ensures
        all_files(gs.take(i + 1)) == all_files(gs.take(i)) + gs[i].files,
        all_files(gs) == all_files(gs.take(i + 1)) + all_files(gs.skip(i + 1)),
{
    assert(gs.take(i + 1).drop_last() =~= gs.take(i));
    assert(gs =~= gs.take(i + 1) + gs.skip(i + 1));
    lemma_all_files_append(gs.take(i + 1), gs.skip(i + 1));
}

/// The selected files of one group: how many, their total size, and their paths.
fn group_selection(g: &DuplicateGroup, paths: &mut Vec<Vec<String>>) -> (r: (usize, u64))
    requires
        g@.files.filter(is_selected()).len() <= usize::MAX,
        size_sum(g@.files.filter(is_selected())) <= u64::MAX,
    ensures
        r.0 == g@.files.filter(is_selected()).len(),
        r.1 == size_sum(g@.files.filter(is_selected())),
        final(paths)@.map_values(|p: Vec<String>| path_view(p@))
            == old(paths)@.map_values(|p: Vec<String>| path_view(p@)) + g@.files.filter(is_selected()).map_values(|f: DupView| f.path),
{
    let ghost fs = g@.files;
    let ghost start = paths@.map_values(|p: Vec<String>| path_view(p@));
    let mut count: usize = 0;
    let mut size: u64 = 0;
    for j in 0..g.files.len()
        invariant
            fs == g@.files,
            fs.len() == g.files@.len(),
            fs.filter(is_selected()).len() <= usize::MAX,
            size_sum(fs.filter(is_selected())) <= u64::MAX,
            count == fs.take(j as int).filter(is_selected()).len(),
            size == size_sum(fs.take(j as int).filter(is_selected())),
            paths@.map_values(|p: Vec<String>| path_view(p@)) == start + fs.take(j as int).filter(is_selected()).map_values(|f: DupView| f.path),
    {
        let ghost prefix = fs.take(j as int);
        proof {
            assert(fs.take(j + 1) =~= prefix.push(fs[j as int]));
            prefix.lemma_filter_push(fs[j as int], is_selected());
            assert(fs =~= fs.take(j + 1) + fs.skip(j + 1));
            Seq::filter_distributes_over_add(fs.take(j + 1), fs.skip(j + 1), is_selected());
            lemma_size_sum_append(fs.take(j + 1).filter(is_selected()), fs.skip(j + 1).filter(is_selected()));
            assert(fs[j as int] == g.files@[j as int]@);
        }
        if g.files[j].selected {
            proof {
                assert(fs.take(j + 1).filter(is_selected()) == prefix.filter(is_selected()).push(fs[j as int]));
                assert(fs.take(j + 1).filter(is_selected()).drop_last() =~= prefix.filter(is_selected()));
                assert(size_sum(fs.take(j + 1).filter(is_selected())) == size + fs[j as int].size);
                assert(fs.filter(is_selected()) == fs.take(j + 1).filter(is_selected()) + fs.skip(j + 1).filter(is_selected()));
            }
            count = count + 1;
            size = size + g.files[j].size;
            let ghost before = paths@;
            let p = copy_path(&g.files[j].path);
            paths.push(p);
            proof {
                assert(paths@.map_values(|p: Vec<String>| path_view(p@)) =~= before.map_values(|p: Vec<String>| path_view(p@)).push(fs[j as int].path));
                assert(fs.take(j + 1).filter(is_selected()) == prefix.filter(is_selected()).push(fs[j as int]));
                assert(fs.take(j + 1).filter(is_selected()).drop_last() =~= prefix.filter(is_selected()));
                assert(fs.take(j + 1).filter(is_selected()).map_values(|f: DupView| f.path) =~= prefix.filter(is_selected()).map_values(|f: DupView| f.path).push(fs[j as int].path));
            }
        }
    }
    assert(fs.take(fs.len() as int) =~= fs);
    (count, size)
}

/// The selected files of all the groups, group after group.
pub open spec fn selected_files(gs: Seq<GroupView>) -> Seq<DupView> {
    all_files(gs).filter(is_selected())
}

/// The selected files of all the groups: how many, their total size, and their paths in
/// order.
pub fn selection_summary(groups: &Vec<DuplicateGroup>) -> (r: (usize, u64, Vec<Vec<String>>))
    requires
        selected_files(groups_view(groups@)).len() <= usize::MAX,
        size_sum(selected_files(groups_view(groups@))) <= u64::MAX,
    ensures
        r.0 == selected_files(groups_view(groups@)).len(),
        r.1 == size_sum(selected_files(groups_view(groups@))),
        r.2@.map_values(|p: Vec<String>| path_view(p@)) == selected_files(groups_view(groups@)).map_values(|f: DupView| f.path),
{
    let ghost gv = groups_view(groups@);
    let mut count: usize = 0;
    let mut size: u64 = 0;
    let mut paths: Vec<Vec<String>> = Vec::new();
    for i in 0..groups.len()
        invariant
            gv == groups_view(groups@),
            gv.len() == groups@.len(),
            selected_files(gv).len() <= usize::MAX,
            size_sum(selected_files(gv)) <= u64::MAX,
            count == selected_files(gv.take(i as int)).len(),
            size == size_sum(selected_files(gv.take(i as int))),
            paths@.map_values(|p: Vec<String>| path_view(p@)) == selected_files(gv.take(i as int)).map_values(|f: DupView| f.path),
    {
        let ghost before = all_files(gv.take(i as int));
        let ghost mine = gv[i as int].files;
        proof {
            lemma_all_files_split(gv, i as int);
            let after = all_files(gv.skip(i + 1));
            Seq::filter_distributes_over_add(before, mine, is_selected());
            Seq::filter_distributes_over_add(before + mine, after, is_selected());
            lemma_size_sum_append(before.filter(is_selected()), mine.filter(is_selected()));
            lemma_size_sum_append((before + mine).filter(is_selected()), after.filter(is_selected()));
            assert(gv[i as int] == groups@[i as int]@);
        }
        let (c, sz) = group_selection(&groups[i], &mut paths);
        count = count + c;
        size = size + sz;
        proof {
            assert(selected_files(gv.take(i + 1)).map_values(|f: DupView| f.path) =~= selected_files(gv.take(i as int)).map_values(|f: DupView| f.path) + mine.filter(is_selected()).map_values(|f: DupView| f.path));
        }
    }
    assert(gv.take(gv.len() as int) =~= gv);
    (count, size, paths)
}

// ---------------------------------------------------------------------------
// Texts and the page's state

/// The message after moving duplicates to the recycle bin: the `moved` template with the
/// number deleted in place of each `{}` when nothing failed (not an error); otherwise the
/// `error` template with the number of failures (an error).
pub fn deletion_message(moved: &str, error: &str, result: &CleanResult) -> (r: (String, bool))
    ensures
        r.1 == (result.failed@.len() > 0),
        r.0@ == (if result.failed@.len() == 0 {
            replace_all(moved@, "{}"@, decimal(result.deleted as nat))
        } else {
            replace_all(error@, "{}"@, decimal(result.failed@.len()))
        }),
{
    proof {
        reveal_strlit("{}");
    }
    if result.failed.len() == 0 {
        let n = decimal_string(result.deleted as u64);
        (replace_str(moved, "{}", n.as_str()), false)
    } else {
        let n = decimal_string(result.failed.len() as u64);
        (replace_str(error, "{}", n.as_str()), true)
    }
}

/// The heading of the results: `<label> <n> group` or `... groups`.
pub fn found_groups_label(label: &str, n: usize) -> (r: String)
    ensures
        r@ == label@ + seq![' '] + decimal(n as nat) + seq![' '] + (if n == 1 { "group"@ } else { "groups"@ }),
{
    let mut s = String::new();
    push_str(&mut s, label);
    push_char(&mut s, ' ');
    push_decimal(&mut s, n as u64);
    push_char(&mut s, ' ');
    if n == 1 {
        push_str(&mut s, "group");
    } else {
        push_str(&mut s, "groups");
    }
    s
}

/// The caption of the delete button: `<label> <count> (<size>)`.
pub fn delete_button_label(label: &str, count: usize, size: u64) -> (r: String)
    ensures
        r@ == label@ + seq![' '] + decimal(count as nat) + " ("@ + size_text(size as nat) + seq![')'],
{
    let mut s = String::new();
    push_str(&mut s, label);
    push_char(&mut s, ' ');
    push_decimal(&mut s, count as u64);
    push_str(&mut s, " (");
    let sz = format_size(size);
    push_str(&mut s, sz.as_str());
    push_char(&mut s, ')');
    s
}

/// The title of the group at position `index`: `<label> <index + 1> (<size> / each)`.
pub fn group_title(label: &str, index: usize, size: u64) -> (r: String)
    requires
        index < usize::MAX,
    ensures
        r@ == label@ + seq![' '] + decimal(index as nat + 1) + " ("@ + size_text(size as nat) + " / each)"@,
{
    let mut s = String::new();
    push_str(&mut s, label);
    push_char(&mut s, ' ');
    push_decimal(&mut s, (index + 1) as u64);
    push_str(&mut s, " (");
    let sz = format_size(size);
    push_str(&mut s, sz.as_str());
    push_str(&mut s, " / each)");
    s
}

/// The digest as shown beside a group: its first eight characters when it has at least
/// eight, otherwise all of it. A digest is written in hexadecimal, so its characters are
/// its bytes; the cut is made between characters in any case.
pub fn short_hash(hash: &str) -> (r: String)
    ensures
        r@ == (if hash@.len() >= 8 { hash@.take(8) } else { hash@ }),
{
    let cs = chars_of(hash);
    if cs.len() >= 8 {
        let head = sub_chars(&cs, 0, 8);
        assert(head@ =~= hash@.take(8));
        string_from_chars(&head)
    } else {
        owned(hash)
    }
}

impl DuplicateFinderState {
    /// Whether a search may start, or the folder change: nothing is under way.
    pub fn is_idle(&self) -> (r: bool)
        ensures
            r == (self.status is Idle || self.status is Done),
    {
        match self.status {
            ScanStatus::Idle | ScanStatus::Done => true,
            _ => false,
        }
    }

    /// Forgets the results, after the folder changed.
    pub fn reset(&mut self)
        ensures
            final(self).groups@.len() == 0,
            final(self).status is Idle,
            final(self).result_message is None,
    {
        self.groups = Vec::new();
        self.status = ScanStatus::Idle;
        self.result_message = None;
    }

    /// A search starts: the results are forgotten and the status says `starting`.
    pub fn begin_scan(&mut self, starting: &str)
        ensures
            final(self).groups@.len() == 0,
            final(self).result_message is None,
            final(self).status matches ScanStatus::Scanning { message, current, total }
                && message@ == starting@ && current == 0 && total == 0,
    {
        self.groups = Vec::new();
        self.result_message = None;
        self.status = ScanStatus::Scanning { message: owned(starting), current: 0, total: 0 };
    }

    /// A report from the search: its status, and the groups when it has finished.
    pub fn receive_scan(&mut self, status: ScanStatus, groups: Option<Vec<DuplicateGroup>>)
        ensures
            final(self).status == status,
            final(self).result_message == old(self).result_message,
            groups_view(final(self).groups@) == (match groups {
                Some(gs) => groups_view(gs@),
                None => groups_view(old(self).groups@),
            }),
    {
        self.status = status;
        if let Some(gs) = groups {
            self.groups = gs;
        }
    }

    /// Deleting starts: the status says `moving`.
    pub fn begin_delete(&mut self, moving: &str)
        ensures
            final(self).status matches ScanStatus::Deleting { message } && message@ == moving@,
            groups_view(final(self).groups@) == groups_view(old(self).groups@),
            final(self).result_message == old(self).result_message,
    {
        self.status = ScanStatus::Deleting { message: owned(moving) };
    }

    /// A report from the deletion: its status, and its outcome when it has finished, which
    /// drops the deleted files (see `remove_deleted_duplicates`) and sets the message (see
    /// `deletion_message`).
    pub fn receive_delete(&mut self, status: ScanStatus, result: Option<CleanResult>, moved: &str, error: &str)
        ensures
            final(self).status == status,
            match result {
                Some(res) => {
                    &&& groups_view(final(self).groups@) == groups_view(old(self).groups@).map_values(
                        |g: GroupView| without_selected(g),
                    ).filter(duplicated())
                    &&& final(self).result_message matches Some((msg, is_error))
                        && is_error == (res.failed@.len() > 0)
                        && msg@ == (if res.failed@.len() == 0 {
                            replace_all(moved@, "{}"@, decimal(res.deleted as nat))
                        } else {
                            replace_all(error@, "{}"@, decimal(res.failed@.len()))
                        })
                },
                None => {
                    &&& groups_view(final(self).groups@) == groups_view(old(self).groups@)
                    &&& final(self).result_message == old(self).result_message
                },
            },
    {
        self.status = status;
        if let Some(res) = result {
            remove_deleted_duplicates(&mut self.groups);
            let msg = deletion_message(moved, error, &res);
            self.result_message = Some(msg);
        }
    }
}

/// Quick selection keeps every file of a group, orders them by the length of their names,
/// shortest first, and leaves exactly the first of them unselected.
pub proof fn lemma_quick_selected(g: GroupView)
    ensures
        ({
            let q = quick_selected(g);
            &&& q.hash == g.hash && q.size == g.size
            &&& q.files.len() == g.files.len()
            &&& q.files.len() > 0 ==> !q.files[0].selected
            &&& forall|i: int| 0 < i < q.files.len() ==> (#[trigger] q.files[i]).selected
            &&& forall|i: int, j: int| 0 <= i < j < q.files.len() ==> name_bytes()(#[trigger] q.files[i]) <= name_bytes()(#[trigger] q.files[j])
            &&& sort_by_key(g.files, name_bytes()).to_multiset() == g.files.to_multiset()
        }),
{
    lemma_sort_by_key(g.files, name_bytes());
    let sorted = sort_by_key(g.files, name_bytes());
    let q = quick_selected(g);
    assert forall|i: int, j: int| 0 <= i < j < q.files.len() implies name_bytes()(#[trigger] q.files[i]) <= name_bytes()(#[trigger] q.files[j]) by {
        assert(name_bytes()(q.files[i]) == name_bytes()(sorted[i]));
        assert(name_bytes()(q.files[j]) == name_bytes()(sorted[j]));
    }
}

/// After the selected files were deleted, every group left holds at least two files and none
/// of them is selected.
pub proof fn lemma_remove_deleted(gs: Seq<GroupView>)
    ensures
        ({
            let r = gs.map_values(|g: GroupView| without_selected(g)).filter(duplicated());
            forall|i: int| 0 <= i < r.len() ==> (#[trigger] r[i]).files.len() >= 2
                && forall|k: int| 0 <= k < r[i].files.len() ==> !(#[trigger] r[i].files[k]).selected
        }),
{
    let m = gs.map_values(|g: GroupView| without_selected(g));
    let r = m.filter(duplicated());
    assert forall|i: int| 0 <= i < r.len() implies (#[trigger] r[i]).files.len() >= 2
        && forall|k: int| 0 <= k < r[i].files.len() ==> !(#[trigger] r[i].files[k]).selected by {
        m.lemma_filter_pred(duplicated(), i);
        assert(r.contains(r[i]));
        m.lemma_filter_contains_rev(duplicated(), r[i]);
        let j = choose|j: int| 0 <= j < m.len() && m[j] == r[i];
        assert(m[j] == without_selected(gs[j]));
        assert forall|k: int| 0 <= k < r[i].files.len() implies !(#[trigger] r[i].files[k]).selected by {
            gs[j].files.lemma_filter_pred(not_selected(), k);
        }
    }
}

} // verus!
