use vstd::prelude::*;

use sha2::{Digest, Sha256};

use crate::file_info::{forest_view, lemma_forest_view, path_view, EntryView, FileEntry, Measure, forest_measure, tree_measure};
use crate::file_info::SortState;
use crate::order::{
    forest_sorted, is_witness, lemma_forest_measure_append, lemma_forest_sorted_reshaped, lemma_reshaped_with_measure,
    reshaped_forest, reshaped_with,
};
use crate::text::{owned, push_char, push_str};

verus! {

/// The name of the folder, under the system's temporary folder, that holds the app's
/// scan caches.
pub fn app_dir_name() -> (r: &'static str)
    ensures
        r@ == "folder_cleaner"@,
{
    "folder_cleaner"
}

/// The app's data folder: `folder_cleaner` under the temporary folder `temp_dir`.
pub fn app_data_dir(temp_dir: &Vec<String>) -> (r: Vec<String>)
    ensures
        path_view(r@) == path_view(temp_dir@).push("folder_cleaner"@),
{
    let mut out = copy_path(temp_dir);
    let ghost before = out@;
    let name = app_dir_name();
    out.push(owned(name));
    assert(path_view(out@) =~= path_view(before).push(name@));
    out
}

/// The settings file: `settings.ini` beside the program, in the folder `exe_dir` that
/// holds the executable.
pub fn settings_path(exe_dir: &Vec<String>) -> (r: Vec<String>)
    ensures
        path_view(r@) == path_view(exe_dir@).push("settings.ini"@),
{
    let mut out = copy_path(exe_dir);
    let ghost before = out@;
    let file = "settings.ini";
    out.push(owned(file));
    assert(path_view(out@) =~= path_view(before).push(file@));
    out
}

/// A copy of a path.
pub(crate) fn copy_path(p: &Vec<String>) -> (r: Vec<String>)
    ensures
        path_view(r@) == path_view(p@),
{
    let mut out: Vec<String> = Vec::new();
    for k in 0..p.len()
        invariant
            path_view(out@) == path_view(p@).take(k as int),
    {
        let ghost before = out@;
        let c = p[k].clone();
        out.push(c);
        assert(path_view(out@) =~= path_view(before).push(c@));
        assert(path_view(p@).take(k + 1) =~= path_view(p@).take(k as int).push(path_view(p@)[k as int]));
    }
    assert(path_view(p@).take(p@.len() as int) =~= path_view(p@));
    out
}

/// The SHA-256 digest of a byte sequence.
pub uninterp spec fn sha256_digest(data: Seq<u8>) -> Seq<u8>;

/// `sha2::Sha256::digest`: the result is named `sha256_digest` of the input; a SHA-256
/// digest is 32 bytes long.
#[verifier::external_body]
pub(crate) fn sha256(data: &[u8]) -> (r: Vec<u8>)
    ensures
        r@ == sha256_digest(data@),
        r@.len() == 32,
{
    Sha256::digest(data).to_vec()
}

/// The lowercase hexadecimal digit for a value below 16.
pub open spec fn hex_digit(d: nat) -> char {
    if d < 10 {
        (('0' as nat) + d) as char
    } else {
        (('a' as nat) + d - 10) as char
    }
}

/// Bytes written as lowercase hexadecimal, two digits per byte, high half first.
pub open spec fn hex_lower(bytes: Seq<u8>) -> Seq<char>
    decreases bytes.len(),
{
    if bytes.len() == 0 {
        Seq::empty()
    } else {
        hex_lower(bytes.drop_last()) + seq![hex_digit(bytes.last() as nat / 16), hex_digit(bytes.last() as nat % 16)]
    }
}

fn exec_hex_digit(d: u8) -> (c: char)
    requires
        d < 16,
    ensures
        c == hex_digit(d as nat),
{
    let digits: [char; 16] = ['0', '1', '2', '3', '4', '5', '6', '7', '8', '9', 'a', 'b', 'c', 'd', 'e', 'f'];
    let c = digits[d as usize];
    assert(c == hex_digit(d as nat)) by {
        assert(digits@ =~= seq!['0', '1', '2', '3', '4', '5', '6', '7', '8', '9', 'a', 'b', 'c', 'd', 'e', 'f']);
    }
    c
}

/// Writes the first `n` bytes of `bytes` in lowercase hexadecimal after `s`.
fn push_hex_prefix(s: &mut String, bytes: &Vec<u8>, n: usize)
    requires
        n <= bytes@.len(),
    ensures
        final(s)@ == old(s)@ + hex_lower(bytes@.take(n as int)),
{
    for i in 0..n
        invariant
            n <= bytes@.len(),
            s@ == old(s)@ + hex_lower(bytes@.take(i as int)),
    {
        let b = bytes[i];
        push_char(s, exec_hex_digit(b / 16));
        push_char(s, exec_hex_digit(b % 16));
        assert(bytes@.take(i + 1).drop_last() =~= bytes@.take(i as int));
        assert(s@ =~= old(s)@ + hex_lower(bytes@.take(i + 1)));
    }
}

/// Number of hexadecimal digits of the digest that name a cache file.
pub const CACHE_KEY_DIGITS: usize = 16;

/// The name of the cache file for a scanned folder: the first 16 lowercase hexadecimal
/// digits of the SHA-256 digest of the folder's path (as UTF-8), then `.bin`.
pub fn cache_file_name(scan_path: &str) -> (r: String)
    ensures
        r@ == hex_lower(sha256_digest(vstd::utf8::encode_utf8(scan_path@)).take(8)) + ".bin"@,
{
    let digest = sha256(scan_path.as_bytes());
    let mut name = String::new();
    push_hex_prefix(&mut name, &digest, CACHE_KEY_DIGITS / 2);
    push_str(&mut name, ".bin");
    name
}

/// The cache file for a scanned folder, in the app's data folder.
pub fn cache_path_for(temp_dir: &Vec<String>, scan_path: &str) -> (r: Vec<String>)
    ensures
        path_view(r@) == path_view(temp_dir@).push("folder_cleaner"@).push(
            hex_lower(sha256_digest(vstd::utf8::encode_utf8(scan_path@)).take(8)) + ".bin"@,
        ),
{
    let mut out = app_data_dir(temp_dir);
    let ghost before = out@;
    let file = cache_file_name(scan_path);
    let ghost fv = file@;
    out.push(file);
    assert(path_view(out@) =~= path_view(before).push(fv));
    out
}

/// Number of entries in the trees, folders included.
pub fn count_recursive(entries: &Vec<FileEntry>) -> (r: usize)
    requires
        forest_measure(forest_view(entries@), Measure::Entries) <= usize::MAX,
    ensures
        r == forest_measure(forest_view(entries@), Measure::Entries),
    decreases forest_view(entries@),
{
    let ghost s = forest_view(entries@);
    proof {
        lemma_forest_view(entries@);
    }
    let mut acc: usize = 0;
    for i in 0..entries.len()
        invariant
            s == forest_view(entries@),
            s.len() == entries@.len(),
            forall|j: int| 0 <= j < entries@.len() ==> #[trigger] s[j] == entries@[j]@,
            forest_measure(s, Measure::Entries) <= usize::MAX,
            acc == forest_measure(s.take(i as int), Measure::Entries),
    {
        proof {
            crate::file_info::lemma_forest_measure_prefix(s, i as int, Measure::Entries);
            crate::file_info::lemma_forest_measure_prefix_le(s, i + 1, Measure::Entries);
            assert(s[i as int].children == forest_view(entries@[i as int].children@));
            assert(decreases_to!(s => s[i as int].children));
        }
        let below = count_recursive(&entries[i].children);
        acc = acc + 1 + below;
    }
    assert(s.take(s.len() as int) =~= s);
    acc
}

/// Sum of the `size` fields of every entry in the trees, folders included.
pub fn size_recursive(entries: &Vec<FileEntry>) -> (r: u64)
    requires
        forest_measure(forest_view(entries@), Measure::AllSizes) <= u64::MAX,
    ensures
        r == forest_measure(forest_view(entries@), Measure::AllSizes),
    decreases forest_view(entries@),
{
    let ghost s = forest_view(entries@);
    proof {
        lemma_forest_view(entries@);
    }
    let mut acc: u64 = 0;
    for i in 0..entries.len()
        invariant
            s == forest_view(entries@),
            s.len() == entries@.len(),
            forall|j: int| 0 <= j < entries@.len() ==> #[trigger] s[j] == entries@[j]@,
            forest_measure(s, Measure::AllSizes) <= u64::MAX,
            acc == forest_measure(s.take(i as int), Measure::AllSizes),
    {
        proof {
            crate::file_info::lemma_forest_measure_prefix(s, i as int, Measure::AllSizes);
            crate::file_info::lemma_forest_measure_prefix_le(s, i + 1, Measure::AllSizes);
            assert(s[i as int].children == forest_view(entries@[i as int].children@));
            assert(decreases_to!(s => s[i as int].children));
        }
        let below = size_recursive(&entries[i].children);
        acc = acc + entries[i].size + below;
    }
    assert(s.take(s.len() as int) =~= s);
    acc
}

/// A quick summary of a scan, to tell whether two scans differ: the number of entries and
/// the sum of their sizes, folders included.
pub fn fingerprint(entries: &Vec<FileEntry>) -> (r: (usize, u64))
    requires
        forest_measure(forest_view(entries@), Measure::Entries) <= usize::MAX,
        forest_measure(forest_view(entries@), Measure::AllSizes) <= u64::MAX,
    ensures
        r.0 == forest_measure(forest_view(entries@), Measure::Entries),
        r.1 == forest_measure(forest_view(entries@), Measure::AllSizes),
        (r.0 as nat, r.1 as nat) == fingerprint_of(forest_view(entries@)),
{
    (count_recursive(entries), size_recursive(entries))
}

/// The fingerprint of a listing, as the two numbers it counts.
pub open spec fn fingerprint_of(s: Seq<EntryView>) -> (nat, nat) {
    (forest_measure(s, Measure::Entries), forest_measure(s, Measure::AllSizes))
}

/// The fingerprint does not see how a listing is arranged or which entries are selected
/// or expanded: rearranging the entries at any depth, sorting them, or changing those
/// flags keeps it.
pub proof fn lemma_fingerprint_reshaped(a: Seq<EntryView>, b: Seq<EntryView>)
    requires
        reshaped_forest(a, b),
    ensures
        fingerprint_of(b) == fingerprint_of(a),
{
    let p = choose|p: Seq<int>| #[trigger] is_witness(p) && reshaped_with(a, b, p);
    lemma_reshaped_with_measure(a, b, p, Measure::Entries);
    lemma_reshaped_with_measure(a, b, p, Measure::AllSizes);
}

/// Sorting a listing (see `sort_forest`) keeps its fingerprint.
pub proof fn lemma_fingerprint_sorted(
    a: Seq<EntryView>,
    b: Seq<EntryView>,
    inner: Option<SortState>,
    top: Option<SortState>,
)
    requires
        forest_sorted(a, b, inner, top, true),
    ensures
        fingerprint_of(b) == fingerprint_of(a),
{
    lemma_forest_sorted_reshaped(a, b, inner, top, true);
    lemma_fingerprint_reshaped(a, b);
}

/// The fingerprint of two listings put together is the sum of their fingerprints.
pub proof fn lemma_fingerprint_concat(a: Seq<EntryView>, b: Seq<EntryView>)
    ensures
        fingerprint_of(a + b) == (fingerprint_of(a).0 + fingerprint_of(b).0, fingerprint_of(a).1 + fingerprint_of(b).1),
{
    lemma_forest_measure_append(a, b, Measure::Entries);
    lemma_forest_measure_append(a, b, Measure::AllSizes);
}

/// The measure counted by the fingerprint: entries, or the sizes of all entries.
pub open spec fn fingerprint_measure(sizes: bool) -> Measure {
    if sizes { Measure::AllSizes } else { Measure::Entries }
}

/// `count_recursive` or `size_recursive` with checks: `None` when the result would not
/// fit in a `u64`.
fn checked_measure(entries: &Vec<FileEntry>, sizes: bool) -> (r: Option<u64>)
    ensures
        r is Some <==> forest_measure(forest_view(entries@), fingerprint_measure(sizes)) <= u64::MAX,
        r matches Some(x) ==> x == forest_measure(forest_view(entries@), fingerprint_measure(sizes)),
    decreases forest_view(entries@),
{
    let ghost m = fingerprint_measure(sizes);
    let ghost s = forest_view(entries@);
    proof {
        lemma_forest_view(entries@);
    }
    let mut acc: u64 = 0;
    for i in 0..entries.len()
        invariant
            m == fingerprint_measure(sizes),
            s == forest_view(entries@),
            s.len() == entries@.len(),
            forall|j: int| 0 <= j < entries@.len() ==> #[trigger] s[j] == entries@[j]@,
            acc == forest_measure(s.take(i as int), m),
    {
        proof {
            crate::file_info::lemma_forest_measure_prefix(s, i as int, m);
            crate::file_info::lemma_forest_measure_prefix_le(s, i + 1, m);
            assert(s[i as int].children == forest_view(entries@[i as int].children@));
            assert(decreases_to!(s => s[i as int].children));
        }
        let own: u64 = if sizes { entries[i].size } else { 1 };
        let below = match checked_measure(&entries[i].children, sizes) {
            Some(b) => b,
            None => {
                return None;
            },
        };
        let step = match own.checked_add(below) {
            Some(x) => x,
            None => {
                return None;
            },
        };
        acc = match acc.checked_add(step) {
            Some(x) => x,
            None => {
                return None;
            },
        };
    }
    assert(s.take(s.len() as int) =~= s);
    Some(acc)
}

/// The fingerprint, when its numbers fit: `None` when there are more entries than a `usize`
/// holds or their sizes add up beyond a `u64`.
pub fn checked_fingerprint(entries: &Vec<FileEntry>) -> (r: Option<(usize, u64)>)
    ensures
        r is Some <==> (forest_measure(forest_view(entries@), Measure::Entries) <= usize::MAX
            && forest_measure(forest_view(entries@), Measure::AllSizes) <= u64::MAX),
        r matches Some(fp) ==> fp.0 == forest_measure(forest_view(entries@), Measure::Entries)
            && fp.1 == forest_measure(forest_view(entries@), Measure::AllSizes),
{
    let count = checked_measure(entries, false);
    let size = checked_measure(entries, true);
    match (count, size) {
        (Some(c), Some(sz)) => {
            if c <= usize::MAX as u64 {
                Some((c as usize, sz))
            } else {
                None
            }
        },
        _ => None,
    }
}

/// Hexadecimal writes two digits per byte, each a digit or a letter from `a` to `f`.
pub proof fn lemma_hex_lower(bytes: Seq<u8>)
    ensures
        hex_lower(bytes).len() == 2 * bytes.len(),
        forall|i: int| 0 <= i < hex_lower(bytes).len() ==> ('0' <= #[trigger] hex_lower(bytes)[i] <= '9'
            || 'a' <= hex_lower(bytes)[i] <= 'f'),
    decreases bytes.len(),
{
    if bytes.len() > 0 {
        lemma_hex_lower(bytes.drop_last());
        let h = hex_lower(bytes);
        let init = hex_lower(bytes.drop_last());
        let b = bytes.last() as nat;
        assert forall|i: int| 0 <= i < h.len() implies ('0' <= #[trigger] h[i] <= '9' || 'a' <= h[i] <= 'f') by {
            if i < init.len() {
                assert(h[i] == init[i]);
            } else {
                assert(b / 16 < 16 && b % 16 < 16);
            }
        }
    }
}

/// A cache file is named by sixteen hexadecimal digits and `.bin`, twenty characters in all.
pub proof fn lemma_cache_file_name(scan_path: Seq<char>)
    requires
        sha256_digest(vstd::utf8::encode_utf8(scan_path)).len() == 32,
    ensures
        (hex_lower(sha256_digest(vstd::utf8::encode_utf8(scan_path)).take(8)) + ".bin"@).len() == 20,
{
    reveal_strlit(".bin");
    lemma_hex_lower(sha256_digest(vstd::utf8::encode_utf8(scan_path)).take(8));
}

} // verus!
