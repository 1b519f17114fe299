use vstd::prelude::*;

use crate::cache::{copy_path, fingerprint};
use crate::cleaner::{
    deselect_all, deselect_forest, lemma_select_old_forest_measure, lemma_selected_within_forest,
    lemma_shallow_selection_measure, patterns_view, plan_deletion, select_old_files, select_old_files_shallow,
    select_old_forest, shallow_selection, CleanResult, DeletionPlan, batch_view, count_sum, deletion_steps, selected_items,
};
use crate::components::{next_sort, next_sort_state, DialogResult, DialogState, OldFilePeriod, OldFileScope, ToolbarAction};
use crate::file_info::{
    count_selected_in_entries, forest_measure, forest_view, lemma_forest_view, lemma_forest_view_append, path_view, selected_size_in_entries,
    EntryView, FileEntry, Measure, SortCriteria, SortState,
};
use crate::lang::Lang;
use crate::order::{forest_sorted, sort_forest, sortable};
use crate::sorter::{is_sort_plan, plan_sort, SortMove, SortResult};
use crate::text::{chars_of, decimal, join, owned, push_char, push_decimal, push_str, replace_first, replace_first_str, trim_start_chars, trim_start_of, decimal_string, join_strings};
use crate::utils::{format_size, size_text, SECS_PER_DAY};

verus! {

/// What the background scan of a folder reports.
#[derive(Debug)]
pub enum ScanEvent {
    /// Still scanning: entries read so far, and the folder being read.
    Progress { scanned: usize, current_path: String },
    /// The scan has finished with these entries.
    Done(Vec<FileEntry>),
    /// The folder could not be scanned.
    Error(String),
}

// ---------------------------------------------------------------------------
// Entries removed from the disk

/// Whether two paths are the same, component by component.
pub fn same_path(a: &Vec<String>, b: &Vec<String>) -> (r: bool)
    ensures
        r == (path_view(a@) == path_view(b@)),
{
    let ghost av = path_view(a@);
    let ghost bv = path_view(b@);
    assert(av.len() == a@.len() && bv.len() == b@.len());
    if a.len() != b.len() {
        return false;
    }
    for k in 0..a.len()
        invariant
            av == path_view(a@),
            bv == path_view(b@),
            av.len() == a@.len(),
            a@.len() == b@.len(),
            bv.len() == b@.len(),
            forall|j: int| 0 <= j < k ==> av[j] == bv[j],
    {
        if a[k] != b[k] {
            assert(av[k as int] != bv[k as int]);
            return false;
        }
    }
    assert(av =~= bv);
    true
}

/// The paths as sequences of components.
pub open spec fn paths_view(ps: Seq<Vec<String>>) -> Seq<Seq<Seq<char>>> {
    ps.map_values(|p: Vec<String>| path_view(p@))
}

/// Whether `path` is among `paths`.
fn path_listed(path: &Vec<String>, paths: &Vec<Vec<String>>) -> (r: bool)
    ensures
        r == paths_view(paths@).contains(path_view(path@)),
{
    let ghost pv = paths_view(paths@);
    for i in 0..paths.len()
        invariant
            pv == paths_view(paths@),
            pv.len() == paths@.len(),
            forall|j: int| 0 <= j < i ==> pv[j] != path_view(path@),
    {
        if same_path(&paths[i], path) {
            assert(pv[i as int] == path_view(path@));
            return true;
        }
    }
    false
}

/// An entry without the entries below it whose paths are `missing`.
pub open spec fn prune_tree(v: EntryView, missing: Seq<Seq<Seq<char>>>) -> EntryView
    decreases v, 1nat,
{
    EntryView { children: prune_forest(v.children, missing), ..v }
}

/// The entries whose paths are not `missing`, each pruned in turn (see `prune_tree`).
pub open spec fn prune_forest(s: Seq<EntryView>, missing: Seq<Seq<Seq<char>>>) -> Seq<EntryView>
    decreases s, 0nat,
{
    if s.len() == 0 {
        s
    } else {
        let init = prune_forest(s.drop_last(), missing);
        if missing.contains(s.last().path) {
            init
        } else {
            init.push(prune_tree(s.last(), missing))
        }
    }
}

/// After a deletion: drops the entries that are no longer on the disk, whose paths are
/// `missing`, with everything below them, at every level.
pub fn remove_deleted_entries(entries: &mut Vec<FileEntry>, missing: &Vec<Vec<String>>)
    ensures
        forest_view(final(entries)@) == prune_forest(forest_view(old(entries)@), paths_view(missing@)),
    decreases forest_view(old(entries)@),
{
    let ghost orig = forest_view(entries@);
    let ghost mv = paths_view(missing@);
    proof {
        lemma_forest_view(entries@);
    }
    let ghost mut c: int = 0;
    let mut k: usize = 0;
    while k < entries.len()
        invariant
            orig == forest_view(old(entries)@),
            orig.len() == old(entries)@.len(),
            forall|j: int| 0 <= j < orig.len() ==> #[trigger] orig[j] == old(entries)@[j]@,
            mv == paths_view(missing@),
            0 <= k <= entries@.len(),
            0 <= c <= orig.len(),
            forall|j: int| 0 <= j < k ==> #[trigger] entries@[j]@ == prune_forest(orig.take(c), mv)[j],
            prune_forest(orig.take(c), mv).len() == k,
            entries@.skip(k as int) == old(entries)@.skip(c),
        decreases entries@.len() - k,
    {
        proof {
            assert(entries@.skip(k as int).len() > 0);
            assert(old(entries)@.skip(c).len() > 0);
        }
        let ghost cur = old(entries)@[c];
        proof {
            assert(entries@.skip(k as int)[0] == old(entries)@.skip(c)[0]);
            assert(entries@[k as int] == cur);
            assert(orig.take(c + 1).drop_last() =~= orig.take(c));
            assert(orig.take(c + 1).last() == orig[c]);
            assert(old(entries)@.skip(c + 1) =~= old(entries)@.skip(c).skip(1));
        }
        if path_listed(&entries[k].path, missing) {
            let ghost before = entries@;
            let _gone = entries.remove(k);
            proof {
                assert(mv.contains(orig[c].path));
                assert(entries@.skip(k as int) =~= before.skip(k as int).skip(1));
                assert forall|j: int| 0 <= j < k implies #[trigger] entries@[j]@ == prune_forest(orig.take(c + 1), mv)[j] by {
                    assert(entries@[j] == before[j]);
                }
                c = c + 1;
            }
        } else {
            proof {
                assert(orig[c].children == forest_view(cur.children@));
                assert(decreases_to!(orig => orig[c]));
                assert(decreases_to!(orig[c] => orig[c].children));
            }
            let ghost before = entries@;
            let entry = &mut entries[k];
            remove_deleted_entries(&mut entry.children, missing);
            proof {
                assert(entries@[k as int]@ == prune_tree(orig[c], mv));
                assert(entries@.skip(k + 1) =~= before.skip(k as int).skip(1));
                assert forall|j: int| 0 <= j < k + 1 implies #[trigger] entries@[j]@ == prune_forest(orig.take(c + 1), mv)[j] by {
                    if j < k {
                        assert(entries@[j] == before[j]);
                    }
                }
                c = c + 1;
            }
            k = k + 1;
        }
    }
    proof {
        assert(entries@.skip(k as int).len() == 0);
        assert(c == orig.len());
        assert(orig.take(c) =~= orig);
        lemma_forest_view(entries@);
        assert forall|j: int| 0 <= j < entries@.len() implies #[trigger] forest_view(entries@)[j] == prune_forest(orig, mv)[j] by {
            assert(entries@[j]@ == prune_forest(orig.take(c), mv)[j]);
        }
        assert(forest_view(entries@) =~= prune_forest(orig, mv));
    }
}

/// The paths of the entries and of everything below them, each entry before its children.
pub open spec fn forest_paths(s: Seq<EntryView>) -> Seq<Seq<Seq<char>>>
    decreases s, 0nat,
{
    if s.len() == 0 {
        Seq::empty()
    } else {
        forest_paths(s.drop_last()) + tree_paths(s.last())
    }
}

/// The path of an entry, then those below it.
pub open spec fn tree_paths(v: EntryView) -> Seq<Seq<Seq<char>>>
    decreases v, 1nat,
{
    seq![v.path] + forest_paths(v.children)
}

/// Appends the paths of the entries and of everything below them (see `forest_paths`).
fn push_paths(entries: &Vec<FileEntry>, out: &mut Vec<Vec<String>>)
    ensures
        paths_view(final(out)@) == paths_view(old(out)@) + forest_paths(forest_view(entries@)),
    decreases forest_view(entries@),
{
    let ghost s = forest_view(entries@);
    proof {
        lemma_forest_view(entries@);
    }
    for i in 0..entries.len()
        invariant
            s == forest_view(entries@),
            s.len() == entries@.len(),
            forall|j: int| 0 <= j < entries@.len() ==> #[trigger] s[j] == entries@[j]@,
            paths_view(out@) == paths_view(old(out)@) + forest_paths(s.take(i as int)),
    {
        let ghost before = paths_view(out@);
        proof {
            assert(s.take(i + 1).drop_last() =~= s.take(i as int));
            assert(s.take(i + 1).last() == s[i as int]);
            assert(s[i as int].children == forest_view(entries@[i as int].children@));
            assert(decreases_to!(s => s[i as int].children));
        }
        let p = copy_path(&entries[i].path);
        out.push(p);
        assert(paths_view(out@) =~= before.push(s[i as int].path));
        let ghost mid = paths_view(out@);
        push_paths(&entries[i].children, out);
        proof {
            assert(forest_paths(s.take(i + 1)) == forest_paths(s.take(i as int)) + tree_paths(s[i as int]));
            assert(tree_paths(s[i as int]) == seq![s[i as int].path] + forest_paths(forest_view(entries@[i as int].children@)));
            assert(paths_view(out@) =~= paths_view(old(out)@) + forest_paths(s.take(i + 1)));
        }
    }
    assert(s.take(s.len() as int) =~= s);
}

/// The paths of all the entries, each before those below it: the paths whose existence is
/// checked after a deletion (see `remove_deleted_entries`).
pub fn all_paths(entries: &Vec<FileEntry>) -> (r: Vec<Vec<String>>)
    ensures
        paths_view(r@) == forest_paths(forest_view(entries@)),
{
    let mut out: Vec<Vec<String>> = Vec::new();
    push_paths(entries, &mut out);
    assert(paths_view(out@) =~= forest_paths(forest_view(entries@)));
    out
}

// ---------------------------------------------------------------------------
// The cleanup page

/// What the cleanup page asks the application to do: the work that reaches the disk or
/// runs in the background.
#[derive(Debug)]
pub enum CleanupCommand {
    /// Nothing.
    NoCommand,
    /// Scan the current folder again: load its cache, call `rescan` with it, and start
    /// the scan.
    Rescan,
    /// Delete the selected entries as planned, in the background, reporting progress to
    /// `on_delete_progress` and the outcome to `on_delete_done`.
    Delete { plan: DeletionPlan },
    /// Move the files into the folders for their kinds as planned, then report the
    /// outcome to `finish_sort`.
    SortFiles { files: Vec<FileEntry>, moves: Vec<SortMove> },
}

/// What the cleanup page keeps between frames.
#[derive(Debug)]
pub struct CleanupState {
    /// The listing of the current folder.
    pub entries: Vec<FileEntry>,
    pub dialog_state: DialogState,
    pub selected_period: OldFilePeriod,
    pub selected_scope: OldFileScope,
    pub status_message: Option<String>,
    pub show_period_selector: bool,
    /// The column the listing is ordered by, if any.
    pub sort_state: Option<SortState>,
    /// Scanning with nothing to show yet (a spinner is shown).
    pub is_scanning: bool,
    /// Scanning quietly behind a listing loaded from the cache.
    pub is_silent_scanning: bool,
    /// While scanning: entries read so far, and the folder being read.
    pub scan_progress: Option<(usize, String)>,
    /// Whether the listing should scroll back to its top.
    pub should_scroll_to_top: bool,
    /// A scan has been started and has not reported its end.
    pub awaiting_scan: bool,
    /// A deletion has been started and has not reported its end.
    pub awaiting_delete: bool,
    /// The folder being scanned, whose cache the result is written to.
    pub current_scan_path: String,
}

impl Default for CleanupState {
    fn default() -> (r: CleanupState)
        ensures
            r.entries@.len() == 0,
            r.dialog_state is NoDialog,
            r.selected_period == OldFilePeriod::OneMonth,
            r.selected_scope == OldFileScope::CurrentOnly,
            r.status_message is None,
            !r.show_period_selector,
            r.sort_state is None,
            !r.is_scanning && !r.is_silent_scanning,
            r.scan_progress is None,
            !r.should_scroll_to_top,
            !r.awaiting_scan && !r.awaiting_delete,
            r.current_scan_path@.len() == 0,
    {
        CleanupState {
            entries: Vec::new(),
            dialog_state: DialogState::NoDialog,
            selected_period: OldFilePeriod::OneMonth,
            selected_scope: OldFileScope::CurrentOnly,
            status_message: None,
            show_period_selector: false,
            sort_state: None,
            is_scanning: false,
            is_silent_scanning: false,
            scan_progress: None,
            should_scroll_to_top: false,
            awaiting_scan: false,
            awaiting_delete: false,
            current_scan_path: String::new(),
        }
    }
}

/// What counting over a listing needs: the entries, and the sizes of all of them, fit in a
/// `usize` and a `u64` (see `checked_fingerprint`).
pub open spec fn entries_fit(s: Seq<EntryView>) -> bool {
    &&& forest_measure(s, Measure::Entries) <= usize::MAX
    &&& forest_measure(s, Measure::AllSizes) <= u64::MAX
}

/// The page's fields other than the listing, the dialog and the status message, unchanged.
pub open spec fn same_settings(a: CleanupState, b: CleanupState) -> bool {
    &&& same_scan_settings(a, b)
    &&& a.awaiting_delete == b.awaiting_delete
}

/// The fields `same_settings` compares, all but whether a deletion is awaited, unchanged.
pub open spec fn same_scan_settings(a: CleanupState, b: CleanupState) -> bool {
    &&& a.selected_period == b.selected_period
    &&& a.selected_scope == b.selected_scope
    &&& a.show_period_selector == b.show_period_selector
    &&& a.sort_state == b.sort_state
    &&& a.is_scanning == b.is_scanning
    &&& a.is_silent_scanning == b.is_silent_scanning
    &&& a.scan_progress == b.scan_progress
    &&& a.should_scroll_to_top == b.should_scroll_to_top
    &&& a.awaiting_scan == b.awaiting_scan
    &&& a.current_scan_path == b.current_scan_path
}

impl CleanupState {
    /// A scan of `path` starts. With a cached listing it is shown at once and the scan runs
    /// quietly; without one a spinner is shown until the scan ends.
    pub fn rescan(&mut self, path: &str, cached: Option<Vec<FileEntry>>)
        ensures
            final(self).current_scan_path@ == path@,
            final(self).scan_progress matches Some((n, p)) && n == 0 && p@ == path@,
            final(self).should_scroll_to_top,
            final(self).awaiting_scan,
            final(self).is_scanning == cached is None,
            final(self).is_silent_scanning == cached is Some,
            match cached {
                Some(c) => forest_view(final(self).entries@) == forest_view(c@),
                None => forest_view(final(self).entries@) == forest_view(old(self).entries@),
            },
            final(self).dialog_state == old(self).dialog_state,
            final(self).status_message == old(self).status_message,
            final(self).sort_state == old(self).sort_state,
            final(self).awaiting_delete == old(self).awaiting_delete,
    {
        self.current_scan_path = owned(path);
        self.awaiting_scan = true;
        self.scan_progress = Some((0, owned(path)));
        match cached {
            Some(c) => {
                self.entries = c;
                self.is_scanning = false;
                self.is_silent_scanning = true;
            },
            None => {
                self.is_scanning = true;
                self.is_silent_scanning = false;
            },
        }
        self.should_scroll_to_top = true;
    }

    /// Orders the listing by the chosen column (see `sort_forest`): the children of every
    /// entry, and the entries themselves, folders first.
    pub fn apply_sorting(&mut self)
        requires
            sortable(forest_view(old(self).entries@), old(self).sort_state),
        ensures
            forest_sorted(forest_view(old(self).entries@), forest_view(final(self).entries@), old(self).sort_state, old(self).sort_state, true),
            same_settings(*final(self), *old(self)),
            final(self).dialog_state == old(self).dialog_state,
            final(self).status_message == old(self).status_message,
    {
        let st = self.sort_state;
        sort_forest(&mut self.entries, st, st);
    }

    /// A click on a column's header: sort by it ascending, then descending, then no longer
    /// (see `next_sort_state`), and order the listing accordingly.
    pub fn toggle_sort(&mut self, criteria: SortCriteria)
        requires
            sortable(forest_view(old(self).entries@), next_sort_state(old(self).sort_state, criteria)),
        ensures
            final(self).sort_state == next_sort_state(old(self).sort_state, criteria),
            forest_sorted(forest_view(old(self).entries@), forest_view(final(self).entries@), final(self).sort_state, final(self).sort_state, true),
            final(self).dialog_state == old(self).dialog_state,
            final(self).status_message == old(self).status_message,
            final(self).is_scanning == old(self).is_scanning,
            final(self).awaiting_scan == old(self).awaiting_scan,
            final(self).awaiting_delete == old(self).awaiting_delete,
    {
        self.sort_state = next_sort(self.sort_state, criteria);
        self.apply_sorting();
    }

    /// The scan reports progress: entries read so far and the folder being read.
    pub fn on_scan_progress(&mut self, scanned: usize, current_path: String)
        ensures
            final(self).scan_progress == Some((scanned, current_path)),
            forest_view(final(self).entries@) == forest_view(old(self).entries@),
            final(self).dialog_state == old(self).dialog_state,
            final(self).status_message == old(self).status_message,
            final(self).is_scanning == old(self).is_scanning,
            final(self).is_silent_scanning == old(self).is_silent_scanning,
            final(self).awaiting_scan == old(self).awaiting_scan,
    {
        self.scan_progress = Some((scanned, current_path));
    }

    /// Orders a finished scan's listing for showing: the children of every entry by the
    /// chosen column, the entries themselves folders first, then by name.
    pub fn prepare_scan_result(&self, entries: &mut Vec<FileEntry>)
        requires
            sortable(forest_view(old(entries)@), self.sort_state),
        ensures
            forest_sorted(forest_view(old(entries)@), forest_view(final(entries)@), self.sort_state, None, true),
    {
        sort_forest(entries, self.sort_state, None);
    }

    /// The scan has finished with `new_entries` (ordered by `prepare_scan_result`). They
    /// replace the listing when it was not loaded from a cache, or when their fingerprint
    /// (see `fingerprint`) differs from the listing's, and the status then says so.
    pub fn on_scan_done(&mut self, new_entries: Vec<FileEntry>, lang: &Lang)
        requires
            entries_fit(forest_view(new_entries@)),
            entries_fit(forest_view(old(self).entries@)),
        ensures
            ({
                let nv = forest_view(new_entries@);
                let ov = forest_view(old(self).entries@);
                let changed = forest_measure(nv, Measure::Entries) != forest_measure(ov, Measure::Entries)
                    || forest_measure(nv, Measure::AllSizes) != forest_measure(ov, Measure::AllSizes);
                if changed || old(self).is_scanning {
                    &&& forest_view(final(self).entries@) == nv
                    &&& final(self).status_message matches Some(m) && m@ == lang.msg_rescanned@
                } else {
                    &&& forest_view(final(self).entries@) == ov
                    &&& final(self).status_message == old(self).status_message
                }
            }),
            !final(self).is_scanning,
            !final(self).is_silent_scanning,
            !final(self).awaiting_scan,
            final(self).scan_progress is None,
            final(self).dialog_state == old(self).dialog_state,
            final(self).sort_state == old(self).sort_state,
            final(self).awaiting_delete == old(self).awaiting_delete,
    {
        let new_fp = fingerprint(&new_entries);
        let old_fp = fingerprint(&self.entries);
        let changed = new_fp.0 != old_fp.0 || new_fp.1 != old_fp.1;
        if changed || self.is_scanning {
            self.entries = new_entries;
            self.status_message = Some(owned(lang.msg_rescanned));
        }
        self.is_scanning = false;
        self.is_silent_scanning = false;
        self.awaiting_scan = false;
        self.scan_progress = None;
    }

    /// The scan failed: it is over, and the status gives the error.
    pub fn on_scan_error(&mut self, error: &str)
        ensures
            final(self).status_message matches Some(m) && m@ == "Lỗi scan: "@ + error@,
            !final(self).is_scanning,
            !final(self).is_silent_scanning,
            !final(self).awaiting_scan,
            final(self).scan_progress is None,
            forest_view(final(self).entries@) == forest_view(old(self).entries@),
            final(self).dialog_state == old(self).dialog_state,
    {
        let mut m = String::new();
        push_str(&mut m, "Lỗi scan: ");
        push_str(&mut m, error);
        self.status_message = Some(m);
        self.is_scanning = false;
        self.is_silent_scanning = false;
        self.awaiting_scan = false;
        self.scan_progress = None;
    }

    /// The listing without the entries whose paths are `missing` (see
    /// `remove_deleted_entries`).
    pub fn drop_missing(&mut self, missing: &Vec<Vec<String>>)
        ensures
            forest_view(final(self).entries@) == prune_forest(forest_view(old(self).entries@), paths_view(missing@)),
            final(self).dialog_state == old(self).dialog_state,
            final(self).status_message == old(self).status_message,
            same_settings(*final(self), *old(self)),
    {
        remove_deleted_entries(&mut self.entries, missing);
    }
}

// ---------------------------------------------------------------------------
// Messages

/// The failures as character sequences.
pub open spec fn failures_view(f: Seq<(String, String)>) -> Seq<(Seq<char>, Seq<char>)> {
    f.map_values(|p: (String, String)| (p.0@, p.1@))
}

/// One failure as listed: `  • <name>: <reason>`.
pub open spec fn failure_line(f: (Seq<char>, Seq<char>)) -> Seq<char> {
    "  • "@ + f.0 + ": "@ + f.1
}

/// The lines listing the failures.
pub open spec fn failure_lines(failed: Seq<(Seq<char>, Seq<char>)>) -> Seq<Seq<char>> {
    failed.map_values(|f: (Seq<char>, Seq<char>)| failure_line(f))
}

/// The outcome of a deletion or a sort: `<label> <done> file!` when nothing failed,
/// otherwise `<label> <done> file. <failures> file:` and one line per failure.
pub open spec fn outcome_text(label: Seq<char>, done: nat, failed: Seq<(Seq<char>, Seq<char>)>) -> Seq<char> {
    if failed.len() == 0 {
        label + seq![' '] + decimal(done) + " file!"@
    } else {
        label + seq![' '] + decimal(done) + " file. "@ + decimal(failed.len()) + " file:\n"@
            + join(failure_lines(failed), "\n"@)
    }
}

/// The outcome of a deletion or a sort, as `outcome_text` says.
pub fn outcome_message(label: &str, done: usize, failed: &Vec<(String, String)>) -> (r: String)
    ensures
        r@ == outcome_text(label@, done as nat, failures_view(failed@)),
{
    let ghost fv = failures_view(failed@);
    let mut s = String::new();
    push_str(&mut s, label);
    push_char(&mut s, ' ');
    push_decimal(&mut s, done as u64);
    if failed.len() == 0 {
        push_str(&mut s, " file!");
        return s;
    }
    push_str(&mut s, " file. ");
    push_decimal(&mut s, failed.len() as u64);
    push_str(&mut s, " file:\n");
    let mut lines: Vec<String> = Vec::new();
    for i in 0..failed.len()
        invariant
            fv == failures_view(failed@),
            fv.len() == failed@.len(),
            lines@.map_values(|p: String| p@) == failure_lines(fv.take(i as int)),
    {
        let mut line = String::new();
        push_str(&mut line, "  • ");
        push_str(&mut line, failed[i].0.as_str());
        push_str(&mut line, ": ");
        push_str(&mut line, failed[i].1.as_str());
        let ghost before = lines@;
        proof {
            assert(fv[i as int] == (failed@[i as int].0@, failed@[i as int].1@));
            assert(line@ == failure_line(fv[i as int]));
        }
        lines.push(line);
        proof {
            assert(lines@.map_values(|p: String| p@) =~= before.map_values(|p: String| p@).push(failure_line(fv[i as int])));
            assert(failure_lines(fv.take(i + 1)) =~= failure_lines(fv.take(i as int)).push(failure_line(fv[i as int])));
        }
    }
    assert(fv.take(fv.len() as int) =~= fv);
    let body = join_strings(&lines, "\n");
    push_str(&mut s, body.as_str());
    s
}

/// The status after selecting old files when some were found: the template with the count,
/// the total size, the days and the scope put in place of its first four `{}` in turn.
pub open spec fn old_found_text(t: Seq<char>, count: nat, size: nat, days: nat, scope: Seq<char>) -> Seq<char> {
    replace_first(
        replace_first(replace_first(replace_first(t, "{}"@, decimal(count)), "{}"@, size_text(size)), "{}"@, decimal(days)),
        "{}"@,
        scope,
    )
}

/// The status after selecting old files when none were found: the template with the days
/// and the scope put in place of its first two `{}`.
pub open spec fn old_not_found_text(t: Seq<char>, days: nat, scope: Seq<char>) -> Seq<char> {
    replace_first(replace_first(t, "{}"@, decimal(days)), "{}"@, scope)
}

/// The label of a scope in the given language.
pub open spec fn scope_label(scope: OldFileScope, lang: Lang) -> Seq<char> {
    match scope {
        OldFileScope::CurrentOnly => lang.period_scope_current@,
        OldFileScope::Recursive => lang.period_scope_recursive@,
    }
}

/// The status line `<label> <count> file (<size>)`.
pub fn status_line(label: &str, count: usize, size: u64) -> (r: String)
    ensures
        r@ == label@ + seq![' '] + decimal(count as nat) + " file ("@ + size_text(size as nat) + seq![')'],
{
    let mut s = String::new();
    push_str(&mut s, label);
    push_char(&mut s, ' ');
    push_decimal(&mut s, count as u64);
    push_str(&mut s, " file (");
    let sz = format_size(size);
    push_str(&mut s, sz.as_str());
    push_char(&mut s, ')');
    s
}

/// The line under the spinner while scanning: `Đã quét <count> mục...`.
pub fn scanned_items_text(count: usize) -> (r: String)
    ensures
        r@ == "Đã quét "@ + decimal(count as nat) + " mục..."@,
{
    let mut s = String::new();
    push_str(&mut s, "Đã quét ");
    push_decimal(&mut s, count as u64);
    push_str(&mut s, " mục...");
    s
}

/// Paths longer than this many characters are shortened under the spinner.
pub const PATH_SHOWN_MAX: usize = 60;

/// Characters of a long path kept after the leading `...`.
pub const PATH_TAIL_KEPT: usize = 57;

/// A path as shown under the spinner: a path of more than `PATH_SHOWN_MAX` characters
/// becomes `...` and its last `PATH_TAIL_KEPT` characters.
pub open spec fn shortened_path(p: Seq<char>) -> Seq<char> {
    if p.len() > PATH_SHOWN_MAX {
        "..."@ + p.skip(p.len() - PATH_TAIL_KEPT)
    } else {
        p
    }
}

/// Shortens the path being scanned for display (see `shortened_path`), cutting between
/// characters.
pub fn shorten_path(path: &str) -> (r: String)
    ensures
        r@ == shortened_path(path@),
{
    let cs = chars_of(path);
    let n = cs.len();
    if n > PATH_SHOWN_MAX {
        let mut out = String::new();
        push_str(&mut out, "...");
        let start = n - PATH_TAIL_KEPT;
        let ghost head = out@;
        for k in start..n
            invariant
                start == n - PATH_TAIL_KEPT,
                n == cs@.len(),
                cs@ == path@,
                out@ == head + cs@.subrange(start as int, k as int),
        {
            push_char(&mut out, cs[k]);
            assert(cs@.subrange(start as int, k + 1) =~= cs@.subrange(start as int, k as int).push(cs@[k as int]));
        }
        assert(cs@.subrange(start as int, n as int) =~= path@.skip(n - PATH_TAIL_KEPT));
        out
    } else {
        owned(path)
    }
}

/// The files a sort by kind moves: the selected files of the top level when some entry is
/// selected, otherwise all the files of the top level.
pub open spec fn sort_candidates(s: Seq<EntryView>) -> Seq<EntryView> {
    if forest_measure(s, Measure::SelectedCount) > 0 {
        s.filter(|v: EntryView| !v.is_dir && v.selected)
    } else {
        s.filter(|v: EntryView| !v.is_dir)
    }
}

/// Copies of the top-level entries a sort by kind moves (see `sort_candidates`).
fn sort_candidates_of(entries: &Vec<FileEntry>, has_selection: bool) -> (r: Vec<FileEntry>)
    ensures
        forest_view(r@) == (if has_selection {
            forest_view(entries@).filter(|v: EntryView| !v.is_dir && v.selected)
        } else {
            forest_view(entries@).filter(|v: EntryView| !v.is_dir)
        }),
{
    let ghost ev = forest_view(entries@);
    let ghost pred = if has_selection {
        |v: EntryView| !v.is_dir && v.selected
    } else {
        |v: EntryView| !v.is_dir
    };
    proof {
        lemma_forest_view(entries@);
    }
    let mut out: Vec<FileEntry> = Vec::new();
    for i in 0..entries.len()
        invariant
            ev == forest_view(entries@),
            ev.len() == entries@.len(),
            forall|j: int| 0 <= j < entries@.len() ==> #[trigger] ev[j] == entries@[j]@,
            pred == (if has_selection {
                |v: EntryView| !v.is_dir && v.selected
            } else {
                |v: EntryView| !v.is_dir
            }),
            forest_view(out@) == ev.take(i as int).filter(pred),
    {
        let e = &entries[i];
        let keep = !e.is_dir && (!has_selection || e.selected);
        proof {
            assert(ev.take(i + 1) =~= ev.take(i as int).push(ev[i as int]));
            ev.take(i as int).lemma_filter_push(ev[i as int], pred);
            assert(keep == pred(ev[i as int]));
        }
        if keep {
            let ghost before = out@;
            let c = e.duplicate();
            out.push(c);
            proof {
                lemma_forest_view_append(before, seq![c]);
                assert(out@ =~= before + seq![c]);
                lemma_forest_view(seq![c]);
                assert(forest_view(seq![c]) =~= seq![c@]);
            }
        }
    }
    assert(ev.take(ev.len() as int) =~= ev);
    out
}

impl CleanupState {
    /// Acts on what the user asked for in the toolbar (see `ToolbarAction`): rescanning is
    /// left to the application; sorting asks for confirmation; selecting old files selects
    /// them, in the current folder or the whole tree, and reports what was found; deleting
    /// asks for confirmation when something is selected; deselecting unselects everything.
    pub fn handle_toolbar_action(&mut self, action: ToolbarAction, exclude_list: &[String], lang: &Lang) -> (r: CleanupCommand)
        requires
            entries_fit(forest_view(old(self).entries@)),
            action matches ToolbarAction::SelectOld { days, .. } ==> days * SECS_PER_DAY <= u64::MAX,
        ensures
            same_settings(*final(self), *old(self)),
            r is Rescan <==> action is Rescan,
            !(action is Rescan) ==> r is NoCommand,
            !(action is SelectOld || action is DeselectAll) ==> forest_view(final(self).entries@) == forest_view(old(self).entries@)
                && final(self).status_message == old(self).status_message,
            !(action is Sort || action is Delete) ==> final(self).dialog_state == old(self).dialog_state,
            action is Sort ==> final(self).dialog_state is ConfirmSort,
            action is Delete ==> ({
                let ov = forest_view(old(self).entries@);
                let count = forest_measure(ov, Measure::SelectedCount);
                let size = forest_measure(ov, Measure::SelectedSize);
                if count > 0 {
                    final(self).dialog_state == DialogState::ConfirmDelete { file_count: count as usize, total_size: size as u64 }
                } else {
                    final(self).dialog_state == old(self).dialog_state
                }
            }),
            action is DeselectAll ==> forest_view(final(self).entries@) == deselect_forest(forest_view(old(self).entries@))
                && (final(self).status_message matches Some(m) && m@ == lang.msg_deselected_all@),
            action matches ToolbarAction::SelectOld { days, scope } ==> old_files_selected(
                forest_view(old(self).entries@),
                forest_view(final(self).entries@),
                final(self).status_message,
                days,
                scope,
                patterns_view(exclude_list@),
                *lang,
            ),
    {
        match action {
            ToolbarAction::NoAction => CleanupCommand::NoCommand,
            ToolbarAction::Rescan => CleanupCommand::Rescan,
            ToolbarAction::Sort => {
                self.dialog_state = DialogState::ConfirmSort;
                CleanupCommand::NoCommand
            },
            ToolbarAction::SelectOld { days, scope } => {
                self.select_old(days, scope, exclude_list, lang);
                CleanupCommand::NoCommand
            },
            ToolbarAction::Delete => {
                proof {
                    lemma_selected_within_forest(forest_view(self.entries@));
                }
                let count = count_selected_in_entries(&self.entries);
                let size = selected_size_in_entries(&self.entries);
                if count > 0 {
                    self.dialog_state = DialogState::ConfirmDelete { file_count: count, total_size: size };
                }
                CleanupCommand::NoCommand
            },
            ToolbarAction::DeselectAll => {
                deselect_all(&mut self.entries);
                self.status_message = Some(owned(lang.msg_deselected_all));
                CleanupCommand::NoCommand
            },
        }
    }

    /// Acts on how the user closed a dialog. A confirmed deletion shows the progress dialog
    /// and hands the plan (see `plan_deletion`) to the application; a confirmed sort hands
    /// it the files to move (see `sort_candidates`) and the moves (see `is_sort_plan`);
    /// any other closing closes the dialog.
    pub fn handle_dialog_result(&mut self, result: DialogResult, scan_path: &Vec<String>, lang: &Lang) -> (r: CleanupCommand)
        requires
            entries_fit(forest_view(old(self).entries@)),
        ensures
            forest_view(final(self).entries@) == forest_view(old(self).entries@),
            final(self).status_message == old(self).status_message,
            same_scan_settings(*final(self), *old(self)),
            ({
                let ov = forest_view(old(self).entries@);
                match result {
                    DialogResult::NoResult => {
                        &&& r is NoCommand
                        &&& final(self).dialog_state == old(self).dialog_state
                        &&& final(self).awaiting_delete == old(self).awaiting_delete
                    },
                    DialogResult::Confirmed => match old(self).dialog_state {
                        DialogState::ConfirmDelete { .. } => {
                            &&& r matches CleanupCommand::Delete { plan }
                                && plan.batches@.map_values(|b: crate::cleaner::DeleteBatch| batch_view(b)) == deletion_steps(ov)
                                && plan.total_files == count_sum(selected_items(ov))
                            &&& final(self).dialog_state matches DialogState::Processing { title, message, current, total }
                                && title@ == lang.msg_deleting_title@ && message@ == lang.msg_deleting_starting@
                                && current == 0 && total == forest_measure(ov, Measure::SelectedCount)
                            &&& final(self).awaiting_delete
                        },
                        DialogState::ConfirmSort => {
                            &&& r matches CleanupCommand::SortFiles { files, moves }
                                && forest_view(files@) == sort_candidates(ov)
                                && is_sort_plan(sort_candidates(ov), path_view(scan_path@), moves@)
                            &&& final(self).dialog_state == old(self).dialog_state
                            &&& final(self).awaiting_delete == old(self).awaiting_delete
                        },
                        _ => {
                            &&& r is NoCommand
                            &&& final(self).dialog_state is NoDialog
                            &&& final(self).awaiting_delete == old(self).awaiting_delete
                        },
                    },
                    _ => {
                        &&& r is NoCommand
                        &&& final(self).dialog_state is NoDialog
                        &&& final(self).awaiting_delete == old(self).awaiting_delete
                    },
                }
            }),
    {
        proof {
            lemma_selected_within_forest(forest_view(self.entries@));
            crate::cleaner::lemma_selected_items_count(forest_view(self.entries@));
        }
        match result {
            DialogResult::NoResult => CleanupCommand::NoCommand,
            DialogResult::Confirmed => {
                let confirmed_delete = match &self.dialog_state {
                    DialogState::ConfirmDelete { .. } => true,
                    _ => false,
                };
                let confirmed_sort = match &self.dialog_state {
                    DialogState::ConfirmSort => true,
                    _ => false,
                };
                if confirmed_delete {
                    let total = count_selected_in_entries(&self.entries);
                    let plan = plan_deletion(&self.entries);
                    self.dialog_state = DialogState::Processing {
                        title: owned(lang.msg_deleting_title),
                        message: owned(lang.msg_deleting_starting),
                        current: 0,
                        total,
                    };
                    self.awaiting_delete = true;
                    CleanupCommand::Delete { plan }
                } else if confirmed_sort {
                    let has_selection = count_selected_in_entries(&self.entries) > 0;
                    let files = sort_candidates_of(&self.entries, has_selection);
                    let moves = plan_sort(&files, scan_path);
                    CleanupCommand::SortFiles { files, moves }
                } else {
                    self.dialog_state = DialogState::NoDialog;
                    CleanupCommand::NoCommand
                }
            },
            _ => {
                self.dialog_state = DialogState::NoDialog;
                CleanupCommand::NoCommand
            },
        }
    }

    /// The files were moved (see `SortFiles`): the outcome is shown, and the folder is to be
    /// scanned again.
    pub fn finish_sort(&mut self, result: &SortResult, lang: &Lang) -> (r: CleanupCommand)
        ensures
            r is Rescan,
            final(self).dialog_state matches DialogState::ResultMessage { title, message, is_error }
                && title@ == trim_start_of(lang.dialog_confirm_sort_title@, '📂', ' ')
                && message@ == outcome_text(lang.dialog_btn_sort@, result.moved as nat, failures_view(result.failed@))
                && is_error == (result.failed@.len() > 0),
            forest_view(final(self).entries@) == forest_view(old(self).entries@),
            final(self).status_message == old(self).status_message,
            same_settings(*final(self), *old(self)),
    {
        let message = outcome_message(lang.dialog_btn_sort, result.moved, &result.failed);
        let title = trim_start_chars(lang.dialog_confirm_sort_title, '📂', ' ');
        self.dialog_state = DialogState::ResultMessage { title, message, is_error: result.failed.len() > 0 };
        CleanupCommand::Rescan
    }

    /// The deletion reports progress: the progress dialog, if shown, says so.
    pub fn on_delete_progress(&mut self, current: usize, total: usize, file_name: &str, lang: &Lang)
        ensures
            match old(self).dialog_state {
                DialogState::Processing { title, .. } => final(self).dialog_state matches DialogState::Processing {
                    title: t, message, current: c, total: n }
                    && t == title && c == current && n == total
                    && message@ == lang.msg_processing@ + seq![' '] + file_name@,
                _ => final(self).dialog_state == old(self).dialog_state,
            },
            forest_view(final(self).entries@) == forest_view(old(self).entries@),
            final(self).status_message == old(self).status_message,
            same_settings(*final(self), *old(self)),
    {
        let title = match &self.dialog_state {
            DialogState::Processing { title, .. } => Some(title.clone()),
            _ => None,
        };
        if let Some(t) = title {
            let mut message = String::new();
            push_str(&mut message, lang.msg_processing);
            push_char(&mut message, ' ');
            push_str(&mut message, file_name);
            self.dialog_state = DialogState::Processing { title: t, message, current, total };
        }
    }

    /// The deletion has ended: its outcome is shown. The entries gone from the disk are
    /// dropped afterwards (see `drop_missing`).
    pub fn on_delete_done(&mut self, result: &CleanResult, lang: &Lang)
        ensures
            final(self).dialog_state matches DialogState::ResultMessage { title, message, is_error }
                && title@ == trim_start_of(lang.dialog_confirm_delete_title@, '⚠', ' ')
                && message@ == outcome_text(lang.dup_delete_btn@, result.deleted as nat, failures_view(result.failed@))
                && is_error == (result.failed@.len() > 0),
            !final(self).awaiting_delete,
            forest_view(final(self).entries@) == forest_view(old(self).entries@),
            final(self).status_message == old(self).status_message,
            final(self).awaiting_scan == old(self).awaiting_scan,
            final(self).sort_state == old(self).sort_state,
    {
        let message = outcome_message(lang.dup_delete_btn, result.deleted, &result.failed);
        let title = trim_start_chars(lang.dialog_confirm_delete_title, '⚠', ' ');
        self.dialog_state = DialogState::ResultMessage { title, message, is_error: result.failed.len() > 0 };
        self.awaiting_delete = false;
    }
}

/// What selecting the files older than `days` days in `scope` did: `nv` is `ov` with the old
/// files selected as `select_old_files_shallow` (current folder) or `select_old_files`
/// (whole tree) says, by some reading of the clock, and the status reports the selected
/// files (see `old_found_text`), or that none were found (see `old_not_found_text`).
pub open spec fn old_files_selected(
    ov: Seq<EntryView>,
    nv: Seq<EntryView>,
    status: Option<String>,
    days: u64,
    scope: OldFileScope,
    pats: Seq<Seq<char>>,
    lang: Lang,
) -> bool {
    let count = forest_measure(nv, Measure::SelectedCount);
    let size = forest_measure(nv, Measure::SelectedSize);
    &&& match scope {
        OldFileScope::CurrentOnly => exists|now: u64| shallow_selection(ov, nv, days, pats, now),
        OldFileScope::Recursive => exists|now: u64| nv == select_old_forest(ov, days, pats, now),
    }
    &&& status matches Some(m) && m@ == (if count > 0 {
        old_found_text(lang.msg_old_file_found@, count, size, days as nat, scope_label(scope, lang))
    } else {
        old_not_found_text(lang.msg_old_file_not_found@, days as nat, scope_label(scope, lang))
    })
}

impl CleanupState {
    /// Selects the files older than `days` days in `scope` and reports them (see
    /// `old_files_selected`).
    pub fn select_old(&mut self, days: u64, scope: OldFileScope, exclude_list: &[String], lang: &Lang)
        requires
            entries_fit(forest_view(old(self).entries@)),
            days * SECS_PER_DAY <= u64::MAX,
        ensures
            old_files_selected(
                forest_view(old(self).entries@),
                forest_view(final(self).entries@),
                final(self).status_message,
                days,
                scope,
                patterns_view(exclude_list@),
                *lang,
            ),
            final(self).dialog_state == old(self).dialog_state,
            same_settings(*final(self), *old(self)),
    {
        let ghost ov = forest_view(self.entries@);
        let ghost pats = patterns_view(exclude_list@);
        match scope {
            OldFileScope::CurrentOnly => {
                select_old_files_shallow(&mut self.entries, days, exclude_list);
                proof {
                    let nv = forest_view(self.entries@);
                    let now = choose|now: u64| shallow_selection(ov, nv, days, pats, now);
                    lemma_shallow_selection_measure(ov, nv, days, pats, now, Measure::Entries);
                    lemma_shallow_selection_measure(ov, nv, days, pats, now, Measure::AllSizes);
                }
            },
            OldFileScope::Recursive => {
                select_old_files(&mut self.entries, days, exclude_list);
                proof {
                    let nv = forest_view(self.entries@);
                    let now = choose|now: u64| nv == select_old_forest(ov, days, pats, now);
                    lemma_select_old_forest_measure(ov, days, pats, now, Measure::Entries);
                    lemma_select_old_forest_measure(ov, days, pats, now, Measure::AllSizes);
                }
            },
        }
        proof {
            lemma_selected_within_forest(forest_view(self.entries@));
        }
        let count = count_selected_in_entries(&self.entries);
        let size = selected_size_in_entries(&self.entries);
        let scope_text: &str = match scope {
            OldFileScope::CurrentOnly => lang.period_scope_current,
            OldFileScope::Recursive => lang.period_scope_recursive,
        };
        proof {
            reveal_strlit("{}");
        }
        let days_text = decimal_string(days);
        if count > 0 {
            let count_text = decimal_string(count as u64);
            let size_text_s = format_size(size);
            let a = replace_first_str(lang.msg_old_file_found, "{}", count_text.as_str());
            let b = replace_first_str(a.as_str(), "{}", size_text_s.as_str());
            let c = replace_first_str(b.as_str(), "{}", days_text.as_str());
            let d = replace_first_str(c.as_str(), "{}", scope_text);
            self.status_message = Some(d);
        } else {
            let a = replace_first_str(lang.msg_old_file_not_found, "{}", days_text.as_str());
            let b = replace_first_str(a.as_str(), "{}", scope_text);
            self.status_message = Some(b);
        }
    }
}

/// After dropping the missing entries, none of those left has a missing path, and every
/// entry left was there before.
pub proof fn lemma_prune_forest(s: Seq<EntryView>, missing: Seq<Seq<Seq<char>>>)
    ensures
        forall|i: int| 0 <= i < prune_forest(s, missing).len() ==> !missing.contains(#[trigger] prune_forest(s, missing)[i].path),
        prune_forest(s, missing).len() <= s.len(),
        forall|i: int| 0 <= i < prune_forest(s, missing).len() ==> exists|j: int| 0 <= j < s.len()
            && #[trigger] prune_forest(s, missing)[i] == prune_tree(s[j], missing),
    decreases s.len(),
{
    if s.len() > 0 {
        lemma_prune_forest(s.drop_last(), missing);
        let init = prune_forest(s.drop_last(), missing);
        let r = prune_forest(s, missing);
        assert forall|i: int| 0 <= i < r.len() implies exists|j: int| 0 <= j < s.len()
            && #[trigger] r[i] == prune_tree(s[j], missing) by {
            if i < init.len() {
                assert(r[i] == init[i]);
                let j = choose|j: int| 0 <= j < s.drop_last().len() && init[i] == prune_tree(s.drop_last()[j], missing);
                assert(s[j] == s.drop_last()[j]);
            } else {
                assert(r[i] == prune_tree(s[s.len() - 1], missing));
            }
        }
        assert forall|i: int| 0 <= i < r.len() implies !missing.contains(#[trigger] r[i].path) by {
            if i < init.len() {
                assert(r[i] == init[i]);
            }
        }
    }
}

} // verus!
