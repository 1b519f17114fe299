use vstd::prelude::*;

use crate::cache::copy_path;
use crate::file_info::{
    forest_view, lemma_forest_view, path_view, selection_set, EntryView, FileEntry, SortCriteria, SortDirection,
    SortState,
};
use crate::lang::{Lang, Language};
use crate::text::{decimal, owned, push_char, push_decimal, push_str};

verus! {

/// The pages of the application.
#[derive(Debug, Clone, Copy, PartialEq, Eq, Structural)]
pub enum ActivePage {
    Cleanup,
    DuplicateFinder,
    Settings,
}

/// How old a file must be to be selected as old.
#[derive(Debug, Clone, Copy, PartialEq, Eq, Structural)]
pub enum OldFilePeriod {
    OneMonth,
    TwoMonths,
    ThreeMonths,
    SixMonths,
    OneYear,
}

impl OldFilePeriod {
    /// The number of days a period stands for.
    pub open spec fn days_spec(self) -> u64 {
        match self {
            OldFilePeriod::OneMonth => 30,
            OldFilePeriod::TwoMonths => 60,
            OldFilePeriod::ThreeMonths => 90,
            OldFilePeriod::SixMonths => 180,
            OldFilePeriod::OneYear => 365,
        }
    }

    /// The label of the period in the given language.
    pub fn label<'a>(&self, lang: &'a Lang) -> (r: &'a str)
        ensures
            r == match self {
                OldFilePeriod::OneMonth => lang.period_1m,
                OldFilePeriod::TwoMonths => lang.period_2m,
                OldFilePeriod::ThreeMonths => lang.period_3m,
                OldFilePeriod::SixMonths => lang.period_6m,
                OldFilePeriod::OneYear => lang.period_1y,
            },
    {
        match self {
            OldFilePeriod::OneMonth => lang.period_1m,
            OldFilePeriod::TwoMonths => lang.period_2m,
            OldFilePeriod::ThreeMonths => lang.period_3m,
            OldFilePeriod::SixMonths => lang.period_6m,
            OldFilePeriod::OneYear => lang.period_1y,
        }
    }

    /// The number of days of the period (a month counts 30 days, a year 365).
    pub fn days(&self) -> (r: u64)
        ensures
            r == self.days_spec(),
    {
        match self {
            OldFilePeriod::OneMonth => 30,
            OldFilePeriod::TwoMonths => 60,
            OldFilePeriod::ThreeMonths => 90,
            OldFilePeriod::SixMonths => 180,
            OldFilePeriod::OneYear => 365,
        }
    }

    /// Every period, shortest first.
    pub fn all() -> (r: Vec<OldFilePeriod>)
        ensures
            r@ == seq![
                OldFilePeriod::OneMonth,
                OldFilePeriod::TwoMonths,
                OldFilePeriod::ThreeMonths,
                OldFilePeriod::SixMonths,
                OldFilePeriod::OneYear,
            ],
    {
        let mut v: Vec<OldFilePeriod> = Vec::new();
        v.push(OldFilePeriod::OneMonth);
        v.push(OldFilePeriod::TwoMonths);
        v.push(OldFilePeriod::ThreeMonths);
        v.push(OldFilePeriod::SixMonths);
        v.push(OldFilePeriod::OneYear);
        assert(v@ =~= seq![
            OldFilePeriod::OneMonth,
            OldFilePeriod::TwoMonths,
            OldFilePeriod::ThreeMonths,
            OldFilePeriod::SixMonths,
            OldFilePeriod::OneYear,
        ]);
        v
    }
}

/// Where old files are looked for.
#[derive(Debug, Clone, Copy, PartialEq, Eq, Structural)]
pub enum OldFileScope {
    /// The current folder only, not its subfolders.
    CurrentOnly,
    /// The whole tree.
    Recursive,
}

/// What the user asked for in the toolbar.
#[derive(Debug, Clone, Copy, PartialEq, Eq, Structural)]
pub enum ToolbarAction {
    /// Nothing was asked for.
    NoAction,
    Rescan,
    Sort,
    SelectOld { days: u64, scope: OldFileScope },
    Delete,
    DeselectAll,
}

/// What the user asked for in the file listing.
pub enum TreeViewAction {
    /// Order by this column (a click on its header).
    Sort(SortCriteria),
    /// Open this folder (a double click), given by its path components.
    NavigateTo(Vec<String>),
}

/// The dialog shown over a page.
#[derive(Debug, Clone)]
pub enum DialogState {
    /// No dialog is shown.
    NoDialog,
    ConfirmDelete { file_count: usize, total_size: u64 },
    ConfirmSort,
    ResultMessage { title: String, message: String, is_error: bool },
    Processing { title: String, message: String, current: usize, total: usize },
}

impl DialogState {
    /// Whether no dialog is shown.
    pub fn is_none(&self) -> (r: bool)
        ensures
            r == (*self is NoDialog),
    {
        match self {
            DialogState::NoDialog => true,
            _ => false,
        }
    }
}

/// How the user closed a dialog.
#[derive(Debug, Clone, Copy, PartialEq, Eq, Structural)]
pub enum DialogResult {
    /// The dialog is still open.
    NoResult,
    Confirmed,
    Cancelled,
    Closed,
}

/// The arrow shown beside a column header: up when the listing is ordered by that column
/// ascending, down when descending, nothing otherwise.
pub open spec fn sort_icon(criteria: SortCriteria, sort_state: Option<SortState>) -> Seq<char> {
    match sort_state {
        Some(state) => if state.criteria == criteria {
            match state.direction {
                SortDirection::Asc => " ⏶"@,
                SortDirection::Desc => " ⏷"@,
            }
        } else {
            ""@
        },
        None => ""@,
    }
}

/// The arrow shown beside a column header (see `sort_icon`).
pub fn get_sort_icon(criteria: SortCriteria, sort_state: Option<SortState>) -> (r: String)
    ensures
        r@ == sort_icon(criteria, sort_state),
{
    if let Some(state) = sort_state {
        if state.criteria == criteria {
            return match state.direction {
                SortDirection::Asc => owned(" ⏶"),
                SortDirection::Desc => owned(" ⏷"),
            };
        }
    }
    owned("")
}

/// The ordering after a click on a column header: a first click orders by that column
/// ascending, a second descending, a third goes back to no ordering.
pub open spec fn next_sort_state(current: Option<SortState>, criteria: SortCriteria) -> Option<SortState> {
    match current {
        Some(state) => if state.criteria == criteria {
            match state.direction {
                SortDirection::Asc => Some(SortState { criteria, direction: SortDirection::Desc }),
                SortDirection::Desc => None,
            }
        } else {
            Some(SortState { criteria, direction: SortDirection::Asc })
        },
        None => Some(SortState { criteria, direction: SortDirection::Asc }),
    }
}

/// The ordering after a click on a column header (see `next_sort_state`).
pub fn next_sort(current: Option<SortState>, criteria: SortCriteria) -> (r: Option<SortState>)
    ensures
        r == next_sort_state(current, criteria),
{
    match current {
        Some(state) => if state.criteria == criteria {
            match state.direction {
                SortDirection::Asc => Some(SortState { criteria, direction: SortDirection::Desc }),
                SortDirection::Desc => None,
            }
        } else {
            Some(SortState { criteria, direction: SortDirection::Asc })
        },
        None => Some(SortState { criteria, direction: SortDirection::Asc }),
    }
}

/// Three clicks on the same column header bring the ordering back to where it was when
/// the listing was not ordered by that column.
pub proof fn lemma_sort_cycle(current: Option<SortState>, criteria: SortCriteria)
    requires
        current matches Some(s) ==> s.criteria != criteria,
    ensures
        next_sort_state(next_sort_state(next_sort_state(current, criteria), criteria), criteria) is None,
{
}

// ---------------------------------------------------------------------------
// Toolbar

/// The number of top-level files that are selected: those a sort by kind would move.
pub open spec fn selected_top_files(s: Seq<EntryView>) -> nat {
    s.filter(|v: EntryView| !v.is_dir && v.selected).len()
}

/// Counts the selected top-level files (see `selected_top_files`).
pub fn count_selected_top_files(entries: &Vec<FileEntry>) -> (r: usize)
    ensures
        r == selected_top_files(forest_view(entries@)),
{
    let ghost ev = forest_view(entries@);
    proof {
        lemma_forest_view(entries@);
    }
    let mut n: usize = 0;
    for i in 0..entries.len()
        invariant
            ev == forest_view(entries@),
            ev.len() == entries@.len(),
            forall|j: int| 0 <= j < entries@.len() ==> #[trigger] ev[j] == entries@[j]@,
            n == ev.take(i as int).filter(|v: EntryView| !v.is_dir && v.selected).len(),
            n <= i,
    {
        proof {
            assert(ev.take(i + 1) =~= ev.take(i as int).push(ev[i as int]));
            ev.take(i as int).lemma_filter_push(ev[i as int], |v: EntryView| !v.is_dir && v.selected);
        }
        if !entries[i].is_dir && entries[i].selected {
            n = n + 1;
        }
    }
    assert(ev.take(ev.len() as int) =~= ev);
    n
}

/// The caption of the sort button: `<label> (<n>)` when `n` files would be moved, the label
/// alone otherwise.
pub fn sort_button_label(label: &str, n: usize) -> (r: String)
    ensures
        r@ == (if n > 0 { label@ + " ("@ + decimal(n as nat) + seq![')'] } else { label@ }),
{
    let mut s = String::new();
    push_str(&mut s, label);
    if n > 0 {
        push_str(&mut s, " (");
        push_decimal(&mut s, n as u64);
        push_char(&mut s, ')');
    }
    s
}

/// The caption of the delete button: `<label> (<n>)`.
pub fn delete_button_caption(label: &str, n: usize) -> (r: String)
    ensures
        r@ == label@ + " ("@ + decimal(n as nat) + seq![')'],
{
    let mut s = String::new();
    push_str(&mut s, label);
    push_str(&mut s, " (");
    push_decimal(&mut s, n as u64);
    push_char(&mut s, ')');
    s
}

/// The action of the confirm button of the period popup: select the files older than the
/// chosen period, in the chosen scope.
pub fn select_old_action(period: OldFilePeriod, scope: OldFileScope) -> (r: ToolbarAction)
    ensures
        r == (ToolbarAction::SelectOld { days: period.days_spec(), scope }),
{
    ToolbarAction::SelectOld { days: period.days(), scope }
}

// ---------------------------------------------------------------------------
// File listing

/// Whether the header's box is ticked: there are entries and all of them are selected.
pub fn all_top_selected(entries: &Vec<FileEntry>) -> (r: bool)
    ensures
        r == (entries@.len() > 0 && forall|i: int| 0 <= i < entries@.len() ==> #[trigger] entries@[i].selected),
{
    if entries.len() == 0 {
        return false;
    }
    for i in 0..entries.len()
        invariant
            forall|j: int| 0 <= j < i ==> #[trigger] entries@[j].selected,
    {
        if !entries[i].selected {
            return false;
        }
    }
    true
}

/// A click on the header's box: every entry, with everything below it, selected or not.
pub fn set_all_selected(entries: &mut Vec<FileEntry>, selected: bool)
    ensures
        final(entries)@.len() == old(entries)@.len(),
        forall|i: int| 0 <= i < old(entries)@.len() ==> #[trigger] final(entries)@[i]@ == selection_set(old(entries)@[i]@, selected),
{
    let n = entries.len();
    for i in 0..n
        invariant
            n == old(entries)@.len(),
            entries@.len() == n,
            forall|j: int| 0 <= j < i ==> #[trigger] entries@[j]@ == selection_set(old(entries)@[j]@, selected),
            forall|j: int| i <= j < n ==> #[trigger] entries@[j] == old(entries)@[j],
    {
        entries[i].set_selected_recursive(selected);
    }
}

impl FileEntry {
    /// A click on a row's box: a folder takes the new state with everything below it, a
    /// file alone; nothing changes when the state is the same.
    pub fn apply_row_selection(&mut self, selected: bool)
        ensures
            final(self)@ == (if selected == old(self).selected {
                old(self)@
            } else if old(self).is_dir {
                selection_set(old(self)@, selected)
            } else {
                EntryView { selected, ..old(self)@ }
            }),
    {
        if selected != self.selected {
            if self.is_dir {
                self.set_selected_recursive(selected);
            } else {
                self.selected = selected;
            }
        }
    }

    /// A click on a folder's arrow: it opens or closes.
    pub fn toggle_expanded(&mut self)
        ensures
            final(self)@ == (EntryView { expanded: !old(self).expanded, ..old(self)@ }),
    {
        self.expanded = !self.expanded;
    }
}

/// The arrow beside a folder: down when it is open, right when it is closed.
pub fn expand_arrow(expanded: bool) -> (r: &'static str)
    ensures
        r@ == (if expanded { "⏷"@ } else { "⏵"@ }),
{
    if expanded { "⏷" } else { "⏵" }
}

/// The text of a row: the icon of the entry's kind, a space, and its name.
pub fn row_label(icon: &str, name: &str) -> (r: String)
    ensures
        r@ == icon@ + seq![' '] + name@,
{
    let mut s = String::new();
    push_str(&mut s, icon);
    push_char(&mut s, ' ');
    push_str(&mut s, name);
    s
}

/// The breadcrumb of a path: for each component, its text and the path up to it.
pub fn breadcrumb(path: &Vec<String>) -> (r: Vec<(String, Vec<String>)>)
    ensures
        r@.len() == path@.len(),
        forall|i: int| 0 <= i < path@.len() ==> (#[trigger] r@[i]).0@ == path@[i]@
            && path_view(r@[i].1@) == path_view(path@).take(i + 1),
{
    let ghost pv = path_view(path@);
    let mut out: Vec<(String, Vec<String>)> = Vec::new();
    let mut prefix: Vec<String> = Vec::new();
    for i in 0..path.len()
        invariant
            pv == path_view(path@),
            pv.len() == path@.len(),
            out@.len() == i,
            path_view(prefix@) == pv.take(i as int),
            forall|j: int| 0 <= j < i ==> (#[trigger] out@[j]).0@ == path@[j]@
                && path_view(out@[j].1@) == pv.take(j + 1),
    {
        let c = path[i].clone();
        let ghost before = prefix@;
        prefix.push(c);
        proof {
            assert(path_view(prefix@) =~= path_view(before).push(c@));
            assert(pv.take(i + 1) =~= pv.take(i as int).push(pv[i as int]));
        }
        let seg = copy_path(&prefix);
        let label = path[i].clone();
        let ghost old_out = out@;
        out.push((label, seg));
        proof {
            assert(out@[i as int].0@ == path@[i as int]@);
            assert(path_view(out@[i as int].1@) == pv.take(i + 1));
            assert forall|j: int| 0 <= j < i + 1 implies (#[trigger] out@[j]).0@ == path@[j]@
                && path_view(out@[j].1@) == pv.take(j + 1) by {
                if j < i {
                    assert(out@[j] == old_out[j]);
                }
            }
        }
    }
    out
}

impl Language {
    /// The name of the language as the language menu shows it.
    pub fn display_name(&self) -> (r: &'static str)
        ensures
            r@ == (match self {
                Language::Vietnamese => "Tiếng Việt"@,
                Language::English => "English"@,
            }),
    {
        match self {
            Language::Vietnamese => "Tiếng Việt",
            Language::English => "English",
        }
    }
}

} // verus!
