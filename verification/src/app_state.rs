use vstd::prelude::*;

use crate::cleanup::CleanupState;
use crate::components::ActivePage;
use crate::duplicates::DuplicateFinderState;
use crate::file_info::path_view;
use crate::settings::SettingsState;

verus! {

/// What the application keeps: the page shown, the folder worked on, and each page's state.
#[derive(Debug)]
pub struct FolderCleanerApp {
    pub active_page: ActivePage,
    /// The folder worked on, as path components.
    pub scan_path: Vec<String>,
    pub cleanup_state: CleanupState,
    pub duplicate_finder_state: DuplicateFinderState,
    pub settings_state: SettingsState,
}

impl FolderCleanerApp {
    /// The application as it starts: on the cleanup page, on the folder `scan_path` (the
    /// user's downloads, or the current folder), with the stored settings; the first scan
    /// is started by the caller (see `CleanupCommand::Rescan`).
    pub fn new(scan_path: Vec<String>, settings_state: SettingsState) -> (r: FolderCleanerApp)
        ensures
            r.active_page == ActivePage::Cleanup,
            path_view(r.scan_path@) == path_view(scan_path@),
            r.settings_state == settings_state,
            r.cleanup_state.entries@.len() == 0,
            r.cleanup_state.dialog_state is NoDialog,
            r.cleanup_state.sort_state is None,
            r.duplicate_finder_state.groups@.len() == 0,
            r.duplicate_finder_state.status is Idle,
    {
        FolderCleanerApp {
            active_page: ActivePage::Cleanup,
            scan_path,
            cleanup_state: CleanupState::default(),
            duplicate_finder_state: DuplicateFinderState::default(),
            settings_state,
        }
    }

    /// Changes the page shown.
    pub fn show_page(&mut self, page: ActivePage)
        ensures
            final(self).active_page == page,
            path_view(final(self).scan_path@) == path_view(old(self).scan_path@),
    {
        self.active_page = page;
    }
}

} // verus!
