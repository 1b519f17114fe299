use folder_cleaner::app_state::FolderCleanerApp;
use folder_cleaner::components::{
    all_top_selected, breadcrumb, count_selected_top_files, delete_button_caption, expand_arrow, get_sort_icon,
    next_sort, row_label, select_old_action, set_all_selected, sort_button_label, ActivePage, OldFilePeriod,
    OldFileScope, ToolbarAction,
};
use folder_cleaner::file_info::{FileEntry, FileEntryParams, SortCriteria, SortDirection, SortState};
use folder_cleaner::lang::Language;
use folder_cleaner::scanner::{descends, is_excluded, scanned_entry, MAX_SCAN_DEPTH};
use folder_cleaner::file_info::FileCategory;
use folder_cleaner::settings::{parse_exclude_input, SettingsState, ThemeSetting};

fn path(parts: &[&str]) -> Vec<String> {
    parts.iter().map(|p| p.to_string()).collect()
}

fn entry(name: &str, is_dir: bool) -> FileEntry {
    FileEntry::new(FileEntryParams {
        name: name.to_string(),
        path: path(&["r", name]),
        is_dir,
        size: 1,
        created: None,
        modified: None,
        accessed: None,
        extension: None,
    })
}

#[test]
fn default_settings() {
    let s = SettingsState::default();
    assert_eq!(s.theme, ThemeSetting::System);
    assert_eq!(s.language, Language::Vietnamese);
    assert_eq!(s.exclude_list, vec![".git", "node_modules", "target", ".idea", ".vscode", ".bak"]);
    assert_eq!(s.exclude_input, ".git\nnode_modules\ntarget\n.idea\n.vscode\n.bak");
}

#[test]
fn settings_file_round_trip() {
    let mut s = SettingsState::default();
    s.theme = ThemeSetting::Dark;
    s.language = Language::English;
    s.exclude_list = vec!["a".to_string(), "*.tmp".to_string()];
    let text = s.to_ini();
    assert_eq!(text, "theme=Dark\nlanguage=English\nexclude_list=a,*.tmp\n");
    let back = SettingsState::parse(&text);
    assert_eq!(back.theme, ThemeSetting::Dark);
    assert_eq!(back.language, Language::English);
    assert_eq!(back.exclude_list, vec!["a", "*.tmp"]);
    assert_eq!(back.exclude_input, "a\n*.tmp");
}

#[test]
fn reading_settings_files() {
    let s = SettingsState::parse(" theme = Light \r\nbogus line\nlanguage=Klingon\nexclude_list=\n");
    assert_eq!(s.theme, ThemeSetting::Light);
    assert_eq!(s.language, Language::Vietnamese);
    assert!(s.exclude_list.is_empty());
    assert_eq!(s.exclude_input, "");
    let t = SettingsState::parse("exclude_list= x , y,,z");
    assert_eq!(t.exclude_list, vec!["x", "y", "", "z"]);
    let u = SettingsState::parse("");
    assert_eq!(u.exclude_list.len(), 6);
    let v = SettingsState::parse("theme=Dark=Light");
    assert_eq!(v.theme, ThemeSetting::System);
}

#[test]
fn theme_and_language_names() {
    assert_eq!(ThemeSetting::from_str("Dark"), ThemeSetting::Dark);
    assert_eq!(ThemeSetting::from_str("dark"), ThemeSetting::System);
    assert_eq!(ThemeSetting::Light.as_str(), "Light");
    assert_eq!(Language::from_str("English"), Language::English);
    assert_eq!(Language::from_str("Vietnamese"), Language::Vietnamese);
    assert_eq!(Language::from_str("French"), Language::Vietnamese);
    assert_eq!(Language::English.as_str(), "English");
    assert_eq!(Language::Vietnamese.display_name(), "Tiếng Việt");
    for t in [ThemeSetting::System, ThemeSetting::Light, ThemeSetting::Dark] {
        assert_eq!(ThemeSetting::from_str(t.as_str()), t);
    }
    for l in [Language::Vietnamese, Language::English] {
        assert_eq!(Language::from_str(l.as_str()), l);
    }
}

#[test]
fn typed_exclusions() {
    assert_eq!(parse_exclude_input("a, b\n\n c ,\nd"), vec!["a", "b", "c", "d"]);
    assert!(parse_exclude_input(" \n , ").is_empty());
}

#[test]
fn strings_per_language() {
    let vi = Language::Vietnamese.strings();
    let en = Language::English.strings();
    assert_eq!(vi.msg_old_file_found, "{} file ({}) | {} ngày | {}");
    assert_eq!(en.msg_old_file_found, "{} files ({}) | {} days | {}");
    assert_eq!(en.period_1y, OldFilePeriod::OneYear.label(&en));
}

#[test]
fn periods() {
    let days: Vec<u64> = OldFilePeriod::all().iter().map(|p| p.days()).collect();
    assert_eq!(days, vec![30, 60, 90, 180, 365]);
    assert_eq!(
        select_old_action(OldFilePeriod::SixMonths, OldFileScope::Recursive),
        ToolbarAction::SelectOld { days: 180, scope: OldFileScope::Recursive }
    );
}

#[test]
fn sort_icons_and_cycle() {
    let asc = Some(SortState { criteria: SortCriteria::Name, direction: SortDirection::Asc });
    assert_eq!(get_sort_icon(SortCriteria::Name, asc), " ⏶");
    assert_eq!(get_sort_icon(SortCriteria::Size, asc), "");
    let desc = next_sort(asc, SortCriteria::Name);
    assert_eq!(desc, Some(SortState { criteria: SortCriteria::Name, direction: SortDirection::Desc }));
    assert_eq!(get_sort_icon(SortCriteria::Name, desc), " ⏷");
    assert_eq!(next_sort(desc, SortCriteria::Name), None);
    assert_eq!(next_sort(desc, SortCriteria::Size), Some(SortState { criteria: SortCriteria::Size, direction: SortDirection::Asc }));
    let mut s = None;
    for _ in 0..3 {
        s = next_sort(s, SortCriteria::Modified);
    }
    assert_eq!(s, None);
}

#[test]
fn toolbar_and_listing_texts() {
    assert_eq!(sort_button_label("Sắp xếp", 0), "Sắp xếp");
    assert_eq!(sort_button_label("Sort", 4), "Sort (4)");
    assert_eq!(delete_button_caption("Delete", 2), "Delete (2)");
    assert_eq!(expand_arrow(true), "⏷");
    assert_eq!(expand_arrow(false), "⏵");
    assert_eq!(row_label("📁", "docs"), "📁 docs");
}

#[test]
fn header_selection() {
    let mut e = vec![entry("a", false), entry("b", true)];
    e[1].children.push(entry("c", false));
    assert!(!all_top_selected(&e));
    assert!(!all_top_selected(&Vec::new()));
    set_all_selected(&mut e, true);
    assert!(all_top_selected(&e));
    assert!(e[1].children[0].selected);
    assert_eq!(count_selected_top_files(&e), 1);
    e[1].apply_row_selection(false);
    assert!(!e[1].selected && !e[1].children[0].selected);
    e[0].apply_row_selection(false);
    assert!(!e[0].selected);
    e[1].toggle_expanded();
    assert!(e[1].expanded);
}

#[test]
fn breadcrumb_segments() {
    let b = breadcrumb(&path(&["C:\\", "Users", "me"]));
    assert_eq!(b.len(), 3);
    assert_eq!(b[0], ("C:\\".to_string(), path(&["C:\\"])));
    assert_eq!(b[2], ("me".to_string(), path(&["C:\\", "Users", "me"])));
    assert!(breadcrumb(&Vec::new()).is_empty());
}

#[test]
fn scanner_rules() {
    assert_eq!(MAX_SCAN_DEPTH, 6);
    assert!(descends(true, 5));
    assert!(!descends(true, 6));
    assert!(!descends(false, 1));
    assert!(is_excluded(&path(&["tmp", "folder_cleaner"]), &path(&["tmp", "folder_cleaner"])));
    assert!(!is_excluded(&path(&["tmp"]), &path(&["tmp", "folder_cleaner"])));
    let d = scanned_entry("d".to_string(), path(&["d"]), true, 4096, None, None, None, Some("x".to_string()));
    assert_eq!(d.size, 0);
    assert_eq!(d.category, FileCategory::Folder);
    let f = scanned_entry("f.png".to_string(), path(&["f.png"]), false, 10, Some(1), Some(2), Some(3), Some("PNG".to_string()));
    assert_eq!(f.size, 10);
    assert_eq!(f.category, FileCategory::Image);
    assert_eq!((f.created, f.modified, f.accessed), (Some(1), Some(2), Some(3)));
}

#[test]
fn application_start() {
    let mut app = FolderCleanerApp::new(path(&["home", "Downloads"]), SettingsState::default());
    assert_eq!(app.active_page, ActivePage::Cleanup);
    assert!(app.cleanup_state.entries.is_empty());
    app.show_page(ActivePage::Settings);
    assert_eq!(app.active_page, ActivePage::Settings);
}
