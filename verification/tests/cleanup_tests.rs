use folder_cleaner::cleaner::{batch_label, deletion_done_message, deletion_error_message, deletion_step_message, CleanResult};
use folder_cleaner::cleanup::{
    all_paths, outcome_message, remove_deleted_entries, scanned_items_text, shorten_path, status_line, CleanupCommand, CleanupState,
};
use folder_cleaner::components::{DialogResult, DialogState, OldFileScope, ToolbarAction};
use folder_cleaner::file_info::{FileEntry, FileEntryParams, SortCriteria, SortDirection, SortState};
use folder_cleaner::lang::Language;
use folder_cleaner::sorter::SortResult;

fn path(parts: &[&str]) -> Vec<String> {
    parts.iter().map(|p| p.to_string()).collect()
}

fn file(parts: &[&str], size: u64) -> FileEntry {
    let name = parts[parts.len() - 1].to_string();
    let ext = name.rsplit_once('.').map(|(_, e)| e.to_string());
    FileEntry::new(FileEntryParams {
        name,
        path: path(parts),
        is_dir: false,
        size,
        created: None,
        modified: Some(0),
        accessed: None,
        extension: ext,
    })
}

fn dir(parts: &[&str], children: Vec<FileEntry>) -> FileEntry {
    let mut d = FileEntry::new(FileEntryParams {
        name: parts[parts.len() - 1].to_string(),
        path: path(parts),
        is_dir: true,
        size: 0,
        created: None,
        modified: None,
        accessed: None,
        extension: None,
    });
    d.children = children;
    d
}

fn listing() -> Vec<FileEntry> {
    vec![
        file(&["r", "b.txt"], 10),
        dir(&["r", "d"], vec![file(&["r", "d", "x.png"], 5), file(&["r", "d", "y.png"], 7)]),
        file(&["r", "a.txt"], 20),
    ]
}

#[test]
fn rescan_with_and_without_cache() {
    let mut st = CleanupState::default();
    st.rescan("/home/dl", None);
    assert!(st.is_scanning && !st.is_silent_scanning && st.awaiting_scan);
    assert_eq!(st.scan_progress, Some((0, "/home/dl".to_string())));
    assert_eq!(st.current_scan_path, "/home/dl");
    st.rescan("/home/dl", Some(listing()));
    assert!(!st.is_scanning && st.is_silent_scanning);
    assert_eq!(st.entries.len(), 3);
    assert!(st.should_scroll_to_top);
}

#[test]
fn scan_done_replaces_changed_listing() {
    let lang = Language::English.strings();
    let mut st = CleanupState::default();
    st.rescan("p", Some(listing()));
    let mut same = listing();
    st.prepare_scan_result(&mut same);
    st.on_scan_done(same, &lang);
    assert!(st.status_message.is_none(), "an unchanged fingerprint keeps the cached listing");
    assert!(!st.awaiting_scan && !st.is_silent_scanning);
    assert_eq!(st.entries[0].name, "b.txt", "the cached listing is kept as it was");

    st.rescan("p", None);
    let mut fresh = listing();
    fresh.push(file(&["r", "c.txt"], 1));
    st.prepare_scan_result(&mut fresh);
    st.on_scan_done(fresh, &lang);
    assert_eq!(st.status_message.as_deref(), Some(lang.msg_rescanned));
    let names: Vec<&str> = st.entries.iter().map(|e| e.name.as_str()).collect();
    assert_eq!(names, vec!["d", "a.txt", "b.txt", "c.txt"]);
    assert!(st.scan_progress.is_none());
}

#[test]
fn scan_error_message() {
    let mut st = CleanupState::default();
    st.rescan("p", None);
    st.on_scan_progress(42, "p/q".to_string());
    assert_eq!(st.scan_progress, Some((42, "p/q".to_string())));
    st.on_scan_error("boom");
    assert_eq!(st.status_message.as_deref(), Some("Lỗi scan: boom"));
    assert!(!st.is_scanning && !st.awaiting_scan);
}

#[test]
fn toggling_sort_columns() {
    let mut st = CleanupState::default();
    st.entries = listing();
    st.toggle_sort(SortCriteria::Size);
    assert_eq!(st.sort_state, Some(SortState { criteria: SortCriteria::Size, direction: SortDirection::Asc }));
    let names: Vec<&str> = st.entries.iter().map(|e| e.name.as_str()).collect();
    assert_eq!(names, vec!["d", "b.txt", "a.txt"]);
    st.toggle_sort(SortCriteria::Size);
    let names: Vec<&str> = st.entries.iter().map(|e| e.name.as_str()).collect();
    assert_eq!(names, vec!["d", "a.txt", "b.txt"]);
    assert_eq!(st.entries[0].children[0].name, "y.png");
    st.toggle_sort(SortCriteria::Size);
    assert_eq!(st.sort_state, None);
    let names: Vec<&str> = st.entries.iter().map(|e| e.name.as_str()).collect();
    assert_eq!(names, vec!["d", "a.txt", "b.txt"]);
    assert_eq!(st.entries[0].children[0].name, "x.png");
}

#[test]
fn toolbar_actions() {
    let lang = Language::English.strings();
    let mut st = CleanupState::default();
    st.entries = listing();
    assert!(matches!(st.handle_toolbar_action(ToolbarAction::Rescan, &[], &lang), CleanupCommand::Rescan));
    assert!(matches!(st.handle_toolbar_action(ToolbarAction::NoAction, &[], &lang), CleanupCommand::NoCommand));
    st.handle_toolbar_action(ToolbarAction::Delete, &[], &lang);
    assert!(st.dialog_state.is_none(), "nothing selected, nothing to confirm");
    st.handle_toolbar_action(ToolbarAction::SelectOld { days: 30, scope: OldFileScope::Recursive }, &[], &lang);
    assert_eq!(st.status_message.as_deref(), Some("4 files (42 B) | 30 days | 📂 Include subfolders"));
    st.handle_toolbar_action(ToolbarAction::Delete, &[], &lang);
    match &st.dialog_state {
        DialogState::ConfirmDelete { file_count, total_size } => {
            assert_eq!((*file_count, *total_size), (4, 42));
        }
        other => panic!("unexpected dialog {:?}", other),
    }
    st.handle_toolbar_action(ToolbarAction::DeselectAll, &[], &lang);
    assert_eq!(st.status_message.as_deref(), Some(lang.msg_deselected_all));
    st.handle_toolbar_action(
        ToolbarAction::SelectOld { days: 30, scope: OldFileScope::CurrentOnly },
        &["b.txt".to_string()],
        &lang,
    );
    assert_eq!(st.status_message.as_deref(), Some("1 files (20 B) | 30 days | 📄 Current folder only"));
    st.handle_toolbar_action(ToolbarAction::Sort, &[], &lang);
    assert!(matches!(st.dialog_state, DialogState::ConfirmSort));
}

#[test]
fn nothing_old_found() {
    let lang = Language::Vietnamese.strings();
    let mut st = CleanupState::default();
    st.entries = vec![FileEntry::new(FileEntryParams {
        name: "n.txt".to_string(),
        path: path(&["n.txt"]),
        is_dir: false,
        size: 1,
        created: None,
        modified: Some(i64::MAX),
        accessed: None,
        extension: None,
    })];
    st.handle_toolbar_action(ToolbarAction::SelectOld { days: 7, scope: OldFileScope::CurrentOnly }, &[], &lang);
    assert_eq!(st.status_message.as_deref(), Some("Không tìm thấy file nào cũ hơn 7 ngày (📄 Chỉ thư mục hiện tại)"));
}

#[test]
fn confirming_a_deletion() {
    let lang = Language::English.strings();
    let mut st = CleanupState::default();
    st.entries = listing();
    st.entries[1].set_selected_recursive(true);
    st.dialog_state = DialogState::ConfirmDelete { file_count: 2, total_size: 12 };
    let cmd = st.handle_dialog_result(DialogResult::Confirmed, &path(&["r"]), &lang);
    match cmd {
        CleanupCommand::Delete { plan } => {
            assert_eq!(plan.total_files, 2);
            assert_eq!(plan.batches.len(), 1);
            assert_eq!(plan.batches[0].paths, vec![path(&["r", "d"])]);
        }
        other => panic!("unexpected command {:?}", other),
    }
    assert!(st.awaiting_delete);
    match &st.dialog_state {
        DialogState::Processing { title, message, current, total } => {
            assert_eq!(title, lang.msg_deleting_title);
            assert_eq!(message, lang.msg_deleting_starting);
            assert_eq!((*current, *total), (0, 2));
        }
        other => panic!("unexpected dialog {:?}", other),
    }
    st.on_delete_progress(1, 2, "d", &lang);
    match &st.dialog_state {
        DialogState::Processing { message, current, .. } => {
            assert_eq!(message, "Processing: d");
            assert_eq!(*current, 1);
        }
        other => panic!("unexpected dialog {:?}", other),
    }
    let result = CleanResult { deleted: 2, failed: Vec::new() };
    st.on_delete_done(&result, &lang);
    assert!(!st.awaiting_delete);
    match &st.dialog_state {
        DialogState::ResultMessage { title, message, is_error } => {
            assert_eq!(title, "Confirm delete");
            assert_eq!(message, "🗑 Delete 2 file!");
            assert!(!is_error);
        }
        other => panic!("unexpected dialog {:?}", other),
    }
    st.drop_missing(&vec![path(&["r", "d"])]);
    let names: Vec<&str> = st.entries.iter().map(|e| e.name.as_str()).collect();
    assert_eq!(names, vec!["b.txt", "a.txt"]);
    st.handle_dialog_result(DialogResult::Closed, &path(&["r"]), &lang);
    assert!(st.dialog_state.is_none());
}

#[test]
fn confirming_a_sort() {
    let lang = Language::English.strings();
    let mut st = CleanupState::default();
    st.entries = listing();
    st.dialog_state = DialogState::ConfirmSort;
    match st.handle_dialog_result(DialogResult::Confirmed, &path(&["r"]), &lang) {
        CleanupCommand::SortFiles { files, moves } => {
            let names: Vec<&str> = files.iter().map(|e| e.name.as_str()).collect();
            assert_eq!(names, vec!["b.txt", "a.txt"]);
            assert_eq!(moves.len(), 2);
            assert_eq!(moves[0].folder, "Documents");
            assert_eq!(moves[0].target_dir, path(&["r", "Documents"]));
        }
        other => panic!("unexpected command {:?}", other),
    }
    st.entries[2].selected = true;
    match st.handle_dialog_result(DialogResult::Confirmed, &path(&["r"]), &lang) {
        CleanupCommand::SortFiles { files, .. } => {
            assert_eq!(files.len(), 1);
            assert_eq!(files[0].name, "a.txt");
        }
        other => panic!("unexpected command {:?}", other),
    }
    let mut r = SortResult::new();
    r.record_moved();
    r.record_failure("b.txt".to_string(), "busy".to_string());
    assert!(matches!(st.finish_sort(&r, &lang), CleanupCommand::Rescan));
    match &st.dialog_state {
        DialogState::ResultMessage { title, message, is_error } => {
            assert_eq!(title, "Confirm sort");
            assert_eq!(message, "📂 Sort 1 file. 1 file:\n  • b.txt: busy");
            assert!(*is_error);
        }
        other => panic!("unexpected dialog {:?}", other),
    }
}

#[test]
fn dropping_entries_gone_from_disk() {
    let mut e = listing();
    let all = all_paths(&e);
    assert_eq!(
        all,
        vec![path(&["r", "b.txt"]), path(&["r", "d"]), path(&["r", "d", "x.png"]), path(&["r", "d", "y.png"]), path(&["r", "a.txt"])]
    );
    remove_deleted_entries(&mut e, &vec![path(&["r", "d", "x.png"]), path(&["r", "a.txt"])]);
    let names: Vec<&str> = e.iter().map(|x| x.name.as_str()).collect();
    assert_eq!(names, vec!["b.txt", "d"]);
    assert_eq!(e[1].children.len(), 1);
    assert_eq!(e[1].children[0].name, "y.png");
}

#[test]
fn outcome_texts() {
    assert_eq!(outcome_message("Xóa", 5, &Vec::new()), "Xóa 5 file!");
    let failed = vec![("a".to_string(), "r1".to_string()), ("b".to_string(), "r2".to_string())];
    assert_eq!(outcome_message("Del", 1, &failed), "Del 1 file. 2 file:\n  • a: r1\n  • b: r2");
    assert_eq!(status_line("Selected:", 3, 1536), "Selected: 3 file (1.5 KB)");
    assert_eq!(scanned_items_text(12), "Đã quét 12 mục...");
}

#[test]
fn deletion_texts() {
    assert_eq!(deletion_step_message("a.txt"), "Đang xóa nhóm chứa: a.txt");
    assert_eq!(deletion_done_message(), "Hoàn tất!");
    assert_eq!(batch_label(0), "Nhóm số 1");
    assert_eq!(deletion_error_message("x"), "Lỗi xóa hàng loạt: x");
    let mut r = CleanResult::new();
    r.record_deleted(3);
    r.record_failure("Nhóm số 2".to_string(), "e".to_string());
    assert_eq!(r.deleted, 3);
    assert_eq!(r.failed.len(), 1);
}

#[test]
fn long_scan_paths_are_shortened_between_characters() {
    assert_eq!(shorten_path("/home/a"), "/home/a");
    let exact: String = "x".repeat(60);
    assert_eq!(shorten_path(&exact), exact);
    let long: String = format!("/{}", "y".repeat(70));
    assert_eq!(shorten_path(&long), format!("...{}", "y".repeat(57)));
    let accented: String = "ổ".repeat(61);
    let shown = shorten_path(&accented);
    assert_eq!(shown.chars().count(), 60);
    assert!(shown.starts_with("..."));
    assert!(shown.ends_with("ổ"));
}
