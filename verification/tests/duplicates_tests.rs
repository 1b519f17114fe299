use folder_cleaner::cleaner::CleanResult;
use folder_cleaner::duplicates::{
    content_hash, delete_button_label, deletion_message, deselect_all_duplicates, found_groups_label, group_title,
    hashing_progress, hashing_started, quick_select, remove_deleted_duplicates, scan_duplicates_task, scan_progress,
    selection_summary, short_hash, size_candidates, DuplicateFile, DuplicateFinderState, DuplicateGroup, FoundFile,
    ScanStatus,
};
use sha2::{Digest, Sha256};

fn found(name: &str, size: u64) -> FoundFile {
    FoundFile { path: vec!["r".to_string(), name.to_string()], size, name: name.to_string() }
}

fn dup(name: &str, size: u64, selected: bool) -> DuplicateFile {
    DuplicateFile { path: vec!["r".to_string(), name.to_string()], name: name.to_string(), size, selected }
}

#[test]
fn candidates_share_a_size() {
    let files = vec![found("a", 10), found("b", 20), found("c", 10), found("d", 30), found("e", 20), found("f", 10)];
    let c = size_candidates(&files);
    let names: Vec<&str> = c.iter().map(|f| f.name.as_str()).collect();
    assert_eq!(names, vec!["a", "b", "c", "e", "f"]);
    assert!(size_candidates(&vec![found("x", 1)]).is_empty());
}

#[test]
fn content_digest_is_sha256_hex() {
    let data = b"hello world";
    let expected = hex::encode(Sha256::digest(data));
    assert_eq!(content_hash(data), expected);
    assert_eq!(content_hash(b""), "e3b0c44298fc1c149afbf4c8996fb92427ae41e4649b934ca495991b7852b855");
}

#[test]
fn groups_by_digest() {
    let items = vec![
        (found("a", 10), Some("h1".to_string())),
        (found("b", 50), Some("h2".to_string())),
        (found("c", 10), Some("h1".to_string())),
        (found("d", 50), Some("h2".to_string())),
        (found("e", 50), None),
        (found("f", 7), Some("h3".to_string())),
        (found("g", 50), Some("h2".to_string())),
    ];
    let groups = scan_duplicates_task(&items);
    assert_eq!(groups.len(), 2);
    assert_eq!(groups[0].hash, "h2");
    assert_eq!(groups[0].size, 50);
    let names: Vec<&str> = groups[0].files.iter().map(|f| f.name.as_str()).collect();
    assert_eq!(names, vec!["b", "d", "g"]);
    assert_eq!(groups[1].hash, "h1");
    assert_eq!(groups[1].files.len(), 2);
    assert!(groups.iter().all(|g| g.files.iter().all(|f| !f.selected)));
}

#[test]
fn equal_sizes_keep_first_digest_first() {
    let items = vec![
        (found("a", 5), Some("x".to_string())),
        (found("b", 5), Some("y".to_string())),
        (found("c", 5), Some("y".to_string())),
        (found("d", 5), Some("x".to_string())),
    ];
    let groups = scan_duplicates_task(&items);
    let hashes: Vec<&str> = groups.iter().map(|g| g.hash.as_str()).collect();
    assert_eq!(hashes, vec!["x", "y"]);
}

#[test]
fn quick_selection_keeps_shortest_name() {
    let mut groups = vec![DuplicateGroup {
        hash: "h".to_string(),
        size: 3,
        files: vec![dup("copy of a.txt", 3, false), dup("a.txt", 3, false), dup("b.txt", 3, true), dup("aa.txt", 3, false)],
    }];
    quick_select(&mut groups);
    let names: Vec<&str> = groups[0].files.iter().map(|f| f.name.as_str()).collect();
    assert_eq!(names, vec!["a.txt", "b.txt", "aa.txt", "copy of a.txt"]);
    let sel: Vec<bool> = groups[0].files.iter().map(|f| f.selected).collect();
    assert_eq!(sel, vec![false, true, true, true]);
}

#[test]
fn quick_selection_counts_bytes() {
    let mut groups = vec![DuplicateGroup {
        hash: "h".to_string(),
        size: 1,
        files: vec![dup("éé", 1, false), dup("abc", 1, false)],
    }];
    quick_select(&mut groups);
    // "éé" is four bytes long, "abc" three
    assert_eq!(groups[0].files[0].name, "abc");
}

#[test]
fn totals_and_removal() {
    let mut groups = vec![
        DuplicateGroup { hash: "h1".to_string(), size: 10, files: vec![dup("a", 10, false), dup("b", 10, true)] },
        DuplicateGroup {
            hash: "h2".to_string(),
            size: 4,
            files: vec![dup("c", 4, true), dup("d", 4, false), dup("e", 4, false)],
        },
    ];
    let (count, size, paths) = selection_summary(&groups);
    assert_eq!(count, 2);
    assert_eq!(size, 14);
    assert_eq!(paths, vec![vec!["r".to_string(), "b".to_string()], vec!["r".to_string(), "c".to_string()]]);
    remove_deleted_duplicates(&mut groups);
    assert_eq!(groups.len(), 1);
    assert_eq!(groups[0].hash, "h2");
    let names: Vec<&str> = groups[0].files.iter().map(|f| f.name.as_str()).collect();
    assert_eq!(names, vec!["d", "e"]);
}

#[test]
fn deselecting_duplicates() {
    let mut groups = vec![DuplicateGroup { hash: "h".to_string(), size: 1, files: vec![dup("a", 1, true), dup("b", 1, true)] }];
    deselect_all_duplicates(&mut groups);
    assert!(groups[0].files.iter().all(|f| !f.selected));
}

#[test]
fn progress_reports() {
    assert_eq!(
        scan_progress("Tìm thấy", 500),
        Some(ScanStatus::Scanning { message: "Tìm thấy 500 file...".to_string(), current: 500, total: 0 })
    );
    assert_eq!(scan_progress("x", 0).is_some(), true);
    assert_eq!(scan_progress("x", 499), None);
    assert_eq!(
        hashing_progress("Reading", 20, 31, 5),
        Some(ScanStatus::Hashing { message: "Reading (20/31)".to_string(), current: 20, total: 31 })
    );
    assert_eq!(hashing_progress("Reading", 21, 31, 5), None);
    assert!(hashing_progress("Reading", 21, 31, 11 * 1024 * 1024).is_some());
    assert_eq!(hashing_progress("Reading", 21, 31, 10 * 1024 * 1024), None);
    assert_eq!(
        hashing_started("Checking", 9),
        ScanStatus::Hashing { message: "Checking".to_string(), current: 0, total: 9 }
    );
}

#[test]
fn texts_of_the_page() {
    let ok = CleanResult { deleted: 3, failed: Vec::new() };
    assert_eq!(deletion_message("Đã chuyển {} file vào thùng rác.", "Lỗi {}", &ok), ("Đã chuyển 3 file vào thùng rác.".to_string(), false));
    let bad = CleanResult { deleted: 0, failed: vec![("Delete".to_string(), "e".to_string())] };
    assert_eq!(deletion_message("{}", "Đã xảy ra lỗi xóa {} file.", &bad), ("Đã xảy ra lỗi xóa 1 file.".to_string(), true));
    assert_eq!(found_groups_label("Tìm thấy", 1), "Tìm thấy 1 group");
    assert_eq!(found_groups_label("Found", 2), "Found 2 groups");
    assert_eq!(delete_button_label("Delete", 2, 2048), "Delete 2 (2.0 KB)");
    assert_eq!(group_title("Group", 0, 100), "Group 1 (100 B / each)");
    assert_eq!(short_hash("0123456789abcdef"), "01234567");
    assert_eq!(short_hash("abc"), "abc");
}

#[test]
fn page_state_transitions() {
    let mut st = DuplicateFinderState::default();
    assert!(st.is_idle());
    st.begin_scan("Starting");
    assert!(!st.is_idle());
    assert_eq!(st.status, ScanStatus::Scanning { message: "Starting".to_string(), current: 0, total: 0 });
    let groups = vec![DuplicateGroup { hash: "h".to_string(), size: 1, files: vec![dup("a", 1, false), dup("b", 1, true)] }];
    st.receive_scan(ScanStatus::Done, Some(groups));
    assert!(st.is_idle());
    assert_eq!(st.groups.len(), 1);
    st.begin_delete("Moving");
    assert_eq!(st.status, ScanStatus::Deleting { message: "Moving".to_string() });
    st.receive_delete(ScanStatus::Done, Some(CleanResult { deleted: 1, failed: Vec::new() }), "Moved {}", "Error {}");
    assert!(st.groups.is_empty(), "a group left with one file is dropped");
    assert_eq!(st.result_message, Some(("Moved 1".to_string(), false)));
    st.reset();
    assert_eq!(st.status, ScanStatus::Idle);
    assert!(st.result_message.is_none());
}

#[test]
fn short_hash_cuts_between_characters() {
    assert_eq!(short_hash("ổổổổổổổổổ"), "ổổổổổổổổ");
    assert_eq!(short_hash("12345678"), "12345678");
}
