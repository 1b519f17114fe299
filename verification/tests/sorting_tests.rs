use folder_cleaner::cache::{app_data_dir, cache_file_name, cache_path_for, settings_path};
use folder_cleaner::file_info::{FileCategory, FileEntry, FileEntryParams};
use folder_cleaner::settings::SettingsState;
use folder_cleaner::sorter::{
    get_sort_folder_names, get_unique_path, move_step, plan_sort, sort_failure_message, MoveAction, MoveEvent, SortFailure, SortResult,
};
use sha2::{Digest, Sha256};

fn path(parts: &[&str]) -> Vec<String> {
    parts.iter().map(|p| p.to_string()).collect()
}

fn entry(parts: &[&str], is_dir: bool) -> FileEntry {
    let name = parts[parts.len() - 1].to_string();
    let ext = if is_dir { None } else { name.rsplit_once('.').map(|(_, e)| e.to_string()) };
    FileEntry::new(FileEntryParams {
        name,
        path: path(parts),
        is_dir,
        size: 1,
        created: None,
        modified: None,
        accessed: None,
        extension: ext,
    })
}

#[test]
fn sort_folder_names_in_order() {
    assert_eq!(
        get_sort_folder_names(),
        vec!["Documents", "Images", "Videos", "Music", "Archives", "Programs", "Code", "Others"]
    );
}

#[test]
fn unique_names() {
    let none: Vec<String> = Vec::new();
    assert_eq!(get_unique_path("a.txt", &none), "a.txt");
    let taken = vec!["a.txt".to_string()];
    assert_eq!(get_unique_path("a.txt", &taken), "a_1.txt");
    let taken = vec!["a.txt".to_string(), "a_1.txt".to_string(), "a_2.txt".to_string()];
    assert_eq!(get_unique_path("a.txt", &taken), "a_3.txt");
    let taken = vec!["archive.tar.gz".to_string()];
    assert_eq!(get_unique_path("archive.tar.gz", &taken), "archive.tar_1.gz");
    let taken = vec![".bashrc".to_string()];
    assert_eq!(get_unique_path(".bashrc", &taken), ".bashrc_1");
    let taken = vec!["README".to_string()];
    assert_eq!(get_unique_path("README", &taken), "README_1");
    let taken = vec!["end.".to_string()];
    assert_eq!(get_unique_path("end.", &taken), "end_1.");
}

#[test]
fn plan_moves_by_kind() {
    let entries = vec![
        entry(&["home", "dl", "report.pdf"], false),
        entry(&["home", "dl", "Documents"], true),
        entry(&["home", "dl", "Images", "pic.png"], false),
        entry(&["home", "dl", "song.MP3"], false),
        entry(&["home", "dl", "notes"], false),
    ];
    let base = path(&["home", "dl"]);
    let moves = plan_sort(&entries, &base);
    let planned: Vec<(usize, &str)> = moves.iter().map(|m| (m.entry, m.folder)).collect();
    assert_eq!(planned, vec![(0, "Documents"), (3, "Music"), (4, "Others")]);
    assert_eq!(moves[0].target_dir, path(&["home", "dl", "Documents"]));
    assert_eq!(entries[3].category, FileCategory::Audio);
}

#[test]
fn sort_results_and_messages() {
    let mut r = SortResult::new();
    r.record_moved();
    r.record_moved();
    r.record_failure("a.txt".to_string(), sort_failure_message(SortFailure::Move, "denied"));
    assert_eq!(r.moved, 2);
    assert_eq!(r.failed, vec![("a.txt".to_string(), "Không thể di chuyển: denied".to_string())]);
    assert_eq!(sort_failure_message(SortFailure::CreateFolder, "e"), "Không thể tạo thư mục: e");
    assert_eq!(sort_failure_message(SortFailure::RemoveOriginal, "e"), "Không thể xóa gốc: e");
}

#[test]
fn data_paths() {
    let tmp = path(&["/", "tmp"]);
    assert_eq!(app_data_dir(&tmp), path(&["/", "tmp", "folder_cleaner"]));
    let exe_dir = path(&["/", "opt", "cleaner"]);
    assert_eq!(settings_path(&exe_dir), path(&["/", "opt", "cleaner", "settings.ini"]));
    assert_eq!(SettingsState::get_settings_path(&exe_dir), settings_path(&exe_dir));
}

#[test]
fn cache_names_from_digest() {
    let scan = "C:\\Users\\me\\Downloads";
    let mut h = Sha256::new();
    h.update(scan.as_bytes());
    let expected = format!("{:.16x}.bin", h.finalize());
    assert_eq!(cache_file_name(scan), expected);
    assert_eq!(cache_file_name(scan).len(), 20);
    assert_ne!(cache_file_name("a"), cache_file_name("b"));
    let tmp = path(&["tmp"]);
    let p = cache_path_for(&tmp, scan);
    assert_eq!(p, vec!["tmp".to_string(), "folder_cleaner".to_string(), expected]);
}

#[test]
fn cache_name_of_empty_path() {
    // SHA-256 of nothing starts with e3b0c44298fc1c14
    assert_eq!(cache_file_name(""), "e3b0c44298fc1c14.bin");
}

#[test]
fn unique_names_ignore_letter_case() {
    let taken = vec!["PHOTO.JPG".to_string()];
    assert_eq!(get_unique_path("photo.jpg", &taken), "photo_1.jpg");
    let taken = vec!["Report.pdf".to_string(), "report_1.PDF".to_string()];
    assert_eq!(get_unique_path("REPORT.pdf", &taken), "REPORT_2.pdf");
    let taken = vec!["other.txt".to_string()];
    assert_eq!(get_unique_path("Notes.TXT", &taken), "Notes.TXT");
}

#[test]
fn move_steps_record_outcomes() {
    let mut r = SortResult::new();
    assert!(matches!(move_step(&mut r, "Images", "a.jpg", MoveEvent::Renamed), MoveAction::NextMove));
    assert_eq!(r.moved, 1);
    let next = move_step(&mut r, "Images", "b.jpg", MoveEvent::RenameFailed { error: "cross-device".to_string() });
    let rename_error = match next {
        MoveAction::Copy { rename_error } => rename_error,
        other => panic!("unexpected {:?}", other),
    };
    assert_eq!(rename_error, "cross-device");
    assert!(matches!(move_step(&mut r, "Images", "b.jpg", MoveEvent::Copied), MoveAction::RemoveOriginal));
    assert!(matches!(move_step(&mut r, "Images", "b.jpg", MoveEvent::Removed), MoveAction::NextMove));
    assert_eq!(r.moved, 2);
    move_step(&mut r, "Images", "c.jpg", MoveEvent::CopyFailed { rename_error: "busy".to_string() });
    move_step(&mut r, "Images", "d.jpg", MoveEvent::RemoveFailed { error: "locked".to_string() });
    move_step(&mut r, "Music", "e.mp3", MoveEvent::FolderFailed { error: "denied".to_string() });
    assert_eq!(r.moved, 2);
    assert_eq!(
        r.failed,
        vec![
            ("c.jpg".to_string(), "Không thể di chuyển: busy".to_string()),
            ("d.jpg".to_string(), "Không thể xóa gốc: locked".to_string()),
            ("Music".to_string(), "Không thể tạo thư mục: denied".to_string()),
        ]
    );
}
