use folder_cleaner::cache::{checked_fingerprint, count_recursive, fingerprint, size_recursive};
use folder_cleaner::cleaner::{
    collect_selected_paths, deselect_all, is_excluded_by_name, plan_deletion, select_old_files_at,
    select_old_files_shallow_at,
};
use folder_cleaner::file_info::{
    count_selected_in_entries, get_category_from_extension, selected_size_in_entries, total_files_in_entries,
    total_size_in_entries, FileCategory, FileEntry, FileEntryParams, SortCriteria, SortDirection, SortState,
};
use folder_cleaner::order::{is_sortable, sort_forest};

const DAY: u64 = 86_400 * 1_000_000_000;

fn path(parts: &[&str]) -> Vec<String> {
    parts.iter().map(|p| p.to_string()).collect()
}

fn file(parts: &[&str], size: u64, modified: Option<i64>) -> FileEntry {
    let name = parts[parts.len() - 1].to_string();
    let ext = name.rsplit_once('.').map(|(_, e)| e.to_string());
    FileEntry::new(FileEntryParams {
        name,
        path: path(parts),
        is_dir: false,
        size,
        created: None,
        modified,
        accessed: None,
        extension: ext,
    })
}

fn dir(parts: &[&str], children: Vec<FileEntry>) -> FileEntry {
    let mut d = FileEntry::new(FileEntryParams {
        name: parts[parts.len() - 1].to_string(),
        path: path(parts),
        is_dir: true,
        size: 0,
        created: None,
        modified: None,
        accessed: None,
        extension: None,
    });
    d.children = children;
    d
}

fn sample(now: u64) -> Vec<FileEntry> {
    vec![
        file(&["root", "old.pdf"], 100, Some((now - 40 * DAY) as i64)),
        file(&["root", "new.jpg"], 200, Some((now - DAY) as i64)),
        dir(
            &["root", "sub"],
            vec![
                file(&["root", "sub", "a.mp3"], 300, Some((now - 100 * DAY) as i64)),
                file(&["root", "sub", "b.zip"], 400, Some((now - 200 * DAY) as i64)),
            ],
        ),
        dir(&["root", "node_modules"], vec![file(&["root", "node_modules", "x.js"], 50, Some(0))]),
    ]
}

#[test]
fn categories_by_extension() {
    assert_eq!(get_category_from_extension("PDF"), FileCategory::Document);
    assert_eq!(get_category_from_extension("jpeg"), FileCategory::Image);
    assert_eq!(get_category_from_extension("MkV"), FileCategory::Video);
    assert_eq!(get_category_from_extension("flac"), FileCategory::Audio);
    assert_eq!(get_category_from_extension("7z"), FileCategory::Archive);
    assert_eq!(get_category_from_extension("ps1"), FileCategory::Executable);
    assert_eq!(get_category_from_extension("toml"), FileCategory::Code);
    assert_eq!(get_category_from_extension("unknown"), FileCategory::Other);
    assert_eq!(get_category_from_extension(""), FileCategory::Other);
}

#[test]
fn folder_names_and_icons() {
    assert_eq!(FileCategory::Document.folder_name(), "Documents");
    assert_eq!(FileCategory::Audio.folder_name(), "Music");
    assert_eq!(FileCategory::Executable.folder_name(), "Programs");
    assert_eq!(FileCategory::Folder.folder_name(), "");
    assert_eq!(FileCategory::Folder.icon(), "📁");
    assert_eq!(FileCategory::Code.icon(), "💻");
}

#[test]
fn new_entry_fields() {
    let f = file(&["a", "b.TXT"], 12, Some(5));
    assert_eq!(f.category, FileCategory::Document);
    assert!(!f.selected && !f.expanded);
    assert!(f.children.is_empty());
    let d = dir(&["a", "c"], Vec::new());
    assert_eq!(d.category, FileCategory::Folder);
    let g = FileEntry::new(FileEntryParams {
        name: "README".to_string(),
        path: path(&["README"]),
        is_dir: false,
        size: 1,
        created: None,
        modified: None,
        accessed: None,
        extension: None,
    });
    assert_eq!(g.category, FileCategory::Other);
}

#[test]
fn totals_over_a_tree() {
    let e = sample(1000 * DAY);
    assert_eq!(total_size_in_entries(&e), 100 + 200 + 300 + 400 + 50);
    assert_eq!(total_files_in_entries(&e), 5);
    assert_eq!(e[2].total_size(), 700);
    assert_eq!(e[2].total_files(), 2);
    assert_eq!(e[0].total_files(), 1);
    assert_eq!(count_selected_in_entries(&e), 0);
    assert_eq!(selected_size_in_entries(&e), 0);
}

#[test]
fn fingerprint_counts_entries_and_sizes() {
    let e = sample(1000 * DAY);
    assert_eq!(count_recursive(&e), 7);
    assert_eq!(size_recursive(&e), 1050);
    assert_eq!(fingerprint(&e), (7, 1050));
    assert_eq!(checked_fingerprint(&e), Some((7, 1050)));
    let huge = vec![file(&["x"], u64::MAX, None), file(&["y"], 1, None)];
    assert_eq!(checked_fingerprint(&huge), None);
}

#[test]
fn exclusion_patterns() {
    let list = vec!["node_modules".to_string(), ".bak".to_string(), "*.tmp".to_string(), ".git".to_string()];
    assert!(is_excluded_by_name("node_modules", &list));
    assert!(is_excluded_by_name("NODE_MODULES", &list));
    assert!(is_excluded_by_name("report.BAK", &list));
    assert!(is_excluded_by_name("x.tmp", &list));
    assert!(is_excluded_by_name(".git", &list));
    assert!(!is_excluded_by_name("tmp", &list));
    assert!(!is_excluded_by_name("node_modules2", &list));
    assert!(!is_excluded_by_name("anything", &Vec::new()));
}

#[test]
fn select_old_recursive() {
    let now = 1000 * DAY;
    let mut e = sample(now);
    let list = vec!["node_modules".to_string()];
    select_old_files_at(&mut e, 30, &list, now);
    assert!(e[0].selected);
    assert!(!e[1].selected);
    assert!(e[2].selected, "a folder whose children are all old is selected");
    assert!(e[2].children[0].selected && e[2].children[1].selected);
    assert!(!e[3].selected && !e[3].children[0].selected, "excluded folders stay unselected");
    assert_eq!(count_selected_in_entries(&e), 3);
    assert_eq!(selected_size_in_entries(&e), 800);
}

#[test]
fn select_old_recursive_partial_folder() {
    let now = 1000 * DAY;
    let mut e = sample(now);
    select_old_files_at(&mut e, 150, &Vec::new(), now);
    assert!(!e[0].selected);
    assert!(!e[2].selected, "only one child is old enough");
    assert!(!e[2].children[0].selected && e[2].children[1].selected);
    assert!(e[3].selected, "not excluded without a pattern");
}

#[test]
fn select_old_shallow_keeps_subfolders() {
    let now = 1000 * DAY;
    let mut e = sample(now);
    select_old_files_shallow_at(&mut e, 30, &Vec::new(), now);
    assert!(e[0].selected);
    assert!(!e[1].selected);
    assert!(!e[2].selected);
    assert!(!e[2].children[0].selected && !e[2].children[1].selected);
}

#[test]
fn deselect_everything() {
    let now = 1000 * DAY;
    let mut e = sample(now);
    select_old_files_at(&mut e, 0, &Vec::new(), now);
    assert!(count_selected_in_entries(&e) > 0);
    deselect_all(&mut e);
    assert_eq!(count_selected_in_entries(&e), 0);
    assert!(!e[2].children[0].selected);
}

#[test]
fn selected_items_and_plans() {
    let now = 1000 * DAY;
    let mut e = sample(now);
    select_old_files_at(&mut e, 30, &vec!["node_modules".to_string()], now);
    let items = collect_selected_paths(&e);
    assert_eq!(items.len(), 2);
    assert_eq!(items[0], (path(&["root", "old.pdf"]), 1));
    assert_eq!(items[1], (path(&["root", "sub"]), 2));
    let plan = plan_deletion(&e);
    assert_eq!(plan.batches.len(), 1);
    assert_eq!(plan.total_files, 3);
    assert_eq!(plan.batches[0].paths.len(), 2);
    assert_eq!(plan.batches[0].files, 3);
    assert_eq!(plan.files_before(1), 3);
}

#[test]
fn deletion_batches_of_fifty() {
    let mut e: Vec<FileEntry> = Vec::new();
    for i in 0..120 {
        let name = format!("f{}.txt", i);
        let mut f = file(&["r", name.as_str()], 1, None);
        f.selected = true;
        e.push(f);
    }
    let plan = plan_deletion(&e);
    let sizes: Vec<usize> = plan.batches.iter().map(|b| b.paths.len()).collect();
    assert_eq!(sizes, vec![50, 50, 20]);
    assert_eq!(plan.total_files, 120);
    assert_eq!(plan.files_before(2), 100);
}

#[test]
fn sorting_a_listing() {
    let mut e = vec![
        file(&["r", "b.txt"], 5, Some(3)),
        dir(&["r", "Zed"], vec![file(&["r", "Zed", "y"], 1, None), file(&["r", "Zed", "X"], 9, None)]),
        file(&["r", "A.txt"], 50, Some(1)),
        dir(&["r", "alpha"], Vec::new()),
    ];
    sort_forest(&mut e, None, None);
    let names: Vec<&str> = e.iter().map(|x| x.name.as_str()).collect();
    assert_eq!(names, vec!["alpha", "Zed", "A.txt", "b.txt"]);
    let inner: Vec<&str> = e[1].children.iter().map(|x| x.name.as_str()).collect();
    assert_eq!(inner, vec!["X", "y"]);

    let by_size = Some(SortState { criteria: SortCriteria::Size, direction: SortDirection::Desc });
    assert!(is_sortable(&e, by_size));
    sort_forest(&mut e, by_size, by_size);
    let names: Vec<&str> = e.iter().map(|x| x.name.as_str()).collect();
    assert_eq!(names, vec!["Zed", "alpha", "A.txt", "b.txt"]);
    let inner: Vec<&str> = e[0].children.iter().map(|x| x.name.as_str()).collect();
    assert_eq!(inner, vec!["X", "y"]);

    let by_modified = Some(SortState { criteria: SortCriteria::Modified, direction: SortDirection::Asc });
    sort_forest(&mut e, by_modified, by_modified);
    let names: Vec<&str> = e.iter().map(|x| x.name.as_str()).collect();
    assert_eq!(names, vec!["Zed", "alpha", "A.txt", "b.txt"]);
}

#[test]
fn sort_recursive_orders_children() {
    let mut d = dir(
        &["r"],
        vec![file(&["r", "c"], 1, None), dir(&["r", "b"], Vec::new()), file(&["r", "a"], 1, None)],
    );
    d.sort_recursive(None);
    let names: Vec<&str> = d.children.iter().map(|x| x.name.as_str()).collect();
    assert_eq!(names, vec!["b", "a", "c"]);
}

#[test]
fn collect_files_for_sorting() {
    let mut d = dir(&["r"], vec![file(&["r", "a"], 1, None), dir(&["r", "s"], vec![file(&["r", "s", "b"], 1, None)])]);
    let all = d.collect_for_sorting(false);
    assert_eq!(all.len(), 0, "a folder alone gives nothing without a selection");
    d.children[1].children[0].selected = true;
    let sel = d.collect_for_sorting(true);
    assert_eq!(sel.len(), 1);
    assert_eq!(sel[0].name, "b");
    let f = file(&["x"], 1, None);
    assert_eq!(f.collect_for_sorting(false).len(), 1);
}

#[test]
fn set_selected_recursive_marks_subtree() {
    let mut d = dir(&["r"], vec![file(&["r", "a"], 1, None), dir(&["r", "s"], vec![file(&["r", "s", "b"], 7, None)])]);
    d.set_selected_recursive(true);
    assert!(d.selected && d.children[1].children[0].selected);
    assert_eq!(d.count_selected(), 2);
    assert_eq!(d.selected_size(), 8);
    d.set_selected_recursive(false);
    assert_eq!(d.count_selected(), 0);
}

#[test]
fn sorting_twice_and_fingerprint_after_sorting() {
    let mut e = sample(1000 * DAY);
    let before = fingerprint(&e);
    let st = Some(SortState { criteria: SortCriteria::Size, direction: SortDirection::Desc });
    sort_forest(&mut e, st, st);
    let once: Vec<String> = e.iter().map(|x| x.name.clone()).collect();
    assert_eq!(fingerprint(&e), before);
    sort_forest(&mut e, st, st);
    let twice: Vec<String> = e.iter().map(|x| x.name.clone()).collect();
    assert_eq!(once, twice);
    e[0].selected = true;
    e[1].expanded = true;
    assert_eq!(fingerprint(&e), before);
}
