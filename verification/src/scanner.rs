use vstd::prelude::*;

use crate::cleanup::same_path;
use crate::file_info::{category_of_extension, path_view, FileCategory, FileEntry, FileEntryParams};

verus! {

/// How deep a scan reads, the top level of the scanned folder being level 1.
pub const MAX_SCAN_DEPTH: usize = 6;

/// Whether the scan skips an entry: the application's own data folder.
pub fn is_excluded(path: &Vec<String>, data_dir: &Vec<String>) -> (r: bool)
    ensures
        r == (path_view(path@) == path_view(data_dir@)),
{
    same_path(path, data_dir)
}

/// Whether the scan reads the contents of an entry at level `depth`: a folder above the
/// deepest level read.
pub fn descends(is_dir: bool, depth: usize) -> (r: bool)
    ensures
        r == (is_dir && depth < MAX_SCAN_DEPTH),
{
    is_dir && depth < MAX_SCAN_DEPTH
}

/// The entry a scan makes of what the disk says of a path: a folder has no size and no
/// extension; its contents are added by the scan (see `descends`).
pub fn scanned_entry(
    name: String,
    path: Vec<String>,
    is_dir: bool,
    len: u64,
    created: Option<i64>,
    modified: Option<i64>,
    accessed: Option<i64>,
    extension: Option<String>,
) -> (r: FileEntry)
    ensures
        r.name == name,
        r.path == path,
        r.is_dir == is_dir,
        r.size == (if is_dir { 0 } else { len }),
        r.created == created,
        r.modified == modified,
        r.accessed == accessed,
        !r.selected,
        !r.expanded,
        r.children@.len() == 0,
        r.category == (if is_dir {
            FileCategory::Folder
        } else {
            match extension {
                Some(ext) => category_of_extension(ext@),
                None => FileCategory::Other,
            }
        }),
{
    let size = if is_dir { 0 } else { len };
    let ext = if is_dir { None } else { extension };
    FileEntry::new(FileEntryParams { name, path, is_dir, size, created, modified, accessed, extension: ext })
}

} // verus!
