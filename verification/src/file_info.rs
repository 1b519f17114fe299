use vstd::prelude::*;

use crate::text::{chars_of, eq_lit, lowercase, to_lowercase};

verus! {

/// The column by which a listing is ordered.
#[derive(Debug, Clone, Copy, PartialEq, Eq, Structural)]
pub enum SortCriteria {
    Name,
    Created,
    Modified,
    Size,
}

/// Ascending or descending order.
#[derive(Debug, Clone, Copy, PartialEq, Eq, Structural)]
pub enum SortDirection {
    Asc,
    Desc,
}

/// The ordering chosen by the user: a column and a direction.
#[derive(Debug, Clone, Copy, PartialEq, Eq, Structural)]
pub struct SortState {
    pub criteria: SortCriteria,
    pub direction: SortDirection,
}

/// The kind of a file, decided by its extension; folders have a kind of their own.
#[derive(Debug, Clone, Copy, PartialEq, Eq, Structural)]
pub enum FileCategory {
    Document,
    Image,
    Video,
    Audio,
    Archive,
    Executable,
    Code,
    Other,
    Folder,
}

impl FileCategory {
    /// The name of the folder that files of this kind are sorted into
    /// (empty for folders, which are never moved).
    pub open spec fn folder_name_spec(self) -> Seq<char> {
        match self {
            FileCategory::Document => "Documents"@,
            FileCategory::Image => "Images"@,
            FileCategory::Video => "Videos"@,
            FileCategory::Audio => "Music"@,
            FileCategory::Archive => "Archives"@,
            FileCategory::Executable => "Programs"@,
            FileCategory::Code => "Code"@,
            FileCategory::Other => "Others"@,
            FileCategory::Folder => ""@,
        }
    }

    /// The icon shown beside entries of this kind.
    pub open spec fn icon_spec(self) -> Seq<char> {
        match self {
            FileCategory::Document => "📄"@,
            FileCategory::Image => "🖼"@,
            FileCategory::Video => "🎬"@,
            FileCategory::Audio => "🎵"@,
            FileCategory::Archive => "📦"@,
            FileCategory::Executable => "⚙"@,
            FileCategory::Code => "💻"@,
            FileCategory::Other => "📎"@,
            FileCategory::Folder => "📁"@,
        }
    }

    /// Name of the destination folder when files are sorted by kind.
    pub fn folder_name(&self) -> (r: &'static str)
        ensures
            r@ == self.folder_name_spec(),
    {
        match self {
            FileCategory::Document => "Documents",
            FileCategory::Image => "Images",
            FileCategory::Video => "Videos",
            FileCategory::Audio => "Music",
            FileCategory::Archive => "Archives",
            FileCategory::Executable => "Programs",
            FileCategory::Code => "Code",
            FileCategory::Other => "Others",
            FileCategory::Folder => "",
        }
    }

    /// Icon (an emoji) for this kind.
    pub fn icon(&self) -> (r: &'static str)
        ensures
            r@ == self.icon_spec(),
    {
        match self {
            FileCategory::Document => "📄",
            FileCategory::Image => "🖼",
            FileCategory::Video => "🎬",
            FileCategory::Audio => "🎵",
            FileCategory::Archive => "📦",
            FileCategory::Executable => "⚙",
            FileCategory::Code => "💻",
            FileCategory::Other => "📎",
            FileCategory::Folder => "📁",
        }
    }
}

/// The kind of a file whose extension, already lowercased, is `l`.
pub open spec fn category_of_lowercase(l: Seq<char>) -> FileCategory {
    if l == "pdf"@ || l == "doc"@ || l == "docx"@ || l == "xls"@ || l == "xlsx"@ || l == "ppt"@
        || l == "pptx"@ || l == "txt"@ || l == "csv"@ || l == "rtf"@ || l == "odt"@ || l == "ods"@
        || l == "odp"@ {
        FileCategory::Document
    } else if l == "jpg"@ || l == "jpeg"@ || l == "png"@ || l == "gif"@ || l == "bmp"@ || l
        == "svg"@ || l == "webp"@ || l == "ico"@ || l == "tiff"@ || l == "tif"@ || l == "raw"@ || l
        == "psd"@ || l == "ai"@ {
        FileCategory::Image
    } else if l == "mp4"@ || l == "avi"@ || l == "mkv"@ || l == "mov"@ || l == "wmv"@ || l
        == "flv"@ || l == "webm"@ || l == "m4v"@ || l == "3gp"@ {
        FileCategory::Video
    } else if l == "mp3"@ || l == "wav"@ || l == "flac"@ || l == "aac"@ || l == "ogg"@ || l
        == "wma"@ || l == "m4a"@ || l == "opus"@ {
        FileCategory::Audio
    } else if l == "zip"@ || l == "rar"@ || l == "7z"@ || l == "tar"@ || l == "gz"@ || l == "bz2"@
        || l == "xz"@ || l == "iso"@ || l == "cab"@ {
        FileCategory::Archive
    } else if l == "exe"@ || l == "msi"@ || l == "bat"@ || l == "cmd"@ || l == "ps1"@ || l
        == "com"@ || l == "scr"@ {
        FileCategory::Executable
    } else if l == "rs"@ || l == "py"@ || l == "js"@ || l == "ts"@ || l == "html"@ || l == "css"@
        || l == "java"@ || l == "cpp"@ || l == "c"@ || l == "h"@ || l == "hpp"@ || l == "go"@ || l
        == "rb"@ || l == "php"@ || l == "swift"@ || l == "kt"@ || l == "scala"@ || l == "lua"@ || l
        == "sh"@ || l == "json"@ || l == "xml"@ || l == "yaml"@ || l == "yml"@ || l == "toml"@ || l
        == "md"@ || l == "sql"@ {
        FileCategory::Code
    } else {
        FileCategory::Other
    }
}

/// The kind of a file with extension `ext`, compared without regard to case.
pub open spec fn category_of_extension(ext: Seq<char>) -> FileCategory {
    category_of_lowercase(lowercase(ext))
}

/// The lowercase extensions of the table whose kind is `Document`.
proof fn lemma_kinds_document()
    ensures
        category_of_lowercase("pdf"@) == FileCategory::Document,
        category_of_lowercase("doc"@) == FileCategory::Document,
        category_of_lowercase("docx"@) == FileCategory::Document,
        category_of_lowercase("xls"@) == FileCategory::Document,
        category_of_lowercase("xlsx"@) == FileCategory::Document,
        category_of_lowercase("ppt"@) == FileCategory::Document,
        category_of_lowercase("pptx"@) == FileCategory::Document,
        category_of_lowercase("txt"@) == FileCategory::Document,
        category_of_lowercase("csv"@) == FileCategory::Document,
        category_of_lowercase("rtf"@) == FileCategory::Document,
        category_of_lowercase("odt"@) == FileCategory::Document,
        category_of_lowercase("ods"@) == FileCategory::Document,
        category_of_lowercase("odp"@) == FileCategory::Document,
{
    reveal_strlit("pdf");
    reveal_strlit("doc");
    reveal_strlit("docx");
    reveal_strlit("xls");
    reveal_strlit("xlsx");
    reveal_strlit("ppt");
    reveal_strlit("pptx");
    reveal_strlit("txt");
    reveal_strlit("csv");
    reveal_strlit("rtf");
    reveal_strlit("odt");
    reveal_strlit("ods");
    reveal_strlit("odp");
    assert("pdf"@ =~= seq!['p', 'd', 'f']);
    assert("doc"@ =~= seq!['d', 'o', 'c']);
    assert("docx"@ =~= seq!['d', 'o', 'c', 'x']);
    assert("xls"@ =~= seq!['x', 'l', 's']);
    assert("xlsx"@ =~= seq!['x', 'l', 's', 'x']);
    assert("ppt"@ =~= seq!['p', 'p', 't']);
    assert("pptx"@ =~= seq!['p', 'p', 't', 'x']);
    assert("txt"@ =~= seq!['t', 'x', 't']);
    assert("csv"@ =~= seq!['c', 's', 'v']);
    assert("rtf"@ =~= seq!['r', 't', 'f']);
    assert("odt"@ =~= seq!['o', 'd', 't']);
    assert("ods"@ =~= seq!['o', 'd', 's']);
    assert("odp"@ =~= seq!['o', 'd', 'p']);
}

/// The lowercase extensions of the table whose kind is `Image`.
proof fn lemma_kinds_image()
    ensures
        category_of_lowercase("jpg"@) == FileCategory::Image,
        category_of_lowercase("jpeg"@) == FileCategory::Image,
        category_of_lowercase("png"@) == FileCategory::Image,
        category_of_lowercase("gif"@) == FileCategory::Image,
        category_of_lowercase("bmp"@) == FileCategory::Image,
        category_of_lowercase("svg"@) == FileCategory::Image,
        category_of_lowercase("webp"@) == FileCategory::Image,
        category_of_lowercase("ico"@) == FileCategory::Image,
        category_of_lowercase("tiff"@) == FileCategory::Image,
        category_of_lowercase("tif"@) == FileCategory::Image,
        category_of_lowercase("raw"@) == FileCategory::Image,
        category_of_lowercase("psd"@) == FileCategory::Image,
        category_of_lowercase("ai"@) == FileCategory::Image,
{
    reveal_strlit("pdf");
    reveal_strlit("doc");
    reveal_strlit("docx");
    reveal_strlit("xls");
    reveal_strlit("xlsx");
    reveal_strlit("ppt");
    reveal_strlit("pptx");
    reveal_strlit("txt");
    reveal_strlit("csv");
    reveal_strlit("rtf");
    reveal_strlit("odt");
    reveal_strlit("ods");
    reveal_strlit("odp");
    reveal_strlit("jpg");
    reveal_strlit("jpeg");
    reveal_strlit("png");
    reveal_strlit("gif");
    reveal_strlit("bmp");
    reveal_strlit("svg");
    reveal_strlit("webp");
    reveal_strlit("ico");
    reveal_strlit("tiff");
    reveal_strlit("tif");
    reveal_strlit("raw");
    reveal_strlit("psd");
    reveal_strlit("ai");
    assert("pdf"@ =~= seq!['p', 'd', 'f']);
    assert("doc"@ =~= seq!['d', 'o', 'c']);
    assert("docx"@ =~= seq!['d', 'o', 'c', 'x']);
    assert("xls"@ =~= seq!['x', 'l', 's']);
    assert("xlsx"@ =~= seq!['x', 'l', 's', 'x']);
    assert("ppt"@ =~= seq!['p', 'p', 't']);
    assert("pptx"@ =~= seq!['p', 'p', 't', 'x']);
    assert("txt"@ =~= seq!['t', 'x', 't']);
    assert("csv"@ =~= seq!['c', 's', 'v']);
    assert("rtf"@ =~= seq!['r', 't', 'f']);
    assert("odt"@ =~= seq!['o', 'd', 't']);
    assert("ods"@ =~= seq!['o', 'd', 's']);
    assert("odp"@ =~= seq!['o', 'd', 'p']);
    assert("jpg"@ =~= seq!['j', 'p', 'g']);
    assert("jpeg"@ =~= seq!['j', 'p', 'e', 'g']);
    assert("png"@ =~= seq!['p', 'n', 'g']);
    assert("gif"@ =~= seq!['g', 'i', 'f']);
    assert("bmp"@ =~= seq!['b', 'm', 'p']);
    assert("svg"@ =~= seq!['s', 'v', 'g']);
    assert("webp"@ =~= seq!['w', 'e', 'b', 'p']);
    assert("ico"@ =~= seq!['i', 'c', 'o']);
    assert("tiff"@ =~= seq!['t', 'i', 'f', 'f']);
    assert("tif"@ =~= seq!['t', 'i', 'f']);
    assert("raw"@ =~= seq!['r', 'a', 'w']);
    assert("psd"@ =~= seq!['p', 's', 'd']);
    assert("ai"@ =~= seq!['a', 'i']);
}

/// The lowercase extensions of the table whose kind is `Video`.
proof fn lemma_kinds_video()
    ensures
        category_of_lowercase("mp4"@) == FileCategory::Video,
        category_of_lowercase("avi"@) == FileCategory::Video,
        category_of_lowercase("mkv"@) == FileCategory::Video,
        category_of_lowercase("mov"@) == FileCategory::Video,
        category_of_lowercase("wmv"@) == FileCategory::Video,
        category_of_lowercase("flv"@) == FileCategory::Video,
        category_of_lowercase("webm"@) == FileCategory::Video,
        category_of_lowercase("m4v"@) == FileCategory::Video,
        category_of_lowercase("3gp"@) == FileCategory::Video,
{
    reveal_strlit("pdf");
    reveal_strlit("doc");
    reveal_strlit("docx");
    reveal_strlit("xls");
    reveal_strlit("xlsx");
    reveal_strlit("ppt");
    reveal_strlit("pptx");
    reveal_strlit("txt");
    reveal_strlit("csv");
    reveal_strlit("rtf");
    reveal_strlit("odt");
    reveal_strlit("ods");
    reveal_strlit("odp");
    reveal_strlit("jpg");
    reveal_strlit("jpeg");
    reveal_strlit("png");
    reveal_strlit("gif");
    reveal_strlit("bmp");
    reveal_strlit("svg");
    reveal_strlit("webp");
    reveal_strlit("ico");
    reveal_strlit("tiff");
    reveal_strlit("tif");
    reveal_strlit("raw");
    reveal_strlit("psd");
    reveal_strlit("ai");
    reveal_strlit("mp4");
    reveal_strlit("avi");
    reveal_strlit("mkv");
    reveal_strlit("mov");
    reveal_strlit("wmv");
    reveal_strlit("flv");
    reveal_strlit("webm");
    reveal_strlit("m4v");
    reveal_strlit("3gp");
    assert("pdf"@ =~= seq!['p', 'd', 'f']);
    assert("doc"@ =~= seq!['d', 'o', 'c']);
    assert("docx"@ =~= seq!['d', 'o', 'c', 'x']);
    assert("xls"@ =~= seq!['x', 'l', 's']);
    assert("xlsx"@ =~= seq!['x', 'l', 's', 'x']);
    assert("ppt"@ =~= seq!['p', 'p', 't']);
    assert("pptx"@ =~= seq!['p', 'p', 't', 'x']);
    assert("txt"@ =~= seq!['t', 'x', 't']);
    assert("csv"@ =~= seq!['c', 's', 'v']);
    assert("rtf"@ =~= seq!['r', 't', 'f']);
    assert("odt"@ =~= seq!['o', 'd', 't']);
    assert("ods"@ =~= seq!['o', 'd', 's']);
    assert("odp"@ =~= seq!['o', 'd', 'p']);
    assert("jpg"@ =~= seq!['j', 'p', 'g']);
    assert("jpeg"@ =~= seq!['j', 'p', 'e', 'g']);
    assert("png"@ =~= seq!['p', 'n', 'g']);
    assert("gif"@ =~= seq!['g', 'i', 'f']);
    assert("bmp"@ =~= seq!['b', 'm', 'p']);
    assert("svg"@ =~= seq!['s', 'v', 'g']);
    assert("webp"@ =~= seq!['w', 'e', 'b', 'p']);
    assert("ico"@ =~= seq!['i', 'c', 'o']);
    assert("tiff"@ =~= seq!['t', 'i', 'f', 'f']);
    assert("tif"@ =~= seq!['t', 'i', 'f']);
    assert("raw"@ =~= seq!['r', 'a', 'w']);
    assert("psd"@ =~= seq!['p', 's', 'd']);
    assert("ai"@ =~= seq!['a', 'i']);
    assert("mp4"@ =~= seq!['m', 'p', '4']);
    assert("avi"@ =~= seq!['a', 'v', 'i']);
    assert("mkv"@ =~= seq!['m', 'k', 'v']);
    assert("mov"@ =~= seq!['m', 'o', 'v']);
    assert("wmv"@ =~= seq!['w', 'm', 'v']);
    assert("flv"@ =~= seq!['f', 'l', 'v']);
    assert("webm"@ =~= seq!['w', 'e', 'b', 'm']);
    assert("m4v"@ =~= seq!['m', '4', 'v']);
    assert("3gp"@ =~= seq!['3', 'g', 'p']);
}

/// The lowercase extensions of the table whose kind is `Audio`.
proof fn lemma_kinds_audio()
    ensures
        category_of_lowercase("mp3"@) == FileCategory::Audio,
        category_of_lowercase("wav"@) == FileCategory::Audio,
        category_of_lowercase("flac"@) == FileCategory::Audio,
        category_of_lowercase("aac"@) == FileCategory::Audio,
        category_of_lowercase("ogg"@) == FileCategory::Audio,
        category_of_lowercase("wma"@) == FileCategory::Audio,
        category_of_lowercase("m4a"@) == FileCategory::Audio,
        category_of_lowercase("opus"@) == FileCategory::Audio,
{
    reveal_strlit("pdf");
    reveal_strlit("doc");
    reveal_strlit("docx");
    reveal_strlit("xls");
    reveal_strlit("xlsx");
    reveal_strlit("ppt");
    reveal_strlit("pptx");
    reveal_strlit("txt");
    reveal_strlit("csv");
    reveal_strlit("rtf");
    reveal_strlit("odt");
    reveal_strlit("ods");
    reveal_strlit("odp");
    reveal_strlit("jpg");
    reveal_strlit("jpeg");
    reveal_strlit("png");
    reveal_strlit("gif");
    reveal_strlit("bmp");
    reveal_strlit("svg");
    reveal_strlit("webp");
    reveal_strlit("ico");
    reveal_strlit("tiff");
    reveal_strlit("tif");
    reveal_strlit("raw");
    reveal_strlit("psd");
    reveal_strlit("ai");
    reveal_strlit("mp4");
    reveal_strlit("avi");
    reveal_strlit("mkv");
    reveal_strlit("mov");
    reveal_strlit("wmv");
    reveal_strlit("flv");
    reveal_strlit("webm");
    reveal_strlit("m4v");
    reveal_strlit("3gp");
    reveal_strlit("mp3");
    reveal_strlit("wav");
    reveal_strlit("flac");
    reveal_strlit("aac");
    reveal_strlit("ogg");
    reveal_strlit("wma");
    reveal_strlit("m4a");
    reveal_strlit("opus");
    assert("pdf"@ =~= seq!['p', 'd', 'f']);
    assert("doc"@ =~= seq!['d', 'o', 'c']);
    assert("docx"@ =~= seq!['d', 'o', 'c', 'x']);
    assert("xls"@ =~= seq!['x', 'l', 's']);
    assert("xlsx"@ =~= seq!['x', 'l', 's', 'x']);
    assert("ppt"@ =~= seq!['p', 'p', 't']);
    assert("pptx"@ =~= seq!['p', 'p', 't', 'x']);
    assert("txt"@ =~= seq!['t', 'x', 't']);
    assert("csv"@ =~= seq!['c', 's', 'v']);
    assert("rtf"@ =~= seq!['r', 't', 'f']);
    assert("odt"@ =~= seq!['o', 'd', 't']);
    assert("ods"@ =~= seq!['o', 'd', 's']);
    assert("odp"@ =~= seq!['o', 'd', 'p']);
    assert("jpg"@ =~= seq!['j', 'p', 'g']);
    assert("jpeg"@ =~= seq!['j', 'p', 'e', 'g']);
    assert("png"@ =~= seq!['p', 'n', 'g']);
    assert("gif"@ =~= seq!['g', 'i', 'f']);
    assert("bmp"@ =~= seq!['b', 'm', 'p']);
    assert("svg"@ =~= seq!['s', 'v', 'g']);
    assert("webp"@ =~= seq!['w', 'e', 'b', 'p']);
    assert("ico"@ =~= seq!['i', 'c', 'o']);
    assert("tiff"@ =~= seq!['t', 'i', 'f', 'f']);
    assert("tif"@ =~= seq!['t', 'i', 'f']);
    assert("raw"@ =~= seq!['r', 'a', 'w']);
    assert("psd"@ =~= seq!['p', 's', 'd']);
    assert("ai"@ =~= seq!['a', 'i']);
    assert("mp4"@ =~= seq!['m', 'p', '4']);
    assert("avi"@ =~= seq!['a', 'v', 'i']);
    assert("mkv"@ =~= seq!['m', 'k', 'v']);
    assert("mov"@ =~= seq!['m', 'o', 'v']);
    assert("wmv"@ =~= seq!['w', 'm', 'v']);
    assert("flv"@ =~= seq!['f', 'l', 'v']);
    assert("webm"@ =~= seq!['w', 'e', 'b', 'm']);
    assert("m4v"@ =~= seq!['m', '4', 'v']);
    assert("3gp"@ =~= seq!['3', 'g', 'p']);
    assert("mp3"@ =~= seq!['m', 'p', '3']);
    assert("wav"@ =~= seq!['w', 'a', 'v']);
    assert("flac"@ =~= seq!['f', 'l', 'a', 'c']);
    assert("aac"@ =~= seq!['a', 'a', 'c']);
    assert("ogg"@ =~= seq!['o', 'g', 'g']);
    assert("wma"@ =~= seq!['w', 'm', 'a']);
    assert("m4a"@ =~= seq!['m', '4', 'a']);
    assert("opus"@ =~= seq!['o', 'p', 'u', 's']);
}

/// The lowercase extensions of the table whose kind is `Archive`.
proof fn lemma_kinds_archive()
    ensures
        category_of_lowercase("zip"@) == FileCategory::Archive,
        category_of_lowercase("rar"@) == FileCategory::Archive,
        category_of_lowercase("7z"@) == FileCategory::Archive,
        category_of_lowercase("tar"@) == FileCategory::Archive,
        category_of_lowercase("gz"@) == FileCategory::Archive,
        category_of_lowercase("bz2"@) == FileCategory::Archive,
        category_of_lowercase("xz"@) == FileCategory::Archive,
        category_of_lowercase("iso"@) == FileCategory::Archive,
        category_of_lowercase("cab"@) == FileCategory::Archive,
{
    reveal_strlit("pdf");
    reveal_strlit("doc");
    reveal_strlit("docx");
    reveal_strlit("xls");
    reveal_strlit("xlsx");
    reveal_strlit("ppt");
    reveal_strlit("pptx");
    reveal_strlit("txt");
    reveal_strlit("csv");
    reveal_strlit("rtf");
    reveal_strlit("odt");
    reveal_strlit("ods");
    reveal_strlit("odp");
    reveal_strlit("jpg");
    reveal_strlit("jpeg");
    reveal_strlit("png");
    reveal_strlit("gif");
    reveal_strlit("bmp");
    reveal_strlit("svg");
    reveal_strlit("webp");
    reveal_strlit("ico");
    reveal_strlit("tiff");
    reveal_strlit("tif");
    reveal_strlit("raw");
    reveal_strlit("psd");
    reveal_strlit("ai");
    reveal_strlit("mp4");
    reveal_strlit("avi");
    reveal_strlit("mkv");
    reveal_strlit("mov");
    reveal_strlit("wmv");
    reveal_strlit("flv");
    reveal_strlit("webm");
    reveal_strlit("m4v");
    reveal_strlit("3gp");
    reveal_strlit("mp3");
    reveal_strlit("wav");
    reveal_strlit("flac");
    reveal_strlit("aac");
    reveal_strlit("ogg");
    reveal_strlit("wma");
    reveal_strlit("m4a");
    reveal_strlit("opus");
    reveal_strlit("zip");
    reveal_strlit("rar");
    reveal_strlit("7z");
    reveal_strlit("tar");
    reveal_strlit("gz");
    reveal_strlit("bz2");
    reveal_strlit("xz");
    reveal_strlit("iso");
    reveal_strlit("cab");
    assert("pdf"@ =~= seq!['p', 'd', 'f']);
    assert("doc"@ =~= seq!['d', 'o', 'c']);
    assert("docx"@ =~= seq!['d', 'o', 'c', 'x']);
    assert("xls"@ =~= seq!['x', 'l', 's']);
    assert("xlsx"@ =~= seq!['x', 'l', 's', 'x']);
    assert("ppt"@ =~= seq!['p', 'p', 't']);
    assert("pptx"@ =~= seq!['p', 'p', 't', 'x']);
    assert("txt"@ =~= seq!['t', 'x', 't']);
    assert("csv"@ =~= seq!['c', 's', 'v']);
    assert("rtf"@ =~= seq!['r', 't', 'f']);
    assert("odt"@ =~= seq!['o', 'd', 't']);
    assert("ods"@ =~= seq!['o', 'd', 's']);
    assert("odp"@ =~= seq!['o', 'd', 'p']);
    assert("jpg"@ =~= seq!['j', 'p', 'g']);
    assert("jpeg"@ =~= seq!['j', 'p', 'e', 'g']);
    assert("png"@ =~= seq!['p', 'n', 'g']);
    assert("gif"@ =~= seq!['g', 'i', 'f']);
    assert("bmp"@ =~= seq!['b', 'm', 'p']);
    assert("svg"@ =~= seq!['s', 'v', 'g']);
    assert("webp"@ =~= seq!['w', 'e', 'b', 'p']);
    assert("ico"@ =~= seq!['i', 'c', 'o']);
    assert("tiff"@ =~= seq!['t', 'i', 'f', 'f']);
    assert("tif"@ =~= seq!['t', 'i', 'f']);
    assert("raw"@ =~= seq!['r', 'a', 'w']);
    assert("psd"@ =~= seq!['p', 's', 'd']);
    assert("ai"@ =~= seq!['a', 'i']);
    assert("mp4"@ =~= seq!['m', 'p', '4']);
    assert("avi"@ =~= seq!['a', 'v', 'i']);
    assert("mkv"@ =~= seq!['m', 'k', 'v']);
    assert("mov"@ =~= seq!['m', 'o', 'v']);
    assert("wmv"@ =~= seq!['w', 'm', 'v']);
    assert("flv"@ =~= seq!['f', 'l', 'v']);
    assert("webm"@ =~= seq!['w', 'e', 'b', 'm']);
    assert("m4v"@ =~= seq!['m', '4', 'v']);
    assert("3gp"@ =~= seq!['3', 'g', 'p']);
    assert("mp3"@ =~= seq!['m', 'p', '3']);
    assert("wav"@ =~= seq!['w', 'a', 'v']);
    assert("flac"@ =~= seq!['f', 'l', 'a', 'c']);
    assert("aac"@ =~= seq!['a', 'a', 'c']);
    assert("ogg"@ =~= seq!['o', 'g', 'g']);
    assert("wma"@ =~= seq!['w', 'm', 'a']);
    assert("m4a"@ =~= seq!['m', '4', 'a']);
    assert("opus"@ =~= seq!['o', 'p', 'u', 's']);
    assert("zip"@ =~= seq!['z', 'i', 'p']);
    assert("rar"@ =~= seq!['r', 'a', 'r']);
    assert("7z"@ =~= seq!['7', 'z']);
    assert("tar"@ =~= seq!['t', 'a', 'r']);
    assert("gz"@ =~= seq!['g', 'z']);
    assert("bz2"@ =~= seq!['b', 'z', '2']);
    assert("xz"@ =~= seq!['x', 'z']);
    assert("iso"@ =~= seq!['i', 's', 'o']);
    assert("cab"@ =~= seq!['c', 'a', 'b']);
}

/// The lowercase extensions of the table whose kind is `Executable`.
proof fn lemma_kinds_executable()
    ensures
        category_of_lowercase("exe"@) == FileCategory::Executable,
        category_of_lowercase("msi"@) == FileCategory::Executable,
        category_of_lowercase("bat"@) == FileCategory::Executable,
        category_of_lowercase("cmd"@) == FileCategory::Executable,
        category_of_lowercase("ps1"@) == FileCategory::Executable,
        category_of_lowercase("com"@) == FileCategory::Executable,
        category_of_lowercase("scr"@) == FileCategory::Executable,
{
    reveal_strlit("pdf");
    reveal_strlit("doc");
    reveal_strlit("docx");
    reveal_strlit("xls");
    reveal_strlit("xlsx");
    reveal_strlit("ppt");
    reveal_strlit("pptx");
    reveal_strlit("txt");
    reveal_strlit("csv");
    reveal_strlit("rtf");
    reveal_strlit("odt");
    reveal_strlit("ods");
    reveal_strlit("odp");
    reveal_strlit("jpg");
    reveal_strlit("jpeg");
    reveal_strlit("png");
    reveal_strlit("gif");
    reveal_strlit("bmp");
    reveal_strlit("svg");
    reveal_strlit("webp");
    reveal_strlit("ico");
    reveal_strlit("tiff");
    reveal_strlit("tif");
    reveal_strlit("raw");
    reveal_strlit("psd");
    reveal_strlit("ai");
    reveal_strlit("mp4");
    reveal_strlit("avi");
    reveal_strlit("mkv");
    reveal_strlit("mov");
    reveal_strlit("wmv");
    reveal_strlit("flv");
    reveal_strlit("webm");
    reveal_strlit("m4v");
    reveal_strlit("3gp");
    reveal_strlit("mp3");
    reveal_strlit("wav");
    reveal_strlit("flac");
    reveal_strlit("aac");
    reveal_strlit("ogg");
    reveal_strlit("wma");
    reveal_strlit("m4a");
    reveal_strlit("opus");
    reveal_strlit("zip");
    reveal_strlit("rar");
    reveal_strlit("7z");
    reveal_strlit("tar");
    reveal_strlit("gz");
    reveal_strlit("bz2");
    reveal_strlit("xz");
    reveal_strlit("iso");
    reveal_strlit("cab");
    reveal_strlit("exe");
    reveal_strlit("msi");
    reveal_strlit("bat");
    reveal_strlit("cmd");
    reveal_strlit("ps1");
    reveal_strlit("com");
    reveal_strlit("scr");
    assert("pdf"@ =~= seq!['p', 'd', 'f']);
    assert("doc"@ =~= seq!['d', 'o', 'c']);
    assert("docx"@ =~= seq!['d', 'o', 'c', 'x']);
    assert("xls"@ =~= seq!['x', 'l', 's']);
    assert("xlsx"@ =~= seq!['x', 'l', 's', 'x']);
    assert("ppt"@ =~= seq!['p', 'p', 't']);
    assert("pptx"@ =~= seq!['p', 'p', 't', 'x']);
    assert("txt"@ =~= seq!['t', 'x', 't']);
    assert("csv"@ =~= seq!['c', 's', 'v']);
    assert("rtf"@ =~= seq!['r', 't', 'f']);
    assert("odt"@ =~= seq!['o', 'd', 't']);
    assert("ods"@ =~= seq!['o', 'd', 's']);
    assert("odp"@ =~= seq!['o', 'd', 'p']);
    assert("jpg"@ =~= seq!['j', 'p', 'g']);
    assert("jpeg"@ =~= seq!['j', 'p', 'e', 'g']);
    assert("png"@ =~= seq!['p', 'n', 'g']);
    assert("gif"@ =~= seq!['g', 'i', 'f']);
    assert("bmp"@ =~= seq!['b', 'm', 'p']);
    assert("svg"@ =~= seq!['s', 'v', 'g']);
    assert("webp"@ =~= seq!['w', 'e', 'b', 'p']);
    assert("ico"@ =~= seq!['i', 'c', 'o']);
    assert("tiff"@ =~= seq!['t', 'i', 'f', 'f']);
    assert("tif"@ =~= seq!['t', 'i', 'f']);
    assert("raw"@ =~= seq!['r', 'a', 'w']);
    assert("psd"@ =~= seq!['p', 's', 'd']);
    assert("ai"@ =~= seq!['a', 'i']);
    assert("mp4"@ =~= seq!['m', 'p', '4']);
    assert("avi"@ =~= seq!['a', 'v', 'i']);
    assert("mkv"@ =~= seq!['m', 'k', 'v']);
    assert("mov"@ =~= seq!['m', 'o', 'v']);
    assert("wmv"@ =~= seq!['w', 'm', 'v']);
    assert("flv"@ =~= seq!['f', 'l', 'v']);
    assert("webm"@ =~= seq!['w', 'e', 'b', 'm']);
    assert("m4v"@ =~= seq!['m', '4', 'v']);
    assert("3gp"@ =~= seq!['3', 'g', 'p']);
    assert("mp3"@ =~= seq!['m', 'p', '3']);
    assert("wav"@ =~= seq!['w', 'a', 'v']);
    assert("flac"@ =~= seq!['f', 'l', 'a', 'c']);
    assert("aac"@ =~= seq!['a', 'a', 'c']);
    assert("ogg"@ =~= seq!['o', 'g', 'g']);
    assert("wma"@ =~= seq!['w', 'm', 'a']);
    assert("m4a"@ =~= seq!['m', '4', 'a']);
    assert("opus"@ =~= seq!['o', 'p', 'u', 's']);
    assert("zip"@ =~= seq!['z', 'i', 'p']);
    assert("rar"@ =~= seq!['r', 'a', 'r']);
    assert("7z"@ =~= seq!['7', 'z']);
    assert("tar"@ =~= seq!['t', 'a', 'r']);
    assert("gz"@ =~= seq!['g', 'z']);
    assert("bz2"@ =~= seq!['b', 'z', '2']);
    assert("xz"@ =~= seq!['x', 'z']);
    assert("iso"@ =~= seq!['i', 's', 'o']);
    assert("cab"@ =~= seq!['c', 'a', 'b']);
    assert("exe"@ =~= seq!['e', 'x', 'e']);
    assert("msi"@ =~= seq!['m', 's', 'i']);
    assert("bat"@ =~= seq!['b', 'a', 't']);
    assert("cmd"@ =~= seq!['c', 'm', 'd']);
    assert("ps1"@ =~= seq!['p', 's', '1']);
    assert("com"@ =~= seq!['c', 'o', 'm']);
    assert("scr"@ =~= seq!['s', 'c', 'r']);
}

/// The lowercase extensions of the table whose kind is `Code`.
proof fn lemma_kinds_code()
    ensures
        category_of_lowercase("rs"@) == FileCategory::Code,
        category_of_lowercase("py"@) == FileCategory::Code,
        category_of_lowercase("js"@) == FileCategory::Code,
        category_of_lowercase("ts"@) == FileCategory::Code,
        category_of_lowercase("html"@) == FileCategory::Code,
        category_of_lowercase("css"@) == FileCategory::Code,
        category_of_lowercase("java"@) == FileCategory::Code,
        category_of_lowercase("cpp"@) == FileCategory::Code,
        category_of_lowercase("c"@) == FileCategory::Code,
        category_of_lowercase("h"@) == FileCategory::Code,
        category_of_lowercase("hpp"@) == FileCategory::Code,
        category_of_lowercase("go"@) == FileCategory::Code,
        category_of_lowercase("rb"@) == FileCategory::Code,
        category_of_lowercase("php"@) == FileCategory::Code,
        category_of_lowercase("swift"@) == FileCategory::Code,
        category_of_lowercase("kt"@) == FileCategory::Code,
        category_of_lowercase("scala"@) == FileCategory::Code,
        category_of_lowercase("lua"@) == FileCategory::Code,
        category_of_lowercase("sh"@) == FileCategory::Code,
        category_of_lowercase("json"@) == FileCategory::Code,
        category_of_lowercase("xml"@) == FileCategory::Code,
        category_of_lowercase("yaml"@) == FileCategory::Code,
        category_of_lowercase("yml"@) == FileCategory::Code,
        category_of_lowercase("toml"@) == FileCategory::Code,
        category_of_lowercase("md"@) == FileCategory::Code,
        category_of_lowercase("sql"@) == FileCategory::Code,
{
    reveal_strlit("pdf");
    reveal_strlit("doc");
    reveal_strlit("docx");
    reveal_strlit("xls");
    reveal_strlit("xlsx");
    reveal_strlit("ppt");
    reveal_strlit("pptx");
    reveal_strlit("txt");
    reveal_strlit("csv");
    reveal_strlit("rtf");
    reveal_strlit("odt");
    reveal_strlit("ods");
    reveal_strlit("odp");
    reveal_strlit("jpg");
    reveal_strlit("jpeg");
    reveal_strlit("png");
    reveal_strlit("gif");
    reveal_strlit("bmp");
    reveal_strlit("svg");
    reveal_strlit("webp");
    reveal_strlit("ico");
    reveal_strlit("tiff");
    reveal_strlit("tif");
    reveal_strlit("raw");
    reveal_strlit("psd");
    reveal_strlit("ai");
    reveal_strlit("mp4");
    reveal_strlit("avi");
    reveal_strlit("mkv");
    reveal_strlit("mov");
    reveal_strlit("wmv");
    reveal_strlit("flv");
    reveal_strlit("webm");
    reveal_strlit("m4v");
    reveal_strlit("3gp");
    reveal_strlit("mp3");
    reveal_strlit("wav");
    reveal_strlit("flac");
    reveal_strlit("aac");
    reveal_strlit("ogg");
    reveal_strlit("wma");
    reveal_strlit("m4a");
    reveal_strlit("opus");
    reveal_strlit("zip");
    reveal_strlit("rar");
    reveal_strlit("7z");
    reveal_strlit("tar");
    reveal_strlit("gz");
    reveal_strlit("bz2");
    reveal_strlit("xz");
    reveal_strlit("iso");
    reveal_strlit("cab");
    reveal_strlit("exe");
    reveal_strlit("msi");
    reveal_strlit("bat");
    reveal_strlit("cmd");
    reveal_strlit("ps1");
    reveal_strlit("com");
    reveal_strlit("scr");
    reveal_strlit("rs");
    reveal_strlit("py");
    reveal_strlit("js");
    reveal_strlit("ts");
    reveal_strlit("html");
    reveal_strlit("css");
    reveal_strlit("java");
    reveal_strlit("cpp");
    reveal_strlit("c");
    reveal_strlit("h");
    reveal_strlit("hpp");
    reveal_strlit("go");
    reveal_strlit("rb");
    reveal_strlit("php");
    reveal_strlit("swift");
    reveal_strlit("kt");
    reveal_strlit("scala");
    reveal_strlit("lua");
    reveal_strlit("sh");
    reveal_strlit("json");
    reveal_strlit("xml");
    reveal_strlit("yaml");
    reveal_strlit("yml");
    reveal_strlit("toml");
    reveal_strlit("md");
    reveal_strlit("sql");
    assert("pdf"@ =~= seq!['p', 'd', 'f']);
    assert("doc"@ =~= seq!['d', 'o', 'c']);
    assert("docx"@ =~= seq!['d', 'o', 'c', 'x']);
    assert("xls"@ =~= seq!['x', 'l', 's']);
    assert("xlsx"@ =~= seq!['x', 'l', 's', 'x']);
    assert("ppt"@ =~= seq!['p', 'p', 't']);
    assert("pptx"@ =~= seq!['p', 'p', 't', 'x']);
    assert("txt"@ =~= seq!['t', 'x', 't']);
    assert("csv"@ =~= seq!['c', 's', 'v']);
    assert("rtf"@ =~= seq!['r', 't', 'f']);
    assert("odt"@ =~= seq!['o', 'd', 't']);
    assert("ods"@ =~= seq!['o', 'd', 's']);
    assert("odp"@ =~= seq!['o', 'd', 'p']);
    assert("jpg"@ =~= seq!['j', 'p', 'g']);
    assert("jpeg"@ =~= seq!['j', 'p', 'e', 'g']);
    assert("png"@ =~= seq!['p', 'n', 'g']);
    assert("gif"@ =~= seq!['g', 'i', 'f']);
    assert("bmp"@ =~= seq!['b', 'm', 'p']);
    assert("svg"@ =~= seq!['s', 'v', 'g']);
    assert("webp"@ =~= seq!['w', 'e', 'b', 'p']);
    assert("ico"@ =~= seq!['i', 'c', 'o']);
    assert("tiff"@ =~= seq!['t', 'i', 'f', 'f']);
    assert("tif"@ =~= seq!['t', 'i', 'f']);
    assert("raw"@ =~= seq!['r', 'a', 'w']);
    assert("psd"@ =~= seq!['p', 's', 'd']);
    assert("ai"@ =~= seq!['a', 'i']);
    assert("mp4"@ =~= seq!['m', 'p', '4']);
    assert("avi"@ =~= seq!['a', 'v', 'i']);
    assert("mkv"@ =~= seq!['m', 'k', 'v']);
    assert("mov"@ =~= seq!['m', 'o', 'v']);
    assert("wmv"@ =~= seq!['w', 'm', 'v']);
    assert("flv"@ =~= seq!['f', 'l', 'v']);
    assert("webm"@ =~= seq!['w', 'e', 'b', 'm']);
    assert("m4v"@ =~= seq!['m', '4', 'v']);
    assert("3gp"@ =~= seq!['3', 'g', 'p']);
    assert("mp3"@ =~= seq!['m', 'p', '3']);
    assert("wav"@ =~= seq!['w', 'a', 'v']);
    assert("flac"@ =~= seq!['f', 'l', 'a', 'c']);
    assert("aac"@ =~= seq!['a', 'a', 'c']);
    assert("ogg"@ =~= seq!['o', 'g', 'g']);
    assert("wma"@ =~= seq!['w', 'm', 'a']);
    assert("m4a"@ =~= seq!['m', '4', 'a']);
    assert("opus"@ =~= seq!['o', 'p', 'u', 's']);
    assert("zip"@ =~= seq!['z', 'i', 'p']);
    assert("rar"@ =~= seq!['r', 'a', 'r']);
    assert("7z"@ =~= seq!['7', 'z']);
    assert("tar"@ =~= seq!['t', 'a', 'r']);
    assert("gz"@ =~= seq!['g', 'z']);
    assert("bz2"@ =~= seq!['b', 'z', '2']);
    assert("xz"@ =~= seq!['x', 'z']);
    assert("iso"@ =~= seq!['i', 's', 'o']);
    assert("cab"@ =~= seq!['c', 'a', 'b']);
    assert("exe"@ =~= seq!['e', 'x', 'e']);
    assert("msi"@ =~= seq!['m', 's', 'i']);
    assert("bat"@ =~= seq!['b', 'a', 't']);
    assert("cmd"@ =~= seq!['c', 'm', 'd']);
    assert("ps1"@ =~= seq!['p', 's', '1']);
    assert("com"@ =~= seq!['c', 'o', 'm']);
    assert("scr"@ =~= seq!['s', 'c', 'r']);
    assert("rs"@ =~= seq!['r', 's']);
    assert("py"@ =~= seq!['p', 'y']);
    assert("js"@ =~= seq!['j', 's']);
    assert("ts"@ =~= seq!['t', 's']);
    assert("html"@ =~= seq!['h', 't', 'm', 'l']);
    assert("css"@ =~= seq!['c', 's', 's']);
    assert("java"@ =~= seq!['j', 'a', 'v', 'a']);
    assert("cpp"@ =~= seq!['c', 'p', 'p']);
    assert("c"@ =~= seq!['c']);
    assert("h"@ =~= seq!['h']);
    assert("hpp"@ =~= seq!['h', 'p', 'p']);
    assert("go"@ =~= seq!['g', 'o']);
    assert("rb"@ =~= seq!['r', 'b']);
    assert("php"@ =~= seq!['p', 'h', 'p']);
    assert("swift"@ =~= seq!['s', 'w', 'i', 'f', 't']);
    assert("kt"@ =~= seq!['k', 't']);
    assert("scala"@ =~= seq!['s', 'c', 'a', 'l', 'a']);
    assert("lua"@ =~= seq!['l', 'u', 'a']);
    assert("sh"@ =~= seq!['s', 'h']);
    assert("json"@ =~= seq!['j', 's', 'o', 'n']);
    assert("xml"@ =~= seq!['x', 'm', 'l']);
    assert("yaml"@ =~= seq!['y', 'a', 'm', 'l']);
    assert("yml"@ =~= seq!['y', 'm', 'l']);
    assert("toml"@ =~= seq!['t', 'o', 'm', 'l']);
    assert("md"@ =~= seq!['m', 'd']);
    assert("sql"@ =~= seq!['s', 'q', 'l']);
}

/// The kinds of the extensions files are sorted by: each extension of the table, written
/// in any mix of upper and lower case, gives its kind (`photo.JPG` is an image, `song.mp3`
/// audio, `main.rs` code, and so on).
pub proof fn lemma_extension_kinds(ext: Seq<char>)
    ensures
        lowercase(ext) == "pdf"@ ==> category_of_extension(ext) == FileCategory::Document,
        lowercase(ext) == "doc"@ ==> category_of_extension(ext) == FileCategory::Document,
        lowercase(ext) == "docx"@ ==> category_of_extension(ext) == FileCategory::Document,
        lowercase(ext) == "xls"@ ==> category_of_extension(ext) == FileCategory::Document,
        lowercase(ext) == "xlsx"@ ==> category_of_extension(ext) == FileCategory::Document,
        lowercase(ext) == "ppt"@ ==> category_of_extension(ext) == FileCategory::Document,
        lowercase(ext) == "pptx"@ ==> category_of_extension(ext) == FileCategory::Document,
        lowercase(ext) == "txt"@ ==> category_of_extension(ext) == FileCategory::Document,
        lowercase(ext) == "csv"@ ==> category_of_extension(ext) == FileCategory::Document,
        lowercase(ext) == "rtf"@ ==> category_of_extension(ext) == FileCategory::Document,
        lowercase(ext) == "odt"@ ==> category_of_extension(ext) == FileCategory::Document,
        lowercase(ext) == "ods"@ ==> category_of_extension(ext) == FileCategory::Document,
        lowercase(ext) == "odp"@ ==> category_of_extension(ext) == FileCategory::Document,
        lowercase(ext) == "jpg"@ ==> category_of_extension(ext) == FileCategory::Image,
        lowercase(ext) == "jpeg"@ ==> category_of_extension(ext) == FileCategory::Image,
        lowercase(ext) == "png"@ ==> category_of_extension(ext) == FileCategory::Image,
        lowercase(ext) == "gif"@ ==> category_of_extension(ext) == FileCategory::Image,
        lowercase(ext) == "bmp"@ ==> category_of_extension(ext) == FileCategory::Image,
        lowercase(ext) == "svg"@ ==> category_of_extension(ext) == FileCategory::Image,
        lowercase(ext) == "webp"@ ==> category_of_extension(ext) == FileCategory::Image,
        lowercase(ext) == "ico"@ ==> category_of_extension(ext) == FileCategory::Image,
        lowercase(ext) == "tiff"@ ==> category_of_extension(ext) == FileCategory::Image,
        lowercase(ext) == "tif"@ ==> category_of_extension(ext) == FileCategory::Image,
        lowercase(ext) == "raw"@ ==> category_of_extension(ext) == FileCategory::Image,
        lowercase(ext) == "psd"@ ==> category_of_extension(ext) == FileCategory::Image,
        lowercase(ext) == "ai"@ ==> category_of_extension(ext) == FileCategory::Image,
        lowercase(ext) == "mp4"@ ==> category_of_extension(ext) == FileCategory::Video,
        lowercase(ext) == "avi"@ ==> category_of_extension(ext) == FileCategory::Video,
        lowercase(ext) == "mkv"@ ==> category_of_extension(ext) == FileCategory::Video,
        lowercase(ext) == "mov"@ ==> category_of_extension(ext) == FileCategory::Video,
        lowercase(ext) == "wmv"@ ==> category_of_extension(ext) == FileCategory::Video,
        lowercase(ext) == "flv"@ ==> category_of_extension(ext) == FileCategory::Video,
        lowercase(ext) == "webm"@ ==> category_of_extension(ext) == FileCategory::Video,
        lowercase(ext) == "m4v"@ ==> category_of_extension(ext) == FileCategory::Video,
        lowercase(ext) == "3gp"@ ==> category_of_extension(ext) == FileCategory::Video,
        lowercase(ext) == "mp3"@ ==> category_of_extension(ext) == FileCategory::Audio,
        lowercase(ext) == "wav"@ ==> category_of_extension(ext) == FileCategory::Audio,
        lowercase(ext) == "flac"@ ==> category_of_extension(ext) == FileCategory::Audio,
        lowercase(ext) == "aac"@ ==> category_of_extension(ext) == FileCategory::Audio,
        lowercase(ext) == "ogg"@ ==> category_of_extension(ext) == FileCategory::Audio,
        lowercase(ext) == "wma"@ ==> category_of_extension(ext) == FileCategory::Audio,
        lowercase(ext) == "m4a"@ ==> category_of_extension(ext) == FileCategory::Audio,
        lowercase(ext) == "opus"@ ==> category_of_extension(ext) == FileCategory::Audio,
        lowercase(ext) == "zip"@ ==> category_of_extension(ext) == FileCategory::Archive,
        lowercase(ext) == "rar"@ ==> category_of_extension(ext) == FileCategory::Archive,
        lowercase(ext) == "7z"@ ==> category_of_extension(ext) == FileCategory::Archive,
        lowercase(ext) == "tar"@ ==> category_of_extension(ext) == FileCategory::Archive,
        lowercase(ext) == "gz"@ ==> category_of_extension(ext) == FileCategory::Archive,
        lowercase(ext) == "bz2"@ ==> category_of_extension(ext) == FileCategory::Archive,
        lowercase(ext) == "xz"@ ==> category_of_extension(ext) == FileCategory::Archive,
        lowercase(ext) == "iso"@ ==> category_of_extension(ext) == FileCategory::Archive,
        lowercase(ext) == "cab"@ ==> category_of_extension(ext) == FileCategory::Archive,
        lowercase(ext) == "exe"@ ==> category_of_extension(ext) == FileCategory::Executable,
        lowercase(ext) == "msi"@ ==> category_of_extension(ext) == FileCategory::Executable,
        lowercase(ext) == "bat"@ ==> category_of_extension(ext) == FileCategory::Executable,
        lowercase(ext) == "cmd"@ ==> category_of_extension(ext) == FileCategory::Executable,
        lowercase(ext) == "ps1"@ ==> category_of_extension(ext) == FileCategory::Executable,
        lowercase(ext) == "com"@ ==> category_of_extension(ext) == FileCategory::Executable,
        lowercase(ext) == "scr"@ ==> category_of_extension(ext) == FileCategory::Executable,
        lowercase(ext) == "rs"@ ==> category_of_extension(ext) == FileCategory::Code,
        lowercase(ext) == "py"@ ==> category_of_extension(ext) == FileCategory::Code,
        lowercase(ext) == "js"@ ==> category_of_extension(ext) == FileCategory::Code,
        lowercase(ext) == "ts"@ ==> category_of_extension(ext) == FileCategory::Code,
        lowercase(ext) == "html"@ ==> category_of_extension(ext) == FileCategory::Code,
        lowercase(ext) == "css"@ ==> category_of_extension(ext) == FileCategory::Code,
        lowercase(ext) == "java"@ ==> category_of_extension(ext) == FileCategory::Code,
        lowercase(ext) == "cpp"@ ==> category_of_extension(ext) == FileCategory::Code,
        lowercase(ext) == "c"@ ==> category_of_extension(ext) == FileCategory::Code,
        lowercase(ext) == "h"@ ==> category_of_extension(ext) == FileCategory::Code,
        lowercase(ext) == "hpp"@ ==> category_of_extension(ext) == FileCategory::Code,
        lowercase(ext) == "go"@ ==> category_of_extension(ext) == FileCategory::Code,
        lowercase(ext) == "rb"@ ==> category_of_extension(ext) == FileCategory::Code,
        lowercase(ext) == "php"@ ==> category_of_extension(ext) == FileCategory::Code,
        lowercase(ext) == "swift"@ ==> category_of_extension(ext) == FileCategory::Code,
        lowercase(ext) == "kt"@ ==> category_of_extension(ext) == FileCategory::Code,
        lowercase(ext) == "scala"@ ==> category_of_extension(ext) == FileCategory::Code,
        lowercase(ext) == "lua"@ ==> category_of_extension(ext) == FileCategory::Code,
        lowercase(ext) == "sh"@ ==> category_of_extension(ext) == FileCategory::Code,
        lowercase(ext) == "json"@ ==> category_of_extension(ext) == FileCategory::Code,
        lowercase(ext) == "xml"@ ==> category_of_extension(ext) == FileCategory::Code,
        lowercase(ext) == "yaml"@ ==> category_of_extension(ext) == FileCategory::Code,
        lowercase(ext) == "yml"@ ==> category_of_extension(ext) == FileCategory::Code,
        lowercase(ext) == "toml"@ ==> category_of_extension(ext) == FileCategory::Code,
        lowercase(ext) == "md"@ ==> category_of_extension(ext) == FileCategory::Code,
        lowercase(ext) == "sql"@ ==> category_of_extension(ext) == FileCategory::Code,
{
    lemma_kinds_document();
    lemma_kinds_image();
    lemma_kinds_video();
    lemma_kinds_audio();
    lemma_kinds_archive();
    lemma_kinds_executable();
    lemma_kinds_code();
}

/// Classifies a file by its extension (given without the dot), ignoring case.
pub fn get_category_from_extension(ext: &str) -> (r: FileCategory)
    ensures
        r == category_of_extension(ext@),
{
    let lower = to_lowercase(ext);
    let l = chars_of(lower.as_str());
    if eq_lit(&l, "pdf") || eq_lit(&l, "doc") || eq_lit(&l, "docx") || eq_lit(&l, "xls")
        || eq_lit(&l, "xlsx") || eq_lit(&l, "ppt") || eq_lit(&l, "pptx") || eq_lit(&l, "txt")
        || eq_lit(&l, "csv") || eq_lit(&l, "rtf") || eq_lit(&l, "odt") || eq_lit(&l, "ods")
        || eq_lit(&l, "odp") {
        FileCategory::Document
    } else if eq_lit(&l, "jpg") || eq_lit(&l, "jpeg") || eq_lit(&l, "png") || eq_lit(&l, "gif")
        || eq_lit(&l, "bmp") || eq_lit(&l, "svg") || eq_lit(&l, "webp") || eq_lit(&l, "ico")
        || eq_lit(&l, "tiff") || eq_lit(&l, "tif") || eq_lit(&l, "raw") || eq_lit(&l, "psd")
        || eq_lit(&l, "ai") {
        FileCategory::Image
    } else if eq_lit(&l, "mp4") || eq_lit(&l, "avi") || eq_lit(&l, "mkv") || eq_lit(&l, "mov")
        || eq_lit(&l, "wmv") || eq_lit(&l, "flv") || eq_lit(&l, "webm") || eq_lit(&l, "m4v")
        || eq_lit(&l, "3gp") {
        FileCategory::Video
    } else if eq_lit(&l, "mp3") || eq_lit(&l, "wav") || eq_lit(&l, "flac") || eq_lit(&l, "aac")
        || eq_lit(&l, "ogg") || eq_lit(&l, "wma") || eq_lit(&l, "m4a") || eq_lit(&l, "opus") {
        FileCategory::Audio
    } else if eq_lit(&l, "zip") || eq_lit(&l, "rar") || eq_lit(&l, "7z") || eq_lit(&l, "tar")
        || eq_lit(&l, "gz") || eq_lit(&l, "bz2") || eq_lit(&l, "xz") || eq_lit(&l, "iso")
        || eq_lit(&l, "cab") {
        FileCategory::Archive
    } else if eq_lit(&l, "exe") || eq_lit(&l, "msi") || eq_lit(&l, "bat") || eq_lit(&l, "cmd")
        || eq_lit(&l, "ps1") || eq_lit(&l, "com") || eq_lit(&l, "scr") {
        FileCategory::Executable
    } else if eq_lit(&l, "rs") || eq_lit(&l, "py") || eq_lit(&l, "js") || eq_lit(&l, "ts")
        || eq_lit(&l, "html") || eq_lit(&l, "css") || eq_lit(&l, "java") || eq_lit(&l, "cpp")
        || eq_lit(&l, "c") || eq_lit(&l, "h") || eq_lit(&l, "hpp") || eq_lit(&l, "go")
        || eq_lit(&l, "rb") || eq_lit(&l, "php") || eq_lit(&l, "swift") || eq_lit(&l, "kt")
        || eq_lit(&l, "scala") || eq_lit(&l, "lua") || eq_lit(&l, "sh") || eq_lit(&l, "json")
        || eq_lit(&l, "xml") || eq_lit(&l, "yaml") || eq_lit(&l, "yml") || eq_lit(&l, "toml")
        || eq_lit(&l, "md") || eq_lit(&l, "sql") {
        FileCategory::Code
    } else {
        FileCategory::Other
    }
}

/// A file or folder found by a scan, with its subtree.
#[derive(Debug)]
pub struct FileEntry {
    pub name: String,
    /// The components of the entry's path, from the root down to its own name.
    pub path: Vec<String>,
    pub is_dir: bool,
    pub size: u64,
    /// Creation time, in nanoseconds since the Unix epoch (negative before it), where known.
    pub created: Option<i64>,
    /// Last modification time, in nanoseconds since the Unix epoch (negative before it), where known.
    pub modified: Option<i64>,
    /// Last access time, in nanoseconds since the Unix epoch (negative before it), where known.
    pub accessed: Option<i64>,
    pub selected: bool,
    pub expanded: bool,
    pub children: Vec<FileEntry>,
    pub category: FileCategory,
}

/// What is needed to build a `FileEntry`.
pub struct FileEntryParams {
    pub name: String,
    pub path: Vec<String>,
    pub is_dir: bool,
    pub size: u64,
    pub created: Option<i64>,
    pub modified: Option<i64>,
    pub accessed: Option<i64>,
    /// The extension of a file, without the dot.
    pub extension: Option<String>,
}

/// The mathematical value of an entry: its strings as character sequences,
/// its path as a sequence of components, and its subtree as a sequence of values.
pub struct EntryView {
    pub name: Seq<char>,
    pub path: Seq<Seq<char>>,
    pub is_dir: bool,
    pub size: u64,
    pub created: Option<i64>,
    pub modified: Option<i64>,
    pub accessed: Option<i64>,
    pub selected: bool,
    pub expanded: bool,
    pub children: Seq<EntryView>,
    pub category: FileCategory,
}

/// The components of a path as character sequences.
pub open spec fn path_view(p: Seq<String>) -> Seq<Seq<char>> {
    p.map_values(|c: String| c@)
}

/// The value of an entry.
pub open spec fn entry_view(e: FileEntry) -> EntryView
    decreases e, 1nat,
{
    EntryView {
        name: e.name@,
        path: path_view(e.path@),
        is_dir: e.is_dir,
        size: e.size,
        created: e.created,
        modified: e.modified,
        accessed: e.accessed,
        selected: e.selected,
        expanded: e.expanded,
        children: forest_view(e.children@),
        category: e.category,
    }
}

/// The values of a sequence of entries.
pub open spec fn forest_view(s: Seq<FileEntry>) -> Seq<EntryView>
    decreases s, 0nat,
{
    if s.len() == 0 {
        Seq::empty()
    } else {
        forest_view(s.drop_last()).push(entry_view(s.last()))
    }
}

impl View for FileEntry {
    type V = EntryView;

    open spec fn view(&self) -> EntryView {
        entry_view(*self)
    }
}

/// The values of a sequence of entries, element by element.
pub broadcast proof fn lemma_forest_view(s: Seq<FileEntry>)
    ensures
        #[trigger] forest_view(s).len() == s.len(),
        forall|i: int| 0 <= i < s.len() ==> #[trigger] forest_view(s)[i] == entry_view(s[i]),
    decreases s.len(),
{
    if s.len() > 0 {
        lemma_forest_view(s.drop_last());
    }
}

/// The quantities that are summed over a tree of entries.
pub enum Measure {
    /// Sizes of files; a folder counts what its subtree holds, a file its own size.
    TotalSize,
    /// Number of files; a folder counts what its subtree holds, a file one.
    Files,
    /// Selected files and selected empty folders.
    SelectedCount,
    /// Sizes of the selected files.
    SelectedSize,
    /// Every entry, folders included.
    Entries,
    /// The `size` field of every entry, folders included.
    AllSizes,
}

/// A measure of an entry and its subtree.
pub open spec fn tree_measure(e: EntryView, m: Measure) -> nat
    decreases e, 1nat,
{
    let below = forest_measure(e.children, m);
    match m {
        Measure::TotalSize => if e.is_dir { below } else { e.size as nat },
        Measure::Files => if e.is_dir { below } else { 1 },
        Measure::SelectedCount => (if e.selected && (!e.is_dir || e.children.len() == 0) {
            1nat
        } else {
            0nat
        }) + below,
        Measure::SelectedSize => (if e.selected && !e.is_dir {
            e.size as nat
        } else {
            0nat
        }) + below,
        Measure::Entries => 1 + below,
        Measure::AllSizes => e.size as nat + below,
    }
}

/// A selected entry with nothing below it counts as one selected item, whether a file or an
/// empty folder (so an empty folder can be deleted), and an unselected one as none.
pub proof fn lemma_childless_selected_count(v: EntryView)
    requires
        v.children.len() == 0,
    ensures
        tree_measure(v, Measure::SelectedCount) == (if v.selected { 1nat } else { 0nat }),
{
    assert(forest_measure(v.children, Measure::SelectedCount) == 0);
}

/// A measure summed over a sequence of entries.
pub open spec fn forest_measure(s: Seq<EntryView>, m: Measure) -> nat
    decreases s, 0nat,
{
    if s.len() == 0 {
        0
    } else {
        forest_measure(s.drop_last(), m) + tree_measure(s.last(), m)
    }
}

/// Summing one more element of a sequence adds that element's measure.
pub proof fn lemma_forest_measure_prefix(s: Seq<EntryView>, i: int, m: Measure)
    requires
        0 <= i < s.len(),
    ensures
        forest_measure(s.take(i + 1), m) == forest_measure(s.take(i), m) + tree_measure(s[i], m),
{
    assert(s.take(i + 1).drop_last() =~= s.take(i));
}

/// A prefix of a sequence measures no more than the whole sequence.
pub proof fn lemma_forest_measure_prefix_le(s: Seq<EntryView>, i: int, m: Measure)
    requires
        0 <= i <= s.len(),
    ensures
        forest_measure(s.take(i), m) <= forest_measure(s, m),
    decreases s.len() - i,
{
    if i < s.len() {
        lemma_forest_measure_prefix(s, i, m);
        lemma_forest_measure_prefix_le(s, i + 1, m);
    } else {
        assert(s.take(i) =~= s);
    }
}

/// Each element of a sequence measures no more than the whole sequence.
pub proof fn lemma_forest_measure_elem_le(s: Seq<EntryView>, i: int, m: Measure)
    requires
        0 <= i < s.len(),
    ensures
        tree_measure(s[i], m) <= forest_measure(s, m),
{
    lemma_forest_measure_prefix(s, i, m);
    lemma_forest_measure_prefix_le(s, i + 1, m);
}

/// A measure of a sequence, computed element by element, with the bound the caller gives.
proof fn lemma_forest_measure_step(s: Seq<EntryView>, i: int, m: Measure, acc: int)
    requires
        0 <= i < s.len(),
        acc == forest_measure(s.take(i), m),
    ensures
        acc + tree_measure(s[i], m) == forest_measure(s.take(i + 1), m),
        acc + tree_measure(s[i], m) <= forest_measure(s, m),
{
    lemma_forest_measure_prefix(s, i, m);
    lemma_forest_measure_prefix_le(s, i + 1, m);
}

impl FileEntry {
    /// Builds an entry, unselected and folded, with no children yet; a folder's kind is
    /// `Folder`, a file's is decided by its extension (`Other` when it has none).
    pub fn new(params: FileEntryParams) -> (r: FileEntry)
        ensures
            r.name == params.name,
            r.path == params.path,
            r.is_dir == params.is_dir,
            r.size == params.size,
            r.created == params.created,
            r.modified == params.modified,
            r.accessed == params.accessed,
            !r.selected,
            !r.expanded,
            r.children@.len() == 0,
            r.category == (if params.is_dir {
                FileCategory::Folder
            } else {
                match params.extension {
                    Some(ext) => category_of_extension(ext@),
                    None => FileCategory::Other,
                }
            }),
    {
        let category = if params.is_dir {
            FileCategory::Folder
        } else {
            match &params.extension {
                Some(ext) => get_category_from_extension(ext.as_str()),
                None => FileCategory::Other,
            }
        };
        FileEntry {
            name: params.name,
            path: params.path,
            is_dir: params.is_dir,
            size: params.size,
            created: params.created,
            modified: params.modified,
            accessed: params.accessed,
            selected: false,
            expanded: false,
            children: Vec::new(),
            category,
        }
    }

    /// Size of the entry: a file's own size, or the sum over a folder's subtree.
    pub fn total_size(&self) -> (r: u64)
        requires
            tree_measure(self@, Measure::TotalSize) <= u64::MAX,
        ensures
            r == tree_measure(self@, Measure::TotalSize),
        decreases self@,
    {
        if self.is_dir {
            total_size_in_entries(&self.children)
        } else {
            self.size
        }
    }

    /// Number of files: one for a file, the files of the subtree for a folder.
    pub fn total_files(&self) -> (r: usize)
        requires
            tree_measure(self@, Measure::Files) <= usize::MAX,
        ensures
            r == tree_measure(self@, Measure::Files),
        decreases self@,
    {
        if self.is_dir {
            total_files_in_entries(&self.children)
        } else {
            1
        }
    }

    /// Number of selected files and selected empty folders in the subtree.
    pub fn count_selected(&self) -> (r: usize)
        requires
            tree_measure(self@, Measure::SelectedCount) <= usize::MAX,
        ensures
            r == tree_measure(self@, Measure::SelectedCount),
        decreases self@,
    {
        let own: usize = if self.selected && (!self.is_dir || self.children.len() == 0) {
            1
        } else {
            0
        };
        proof {
            lemma_forest_view(self.children@);
        }
        let below = count_selected_in_entries(&self.children);
        own + below
    }

    /// Total size of the selected files in the subtree.
    pub fn selected_size(&self) -> (r: u64)
        requires
            tree_measure(self@, Measure::SelectedSize) <= u64::MAX,
        ensures
            r == tree_measure(self@, Measure::SelectedSize),
        decreases self@,
    {
        let own: u64 = if self.selected && !self.is_dir {
            self.size
        } else {
            0
        };
        let below = selected_size_in_entries(&self.children);
        own + below
    }
}

/// Sum of `total_size` over the entries.
pub fn total_size_in_entries(entries: &Vec<FileEntry>) -> (r: u64)
    requires
        forest_measure(forest_view(entries@), Measure::TotalSize) <= u64::MAX,
    ensures
        r == forest_measure(forest_view(entries@), Measure::TotalSize),
    decreases forest_view(entries@),
{
    let ghost s = forest_view(entries@);
    proof {
        lemma_forest_view(entries@);
    }
    let mut acc: u64 = 0;
    for i in 0..entries.len()
        invariant
            s == forest_view(entries@),
            s.len() == entries@.len(),
            forall|j: int| 0 <= j < entries@.len() ==> #[trigger] s[j] == entries@[j]@,
            forest_measure(s, Measure::TotalSize) <= u64::MAX,
            acc == forest_measure(s.take(i as int), Measure::TotalSize),
    {
        proof {
            lemma_forest_measure_step(s, i as int, Measure::TotalSize, acc as int);
        }
        acc = acc + entries[i].total_size();
    }
    assert(s.take(s.len() as int) =~= s);
    acc
}

/// Sum of `total_files` over the entries.
pub fn total_files_in_entries(entries: &Vec<FileEntry>) -> (r: usize)
    requires
        forest_measure(forest_view(entries@), Measure::Files) <= usize::MAX,
    ensures
        r == forest_measure(forest_view(entries@), Measure::Files),
    decreases forest_view(entries@),
{
    let ghost s = forest_view(entries@);
    proof {
        lemma_forest_view(entries@);
    }
    let mut acc: usize = 0;
    for i in 0..entries.len()
        invariant
            s == forest_view(entries@),
            s.len() == entries@.len(),
            forall|j: int| 0 <= j < entries@.len() ==> #[trigger] s[j] == entries@[j]@,
            forest_measure(s, Measure::Files) <= usize::MAX,
            acc == forest_measure(s.take(i as int), Measure::Files),
    {
        proof {
            lemma_forest_measure_step(s, i as int, Measure::Files, acc as int);
        }
        acc = acc + entries[i].total_files();
    }
    assert(s.take(s.len() as int) =~= s);
    acc
}

/// Sum of `count_selected` over the entries.
pub fn count_selected_in_entries(entries: &Vec<FileEntry>) -> (r: usize)
    requires
        forest_measure(forest_view(entries@), Measure::SelectedCount) <= usize::MAX,
    ensures
        r == forest_measure(forest_view(entries@), Measure::SelectedCount),
    decreases forest_view(entries@),
{
    let ghost s = forest_view(entries@);
    proof {
        lemma_forest_view(entries@);
    }
    let mut acc: usize = 0;
    for i in 0..entries.len()
        invariant
            s == forest_view(entries@),
            s.len() == entries@.len(),
            forall|j: int| 0 <= j < entries@.len() ==> #[trigger] s[j] == entries@[j]@,
            forest_measure(s, Measure::SelectedCount) <= usize::MAX,
            acc == forest_measure(s.take(i as int), Measure::SelectedCount),
    {
        proof {
            lemma_forest_measure_step(s, i as int, Measure::SelectedCount, acc as int);
        }
        acc = acc + entries[i].count_selected();
    }
    assert(s.take(s.len() as int) =~= s);
    acc
}

/// Sum of `selected_size` over the entries.
pub fn selected_size_in_entries(entries: &Vec<FileEntry>) -> (r: u64)
    requires
        forest_measure(forest_view(entries@), Measure::SelectedSize) <= u64::MAX,
    ensures
        r == forest_measure(forest_view(entries@), Measure::SelectedSize),
    decreases forest_view(entries@),
{
    let ghost s = forest_view(entries@);
    proof {
        lemma_forest_view(entries@);
    }
    let mut acc: u64 = 0;
    for i in 0..entries.len()
        invariant
            s == forest_view(entries@),
            s.len() == entries@.len(),
            forall|j: int| 0 <= j < entries@.len() ==> #[trigger] s[j] == entries@[j]@,
            forest_measure(s, Measure::SelectedSize) <= u64::MAX,
            acc == forest_measure(s.take(i as int), Measure::SelectedSize),
    {
        proof {
            lemma_forest_measure_step(s, i as int, Measure::SelectedSize, acc as int);
        }
        acc = acc + entries[i].selected_size();
    }
    assert(s.take(s.len() as int) =~= s);
    acc
}

/// The entry with every `selected` flag of its subtree, its own included, set to `b`.
pub open spec fn selection_set(v: EntryView, b: bool) -> EntryView
    decreases v, 1nat,
{
    EntryView { selected: b, children: selection_set_forest(v.children, b), ..v }
}

/// `selection_set` applied to each entry of a sequence.
pub open spec fn selection_set_forest(s: Seq<EntryView>, b: bool) -> Seq<EntryView>
    decreases s, 0nat,
{
    if s.len() == 0 {
        s
    } else {
        selection_set_forest(s.drop_last(), b).push(selection_set(s.last(), b))
    }
}

/// `selection_set_forest`, element by element.
pub broadcast proof fn lemma_selection_set_forest(s: Seq<EntryView>, b: bool)
    ensures
        #[trigger] selection_set_forest(s, b).len() == s.len(),
        forall|i: int|
            0 <= i < s.len() ==> #[trigger] selection_set_forest(s, b)[i] == selection_set(s[i], b),
    decreases s.len(),
{
    if s.len() > 0 {
        lemma_selection_set_forest(s.drop_last(), b);
    }
}

impl FileEntry {
    /// Selects (or unselects) the entry and everything below it.
    pub fn set_selected_recursive(&mut self, selected: bool)
        ensures
            final(self)@ == selection_set(old(self)@, selected),
        decreases old(self)@,
    {
        let ghost before = self.children@;
        proof {
            lemma_forest_view(before);
        }
        self.selected = selected;
        let n = self.children.len();
        for i in 0..n
            invariant
                n == before.len(),
                self.children@.len() == n,
                forall|j: int| 0 <= j < n ==> #[trigger] forest_view(before)[j] == before[j]@,
                forest_view(before) == old(self)@.children,
                old(self)@.children.len() == n,
                forall|j: int|
                    0 <= j < i ==> #[trigger] self.children@[j]@ == selection_set(before[j]@, selected),
                forall|j: int| i <= j < n ==> #[trigger] self.children@[j] == before[j],
                self.name == old(self).name,
                self.path == old(self).path,
                self.is_dir == old(self).is_dir,
                self.size == old(self).size,
                self.created == old(self).created,
                self.modified == old(self).modified,
                self.accessed == old(self).accessed,
                self.expanded == old(self).expanded,
                self.category == old(self).category,
                self.selected == selected,
        {
            proof {
                assert(old(self)@.children[i as int] == before[i as int]@);
                assert(decreases_to!(old(self)@ => old(self)@.children[i as int]));
            }
            self.children[i].set_selected_recursive(selected);
        }
        proof {
            lemma_forest_view(self.children@);
            lemma_selection_set_forest(old(self)@.children, selected);
            assert forall|j: int| 0 <= j < n implies forest_view(self.children@)[j]
                == selection_set_forest(old(self)@.children, selected)[j] by {
                assert(self.children@[j]@ == selection_set(before[j]@, selected));
                assert(old(self)@.children[j] == before[j]@);
            }
            assert(forest_view(self.children@) =~= selection_set_forest(old(self)@.children, selected));
        }
    }
}

/// The values of two joined sequences of entries are the joined values.
pub proof fn lemma_forest_view_append(a: Seq<FileEntry>, b: Seq<FileEntry>)
    ensures
        forest_view(a + b) == forest_view(a) + forest_view(b),
{
    lemma_forest_view(a);
    lemma_forest_view(b);
    lemma_forest_view(a + b);
    assert(forest_view(a + b) =~= forest_view(a) + forest_view(b));
}

/// The entries that sorting by kind would move: with `only_selected`, the selected files
/// found anywhere below a folder (or the entry itself, if it is a selected file); without
/// it, the entry itself if it is a file, and nothing for a folder.
pub open spec fn collect_spec(v: EntryView, only_selected: bool) -> Seq<EntryView>
    decreases v, 1nat,
{
    if v.is_dir {
        if only_selected {
            collect_forest(v.children)
        } else {
            Seq::empty()
        }
    } else if !only_selected || v.selected {
        seq![v]
    } else {
        Seq::empty()
    }
}

/// `collect_spec` with `only_selected` over a sequence, joined in order.
pub open spec fn collect_forest(s: Seq<EntryView>) -> Seq<EntryView>
    decreases s, 0nat,
{
    if s.len() == 0 {
        Seq::empty()
    } else {
        collect_forest(s.drop_last()) + collect_spec(s.last(), true)
    }
}

impl FileEntry {
    /// A deep copy of the entry.
    pub fn duplicate(&self) -> (r: FileEntry)
        ensures
            r@ == self@,
        decreases self@,
    {
        let ghost src = self.children@;
        proof {
            lemma_forest_view(src);
        }
        let mut children: Vec<FileEntry> = Vec::new();
        for i in 0..self.children.len()
            invariant
                src == self.children@,
                forest_view(src).len() == src.len(),
                forall|j: int| 0 <= j < src.len() ==> #[trigger] forest_view(src)[j] == src[j]@,
                children@.len() == i,
                forall|j: int| 0 <= j < i ==> #[trigger] children@[j]@ == src[j]@,
        {
            proof {
                assert(decreases_to!(self@ => self@.children[i as int]));
            }
            children.push(self.children[i].duplicate());
        }
        let mut path: Vec<String> = Vec::new();
        for i in 0..self.path.len()
            invariant
                path@.len() == i,
                forall|j: int| 0 <= j < i ==> #[trigger] path@[j]@ == self.path@[j]@,
        {
            path.push(self.path[i].clone());
        }
        let r = FileEntry {
            name: self.name.clone(),
            path,
            is_dir: self.is_dir,
            size: self.size,
            created: self.created,
            modified: self.modified,
            accessed: self.accessed,
            selected: self.selected,
            expanded: self.expanded,
            children,
            category: self.category,
        };
        proof {
            lemma_forest_view(r.children@);
            assert(r.children@.len() == src.len());
            assert forall|j: int| 0 <= j < src.len() implies forest_view(r.children@)[j]
                == forest_view(src)[j] by {
                assert(r.children@[j]@ == src[j]@);
            }
            assert(forest_view(r.children@) =~= forest_view(src));
            assert(path_view(r.path@) =~= path_view(self.path@));
        }
        r
    }

    /// Gathers the entries to sort by kind: with `only_selected`, every selected file in
    /// the subtree; otherwise the entry itself when it is a file.
    pub fn collect_for_sorting(&self, only_selected: bool) -> (r: Vec<FileEntry>)
        ensures
            forest_view(r@) == collect_spec(self@, only_selected),
        decreases self@,
    {
        let mut files: Vec<FileEntry> = Vec::new();
        proof {
            lemma_forest_view(files@);
        }
        if self.is_dir {
            if only_selected {
                let ghost src = self.children@;
                proof {
                    lemma_forest_view(src);
                }
                for i in 0..self.children.len()
                    invariant
                        src == self.children@,
                        forest_view(src) == self@.children,
                        forest_view(src).len() == src.len(),
                        forall|j: int|
                            0 <= j < src.len() ==> #[trigger] forest_view(src)[j] == src[j]@,
                        forest_view(files@) == collect_forest(self@.children.take(i as int)),
                {
                    proof {
                        assert(decreases_to!(self@ => self@.children[i as int]));
                    }
                    let mut more = self.children[i].collect_for_sorting(true);
                    proof {
                        lemma_forest_view_append(files@, more@);
                        assert(self@.children.take(i + 1).drop_last() =~= self@.children.take(
                            i as int,
                        ));
                    }
                    files.append(&mut more);
                }
                proof {
                    assert(self@.children.take(self@.children.len() as int) =~= self@.children);
                }
            }
        } else {
            if !only_selected || self.selected {
                files.push(self.duplicate());
                proof {
                    lemma_forest_view(files@);
                    assert(forest_view(files@) =~= seq![self@]);
                }
            }
        }
        files
    }
}

} // verus!
