//! Kinds of files, told by the extension of the name and shown by colour.

use vstd::prelude::*;
use vstd::string::StringExecFns;
use crate::text::{list_contains, lowercase, lowercase_of, string_views};

verus! {

/// What kind of thing a body of the scene stands for.
#[derive(Debug, Clone, Copy, PartialEq, Eq, Hash, Structural)]
pub enum FileType {
    /// Source code.
    Code,
    /// Pictures.
    Image,
    /// Moving pictures.
    Video,
    /// Text documents; also every file of unknown kind.
    Document,
    /// Structured data.
    Data,
    /// Archives.
    Archive,
    /// A directory.
    Directory,
}

impl Default for FileType {
    fn default() -> (kind: FileType)
        ensures
            kind == FileType::Directory,
    {
        FileType::Directory
    }
}

/// Extensions of source code.
pub open spec fn code_extensions() -> Seq<Seq<char>> {
    seq![
        "rs"@,
        "js"@,
        "ts"@,
        "py"@,
        "go"@,
        "java"@,
        "c"@,
        "cpp"@,
        "h"@,
        "hpp"@,
        "rb"@,
        "php"@,
        "swift"@,
        "kt"@,
        "scala"@,
        "sh"@,
        "bash"@,
        "zsh"@,
        "html"@,
        "css"@,
        "scss"@,
        "sass"@,
        "less"@,
        "vue"@,
        "jsx"@,
        "tsx"@,
    ]
}

/// Extensions of pictures.
pub open spec fn image_extensions() -> Seq<Seq<char>> {
    seq![
        "png"@,
        "jpg"@,
        "jpeg"@,
        "gif"@,
        "bmp"@,
        "svg"@,
        "webp"@,
        "ico"@,
        "tiff"@,
        "heic"@,
    ]
}

/// Extensions of moving pictures.
pub open spec fn video_extensions() -> Seq<Seq<char>> {
    seq!["mp4"@, "mov"@, "avi"@, "mkv"@, "webm"@, "flv"@, "wmv"@, "m4v"@]
}

/// Extensions of text documents.
pub open spec fn document_extensions() -> Seq<Seq<char>> {
    seq!["pdf"@, "doc"@, "docx"@, "txt"@, "rtf"@, "odt"@, "md"@, "markdown"@, "tex"@]
}

/// Extensions of structured data.
pub open spec fn data_extensions() -> Seq<Seq<char>> {
    seq![
        "json"@,
        "xml"@,
        "yaml"@,
        "yml"@,
        "csv"@,
        "toml"@,
        "ini"@,
        "cfg"@,
        "conf"@,
        "sql"@,
        "db"@,
        "sqlite"@,
    ]
}

/// Extensions of archives.
pub open spec fn archive_extensions() -> Seq<Seq<char>> {
    seq!["zip"@, "tar"@, "gz"@, "bz2"@, "xz"@, "7z"@, "rar"@, "dmg"@, "iso"@]
}

/// The kind of a file with the lower-cased extension `ext`: that of the first
/// group that lists the extension, and a document where none does.
pub open spec fn kind_of(ext: Seq<char>) -> FileType {
    if code_extensions().contains(ext) {
        FileType::Code
    } else if image_extensions().contains(ext) {
        FileType::Image
    } else if video_extensions().contains(ext) {
        FileType::Video
    } else if document_extensions().contains(ext) {
        FileType::Document
    } else if data_extensions().contains(ext) {
        FileType::Data
    } else if archive_extensions().contains(ext) {
        FileType::Archive
    } else {
        FileType::Document
    }
}

fn code_list() -> (v: Vec<String>)
    ensures
        string_views(v@) == code_extensions(),
{
    let mut v: Vec<String> = Vec::new();
    v.push(String::from_str("rs"));
    v.push(String::from_str("js"));
    v.push(String::from_str("ts"));
    v.push(String::from_str("py"));
    v.push(String::from_str("go"));
    v.push(String::from_str("java"));
    v.push(String::from_str("c"));
    v.push(String::from_str("cpp"));
    v.push(String::from_str("h"));
    v.push(String::from_str("hpp"));
    v.push(String::from_str("rb"));
    v.push(String::from_str("php"));
    v.push(String::from_str("swift"));
    v.push(String::from_str("kt"));
    v.push(String::from_str("scala"));
    v.push(String::from_str("sh"));
    v.push(String::from_str("bash"));
    v.push(String::from_str("zsh"));
    v.push(String::from_str("html"));
    v.push(String::from_str("css"));
    v.push(String::from_str("scss"));
    v.push(String::from_str("sass"));
    v.push(String::from_str("less"));
    v.push(String::from_str("vue"));
    v.push(String::from_str("jsx"));
    v.push(String::from_str("tsx"));
    assert(string_views(v@) =~= code_extensions());
    v
}

fn image_list() -> (v: Vec<String>)
    ensures
        string_views(v@) == image_extensions(),
{
    let mut v: Vec<String> = Vec::new();
    v.push(String::from_str("png"));
    v.push(String::from_str("jpg"));
    v.push(String::from_str("jpeg"));
    v.push(String::from_str("gif"));
    v.push(String::from_str("bmp"));
    v.push(String::from_str("svg"));
    v.push(String::from_str("webp"));
    v.push(String::from_str("ico"));
    v.push(String::from_str("tiff"));
    v.push(String::from_str("heic"));
    assert(string_views(v@) =~= image_extensions());
    v
}

fn video_list() -> (v: Vec<String>)
    ensures
        string_views(v@) == video_extensions(),
{
    let mut v: Vec<String> = Vec::new();
    v.push(String::from_str("mp4"));
    v.push(String::from_str("mov"));
    v.push(String::from_str("avi"));
    v.push(String::from_str("mkv"));
    v.push(String::from_str("webm"));
    v.push(String::from_str("flv"));
    v.push(String::from_str("wmv"));
    v.push(String::from_str("m4v"));
    assert(string_views(v@) =~= video_extensions());
    v
}

fn document_list() -> (v: Vec<String>)
    ensures
        string_views(v@) == document_extensions(),
{
    let mut v: Vec<String> = Vec::new();
    v.push(String::from_str("pdf"));
    v.push(String::from_str("doc"));
    v.push(String::from_str("docx"));
    v.push(String::from_str("txt"));
    v.push(String::from_str("rtf"));
    v.push(String::from_str("odt"));
    v.push(String::from_str("md"));
    v.push(String::from_str("markdown"));
    v.push(String::from_str("tex"));
    assert(string_views(v@) =~= document_extensions());
    v
}

fn data_list() -> (v: Vec<String>)
    ensures
        string_views(v@) == data_extensions(),
{
    let mut v: Vec<String> = Vec::new();
    v.push(String::from_str("json"));
    v.push(String::from_str("xml"));
    v.push(String::from_str("yaml"));
    v.push(String::from_str("yml"));
    v.push(String::from_str("csv"));
    v.push(String::from_str("toml"));
    v.push(String::from_str("ini"));
    v.push(String::from_str("cfg"));
    v.push(String::from_str("conf"));
    v.push(String::from_str("sql"));
    v.push(String::from_str("db"));
    v.push(String::from_str("sqlite"));
    assert(string_views(v@) =~= data_extensions());
    v
}

fn archive_list() -> (v: Vec<String>)
    ensures
        string_views(v@) == archive_extensions(),
{
    let mut v: Vec<String> = Vec::new();
    v.push(String::from_str("zip"));
    v.push(String::from_str("tar"));
    v.push(String::from_str("gz"));
    v.push(String::from_str("bz2"));
    v.push(String::from_str("xz"));
    v.push(String::from_str("7z"));
    v.push(String::from_str("rar"));
    v.push(String::from_str("dmg"));
    v.push(String::from_str("iso"));
    assert(string_views(v@) =~= archive_extensions());
    v
}

impl FileType {
    /// The colour of the kind, as red, green and blue.
    pub fn color(&self) -> (rgb: (u8, u8, u8))
        ensures
            rgb == match *self {
                FileType::Code => (0x61u8, 0xdau8, 0xfbu8),
                FileType::Image => (0xf5u8, 0x9eu8, 0x0bu8),
                FileType::Video => (0xefu8, 0x44u8, 0x44u8),
                FileType::Document => (0x3bu8, 0x82u8, 0xf6u8),
                FileType::Data => (0x06u8, 0xb6u8, 0xd4u8),
                FileType::Archive => (0x6bu8, 0x72u8, 0x80u8),
                FileType::Directory => (0xffu8, 0xffu8, 0xffu8),
            },
    {
        match self {
            FileType::Code => (0x61, 0xda, 0xfb),
            FileType::Image => (0xf5, 0x9e, 0x0b),
            FileType::Video => (0xef, 0x44, 0x44),
            FileType::Document => (0x3b, 0x82, 0xf6),
            FileType::Data => (0x06, 0xb6, 0xd4),
            FileType::Archive => (0x6b, 0x72, 0x80),
            FileType::Directory => (0xff, 0xff, 0xff),
        }
    }

    /// The kind of a file by the extension of its name, whatever the case of
    /// its letters. A file without an extension is a document.
    pub fn from_extension(ext: Option<&String>) -> (kind: FileType)
        ensures
            kind == match ext {
                Some(e) => kind_of(lowercase_of(e@)),
                None => FileType::Document,
            },
    {
        let lower = match ext {
            Some(e) => lowercase(e),
            None => {
                return FileType::Document;
            },
        };
        if list_contains(&code_list(), &lower) {
            FileType::Code
        } else if list_contains(&image_list(), &lower) {
            FileType::Image
        } else if list_contains(&video_list(), &lower) {
            FileType::Video
        } else if list_contains(&document_list(), &lower) {
            FileType::Document
        } else if list_contains(&data_list(), &lower) {
            FileType::Data
        } else if list_contains(&archive_list(), &lower) {
            FileType::Archive
        } else {
            FileType::Document
        }
    }
}

} // verus!
