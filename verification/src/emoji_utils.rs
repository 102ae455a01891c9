//! Classification of a directory entry: from what the file system reported
//! about a path to the category that decides its icon.

use crate::text::{extension_of, file_extension, is_dot_name, starts_with_dot, str_eq};
use vstd::prelude::*;

verus! {

/// What was learned about one path when it was examined. The library never
/// looks at the file system itself: every decision is taken from this
/// snapshot.
#[derive(Debug)]
pub struct PathInfo {
    /// Final component of the path.
    pub name: String,
    /// Whether the path itself is a symbolic link.
    pub is_symlink: bool,
    /// Whether the path, with links followed, is a directory.
    pub is_dir: bool,
    /// Permission bits of the file, or `None` when its metadata could not
    /// be read.
    pub mode: Option<u32>,
}

/// The kinds of entry that are told apart by icon.
#[derive(Debug, Clone, Copy, PartialEq, Eq, Structural)]
pub enum Category {
    LinkedFolder,
    Link,
    Folder,
    Image,
    Video,
    Audio,
    Archive,
    Code,
    Text,
    Font,
    Document,
    Spreadsheet,
    Presentation,
    Config,
    Executable,
    File,
}

/// Any of the owner, group and other execute bits.
pub const EXECUTE_BITS: u32 = 0o111;

pub open spec fn image_extension(ext: Seq<char>) -> bool {
    ext == "jpg"@ || ext == "jpeg"@ || ext == "png"@ || ext == "gif"@ || ext == "bmp"@ || ext
        == "svg"@ || ext == "webp"@
}

pub open spec fn video_extension(ext: Seq<char>) -> bool {
    ext == "mp4"@ || ext == "avi"@ || ext == "mkv"@ || ext == "mov"@ || ext == "flv"@ || ext
        == "wmv"@ || ext == "webm"@
}

pub open spec fn audio_extension(ext: Seq<char>) -> bool {
    ext == "mp3"@ || ext == "wav"@ || ext == "ogg"@ || ext == "flac"@ || ext == "m4a"@ || ext
        == "aac"@
}

pub open spec fn archive_extension(ext: Seq<char>) -> bool {
    ext == "zip"@ || ext == "tar"@ || ext == "gz"@ || ext == "bz2"@ || ext == "xz"@ || ext
        == "7z"@ || ext == "rar"@
}

pub open spec fn code_extension(ext: Seq<char>) -> bool {
    ext == "py"@ || ext == "js"@ || ext == "html"@ || ext == "css"@ || ext == "cpp"@ || ext
        == "c"@ || ext == "java"@ || ext == "go"@ || ext == "rb"@ || ext == "rs"@ || ext
        == "php"@
}

pub open spec fn text_extension(ext: Seq<char>) -> bool {
    ext == "txt"@ || ext == "md"@ || ext == "rst"@ || ext == "log"@
}

pub open spec fn font_extension(ext: Seq<char>) -> bool {
    ext == "ttf"@ || ext == "otf"@ || ext == "woff"@ || ext == "woff2"@
}

pub open spec fn document_extension(ext: Seq<char>) -> bool {
    ext == "pdf"@
}

pub open spec fn spreadsheet_extension(ext: Seq<char>) -> bool {
    ext == "xls"@ || ext == "xlsx"@ || ext == "csv"@
}

pub open spec fn presentation_extension(ext: Seq<char>) -> bool {
    ext == "ppt"@ || ext == "pptx"@
}

pub open spec fn config_extension(ext: Seq<char>) -> bool {
    ext == "conf"@ || ext == "config"@ || ext == "cfg"@ || ext == "ini"@ || ext == "yaml"@ || ext
        == "yml"@ || ext == "json"@ || ext == "xml"@
}

/// The category an extension stands for, matched letter for letter against
/// the tables above; the first table that holds it wins.
pub open spec fn extension_category(ext: Seq<char>) -> Option<Category> {
    if image_extension(ext) {
        Some(Category::Image)
    } else if video_extension(ext) {
        Some(Category::Video)
    } else if audio_extension(ext) {
        Some(Category::Audio)
    } else if archive_extension(ext) {
        Some(Category::Archive)
    } else if code_extension(ext) {
        Some(Category::Code)
    } else if text_extension(ext) {
        Some(Category::Text)
    } else if font_extension(ext) {
        Some(Category::Font)
    } else if document_extension(ext) {
        Some(Category::Document)
    } else if spreadsheet_extension(ext) {
        Some(Category::Spreadsheet)
    } else if presentation_extension(ext) {
        Some(Category::Presentation)
    } else if config_extension(ext) {
        Some(Category::Config)
    } else {
        None
    }
}

/// The category that the extension of a file name stands for, if it has an
/// extension and the tables know it.
pub open spec fn name_category(name: Seq<char>) -> Option<Category> {
    match extension_of(name) {
        Some(ext) => extension_category(ext),
        None => None,
    }
}

/// Whether permission bits, where they could be read, allow anyone to
/// execute the file.
pub open spec fn executable(mode: Option<u32>) -> bool {
    mode matches Some(bits) && bits & EXECUTE_BITS != 0
}

/// The classification rules, first match first: a link, a directory, a known
/// extension, a dot file, an executable, anything else.
pub open spec fn classify(path: PathInfo) -> Category {
    if path.is_symlink {
        if path.is_dir {
            Category::LinkedFolder
        } else {
            Category::Link
        }
    } else if path.is_dir {
        Category::Folder
    } else if name_category(path.name@) is Some {
        name_category(path.name@).unwrap()
    } else if is_dot_name(path.name@) {
        Category::Config
    } else if executable(path.mode) {
        Category::Executable
    } else {
        Category::File
    }
}

/// The icon of each category.
pub open spec fn glyph(category: Category) -> Seq<char> {
    match category {
        Category::LinkedFolder => "🔗📁"@,
        Category::Link => "🔗"@,
        Category::Folder => "📁"@,
        Category::Image => "🎨"@,
        Category::Video => "🎬"@,
        Category::Audio => "🎧"@,
        Category::Archive => "📦"@,
        Category::Code => "👨‍💻"@,
        Category::Text => "📝"@,
        Category::Font => "🔤"@,
        Category::Document => "📚"@,
        Category::Spreadsheet => "📊"@,
        Category::Presentation => "📽️"@,
        Category::Config => "⚙️"@,
        Category::Executable => "🚀"@,
        Category::File => "📰"@,
    }
}

fn is_image(ext: &str) -> (r: bool)
    ensures
        r == image_extension(ext@),
{
    str_eq(ext, "jpg") || str_eq(ext, "jpeg") || str_eq(ext, "png") || str_eq(ext, "gif")
        || str_eq(ext, "bmp") || str_eq(ext, "svg") || str_eq(ext, "webp")
}

fn is_video(ext: &str) -> (r: bool)
    ensures
        r == video_extension(ext@),
{
    str_eq(ext, "mp4") || str_eq(ext, "avi") || str_eq(ext, "mkv") || str_eq(ext, "mov")
        || str_eq(ext, "flv") || str_eq(ext, "wmv") || str_eq(ext, "webm")
}

fn is_audio(ext: &str) -> (r: bool)
    ensures
        r == audio_extension(ext@),
{
    str_eq(ext, "mp3") || str_eq(ext, "wav") || str_eq(ext, "ogg") || str_eq(ext, "flac")
        || str_eq(ext, "m4a") || str_eq(ext, "aac")
}

fn is_archive(ext: &str) -> (r: bool)
    ensures
        r == archive_extension(ext@),
{
    str_eq(ext, "zip") || str_eq(ext, "tar") || str_eq(ext, "gz") || str_eq(ext, "bz2")
        || str_eq(ext, "xz") || str_eq(ext, "7z") || str_eq(ext, "rar")
}

fn is_code(ext: &str) -> (r: bool)
    ensures
        r == code_extension(ext@),
{
    str_eq(ext, "py") || str_eq(ext, "js") || str_eq(ext, "html") || str_eq(ext, "css")
        || str_eq(ext, "cpp") || str_eq(ext, "c") || str_eq(ext, "java") || str_eq(ext, "go")
        || str_eq(ext, "rb") || str_eq(ext, "rs") || str_eq(ext, "php")
}

fn is_text(ext: &str) -> (r: bool)
    ensures
        r == text_extension(ext@),
{
    str_eq(ext, "txt") || str_eq(ext, "md") || str_eq(ext, "rst") || str_eq(ext, "log")
}

fn is_font(ext: &str) -> (r: bool)
    ensures
        r == font_extension(ext@),
{
    str_eq(ext, "ttf") || str_eq(ext, "otf") || str_eq(ext, "woff") || str_eq(ext, "woff2")
}

fn is_spreadsheet(ext: &str) -> (r: bool)
    ensures
        r == spreadsheet_extension(ext@),
{
    str_eq(ext, "xls") || str_eq(ext, "xlsx") || str_eq(ext, "csv")
}

fn is_config(ext: &str) -> (r: bool)
    ensures
        r == config_extension(ext@),
{
    str_eq(ext, "conf") || str_eq(ext, "config") || str_eq(ext, "cfg") || str_eq(ext, "ini")
        || str_eq(ext, "yaml") || str_eq(ext, "yml") || str_eq(ext, "json") || str_eq(
        ext,
        "xml",
    )
}

/// Looks an extension up in the category tables.
pub fn category_for_extension(ext: &str) -> (category: Option<Category>)
    ensures
        category == extension_category(ext@),
{
    if is_image(ext) {
        Some(Category::Image)
    } else if is_video(ext) {
        Some(Category::Video)
    } else if is_audio(ext) {
        Some(Category::Audio)
    } else if is_archive(ext) {
        Some(Category::Archive)
    } else if is_code(ext) {
        Some(Category::Code)
    } else if is_text(ext) {
        Some(Category::Text)
    } else if is_font(ext) {
        Some(Category::Font)
    } else if str_eq(ext, "pdf") {
        Some(Category::Document)
    } else if is_spreadsheet(ext) {
        Some(Category::Spreadsheet)
    } else if str_eq(ext, "ppt") || str_eq(ext, "pptx") {
        Some(Category::Presentation)
    } else if is_config(ext) {
        Some(Category::Config)
    } else {
        None
    }
}

/// Tells whether anyone may execute the file; a file whose permission bits
/// could not be read counts as not executable.
pub fn is_executable(path: &PathInfo) -> (r: bool)
    ensures
        r == executable(path.mode),
{
    match path.mode {
        Some(bits) => bits & EXECUTE_BITS != 0,
        None => false,
    }
}

/// Classifies an entry by the rules of [`classify`].
pub fn category_of(path: &PathInfo) -> (category: Category)
    ensures
        category == classify(*path),
{
    if path.is_symlink {
        return if path.is_dir {
            Category::LinkedFolder
        } else {
            Category::Link
        };
    }
    if path.is_dir {
        return Category::Folder;
    }
    let known = match file_extension(path.name.as_str()) {
        Some(ext) => category_for_extension(ext),
        None => None,
    };
    match known {
        Some(category) => category,
        None => {
            if starts_with_dot(path.name.as_str()) {
                Category::Config
            } else if is_executable(path) {
                Category::Executable
            } else {
                Category::File
            }
        },
    }
}

/// Returns the icon of a category.
pub fn icon(category: Category) -> (emoji: &'static str)
    ensures
        emoji@ == glyph(category),
{
    match category {
        Category::LinkedFolder => "🔗📁",
        Category::Link => "🔗",
        Category::Folder => "📁",
        Category::Image => "🎨",
        Category::Video => "🎬",
        Category::Audio => "🎧",
        Category::Archive => "📦",
        Category::Code => "👨‍💻",
        Category::Text => "📝",
        Category::Font => "🔤",
        Category::Document => "📚",
        Category::Spreadsheet => "📊",
        Category::Presentation => "📽️",
        Category::Config => "⚙️",
        Category::Executable => "🚀",
        Category::File => "📰",
    }
}

/// Returns the icon of an entry: that of the category it is classified
/// into.
pub fn get_emoji(path: &PathInfo) -> (emoji: &'static str)
    ensures
        emoji@ == glyph(classify(*path)),
{
    icon(category_of(path))
}

/// A coarser rank for listings that only group entries: directories and
/// links to them (0), other links (1), executables (2), dot files (3),
/// everything else (4).
pub open spec fn coarse_rank(path: PathInfo) -> u8 {
    if path.is_dir {
        0
    } else if path.is_symlink {
        1
    } else if executable(path.mode) {
        2
    } else if is_dot_name(path.name@) {
        3
    } else {
        4
    }
}

/// Returns the coarse rank of an entry.
pub fn get_order(path: &PathInfo) -> (rank: u8)
    ensures
        rank == coarse_rank(*path),
{
    if path.is_symlink {
        if path.is_dir {
            0
        } else {
            1
        }
    } else if path.is_dir {
        0
    } else if is_executable(path) {
        2
    } else if starts_with_dot(path.name.as_str()) {
        3
    } else {
        4
    }
}

/// A directory that is no link is classified as a folder whatever it is
/// called and whatever its permission bits are: a directory named `.git` is
/// a folder, not a configuration file.
pub proof fn lemma_directory_is_folder(path: PathInfo)
    requires
        path.is_dir,
        !path.is_symlink,
    ensures
        classify(path) == Category::Folder,
{
}

/// A symbolic link is classified by what it points to, never as a plain
/// folder: a link to a directory is a linked folder, any other link a link,
/// and their icons differ from the folder icon.
pub proof fn lemma_link_is_not_folder(path: PathInfo)
    requires
        path.is_symlink,
    ensures
        classify(path) == if path.is_dir {
            Category::LinkedFolder
        } else {
            Category::Link
        },
        glyph(classify(path)) != glyph(Category::Folder),
{
    reveal_strlit("🔗📁");
    reveal_strlit("🔗");
    reveal_strlit("📁");
    if path.is_dir {
        assert(glyph(Category::LinkedFolder).len() == 2);
    } else {
        assert(glyph(Category::Link)[0] == '🔗');
    }
}

} // verus!
