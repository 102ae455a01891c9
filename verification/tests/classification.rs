use emoji_ls::emoji_utils::{
    category_for_extension, category_of, get_emoji, get_order, icon, is_executable, Category,
    PathInfo,
};

fn regular(name: &str, mode: Option<u32>) -> PathInfo {
    PathInfo { name: name.to_string(), is_symlink: false, is_dir: false, mode }
}

fn plain(name: &str) -> PathInfo {
    regular(name, Some(0o644))
}

fn directory(name: &str) -> PathInfo {
    PathInfo { name: name.to_string(), is_symlink: false, is_dir: true, mode: Some(0o755) }
}

fn link(name: &str, to_directory: bool) -> PathInfo {
    PathInfo { name: name.to_string(), is_symlink: true, is_dir: to_directory, mode: Some(0o777) }
}

fn icons_of(extensions: &[&str]) -> Vec<&'static str> {
    extensions.iter().map(|ext| get_emoji(&plain(&format!("file.{}", ext)))).collect()
}

#[test]
fn image_extensions_get_the_palette() {
    let extensions = ["jpg", "jpeg", "png", "gif", "bmp", "svg", "webp"];
    assert_eq!(icons_of(&extensions), vec!["🎨"; 7]);
}

#[test]
fn video_extensions_get_the_clapper() {
    let extensions = ["mp4", "avi", "mkv", "mov", "flv", "wmv", "webm"];
    assert_eq!(icons_of(&extensions), vec!["🎬"; 7]);
}

#[test]
fn audio_extensions_get_the_headphones() {
    let extensions = ["mp3", "wav", "ogg", "flac", "m4a", "aac"];
    assert_eq!(icons_of(&extensions), vec!["🎧"; 6]);
}

#[test]
fn archive_extensions_get_the_package() {
    let extensions = ["zip", "tar", "gz", "bz2", "xz", "7z", "rar"];
    assert_eq!(icons_of(&extensions), vec!["📦"; 7]);
}

#[test]
fn source_extensions_get_the_programmer() {
    let extensions = ["py", "js", "html", "css", "cpp", "c", "java", "go", "rb", "rs", "php"];
    assert_eq!(icons_of(&extensions), vec!["👨‍💻"; 11]);
}

#[test]
fn text_extensions_get_the_memo() {
    let extensions = ["txt", "md", "rst", "log"];
    assert_eq!(icons_of(&extensions), vec!["📝"; 4]);
}

#[test]
fn font_extensions_get_the_letters() {
    let extensions = ["ttf", "otf", "woff", "woff2"];
    assert_eq!(icons_of(&extensions), vec!["🔤"; 4]);
}

#[test]
fn pdf_gets_the_books() {
    assert_eq!(get_emoji(&plain("thesis.pdf")), "📚");
}

#[test]
fn spreadsheet_extensions_get_the_chart() {
    let extensions = ["xls", "xlsx", "csv"];
    assert_eq!(icons_of(&extensions), vec!["📊"; 3]);
}

#[test]
fn presentation_extensions_get_the_projector() {
    let extensions = ["ppt", "pptx"];
    assert_eq!(icons_of(&extensions), vec!["📽️"; 2]);
}

#[test]
fn config_extensions_get_the_gear() {
    let extensions = ["conf", "config", "cfg", "ini", "yaml", "yml", "json", "xml"];
    assert_eq!(icons_of(&extensions), vec!["⚙️"; 8]);
}

#[test]
fn extension_tables_map_to_their_categories() {
    assert_eq!(category_for_extension("png"), Some(Category::Image));
    assert_eq!(category_for_extension("webm"), Some(Category::Video));
    assert_eq!(category_for_extension("flac"), Some(Category::Audio));
    assert_eq!(category_for_extension("7z"), Some(Category::Archive));
    assert_eq!(category_for_extension("rs"), Some(Category::Code));
    assert_eq!(category_for_extension("md"), Some(Category::Text));
    assert_eq!(category_for_extension("woff2"), Some(Category::Font));
    assert_eq!(category_for_extension("pdf"), Some(Category::Document));
    assert_eq!(category_for_extension("csv"), Some(Category::Spreadsheet));
    assert_eq!(category_for_extension("pptx"), Some(Category::Presentation));
    assert_eq!(category_for_extension("yml"), Some(Category::Config));
    assert_eq!(category_for_extension("exe"), None);
    assert_eq!(category_for_extension(""), None);
}

#[test]
fn extension_match_is_exact() {
    assert_eq!(get_emoji(&plain("PHOTO.JPG")), "📰");
    assert_eq!(get_emoji(&plain("photo.Jpg")), "📰");
    assert_eq!(get_emoji(&plain("photo.jpg ")), "📰");
    assert_eq!(get_emoji(&plain("photo.jpgx")), "📰");
    assert_eq!(get_emoji(&plain("photo.jp")), "📰");
    assert_eq!(category_for_extension("JSON"), None);
}

#[test]
fn only_the_last_extension_counts() {
    assert_eq!(get_emoji(&plain("backup.tar.gz")), "📦");
    assert_eq!(get_emoji(&plain("notes.txt.bak")), "📰");
    assert_eq!(get_emoji(&plain("a.rs.md")), "📝");
}

#[test]
fn name_without_extension_is_not_looked_up() {
    assert_eq!(get_emoji(&plain("rs")), "📰");
    assert_eq!(get_emoji(&plain("txt")), "📰");
    assert_eq!(get_emoji(&plain("Makefile")), "📰");
}

#[test]
fn name_that_ends_in_a_dot_has_an_empty_extension() {
    assert_eq!(get_emoji(&plain("report.")), "📰");
    assert_eq!(get_emoji(&regular("report.", Some(0o755))), "🚀");
}

#[test]
fn directory_named_dot_git_is_a_folder() {
    assert_eq!(get_emoji(&directory(".git")), "📁");
    assert_eq!(category_of(&directory(".git")), Category::Folder);
}

#[test]
fn directory_is_a_folder_whatever_its_name() {
    assert_eq!(get_emoji(&directory("src")), "📁");
    assert_eq!(get_emoji(&directory("photos.jpg")), "📁");
    assert_eq!(get_emoji(&directory(".config")), "📁");
    let unreadable =
        PathInfo { name: "locked".to_string(), is_symlink: false, is_dir: true, mode: None };
    assert_eq!(get_emoji(&unreadable), "📁");
}

#[test]
fn link_to_a_directory_gets_link_and_folder() {
    assert_eq!(get_emoji(&link("current", true)), "🔗📁");
    assert_ne!(get_emoji(&link("current", true)), "📁");
    assert_eq!(category_of(&link("current", true)), Category::LinkedFolder);
}

#[test]
fn link_to_anything_else_gets_the_link() {
    assert_eq!(get_emoji(&link("latest.log", false)), "🔗");
    assert_eq!(get_emoji(&link(".profile", false)), "🔗");
    assert_eq!(get_emoji(&link("run.sh", false)), "🔗");
    let dangling =
        PathInfo { name: "gone".to_string(), is_symlink: true, is_dir: false, mode: None };
    assert_eq!(get_emoji(&dangling), "🔗");
}

#[test]
fn dot_file_without_known_extension_is_config() {
    assert_eq!(get_emoji(&plain(".bashrc")), "⚙️");
    assert_eq!(get_emoji(&plain(".gitignore")), "⚙️");
    assert_eq!(get_emoji(&plain(".env.local")), "⚙️");
    assert_eq!(get_emoji(&plain(".")), "⚙️");
}

#[test]
fn dot_file_with_known_extension_follows_the_extension() {
    assert_eq!(get_emoji(&plain(".notes.txt")), "📝");
    assert_eq!(get_emoji(&plain(".cover.png")), "🎨");
    assert_eq!(get_emoji(&plain(".settings.json")), "⚙️");
}

#[test]
fn leading_dot_does_not_start_an_extension() {
    assert_eq!(get_emoji(&plain(".txt")), "⚙️");
    assert_eq!(get_emoji(&plain(".rs")), "⚙️");
    assert_eq!(category_of(&plain(".pdf")), Category::Config);
}

#[test]
fn dot_file_comes_before_executable() {
    assert_eq!(get_emoji(&regular(".hook", Some(0o755))), "⚙️");
}

#[test]
fn known_extension_comes_before_executable() {
    assert_eq!(get_emoji(&regular("deploy.py", Some(0o755))), "👨‍💻");
}

#[test]
fn executable_file_gets_the_rocket() {
    assert_eq!(get_emoji(&regular("run", Some(0o755))), "🚀");
    assert_eq!(get_emoji(&regular("run", Some(0o100))), "🚀");
    assert_eq!(get_emoji(&regular("run", Some(0o010))), "🚀");
    assert_eq!(get_emoji(&regular("run", Some(0o001))), "🚀");
    assert_eq!(get_emoji(&regular("run", Some(0o100644 | 0o111))), "🚀");
    assert_eq!(get_emoji(&regular("tool.exe", Some(0o755))), "🚀");
}

#[test]
fn file_that_nobody_may_execute_gets_the_newspaper() {
    assert_eq!(get_emoji(&regular("run", Some(0o644))), "📰");
    assert_eq!(get_emoji(&regular("run", Some(0o666))), "📰");
    assert_eq!(get_emoji(&regular("run", Some(0o100644))), "📰");
    assert_eq!(get_emoji(&regular("run", Some(0))), "📰");
}

#[test]
fn unreadable_metadata_counts_as_not_executable() {
    assert!(!is_executable(&regular("run", None)));
    assert_eq!(get_emoji(&regular("run", None)), "📰");
}

#[test]
fn is_executable_reads_the_three_execute_bits() {
    assert!(is_executable(&regular("a", Some(0o700))));
    assert!(is_executable(&regular("a", Some(0o070))));
    assert!(is_executable(&regular("a", Some(0o007))));
    assert!(is_executable(&regular("a", Some(0o111))));
    assert!(!is_executable(&regular("a", Some(0o666))));
    assert!(!is_executable(&regular("a", Some(0o4644))));
    assert!(!is_executable(&regular("a", Some(0))));
    assert!(!is_executable(&regular("a", None)));
}

#[test]
fn every_category_has_its_icon() {
    assert_eq!(icon(Category::LinkedFolder), "🔗📁");
    assert_eq!(icon(Category::Link), "🔗");
    assert_eq!(icon(Category::Folder), "📁");
    assert_eq!(icon(Category::Image), "🎨");
    assert_eq!(icon(Category::Video), "🎬");
    assert_eq!(icon(Category::Audio), "🎧");
    assert_eq!(icon(Category::Archive), "📦");
    assert_eq!(icon(Category::Code), "👨‍💻");
    assert_eq!(icon(Category::Text), "📝");
    assert_eq!(icon(Category::Font), "🔤");
    assert_eq!(icon(Category::Document), "📚");
    assert_eq!(icon(Category::Spreadsheet), "📊");
    assert_eq!(icon(Category::Presentation), "📽️");
    assert_eq!(icon(Category::Config), "⚙️");
    assert_eq!(icon(Category::Executable), "🚀");
    assert_eq!(icon(Category::File), "📰");
}

#[test]
fn icons_are_the_exact_code_points() {
    let code_points =
        |text: &str| -> Vec<u32> { text.chars().map(|c| c as u32).collect() };
    assert_eq!(code_points(icon(Category::LinkedFolder)), vec![0x1F517, 0x1F4C1]);
    assert_eq!(code_points(icon(Category::Code)), vec![0x1F468, 0x200D, 0x1F4BB]);
    assert_eq!(code_points(icon(Category::Presentation)), vec![0x1F4FD, 0xFE0F]);
    assert_eq!(code_points(icon(Category::Config)), vec![0x2699, 0xFE0F]);
    assert_eq!(code_points(icon(Category::File)), vec![0x1F4F0]);
}

#[test]
fn category_follows_the_rules_in_order() {
    assert_eq!(category_of(&link("a.png", true)), Category::LinkedFolder);
    assert_eq!(category_of(&link("a.png", false)), Category::Link);
    assert_eq!(category_of(&directory("a.png")), Category::Folder);
    assert_eq!(category_of(&plain("a.png")), Category::Image);
    assert_eq!(category_of(&plain(".a")), Category::Config);
    assert_eq!(category_of(&regular("a", Some(0o755))), Category::Executable);
    assert_eq!(category_of(&plain("a")), Category::File);
}

#[test]
fn coarse_rank_groups_entries() {
    assert_eq!(get_order(&directory("src")), 0);
    assert_eq!(get_order(&directory(".git")), 0);
    assert_eq!(get_order(&link("current", true)), 0);
    assert_eq!(get_order(&link("latest.log", false)), 1);
    assert_eq!(get_order(&regular("run", Some(0o755))), 2);
    assert_eq!(get_order(&regular(".hook", Some(0o755))), 2);
    assert_eq!(get_order(&plain(".bashrc")), 3);
    assert_eq!(get_order(&regular(".bashrc", None)), 3);
    assert_eq!(get_order(&plain("notes.txt")), 4);
    assert_eq!(get_order(&regular("notes.txt", None)), 4);
}
