use emoji_ls::emoji_utils::PathInfo;
use emoji_ls::file_entry::FileEntry;
use emoji_ls::order::{compare_bytes, compare_keys, SortKey};
use emoji_ls::sort::sort_by_keys;
use std::cmp::Ordering;

fn file_key(name: &str, extension: Option<&str>) -> SortKey {
    SortKey {
        directory: false,
        hidden: name.starts_with('.'),
        extension: extension.map(|ext| ext.as_bytes().to_vec()),
        name: name.as_bytes().to_vec(),
    }
}

fn directory_key(name: &str) -> SortKey {
    SortKey {
        directory: true,
        hidden: name.starts_with('.'),
        extension: None,
        name: name.as_bytes().to_vec(),
    }
}

fn key_of(name: &str, is_dir: bool) -> SortKey {
    FileEntry::new(PathInfo { name: name.to_string(), is_symlink: false, is_dir, mode: None })
        .sort_key()
}

#[test]
fn bytes_compare_three_ways() {
    assert_eq!(compare_bytes(b"", b""), Ordering::Equal);
    assert_eq!(compare_bytes(b"abc", b"abc"), Ordering::Equal);
    assert_eq!(compare_bytes(b"", b"a"), Ordering::Less);
    assert_eq!(compare_bytes(b"a", b""), Ordering::Greater);
    assert_eq!(compare_bytes(b"ab", b"abc"), Ordering::Less);
    assert_eq!(compare_bytes(b"abc", b"ab"), Ordering::Greater);
    assert_eq!(compare_bytes(b"abc", b"abd"), Ordering::Less);
    assert_eq!(compare_bytes(b"abd", b"abc"), Ordering::Greater);
    assert_eq!(compare_bytes(b"b", b"abc"), Ordering::Greater);
    assert_eq!(compare_bytes(&[0xFF], &[0x00, 0xFF]), Ordering::Greater);
    assert_eq!(compare_bytes(b"Z", b"a"), Ordering::Less);
    assert_eq!(compare_bytes(b"a10", b"a9"), Ordering::Less);
    assert_eq!(compare_bytes(&[0x7F], &[0x80]), Ordering::Less);
    assert_eq!(compare_bytes(&[0x00], &[0xFF]), Ordering::Less);
}

#[test]
fn bytes_compare_as_the_standard_library_compares_strings() {
    let texts = ["", "a", "A", "ab", "b", "é", "e", "z", "日本", "日本語", "~", "a.b", "a b"];
    for a in texts {
        for b in texts {
            assert_eq!(compare_bytes(a.as_bytes(), b.as_bytes()), a.cmp(b), "{:?} and {:?}", a, b);
        }
    }
}

#[test]
fn key_of_an_entry_is_folded() {
    let key = key_of("Main.RS", false);
    assert!(!key.directory);
    assert!(!key.hidden);
    assert_eq!(key.extension, Some(b"rs".to_vec()));
    assert_eq!(key.name, b"main.rs".to_vec());
}

#[test]
fn key_of_an_entry_records_kind_and_visibility() {
    let key = key_of(".Git", true);
    assert!(key.directory);
    assert!(key.hidden);
    assert_eq!(key.extension, None);
    assert_eq!(key.name, b".git".to_vec());
    let key = key_of(".Config.D", true);
    assert_eq!(key.extension, Some(b"d".to_vec()));
    let key = key_of("ÄRGER.TXT", false);
    assert_eq!(key.name, "ärger.txt".as_bytes().to_vec());
    let key = key_of("dot.", false);
    assert_eq!(key.extension, Some(Vec::new()));
}

#[test]
fn keys_compare_by_kind_first() {
    assert_eq!(compare_keys(&directory_key("z"), &file_key("a", None)), Ordering::Less);
    assert_eq!(compare_keys(&file_key("a", None), &directory_key("z")), Ordering::Greater);
    assert_eq!(compare_keys(&directory_key("z"), &file_key(".a", None)), Ordering::Less);
}

#[test]
fn keys_compare_by_visibility_second() {
    assert_eq!(compare_keys(&directory_key(".z"), &directory_key("a")), Ordering::Less);
    assert_eq!(compare_keys(&file_key("a", Some("a")), &file_key(".z", Some("z"))), Ordering::Greater);
}

#[test]
fn keys_of_files_compare_by_extension_third() {
    let (first, second) = (file_key("z.a", Some("a")), file_key("a.b", Some("b")));
    assert_eq!(compare_keys(&first, &second), Ordering::Less);
    assert_eq!(compare_keys(&second, &first), Ordering::Greater);
    let (short, long) = (file_key("z.c", Some("c")), file_key("a.cpp", Some("cpp")));
    assert_eq!(compare_keys(&short, &long), Ordering::Less);
}

#[test]
fn keys_compare_by_name_last() {
    assert_eq!(compare_keys(&file_key("a.x", Some("x")), &file_key("b.x", Some("x"))), Ordering::Less);
    assert_eq!(compare_keys(&file_key("b", None), &file_key("a", None)), Ordering::Greater);
    assert_eq!(compare_keys(&file_key("a", None), &file_key("b", None)), Ordering::Less);
    assert_eq!(compare_keys(&file_key("a", None), &file_key("a", None)), Ordering::Equal);
    assert_eq!(compare_keys(&directory_key("a"), &directory_key("a")), Ordering::Equal);
}

#[test]
fn key_without_extension_comes_before_keys_with_one() {
    let (none, empty, some) =
        (file_key("z", None), file_key("m.", Some("")), file_key("a.x", Some("x")));
    assert_eq!(compare_keys(&none, &some), Ordering::Less);
    assert_eq!(compare_keys(&some, &none), Ordering::Greater);
    assert_eq!(compare_keys(&none, &empty), Ordering::Less);
    assert_eq!(compare_keys(&empty, &none), Ordering::Greater);
    assert_eq!(compare_keys(&empty, &some), Ordering::Less);
}

#[test]
fn keys_of_three_files_fall_in_line() {
    let (first, second, third) =
        (file_key("az", None), file_key("b.c", Some("c")), file_key("a.txt", Some("txt")));
    assert_eq!(compare_keys(&second, &third), Ordering::Less);
    assert_eq!(compare_keys(&first, &third), Ordering::Less);
    assert_eq!(compare_keys(&first, &second), Ordering::Less);
    assert_eq!(compare_keys(&second, &first), Ordering::Greater);
}

#[test]
fn extension_of_a_directory_key_is_not_compared() {
    let first = SortKey {
        directory: true,
        hidden: false,
        extension: Some(b"z".to_vec()),
        name: b"a.z".to_vec(),
    };
    let second = SortKey {
        directory: true,
        hidden: false,
        extension: Some(b"a".to_vec()),
        name: b"b.a".to_vec(),
    };
    assert_eq!(compare_keys(&first, &second), Ordering::Less);
    assert!(first.comes_before(&second));
    assert!(!second.comes_before(&first));
}

#[test]
fn comes_before_is_strict() {
    assert!(file_key("a", None).comes_before(&file_key("b", None)));
    assert!(!file_key("b", None).comes_before(&file_key("a", None)));
    assert!(!file_key("a", None).comes_before(&file_key("a", None)));
}

#[test]
fn items_follow_their_keys() {
    let mut keys =
        vec![file_key("b", None), directory_key("d"), file_key(".h", None), file_key("a", None)];
    let mut items = vec!["b", "d", ".h", "a"];
    sort_by_keys(&mut keys, &mut items);
    assert_eq!(items, vec!["d", ".h", "a", "b"]);
    let names: Vec<&[u8]> = keys.iter().map(|key| key.name.as_slice()).collect();
    assert_eq!(names, vec![&b"d"[..], &b".h"[..], &b"a"[..], &b"b"[..]]);
}

#[test]
fn items_with_tied_keys_keep_their_order() {
    let mut keys = vec![
        file_key("same", None),
        file_key("other", None),
        file_key("same", None),
        file_key("other", None),
        file_key("same", None),
    ];
    let mut items = vec![0, 1, 2, 3, 4];
    sort_by_keys(&mut keys, &mut items);
    assert_eq!(items, vec![1, 3, 0, 2, 4]);
}

#[test]
fn sorting_nothing_by_keys_gives_nothing() {
    let mut keys: Vec<SortKey> = Vec::new();
    let mut items: Vec<u8> = Vec::new();
    sort_by_keys(&mut keys, &mut items);
    assert!(keys.is_empty());
    assert!(items.is_empty());
}
