use latin::file::has_extension;
use latin::path::name_has_extension;
use std::path::Path;

#[test]
fn the_last_extension_counts() {
    assert!(has_extension("a.tar.gz", "gz"));
    assert!(!has_extension("a.tar.gz", "tar"));
    assert!(!has_extension("a.tar.gz", "tar.gz"));
}

#[test]
fn no_extension_matches_nothing() {
    assert!(!has_extension("a", "gz"));
    assert!(!has_extension("a", ""));
    assert!(!has_extension("", ""));
    assert!(!has_extension("", "gz"));
}

#[test]
fn the_comparison_is_exact() {
    assert!(has_extension("photo.JPG", "JPG"));
    assert!(!has_extension("photo.JPG", "jpg"));
    assert!(!has_extension("photo.jpg", "jp"));
    assert!(!has_extension("photo.jpg", "jpgx"));
    assert!(!has_extension("photo.jpg", ".jpg"));
}

#[test]
fn the_directories_on_the_way_do_not_count() {
    assert!(has_extension("dir.d/file.txt", "txt"));
    assert!(!has_extension("dir.d/file", "d/file"));
    assert!(!has_extension("dir.d/file", "d"));
    assert!(has_extension("./foo.txt", "txt"));
}

#[test]
fn a_leading_dot_starts_no_extension() {
    assert!(!has_extension(".bashrc", "bashrc"));
    assert!(has_extension(".bashrc.bak", "bak"));
    assert!(!has_extension("..", ""));
    assert!(!has_extension("dir/..", ""));
}

#[test]
fn a_trailing_dot_gives_an_empty_extension() {
    assert!(has_extension("name.", ""));
    assert!(!has_extension("name.", "name"));
}

#[test]
fn extensions_beyond_ascii_compare_by_character() {
    assert!(has_extension("r\u{e9}sum\u{e9}.\u{e9}t\u{e9}", "\u{e9}t\u{e9}"));
    assert!(!has_extension("r\u{e9}sum\u{e9}.\u{e9}t\u{e9}", "ete"));
}

#[test]
fn file_names_follow_the_rule_of_the_last_dot() {
    assert!(name_has_extension("a.b", "b"));
    assert!(name_has_extension("a.b.c", "c"));
    assert!(name_has_extension("a..c", "c"));
    assert!(name_has_extension("..c", "c"));
    assert!(name_has_extension("a.", ""));
    assert!(!name_has_extension(".c", "c"));
    assert!(!name_has_extension(".", ""));
    assert!(!name_has_extension("c", "c"));
    assert!(!name_has_extension("", ""));
}

#[test]
fn extensions_agree_with_the_standard_library() {
    let paths = [
        "", "a", "a.b", "a.b.c", ".a", ".a.b", "a.", "a..", "..", ".", "../a.b", "a/b.c/d",
        "a/b.c/d.e", "a/b.c/", "a/b.c/.", "/", "//", "a.b/..", "x.tar.gz", "dir/.hidden",
        "dir/.hidden.txt", "sp ace.t x", "a.b//", "...", "a/.../b",
    ];
    let candidates = ["", "a", "b", "c", "e", "gz", "txt", "t x", "hidden", "tar.gz", "."];
    for path in paths {
        let expected = Path::new(path).extension().and_then(|found| found.to_str());
        for ext in candidates {
            assert_eq!(has_extension(path, ext), expected == Some(ext), "{:?} {:?}", path, ext);
        }
        if let Some(found) = expected {
            assert!(has_extension(path, found), "{:?}", path);
        }
    }
}
