use fourget::path::{file_name, is_plain};
use fourget::text::chars_of;

fn name(path: &str) -> Option<String> {
    file_name(path)
}

fn std_name(path: &str) -> Option<String> {
    std::path::Path::new(path).file_name().map(|n| n.to_string_lossy().into_owned())
}

#[test]
fn chars_of_lists_the_characters() {
    assert_eq!(chars_of(""), Vec::<char>::new());
    assert_eq!(chars_of("a/ü.png"), vec!['a', '/', 'ü', '.', 'p', 'n', 'g']);
}

#[test]
fn file_name_is_the_last_component() {
    assert_eq!(name("//example/img/abc123.png"), Some(String::from("abc123.png")));
    assert_eq!(name("abc123.png"), Some(String::from("abc123.png")));
    assert_eq!(name("/usr/bin/"), Some(String::from("bin")));
    assert_eq!(name("tmp/foo.txt"), Some(String::from("foo.txt")));
    assert_eq!(name("a/.hidden"), Some(String::from(".hidden")));
    assert_eq!(name("a/..."), Some(String::from("...")));
    assert_eq!(name("a/b c.png"), Some(String::from("b c.png")));
    assert_eq!(name("//i/b/übung.png"), Some(String::from("übung.png")));
}

#[test]
fn file_name_ignores_trailing_slashes_and_dot_segments() {
    assert_eq!(name("foo.txt/."), Some(String::from("foo.txt")));
    assert_eq!(name("foo.txt/.//"), Some(String::from("foo.txt")));
    assert_eq!(name("a/b///"), Some(String::from("b")));
    assert_eq!(name("a/./b/././"), Some(String::from("b")));
}

#[test]
fn file_name_is_missing_where_nothing_is_left() {
    assert_eq!(name(""), None);
    assert_eq!(name("/"), None);
    assert_eq!(name("//"), None);
    assert_eq!(name("."), None);
    assert_eq!(name("./"), None);
    assert_eq!(name("/."), None);
    assert_eq!(name("./."), None);
}

#[test]
fn file_name_is_missing_after_a_parent_segment() {
    assert_eq!(name(".."), None);
    assert_eq!(name("foo.txt/.."), None);
    assert_eq!(name("a/../"), None);
    assert_eq!(name("a/.././"), None);
    assert_eq!(name("/.."), None);
}

#[test]
fn file_name_agrees_with_the_platform_on_slash_paths() {
    let pieces = ["", "/", ".", "..", "a", "b.png", "...", ".x", "x.", "ü"];
    for a in pieces.iter() {
        for b in pieces.iter() {
            for c in pieces.iter() {
                for d in pieces.iter() {
                    let path = format!("{}{}{}{}", a, b, c, d);
                    assert_eq!(name(&path), std_name(&path), "path {:?}", path);
                }
            }
        }
    }
}

#[test]
fn plain_names() {
    assert!(is_plain("abc123.png"));
    assert!(is_plain("My Photo.png"));
    assert!(is_plain("..."));
    assert!(is_plain(".hidden"));
    assert!(is_plain("a..b"));
    assert!(!is_plain(""));
    assert!(!is_plain("."));
    assert!(!is_plain(".."));
    assert!(!is_plain("/"));
    assert!(!is_plain("a/b"));
    assert!(!is_plain("../x"));
    assert!(!is_plain("x/"));
    assert!(!is_plain("/etc/passwd"));
}

#[test]
fn a_file_name_is_plain_and_its_own_file_name() {
    let paths = ["//example/img/abc123.png", "a/b/", "x/./", "q", "/r/s/t.tar.gz", "a/.."];
    for path in paths.iter() {
        if let Some(found) = name(path) {
            assert!(is_plain(&found));
            assert_eq!(name(&found), Some(found.clone()));
        }
    }
}
