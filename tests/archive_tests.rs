use obsidian_publisher_server::archive::{archive_format, entry_components, plan_entry, ArchiveFormat};
use obsidian_publisher_server::error::AppError;
use obsidian_publisher_server::rewrite::{replace_bytes, rewrite_entry};

fn rule(from: &str, to: &str) -> Option<(String, String)> {
    Some((from.to_string(), to.to_string()))
}

#[test]
fn format_follows_the_file_name_suffix() {
    assert_eq!(archive_format("site.tar.gz").unwrap(), ArchiveFormat::TarGz);
    assert_eq!(archive_format("site.tgz").unwrap(), ArchiveFormat::TarGz);
    assert_eq!(archive_format("site.zip").unwrap(), ArchiveFormat::Zip);
    assert!(matches!(archive_format("site.rar"), Err(AppError::UnsupportedFormat)));
    assert!(matches!(archive_format("zip"), Err(AppError::UnsupportedFormat)));
    assert!(matches!(archive_format(""), Err(AppError::UnsupportedFormat)));
}

#[test]
fn parent_components_are_refused() {
    for name in ["../evil.html", "a/../../b", "a/b/..", "..", "a\\..\\b"] {
        match entry_components(name) {
            Err(AppError::UnsafePath(n)) => assert_eq!(n, name),
            other => panic!("{} should be refused, got {:?}", name, other),
        }
    }
}

#[test]
fn rooted_and_prefixed_paths_are_refused() {
    for name in ["/etc/passwd", "\\windows\\x", "C:evil", "c:/x"] {
        assert!(matches!(entry_components(name), Err(AppError::UnsafePath(_))), "{}", name);
    }
}

#[test]
fn safe_paths_split_into_components() {
    assert_eq!(entry_components("index.html").unwrap(), vec!["index.html".to_string()]);
    assert_eq!(entry_components("./css//site.css").unwrap(), vec!["css".to_string(), "site.css".to_string()]);
    assert_eq!(entry_components("assets/").unwrap(), vec!["assets".to_string()]);
    assert_eq!(entry_components("a..b/..c").unwrap(), vec!["a..b".to_string(), "..c".to_string()]);
    assert!(entry_components("").unwrap().is_empty());
}

#[test]
fn entries_are_planned_as_directories_or_files() {
    let d = plan_entry("docs/img/", true).unwrap();
    assert_eq!(d.dir, vec!["docs".to_string(), "img".to_string()]);
    assert!(d.file.is_none());
    let f = plan_entry("docs/img/logo.png", false).unwrap();
    assert_eq!(f.dir, vec!["docs".to_string(), "img".to_string()]);
    assert_eq!(f.file, Some("logo.png".to_string()));
    assert!(matches!(plan_entry("./", false), Err(AppError::UnsafePath(_))));
    assert!(plan_entry("./", true).unwrap().dir.is_empty());
    assert!(matches!(plan_entry("../x", true), Err(AppError::UnsafePath(_))));
}

#[test]
fn text_entries_get_the_substitution() {
    let out = rewrite_entry(b"hello target world", &rule("target", "repl"));
    assert_eq!(out, b"hello repl world".to_vec());
    let out = rewrite_entry(b"target target", &rule("target", "x"));
    assert_eq!(out, b"x x".to_vec());
    let out = rewrite_entry(b"aaaa", &rule("aa", "b"));
    assert_eq!(out, b"bb".to_vec());
    let out = rewrite_entry("é/sites/1/é".as_bytes(), &rule("/sites/1/", "/sites/blog/"));
    assert_eq!(out, "é/sites/blog/é".as_bytes().to_vec());
}

#[test]
fn binary_entries_are_copied_unchanged() {
    let bin = [0u8, 1, 2, 3];
    assert_eq!(rewrite_entry(&bin, &rule("target", "repl")), bin.to_vec());
    let invalid = [b't', b'a', b'r', b'g', b'e', b't', 0xff];
    assert_eq!(rewrite_entry(&invalid, &rule("target", "repl")), invalid.to_vec());
    assert_eq!(rewrite_entry(b"target", &None), b"target".to_vec());
}

#[test]
fn replacement_edge_cases() {
    assert_eq!(replace_bytes(b"", b"a", b"b"), Vec::<u8>::new());
    assert_eq!(replace_bytes(b"abc", b"", b"x"), b"xaxbxcx".to_vec());
    assert_eq!(replace_bytes(b"", b"", b"x"), b"x".to_vec());
    assert_eq!(replace_bytes("é".as_bytes(), b"", b"x"), "xéx".as_bytes().to_vec());
    assert_eq!(rewrite_entry(b"ab", &rule("", "x")), "ab".replace("", "x").into_bytes());
    assert_eq!(replace_bytes(b"abc", b"abcd", b"x"), b"abc".to_vec());
    assert_eq!(replace_bytes(b"abc", b"b", b""), b"ac".to_vec());
}
