use fmt_runner::SupportedExtension;

fn exts(names: &[&str]) -> SupportedExtension {
    SupportedExtension::new(names.iter().map(|s| s.to_string()).collect())
}

#[test]
fn test_new() {
    let custom = exts(&["json", "xml"]);
    assert!(custom.matches("data.json"));
    assert!(custom.matches("data.xml"));
    assert!(!custom.matches("data.txt"));
}

#[test]
fn test_matches_is_case_insensitive() {
    let supported = exts(&["rs", "toml", "md"]);
    assert!(supported.matches("foo.rs"));
    assert!(supported.matches("bar.TOML"));
    assert!(supported.matches("/baz/qux.md"));
    assert!(supported.matches("test.MD"));
}

#[test]
fn test_matches_rejects_other_extensions() {
    let supported = exts(&["rs", "toml", "md"]);
    assert!(!supported.matches("noext"));
    assert!(!supported.matches("foo.exe"));
    assert!(!supported.matches("test.txt"));
}

#[test]
fn test_matches_lowercases_beyond_ascii() {
    let supported = exts(&["\u{e9}"]);
    assert!(supported.matches("file.\u{c9}"));
    assert!(supported.matches("file.\u{e9}"));
    assert!(!supported.matches("file.e"));
}

#[test]
fn test_matches_needs_a_dot_inside_the_name() {
    let supported = exts(&["gitignore", "rs"]);
    assert!(!supported.matches(".gitignore"));
    assert!(!supported.matches("dir.rs/file"));
    assert!(supported.matches("dir/a.rs"));
}
