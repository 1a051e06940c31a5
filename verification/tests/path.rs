use gibfonts::path::{font_name, path_file_name};

fn file_name(path: &str) -> Option<String> {
    path_file_name(path.as_bytes()).map(|n| String::from_utf8(n).unwrap())
}

#[test]
fn file_name_is_the_last_component() {
    assert_eq!(file_name("a.ttf"), Some("a.ttf".to_string()));
    assert_eq!(file_name("d/e.ttf"), Some("e.ttf".to_string()));
    assert_eq!(file_name("/abs/dir/font.otf"), Some("font.otf".to_string()));
    assert_eq!(file_name("./a.ttf"), Some("a.ttf".to_string()));
    assert_eq!(file_name("../a.ttf"), Some("a.ttf".to_string()));
}

#[test]
fn file_name_passes_over_empty_components_and_dots() {
    assert_eq!(file_name("dir/"), Some("dir".to_string()));
    assert_eq!(file_name("dir//"), Some("dir".to_string()));
    assert_eq!(file_name("a//b"), Some("b".to_string()));
    assert_eq!(file_name("dir/."), Some("dir".to_string()));
    assert_eq!(file_name("dir/./"), Some("dir".to_string()));
    assert_eq!(file_name("dir/././/."), Some("dir".to_string()));
}

#[test]
fn file_name_is_missing_where_no_component_counts() {
    assert_eq!(file_name(""), None);
    assert_eq!(file_name("."), None);
    assert_eq!(file_name("./"), None);
    assert_eq!(file_name("/"), None);
    assert_eq!(file_name("//"), None);
    assert_eq!(file_name("/./."), None);
}

#[test]
fn file_name_is_missing_behind_a_parent_component() {
    assert_eq!(file_name(".."), None);
    assert_eq!(file_name("a/.."), None);
    assert_eq!(file_name("a/../"), None);
    assert_eq!(file_name("a/../."), None);
}

#[test]
fn file_name_keeps_names_that_only_look_like_dots() {
    assert_eq!(file_name("..."), Some("...".to_string()));
    assert_eq!(file_name(".a"), Some(".a".to_string()));
    assert_eq!(file_name("..a"), Some("..a".to_string()));
    assert_eq!(file_name("a\\b.ttf"), Some("a\\b.ttf".to_string()));
}

#[test]
fn file_name_agrees_with_the_standard_library() {
    let paths = [
        "", ".", "..", "/", "a", "a/", "a/b", "a/./b", "a/b/.", "a/b/..", "./a", "../a", "a//b//",
        ".a", "a.b.ttf", "/a/b/c.otf", "./", "../", "a/.b", "...", "a/...", "/..", "/.",
    ];
    for path in paths {
        let expected = std::path::Path::new(path)
            .file_name()
            .map(|n| n.to_str().unwrap().to_string());
        if std::path::MAIN_SEPARATOR == '/' {
            assert_eq!(file_name(path), expected, "path {:?}", path);
        }
    }
}

#[test]
fn file_name_of_bytes_that_are_no_text() {
    assert_eq!(path_file_name(&[0xff, 0x2f, 0xfe, 0x2e, 0x74]), Some(vec![0xfe, 0x2e, 0x74]));
}

#[test]
fn font_name_takes_otf_and_ttf() {
    assert!(font_name(b"a.ttf"));
    assert!(font_name(b"b.otf"));
    assert!(font_name(b"Hack Regular Nerd Font Complete.ttf"));
    assert!(font_name(b"a.b.otf"));
    assert!(font_name(b"..ttf"));
}

#[test]
fn font_name_refuses_other_extensions() {
    assert!(!font_name(b"c.txt"));
    assert!(!font_name(b"a.ttc"));
    assert!(!font_name(b"a.woff"));
    assert!(!font_name(b"a.ttf.bak"));
    assert!(!font_name(b"a.ttf."));
    assert!(!font_name(b"a.ttff"));
    assert!(!font_name(b"a.tf"));
    assert!(!font_name(b"a.otf "));
}

#[test]
fn font_name_is_case_sensitive() {
    assert!(!font_name(b"a.TTF"));
    assert!(!font_name(b"a.Otf"));
    assert!(!font_name(b"a.tTf"));
}

#[test]
fn font_name_needs_a_stem_and_a_dot() {
    assert!(!font_name(b""));
    assert!(!font_name(b"ttf"));
    assert!(!font_name(b"otf"));
    assert!(!font_name(b".ttf"));
    assert!(!font_name(b".otf"));
    assert!(!font_name(b"."));
    assert!(!font_name(b"attf"));
}

#[test]
fn font_name_agrees_with_the_standard_library() {
    let names = [
        "a.ttf", "a.otf", ".ttf", "ttf", "a.b.ttf", "a.ttf.", "a.TTF", "a", "a.", "..ttf", "a..otf",
        "x.ttfx", "x.ot", ".a.otf",
    ];
    for name in names {
        let extension = std::path::Path::new(name).extension();
        let expected = extension.map(|e| e == "otf" || e == "ttf").unwrap_or(false);
        assert_eq!(font_name(name.as_bytes()), expected, "name {:?}", name);
    }
}
