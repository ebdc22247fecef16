use uv_tool::path::{
    file_name, is_absolute, join, normalize_absolute_path, split_components, strip_prefix,
};

#[test]
fn components_skip_empty_pieces_and_dots() {
    assert_eq!(split_components("/usr//local/./bin/"), vec!["/", "usr", "local", "bin"]);
    assert_eq!(split_components("./a/../b"), vec![".", "a", "..", "b"]);
    assert_eq!(split_components("a/."), vec!["a"]);
    assert_eq!(split_components("//"), vec!["/"]);
    assert_eq!(split_components(""), Vec::<&str>::new());
}

#[test]
fn components_agree_with_std() {
    for text in [
        "", "/", "//", ".", "./", "./.", "a", "a/", "a//b", "/a/./b/", "../x", "a/..", ".hidden/x",
        "/..", "./a/./b", "é/ü",
    ] {
        let expected: Vec<String> = std::path::Path::new(text)
            .components()
            .map(|c| c.as_os_str().to_string_lossy().into_owned())
            .collect();
        assert_eq!(split_components(text), expected, "{text:?}");
    }
}

#[test]
fn join_agrees_with_std() {
    for base in ["", "/", "a", "a/", "/a/b", "."] {
        for tail in ["", "b", "/b", "./b", "../b", "b/c"] {
            let expected = std::path::Path::new(base).join(tail);
            assert_eq!(join(base, tail), expected.to_str().unwrap(), "{base:?} {tail:?}");
        }
    }
}

#[test]
fn strip_prefix_agrees_with_std() {
    let texts = [
        "", "/", "a", "a/b", "a//b/", "a/./b/c/.", "/a/b", "./a/b", "../../bin/x", "../..", "a/bc",
        "/./a", "//a//",
    ];
    for text in texts {
        for base in texts {
            let expected = std::path::Path::new(text).strip_prefix(base).ok();
            assert_eq!(
                strip_prefix(text, base),
                expected.map(|path| path.to_str().unwrap()),
                "{text:?} {base:?}"
            );
        }
    }
}

#[test]
fn file_name_agrees_with_std() {
    for text in ["", "/", "a", "a/", "a/.", "a/..", ".", "..", "/a/b.txt", "./x"] {
        let expected = std::path::Path::new(text).file_name().map(|name| name.to_str().unwrap());
        assert_eq!(file_name(text), expected, "{text:?}");
    }
}

#[test]
fn absolute_paths_start_at_the_root() {
    assert!(is_absolute("/a"));
    assert!(!is_absolute("a/b"));
    assert!(!is_absolute(""));
}

#[test]
fn normalizing_resolves_dots() {
    assert_eq!(
        normalize_absolute_path("/home/me/bin/../share/./man"),
        Some("/home/me/share/man".to_string())
    );
    assert_eq!(normalize_absolute_path("/a/.."), Some("/".to_string()));
    assert_eq!(normalize_absolute_path("/a/../.."), None);
    assert_eq!(normalize_absolute_path("a/./b/.."), Some("a".to_string()));
    assert_eq!(normalize_absolute_path("../a"), None);
}

#[test]
fn normalizing_twice_changes_nothing() {
    let once = normalize_absolute_path("/x//y/../z/").unwrap();
    assert_eq!(once, "/x/z");
    assert_eq!(normalize_absolute_path(&once), Some(once.clone()));
}

#[test]
fn stripping_undoes_joining() {
    for base in ["", "/", "/opt/tools", "opt//tools/", "."] {
        let whole = join(base, "bin/ruff");
        assert_eq!(strip_prefix(&whole, base), Some("bin/ruff"), "{base:?}");
    }
}

#[test]
fn joining_undoes_stripping() {
    for (text, base) in
        [("/a//b/./c/", "/a"), ("../../bin/x", "../.."), ("./a", ""), ("/a", ""), ("a/b", "a/b")]
    {
        let tail = strip_prefix(text, base).unwrap();
        let whole = join(base, tail);
        assert_eq!(split_components(&whole), split_components(text), "{text:?} {base:?}");
    }
}

#[test]
fn joining_appends_components() {
    for base in ["", "/", "a/b", "/a/", "./x"] {
        let mut expected = split_components(base);
        expected.extend(["y", "..", "z"]);
        assert_eq!(split_components(&join(base, "y/../z")), expected, "{base:?}");
    }
    assert_eq!(split_components(&join("a", "./b/c")), vec!["a", "b", "c"]);
    assert_eq!(split_components(&join("", "./b")), vec![".", "b"]);
}
