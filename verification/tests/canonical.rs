use pi_core::canonical::{
    absolute_path, normalize_dot_segments, safe_canonicalize, strip_unc_prefix,
};
use pi_core::paths::{
    ancestors_of, extension_of, file_stem_of, is_absolute, join_paths, parent_of, paths_equal,
    relative_to, Platform,
};
use std::path::Path;

const SAMPLES: [&str; 26] = [
    "", "/", "//", "a", "/a", "a/", "a//b", "./a", "a/.", "a/./b", "..", "../a", "a/..", "/..",
    "/a/../b", "a.rs", "/x/.hidden", ".", "./.", "x/a.tar.gz", "dir.d/", "...", "..a", "a/b/c/",
    "\u{e4}/\u{f6}.\u{fc}", " / a ",
];

fn text(p: &Path) -> String {
    p.to_str().unwrap().to_string()
}

#[test]
fn paths_are_taken_apart_as_std_does() {
    for s in SAMPLES {
        let p = Path::new(s);
        let extension = p.extension().map(|e| e.to_str().unwrap().to_string());
        assert_eq!(extension_of(s, Platform::Unix), extension, "{s}");
        let stem = p.file_stem().map(|e| e.to_str().unwrap().to_string());
        assert_eq!(file_stem_of(s, Platform::Unix), stem, "{s}");
        assert_eq!(parent_of(s, Platform::Unix), p.parent().map(text), "{s}");
        assert_eq!(is_absolute(s, Platform::Unix), p.is_absolute(), "{s}");
        let above: Vec<String> = p.ancestors().skip(1).map(text).collect();
        assert_eq!(ancestors_of(s, Platform::Unix), above, "{s}");
    }
}

#[test]
fn pairs_of_paths_relate_as_in_std() {
    for a in SAMPLES {
        for b in SAMPLES {
            let (p, q) = (Path::new(a), Path::new(b));
            assert_eq!(paths_equal(a, b, Platform::Unix), p == q, "{a} {b}");
            let rest = p.strip_prefix(q).ok().map(text);
            assert_eq!(relative_to(a, b, Platform::Unix), rest, "{a} {b}");
            assert_eq!(join_paths(a, b, Platform::Unix), text(&p.join(q)), "{a} {b}");
        }
    }
}

#[test]
fn dot_segments_are_resolved() {
    assert_eq!(normalize_dot_segments("/a/./b/../c", Platform::Unix), "/a/c");
    assert_eq!(normalize_dot_segments("a/../../b", Platform::Unix), "../b");
    assert_eq!(normalize_dot_segments("/../a", Platform::Unix), "/a");
    assert_eq!(normalize_dot_segments("../../x", Platform::Unix), "../../x");
    assert_eq!(normalize_dot_segments("a/..", Platform::Unix), "");
    assert_eq!(normalize_dot_segments(".", Platform::Unix), "");
    for s in SAMPLES {
        let once = normalize_dot_segments(s, Platform::Unix);
        assert_eq!(normalize_dot_segments(&once, Platform::Unix), once, "{s}");
    }
}

#[test]
fn verbatim_prefixes_go_on_windows_only() {
    let strip = |s: &str| strip_unc_prefix(s.to_string(), Platform::Windows);
    assert_eq!(strip(r"\\?\C:\x"), r"C:\x");
    assert_eq!(strip(r"\\?\UNC\server\share"), r"\\server\share");
    assert_eq!(strip(r"\\?\UNCLE"), r"UNCLE");
    assert_eq!(strip("//?/C:/x"), "C:/x");
    assert_eq!(strip("//?/UNC/server/share"), "//server/share");
    assert_eq!(strip(r"C:\x"), r"C:\x");
    assert_eq!(strip_unc_prefix(r"\\?\C:\x".to_string(), Platform::Unix), r"\\?\C:\x");
}

#[test]
fn existing_paths_are_taken_as_they_resolve() {
    let resolved = safe_canonicalize(
        "/a/link",
        Some("/real/file".to_string()),
        "/",
        &Vec::new(),
        Platform::Unix,
    );
    assert_eq!(resolved, "/real/file");
    let resolved = safe_canonicalize(
        "x",
        Some(r"\\?\C:\real".to_string()),
        "/",
        &Vec::new(),
        Platform::Windows,
    );
    assert_eq!(resolved, r"C:\real");
}

#[test]
fn missing_paths_hang_on_their_nearest_ancestor() {
    let absolute = absolute_path("new/sub/../file", "/work", Platform::Unix);
    assert_eq!(absolute, "/work/new/sub/../file");
    let answers: Vec<Option<String>> = ancestors_of(&absolute, Platform::Unix)
        .iter()
        .map(|a| if a == "/work" { Some("/real/work".to_string()) } else { None })
        .collect();
    let resolved =
        safe_canonicalize("new/sub/../file", None, "/work", &answers, Platform::Unix);
    assert_eq!(resolved, "/real/work/new/file");
}

#[test]
fn normal_forms_do_not_climb_out_of_a_root() {
    for s in SAMPLES {
        let normal = normalize_dot_segments(&format!("/{s}"), Platform::Unix);
        assert!(!normal.split('/').any(|part| part == ".." || part == "."), "{s}");
    }
}

#[test]
fn missing_paths_stay_below_the_root() {
    for s in ["../../etc/passwd", "a/../../../b", "..", "./x"] {
        let resolved = safe_canonicalize(s, None, "/work/dir", &Vec::new(), Platform::Unix);
        assert!(resolved.starts_with('/'), "{s}");
        assert!(!resolved.split('/').any(|part| part == ".."), "{s}");
    }
}

const WINDOWS: Platform = Platform::Windows;

#[test]
fn windows_paths_are_joined_as_std_documents() {
    for (base, rel, expected) in [
        ("", "foo", "foo"),
        ("foo", "bar", r"foo\bar"),
        (r"foo\", "bar", r"foo\bar"),
        ("foo/", "bar", "foo/bar"),
        ("foo", r"\bar", r"\bar"),
        ("foo/bar", "..", r"foo/bar\.."),
        ("C:", "foo", "C:foo"),
        ("C:a", "b", r"C:a\b"),
        (r"C:\a", "b", r"C:\a\b"),
        (r"C:\", "b", r"C:\b"),
        (r"C:\a\b", r"\c", r"C:\c"),
        (r"C:\a\b", "C:d", "C:d"),
        (r"C:\a\b", r"D:\d", r"D:\d"),
        (r"\\server\share\foo", "bar", r"\\server\share\foo\bar"),
        (r"\\server\share\foo", r"\bar", r"\\server\share\bar"),
        (r"\\server\share", "bar", r"\\server\share\bar"),
        (r"\\.\foo\bar", "baz", r"\\.\foo\bar\baz"),
        (r"\\?\C:\bar", "../foo", r"\\?\C:\foo"),
        (r"\\?\C:\bar", "../../foo", r"\\?\C:\foo"),
        (r"\\?\C:\", "foo/bar", r"\\?\C:\foo\bar"),
        (r"\\?\A:\x\y", "/foo", r"\\?\A:\foo"),
        (r"\\?\A:", r"..\foo\.", r"\\?\A:\foo"),
        (r"\\?\A:\x\y", r".\foo\.", r"\\?\A:\x\y\foo"),
        (r"\\?\A:\x\y", "", r"\\?\A:\x\y\"),
        (r"\\?\C:", r"D:\foo/./", r"D:\foo/./"),
        (r"\\?\UNC\server\share\foo", "bar", r"\\?\UNC\server\share\foo\bar"),
        (r"\\?\UNC\server", "foo", r"\\?\UNC\server\foo"),
        (r"\\?\foo", "bar", r"\\?\foo\bar"),
    ] {
        assert_eq!(join_paths(base, rel, WINDOWS), expected, "{base} {rel}");
    }
}

#[test]
fn windows_paths_are_taken_apart() {
    for (path, absolute, parent) in [
        ("", false, None),
        ("foo", false, Some("")),
        (r"\", false, None),
        (r"\foo", false, Some(r"\")),
        ("C:", false, None),
        ("C:foo", false, Some("C:")),
        (r"C:\", true, None),
        (r"C:\foo", true, Some(r"C:\")),
        ("C:/foo/bar", true, Some("C:/foo")),
        (r"c:\foo\..\bar", true, Some(r"c:\foo\..")),
        (r"\\server\share", true, None),
        (r"\\server\share\foo", true, Some(r"\\server\share\")),
        (r"\\server", false, Some(r"\")),
        ("//?/C:/foo.txt", true, Some("//?/C:/")),
        (r"\\?\C:\foo", true, Some(r"\\?\C:\")),
        (r"\\?\UNC\server\share\foo", true, Some(r"\\?\UNC\server\share\")),
        (r"\\?\foo/bar", true, None),
        (r"\\.\foo\bar", true, Some(r"\\.\foo\")),
    ] {
        assert_eq!(is_absolute(path, WINDOWS), absolute, "{path}");
        assert_eq!(parent_of(path, WINDOWS).as_deref(), parent, "{path}");
    }
    assert_eq!(extension_of(r"C:\a.b\c", WINDOWS), None);
    assert_eq!(extension_of(r"C:\dir\.rs", WINDOWS), None);
    assert_eq!(extension_of(r"C:\dir\x.rs", WINDOWS).as_deref(), Some("rs"));
    assert_eq!(file_stem_of(r"C:\dir\x.tar.gz", WINDOWS).as_deref(), Some("x.tar"));
    assert_eq!(
        ancestors_of(r"C:\a/b\", WINDOWS),
        vec![r"C:\a".to_string(), r"C:\".to_string()]
    );
}

#[test]
fn windows_paths_relate_by_their_components() {
    assert!(paths_equal(r"C:\a\b", "c:/a//b/", WINDOWS));
    assert!(!paths_equal(r"C:\a", r"\\?\C:\a", WINDOWS));
    assert!(!paths_equal(r"C:\a", r"C:\A", WINDOWS));
    assert_eq!(relative_to(r"C:\a\b\c", "c:/a", WINDOWS).as_deref(), Some(r"b\c"));
    assert_eq!(relative_to(r"C:\a", "C:", WINDOWS).as_deref(), Some(r"\a"));
    assert_eq!(relative_to(r"C:\a", r"D:\", WINDOWS), None);
    assert_eq!(
        relative_to(r"\\server\share\x", r"\\server\share", WINDOWS).as_deref(),
        Some("x")
    );
}

#[test]
fn dot_segments_are_resolved_on_windows() {
    for (path, expected) in [
        (r"D:\a\..\b", r"D:\b"),
        (r"D:\..\..\b", r"D:\b"),
        (r"D:..\b", "D:b"),
        ("C:/a/./b", r"C:\a\b"),
        (r"..\..\x", r"..\..\x"),
        (r"\a\..\b", r"\b"),
        (r"\\server\share\..\x", r"\\server\share\x"),
        (r"\\server\share", r"\\server\share\"),
        (r"\\?\C:\a\..\b", r"\\?\C:\b"),
        (r"\\?\UNC\server\share\a\..", r"\\?\UNC\server\share\"),
        (r"D:\a\C:x", "C:x"),
    ] {
        assert_eq!(normalize_dot_segments(path, WINDOWS), expected, "{path}");
    }
}

#[test]
fn missing_windows_paths_keep_their_drive() {
    let none: Vec<Option<String>> = Vec::new();
    for (path, expected) in [
        (r"D:\a\..\b", r"D:\b"),
        (r"..\..\..\x", r"C:\x"),
        (r"sub\..\file", r"C:\w\file"),
        ("sub/../../file", r"C:\file"),
        (r"\x\..\y", r"C:\y"),
        (r"\\?\D:\a\..\b", r"D:\b"),
        (r"\\?\UNC\server\share\a\..\b", r"\\server\share\b"),
        (r"\\server\share\..\..\b", r"\\server\share\b"),
    ] {
        let resolved = safe_canonicalize(path, None, r"C:\w", &none, WINDOWS);
        assert_eq!(resolved, expected, "{path}");
        assert!(is_absolute(&resolved, WINDOWS), "{path}");
        assert!(!resolved.split(['\\', '/']).any(|part| part == ".."), "{path}");
    }
}

#[test]
fn missing_windows_paths_hang_on_their_nearest_ancestor() {
    let path = r"new\sub\..\file";
    let absolute = absolute_path(path, r"C:\w", WINDOWS);
    assert_eq!(absolute, r"C:\w\new\sub\..\file");
    let answers: Vec<Option<String>> = ancestors_of(&absolute, WINDOWS)
        .iter()
        .map(|a| if a == r"C:\w" { Some(r"\\?\C:\real\w".to_string()) } else { None })
        .collect();
    let resolved = safe_canonicalize(path, None, r"C:\w", &answers, WINDOWS);
    assert_eq!(resolved, r"C:\real\w\new\file");
}

#[test]
fn names_with_a_drive_overtake_what_stands_before_them() {
    for (path, expected) in [
        (r"a\C:x", "C:x"),
        (r"a\C:", "C:"),
        (r"a\C:\y", "C:y"),
        (r"a\C:x\y\..\z", r"C:x\z"),
        (r"..\C:x\D:y", "D:y"),
        (r"\C:x", "C:x"),
        (r"\\?\C:\a\D:x", "D:x"),
    ] {
        let normal = normalize_dot_segments(path, WINDOWS);
        assert_eq!(normal, expected, "{path}");
        assert_eq!(normalize_dot_segments(&normal, WINDOWS), normal, "{path}");
        assert!(!is_absolute(&normal, WINDOWS), "{path}");
    }
    for (path, once, twice) in [
        (r"a\C:..", "C:..", "C:"),
        (r"a\C:.\x", r"C:.\x", "C:x"),
        (r"a\C:D:x", "C:D:x", "D:x"),
    ] {
        let normal = normalize_dot_segments(path, WINDOWS);
        assert_eq!(normal, once, "{path}");
        assert_eq!(normalize_dot_segments(&normal, WINDOWS), twice, "{path}");
    }
}

#[test]
fn normal_forms_of_windows_paths_are_normal() {
    for path in [
        "", "a", r"a\..\..\b", r"\a\.\b", r"C:\a\..\b", r"C:..\x", "C:/a/b/", r"\\s\h\..\x",
        r"\\.\dev\a\..", r"\\?\C:\a\..\b", r"\\?\C:\a/b", r"\\?\UNC\s\h\a", r"\\?\UNC\s\\a",
        r"\\?\name\a\.\b", r"\\?\C:", "//?/C:/a/../b",
    ] {
        let normal = normalize_dot_segments(path, WINDOWS);
        assert_eq!(normalize_dot_segments(&normal, WINDOWS), normal, "{path}");
        assert_eq!(is_absolute(&normal, WINDOWS), is_absolute(path, WINDOWS), "{path}");
    }
    assert_eq!(normalize_dot_segments(r"\\?\C:\a/b", WINDOWS), r"\\?\C:\a\b");
}
