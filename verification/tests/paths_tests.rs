use astraea::paths::{normalize_path, path_join, strip_prefix};

fn chars(s: &str) -> Vec<char> {
    s.chars().collect()
}

fn text(v: &[char]) -> String {
    v.iter().collect()
}

#[test]
fn normalize_resolves_parent_and_current_components() {
    assert_eq!(normalize_path("/a/b/../c"), "/a/c");
    assert_eq!(normalize_path("a/./b//c/"), "a/b/c");
    assert_eq!(normalize_path("./src/../lib/x.js"), "lib/x.js");
}

#[test]
fn normalize_keeps_leading_parents_of_relative_paths() {
    assert_eq!(normalize_path("../x"), "../x");
    assert_eq!(normalize_path("../../a"), "../../a");
    assert_eq!(normalize_path("a/../../b"), "../b");
}

#[test]
fn normalize_drops_parents_above_the_root() {
    assert_eq!(normalize_path("/../x"), "/x");
    assert_eq!(normalize_path("/a/../../etc/passwd"), "/etc/passwd");
}

#[test]
fn normalize_of_empty_results() {
    assert_eq!(normalize_path(""), ".");
    assert_eq!(normalize_path("."), ".");
    assert_eq!(normalize_path("a/.."), ".");
    assert_eq!(normalize_path("/"), "/");
    assert_eq!(normalize_path("//"), "/");
}

#[test]
fn normalize_is_idempotent_on_examples() {
    for p in ["/a/b/../c", "../../x/./y", "a/../../b/", "", "/..", "x//y/../z/."] {
        let once = normalize_path(p);
        assert_eq!(normalize_path(&once), once);
    }
}

#[test]
fn join_appends_relative_paths() {
    assert_eq!(text(&path_join(&chars("/proj"), &chars("src/a.js"))), "/proj/src/a.js");
    assert_eq!(text(&path_join(&chars("/proj/"), &chars("src"))), "/proj/src");
    assert_eq!(text(&path_join(&chars(""), &chars("src"))), "src");
    assert_eq!(text(&path_join(&chars("/proj"), &chars(""))), "/proj/");
}

#[test]
fn join_with_absolute_path_replaces_base() {
    assert_eq!(text(&path_join(&chars("/proj"), &chars("/etc/hosts"))), "/etc/hosts");
}

#[test]
fn join_agrees_with_std_path_buf() {
    for (b, p) in [("/proj", "x/y"), ("/proj/", "x"), ("", "x"), ("a", "/b"), ("/", "x")] {
        let mut expected = std::path::PathBuf::from(b);
        expected.push(p);
        assert_eq!(text(&path_join(&chars(b), &chars(p))), expected.to_string_lossy());
    }
}

#[test]
fn strip_prefix_by_components() {
    assert_eq!(strip_prefix(&chars("/proj/src/a.js"), &chars("/proj")).map(|v| text(&v)), Some("src/a.js".to_string()));
    assert_eq!(strip_prefix(&chars("/proj/src/a.js"), &chars("/proj/")).map(|v| text(&v)), Some("src/a.js".to_string()));
    assert_eq!(strip_prefix(&chars("/project/a"), &chars("/proj")).map(|v| text(&v)), None);
    assert_eq!(strip_prefix(&chars("/proj"), &chars("/proj")).map(|v| text(&v)), Some(String::new()));
}

#[test]
fn strip_prefix_agrees_with_std_path() {
    let cases = [
        ("/proj/src/a.js", "/proj"),
        ("/proj/src/a.js", "/proj/src/"),
        ("/proj/./src/a.js", "/proj"),
        ("/proj//src//a.js/", "/proj"),
        ("/other/a", "/proj"),
        ("proj/a", "/proj"),
        ("/proj/../x", "/proj"),
        ("/proj", "/proj"),
        ("./a/b", "a"),
        ("a/b", "./a"),
    ];
    for (s, base) in cases {
        let expected = std::path::Path::new(s)
            .strip_prefix(base)
            .ok()
            .map(|r| r.to_string_lossy().to_string());
        let got = strip_prefix(&chars(s), &chars(base)).map(|v| text(&v));
        assert_eq!(got, expected, "strip_prefix({s:?}, {base:?})");
    }
}

#[test]
fn normalized_absolute_paths_hold_no_traversal() {
    for p in ["/a/../../b", "/../../..", "/x/./y/../../../z", "//a//b/", "/a/b/c/../../.."] {
        let n = normalize_path(p);
        assert!(n.starts_with('/'));
        for c in n.split('/').skip(1) {
            assert!(c != ".." && c != "." , "{p} -> {n}");
        }
        assert!(n == "/" || !n.ends_with('/'));
    }
}

#[test]
fn normalized_relative_paths_keep_parents_only_in_front() {
    let n = normalize_path("a/../../b/../../c/./d");
    assert_eq!(n, "../../c/d");
}
