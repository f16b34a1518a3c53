use astraea::policy::{copy_strings, root_name};
use astraea::text::{
    chars_concat, chars_contains, chars_ends_with, chars_eq, chars_find, chars_slice, chars_starts_with,
    from_chars, join_chars, split_chars, to_chars,
};

fn chars(s: &str) -> Vec<char> {
    s.chars().collect()
}

#[test]
fn conversions_round_trip() {
    assert_eq!(to_chars("héllo"), chars("héllo"));
    assert_eq!(from_chars(&chars("héllo")), "héllo");
    assert_eq!(from_chars(&Vec::new()), "");
}

#[test]
fn comparisons_and_searches() {
    assert!(chars_eq(&chars("abc"), &chars("abc")));
    assert!(!chars_eq(&chars("abc"), &chars("abd")));
    assert!(chars_starts_with(&chars("node:fs"), &chars("node:")));
    assert!(!chars_starts_with(&chars("no"), &chars("node:")));
    assert!(chars_ends_with(&chars("a.node"), &chars(".node")));
    assert!(!chars_ends_with(&chars("node"), &chars(".node")));
    assert_eq!(chars_find(&chars("/a/node_modules/b"), &chars("node_modules/")), Some(3));
    assert_eq!(chars_find(&chars("abc"), &chars("")), Some(0));
    assert_eq!(chars_find(&chars("abc"), &chars("x")), None);
    assert!(chars_contains(&chars("*.x"), '*'));
    assert!(!chars_contains(&chars("x"), '*'));
}

#[test]
fn slicing_and_concatenation() {
    assert_eq!(chars_slice(&chars("abcdef"), 1, 4), chars("bcd"));
    assert_eq!(chars_concat(&chars("ab"), &chars("cd")), chars("abcd"));
}

#[test]
fn split_matches_str_split() {
    for s in ["a:b:c", "", ":", "a::b", "allow:host:443"] {
        let got: Vec<String> = split_chars(&chars(s), ':').iter().map(|v| from_chars(v)).collect();
        let expected: Vec<String> = s.split(':').map(|p| p.to_string()).collect();
        assert_eq!(got, expected);
    }
}

#[test]
fn join_inverts_split() {
    let parts = split_chars(&chars("a/b//c"), '/');
    assert_eq!(join_chars(&parts, '/'), chars("a/b//c"));
}

#[test]
fn policy_helpers() {
    assert_eq!(root_name(), chars("root"));
    let v = vec!["x".to_string(), "y".to_string()];
    assert_eq!(copy_strings(&v), v);
}
