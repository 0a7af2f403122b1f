use rootrat::order::{compare_chars, Order};
use rootrat::path_set::PathSet;
use rootrat::paths::{join_path, path_is_absolute, strip_path_prefix};
use rootrat::string_map::StringMap;
use rootrat::text::{chars_of, concat_str, string_of};

#[test]
fn string_map_insert_get_remove() {
    let mut m = StringMap::new();
    assert!(m.is_empty());
    assert_eq!(m.insert("b".to_string(), "2".to_string()), None);
    assert_eq!(m.insert("a".to_string(), "1".to_string()), None);
    assert_eq!(m.insert("b".to_string(), "3".to_string()), Some("2".to_string()));
    assert_eq!(m.len(), 2);
    assert_eq!(m.key_at(0), "a");
    assert_eq!(m.value_at(1), "3");
    assert_eq!(m.get("b"), Some(&"3".to_string()));
    assert_eq!(m.remove("a"), Some("1".to_string()));
    assert_eq!(m.remove("a"), None);
    assert!(!m.contains_key("a"));
    assert!(m.contains_key("b"));
}

#[test]
fn path_set_orders_by_components() {
    let s = PathSet::from_vec(vec!["b".to_string(), "a/z".to_string(), "a-b".to_string(), "a".to_string(), "b".to_string()]);
    assert_eq!(s.len(), 4);
    let items: Vec<&String> = (0..s.len()).map(|i| s.at(i)).collect();
    assert_eq!(items, vec!["a", "a/z", "a-b", "b"]);
    assert!(s.contains("a/z"));
    assert!(!s.contains("c"));
}

#[test]
fn path_set_union_and_insert() {
    let a = PathSet::from_vec(vec!["x".to_string(), "z".to_string()]);
    let mut b = PathSet::from_vec(vec!["y".to_string()]);
    assert!(b.insert("z".to_string()));
    assert!(!b.insert("z".to_string()));
    let u = a.union(&b);
    let items: Vec<&String> = (0..u.len()).map(|i| u.at(i)).collect();
    assert_eq!(items, vec!["x", "y", "z"]);
}

#[test]
fn compare_chars_in_path_order() {
    let a = chars_of("a/b");
    let b = chars_of("a-b");
    assert!(matches!(compare_chars(&a, &b, true), Order::Less));
    assert!(matches!(compare_chars(&a, &b, false), Order::Greater));
    assert!(matches!(compare_chars(&a, &a, true), Order::Equal));
}

#[test]
fn paths_join_and_strip() {
    assert_eq!(join_path("/a", "b"), "/a/b");
    assert_eq!(join_path("/a/", "b"), "/a/b");
    assert_eq!(join_path("/a", "/b"), "/b");
    assert_eq!(join_path("", "b"), "b");
    assert_eq!(strip_path_prefix("/a/b/c", "/a"), Some("b/c".to_string()));
    assert_eq!(strip_path_prefix("/a/b/c", "/a/b/c"), Some("".to_string()));
    assert_eq!(strip_path_prefix("/ab/c", "/a"), None);
    assert_eq!(strip_path_prefix("a/b", "/a"), None);
    assert!(path_is_absolute("/x"));
    assert!(!path_is_absolute("x"));
}

#[test]
fn text_helpers_round_trip() {
    let cs = chars_of("héllo");
    assert_eq!(cs.len(), 5);
    assert_eq!(string_of(&cs), "héllo");
    assert_eq!(concat_str("ab", "cd"), "abcd");
}

#[test]
fn strip_path_prefix_matches_std_path() {
    let cases = [
        ("/a/b/c", "/a"), ("/a//b/./c/", "/a"), ("/a/b", "/a/b/"), ("/ab/c", "/a"), ("a/b", "/a"),
        ("./a/b", "./a"), ("./a/b", "a"), ("a/./b", "a"), ("/x/y", ""), ("rel/", ""), ("./", ""),
        ("/", "/"), ("//a/b//", "/"), ("/a/b", "/a/./"), ("a/../b", "a/.."),
    ];
    for (p, base) in cases {
        let expected = std::path::Path::new(p)
            .strip_prefix(base)
            .ok()
            .map(|r| r.to_str().unwrap().to_string());
        assert_eq!(strip_path_prefix(p, base), expected, "{} - {}", p, base);
    }
}
