use wasm_pkg_client::text_map::{comes_before, TextMap};

fn map(pairs: &[(&str, &str)]) -> TextMap {
    let mut map = TextMap::new();
    for (key, value) in pairs {
        map.insert(key.to_string(), value.to_string());
    }
    map
}

#[test]
fn a_map_is_walked_in_the_order_of_its_keys() {
    let map = map(&[("b", "2"), ("a", "1"), ("é", "4"), ("ab", "3")]);
    assert_eq!(map.len(), 4);
    assert_eq!(map.entry(0), ("a", "1"));
    assert_eq!(map.entry(1), ("ab", "3"));
    assert_eq!(map.entry(2), ("b", "2"));
    assert_eq!(map.entry(3), ("é", "4"));
}

#[test]
fn the_order_does_not_depend_on_the_insertions() {
    let one = map(&[("x", "1"), ("y", "2"), ("z", "3")]);
    let other = map(&[("z", "0"), ("y", "2"), ("x", "1"), ("z", "3")]);
    assert_eq!(one.to_pairs(), other.to_pairs());
}

#[test]
fn a_second_value_replaces_the_first() {
    let map = map(&[("a", "1"), ("b", "2"), ("a", "3")]);
    assert_eq!(map.len(), 2);
    assert_eq!(map.get("a"), Some("3"));
    assert_eq!(map.get("b"), Some("2"));
    assert_eq!(map.get("c"), None);
    assert!(map.contains_key("a"));
    assert!(!map.contains_key(""));
}

#[test]
fn an_empty_map_has_no_entries() {
    let map = TextMap::new();
    assert!(map.is_empty());
    assert_eq!(map.len(), 0);
    assert_eq!(map.get(""), None);
    assert!(map.to_pairs().is_empty());
}

#[test]
fn pairs_make_a_map() {
    let pairs = vec![
        ("k".to_string(), "old".to_string()),
        ("a".to_string(), "1".to_string()),
        ("k".to_string(), "new".to_string()),
    ];
    let map = TextMap::from_pairs(pairs);
    assert!(!map.is_empty());
    assert_eq!(
        map.to_pairs(),
        vec![
            ("a".to_string(), "1".to_string()),
            ("k".to_string(), "new".to_string()),
        ]
    );
}

#[test]
fn the_order_of_texts_is_that_of_their_characters() {
    assert!(comes_before("", "a"));
    assert!(comes_before("a", "ab"));
    assert!(comes_before("B", "a"));
    assert!(!comes_before("a", "a"));
    assert!(!comes_before("b", "ab"));
    for (a, b) in [("", "a"), ("z", "é"), ("abc", "abd"), ("a", "a")] {
        assert_eq!(comes_before(a, b), a < b);
        assert_eq!(comes_before(b, a), b < a);
    }
}
