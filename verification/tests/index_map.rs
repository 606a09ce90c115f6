use bit::index::Index;
use bit::strmap::StrMap;
use bit::text::str_lt;

#[test]
fn index_new_is_empty() {
    let i = Index::new();
    assert!(i.entries.is_empty());
    assert!(i.get("a").is_none());
    assert!(Index::default().entries.is_empty());
}

#[test]
fn index_get_after_insert() {
    let mut i = Index::new();
    i.insert("a.txt".to_string(), "h1".to_string());
    i.insert("b.txt".to_string(), "h2".to_string());
    assert_eq!(i.get("a.txt").map(|s| s.as_str()), Some("h1"));
    assert_eq!(i.get("b.txt").map(|s| s.as_str()), Some("h2"));
    assert!(i.get("c.txt").is_none());
    i.insert("a.txt".to_string(), "h3".to_string());
    assert_eq!(i.get("a.txt").map(|s| s.as_str()), Some("h3"));
    assert_eq!(i.get("b.txt").map(|s| s.as_str()), Some("h2"));
}

#[test]
fn index_remove() {
    let mut i = Index::new();
    i.insert("a".to_string(), "1".to_string());
    assert!(i.remove("a"));
    assert!(i.get("a").is_none());
    assert!(!i.remove("a"));
    assert!(i.entries.is_empty());
}

#[test]
fn index_clone_keeps_entries() {
    let mut i = Index::new();
    i.insert("x".to_string(), "1".to_string());
    let j = i.clone();
    assert_eq!(j.get("x").map(|s| s.as_str()), Some("1"));
}

#[test]
fn strmap_keeps_keys_in_string_order() {
    let mut m = StrMap::new();
    for k in ["pear", "apple", "Zebra", "apple pie", "é", "b"] {
        m.insert(k.to_string(), k.to_uppercase());
    }
    let keys: Vec<String> = (0..m.len()).map(|i| m.key_at(i).clone()).collect();
    let mut expected: Vec<String> = ["pear", "apple", "Zebra", "apple pie", "é", "b"].iter().map(|s| s.to_string()).collect();
    expected.sort();
    assert_eq!(keys, expected);
    assert_eq!(m.value_at(0), "ZEBRA");
    assert!(m.contains_key("é"));
    assert!(!m.contains_key("e"));
}

#[test]
fn str_lt_is_string_order() {
    assert!(str_lt("a", "b"));
    assert!(str_lt("a", "ab"));
    assert!(!str_lt("ab", "a"));
    assert!(!str_lt("a", "a"));
    assert!(str_lt("Z", "a"));
    assert!(str_lt("", "a"));
    assert!(str_lt("z", "é"));
}

#[test]
fn strmap_len_and_positions() {
    let mut m = StrMap::new();
    assert_eq!(m.len(), 0);
    m.insert("b".to_string(), "2".to_string());
    m.insert("a".to_string(), "1".to_string());
    m.insert("b".to_string(), "3".to_string());
    assert_eq!(m.len(), 2);
    assert_eq!(m.key_at(0), "a");
    assert_eq!(m.value_at(0), "1");
    assert_eq!(m.key_at(1), "b");
    assert_eq!(m.value_at(1), "3");
    assert!(m.remove("a"));
    assert_eq!(m.len(), 1);
}
