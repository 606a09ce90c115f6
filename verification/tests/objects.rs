use bit::object::{Blob, Commit, Tree};

fn blake3_hex(data: &[u8]) -> String {
    blake3::hash(data).to_hex().to_string()
}

#[test]
fn blob_hash_of_empty_content() {
    let h = Blob::new(Vec::new()).calculate_hash();
    assert_eq!(h, "af1349b9f5f9a1a6a0404dea36dcc9499bcb25c9adc112b7cc9a93cae41f3262");
}

#[test]
fn blob_hash_matches_blake3_hex() {
    let content = b"hello world\n".to_vec();
    let h = Blob::new(content.clone()).calculate_hash();
    assert_eq!(h, blake3_hex(&content));
    assert_eq!(h.len(), 64);
    assert!(h.chars().all(|c| c.is_ascii_digit() || ('a'..='f').contains(&c)));
    assert_ne!(h, String::from_utf8(content).unwrap());
}

#[test]
fn blob_hash_differs_for_different_content() {
    let a = Blob::new(b"a".to_vec()).calculate_hash();
    let b = Blob::new(b"b".to_vec()).calculate_hash();
    assert_ne!(a, b);
}

#[test]
fn tree_hash_is_blake3_of_sorted_entries() {
    let mut t = Tree::new();
    t.insert("b.txt".to_string(), "hash-b".to_string());
    t.insert("a.txt".to_string(), "hash-a".to_string());
    let mut hasher = blake3::Hasher::new();
    hasher.update(b"a.txt");
    hasher.update(b"hash-a");
    hasher.update(b"b.txt");
    hasher.update(b"hash-b");
    assert_eq!(t.calculate_hash(), hasher.finalize().to_hex().to_string());
}

#[test]
fn tree_hash_ignores_insertion_order() {
    let mut t1 = Tree::new();
    t1.insert("x".to_string(), "1".to_string());
    t1.insert("y".to_string(), "2".to_string());
    t1.insert("Z".to_string(), "3".to_string());
    let mut t2 = Tree::new();
    t2.insert("Z".to_string(), "3".to_string());
    t2.insert("y".to_string(), "2".to_string());
    t2.insert("x".to_string(), "1".to_string());
    assert_eq!(t1.calculate_hash(), t2.calculate_hash());
}

#[test]
fn tree_insert_replaces_hash() {
    let mut t1 = Tree::new();
    t1.insert("f".to_string(), "old".to_string());
    t1.insert("f".to_string(), "new".to_string());
    let mut t2 = Tree::new();
    t2.insert("f".to_string(), "new".to_string());
    assert_eq!(t1.calculate_hash(), t2.calculate_hash());
    assert_eq!(t1.entries.len(), 1);
    assert_eq!(t1.entries.get("f").unwrap(), "new");
}

#[test]
fn empty_tree_hash_is_hash_of_nothing() {
    assert_eq!(Tree::new().calculate_hash(), blake3_hex(b""));
}

fn commit_reference_hash(parent: Option<&str>, ts: i64, tree: &str, message: &str) -> String {
    let mut hasher = blake3::Hasher::new();
    if let Some(p) = parent {
        hasher.update(p.as_bytes());
    }
    hasher.update(&ts.to_be_bytes());
    hasher.update(tree.as_bytes());
    hasher.update(message.as_bytes());
    hasher.finalize().to_hex().to_string()
}

#[test]
fn commit_hash_covers_parent_timestamp_tree_message() {
    let c = Commit::new(Some("p".to_string()), 1700000000, "t".to_string(), String::new(), "msg".to_string());
    assert_eq!(c.calculate_hash(), commit_reference_hash(Some("p"), 1700000000, "t", "msg"));
    let g = Commit::new(None, -5, "t".to_string(), String::new(), String::new());
    assert_eq!(g.calculate_hash(), commit_reference_hash(None, -5, "t", ""));
}

#[test]
fn commit_hash_ignores_own_hash_field() {
    let a = Commit::new(None, 42, "tree".to_string(), String::new(), "m".to_string());
    let b = Commit::new(None, 42, "tree".to_string(), "anything".to_string(), "m".to_string());
    assert_eq!(a.calculate_hash(), b.calculate_hash());
}

#[test]
fn commit_new_keeps_fields() {
    let c = Commit::new(Some("p".to_string()), 7, "t".to_string(), "h".to_string(), "m".to_string());
    assert_eq!(c.parent.as_deref(), Some("p"));
    assert_eq!(c.timestamp, 7);
    assert_eq!(c.tree, "t");
    assert_eq!(c.commit_hash, "h");
    assert_eq!(c.message, "m");
}

#[test]
fn clones_keep_contents() {
    let b = Blob::new(vec![1, 2, 3]);
    assert_eq!(b.clone().content, vec![1, 2, 3]);
    let mut t = Tree::new();
    t.insert("a".to_string(), "1".to_string());
    assert_eq!(t.clone().calculate_hash(), t.calculate_hash());
    let c = Commit::new(None, 1, "t".to_string(), "h".to_string(), "m".to_string());
    assert_eq!(c.clone().commit_hash, "h");
}

#[test]
fn hex_encoding_is_lowercase_two_digits_per_byte() {
    assert_eq!(bit::hash::to_hex_lower(&[0x00, 0x0f, 0xab, 0xff]), "000fabff");
    assert_eq!(bit::hash::to_hex_lower(&[]), "");
}
