use bit::commands::{classify, is_untracked, partition, prepare_commit, select_files_to_add, select_untracked, status_lines, to_decimal, Change};
use bit::ignore::Bitignore;
use bit::index::Index;
use bit::object::{Blob, Commit, Tree};
use bit::sort::sort_strings;

fn strings(v: &[&str]) -> Vec<String> {
    v.iter().map(|s| s.to_string()).collect()
}

#[test]
fn decimal_text() {
    assert_eq!(to_decimal(0), "0");
    assert_eq!(to_decimal(42), "42");
    assert_eq!(to_decimal(-7), "-7");
    assert_eq!(to_decimal(1700000000), "1700000000");
    assert_eq!(to_decimal(i64::MIN), i64::MIN.to_string());
    assert_eq!(to_decimal(i64::MAX), i64::MAX.to_string());
}

#[test]
fn sort_strings_orders_with_duplicates() {
    let v = strings(&["b", "a", "c", "a", "B"]);
    assert_eq!(sort_strings(&v), strings(&["B", "a", "a", "b", "c"]));
    assert!(sort_strings(&Vec::new()).is_empty());
}

#[test]
fn classify_each_kind() {
    let content = b"data".to_vec();
    let h = Blob::new(content.clone()).calculate_hash();
    assert_eq!(classify(&h, Some(content)), Change::Staged);
    assert_eq!(classify(&h, Some(b"other".to_vec())), Change::Modified);
    assert_eq!(classify(&h, None), Change::Deleted);
}

#[test]
fn untracked_needs_not_ignored_not_staged_not_committed() {
    let ignore = Bitignore::parse("*.log");
    let mut index = Index::new();
    index.insert("staged.txt".to_string(), "h".to_string());
    let mut head = Tree::new();
    head.insert("committed.txt".to_string(), "h".to_string());
    assert!(is_untracked(&ignore, &index, &head, "new.txt"));
    assert!(!is_untracked(&ignore, &index, &head, "debug.log"));
    assert!(!is_untracked(&ignore, &index, &head, "staged.txt"));
    assert!(!is_untracked(&ignore, &index, &head, "committed.txt"));
}

#[test]
fn status_clean_tree() {
    let lines = status_lines(&Vec::new(), &Vec::new(), &Vec::new(), &Vec::new());
    assert_eq!(lines, strings(&["On branch main", "", "Nothing to commit, working tree clean"]));
}

#[test]
fn status_full_report_sorted() {
    let lines = status_lines(
        &strings(&["b.txt", "a.txt"]),
        &strings(&["m.txt"]),
        &strings(&["gone.txt"]),
        &strings(&["z", "new"]),
    );
    assert_eq!(
        lines,
        strings(&[
            "On branch main",
            "",
            "Changes to be committed:",
            "        staged:   a.txt",
            "        staged:   b.txt",
            "        modified: m.txt",
            "        deleted:  gone.txt",
            "",
            "Untracked files:",
            "        new",
            "        z",
            "",
        ])
    );
}

#[test]
fn status_only_untracked() {
    let lines = status_lines(&Vec::new(), &Vec::new(), &Vec::new(), &strings(&["u"]));
    assert_eq!(
        lines,
        strings(&["On branch main", "", "Nothing to commit, working tree clean", "Untracked files:", "        u", ""])
    );
}

#[test]
fn log_lines_of_commits() {
    let c = Commit::new(Some("parent".to_string()), 123, "t".to_string(), "h".to_string(), "fix".to_string());
    assert_eq!(c.log_lines(), strings(&["Commit: h", "Timestamp: 123", "Message: fix", "Parent: parent", ""]));
    assert_eq!(c.next_in_log(), "parent");
    let g = Commit::new(None, -1, "t".to_string(), "g".to_string(), String::new());
    assert_eq!(g.log_lines(), strings(&["Commit: g", "Timestamp: -1", "Genesis commit", ""]));
    assert_eq!(g.next_in_log(), "");
}

#[test]
fn prepare_commit_nothing_staged() {
    assert!(prepare_commit(&Index::new(), None, 1, "m").is_none());
}

#[test]
fn prepare_commit_records_tree_and_own_hash() {
    let mut index = Index::new();
    index.insert("a.txt".to_string(), "ha".to_string());
    index.insert("b.txt".to_string(), "hb".to_string());
    let (tree, commit) = prepare_commit(&index, Some("prev".to_string()), 99, "msg").unwrap();
    let mut expected_tree = Tree::new();
    expected_tree.insert("b.txt".to_string(), "hb".to_string());
    expected_tree.insert("a.txt".to_string(), "ha".to_string());
    assert_eq!(tree.calculate_hash(), expected_tree.calculate_hash());
    assert_eq!(commit.tree, expected_tree.calculate_hash());
    assert_eq!(commit.parent.as_deref(), Some("prev"));
    assert_eq!(commit.timestamp, 99);
    assert_eq!(commit.message, "msg");
    assert_eq!(commit.commit_hash, commit.calculate_hash());
    let draft = Commit::new(Some("prev".to_string()), 99, commit.tree.clone(), String::new(), "msg".to_string());
    assert_eq!(commit.commit_hash, draft.calculate_hash());
}

#[test]
fn partition_places_each_file_in_its_list() {
    let kept = b"same".to_vec();
    let mut index = Index::new();
    index.insert("c.txt".to_string(), Blob::new(kept.clone()).calculate_hash());
    index.insert("a.txt".to_string(), Blob::new(b"old".to_vec()).calculate_hash());
    index.insert("b.txt".to_string(), "whatever".to_string());
    index.insert("d.txt".to_string(), Blob::new(b"d".to_vec()).calculate_hash());
    // contents in index order: a, b, c, d
    let contents = vec![Some(b"new".to_vec()), None, Some(kept), Some(b"d".to_vec())];
    let (staged, modified, deleted) = partition(&index, &contents);
    assert_eq!(staged, strings(&["c.txt", "d.txt"]));
    assert_eq!(modified, strings(&["a.txt"]));
    assert_eq!(deleted, strings(&["b.txt"]));
}

#[test]
fn partition_of_empty_index() {
    let (s, m, d) = partition(&Index::new(), &Vec::new());
    assert!(s.is_empty() && m.is_empty() && d.is_empty());
}

#[test]
fn select_untracked_keeps_order_and_filters() {
    let ignore = Bitignore::parse("*.log\ntarget/");
    let mut index = Index::new();
    index.insert("staged.txt".to_string(), "h".to_string());
    let mut head = Tree::new();
    head.insert("old.txt".to_string(), "h".to_string());
    let paths = strings(&["z.txt", "a.log", "staged.txt", "target/x", "old.txt", "b.txt"]);
    assert_eq!(select_untracked(&ignore, &index, &head, &paths), strings(&["z.txt", "b.txt"]));
}

#[test]
fn select_files_to_add_drops_ignored_and_keeps_order() {
    let ignore = Bitignore::parse("*.log\nbuild/");
    let paths = strings(&["src/main.rs", "app.log", "build/out.o", "README", "src/build/x"]);
    assert_eq!(select_files_to_add(&ignore, &paths), strings(&["src/main.rs", "README"]));
    let none = Bitignore::parse("");
    assert_eq!(select_files_to_add(&none, &paths), paths);
}
