use bit::ignore::Bitignore;

fn pats(b: &Bitignore) -> Vec<String> {
    b.patterns().clone()
}

#[test]
fn parse_trims_and_skips_comments_and_blank_lines() {
    let b = Bitignore::parse("  target/ \n# a comment\n\n*.log\r\nsecret.txt");
    assert_eq!(pats(&b), vec!["target/", "*.log", "secret.txt"]);
}

#[test]
fn parse_empty_file() {
    assert!(pats(&Bitignore::parse("")).is_empty());
    assert!(pats(&Bitignore::parse("\n\n   \n#x\n")).is_empty());
}

#[test]
fn parse_trims_unicode_white_space_before_the_comment_test() {
    let b = Bitignore::parse("\u{a0}my file.txt\u{3000}\n\t #not comment? \n");
    assert_eq!(pats(&b), vec!["my file.txt"]);
}

#[test]
fn nothing_ignored_without_patterns() {
    let b = Bitignore::parse("");
    assert!(!b.is_ignored("a.txt"));
    assert!(!b.is_ignored(""));
}

#[test]
fn directory_pattern_matches_any_component() {
    let b = Bitignore::parse("target/\nbuild//\n");
    assert!(b.is_ignored("target/debug/app"));
    assert!(b.is_ignored("src/target/x.rs"));
    assert!(b.is_ignored("build/out.o"));
    assert!(!b.is_ignored("targets/x"));
    assert!(b.is_ignored("target"));
}

#[test]
fn extension_pattern_matches_file_name_suffix() {
    let b = Bitignore::parse("*.log");
    assert!(b.is_ignored("app.log"));
    assert!(b.is_ignored("logs/x/app.log"));
    assert!(!b.is_ignored("app.log.txt"));
    assert!(!b.is_ignored("log"));
    assert!(!b.is_ignored("applog"));
}

#[test]
fn name_pattern_matches_file_name_or_whole_path() {
    let b = Bitignore::parse("secret.txt\ndocs/readme.md");
    assert!(b.is_ignored("secret.txt"));
    assert!(b.is_ignored("deep/dir/secret.txt"));
    assert!(b.is_ignored("docs/readme.md"));
    assert!(!b.is_ignored("other/readme.md"));
    assert!(!b.is_ignored("secret.txt.bak"));
}

#[test]
fn file_name_follows_path_normalization() {
    let b = Bitignore::parse("x");
    assert!(b.is_ignored("a/x/"));
    assert!(b.is_ignored("a/x/."));
    assert!(!b.is_ignored("x/.."));
}

#[test]
fn matches_path_takes_components() {
    let b = Bitignore::parse("cache/\n*.tmp");
    let comps = vec!["a".to_string(), "cache".to_string(), "f".to_string()];
    assert!(b.matches_path("a/cache/f", &comps, "f"));
    let comps = vec!["a".to_string(), "f.tmp".to_string()];
    assert!(b.matches_path("a/f.tmp", &comps, "f.tmp"));
    let comps = vec!["a".to_string(), "..".to_string()];
    assert!(!b.matches_path("a/..", &comps, ""));
    let comps = vec!["a".to_string()];
    assert!(!b.matches_path("a", &comps, "a"));
}
