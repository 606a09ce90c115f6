//! The decisions behind the commands: what a commit is made of, what the log
//! shows of a commit, and what the status report says of the working files.
//! Reading and writing files is left to the caller.

use vstd::prelude::*;
use crate::object::{Blob, Tree, Commit, blob_hash, tree_hash};
use crate::index::Index;
use crate::ignore::{Bitignore, path_ignored};
use crate::sort::{sort_strings, sorted_version, views};
use crate::hash::hash_bytes;
use crate::strmap::{Listing, keys_sorted, lemma_listing_lookup};
use crate::text::{seq_lt, lemma_seq_lt_irreflexive};

verus! {

/// The decimal digit for `d < 10`.
pub open spec fn digit_char(d: int) -> char {
    (d + 48) as char
}

/// The decimal digits of `n`, most significant first, without leading zeros
/// (a single `0` for zero).
pub open spec fn digits(n: nat) -> Seq<char>
    decreases n,
{
    if n < 10 {
        seq![digit_char(n as int)]
    } else {
        digits(n / 10).push(digit_char((n % 10) as int))
    }
}

/// The decimal text of `v`, with a leading `-` when it is negative (how `i64`
/// is displayed).
pub open spec fn decimal(v: int) -> Seq<char> {
    if v < 0 {
        seq!['-'] + digits((-v) as nat)
    } else {
        digits(v as nat)
    }
}

fn push_digits(s: &mut String, n: u64)
    ensures
        final(s)@ == old(s)@ + digits(n as nat),
    decreases n,
{
    if n >= 10 {
        push_digits(s, n / 10);
    }
    let d = (n % 10) as u8;
    s.push((d + 48) as char);
    proof {
        if n >= 10 {
            assert(digits(n as nat) == digits((n / 10) as nat).push(digit_char((n % 10) as int)));
        }
    }
    assert(s@ =~= old(s)@ + digits(n as nat));
}

/// The decimal text of `v`.
pub fn to_decimal(v: i64) -> (res: String)
    ensures
        res@ == decimal(v as int),
{
    let mut res = String::new();
    if v < 0 {
        res.push('-');
        let m: u64 = (0i128 - (v as i128)) as u64;
        push_digits(&mut res, m);
    } else {
        push_digits(&mut res, v as u64);
    }
    res
}

/// How a tracked file stands against its staged version.
#[derive(Debug, Clone, Copy, PartialEq, Eq, Structural)]
pub enum Change {
    /// The file's content is the staged version.
    Staged,
    /// The file's content differs from the staged version.
    Modified,
    /// The file is gone.
    Deleted,
}

/// How a tracked file with staged hash `staged_hash` stands, given its
/// current content (`None` when the file does not exist).
pub open spec fn change_of(staged_hash: Seq<char>, content: Option<Seq<u8>>) -> Change {
    match content {
        None => Change::Deleted,
        Some(c) => if blob_hash(c) == staged_hash {
            Change::Staged
        } else {
            Change::Modified
        },
    }
}

/// The view of optional file content.
pub open spec fn content_view(content: Option<Vec<u8>>) -> Option<Seq<u8>> {
    match content {
        Some(c) => Some(c@),
        None => None,
    }
}

/// How a tracked file with staged hash `staged_hash` stands, given its
/// current content (`None` when the file does not exist): the hash of the
/// content is compared with the staged one.
pub fn classify(staged_hash: &str, content: Option<Vec<u8>>) -> (r: Change)
    ensures
        r == change_of(staged_hash@, content_view(content)),
{
    match content {
        None => Change::Deleted,
        Some(c) => {
            let h = Blob::new(c).calculate_hash();
            if h == staged_hash.to_owned() {
                Change::Staged
            } else {
                Change::Modified
            }
        },
    }
}

fn change_for(staged_hash: &str, content: &Option<Vec<u8>>) -> (r: Change)
    ensures
        r == change_of(staged_hash@, content_view(*content)),
{
    match content {
        None => Change::Deleted,
        Some(c) => {
            let h = hash_bytes(c.as_slice());
            if h == staged_hash.to_owned() {
                Change::Staged
            } else {
                Change::Modified
            }
        },
    }
}

/// The views of the contents of several files.
pub open spec fn contents_view(contents: Seq<Option<Vec<u8>>>) -> Seq<Option<Seq<u8>>> {
    contents.map_values(|c: Option<Vec<u8>>| content_view(c))
}

/// The names, among the first `n` entries of `entries`, whose file stands as
/// `ch` given `contents` (the current content of each entry's file, in the
/// same order), in the order of the entries.
pub open spec fn names_with(entries: Listing, contents: Seq<Option<Seq<u8>>>, ch: Change, n: int) -> Seq<Seq<char>>
    decreases n,
{
    if n <= 0 {
        Seq::empty()
    } else {
        let prev = names_with(entries, contents, ch, n - 1);
        if change_of(entries[n - 1].1, contents[n - 1]) == ch {
            prev.push(entries[n - 1].0)
        } else {
            prev
        }
    }
}

/// In a listing with distinct names, an entry's name is among `names_with`
/// exactly when the entry is among the first `n` and stands as `ch`.
pub proof fn lemma_names_with_contains(
    entries: Listing,
    contents: Seq<Option<Seq<u8>>>,
    ch: Change,
    n: int,
    i: int,
)
    requires
        keys_sorted(entries),
        0 <= i < entries.len(),
        n <= entries.len(),
    ensures
        names_with(entries, contents, ch, n).contains(entries[i].0)
            <==> (i < n && change_of(entries[i].1, contents[i]) == ch),
    decreases n,
{
    if n > 0 {
        lemma_names_with_contains(entries, contents, ch, n - 1, i);
        let prev = names_with(entries, contents, ch, n - 1);
        if i != n - 1 {
            if i < n - 1 {
                assert(seq_lt(entries[i].0, entries[n - 1].0));
            } else {
                assert(seq_lt(entries[n - 1].0, entries[i].0));
            }
            lemma_seq_lt_irreflexive(entries[i].0);
        }
        if change_of(entries[n - 1].1, contents[n - 1]) == ch {
            assert(prev.push(entries[n - 1].0)[prev.len() as int] == entries[n - 1].0);
            assert forall|x: Seq<char>| prev.push(entries[n - 1].0).contains(x) <==> (prev.contains(x) || x == entries[n - 1].0) by {
                if prev.push(entries[n - 1].0).contains(x) {
                    let k = choose|k: int| 0 <= k < prev.len() + 1 && #[trigger] prev.push(entries[n - 1].0)[k] == x;
                    if k < prev.len() {
                        assert(prev[k] == x);
                    }
                }
                if prev.contains(x) {
                    let k = choose|k: int| 0 <= k < prev.len() && #[trigger] prev[k] == x;
                    assert(prev.push(entries[n - 1].0)[k] == x);
                }
            }
        }
    }
}

/// Sorts the tracked files into staged, modified and deleted, given the
/// current content of each entry's file (`None` for a missing file), in the
/// order of the index entries: each file goes into the list of its change.
pub fn partition(index: &Index, contents: &Vec<Option<Vec<u8>>>) -> (res: (Vec<String>, Vec<String>, Vec<String>))
    requires
        contents@.len() == index.entries.listing().len(),
    ensures
        views(res.0@) == names_with(index.entries.listing(), contents_view(contents@), Change::Staged, contents@.len() as int),
        views(res.1@) == names_with(index.entries.listing(), contents_view(contents@), Change::Modified, contents@.len() as int),
        views(res.2@) == names_with(index.entries.listing(), contents_view(contents@), Change::Deleted, contents@.len() as int),
        forall|i: int| 0 <= i < contents@.len() ==> {
            let name = #[trigger] index.entries.listing()[i].0;
            let ch = change_of(index.entries.listing()[i].1, content_view(contents@[i]));
            &&& index.entries@.dom().contains(name)
            &&& views(res.0@).contains(name) == (ch == Change::Staged)
            &&& views(res.1@).contains(name) == (ch == Change::Modified)
            &&& views(res.2@).contains(name) == (ch == Change::Deleted)
        },
{
    proof { use_type_invariant(&index.entries); }
    let ghost l = index.entries.listing();
    let ghost cv = contents_view(contents@);
    let mut staged: Vec<String> = Vec::new();
    let mut modified: Vec<String> = Vec::new();
    let mut deleted: Vec<String> = Vec::new();
    let n = contents.len();
    assert(views(staged@) =~= Seq::<Seq<char>>::empty());
    assert(views(modified@) =~= Seq::<Seq<char>>::empty());
    assert(views(deleted@) =~= Seq::<Seq<char>>::empty());
    for i in 0..n
        invariant
            n == contents@.len(),
            n == l.len(),
            l == index.entries.listing(),
            cv == contents_view(contents@),
            views(staged@) == names_with(l, cv, Change::Staged, i as int),
            views(modified@) == names_with(l, cv, Change::Modified, i as int),
            views(deleted@) == names_with(l, cv, Change::Deleted, i as int),
    {
        let name = index.entries.key_at(i);
        let hash = index.entries.value_at(i);
        let ch = change_for(hash.as_str(), &contents[i]);
        assert(cv[i as int] == content_view(contents@[i as int]));
        match ch {
            Change::Staged => {
                staged.push(name.clone());
                assert(views(staged@) =~= names_with(l, cv, Change::Staged, i as int).push(l[i as int].0));
            },
            Change::Modified => {
                modified.push(name.clone());
                assert(views(modified@) =~= names_with(l, cv, Change::Modified, i as int).push(l[i as int].0));
            },
            Change::Deleted => {
                deleted.push(name.clone());
                assert(views(deleted@) =~= names_with(l, cv, Change::Deleted, i as int).push(l[i as int].0));
            },
        }
    }
    proof {
        assert forall|i: int| 0 <= i < contents@.len() implies {
            let name = #[trigger] index.entries.listing()[i].0;
            let ch = change_of(index.entries.listing()[i].1, content_view(contents@[i]));
            &&& index.entries@.dom().contains(name)
            &&& views(staged@).contains(name) == (ch == Change::Staged)
            &&& views(modified@).contains(name) == (ch == Change::Modified)
            &&& views(deleted@).contains(name) == (ch == Change::Deleted)
        } by {
            assert(cv[i] == content_view(contents@[i]));
            lemma_listing_lookup(l, i);
            lemma_names_with_contains(l, cv, Change::Staged, n as int, i);
            lemma_names_with_contains(l, cv, Change::Modified, n as int, i);
            lemma_names_with_contains(l, cv, Change::Deleted, n as int, i);
        }
    }
    (staged, modified, deleted)
}

/// A working file at `rel_path` is untracked: it is not ignored, not staged
/// and not in the tree of the last commit.
pub open spec fn untracked(
    patterns: Seq<Seq<char>>,
    index: Map<Seq<char>, Seq<char>>,
    head: Map<Seq<char>, Seq<char>>,
    rel_path: Seq<char>,
) -> bool {
    &&& !path_ignored(patterns, rel_path)
    &&& !index.dom().contains(rel_path)
    &&& !head.dom().contains(rel_path)
}

/// Whether the working file at `rel_path` is untracked, given the ignore
/// rules, the index and the tree of the last commit.
pub fn is_untracked(ignore: &Bitignore, index: &Index, head: &Tree, rel_path: &str) -> (r: bool)
    ensures
        r == untracked(ignore@, index.entries@, head.entries@, rel_path@),
{
    if ignore.is_ignored(rel_path) {
        return false;
    }
    !index.entries.contains_key(rel_path) && !head.entries.contains_key(rel_path)
}

/// The untracked paths among the first `n` of `paths`, in order.
pub open spec fn untracked_among(
    patterns: Seq<Seq<char>>,
    index: Map<Seq<char>, Seq<char>>,
    head: Map<Seq<char>, Seq<char>>,
    paths: Seq<Seq<char>>,
    n: int,
) -> Seq<Seq<char>>
    decreases n,
{
    if n <= 0 {
        Seq::empty()
    } else {
        let prev = untracked_among(patterns, index, head, paths, n - 1);
        if untracked(patterns, index, head, paths[n - 1]) {
            prev.push(paths[n - 1])
        } else {
            prev
        }
    }
}

/// The untracked paths of `paths`, in order, given the ignore rules, the
/// index and the tree of the last commit.
pub fn select_untracked(ignore: &Bitignore, index: &Index, head: &Tree, paths: &Vec<String>) -> (res: Vec<String>)
    ensures
        views(res@) == untracked_among(ignore@, index.entries@, head.entries@, views(paths@), paths@.len() as int),
{
    let mut res: Vec<String> = Vec::new();
    let n = paths.len();
    assert(views(res@) =~= Seq::<Seq<char>>::empty());
    for i in 0..n
        invariant
            n == paths@.len(),
            views(res@) == untracked_among(ignore@, index.entries@, head.entries@, views(paths@), i as int),
    {
        if is_untracked(ignore, index, head, paths[i].as_str()) {
            res.push(paths[i].clone());
            assert(views(res@) =~= untracked_among(ignore@, index.entries@, head.entries@, views(paths@), i as int).push(views(paths@)[i as int]));
        }
    }
    res
}

/// The paths among the first `n` of `paths` that `patterns` do not ignore, in
/// order.
pub open spec fn not_ignored_among(patterns: Seq<Seq<char>>, paths: Seq<Seq<char>>, n: int) -> Seq<Seq<char>>
    decreases n,
{
    if n <= 0 {
        Seq::empty()
    } else {
        let prev = not_ignored_among(patterns, paths, n - 1);
        if !path_ignored(patterns, paths[n - 1]) {
            prev.push(paths[n - 1])
        } else {
            prev
        }
    }
}

/// The paths of `paths` that the ignore rules do not ignore, in order: the
/// files of a directory that are added to the index.
pub fn select_files_to_add(ignore: &Bitignore, paths: &Vec<String>) -> (res: Vec<String>)
    ensures
        views(res@) == not_ignored_among(ignore@, views(paths@), paths@.len() as int),
{
    let mut res: Vec<String> = Vec::new();
    let n = paths.len();
    assert(views(res@) =~= Seq::<Seq<char>>::empty());
    for i in 0..n
        invariant
            n == paths@.len(),
            views(res@) == not_ignored_among(ignore@, views(paths@), i as int),
    {
        if !ignore.is_ignored(paths[i].as_str()) {
            res.push(paths[i].clone());
            assert(views(res@) =~= not_ignored_among(ignore@, views(paths@), i as int).push(views(paths@)[i as int]));
        }
    }
    res
}

/// Each file name of `files` after `prefix`.
pub open spec fn prefixed(prefix: Seq<char>, files: Seq<Seq<char>>) -> Seq<Seq<char>> {
    files.map_values(|f: Seq<char>| prefix + f)
}

/// The lines of the status report for the given sorted lists of files.
pub open spec fn status_report(
    staged: Seq<Seq<char>>,
    modified: Seq<Seq<char>>,
    deleted: Seq<Seq<char>>,
    untracked: Seq<Seq<char>>,
) -> Seq<Seq<char>> {
    let head = seq!["On branch main"@, Seq::<char>::empty()];
    let changes = if staged.len() == 0 && modified.len() == 0 && deleted.len() == 0 {
        seq!["Nothing to commit, working tree clean"@]
    } else {
        seq!["Changes to be committed:"@]
            + prefixed("        staged:   "@, staged)
            + prefixed("        modified: "@, modified)
            + prefixed("        deleted:  "@, deleted)
            + seq![Seq::<char>::empty()]
    };
    let others = if untracked.len() == 0 {
        Seq::<Seq<char>>::empty()
    } else {
        seq!["Untracked files:"@] + prefixed("        "@, untracked) + seq![Seq::<char>::empty()]
    };
    head + changes + others
}

fn push_prefixed(lines: &mut Vec<String>, prefix: &str, files: &Vec<String>)
    ensures
        views(final(lines)@) == views(old(lines)@) + prefixed(prefix@, views(files@)),
{
    let n = files.len();
    let ghost start = views(lines@);
    for i in 0..n
        invariant
            n == files@.len(),
            views(lines@) == start + prefixed(prefix@, views(files@)).take(i as int),
    {
        let mut l = prefix.to_owned();
        l.push_str(files[i].as_str());
        let ghost before = views(lines@);
        lines.push(l);
        assert(views(lines@) =~= before.push(prefix@ + files@[i as int]@));
        assert(prefixed(prefix@, views(files@)).take(i as int + 1)
            =~= prefixed(prefix@, views(files@)).take(i as int).push(prefix@ + files@[i as int]@));
        assert(views(lines@) =~= start + prefixed(prefix@, views(files@)).take(i as int + 1));
    }
    assert(prefixed(prefix@, views(files@)).take(n as int) =~= prefixed(prefix@, views(files@)));
}

fn push_line(lines: &mut Vec<String>, line: &str)
    ensures
        views(final(lines)@) == views(old(lines)@).push(line@),
{
    lines.push(line.to_owned());
    assert(views(lines@) =~= views(old(lines)@).push(line@));
}

/// The status report: the staged, modified and deleted files, then the
/// untracked ones, each list sorted.
pub fn status_lines(
    staged: &Vec<String>,
    modified: &Vec<String>,
    deleted: &Vec<String>,
    untracked: &Vec<String>,
) -> (res: Vec<String>)
    ensures
        views(res@) == status_report(
            sorted_version(views(staged@)),
            sorted_version(views(modified@)),
            sorted_version(views(deleted@)),
            sorted_version(views(untracked@)),
        ),
{
    let s = sort_strings(staged);
    let m = sort_strings(modified);
    let d = sort_strings(deleted);
    let u = sort_strings(untracked);
    let mut lines: Vec<String> = Vec::new();
    assert(views(lines@) =~= Seq::<Seq<char>>::empty());
    push_line(&mut lines, "On branch main");
    push_line(&mut lines, "");
    let ghost after_head = views(lines@);
    if s.len() == 0 && m.len() == 0 && d.len() == 0 {
        push_line(&mut lines, "Nothing to commit, working tree clean");
    } else {
        push_line(&mut lines, "Changes to be committed:");
        push_prefixed(&mut lines, "        staged:   ", &s);
        push_prefixed(&mut lines, "        modified: ", &m);
        push_prefixed(&mut lines, "        deleted:  ", &d);
        push_line(&mut lines, "");
    }
    let ghost after_changes = views(lines@);
    if u.len() > 0 {
        push_line(&mut lines, "Untracked files:");
        push_prefixed(&mut lines, "        ", &u);
        push_line(&mut lines, "");
    }
    proof {
        let rep = status_report(views(s@), views(m@), views(d@), views(u@));
        assert(""@ =~= Seq::<char>::empty()) by {
            reveal_strlit("");
        }
        assert(views(lines@) =~= rep);
    }
    lines
}

/// What the log shows of a commit: its hash, its timestamp, its message if it
/// has one, and its parent, then an empty line.
pub open spec fn log_report(c: Commit) -> Seq<Seq<char>> {
    let top = seq!["Commit: "@ + c.commit_hash@, "Timestamp: "@ + decimal(c.timestamp as int)];
    let msg = if c.message@.len() > 0 {
        seq!["Message: "@ + c.message@]
    } else {
        Seq::<Seq<char>>::empty()
    };
    let parent = match c.parent {
        Some(p) => seq!["Parent: "@ + p@],
        None => seq!["Genesis commit"@],
    };
    top + msg + parent + seq![Seq::<char>::empty()]
}

fn push_joined(lines: &mut Vec<String>, prefix: &str, rest: &str)
    ensures
        views(final(lines)@) == views(old(lines)@).push(prefix@ + rest@),
{
    let mut l = prefix.to_owned();
    l.push_str(rest);
    lines.push(l);
    assert(views(lines@) =~= views(old(lines)@).push(prefix@ + rest@));
}

impl Commit {
    /// The lines the log shows for this commit.
    pub fn log_lines(&self) -> (res: Vec<String>)
        ensures
            views(res@) == log_report(*self),
    {
        let mut lines: Vec<String> = Vec::new();
        assert(views(lines@) =~= Seq::<Seq<char>>::empty());
        push_joined(&mut lines, "Commit: ", self.commit_hash.as_str());
        let ts = to_decimal(self.timestamp);
        push_joined(&mut lines, "Timestamp: ", ts.as_str());
        if !self.message.as_str().is_empty() {
            push_joined(&mut lines, "Message: ", self.message.as_str());
        }
        match &self.parent {
            Some(p) => push_joined(&mut lines, "Parent: ", p.as_str()),
            None => push_line(&mut lines, "Genesis commit"),
        }
        push_line(&mut lines, "");
        proof {
            assert(""@ =~= Seq::<char>::empty()) by {
                reveal_strlit("");
            }
            assert(views(lines@) =~= log_report(*self));
        }
        lines
    }

    /// The hash of the commit the log shows next: the parent's, or empty
    /// (where the log stops) for the first commit.
    pub fn next_in_log(&self) -> (res: String)
        ensures
            res@ == match self.parent {
                Some(p) => p@,
                None => Seq::<char>::empty(),
            },
    {
        match &self.parent {
            Some(p) => p.clone(),
            None => String::new(),
        }
    }
}

/// Prepares a commit of the staged files: `None` when nothing is staged;
/// otherwise the tree of the staged files and the commit of that tree, whose
/// hash field is its own hash.
pub fn prepare_commit(index: &Index, parent: Option<String>, timestamp: i64, message: &str) -> (res: Option<(Tree, Commit)>)
    ensures
        res is None <==> index.entries@ == Map::<Seq<char>, Seq<char>>::empty(),
        res matches Some((t, c)) ==> {
            &&& t.entries@ == index.entries@
            &&& c.parent == parent
            &&& c.timestamp == timestamp
            &&& c.tree@ == tree_hash(index.entries@)
            &&& c.message@ == message@
            &&& c.commit_hash@ == c.spec_hash()
        },
{
    if index.entries.is_empty() {
        return None;
    }
    let tree = Tree { entries: index.entries.clone() };
    let tree_hash = tree.calculate_hash();
    let draft = Commit::new(parent, timestamp, tree_hash, String::new(), message.to_owned());
    let commit_hash = draft.calculate_hash();
    let commit = Commit::new(draft.parent, draft.timestamp, draft.tree, commit_hash, draft.message);
    Some((tree, commit))
}

} // verus!
