//! Properties of the library that span several operations.

use vstd::prelude::*;
use crate::text::{is_white_space, trim, trim_start, trim_end};
use crate::hash::{hex_lower, hex_digit, object_hash, blake3_digest_of};
use crate::index::index_lookup;
use crate::object::{Commit, tree_hash, blob_hash, commit_bytes};
use crate::ignore::{ignore_patterns, keep_patterns, is_pattern, ignored_by, pattern_matches, trim_end_slashes};
use crate::commands::{Change, change_of};
use crate::text::ends_with;
use vstd::utf8::{encode_utf8, decode_utf8, encode_utf8_decode_utf8};

verus! {

/// Looking a file up in the index gives the hash last staged for it; staging
/// one file leaves the lookup of every other file as it was.
pub proof fn law_index_read_after_write(
    entries: Map<Seq<char>, Seq<char>>,
    name: Seq<char>,
    hash: Seq<char>,
    other: Seq<char>,
)
    ensures
        index_lookup(entries.insert(name, hash), name) == Some(hash),
        other != name ==> index_lookup(entries.insert(name, hash), other) == index_lookup(entries, other),
{
}

/// After a file is removed from the index it is not found there; removing a
/// file that is not staged changes nothing.
pub proof fn law_index_remove(entries: Map<Seq<char>, Seq<char>>, name: Seq<char>)
    ensures
        index_lookup(entries.remove(name), name) == None::<Seq<char>>,
        !entries.dom().contains(name) ==> entries.remove(name) == entries,
{
    assert(!entries.dom().contains(name) ==> entries.remove(name) =~= entries);
}

/// The hash of a tree does not depend on the order in which its entries were
/// inserted.
pub proof fn law_tree_hash_insert_order(
    m: Map<Seq<char>, Seq<char>>,
    a: Seq<char>,
    x: Seq<char>,
    b: Seq<char>,
    y: Seq<char>,
)
    requires
        a != b,
    ensures
        tree_hash(m.insert(a, x).insert(b, y)) == tree_hash(m.insert(b, y).insert(a, x)),
{
    assert(m.insert(a, x).insert(b, y) =~= m.insert(b, y).insert(a, x));
}

/// The hash a commit gives does not depend on its own hash field, so a
/// commit can be given its own hash and still give that hash.
pub proof fn law_commit_hash_ignores_own_field(c: Commit, h: String)
    ensures
        (Commit {
            parent: c.parent,
            timestamp: c.timestamp,
            tree: c.tree,
            commit_hash: h,
            message: c.message,
        }).spec_hash() == c.spec_hash(),
{
}

/// Hash text has two lowercase hexadecimal digits per byte.
pub proof fn law_hex_lower_shape(bytes: Seq<u8>)
    ensures
        hex_lower(bytes).len() == 2 * bytes.len(),
        forall|i: int|
            0 <= i < hex_lower(bytes).len() ==> ('0' <= #[trigger] hex_lower(bytes)[i] <= '9'
                || 'a' <= hex_lower(bytes)[i] <= 'f'),
{
    assert forall|i: int| 0 <= i < hex_lower(bytes).len() implies ('0' <= #[trigger] hex_lower(bytes)[i] <= '9'
        || 'a' <= hex_lower(bytes)[i] <= 'f') by {
        let b = bytes[i / 2] as int;
        assert(0 <= b / 16 < 16);
        assert(0 <= b % 16 < 16);
    }
}

proof fn lemma_trim_start_shape(s: Seq<char>)
    ensures
        trim_start(s).len() == 0 || !is_white_space(trim_start(s)[0]),
    decreases s.len(),
{
    if s.len() > 0 && is_white_space(s[0]) {
        lemma_trim_start_shape(s.drop_first());
    }
}

proof fn lemma_trim_end_shape(s: Seq<char>)
    ensures
        trim_end(s).len() <= s.len(),
        trim_end(s) == s.take(trim_end(s).len() as int),
        trim_end(s).len() == 0 || !is_white_space(trim_end(s).last()),
    decreases s.len(),
{
    if s.len() > 0 && is_white_space(s.last()) {
        lemma_trim_end_shape(s.drop_last());
        assert(s.drop_last().take(trim_end(s).len() as int) =~= s.take(trim_end(s).len() as int));
    } else {
        assert(s.take(s.len() as int) =~= s);
    }
}

/// Trimming trimmed text changes nothing.
pub proof fn law_trim_idempotent(s: Seq<char>)
    ensures
        trim(trim(s)) == trim(s),
{
    let y = trim_start(s);
    let z = trim_end(y);
    lemma_trim_start_shape(s);
    lemma_trim_end_shape(y);
    if z.len() > 0 {
        assert(z[0] == y[0]);
    }
    assert(trim_start(z) == z);
    assert(trim_end(z) == z);
}

proof fn lemma_keep_patterns_clean(lines: Seq<Seq<char>>)
    ensures
        forall|i: int| 0 <= i < keep_patterns(lines).len() ==> {
            &&& is_pattern(#[trigger] keep_patterns(lines)[i])
            &&& trim(keep_patterns(lines)[i]) == keep_patterns(lines)[i]
        },
    decreases lines.len(),
{
    if lines.len() > 0 {
        lemma_keep_patterns_clean(lines.drop_first());
        law_trim_idempotent(lines[0]);
        let rest = keep_patterns(lines.drop_first());
        let l = trim(lines[0]);
        if is_pattern(l) {
            assert forall|i: int| 0 <= i < keep_patterns(lines).len() implies {
                &&& is_pattern(#[trigger] keep_patterns(lines)[i])
                &&& trim(keep_patterns(lines)[i]) == keep_patterns(lines)[i]
            } by {
                if i > 0 {
                    assert(keep_patterns(lines)[i] == rest[i - 1]);
                }
            }
        }
    }
}

/// Every pattern read from an ignore file is non-empty, is not a comment and
/// has no leading or trailing white space.
pub proof fn law_ignore_patterns_clean(contents: Seq<char>)
    ensures
        forall|i: int| 0 <= i < ignore_patterns(contents).len() ==> {
            &&& is_pattern(#[trigger] ignore_patterns(contents)[i])
            &&& trim(ignore_patterns(contents)[i]) == ignore_patterns(contents)[i]
        },
{
    lemma_keep_patterns_clean(crate::ignore::text_lines(contents));
}

/// An ignore file without patterns ignores nothing.
pub proof fn law_no_patterns_ignore_nothing(rel: Seq<char>, comps: Seq<Seq<char>>, fname: Seq<char>)
    ensures
        !ignored_by(Seq::empty(), rel, comps, fname),
{
}

proof fn lemma_hex_digit_injective(a: int, b: int)
    requires
        0 <= a < 16,
        0 <= b < 16,
        hex_digit(a) == hex_digit(b),
    ensures
        a == b,
{
    assert(hex_digit(a) as int == if a < 10 { a + 48 } else { a + 87 });
    assert(hex_digit(b) as int == if b < 10 { b + 48 } else { b + 87 });
}

/// Different byte sequences have different hexadecimal text: the hash text
/// determines every byte of the digest.
pub proof fn law_hex_lower_injective(b1: Seq<u8>, b2: Seq<u8>)
    requires
        hex_lower(b1) == hex_lower(b2),
    ensures
        b1 == b2,
{
    assert(hex_lower(b1).len() == 2 * b1.len());
    assert(hex_lower(b2).len() == 2 * b2.len());
    assert(b1.len() == b2.len());
    assert forall|i: int| 0 <= i < b1.len() implies b1[i] == b2[i] by {
        assert((2 * i) / 2 == i && (2 * i) % 2 == 0);
        assert((2 * i + 1) / 2 == i && (2 * i + 1) % 2 == 1);
        let x = b1[i] as int;
        let y = b2[i] as int;
        assert(hex_lower(b1)[2 * i] == hex_digit(x / 16));
        assert(hex_lower(b2)[2 * i] == hex_digit(y / 16));
        assert(hex_lower(b1)[2 * i + 1] == hex_digit(x % 16));
        assert(hex_lower(b2)[2 * i + 1] == hex_digit(y % 16));
        lemma_hex_digit_injective(x / 16, y / 16);
        lemma_hex_digit_injective(x % 16, y % 16);
        assert(x == 16 * (x / 16) + x % 16);
        assert(y == 16 * (y / 16) + y % 16);
    }
    assert(b1 =~= b2);
}

/// Two inputs have the same object hash exactly when BLAKE3 gives them the
/// same digest: the hash is the digest of the whole input, written without
/// loss.
pub proof fn law_object_hash_is_digest(d1: Seq<u8>, d2: Seq<u8>)
    ensures
        object_hash(d1) == object_hash(d2) <==> blake3_digest_of(d1) == blake3_digest_of(d2),
{
    if object_hash(d1) == object_hash(d2) {
        law_hex_lower_injective(blake3_digest_of(d1), blake3_digest_of(d2));
    }
}

/// A file is reported as staged exactly when its current content has the
/// staged hash; content staged with its own hash is reported as staged, and
/// other content is reported as staged only when BLAKE3 gives it the digest
/// of the staged content.
pub proof fn law_staged_iff_same_hash(h: Seq<char>, staged: Seq<u8>, current: Seq<u8>)
    ensures
        change_of(h, Some(current)) == Change::Staged <==> h == blob_hash(current),
        change_of(h, Some(current)) != Change::Deleted,
        change_of(h, None) == Change::Deleted,
        change_of(blob_hash(current), Some(current)) == Change::Staged,
        change_of(blob_hash(staged), Some(current)) == Change::Staged
            <==> blake3_digest_of(staged) == blake3_digest_of(current),
{
    law_object_hash_is_digest(staged, current);
}

/// The bytes a commit's hash is taken of determine its message: commits that
/// agree in parent, timestamp and tree but differ in message are hashed over
/// different bytes.
pub proof fn law_commit_bytes_determine_message(
    parent: Option<Seq<char>>,
    timestamp: i64,
    tree: Seq<char>,
    m1: Seq<char>,
    m2: Seq<char>,
)
    ensures
        commit_bytes(parent, timestamp, tree, m1) == commit_bytes(parent, timestamp, tree, m2) ==> m1 == m2,
        commit_bytes(parent, timestamp, tree, m1).len() == commit_bytes(parent, timestamp, tree, m2).len()
            - encode_utf8(m2).len() + encode_utf8(m1).len(),
{
    let b1 = commit_bytes(parent, timestamp, tree, m1);
    let b2 = commit_bytes(parent, timestamp, tree, m2);
    let p = match parent {
        Some(p) => encode_utf8(p),
        None => Seq::<u8>::empty(),
    };
    let x = p + crate::object::be_bytes(timestamp) + encode_utf8(tree);
    assert(b1 =~= x + encode_utf8(m1));
    assert(b2 =~= x + encode_utf8(m2));
    if b1 == b2 {
        assert(b1.skip(x.len() as int) =~= encode_utf8(m1));
        assert(b2.skip(x.len() as int) =~= encode_utf8(m2));
        encode_utf8_decode_utf8(m1);
        encode_utf8_decode_utf8(m2);
    }
}

/// Patterns are tried one by one: a path is ignored exactly when one of the
/// patterns, alone, ignores it.
pub proof fn law_ignored_iff_one_pattern(
    patterns: Seq<Seq<char>>,
    rel: Seq<char>,
    comps: Seq<Seq<char>>,
    fname: Seq<char>,
)
    ensures
        ignored_by(patterns, rel, comps, fname)
            <==> exists|i: int| 0 <= i < patterns.len() && #[trigger] ignored_by(seq![patterns[i]], rel, comps, fname),
{
    if ignored_by(patterns, rel, comps, fname) {
        let i = choose|i: int| 0 <= i < patterns.len() && pattern_matches(#[trigger] patterns[i], rel, comps, fname);
        assert(seq![patterns[i]][0] == patterns[i]);
        assert(ignored_by(seq![patterns[i]], rel, comps, fname));
    }
    if exists|i: int| 0 <= i < patterns.len() && #[trigger] ignored_by(seq![patterns[i]], rel, comps, fname) {
        let i = choose|i: int| 0 <= i < patterns.len() && #[trigger] ignored_by(seq![patterns[i]], rel, comps, fname);
        let j = choose|j: int| 0 <= j < 1 && pattern_matches(#[trigger] seq![patterns[i]][j], rel, comps, fname);
        assert(j == 0);
        assert(pattern_matches(patterns[i], rel, comps, fname));
    }
}

/// A directory pattern `d/` ignores exactly the paths that have `d` among
/// their components, whatever the components' first characters.
pub proof fn law_directory_pattern(d: Seq<char>, rel: Seq<char>, comps: Seq<Seq<char>>, fname: Seq<char>)
    requires
        d.len() == 0 || d.last() != '/',
    ensures
        ignored_by(seq![d.push('/')], rel, comps, fname) <==> comps.contains(d),
{
    let pat = d.push('/');
    assert(pat.drop_last() =~= d);
    assert(trim_end_slashes(pat) == trim_end_slashes(d));
    assert(trim_end_slashes(d) == d);
    if ignored_by(seq![pat], rel, comps, fname) {
        let j = choose|j: int| 0 <= j < 1 && pattern_matches(#[trigger] seq![pat][j], rel, comps, fname);
        assert(j == 0);
    }
    if comps.contains(d) {
        assert(seq![pat][0] == pat);
        assert(pattern_matches(seq![pat][0], rel, comps, fname));
    }
}

/// A pattern `*.ext` ignores exactly the paths whose file name ends in
/// `.ext`.
pub proof fn law_extension_pattern(ext: Seq<char>, rel: Seq<char>, comps: Seq<Seq<char>>, fname: Seq<char>)
    requires
        ext.len() == 0 || ext.last() != '/',
    ensures
        ignored_by(seq![seq!['*', '.'] + ext], rel, comps, fname) <==> ends_with(fname, seq!['.'] + ext),
{
    let pat = seq!['*', '.'] + ext;
    assert(pat.skip(2) =~= ext);
    assert(pat[0] == '*' && pat[1] == '.');
    if ext.len() > 0 {
        assert(pat.last() == ext.last());
    }
    if ignored_by(seq![pat], rel, comps, fname) {
        let j = choose|j: int| 0 <= j < 1 && pattern_matches(#[trigger] seq![pat][j], rel, comps, fname);
        assert(j == 0);
    }
    if ends_with(fname, seq!['.'] + ext) {
        assert(seq![pat][0] == pat);
        assert(pattern_matches(seq![pat][0], rel, comps, fname));
    }
}

/// Any other pattern ignores exactly the paths whose file name, or whole
/// text, is the pattern, whatever the name's first character.
pub proof fn law_name_pattern(pat: Seq<char>, rel: Seq<char>, comps: Seq<Seq<char>>, fname: Seq<char>)
    requires
        pat.len() == 0 || pat.last() != '/',
        !(pat.len() >= 2 && pat[0] == '*' && pat[1] == '.'),
    ensures
        ignored_by(seq![pat], rel, comps, fname) <==> (fname == pat || rel == pat),
{
    if ignored_by(seq![pat], rel, comps, fname) {
        let j = choose|j: int| 0 <= j < 1 && pattern_matches(#[trigger] seq![pat][j], rel, comps, fname);
        assert(j == 0);
    }
    if fname == pat || rel == pat {
        assert(seq![pat][0] == pat);
        assert(pattern_matches(seq![pat][0], rel, comps, fname));
    }
}

} // verus!
