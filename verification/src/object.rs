//! The stored objects: file contents (blobs), one-level directory listings
//! (trees) and snapshots (commits), and the bytes each one's hash is taken of.

use vstd::prelude::*;
use vstd::utf8::encode_utf8;
use crate::hash::{hash_bytes, object_hash};
use crate::strmap::{StrMap, Listing, keys_sorted, listing_map, lemma_sorted_listing_unique};

verus! {

fn append_bytes(dst: &mut Vec<u8>, src: &[u8])
    ensures
        final(dst)@ == old(dst)@ + src@,
{
    let n = src.len();
    for i in 0..n
        invariant
            n == src@.len(),
            dst@ == old(dst)@ + src@.take(i as int),
    {
        dst.push(src[i]);
        assert(src@.take(i as int + 1) =~= src@.take(i as int).push(src@[i as int]));
    }
    assert(src@.take(n as int) =~= src@);
}

/// The content of a file.
#[derive(Debug)]
pub struct Blob {
    pub content: Vec<u8>,
}

/// The hash of a blob with content `content`.
pub open spec fn blob_hash(content: Seq<u8>) -> Seq<char> {
    object_hash(content)
}

impl Blob {
    /// A blob holding `content`.
    pub fn new(content: Vec<u8>) -> (b: Blob)
        ensures
            b.content@ == content@,
    {
        Blob { content }
    }

    /// The hash of the blob: the object hash of its content.
    pub fn calculate_hash(&self) -> (h: String)
        ensures
            h@ == blob_hash(self.content@),
            h@.len() == 64,
    {
        hash_bytes(self.content.as_slice())
    }
}

/// The bytes a tree's hash is taken of, for the entries listed in `s`: each
/// entry's name and then its hash, in UTF-8, one entry after the other.
pub open spec fn tree_bytes(s: Listing) -> Seq<u8>
    decreases s.len(),
{
    if s.len() == 0 {
        Seq::empty()
    } else {
        tree_bytes(s.drop_last()) + encode_utf8(s.last().0) + encode_utf8(s.last().1)
    }
}

/// The entries of `m` listed in increasing name order.
pub open spec fn sorted_listing(m: Map<Seq<char>, Seq<char>>) -> Listing {
    choose|s: Listing| keys_sorted(s) && listing_map(s) == m
}

/// The hash of a tree with entries `m` (name to hash): the object hash of its
/// entries in increasing name order.
pub open spec fn tree_hash(m: Map<Seq<char>, Seq<char>>) -> Seq<char> {
    object_hash(tree_bytes(sorted_listing(m)))
}

/// A one-level directory listing: file name to the hash of its blob.
#[derive(Debug)]
pub struct Tree {
    pub entries: StrMap,
}

impl Tree {
    /// A tree with no entry.
    pub fn new() -> (t: Tree)
        ensures
            t.entries@ == Map::<Seq<char>, Seq<char>>::empty(),
    {
        Tree { entries: StrMap::new() }
    }

    /// Records `hash` as the hash of the file `name`, replacing an earlier one.
    pub fn insert(&mut self, name: String, hash: String)
        ensures
            final(self).entries@ == old(self).entries@.insert(name@, hash@),
    {
        self.entries.insert(name, hash);
    }

    /// The hash of the tree. It depends on the entries only, not on the order
    /// in which they were inserted.
    pub fn calculate_hash(&self) -> (h: String)
        ensures
            h@ == tree_hash(self.entries@),
            h@.len() == 64,
    {
        proof { use_type_invariant(&self.entries); }
        let ghost s = self.entries.listing();
        let mut bytes: Vec<u8> = Vec::new();
        let n = self.entries.len();
        for i in 0..n
            invariant
                n == s.len(),
                s == self.entries.listing(),
                bytes@ == tree_bytes(s.take(i as int)),
        {
            let name = self.entries.key_at(i);
            let hash = self.entries.value_at(i);
            append_bytes(&mut bytes, name.as_str().as_bytes());
            append_bytes(&mut bytes, hash.as_str().as_bytes());
            assert(s.take(i as int + 1).drop_last() =~= s.take(i as int));
        }
        proof {
            assert(s.take(n as int) =~= s);
            let c = sorted_listing(self.entries@);
            assert(keys_sorted(c) && listing_map(c) == self.entries@);
            lemma_sorted_listing_unique(c, s);
        }
        hash_bytes(bytes.as_slice())
    }
}

/// The eight bytes of `t` in big-endian order, two's complement (what
/// `i64::to_be_bytes` gives).
pub open spec fn be_bytes(t: i64) -> Seq<u8> {
    let x = t as u64;
    seq![
        (x >> 56u64) as u8,
        (x >> 48u64) as u8,
        (x >> 40u64) as u8,
        (x >> 32u64) as u8,
        (x >> 24u64) as u8,
        (x >> 16u64) as u8,
        (x >> 8u64) as u8,
        x as u8,
    ]
}

/// The bytes a commit's hash is taken of: the parent hash if there is one,
/// the timestamp, the tree hash and the message. The commit's own hash field
/// is not among them.
pub open spec fn commit_bytes(
    parent: Option<Seq<char>>,
    timestamp: i64,
    tree: Seq<char>,
    message: Seq<char>,
) -> Seq<u8> {
    let p = match parent {
        Some(p) => encode_utf8(p),
        None => Seq::empty(),
    };
    p + be_bytes(timestamp) + encode_utf8(tree) + encode_utf8(message)
}

/// The view of an optional string.
pub open spec fn opt_view(o: Option<String>) -> Option<Seq<char>> {
    match o {
        Some(s) => Some(s@),
        None => None,
    }
}

/// A snapshot: a tree, the commit before it, when it was made and why.
#[derive(Debug)]
pub struct Commit {
    /// Hash of the parent commit.
    pub parent: Option<String>,
    pub timestamp: i64,
    /// Hash of the root tree.
    pub tree: String,
    /// Hash of this commit.
    pub commit_hash: String,
    pub message: String,
}

impl Commit {
    /// The hash that the fields of this commit give.
    pub open spec fn spec_hash(&self) -> Seq<char> {
        object_hash(commit_bytes(opt_view(self.parent), self.timestamp, self.tree@, self.message@))
    }

    /// A commit with the given fields.
    pub fn new(
        parent: Option<String>,
        timestamp: i64,
        tree: String,
        commit_hash: String,
        message: String,
    ) -> (c: Commit)
        ensures
            c.parent == parent,
            c.timestamp == timestamp,
            c.tree == tree,
            c.commit_hash == commit_hash,
            c.message == message,
    {
        Commit { parent, timestamp, tree, commit_hash, message }
    }

    /// The hash of the commit, taken of its parent, timestamp, tree and
    /// message.
    pub fn calculate_hash(&self) -> (h: String)
        ensures
            h@ == self.spec_hash(),
            h@.len() == 64,
    {
        let mut bytes: Vec<u8> = Vec::new();
        match &self.parent {
            Some(p) => {
                append_bytes(&mut bytes, p.as_str().as_bytes());
            },
            None => {},
        }
        let x = self.timestamp as u64;
        let ts: [u8; 8] = [
            (x >> 56u64) as u8,
            (x >> 48u64) as u8,
            (x >> 40u64) as u8,
            (x >> 32u64) as u8,
            (x >> 24u64) as u8,
            (x >> 16u64) as u8,
            (x >> 8u64) as u8,
            x as u8,
        ];
        append_bytes(&mut bytes, ts.as_slice());
        append_bytes(&mut bytes, self.tree.as_str().as_bytes());
        append_bytes(&mut bytes, self.message.as_str().as_bytes());
        assert(ts@ =~= be_bytes(self.timestamp));
        hash_bytes(bytes.as_slice())
    }
}

impl Clone for Blob {
    /// A blob with the same content.
    fn clone(&self) -> (res: Self)
        ensures
            res.content@ == self.content@,
    {
        let mut content: Vec<u8> = Vec::new();
        let n = self.content.len();
        for i in 0..n
            invariant
                n == self.content@.len(),
                content@ == self.content@.take(i as int),
        {
            content.push(self.content[i]);
            assert(self.content@.take(i as int + 1) =~= self.content@.take(i as int).push(self.content@[i as int]));
        }
        assert(self.content@.take(n as int) =~= self.content@);
        Blob { content }
    }
}

impl Clone for Tree {
    /// A tree with the same entries.
    fn clone(&self) -> (res: Self)
        ensures
            res.entries@ == self.entries@,
    {
        Tree { entries: self.entries.clone() }
    }
}

impl Clone for Commit {
    /// A commit with the same fields.
    fn clone(&self) -> (res: Self)
        ensures
            res == *self,
    {
        let parent = match &self.parent {
            Some(p) => Some(p.clone()),
            None => None,
        };
        Commit {
            parent,
            timestamp: self.timestamp,
            tree: self.tree.clone(),
            commit_hash: self.commit_hash.clone(),
            message: self.message.clone(),
        }
    }
}

} // verus!
