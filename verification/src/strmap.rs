//! A finite map from strings to strings, kept as a vector of entries in
//! strictly increasing key order (the order of `String`).

use vstd::prelude::*;
use crate::text::{chars_of, chars_lt, seq_lt, lemma_seq_lt_irreflexive, lemma_seq_lt_total,
    lemma_seq_lt_transitive, lemma_seq_lt_asymmetric};

verus! {

/// A listing of entries, as character sequences.
pub type Listing = Seq<(Seq<char>, Seq<char>)>;

/// The keys of `s` increase strictly from one entry to the next.
pub open spec fn keys_sorted(s: Listing) -> bool {
    forall|i: int, j: int| 0 <= i < j < s.len() ==> #[trigger] seq_lt(s[i].0, s[j].0)
}

/// Some entry of `s` has key `k`.
pub open spec fn has_key(s: Listing, k: Seq<char>) -> bool {
    exists|i: int| 0 <= i < s.len() && #[trigger] s[i].0 == k
}

/// The position of an entry of `s` with key `k`.
pub open spec fn key_index(s: Listing, k: Seq<char>) -> int {
    choose|i: int| 0 <= i < s.len() && #[trigger] s[i].0 == k
}

/// The map that a listing describes.
pub open spec fn listing_map(s: Listing) -> Map<Seq<char>, Seq<char>> {
    Map::new(|k: Seq<char>| has_key(s, k), |k: Seq<char>| s[key_index(s, k)].1)
}

/// In a sorted listing, the entry at `i` is what the map holds at its key.
pub proof fn lemma_listing_lookup(s: Listing, i: int)
    requires
        keys_sorted(s),
        0 <= i < s.len(),
    ensures
        listing_map(s).dom().contains(s[i].0),
        listing_map(s)[s[i].0] == s[i].1,
        key_index(s, s[i].0) == i,
{
    assert(has_key(s, s[i].0));
    let j = key_index(s, s[i].0);
    if j < i {
        assert(seq_lt(s[j].0, s[i].0));
        lemma_seq_lt_irreflexive(s[i].0);
    } else if i < j {
        assert(seq_lt(s[i].0, s[j].0));
        lemma_seq_lt_irreflexive(s[i].0);
    }
}

/// Two sorted listings of the same map are the same listing.
pub proof fn lemma_sorted_listing_unique(s1: Listing, s2: Listing)
    requires
        keys_sorted(s1),
        keys_sorted(s2),
        listing_map(s1) == listing_map(s2),
    ensures
        s1 == s2,
    decreases s1.len() + s2.len(),
{
    if s1.len() == 0 {
        if s2.len() > 0 {
            lemma_listing_lookup(s2, 0);
            assert(listing_map(s2).dom().contains(s2[0].0));
        }
        assert(s1 =~= s2);
    } else if s2.len() == 0 {
        lemma_listing_lookup(s1, 0);
        assert(listing_map(s1).dom().contains(s1[0].0));
    } else {
        let m = listing_map(s1);
        lemma_listing_lookup(s1, 0);
        lemma_listing_lookup(s2, 0);
        // the first keys agree: each is the least key of the map
        let j2 = key_index(s2, s1[0].0);
        let j1 = key_index(s1, s2[0].0);
        assert(s2[j2].0 == s1[0].0);
        assert(s1[j1].0 == s2[0].0);
        if s1[0].0 != s2[0].0 {
            lemma_seq_lt_total(s1[0].0, s2[0].0);
            if seq_lt(s1[0].0, s2[0].0) {
                // s1[0].0 is in s2 at j2 > 0, so s2[0].0 < s1[0].0
                assert(j2 != 0);
                assert(seq_lt(s2[0].0, s2[j2].0));
                lemma_seq_lt_asymmetric(s1[0].0, s2[0].0);
            } else {
                assert(j1 != 0);
                assert(seq_lt(s1[0].0, s1[j1].0));
                lemma_seq_lt_asymmetric(s2[0].0, s1[0].0);
            }
        }
        assert(s1[0] == s2[0]);
        let t1 = s1.drop_first();
        let t2 = s2.drop_first();
        assert(keys_sorted(t1)) by {
            assert forall|i: int, j: int| 0 <= i < j < t1.len() implies #[trigger] seq_lt(t1[i].0, t1[j].0) by {
                assert(seq_lt(s1[i + 1].0, s1[j + 1].0));
            }
        }
        assert(keys_sorted(t2)) by {
            assert forall|i: int, j: int| 0 <= i < j < t2.len() implies #[trigger] seq_lt(t2[i].0, t2[j].0) by {
                assert(seq_lt(s2[i + 1].0, s2[j + 1].0));
            }
        }
        assert forall|k: Seq<char>| #[trigger] has_key(t1, k) == has_key(t2, k) by {
            if has_key(t1, k) {
                let i = choose|i: int| 0 <= i < t1.len() && #[trigger] t1[i].0 == k;
                lemma_listing_lookup(s1, i + 1);
                assert(has_key(s2, k));
                let j = key_index(s2, k);
                lemma_listing_lookup(s2, j);
                assert(seq_lt(s1[0].0, s1[i + 1].0));
                if j == 0 {
                    lemma_seq_lt_irreflexive(k);
                }
                assert(t2[j - 1].0 == k);
            }
            if has_key(t2, k) {
                let i = choose|i: int| 0 <= i < t2.len() && #[trigger] t2[i].0 == k;
                lemma_listing_lookup(s2, i + 1);
                assert(has_key(s1, k));
                let j = key_index(s1, k);
                lemma_listing_lookup(s1, j);
                assert(seq_lt(s2[0].0, s2[i + 1].0));
                if j == 0 {
                    lemma_seq_lt_irreflexive(k);
                }
                assert(t1[j - 1].0 == k);
            }
        }
        assert forall|k: Seq<char>| has_key(t1, k) implies listing_map(t1)[k] == listing_map(t2)[k] by {
            let i = key_index(t1, k);
            let j = key_index(t2, k);
            lemma_listing_lookup(s1, i + 1);
            lemma_listing_lookup(s2, j + 1);
        }
        assert(listing_map(t1) =~= listing_map(t2));
        lemma_sorted_listing_unique(t1, t2);
        assert(s1 =~= seq![s1[0]] + t1);
        assert(s2 =~= seq![s2[0]] + t2);
    }
}


/// A sorted listing has as many entries as its map has keys.
pub proof fn lemma_listing_dom_len(s: Listing)
    requires
        keys_sorted(s),
    ensures
        listing_map(s).dom().finite(),
        listing_map(s).dom().len() == s.len(),
    decreases s.len(),
{
    if s.len() == 0 {
        assert(listing_map(s).dom() =~= Set::<Seq<char>>::empty());
    } else {
        let t = s.drop_last();
        let k = s.last().0;
        assert(keys_sorted(t)) by {
            assert forall|i: int, j: int| 0 <= i < j < t.len() implies #[trigger] seq_lt(t[i].0, t[j].0) by {
                assert(seq_lt(s[i].0, s[j].0));
            }
        }
        lemma_listing_dom_len(t);
        assert forall|x: Seq<char>| #[trigger] has_key(s, x) == (has_key(t, x) || x == k) by {
            if has_key(t, x) {
                let i = choose|i: int| 0 <= i < t.len() && #[trigger] t[i].0 == x;
                assert(s[i].0 == x);
            }
            if has_key(s, x) && x != k {
                let i = choose|i: int| 0 <= i < s.len() && #[trigger] s[i].0 == x;
                assert(t[i].0 == x);
            }
            if x == k {
                assert(s[s.len() - 1].0 == x);
            }
        }
        assert(listing_map(s).dom() =~= listing_map(t).dom().insert(k));
        if has_key(t, k) {
            let i = choose|i: int| 0 <= i < t.len() && #[trigger] t[i].0 == k;
            assert(seq_lt(s[i].0, s[s.len() - 1].0));
            lemma_seq_lt_irreflexive(k);
        }
    }
}

/// Inserting a new key at its place keeps a listing sorted and adds the entry
/// to the map.
pub proof fn lemma_listing_insert(s: Listing, pos: int, k: Seq<char>, v: Seq<char>)
    requires
        keys_sorted(s),
        0 <= pos <= s.len(),
        forall|i: int| 0 <= i < pos ==> #[trigger] seq_lt(s[i].0, k),
        pos < s.len() ==> seq_lt(k, s[pos].0),
    ensures
        keys_sorted(s.insert(pos, (k, v))),
        listing_map(s.insert(pos, (k, v))) == listing_map(s).insert(k, v),
{
    let t = s.insert(pos, (k, v));
    assert(keys_sorted(t)) by {
        assert forall|i: int, j: int| 0 <= i < j < t.len() implies #[trigger] seq_lt(t[i].0, t[j].0) by {
            if j < pos {
                assert(seq_lt(s[i].0, s[j].0));
            } else if j == pos {
                assert(seq_lt(s[i].0, k));
            } else if i < pos {
                assert(seq_lt(s[i].0, k));
                if j - 1 > pos {
                    assert(seq_lt(s[pos].0, s[j - 1].0));
                    lemma_seq_lt_transitive(k, s[pos].0, s[j - 1].0);
                }
                lemma_seq_lt_transitive(s[i].0, k, s[j - 1].0);
            } else if i == pos {
                if j - 1 > pos {
                    assert(seq_lt(s[pos].0, s[j - 1].0));
                    lemma_seq_lt_transitive(k, s[pos].0, s[j - 1].0);
                }
            } else {
                assert(seq_lt(s[i - 1].0, s[j - 1].0));
            }
        }
    }
    let m = listing_map(s).insert(k, v);
    assert forall|key: Seq<char>| #[trigger] has_key(t, key) == m.dom().contains(key) by {
        if has_key(t, key) {
            let i = choose|i: int| 0 <= i < t.len() && #[trigger] t[i].0 == key;
            if i < pos {
                assert(s[i].0 == key);
            } else if i > pos {
                assert(s[i - 1].0 == key);
            }
        }
        if has_key(s, key) {
            let i = choose|i: int| 0 <= i < s.len() && #[trigger] s[i].0 == key;
            if i < pos {
                assert(t[i].0 == key);
            } else {
                assert(t[i + 1].0 == key);
            }
        }
        if key == k {
            assert(t[pos].0 == key);
        }
    }
    assert forall|key: Seq<char>| #[trigger] has_key(t, key) implies listing_map(t)[key] == m[key] by {
        if key == k {
            lemma_listing_lookup(t, pos);
        } else {
            let i = key_index(s, key);
            lemma_listing_lookup(s, i);
            if i < pos {
                lemma_listing_lookup(t, i);
            } else {
                lemma_listing_lookup(t, i + 1);
            }
        }
    }
    assert(listing_map(t) =~= m);
}

/// Replacing the value of an entry keeps a listing sorted and updates the map.
pub proof fn lemma_listing_update(s: Listing, pos: int, v: Seq<char>)
    requires
        keys_sorted(s),
        0 <= pos < s.len(),
    ensures
        keys_sorted(s.update(pos, (s[pos].0, v))),
        listing_map(s.update(pos, (s[pos].0, v))) == listing_map(s).insert(s[pos].0, v),
{
    let k = s[pos].0;
    let t = s.update(pos, (k, v));
    assert(keys_sorted(t)) by {
        assert forall|i: int, j: int| 0 <= i < j < t.len() implies #[trigger] seq_lt(t[i].0, t[j].0) by {
            assert(seq_lt(s[i].0, s[j].0));
        }
    }
    let m = listing_map(s).insert(k, v);
    assert forall|key: Seq<char>| #[trigger] has_key(t, key) == m.dom().contains(key) by {
        if has_key(t, key) {
            let i = choose|i: int| 0 <= i < t.len() && #[trigger] t[i].0 == key;
            assert(s[i].0 == key);
        }
        if has_key(s, key) {
            let i = choose|i: int| 0 <= i < s.len() && #[trigger] s[i].0 == key;
            assert(t[i].0 == key);
        }
        if key == k {
            assert(t[pos].0 == key);
        }
    }
    assert forall|key: Seq<char>| #[trigger] has_key(t, key) implies listing_map(t)[key] == m[key] by {
        if key == k {
            lemma_listing_lookup(t, pos);
        } else {
            let i = key_index(s, key);
            lemma_listing_lookup(s, i);
            lemma_listing_lookup(t, i);
        }
    }
    assert(listing_map(t) =~= m);
}

/// Removing an entry keeps a listing sorted and removes its key from the map.
pub proof fn lemma_listing_remove(s: Listing, pos: int)
    requires
        keys_sorted(s),
        0 <= pos < s.len(),
    ensures
        keys_sorted(s.remove(pos)),
        listing_map(s.remove(pos)) == listing_map(s).remove(s[pos].0),
{
    let k = s[pos].0;
    let t = s.remove(pos);
    assert(keys_sorted(t)) by {
        assert forall|i: int, j: int| 0 <= i < j < t.len() implies #[trigger] seq_lt(t[i].0, t[j].0) by {
            if j < pos {
                assert(seq_lt(s[i].0, s[j].0));
            } else if i < pos {
                assert(seq_lt(s[i].0, s[j + 1].0));
            } else {
                assert(seq_lt(s[i + 1].0, s[j + 1].0));
            }
        }
    }
    let m = listing_map(s).remove(k);
    assert forall|key: Seq<char>| #[trigger] has_key(t, key) == m.dom().contains(key) by {
        if has_key(t, key) {
            let i = choose|i: int| 0 <= i < t.len() && #[trigger] t[i].0 == key;
            if i < pos {
                assert(s[i].0 == key);
                assert(seq_lt(s[i].0, s[pos].0));
            } else {
                assert(s[i + 1].0 == key);
                assert(seq_lt(s[pos].0, s[i + 1].0));
            }
            lemma_seq_lt_irreflexive(key);
        }
        if has_key(s, key) && key != k {
            let i = choose|i: int| 0 <= i < s.len() && #[trigger] s[i].0 == key;
            if i < pos {
                assert(t[i].0 == key);
            } else {
                assert(i != pos);
                assert(t[i - 1].0 == key);
            }
        }
    }
    assert forall|key: Seq<char>| #[trigger] has_key(t, key) implies listing_map(t)[key] == m[key] by {
        let i = key_index(t, key);
        lemma_listing_lookup(t, i);
        if i < pos {
            lemma_listing_lookup(s, i);
        } else {
            lemma_listing_lookup(s, i + 1);
        }
    }
    assert(listing_map(t) =~= m);
}


/// The character view of one stored entry.
pub open spec fn entry_view(p: (String, String)) -> (Seq<char>, Seq<char>) {
    (p.0@, p.1@)
}

/// A map from strings to strings whose entries are kept in increasing key
/// order.
#[derive(Debug)]
pub struct StrMap {
    items: Vec<(String, String)>,
}

impl StrMap {
    /// The entries, in the order in which they are stored.
    pub closed spec fn listing(&self) -> Listing {
        self.items@.map_values(|p: (String, String)| entry_view(p))
    }

    /// The entries are stored in strictly increasing key order.
    #[verifier::type_invariant]
    pub open spec fn inv(&self) -> bool {
        keys_sorted(self.listing())
    }
}

impl View for StrMap {
    type V = Map<Seq<char>, Seq<char>>;

    open spec fn view(&self) -> Map<Seq<char>, Seq<char>> {
        listing_map(self.listing())
    }
}

impl StrMap {
    /// An empty map.
    pub fn new() -> (res: Self)
        ensures
            res.listing() == Seq::<(Seq<char>, Seq<char>)>::empty(),
            res@ == Map::<Seq<char>, Seq<char>>::empty(),
    {
        let res = StrMap { items: Vec::new() };
        assert(res.listing() =~= Seq::<(Seq<char>, Seq<char>)>::empty());
        assert(res@ =~= Map::<Seq<char>, Seq<char>>::empty());
        res
    }

    /// The number of entries: the number of keys in the map.
    pub fn len(&self) -> (n: usize)
        ensures
            n == self.listing().len(),
            self@.dom().finite(),
            n == self@.dom().len(),
    {
        proof {
            use_type_invariant(self);
            lemma_listing_dom_len(self.listing());
        }
        self.items.len()
    }

    /// Whether the map has no entry.
    pub fn is_empty(&self) -> (r: bool)
        ensures
            r == (self.listing().len() == 0),
            r == (self@ == Map::<Seq<char>, Seq<char>>::empty()),
    {
        proof {
            use_type_invariant(self);
            if self.listing().len() == 0 {
                assert(self@ =~= Map::<Seq<char>, Seq<char>>::empty());
            } else {
                lemma_listing_lookup(self.listing(), 0);
                assert(self@.dom().contains(self.listing()[0].0));
            }
        }
        self.items.len() == 0
    }

    /// The key of the `i`-th entry in key order.
    pub fn key_at(&self, i: usize) -> (k: &String)
        requires
            i < self.listing().len(),
        ensures
            k@ == self.listing()[i as int].0,
            self@.dom().contains(k@),
            self@[k@] == self.listing()[i as int].1,
            forall|j: int| 0 <= j < i ==> #[trigger] seq_lt(self.listing()[j].0, k@),
    {
        proof {
            use_type_invariant(self);
            lemma_listing_lookup(self.listing(), i as int);
        }
        &self.items[i].0
    }

    /// The value of the `i`-th entry in key order.
    pub fn value_at(&self, i: usize) -> (v: &String)
        requires
            i < self.listing().len(),
        ensures
            v@ == self.listing()[i as int].1,
            self@.dom().contains(self.listing()[i as int].0),
            v@ == self@[self.listing()[i as int].0],
    {
        proof {
            use_type_invariant(self);
            lemma_listing_lookup(self.listing(), i as int);
        }
        &self.items[i].1
    }

    /// The position at which `key` stands or would stand, and whether it is
    /// there.
    fn find(&self, key: &Vec<char>) -> (res: (usize, bool))
        ensures
            res.0 <= self.listing().len(),
            forall|i: int| 0 <= i < res.0 ==> #[trigger] seq_lt(self.listing()[i].0, key@),
            res.1 ==> res.0 < self.listing().len() && self.listing()[res.0 as int].0 == key@,
            !res.1 ==> res.0 == self.listing().len() || seq_lt(key@, self.listing()[res.0 as int].0),
    {
        let mut i: usize = 0;
        while i < self.items.len()
            invariant
                i <= self.items@.len(),
                self.listing().len() == self.items@.len(),
                forall|j: int| 0 <= j < i ==> #[trigger] seq_lt(self.listing()[j].0, key@),
            decreases self.items@.len() - i,
        {
            let k = chars_of(self.items[i].0.as_str());
            assert(k@ == self.listing()[i as int].0);
            if chars_lt(&k, key) {
                i = i + 1;
            } else if chars_lt(key, &k) {
                return (i, false);
            } else {
                proof {
                    if k@ != key@ {
                        lemma_seq_lt_total(k@, key@);
                    }
                }
                return (i, true);
            }
        }
        (i, false)
    }

    /// Whether some entry has key `key`.
    pub fn contains_key(&self, key: &str) -> (r: bool)
        ensures
            r == self@.dom().contains(key@),
    {
        proof { use_type_invariant(self); }
        let kc = chars_of(key);
        let (pos, found) = self.find(&kc);
        proof { self.lemma_find_result(key@, pos as int, found); }
        found
    }

    /// The value stored at `key`, if any.
    pub fn get(&self, key: &str) -> (r: Option<&String>)
        ensures
            match r {
                Some(v) => self@.dom().contains(key@) && v@ == self@[key@],
                None => !self@.dom().contains(key@),
            },
    {
        proof { use_type_invariant(self); }
        let kc = chars_of(key);
        let (pos, found) = self.find(&kc);
        proof { self.lemma_find_result(key@, pos as int, found); }
        if found {
            proof { lemma_listing_lookup(self.listing(), pos as int); }
            Some(&self.items[pos].1)
        } else {
            None
        }
    }

    /// What the result of `find` says about the map.
    proof fn lemma_find_result(&self, key: Seq<char>, pos: int, found: bool)
        requires
            keys_sorted(self.listing()),
            0 <= pos <= self.listing().len(),
            forall|i: int| 0 <= i < pos ==> #[trigger] seq_lt(self.listing()[i].0, key),
            found ==> pos < self.listing().len() && self.listing()[pos].0 == key,
            !found ==> pos == self.listing().len() || seq_lt(key, self.listing()[pos].0),
        ensures
            found == self@.dom().contains(key),
    {
        let s = self.listing();
        if found {
            lemma_listing_lookup(s, pos);
        } else if has_key(s, key) {
            let i = choose|i: int| 0 <= i < s.len() && #[trigger] s[i].0 == key;
            if i < pos {
                assert(seq_lt(s[i].0, key));
            } else if i == pos {
                assert(seq_lt(key, s[pos].0));
            } else {
                assert(seq_lt(s[pos].0, s[i].0));
                lemma_seq_lt_asymmetric(key, s[pos].0);
            }
            lemma_seq_lt_irreflexive(key);
        }
    }

    /// Sets the value stored at `key`, adding the key if it is absent.
    pub fn insert(&mut self, key: String, value: String)
        ensures
            final(self)@ == old(self)@.insert(key@, value@),
    {
        proof { use_type_invariant(&*self); }
        let ghost s = self.listing();
        let kc = chars_of(key.as_str());
        let (pos, found) = self.find(&kc);
        let mut items: Vec<(String, String)> = Vec::new();
        std::mem::swap(&mut items, &mut self.items);
        let ghost old_items = items@;
        assert(s == old_items.map_values(|p: (String, String)| entry_view(p)));
        let ghost kv = key@;
        let ghost vv = value@;
        if found {
            items.set(pos, (key, value));
            proof {
                lemma_listing_update(s, pos as int, vv);
                assert(items@.map_values(|p: (String, String)| entry_view(p))
                    =~= s.update(pos as int, (s[pos as int].0, vv)));
            }
        } else {
            items.insert(pos, (key, value));
            proof {
                lemma_listing_insert(s, pos as int, kv, vv);
                assert(items@.map_values(|p: (String, String)| entry_view(p))
                    =~= s.insert(pos as int, (kv, vv)));
            }
        }
        self.items = items;
    }

    /// Removes the entry at `key`; tells whether there was one.
    pub fn remove(&mut self, key: &str) -> (r: bool)
        ensures
            r == old(self)@.dom().contains(key@),
            final(self)@ == old(self)@.remove(key@),
    {
        proof { use_type_invariant(&*self); }
        let ghost s = self.listing();
        let kc = chars_of(key);
        let (pos, found) = self.find(&kc);
        proof { self.lemma_find_result(key@, pos as int, found); }
        if found {
            let mut items: Vec<(String, String)> = Vec::new();
            std::mem::swap(&mut items, &mut self.items);
            let ghost old_items = items@;
            assert(s == old_items.map_values(|p: (String, String)| entry_view(p)));
            let _ = items.remove(pos);
            proof {
                lemma_listing_remove(s, pos as int);
                assert(items@.map_values(|p: (String, String)| entry_view(p))
                    =~= s.remove(pos as int));
            }
            self.items = items;
            true
        } else {
            assert(old(self)@.remove(key@) =~= old(self)@);
            false
        }
    }
}


impl Clone for StrMap {
    /// A copy holding the same entries.
    fn clone(&self) -> (res: Self)
        ensures
            res.listing() == self.listing(),
            res@ == self@,
    {
        proof { use_type_invariant(self); }
        let mut items: Vec<(String, String)> = Vec::new();
        let n = self.items.len();
        for i in 0..n
            invariant
                n == self.items@.len(),
                items@.len() == i,
                forall|j: int| 0 <= j < i ==> #[trigger] entry_view(items@[j]) == entry_view(self.items@[j]),
        {
            let k = self.items[i].0.clone();
            let v = self.items[i].1.clone();
            items.push((k, v));
        }
        proof {
            assert(items@.map_values(|p: (String, String)| entry_view(p))
                =~= self.items@.map_values(|p: (String, String)| entry_view(p)));
        }
        StrMap { items }
    }
}

} // verus!
