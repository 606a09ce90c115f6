//! Sorting strings into the order of `String`.

use vstd::prelude::*;
use crate::text::{seq_lt, chars_of, chars_lt, lemma_seq_lt_total, lemma_seq_lt_transitive,
    lemma_seq_lt_asymmetric};

verus! {

broadcast use vstd::seq_lib::group_to_multiset_ensures;

/// `a` comes before `b` or equals it.
pub open spec fn seq_le(a: Seq<char>, b: Seq<char>) -> bool {
    seq_lt(a, b) || a == b
}

/// The sequence is in non-decreasing order.
pub open spec fn strs_sorted(s: Seq<Seq<char>>) -> bool {
    forall|i: int, j: int| #![trigger s[i], s[j]] 0 <= i < j < s.len() ==> seq_le(s[i], s[j])
}

/// The views of a vector of strings.
pub open spec fn views(v: Seq<String>) -> Seq<Seq<char>> {
    v.map_values(|s: String| s@)
}

/// The strings of `files` in non-decreasing order.
pub open spec fn sorted_version(files: Seq<Seq<char>>) -> Seq<Seq<char>> {
    choose|s: Seq<Seq<char>>| strs_sorted(s) && s.to_multiset() == files.to_multiset()
}

/// Inserting an element anywhere adds it to the multiset.
pub proof fn lemma_multiset_insert<A>(s: Seq<A>, p: int, x: A)
    requires
        0 <= p <= s.len(),
    ensures
        s.insert(p, x).to_multiset() == s.to_multiset().insert(x),
{
    let t = s.insert(p, x);
    assert(t.remove(p) =~= s);
    assert(t[p] == x);
    assert(t.contains(x));
    assert(t.to_multiset().count(x) > 0);
    assert(s.to_multiset() == t.to_multiset().remove(x));
    assert(t.to_multiset() =~= s.to_multiset().insert(x));
}

/// Two sorted sequences with the same elements, counted with multiplicity,
/// are equal: the sorted order of a collection of strings is unique.
pub proof fn lemma_sorted_permutation_unique(s1: Seq<Seq<char>>, s2: Seq<Seq<char>>)
    requires
        strs_sorted(s1),
        strs_sorted(s2),
        s1.to_multiset() == s2.to_multiset(),
    ensures
        s1 == s2,
    decreases s1.len(),
{
    assert(s1.len() == s1.to_multiset().len());
    assert(s2.len() == s2.to_multiset().len());
    if s1.len() == 0 {
        assert(s1 =~= s2);
    } else {
        let a = s1[0];
        let b = s2[0];
        assert(s1.contains(a));
        assert(s1.to_multiset().count(a) > 0);
        assert(s2.contains(a));
        let j = choose|j: int| 0 <= j < s2.len() && s2[j] == a;
        assert(seq_le(b, a)) by {
            if j > 0 {
                assert(seq_le(s2[0], s2[j]));
            }
        }
        assert(s2.contains(b));
        assert(s2.to_multiset().count(b) > 0);
        assert(s1.contains(b));
        let k = choose|k: int| 0 <= k < s1.len() && s1[k] == b;
        assert(seq_le(a, b)) by {
            if k > 0 {
                assert(seq_le(s1[0], s1[k]));
            }
        }
        if a != b {
            lemma_seq_lt_asymmetric(a, b);
        }
        let t1 = s1.drop_first();
        let t2 = s2.drop_first();
        assert(s1.remove(0) =~= t1);
        assert(s2.remove(0) =~= t2);
        assert(t1.to_multiset() == s1.to_multiset().remove(a));
        assert(t2.to_multiset() == s2.to_multiset().remove(b));
        assert(strs_sorted(t1)) by {
            assert forall|i: int, j: int| #![trigger t1[i], t1[j]] 0 <= i < j < t1.len() implies seq_le(t1[i], t1[j]) by {
                assert(seq_le(s1[i + 1], s1[j + 1]));
            }
        }
        assert(strs_sorted(t2)) by {
            assert forall|i: int, j: int| #![trigger t2[i], t2[j]] 0 <= i < j < t2.len() implies seq_le(t2[i], t2[j]) by {
                assert(seq_le(s2[i + 1], s2[j + 1]));
            }
        }
        lemma_sorted_permutation_unique(t1, t2);
        assert(s1 =~= seq![a] + t1);
        assert(s2 =~= seq![b] + t2);
    }
}

/// The first position in the sorted `res` whose string comes strictly after
/// `x`.
fn insert_position(res: &Vec<String>, x: &Vec<char>) -> (p: usize)
    requires
        strs_sorted(views(res@)),
    ensures
        p <= res@.len(),
        forall|k: int| 0 <= k < p ==> #[trigger] seq_le(views(res@)[k], x@),
        p < res@.len() ==> seq_lt(x@, views(res@)[p as int]),
{
    let ghost r = views(res@);
    let mut p: usize = 0;
    while p < res.len()
        invariant
            p <= res@.len(),
            r == views(res@),
            forall|k: int| 0 <= k < p ==> #[trigger] seq_le(r[k], x@),
        decreases res@.len() - p,
    {
        let rc = chars_of(res[p].as_str());
        assert(rc@ == r[p as int]);
        if chars_lt(x, &rc) {
            return p;
        }
        proof {
            if rc@ != x@ {
                lemma_seq_lt_total(rc@, x@);
            }
        }
        p = p + 1;
    }
    p
}

/// The strings of `v` in non-decreasing order (a stable insertion sort).
pub fn sort_strings(v: &Vec<String>) -> (res: Vec<String>)
    ensures
        strs_sorted(views(res@)),
        views(res@).to_multiset() == views(v@).to_multiset(),
        views(res@) == sorted_version(views(v@)),
{
    let mut res: Vec<String> = Vec::new();
    let n = v.len();
    assert(views(v@).take(0) =~= Seq::<Seq<char>>::empty());
    assert(views(res@) =~= Seq::<Seq<char>>::empty());
    for i in 0..n
        invariant
            n == v@.len(),
            strs_sorted(views(res@)),
            views(res@).to_multiset() == views(v@).take(i as int).to_multiset(),
    {
        let x = v[i].clone();
        let xc = chars_of(x.as_str());
        let ghost r = views(res@);
        let ghost xv = x@;
        let p = insert_position(&res, &xc);
        res.insert(p, x);
        proof {
            let r2 = views(res@);
            assert(r2 =~= r.insert(p as int, xv));
            assert(strs_sorted(r2)) by {
                assert forall|a: int, b: int| #![trigger r2[a], r2[b]] 0 <= a < b < r2.len() implies seq_le(r2[a], r2[b]) by {
                    if b < p {
                        assert(seq_le(r[a], r[b]));
                    } else if b == p {
                        assert(seq_le(r[a], xv));
                    } else if a < p {
                        assert(seq_le(r[a], r[b - 1]));
                    } else if a == p {
                        if b - 1 > p {
                            assert(seq_le(r[p as int], r[b - 1]));
                            if r[p as int] != r[b - 1] {
                                lemma_seq_lt_transitive(xv, r[p as int], r[b - 1]);
                            }
                        }
                    } else {
                        assert(seq_le(r[a - 1], r[b - 1]));
                    }
                }
            }
            lemma_multiset_insert(r, p as int, xv);
            assert(views(v@).take(i as int + 1) =~= views(v@).take(i as int).push(xv));
        }
    }
    assert(views(v@).take(n as int) =~= views(v@));
    proof {
        let c = sorted_version(views(v@));
        assert(strs_sorted(c) && c.to_multiset() == views(v@).to_multiset());
        lemma_sorted_permutation_unique(c, views(res@));
    }
    res
}

} // verus!
