//! Sets of strings kept as strictly sorted vectors, in the order of
//! `String`'s `Ord`: the representation of the ordered path sets of the
//! manifest and of the flatten plan.
use vstd::prelude::*;

use crate::assoc::{is_last_key, lemma_pairs_map_absent, lemma_pairs_map_last, pairs_map, key_absent};
use crate::text::{
    chars_lt, chars_of, lemma_seq_lt_asymmetric, lemma_seq_lt_irreflexive, lemma_seq_lt_total,
    lemma_seq_lt_transitive, seq_lt, string_views,
};

verus! {

/// Each element comes strictly before the next.
pub open spec fn strictly_sorted(s: Seq<Seq<char>>) -> bool {
    forall|i: int, j: int| 0 <= i < j < s.len() ==> seq_lt(#[trigger] s[i], #[trigger] s[j])
}

/// `a` comes strictly before `b` in the order of `String`.
pub fn str_lt(a: &str, b: &str) -> (r: bool)
    ensures
        r == seq_lt(a@, b@),
{
    let ca = chars_of(a);
    let cb = chars_of(b);
    chars_lt(ca.as_slice(), cb.as_slice())
}

/// The first position whose element does not come before `s`.
pub fn lower_bound(v: &Vec<String>, s: &String) -> (p: usize)
    requires
        strictly_sorted(string_views(v@)),
    ensures
        p <= v.len(),
        forall|j: int| 0 <= j < p ==> seq_lt(#[trigger] string_views(v@)[j], s@),
        forall|j: int| p <= j < v.len() ==> !seq_lt(#[trigger] string_views(v@)[j], s@),
{
    let ghost sv = string_views(v@);
    let mut lo: usize = 0;
    let mut hi: usize = v.len();
    while lo < hi
        invariant
            lo <= hi <= v.len(),
            sv == string_views(v@),
            strictly_sorted(sv),
            forall|j: int| 0 <= j < lo ==> seq_lt(#[trigger] sv[j], s@),
            forall|j: int| hi <= j < v.len() ==> !seq_lt(#[trigger] sv[j], s@),
        decreases hi - lo,
    {
        let mid = lo + (hi - lo) / 2;
        assert(sv[mid as int] == v@[mid as int]@);
        if str_lt(v[mid].as_str(), s.as_str()) {
            proof {
                assert forall|j: int| 0 <= j <= mid implies seq_lt(#[trigger] sv[j], s@) by {
                    if j < mid {
                        lemma_seq_lt_transitive(sv[j], sv[mid as int], s@);
                    }
                }
            }
            lo = mid + 1;
        } else {
            proof {
                assert forall|j: int| mid <= j < v.len() implies !seq_lt(#[trigger] sv[j], s@) by {
                    if j > mid && seq_lt(sv[j], s@) {
                        lemma_seq_lt_total(sv[mid as int], s@);
                        if sv[mid as int] == s@ {
                            lemma_seq_lt_asymmetric(sv[mid as int], sv[j]);
                        } else {
                            lemma_seq_lt_transitive(sv[mid as int], sv[j], s@);
                        }
                    }
                }
            }
            hi = mid;
        }
    }
    lo
}

/// Adds `s` to the sorted set; returns whether it was new.
pub fn set_insert(v: &mut Vec<String>, s: String) -> (added: bool)
    requires
        strictly_sorted(string_views(old(v)@)),
    ensures
        strictly_sorted(string_views(final(v)@)),
        string_views(final(v)@).to_set() == string_views(old(v)@).to_set().insert(s@),
        added == !string_views(old(v)@).contains(s@),
        added ==> final(v)@.len() == old(v)@.len() + 1,
        !added ==> final(v)@ == old(v)@,
{
    let p = lower_bound(v, &s);
    let ghost sv = string_views(v@);
    if p < v.len() && v[p] == s {
        assert(sv[p as int] == s@);
        assert(sv.to_set().insert(s@) =~= sv.to_set());
        false
    } else {
        proof {
            if sv.contains(s@) {
                let j = choose|j: int| 0 <= j < sv.len() && sv[j] == s@;
                lemma_seq_lt_irreflexive(s@);
                if j > p as int {
                    assert(seq_lt(sv[p as int], sv[j]));
                    lemma_seq_lt_total(sv[p as int], s@);
                }
            }
        }
        let ghost sview = s@;
        v.insert(p, s);
        proof {
            let nv = string_views(v@);
            assert(nv =~= sv.insert(p as int, sview));
            assert forall|i: int, j: int| 0 <= i < j < nv.len() implies seq_lt(#[trigger] nv[i], #[trigger] nv[j]) by {
                if j < p {
                    assert(nv[i] == sv[i] && nv[j] == sv[j]);
                } else if j == p {
                    assert(nv[i] == sv[i]);
                } else if i == p {
                    assert(nv[j] == sv[j - 1]);
                    lemma_seq_lt_total(sv[j - 1], sview);
                } else if i < p {
                    assert(nv[i] == sv[i] && nv[j] == sv[j - 1]);
                } else {
                    assert(nv[i] == sv[i - 1] && nv[j] == sv[j - 1]);
                }
            }
            assert(nv.to_set() =~= sv.to_set().insert(sview)) by {
                assert forall|x: Seq<char>| nv.to_set().contains(x) <==> sv.to_set().insert(sview).contains(x) by {
                    if nv.contains(x) {
                        let i = choose|i: int| 0 <= i < nv.len() && nv[i] == x;
                        if i < p {
                            assert(sv[i] == x);
                        } else if i > p {
                            assert(sv[i - 1] == x);
                        }
                    }
                    if sv.contains(x) {
                        let i = choose|i: int| 0 <= i < sv.len() && sv[i] == x;
                        if i < p {
                            assert(nv[i] == x);
                        } else {
                            assert(nv[i + 1] == x);
                        }
                    }
                    if x == sview {
                        assert(nv[p as int] == x);
                    }
                }
            }
        }
        true
    }
}

/// A map from strings to values, its keys kept strictly sorted: the index
/// of an archive or of a folder layer.
pub struct SortedMap<V> {
    keys: Vec<String>,
    vals: Vec<V>,
}

impl<V> SortedMap<V> {
    /// The keys are strictly sorted and each has its value.
    pub closed spec fn wf(&self) -> bool {
        &&& self.keys@.len() == self.vals@.len()
        &&& strictly_sorted(string_views(self.keys@))
    }

    /// The entries as `(key, value)` pairs, in key order.
    pub closed spec fn entries(&self) -> Seq<(Seq<char>, V)> {
        Seq::new(self.keys@.len(), |i: int| (self.keys@[i]@, self.vals@[i]))
    }

    /// The keys, in order.
    pub closed spec fn key_seq(&self) -> Seq<Seq<char>> {
        string_views(self.keys@)
    }

    /// The map the index denotes.
    pub open spec fn map(&self) -> Map<Seq<char>, V> {
        pairs_map(self.entries())
    }

    proof fn lemma_lookup(&self, i: int)
        requires
            self.wf(),
            0 <= i < self.keys@.len(),
        ensures
            self.map().contains_key(self.keys@[i]@),
            self.map()[self.keys@[i]@] == self.vals@[i],
    {
        let e = self.entries();
        assert(is_last_key(e, i)) by {
            assert forall|j: int| i < j < e.len() implies #[trigger] e[j].0 != e[i].0 by {
                assert(seq_lt(string_views(self.keys@)[i], string_views(self.keys@)[j]));
                lemma_seq_lt_irreflexive(e[i].0);
            }
        }
        lemma_pairs_map_last(e, i);
    }

    /// The keys in order are exactly the keys of the map.
    pub proof fn lemma_keys(&self)
        requires
            self.wf(),
        ensures
            strictly_sorted(self.key_seq()),
            forall|k: Seq<char>| self.map().contains_key(k) <==> self.key_seq().contains(k),
    {
        assert forall|k: Seq<char>| self.map().contains_key(k) <==> self.key_seq().contains(k) by {
            crate::assoc::lemma_pairs_map_dom(self.entries(), k);
            if self.key_seq().contains(k) {
                let i = choose|i: int| 0 <= i < self.key_seq().len() && self.key_seq()[i] == k;
                assert(self.entries()[i].0 == k);
            }
            if self.map().contains_key(k) {
                let i = choose|i: int| 0 <= i < self.entries().len() && #[trigger] self.entries()[i].0 == k;
                assert(self.key_seq()[i] == k);
            }
        }
    }

    /// An empty index.
    pub fn new() -> (r: Self)
        ensures
            r.wf(),
            r.map() == Map::<Seq<char>, V>::empty(),
            r.key_seq().len() == 0,
    {
        let r = SortedMap { keys: Vec::new(), vals: Vec::new() };
        assert(r.entries() =~= Seq::empty());
        r
    }

    /// The number of keys.
    pub fn len(&self) -> (n: usize)
        requires
            self.wf(),
        ensures
            n == self.key_seq().len(),
    {
        self.keys.len()
    }

    /// The keys, in order.
    pub fn keys(&self) -> (r: &Vec<String>)
        ensures
            string_views(r@) == self.key_seq(),
    {
        &self.keys
    }

    /// The values, in key order.
    pub fn values(&self) -> (r: &Vec<V>)
        requires
            self.wf(),
        ensures
            r@.len() == self.key_seq().len(),
            forall|i: int|
                0 <= i < r@.len() ==> self.map().contains_key(#[trigger] self.key_seq()[i]) && self.map()[self.key_seq()[i]]
                    == r@[i],
    {
        proof {
            assert forall|i: int| 0 <= i < self.vals@.len() implies self.map().contains_key(
                #[trigger] self.key_seq()[i],
            ) && self.map()[self.key_seq()[i]] == self.vals@[i] by {
                self.lemma_lookup(i);
            }
        }
        &self.vals
    }

    /// The value of `k`, if the index holds it.
    pub fn get(&self, k: &String) -> (r: Option<&V>)
        requires
            self.wf(),
        ensures
            match r {
                Some(v) => self.map().contains_key(k@) && self.map()[k@] == *v,
                None => !self.map().contains_key(k@),
            },
    {
        let p = lower_bound(&self.keys, k);
        if p < self.keys.len() && self.keys[p] == *k {
            proof {
                self.lemma_lookup(p as int);
            }
            Some(&self.vals[p])
        } else {
            proof {
                self.lemma_keys();
                if self.key_seq().contains(k@) {
                    let j = choose|j: int| 0 <= j < self.key_seq().len() && self.key_seq()[j] == k@;
                    lemma_seq_lt_irreflexive(k@);
                    if j > p as int {
                        assert(seq_lt(self.key_seq()[p as int], self.key_seq()[j]));
                        lemma_seq_lt_total(self.key_seq()[p as int], k@);
                    }
                }
            }
            None
        }
    }

    /// Whether the index holds `k`.
    pub fn contains_key(&self, k: &String) -> (r: bool)
        requires
            self.wf(),
        ensures
            r == self.map().contains_key(k@),
    {
        self.get(k).is_some()
    }

    /// Sets `k` to `v`, replacing any earlier value.
    pub fn insert(&mut self, k: String, v: V)
        requires
            old(self).wf(),
        ensures
            final(self).wf(),
            final(self).map() == old(self).map().insert(k@, v),
    {
        let p = lower_bound(&self.keys, &k);
        let ghost kv = k@;
        let ghost e0 = self.entries();
        if p < self.keys.len() && self.keys[p] == k {
            self.vals.set(p, v);
            proof {
                let e1 = self.entries();
                assert(e1 =~= e0.update(p as int, (e0[p as int].0, v)));
                assert(is_last_key(e0, p as int)) by {
                    assert forall|j: int| p < j < e0.len() implies #[trigger] e0[j].0 != e0[p as int].0 by {
                        assert(seq_lt(string_views(self.keys@)[p as int], string_views(self.keys@)[j]));
                        lemma_seq_lt_irreflexive(e0[j].0);
                    }
                }
                crate::assoc::lemma_pairs_map_update(e0, p as int, v);
            }
        } else {
            let ghost sv = string_views(self.keys@);
            proof {
                if sv.contains(kv) {
                    let j = choose|j: int| 0 <= j < sv.len() && sv[j] == kv;
                    lemma_seq_lt_irreflexive(kv);
                    if j > p as int {
                        assert(seq_lt(sv[p as int], sv[j]));
                        lemma_seq_lt_total(sv[p as int], kv);
                    }
                }
            }
            self.keys.insert(p, k);
            self.vals.insert(p, v);
            proof {
                let nv = string_views(self.keys@);
                assert(nv =~= sv.insert(p as int, kv));
                assert forall|i: int, j: int| 0 <= i < j < nv.len() implies seq_lt(#[trigger] nv[i], #[trigger] nv[j]) by {
                    if j < p {
                        assert(nv[i] == sv[i] && nv[j] == sv[j]);
                    } else if j == p {
                        assert(nv[i] == sv[i]);
                    } else if i == p {
                        assert(nv[j] == sv[j - 1]);
                        lemma_seq_lt_total(sv[j - 1], kv);
                    } else if i < p {
                        assert(nv[i] == sv[i] && nv[j] == sv[j - 1]);
                    } else {
                        assert(nv[i] == sv[i - 1] && nv[j] == sv[j - 1]);
                    }
                }
                // the new entries hold the old ones and (k, v); every key once
                let e1 = self.entries();
                assert(key_absent(e0, kv)) by {
                    assert forall|j: int| 0 <= j < e0.len() implies #[trigger] e0[j].0 != kv by {
                        assert(e0[j].0 == sv[j]);
                    }
                }
                assert forall|key: Seq<char>| #[trigger] pairs_map(e1).dom().contains(key) == old(self).map().insert(kv, v).dom().contains(key)
                    && (pairs_map(e1).dom().contains(key) ==> pairs_map(e1)[key] == old(self).map().insert(kv, v)[key]) by {
                    crate::assoc::lemma_pairs_map_dom(e1, key);
                    crate::assoc::lemma_pairs_map_dom(e0, key);
                    if key == kv {
                        self.lemma_lookup(p as int);
                    } else {
                        if pairs_map(e0).contains_key(key) {
                            let i = choose|i: int| 0 <= i < e0.len() && #[trigger] e0[i].0 == key;
                            old(self).lemma_lookup(i);
                            let ni = if i < p { i } else { i + 1 };
                            assert(e1[ni] == e0[i]);
                            self.lemma_lookup(ni);
                        }
                        if pairs_map(e1).contains_key(key) {
                            let i = choose|i: int| 0 <= i < e1.len() && #[trigger] e1[i].0 == key;
                            let oi = if i < p { i } else { i - 1 };
                            assert(e0[oi] == e1[i]);
                        }
                    }
                }
                assert(pairs_map(e1) =~= old(self).map().insert(kv, v));
            }
        }
    }
}

} // verus!
