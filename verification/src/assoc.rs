//! Association lists: a sequence of `(key, value)` pairs read as a map in
//! which a later pair overrides an earlier one with the same key. This is the
//! model behind the field lists of a record and the keyed tables of the merge.
use vstd::prelude::*;

verus! {

/// The map that a list of pairs denotes, the last pair for a key winning.
pub open spec fn pairs_map<A, B>(s: Seq<(A, B)>) -> Map<A, B>
    decreases s.len(),
{
    if s.len() == 0 {
        Map::empty()
    } else {
        pairs_map(s.drop_last()).insert(s.last().0, s.last().1)
    }
}

/// `i` is the last position of the pairs that holds the key `s[i].0`.
pub open spec fn is_last_key<A, B>(s: Seq<(A, B)>, i: int) -> bool {
    &&& 0 <= i < s.len()
    &&& forall|j: int| i < j < s.len() ==> #[trigger] s[j].0 != s[i].0
}

/// No pair of the list holds `k`.
pub open spec fn key_absent<A, B>(s: Seq<(A, B)>, k: A) -> bool {
    forall|j: int| 0 <= j < s.len() ==> #[trigger] s[j].0 != k
}

/// A key is mapped exactly when some pair holds it.
pub proof fn lemma_pairs_map_dom<A, B>(s: Seq<(A, B)>, k: A)
    ensures
        pairs_map(s).contains_key(k) <==> exists|i: int| 0 <= i < s.len() && #[trigger] s[i].0 == k,
    decreases s.len(),
{
    if s.len() > 0 {
        lemma_pairs_map_dom(s.drop_last(), k);
        if pairs_map(s.drop_last()).contains_key(k) {
            let i = choose|i: int| 0 <= i < s.drop_last().len() && #[trigger] s.drop_last()[i].0 == k;
            assert(s[i].0 == k);
        }
        if exists|i: int| 0 <= i < s.len() && #[trigger] s[i].0 == k {
            let i = choose|i: int| 0 <= i < s.len() && #[trigger] s[i].0 == k;
            if i < s.len() - 1 {
                assert(s.drop_last()[i].0 == k);
            }
        }
    }
}

/// A key held by no pair is not mapped.
pub proof fn lemma_pairs_map_absent<A, B>(s: Seq<(A, B)>, k: A)
    requires
        key_absent(s, k),
    ensures
        !pairs_map(s).contains_key(k),
{
    lemma_pairs_map_dom(s, k);
}

/// The value of a key is that of its last pair.
pub proof fn lemma_pairs_map_last<A, B>(s: Seq<(A, B)>, i: int)
    requires
        is_last_key(s, i),
    ensures
        pairs_map(s).contains_key(s[i].0),
        pairs_map(s)[s[i].0] == s[i].1,
    decreases s.len(),
{
    if i < s.len() - 1 {
        let t = s.drop_last();
        assert(is_last_key(t, i)) by {
            assert forall|j: int| i < j < t.len() implies #[trigger] t[j].0 != t[i].0 by {
                assert(t[j] == s[j]);
            }
        }
        lemma_pairs_map_last(t, i);
        assert(s[s.len() - 1].0 != s[i].0);
    }
}

/// Appending a pair sets its key.
pub proof fn lemma_pairs_map_push<A, B>(s: Seq<(A, B)>, p: (A, B))
    ensures
        pairs_map(s.push(p)) == pairs_map(s).insert(p.0, p.1),
{
    assert(s.push(p).drop_last() =~= s);
}

/// Replacing the value of the last pair of a key sets that key.
pub proof fn lemma_pairs_map_update<A, B>(s: Seq<(A, B)>, i: int, v: B)
    requires
        is_last_key(s, i),
    ensures
        pairs_map(s.update(i, (s[i].0, v))) == pairs_map(s).insert(s[i].0, v),
    decreases s.len(),
{
    let u = s.update(i, (s[i].0, v));
    if i == s.len() - 1 {
        assert(u.drop_last() =~= s.drop_last());
        assert(pairs_map(u) =~= pairs_map(s).insert(s[i].0, v));
    } else {
        let t = s.drop_last();
        assert(is_last_key(t, i)) by {
            assert forall|j: int| i < j < t.len() implies #[trigger] t[j].0 != t[i].0 by {
                assert(t[j] == s[j]);
            }
        }
        lemma_pairs_map_update(t, i, v);
        assert(u.drop_last() =~= t.update(i, (t[i].0, v)));
        assert(s.last().0 != s[i].0);
        assert(pairs_map(u) =~= pairs_map(s).insert(s[i].0, v));
    }
}

} // verus!
