use vstd::prelude::*;

verus! {

/// The finite map described by an association list of (key, value) pairs.
/// A later pair overrides an earlier one with the same key; the lists this
/// crate builds carry `unique_keys`, so the order never matters.
pub open spec fn assoc_map<V>(s: Seq<(Seq<char>, V)>) -> Map<Seq<char>, V>
    decreases s.len(),
{
    if s.len() == 0 {
        Map::empty()
    } else {
        assoc_map(s.drop_last()).insert(s.last().0, s.last().1)
    }
}

/// No two pairs of the list share a key.
pub open spec fn unique_keys<V>(s: Seq<(Seq<char>, V)>) -> bool {
    forall|i: int, j: int| 0 <= i < j < s.len() ==> (#[trigger] s[i]).0 != (#[trigger] s[j]).0
}

/// A key is in the map exactly when some pair of the list holds it.
pub proof fn lemma_assoc_contains<V>(s: Seq<(Seq<char>, V)>, k: Seq<char>)
    ensures
        assoc_map(s).contains_key(k) <==> exists|i: int|
            0 <= i < s.len() && (#[trigger] s[i]).0 == k,
    decreases s.len(),
{
    if s.len() > 0 {
        let d = s.drop_last();
        lemma_assoc_contains(d, k);
        assert(forall|i: int| 0 <= i < d.len() ==> #[trigger] d[i] == s[i]);
        if exists|i: int| 0 <= i < s.len() && (#[trigger] s[i]).0 == k {
            let i = choose|i: int| 0 <= i < s.len() && (#[trigger] s[i]).0 == k;
            if i < s.len() - 1 {
                assert(d[i].0 == k);
                assert(assoc_map(d).contains_key(k));
            } else {
                assert(s.last().0 == k);
            }
            assert(assoc_map(s).contains_key(k));
        }
        if assoc_map(s).contains_key(k) {
            if k == s.last().0 {
                assert((s[s.len() - 1]).0 == k);
            } else {
                assert(assoc_map(d).contains_key(k));
                let i = choose|i: int| 0 <= i < d.len() && (#[trigger] d[i]).0 == k;
                assert((s[i]).0 == k);
            }
        }
    }
}

/// Under unique keys, the pair holding a key gives the key's value in the map.
pub proof fn lemma_assoc_match<V>(s: Seq<(Seq<char>, V)>, k: Seq<char>, i: int)
    requires
        unique_keys(s),
        0 <= i < s.len(),
        (s[i]).0 == k,
    ensures
        assoc_map(s).contains_key(k),
        assoc_map(s)[k] == (s[i]).1,
    decreases s.len(),
{
    let d = s.drop_last();
    assert(forall|j: int| 0 <= j < d.len() ==> #[trigger] d[j] == s[j]);
    if i == s.len() - 1 {
        assert(s.last() == s[i]);
    } else {
        assert((s[i]).0 != (s[s.len() - 1]).0);
        lemma_assoc_match(d, k, i);
    }
}

/// Inserting a pair with a fresh key anywhere in the list inserts it into
/// the map, and keeps the keys unique.
pub proof fn lemma_assoc_insert_at<V>(s: Seq<(Seq<char>, V)>, p: int, x: (Seq<char>, V))
    requires
        unique_keys(s),
        0 <= p <= s.len(),
        forall|i: int| 0 <= i < s.len() ==> (#[trigger] s[i]).0 != x.0,
    ensures
        unique_keys(s.insert(p, x)),
        assoc_map(s.insert(p, x)) == assoc_map(s).insert(x.0, x.1),
{
    let t = s.insert(p, x);
    s.insert_ensures(p, x);
    assert forall|i: int, j: int| 0 <= i < j < t.len() implies (#[trigger] t[i]).0
        != (#[trigger] t[j]).0 by {
        if i == p {
            assert(t[j] == s[j - 1]);
        } else if j == p {
            assert(t[i] == s[i]);
        } else {
            let i0: int = if i < p { i } else { i - 1 };
            let j0: int = if j < p { j } else { j - 1 };
            assert(t[i] == s[i0]);
            assert(t[j] == s[j0]);
            assert((s[i0]).0 != (s[j0]).0);
        }
    }
    let m1 = assoc_map(t);
    let m2 = assoc_map(s).insert(x.0, x.1);
    assert forall|k: Seq<char>| #[trigger] m1.contains_key(k) implies m2.contains_key(k)
        && m1[k] == m2[k] by {
        lemma_assoc_contains(t, k);
        let i = choose|i: int| 0 <= i < t.len() && (#[trigger] t[i]).0 == k;
        lemma_assoc_match(t, k, i);
        if i == p {
            assert(k == x.0);
            assert(m1[k] == x.1);
        } else {
            let i0: int = if i < p { i } else { i - 1 };
            assert(t[i] == s[i0]);
            assert(k != x.0);
            lemma_assoc_match(s, k, i0);
        }
    }
    assert forall|k: Seq<char>| #[trigger] m2.contains_key(k) implies m1.contains_key(k) by {
        lemma_assoc_contains(t, k);
        if k == x.0 {
            assert((t[p]).0 == k);
        } else {
            lemma_assoc_contains(s, k);
            let i0 = choose|i: int| 0 <= i < s.len() && (#[trigger] s[i]).0 == k;
            let i: int = if i0 < p { i0 } else { i0 + 1 };
            assert(t[i] == s[i0]);
        }
    }
    assert(m1 =~= m2);
}

} // verus!
