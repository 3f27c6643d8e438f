use vstd::prelude::*;
use vstd::string::StrSliceExecFns;

verus! {

/// Strict lexicographic order on character sequences, comparing characters
/// by their Unicode scalar values. A proper prefix precedes its extensions.
pub open spec fn lex_lt(a: Seq<char>, b: Seq<char>) -> bool
    decreases a.len(),
{
    if b.len() == 0 {
        false
    } else if a.len() == 0 {
        true
    } else if (a[0] as u32) < (b[0] as u32) {
        true
    } else if (a[0] as u32) > (b[0] as u32) {
        false
    } else {
        lex_lt(a.skip(1), b.skip(1))
    }
}

/// Adjacent pairs of the sequence are strictly ascending under `lex_lt`.
pub open spec fn strictly_ascending(ids: Seq<Seq<char>>) -> bool {
    forall|i: int| 0 <= i && i + 1 < ids.len() ==> #[trigger] lex_lt(ids[i], ids[i + 1])
}

/// `lex_lt` is total: two distinct sequences are ordered one way or the other.
pub proof fn lemma_lex_total(a: Seq<char>, b: Seq<char>)
    requires
        !lex_lt(a, b),
        a != b,
    ensures
        lex_lt(b, a),
    decreases a.len(),
{
    if b.len() == 0 {
        if a.len() == 0 {
            assert(a =~= b);
        }
    } else if a.len() == 0 {
        assert(lex_lt(a, b));
    } else if (a[0] as u32) == (b[0] as u32) {
        vstd::utf8::char_u32_cast(a[0], a[0] as u32);
        vstd::utf8::char_u32_cast(b[0], b[0] as u32);
        if a.skip(1) == b.skip(1) {
            assert(a.skip(1).len() == a.len() - 1);
            assert(b.skip(1).len() == b.len() - 1);
            assert(a.len() == b.len());
            assert forall|i: int| 0 <= i < a.len() implies a[i] == b[i] by {
                if i >= 1 {
                    assert(a.skip(1)[i - 1] == a[i]);
                    assert(b.skip(1)[i - 1] == b[i]);
                }
            }
            assert(a =~= b);
        }
        lemma_lex_total(a.skip(1), b.skip(1));
    }
}

/// `lex_lt` is irreflexive.
pub proof fn lemma_lex_irrefl(a: Seq<char>)
    ensures
        !lex_lt(a, a),
    decreases a.len(),
{
    if a.len() > 0 {
        lemma_lex_irrefl(a.skip(1));
    }
}

/// `lex_lt` is transitive.
pub proof fn lemma_lex_trans(a: Seq<char>, b: Seq<char>, c: Seq<char>)
    requires
        lex_lt(a, b),
        lex_lt(b, c),
    ensures
        lex_lt(a, c),
    decreases a.len(),
{
    if a.len() == 0 {
        assert(c.len() > 0);
    } else {
        assert(b.len() > 0);
        assert(c.len() > 0);
        if (a[0] as u32) < (b[0] as u32) {
            assert((b[0] as u32) <= (c[0] as u32));
        } else {
            assert((a[0] as u32) == (b[0] as u32));
            if (b[0] as u32) == (c[0] as u32) {
                lemma_lex_trans(a.skip(1), b.skip(1), c.skip(1));
            }
        }
    }
}

/// In a strictly ascending sequence, any earlier entry precedes any later one.
pub proof fn lemma_ascending_at(ids: Seq<Seq<char>>, i: int, j: int)
    requires
        strictly_ascending(ids),
        0 <= i < j < ids.len(),
    ensures
        lex_lt(ids[i], ids[j]),
    decreases j - i,
{
    if j == i + 1 {
        assert(lex_lt(ids[i], ids[i + 1]));
    } else {
        lemma_ascending_at(ids, i, j - 1);
        let h = j - 1;
        assert(lex_lt(ids[h], ids[h + 1]));
        lemma_lex_trans(ids[i], ids[j - 1], ids[j]);
    }
}

/// A strictly ascending sequence is determined by the set of its entries:
/// two such sequences holding the same entries are identical. In
/// particular, a sorted listing does not depend on the order in which its
/// entries were supplied.
pub proof fn lemma_ascending_determined(s1: Seq<Seq<char>>, s2: Seq<Seq<char>>)
    requires
        strictly_ascending(s1),
        strictly_ascending(s2),
        forall|k: Seq<char>| s1.contains(k) <==> s2.contains(k),
    ensures
        s1 == s2,
    decreases s1.len(),
{
    if s1.len() == 0 {
        if s2.len() > 0 {
            assert(s2.contains(s2[0]));
            assert(s1.contains(s2[0]));
        }
        assert(s1 =~= s2);
    } else {
        assert(s1.contains(s1[0]));
        assert(s2.contains(s1[0]));
        let j = choose|j: int| 0 <= j < s2.len() && s2[j] == s1[0];
        assert(s2.contains(s2[0]));
        assert(s1.contains(s2[0]));
        let k = choose|k: int| 0 <= k < s1.len() && s1[k] == s2[0];
        if s1[0] != s2[0] {
            lemma_ascending_at(s2, 0, j);
            lemma_ascending_at(s1, 0, k);
            lemma_lex_trans(s1[0], s2[0], s1[0]);
            lemma_lex_irrefl(s1[0]);
        }
        let t1 = s1.skip(1);
        let t2 = s2.skip(1);
        assert forall|a: int| 0 <= a && a + 1 < t1.len() implies lex_lt(
            #[trigger] t1[a],
            t1[a + 1],
        ) by {
            assert(t1[a] == s1[a + 1]);
            assert(t1[a + 1] == s1[a + 2]);
        }
        assert forall|a: int| 0 <= a && a + 1 < t2.len() implies lex_lt(
            #[trigger] t2[a],
            t2[a + 1],
        ) by {
            assert(t2[a] == s2[a + 1]);
            assert(t2[a + 1] == s2[a + 2]);
        }
        assert forall|x: Seq<char>| t1.contains(x) implies t2.contains(x) by {
            let a = choose|a: int| 0 <= a < t1.len() && t1[a] == x;
            assert(s1[a + 1] == x);
            lemma_ascending_at(s1, 0, a + 1);
            lemma_lex_irrefl(x);
            assert(x != s2[0]);
            assert(s1.contains(x));
            assert(s2.contains(x));
            let b = choose|b: int| 0 <= b < s2.len() && s2[b] == x;
            assert(t2[b - 1] == x);
            assert(t2.contains(x));
        }
        assert forall|x: Seq<char>| t2.contains(x) implies t1.contains(x) by {
            let a = choose|a: int| 0 <= a < t2.len() && t2[a] == x;
            assert(s2[a + 1] == x);
            lemma_ascending_at(s2, 0, a + 1);
            lemma_lex_irrefl(x);
            assert(x != s1[0]);
            assert(s2.contains(x));
            assert(s1.contains(x));
            let b = choose|b: int| 0 <= b < s1.len() && s1[b] == x;
            assert(t1[b - 1] == x);
            assert(t1.contains(x));
        }
        lemma_ascending_determined(t1, t2);
        assert forall|a: int| 0 <= a < s1.len() implies s1[a] == s2[a] by {
            if a > 0 {
                assert(t1[a - 1] == s1[a]);
                assert(t2[a - 1] == s2[a]);
            }
        }
        assert(s1 =~= s2);
    }
}

/// Compares two strings in the lexicographic order of their characters.
pub fn str_lt(a: &str, b: &str) -> (r: bool)
    ensures
        r == lex_lt(a@, b@),
{
    let a_len = a.unicode_len();
    let b_len = b.unicode_len();
    let mut i: usize = 0;
    proof {
        assert(a@.skip(0) =~= a@);
        assert(b@.skip(0) =~= b@);
    }
    loop
        invariant
            i <= a_len,
            i <= b_len,
            a_len == a@.len(),
            b_len == b@.len(),
            lex_lt(a@, b@) == lex_lt(a@.skip(i as int), b@.skip(i as int)),
        decreases a_len - i,
    {
        proof {
            assert(a@.skip(i as int).len() == a_len - i);
            assert(b@.skip(i as int).len() == b_len - i);
        }
        if i == b_len {
            return false;
        }
        if i == a_len {
            return true;
        }
        let ca = a.get_char(i);
        let cb = b.get_char(i);
        proof {
            assert(a@.skip(i as int)[0] == a@[i as int]);
            assert(b@.skip(i as int)[0] == b@[i as int]);
        }
        if (ca as u32) < (cb as u32) {
            return true;
        }
        if (ca as u32) > (cb as u32) {
            return false;
        }
        proof {
            assert(a@.skip(i as int).skip(1) =~= a@.skip(i + 1));
            assert(b@.skip(i as int).skip(1) =~= b@.skip(i + 1));
        }
        i = i + 1;
    }
}

} // verus!
