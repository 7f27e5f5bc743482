//! Lexicographic order on byte strings.
//!
//! Every deterministic ordering in the index (file paths, module files,
//! JSON object keys, aggregate map keys) is the lexicographic order on
//! UTF-8 bytes, which is also the order `str` and `[u8]` use in Rust.

use vstd::prelude::*;

verus! {

/// Strict lexicographic order on byte sequences.
pub open spec fn lex_lt(a: Seq<u8>, b: Seq<u8>) -> bool
    decreases a.len(),
{
    if b.len() == 0 {
        false
    } else if a.len() == 0 {
        true
    } else if a[0] < b[0] {
        true
    } else if a[0] > b[0] {
        false
    } else {
        lex_lt(a.drop_first(), b.drop_first())
    }
}

/// Reflexive closure of `lex_lt`.
pub open spec fn lex_leq(a: Seq<u8>, b: Seq<u8>) -> bool {
    lex_lt(a, b) || a == b
}

/// `lex_lt` never holds both ways.
pub proof fn lemma_lex_lt_asymmetric(a: Seq<u8>, b: Seq<u8>)
    ensures
        !(lex_lt(a, b) && lex_lt(b, a)),
    decreases a.len(),
{
    if a.len() > 0 && b.len() > 0 && a[0] == b[0] {
        lemma_lex_lt_asymmetric(a.drop_first(), b.drop_first());
    }
}

/// Two byte sequences that neither order below the other are equal.
pub proof fn lemma_lex_connected(a: Seq<u8>, b: Seq<u8>)
    requires
        !lex_lt(a, b),
        !lex_lt(b, a),
    ensures
        a == b,
    decreases a.len(),
{
    if a.len() > 0 && b.len() > 0 && a[0] == b[0] {
        lemma_lex_connected(a.drop_first(), b.drop_first());
        assert(a =~= seq![a[0]] + a.drop_first());
        assert(b =~= seq![b[0]] + b.drop_first());
    }
}

/// `lex_lt` is transitive.
pub proof fn lemma_lex_lt_transitive(a: Seq<u8>, b: Seq<u8>, c: Seq<u8>)
    requires
        lex_lt(a, b),
        lex_lt(b, c),
    ensures
        lex_lt(a, c),
    decreases a.len(),
{
    if a.len() > 0 && b.len() > 0 && c.len() > 0 && a[0] == b[0] && b[0] == c[0] {
        lemma_lex_lt_transitive(a.drop_first(), b.drop_first(), c.drop_first());
    }
}

/// Compares two byte vectors in lexicographic order.
pub fn bytes_lt(a: &Vec<u8>, b: &Vec<u8>) -> (r: bool)
    ensures
        r == lex_lt(a@, b@),
{
    let mut i: usize = 0;
    proof {
        assert(a@.skip(0) =~= a@);
        assert(b@.skip(0) =~= b@);
    }
    loop
        invariant
            i <= a.len(),
            i <= b.len(),
            lex_lt(a@, b@) == lex_lt(a@.skip(i as int), b@.skip(i as int)),
        decreases a.len() - i,
    {
        if i == b.len() {
            proof {
                assert(b@.skip(i as int).len() == 0);
            }
            return false;
        }
        if i == a.len() {
            proof {
                assert(a@.skip(i as int).len() == 0);
                assert(b@.skip(i as int).len() > 0);
            }
            return true;
        }
        let x = a[i];
        let y = b[i];
        proof {
            assert(a@.skip(i as int)[0] == a@[i as int]);
            assert(b@.skip(i as int)[0] == b@[i as int]);
        }
        if x < y {
            return true;
        }
        if x > y {
            return false;
        }
        proof {
            assert(a@.skip(i as int).drop_first() =~= a@.skip(i + 1));
            assert(b@.skip(i as int).drop_first() =~= b@.skip(i + 1));
        }
        i = i + 1;
    }
}

/// Tests two byte vectors for equality.
pub fn bytes_eq(a: &Vec<u8>, b: &Vec<u8>) -> (r: bool)
    ensures
        r == (a@ == b@),
{
    if a.len() != b.len() {
        return false;
    }
    let mut i: usize = 0;
    while i < a.len()
        invariant
            i <= a.len(),
            a.len() == b.len(),
            forall|j: int| 0 <= j < i ==> a@[j] == b@[j],
        decreases a.len() - i,
    {
        if a[i] != b[i] {
            return false;
        }
        i = i + 1;
    }
    proof {
        assert(a@ =~= b@);
    }
    true
}

/// A sequence whose `key` projections are strictly ascending in `lex_lt`.
pub open spec fn strictly_sorted_by_key<A>(s: Seq<A>, key: spec_fn(A) -> Seq<u8>) -> bool {
    forall|i: int, j: int| 0 <= i < j < s.len() ==> lex_lt(key(#[trigger] s[i]), key(#[trigger] s[j]))
}

/// A strictly key-sorted sequence is the only such arrangement of its
/// elements: two strictly key-sorted sequences with the same multiset of
/// elements are equal.
pub proof fn lemma_strictly_sorted_perm_unique<A>(s1: Seq<A>, s2: Seq<A>, key: spec_fn(A) -> Seq<u8>)
    requires
        strictly_sorted_by_key(s1, key),
        strictly_sorted_by_key(s2, key),
        s1.to_multiset() == s2.to_multiset(),
    ensures
        s1 == s2,
    decreases s1.len(),
{
    s1.to_multiset_ensures();
    s2.to_multiset_ensures();
    if s1.len() == 0 {
        assert(s2.len() == 0);
        assert(s1 =~= s2);
    } else {
        assert(s1.to_multiset().count(s1[0]) > 0);
        assert(s2.contains(s1[0]));
        let j = choose|j: int| 0 <= j < s2.len() && s2[j] == s1[0];
        assert(s2.to_multiset().count(s2[0]) > 0);
        assert(s1.contains(s2[0]));
        let i = choose|i: int| 0 <= i < s1.len() && s1[i] == s2[0];
        if i > 0 && j > 0 {
            assert(lex_lt(key(s1[0]), key(s1[i])));
            assert(lex_lt(key(s2[0]), key(s2[j])));
            lemma_lex_lt_asymmetric(key(s1[0]), key(s2[0]));
            assert(false);
        }
        assert(s1[0] == s2[0]);
        let t1 = s1.remove(0);
        let t2 = s2.remove(0);
        assert(t1.to_multiset() =~= s1.to_multiset().remove(s1[0]));
        assert(t2.to_multiset() =~= s2.to_multiset().remove(s2[0]));
        s1.remove_ensures(0);
        s2.remove_ensures(0);
        assert(strictly_sorted_by_key(t1, key));
        assert(strictly_sorted_by_key(t2, key));
        lemma_strictly_sorted_perm_unique(t1, t2, key);
        assert(s1 =~= seq![s1[0]] + t1);
        assert(s2 =~= seq![s2[0]] + t2);
    }
}

/// Two strictly ascending sequences of byte strings that contain the
/// same elements are equal.
pub proof fn lemma_strictly_sorted_same_elems_eq(s1: Seq<Seq<u8>>, s2: Seq<Seq<u8>>)
    requires
        forall|i: int, j: int| 0 <= i < j < s1.len() ==> lex_lt(#[trigger] s1[i], #[trigger] s1[j]),
        forall|i: int, j: int| 0 <= i < j < s2.len() ==> lex_lt(#[trigger] s2[i], #[trigger] s2[j]),
        forall|k: Seq<u8>| s1.contains(k) <==> s2.contains(k),
    ensures
        s1 == s2,
    decreases s1.len(),
{
    if s1.len() == 0 {
        if s2.len() > 0 {
            assert(s2.contains(s2[0]));
            assert(false);
        }
        assert(s1 =~= s2);
    } else {
        assert(s1.contains(s1[0]));
        assert(s2.contains(s1[0]));
        let j = choose|j: int| 0 <= j < s2.len() && s2[j] == s1[0];
        assert(s2.contains(s2[0]));
        assert(s1.contains(s2[0]));
        let i = choose|i: int| 0 <= i < s1.len() && s1[i] == s2[0];
        if i > 0 && j > 0 {
            assert(lex_lt(s1[0], s1[i]));
            assert(lex_lt(s2[0], s2[j]));
            lemma_lex_lt_asymmetric(s1[0], s2[0]);
            assert(false);
        }
        assert(s1[0] == s2[0]);
        let t1 = s1.drop_first();
        let t2 = s2.drop_first();
        assert forall|k: Seq<u8>| t1.contains(k) <==> t2.contains(k) by {
            lemma_tail_contains(s1, k);
            lemma_tail_contains(s2, k);
        }
        lemma_strictly_sorted_same_elems_eq(t1, t2);
        assert(s1 =~= seq![s1[0]] + t1);
        assert(s2 =~= seq![s2[0]] + t2);
    }
}

/// In a strictly ascending sequence, the tail contains exactly the
/// elements other than the head.
proof fn lemma_tail_contains(s: Seq<Seq<u8>>, k: Seq<u8>)
    requires
        s.len() > 0,
        forall|i: int, j: int| 0 <= i < j < s.len() ==> lex_lt(#[trigger] s[i], #[trigger] s[j]),
    ensures
        s.drop_first().contains(k) <==> (s.contains(k) && k != s[0]),
{
    let t = s.drop_first();
    if t.contains(k) {
        let m = choose|m: int| 0 <= m < t.len() && t[m] == k;
        assert(s[m + 1] == k);
        assert(s.contains(k));
        assert(lex_lt(s[0], s[m + 1]));
        lemma_lex_lt_asymmetric(s[0], s[0]);
        assert(k != s[0]);
    }
    if s.contains(k) && k != s[0] {
        let m = choose|m: int| 0 <= m < s.len() && s[m] == k;
        assert(m >= 1);
        assert(t[m - 1] == k);
        assert(t.contains(k));
    }
}

} // verus!
