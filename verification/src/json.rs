//! Canonical JSON.
//!
//! A structured value — null, booleans, unsigned numbers, strings,
//! arrays, objects — is serialized to a byte sequence with every
//! object's keys in strict lexicographic order, recursively, and no
//! insignificant whitespace. Two values that denote the same structure
//! serialize to the same bytes, whatever order their object keys were
//! given in.

use vstd::prelude::*;
use crate::hashing::hex_digit;
use crate::names::{lit_json_null, lit_json_true, lit_json_false};
use crate::order::{lex_lt, bytes_lt, lemma_lex_lt_asymmetric,
    lemma_lex_connected, lemma_lex_lt_transitive, lemma_strictly_sorted_same_elems_eq};

verus! {

/// A structured value, with strings and keys as UTF-8 bytes.
#[verifier::ext_equal]
pub enum JsonValue {
    Null,
    Bool(bool),
    UInt(u64),
    Str(Vec<u8>),
    Array(Vec<JsonValue>),
    Object(Vec<(Vec<u8>, JsonValue)>),
}

/// How one byte of a string is written: quote, backslash and the named
/// control characters get a two-byte escape, other control bytes a
/// `\u00..` escape, anything else stands as itself.
pub open spec fn esc_byte(b: u8) -> Seq<u8> {
    if b == '"' as u8 {
        seq!['\\' as u8, '"' as u8]
    } else if b == '\\' as u8 {
        seq!['\\' as u8, '\\' as u8]
    } else if b == 8 {
        seq!['\\' as u8, 'b' as u8]
    } else if b == 9 {
        seq!['\\' as u8, 't' as u8]
    } else if b == 10 {
        seq!['\\' as u8, 'n' as u8]
    } else if b == 12 {
        seq!['\\' as u8, 'f' as u8]
    } else if b == 13 {
        seq!['\\' as u8, 'r' as u8]
    } else if b < 32 {
        seq!['\\' as u8, 'u' as u8, '0' as u8, '0' as u8, hex_digit(b / 16), hex_digit(b % 16)]
    } else {
        seq![b]
    }
}

/// A string's bytes, escaped.
pub open spec fn esc(s: Seq<u8>) -> Seq<u8>
    decreases s.len(),
{
    if s.len() == 0 {
        Seq::<u8>::empty()
    } else {
        esc(s.drop_last()) + esc_byte(s.last())
    }
}

/// The decimal digits of `n`, most significant first.
pub open spec fn dec_digits(n: nat) -> Seq<u8>
    decreases n,
{
    if n < 10 {
        seq![('0' as u8 + n) as u8]
    } else {
        dec_digits(n / 10).push(('0' as u8 + n % 10) as u8)
    }
}

/// The serialization of a value, objects written in the order given.
pub open spec fn ser_value(v: JsonValue) -> Seq<u8>
    decreases v,
{
    match v {
        JsonValue::Null => lit_json_null(),
        JsonValue::Bool(b) => if b {
            lit_json_true()
        } else {
            lit_json_false()
        },
        JsonValue::UInt(n) => dec_digits(n as nat),
        JsonValue::Str(s) => seq!['"' as u8] + esc(s@) + seq!['"' as u8],
        JsonValue::Array(items) => seq!['[' as u8] + ser_items(items@) + seq![']' as u8],
        JsonValue::Object(pairs) => seq!['{' as u8] + ser_pairs(pairs@) + seq!['}' as u8],
    }
}

/// Array elements, comma-separated.
pub open spec fn ser_items(s: Seq<JsonValue>) -> Seq<u8>
    decreases s,
{
    if s.len() == 0 {
        Seq::<u8>::empty()
    } else if s.len() == 1 {
        ser_value(s[0])
    } else {
        ser_items(s.drop_last()) + seq![',' as u8] + ser_value(s.last())
    }
}

/// One `"key":value` member.
pub open spec fn ser_pair(p: (Vec<u8>, JsonValue)) -> Seq<u8>
    decreases p,
{
    seq!['"' as u8] + esc(p.0@) + seq!['"' as u8, ':' as u8] + ser_value(p.1)
}

/// Object members, comma-separated, in the order given.
pub open spec fn ser_pairs(s: Seq<(Vec<u8>, JsonValue)>) -> Seq<u8>
    decreases s,
{
    if s.len() == 0 {
        Seq::<u8>::empty()
    } else if s.len() == 1 {
        ser_pair(s[0])
    } else {
        ser_pairs(s.drop_last()) + seq![',' as u8] + ser_pair(s.last())
    }
}

fn emit_escaped(s: &Vec<u8>, out: &mut Vec<u8>)
    ensures
        final(out)@ == old(out)@ + esc(s@),
{
    let mut i: usize = 0;
    proof {
        assert(out@ =~= old(out)@ + esc(s@.take(0)));
    }
    while i < s.len()
        invariant
            i <= s.len(),
            out@ == old(out)@ + esc(s@.take(i as int)),
        decreases s.len() - i,
    {
        proof {
            assert(s@.take(i + 1).drop_last() =~= s@.take(i as int));
            assert(s@.take(i + 1).last() == s@[i as int]);
        }
        let ghost prev = out@;
        let b = s[i];
        if b == 34 {
            out.push(92);
            out.push(34);
        } else if b == 92 {
            out.push(92);
            out.push(92);
        } else if b == 8 {
            out.push(92);
            out.push(98);
        } else if b == 9 {
            out.push(92);
            out.push(116);
        } else if b == 10 {
            out.push(92);
            out.push(110);
        } else if b == 12 {
            out.push(92);
            out.push(102);
        } else if b == 13 {
            out.push(92);
            out.push(114);
        } else if b < 32 {
            out.push(92);
            out.push(117);
            out.push(48);
            out.push(48);
            out.push(if b / 16 < 10 { b / 16 + 48 } else { b / 16 - 10 + 97 });
            out.push(if b % 16 < 10 { b % 16 + 48 } else { b % 16 - 10 + 97 });
        } else {
            out.push(b);
        }
        proof {
            assert(out@ =~= prev + esc_byte(s@[i as int]));
            assert(out@ =~= old(out)@ + esc(s@.take(i + 1)));
        }
        i = i + 1;
    }
    proof {
        assert(s@.take(s@.len() as int) =~= s@);
    }
}

fn emit_u64(n: u64, out: &mut Vec<u8>)
    ensures
        final(out)@ == old(out)@ + dec_digits(n as nat),
    decreases n,
{
    if n < 10 {
        out.push('0' as u8 + n as u8);
        proof {
            assert(out@ =~= old(out)@ + dec_digits(n as nat));
        }
    } else {
        emit_u64(n / 10, out);
        out.push('0' as u8 + (n % 10) as u8);
        proof {
            assert(out@ =~= old(out)@ + dec_digits(n as nat));
        }
    }
}

proof fn lemma_ser_items_step(s: Seq<JsonValue>, i: int)
    requires
        0 <= i < s.len(),
    ensures
        ser_items(s.take(i + 1)) == if i == 0 {
            ser_value(s[0])
        } else {
            ser_items(s.take(i)) + seq![',' as u8] + ser_value(s[i])
        },
{
    let t = s.take(i + 1);
    assert(t.drop_last() =~= s.take(i));
    assert(t.last() == s[i]);
    if i == 0 {
        assert(t[0] == s[0]);
    }
}

proof fn lemma_ser_pairs_step(s: Seq<(Vec<u8>, JsonValue)>, i: int)
    requires
        0 <= i < s.len(),
    ensures
        ser_pairs(s.take(i + 1)) == if i == 0 {
            ser_pair(s[0])
        } else {
            ser_pairs(s.take(i)) + seq![',' as u8] + ser_pair(s[i])
        },
{
    let t = s.take(i + 1);
    assert(t.drop_last() =~= s.take(i));
    assert(t.last() == s[i]);
    if i == 0 {
        assert(t[0] == s[0]);
    }
}

/// Writes the serialization of `v`, members in the order they stand.
fn emit_value(v: &JsonValue, out: &mut Vec<u8>)
    ensures
        final(out)@ == old(out)@ + ser_value(*v),
    decreases *v,
{
    match v {
        JsonValue::Null => {
            out.push(110);
            out.push(117);
            out.push(108);
            out.push(108);
            proof {
                assert(out@ =~= old(out)@ + lit_json_null());
            }
        },
        JsonValue::Bool(b) => {
            if *b {
                out.push(116);
                out.push(114);
                out.push(117);
                out.push(101);
                proof {
                    assert(out@ =~= old(out)@ + lit_json_true());
                }
            } else {
                out.push(102);
                out.push(97);
                out.push(108);
                out.push(115);
                out.push(101);
                proof {
                    assert(out@ =~= old(out)@ + lit_json_false());
                }
            }
        },
        JsonValue::UInt(n) => {
            emit_u64(*n, out);
        },
        JsonValue::Str(s) => {
            out.push(34);
            emit_escaped(s, out);
            out.push(34);
            proof {
                assert(out@ =~= old(out)@ + ser_value(*v));
            }
        },
        JsonValue::Array(items) => {
            out.push(91);
            let ghost head = old(out)@ + seq!['[' as u8];
            proof {
                assert(out@ =~= head + ser_items(items@.take(0)));
            }
            let mut i: usize = 0;
            while i < items.len()
                invariant
                    i <= items@.len(),
                    out@ == head + ser_items(items@.take(i as int)),
                    forall|j: int|
                        0 <= j < items@.len() ==> decreases_to!(*v => items@[j]),
                decreases items@.len() - i,
            {
                if i > 0 {
                    out.push(44);
                }
                proof {
                    assert(decreases_to!(*v => items@[i as int]));
                }
                emit_value(&items[i], out);
                proof {
                    lemma_ser_items_step(items@, i as int);
                    assert(out@ =~= head + ser_items(items@.take(i + 1)));
                }
                i = i + 1;
            }
            out.push(93);
            proof {
                assert(items@.take(items@.len() as int) =~= items@);
                assert(out@ =~= old(out)@ + ser_value(*v));
            }
        },
        JsonValue::Object(pairs) => {
            out.push(123);
            let ghost head = old(out)@ + seq!['{' as u8];
            proof {
                assert(out@ =~= head + ser_pairs(pairs@.take(0)));
            }
            let mut i: usize = 0;
            while i < pairs.len()
                invariant
                    i <= pairs@.len(),
                    out@ == head + ser_pairs(pairs@.take(i as int)),
                    forall|j: int|
                        0 <= j < pairs@.len() ==> decreases_to!(*v => pairs@[j].1),
                decreases pairs@.len() - i,
            {
                if i > 0 {
                    out.push(44);
                }
                out.push(34);
                emit_escaped(&pairs[i].0, out);
                out.push(34);
                out.push(58);
                proof {
                    assert(decreases_to!(*v => pairs@[i as int].1));
                }
                emit_value(&pairs[i].1, out);
                proof {
                    lemma_ser_pairs_step(pairs@, i as int);
                    assert(out@ =~= head + ser_pairs(pairs@.take(i + 1)));
                }
                i = i + 1;
            }
            out.push(125);
            proof {
                assert(pairs@.take(pairs@.len() as int) =~= pairs@);
                assert(out@ =~= old(out)@ + ser_value(*v));
            }
        },
    }
}

/// The structure a value denotes: arrays as sequences, objects as maps
/// from key to denoted value. Two values with the same model differ at
/// most in the order of their object members.
#[verifier::ext_equal]
pub enum JsonModel {
    Null,
    Bool(bool),
    UInt(u64),
    Str(Seq<u8>),
    Array(Seq<JsonModel>),
    Object(Map<Seq<u8>, JsonModel>),
}

/// The model of a value.
pub open spec fn jmodel(v: JsonValue) -> JsonModel
    decreases v,
{
    match v {
        JsonValue::Null => JsonModel::Null,
        JsonValue::Bool(b) => JsonModel::Bool(b),
        JsonValue::UInt(n) => JsonModel::UInt(n),
        JsonValue::Str(s) => JsonModel::Str(s@),
        JsonValue::Array(items) => JsonModel::Array(jmodel_seq(items@)),
        JsonValue::Object(pairs) => JsonModel::Object(jmodel_map(pairs@)),
    }
}

/// The models of a sequence of values.
pub open spec fn jmodel_seq(s: Seq<JsonValue>) -> Seq<JsonModel>
    decreases s,
{
    if s.len() == 0 {
        Seq::<JsonModel>::empty()
    } else {
        jmodel_seq(s.drop_last()).push(jmodel(s.last()))
    }
}

/// The map a sequence of members denotes.
pub open spec fn jmodel_map(s: Seq<(Vec<u8>, JsonValue)>) -> Map<Seq<u8>, JsonModel>
    decreases s,
{
    if s.len() == 0 {
        Map::<Seq<u8>, JsonModel>::empty()
    } else {
        jmodel_map(s.drop_last()).insert(s.last().0@, jmodel(s.last().1))
    }
}

/// Appending a member adds its entry to the denoted map.
pub proof fn lemma_jmodel_map_push(s: Seq<(Vec<u8>, JsonValue)>, p: (Vec<u8>, JsonValue))
    ensures
        jmodel_map(s.push(p)) == jmodel_map(s).insert(p.0@, jmodel(p.1)),
{
    assert(s.push(p).drop_last() =~= s);
    assert(s.push(p).last() == p);
}

/// The keys of a member sequence, in order.
pub open spec fn key_seq(s: Seq<(Vec<u8>, JsonValue)>) -> Seq<Seq<u8>> {
    Seq::new(s.len(), |i: int| s[i].0@)
}

/// No object holds two members with the same key, recursively.
pub open spec fn wf_json(v: JsonValue) -> bool
    decreases v,
{
    match v {
        JsonValue::Array(items) => forall|i: int|
            0 <= i < items@.len() ==> wf_json(#[trigger] items@[i]),
        JsonValue::Object(pairs) => {
            &&& forall|i: int, j: int|
                0 <= i < j < pairs@.len() ==> (#[trigger] pairs@[i]).0@ != (#[trigger] pairs@[j]).0@
            &&& forall|i: int| 0 <= i < pairs@.len() ==> wf_json((#[trigger] pairs@[i]).1)
        },
        _ => true,
    }
}

/// Every object's members stand in strictly ascending key order,
/// recursively: the canonical arrangement of a structure.
pub open spec fn canonical_json(v: JsonValue) -> bool
    decreases v,
{
    match v {
        JsonValue::Array(items) => forall|i: int|
            0 <= i < items@.len() ==> canonical_json(#[trigger] items@[i]),
        JsonValue::Object(pairs) => {
            &&& forall|i: int, j: int|
                0 <= i < j < pairs@.len() ==> lex_lt(
                    (#[trigger] pairs@[i]).0@,
                    (#[trigger] pairs@[j]).0@,
                )
            &&& forall|i: int| 0 <= i < pairs@.len() ==> canonical_json((#[trigger] pairs@[i]).1)
        },
        _ => true,
    }
}

pub proof fn lemma_jmodel_seq_props(s: Seq<JsonValue>)
    ensures
        jmodel_seq(s).len() == s.len(),
        forall|i: int| 0 <= i < s.len() ==> jmodel_seq(s)[i] == jmodel(#[trigger] s[i]),
    decreases s.len(),
{
    if s.len() > 0 {
        lemma_jmodel_seq_props(s.drop_last());
        assert forall|i: int| 0 <= i < s.len() implies jmodel_seq(s)[i] == jmodel(
            #[trigger] s[i],
        ) by {
            if i < s.len() - 1 {
                assert(s.drop_last()[i] == s[i]);
            }
        }
    }
}

proof fn lemma_jmodel_map_props(s: Seq<(Vec<u8>, JsonValue)>)
    requires
        forall|i: int, j: int|
            0 <= i < j < s.len() ==> (#[trigger] s[i]).0@ != (#[trigger] s[j]).0@,
    ensures
        forall|k: Seq<u8>|
            #[trigger] jmodel_map(s).dom().contains(k) <==> key_seq(s).contains(k),
        forall|i: int|
            0 <= i < s.len() ==> jmodel_map(s)[(#[trigger] s[i]).0@] == jmodel(s[i].1),
    decreases s.len(),
{
    if s.len() > 0 {
        let t = s.drop_last();
        lemma_jmodel_map_props(t);
        assert forall|k: Seq<u8>|
            #[trigger] jmodel_map(s).dom().contains(k) <==> key_seq(s).contains(k) by {
            if jmodel_map(s).dom().contains(k) {
                if k == s.last().0@ {
                    assert(key_seq(s)[s.len() - 1] == k);
                } else {
                    assert(key_seq(t).contains(k));
                    let m = choose|m: int| 0 <= m < t.len() && key_seq(t)[m] == k;
                    assert(key_seq(s)[m] == k);
                }
            }
            if key_seq(s).contains(k) {
                let m = choose|m: int| 0 <= m < s.len() && key_seq(s)[m] == k;
                if m < s.len() - 1 {
                    assert(key_seq(t)[m] == k);
                    assert(key_seq(t).contains(k));
                }
            }
        }
        assert forall|i: int|
            0 <= i < s.len() implies jmodel_map(s)[(#[trigger] s[i]).0@] == jmodel(s[i].1) by {
            if i < s.len() - 1 {
                assert(t[i] == s[i]);
                assert(s[i].0@ != s.last().0@);
            }
        }
    }
}

proof fn lemma_ser_items_congruent(s1: Seq<JsonValue>, s2: Seq<JsonValue>)
    requires
        s1.len() == s2.len(),
        forall|i: int| 0 <= i < s1.len() ==> ser_value(#[trigger] s1[i]) == ser_value(#[trigger] s2[i]),
    ensures
        ser_items(s1) == ser_items(s2),
    decreases s1.len(),
{
    if s1.len() > 0 {
        lemma_ser_items_congruent(s1.drop_last(), s2.drop_last());
    }
}

proof fn lemma_ser_pairs_congruent(s1: Seq<(Vec<u8>, JsonValue)>, s2: Seq<(Vec<u8>, JsonValue)>)
    requires
        s1.len() == s2.len(),
        forall|i: int| 0 <= i < s1.len() ==> (#[trigger] s1[i]).0@ == (#[trigger] s2[i]).0@,
        forall|i: int|
            0 <= i < s1.len() ==> ser_value((#[trigger] s1[i]).1) == ser_value((#[trigger] s2[i]).1),
    ensures
        ser_pairs(s1) == ser_pairs(s2),
    decreases s1.len(),
{
    if s1.len() > 0 {
        lemma_ser_pairs_congruent(s1.drop_last(), s2.drop_last());
        assert(ser_pair(s1.last()) == ser_pair(s2.last()));
    }
}

/// A structure has exactly one canonical arrangement, up to the bytes
/// it serializes to: two canonical values with the same model give the
/// same serialization.
pub proof fn lemma_canonical_ser_unique(a: JsonValue, b: JsonValue)
    requires
        canonical_json(a),
        canonical_json(b),
        jmodel(a) == jmodel(b),
    ensures
        ser_value(a) == ser_value(b),
    decreases a,
{
    match a {
        JsonValue::Null => {},
        JsonValue::Bool(_) => {},
        JsonValue::UInt(_) => {},
        JsonValue::Str(_) => {},
        JsonValue::Array(items1) => {
            match b {
                JsonValue::Array(items2) => {
                    lemma_jmodel_seq_props(items1@);
                    lemma_jmodel_seq_props(items2@);
                    assert(items1@.len() == items2@.len());
                    assert forall|i: int|
                        0 <= i < items1@.len() implies ser_value(#[trigger] items1@[i]) == ser_value(
                        #[trigger] items2@[i],
                    ) by {
                        assert(jmodel(items1@[i]) == jmodel(items2@[i]));
                        lemma_canonical_ser_unique(items1@[i], items2@[i]);
                    }
                    lemma_ser_items_congruent(items1@, items2@);
                },
                _ => {
                    assert(false);
                },
            }
        },
        JsonValue::Object(pairs1) => {
            match b {
                JsonValue::Object(pairs2) => {
                    let s1 = pairs1@;
                    let s2 = pairs2@;
                    assert forall|i: int, j: int|
                        0 <= i < j < s1.len() implies (#[trigger] s1[i]).0@ != (
                    #[trigger] s1[j]).0@ by {
                        lemma_lex_lt_asymmetric(s1[i].0@, s1[j].0@);
                    }
                    assert forall|i: int, j: int|
                        0 <= i < j < s2.len() implies (#[trigger] s2[i]).0@ != (
                    #[trigger] s2[j]).0@ by {
                        lemma_lex_lt_asymmetric(s2[i].0@, s2[j].0@);
                    }
                    lemma_jmodel_map_props(s1);
                    lemma_jmodel_map_props(s2);
                    let k1 = key_seq(s1);
                    let k2 = key_seq(s2);
                    assert forall|i: int, j: int| 0 <= i < j < k1.len() implies lex_lt(
                        #[trigger] k1[i],
                        #[trigger] k1[j],
                    ) by {
                        assert(lex_lt(s1[i].0@, s1[j].0@));
                    }
                    assert forall|i: int, j: int| 0 <= i < j < k2.len() implies lex_lt(
                        #[trigger] k2[i],
                        #[trigger] k2[j],
                    ) by {
                        assert(lex_lt(s2[i].0@, s2[j].0@));
                    }
                    assert forall|k: Seq<u8>| k1.contains(k) <==> k2.contains(k) by {
                        assert(jmodel_map(s1).dom() == jmodel_map(s2).dom());
                        assert(jmodel_map(s1).dom().contains(k) <==> k1.contains(k));
                        assert(jmodel_map(s2).dom().contains(k) <==> k2.contains(k));
                    }
                    lemma_strictly_sorted_same_elems_eq(k1, k2);
                    assert(s1.len() == s2.len());
                    assert forall|i: int|
                        0 <= i < s1.len() implies (#[trigger] s1[i]).0@ == (#[trigger] s2[i]).0@ by {
                        assert(k1[i] == k2[i]);
                    }
                    assert forall|i: int|
                        0 <= i < s1.len() implies ser_value((#[trigger] s1[i]).1) == ser_value(
                        (#[trigger] s2[i]).1,
                    ) by {
                        assert(jmodel_map(s1)[s1[i].0@] == jmodel(s1[i].1));
                        assert(jmodel_map(s2)[s2[i].0@] == jmodel(s2[i].1));
                        assert(jmodel(s1[i].1) == jmodel(s2[i].1));
                        lemma_canonical_ser_unique(s1[i].1, s2[i].1);
                    }
                    lemma_ser_pairs_congruent(s1, s2);
                },
                _ => {
                    assert(false);
                },
            }
        },
    }
}

/// Members in non-descending key order.
pub open spec fn pairs_sorted(s: Seq<(Vec<u8>, JsonValue)>) -> bool {
    forall|i: int, j: int|
        0 <= i < j < s.len() ==> !lex_lt((#[trigger] s[j]).0@, (#[trigger] s[i]).0@)
}

/// No two members share a key.
pub open spec fn distinct_keys(s: Seq<(Vec<u8>, JsonValue)>) -> bool {
    forall|i: int, j: int|
        0 <= i < j < s.len() ==> (#[trigger] s[i]).0@ != (#[trigger] s[j]).0@
}

fn sort_pairs(pairs: Vec<(Vec<u8>, JsonValue)>) -> (r: Vec<(Vec<u8>, JsonValue)>)
    ensures
        r@.to_multiset() == pairs@.to_multiset(),
        pairs_sorted(r@),
{
    broadcast use vstd::multiset::group_multiset_axioms;

    let mut rest = pairs;
    let mut out: Vec<(Vec<u8>, JsonValue)> = Vec::new();
    proof {
        out@.to_multiset_ensures();
        rest@.to_multiset_ensures();
        assert(out@.to_multiset().add(rest@.to_multiset()) =~= pairs@.to_multiset());
    }
    while rest.len() > 0
        invariant
            out@.to_multiset().add(rest@.to_multiset()) == pairs@.to_multiset(),
            pairs_sorted(out@),
            forall|i: int, j: int|
                0 <= i < out@.len() && 0 <= j < rest@.len() ==> !lex_lt(
                    (#[trigger] rest@[j]).0@,
                    (#[trigger] out@[i]).0@,
                ),
        decreases rest@.len(),
    {
        let mut m: usize = 0;
        let mut t: usize = 1;
        proof {
            lemma_lex_lt_asymmetric(rest@[0].0@, rest@[0].0@);
        }
        while t < rest.len()
            invariant
                m < t,
                t <= rest@.len(),
                m < rest@.len(),
                forall|j: int| 0 <= j < t ==> !lex_lt((#[trigger] rest@[j]).0@, rest@[m as int].0@),
            decreases rest@.len() - t,
        {
            if bytes_lt(&rest[t].0, &rest[m].0) {
                proof {
                    assert forall|j: int|
                        0 <= j < t + 1 implies !lex_lt((#[trigger] rest@[j]).0@, rest@[t as int].0@) by {
                        if j == t {
                            lemma_lex_lt_asymmetric(rest@[j].0@, rest@[j].0@);
                        } else if lex_lt(rest@[j].0@, rest@[t as int].0@) {
                            lemma_lex_lt_transitive(
                                rest@[j].0@,
                                rest@[t as int].0@,
                                rest@[m as int].0@,
                            );
                            assert(false);
                        }
                    }
                }
                m = t;
            }
            t = t + 1;
        }
        let ghost old_out = out@;
        let ghost old_rest = rest@;
        let e = rest.remove(m);
        out.push(e);
        proof {
            old_rest.to_multiset_ensures();
            old_out.to_multiset_ensures();
            assert(rest@ == old_rest.remove(m as int));
            assert(rest@.to_multiset() =~= old_rest.to_multiset().remove(e));
            assert(out@.to_multiset() =~= old_out.to_multiset().insert(e));
            assert(old_rest.contains(e));
            assert(old_rest.to_multiset().count(e) > 0);
            assert(out@.to_multiset().add(rest@.to_multiset()) =~= pairs@.to_multiset());
            assert forall|i: int, j: int|
                0 <= i < out@.len() && 0 <= j < rest@.len() implies !lex_lt(
                    (#[trigger] rest@[j]).0@,
                    (#[trigger] out@[i]).0@,
                ) by {
                let jj = if j < m { j } else { j + 1 };
                assert(rest@[j] == old_rest[jj]);
                if i < out@.len() - 1 {
                    assert(out@[i] == old_out[i]);
                } else {
                    assert(out@[i] == e);
                    assert(!lex_lt(old_rest[jj].0@, old_rest[m as int].0@));
                }
            }
            assert forall|i: int, j: int|
                0 <= i < j < out@.len() implies !lex_lt(
                    (#[trigger] out@[j]).0@,
                    (#[trigger] out@[i]).0@,
                ) by {
                if j < out@.len() - 1 {
                    assert(out@[i] == old_out[i]);
                    assert(out@[j] == old_out[j]);
                } else {
                    assert(out@[j] == e);
                    assert(out@[i] == old_out[i]);
                    assert(!lex_lt(old_rest[m as int].0@, old_out[i].0@));
                }
            }
        }
    }
    proof {
        assert(rest@ =~= Seq::<(Vec<u8>, JsonValue)>::empty());
        assert(out@.to_multiset().add(rest@.to_multiset()) =~= out@.to_multiset());
    }
    out
}

proof fn lemma_elem_transfer(
    s: Seq<(Vec<u8>, JsonValue)>,
    t: Seq<(Vec<u8>, JsonValue)>,
    x: (Vec<u8>, JsonValue),
)
    requires
        s.to_multiset() == t.to_multiset(),
        s.contains(x),
    ensures
        t.contains(x),
{
    s.to_multiset_ensures();
    t.to_multiset_ensures();
    assert(s.to_multiset().count(x) > 0);
    assert(t.to_multiset().count(x) > 0);
}

proof fn lemma_jmodel_map_perm(s: Seq<(Vec<u8>, JsonValue)>, t: Seq<(Vec<u8>, JsonValue)>)
    requires
        s.to_multiset() == t.to_multiset(),
        distinct_keys(s),
    ensures
        distinct_keys(t),
        jmodel_map(t) == jmodel_map(s),
{
    broadcast use vstd::multiset::group_multiset_axioms;

    s.to_multiset_ensures();
    t.to_multiset_ensures();
    assert forall|i: int, j: int| 0 <= i < j < s.len() implies s[i] != s[j] by {
        assert(s[i].0@ != s[j].0@);
    }
    assert(s.no_duplicates());
    s.lemma_multiset_has_no_duplicates();
    t.lemma_multiset_has_no_duplicates_conv();
    assert forall|i: int, j: int|
        0 <= i < j < t.len() implies (#[trigger] t[i]).0@ != (#[trigger] t[j]).0@ by {
        if t[i].0@ == t[j].0@ {
            assert(t[i] != t[j]);
            assert(t.contains(t[i]));
            assert(t.contains(t[j]));
            lemma_elem_transfer(t, s, t[i]);
            lemma_elem_transfer(t, s, t[j]);
            let a = choose|a: int| 0 <= a < s.len() && s[a] == t[i];
            let b = choose|b: int| 0 <= b < s.len() && s[b] == t[j];
            assert(a != b);
            assert(s[a].0@ != s[b].0@);
            assert(false);
        }
    }
    lemma_jmodel_map_props(s);
    lemma_jmodel_map_props(t);
    assert forall|k: Seq<u8>| key_seq(s).contains(k) <==> key_seq(t).contains(k) by {
        if key_seq(s).contains(k) {
            let i = choose|i: int| 0 <= i < s.len() && key_seq(s)[i] == k;
            assert(s.contains(s[i]));
            lemma_elem_transfer(s, t, s[i]);
            let j = choose|j: int| 0 <= j < t.len() && t[j] == s[i];
            assert(key_seq(t)[j] == k);
        }
        if key_seq(t).contains(k) {
            let i = choose|i: int| 0 <= i < t.len() && key_seq(t)[i] == k;
            assert(t.contains(t[i]));
            lemma_elem_transfer(t, s, t[i]);
            let j = choose|j: int| 0 <= j < s.len() && s[j] == t[i];
            assert(key_seq(s)[j] == k);
        }
    }
    assert forall|k: Seq<u8>| #[trigger] jmodel_map(t).dom().contains(k) implies jmodel_map(t)[k]
        == jmodel_map(s)[k] by {
        assert(key_seq(t).contains(k));
        let i = choose|i: int| 0 <= i < t.len() && key_seq(t)[i] == k;
        assert(jmodel_map(t)[t[i].0@] == jmodel(t[i].1));
        assert(t.contains(t[i]));
        lemma_elem_transfer(t, s, t[i]);
        let j = choose|j: int| 0 <= j < s.len() && s[j] == t[i];
        assert(jmodel_map(s)[s[j].0@] == jmodel(s[j].1));
    }
    assert(jmodel_map(t) =~= jmodel_map(s));
}

/// Rearranges a structure into its canonical form: every object's
/// members sorted by key, recursively. The denoted structure does not
/// change.
pub fn canonicalize(v: JsonValue) -> (r: JsonValue)
    requires
        wf_json(v),
    ensures
        canonical_json(r),
        jmodel(r) == jmodel(v),
    decreases v,
{
    match v {
        JsonValue::Null => JsonValue::Null,
        JsonValue::Bool(b) => JsonValue::Bool(b),
        JsonValue::UInt(n) => JsonValue::UInt(n),
        JsonValue::Str(s) => JsonValue::Str(s),
        JsonValue::Array(items) => {
            let ghost orig = items@;
            proof {
                assert(forall|k: int| 0 <= k < orig.len() ==> decreases_to!(v => orig[k]));
            }
            let mut rest = items;
            let mut out: Vec<JsonValue> = Vec::new();
            while rest.len() > 0
                invariant
                    orig.len() == out@.len() + rest@.len(),
                    rest@ =~= orig.skip(out@.len() as int),
                    forall|i: int| 0 <= i < out@.len() ==> canonical_json(#[trigger] out@[i]),
                    forall|i: int|
                        0 <= i < out@.len() ==> jmodel(#[trigger] out@[i]) == jmodel(orig[i]),
                    forall|k: int| 0 <= k < orig.len() ==> decreases_to!(v => orig[k]),
                    forall|k: int| 0 <= k < orig.len() ==> wf_json(#[trigger] orig[k]),
                decreases rest@.len(),
            {
                let ghost done = out@.len() as int;
                let x = rest.remove(0);
                proof {
                    assert(x == orig[done]);
                    assert(rest@ =~= orig.skip(done + 1));
                }
                let c = canonicalize(x);
                out.push(c);
            }
            proof {
                lemma_jmodel_seq_props(out@);
                lemma_jmodel_seq_props(orig);
                assert forall|i: int| 0 <= i < orig.len() implies jmodel_seq(out@)[i]
                    == jmodel_seq(orig)[i] by {
                    assert(jmodel(out@[i]) == jmodel(orig[i]));
                }
                assert(jmodel_seq(out@) =~= jmodel_seq(orig));
            }
            JsonValue::Array(out)
        },
        JsonValue::Object(pairs) => {
            let ghost orig = pairs@;
            proof {
                assert(forall|k: int| 0 <= k < orig.len() ==> decreases_to!(v => orig[k].1));
            }
            let mut rest = pairs;
            let mut out: Vec<(Vec<u8>, JsonValue)> = Vec::new();
            while rest.len() > 0
                invariant
                    orig.len() == out@.len() + rest@.len(),
                    rest@ =~= orig.skip(out@.len() as int),
                    forall|i: int|
                        0 <= i < out@.len() ==> canonical_json((#[trigger] out@[i]).1),
                    forall|i: int|
                        0 <= i < out@.len() ==> (#[trigger] out@[i]).0@ == orig[i].0@,
                    forall|i: int|
                        0 <= i < out@.len() ==> jmodel((#[trigger] out@[i]).1) == jmodel(orig[i].1),
                    forall|k: int| 0 <= k < orig.len() ==> decreases_to!(v => orig[k].1),
                    forall|k: int| 0 <= k < orig.len() ==> wf_json((#[trigger] orig[k]).1),
                    distinct_keys(orig),
                decreases rest@.len(),
            {
                let ghost done = out@.len() as int;
                let x = rest.remove(0);
                proof {
                    assert(x == orig[done]);
                    assert(rest@ =~= orig.skip(done + 1));
                }
                let (key, val) = x;
                let c = canonicalize(val);
                out.push((key, c));
            }
            proof {
                assert(distinct_keys(out@));
                lemma_jmodel_map_props(out@);
                lemma_jmodel_map_props(orig);
                assert forall|k: Seq<u8>| key_seq(out@).contains(k) <==> key_seq(orig).contains(
                    k,
                ) by {
                    if key_seq(out@).contains(k) {
                        let i = choose|i: int| 0 <= i < out@.len() && key_seq(out@)[i] == k;
                        assert(key_seq(orig)[i] == k);
                    }
                    if key_seq(orig).contains(k) {
                        let i = choose|i: int| 0 <= i < orig.len() && key_seq(orig)[i] == k;
                        assert(key_seq(out@)[i] == k);
                    }
                }
                assert forall|k: Seq<u8>|
                    #[trigger] jmodel_map(out@).dom().contains(k) implies jmodel_map(out@)[k]
                    == jmodel_map(orig)[k] by {
                    assert(key_seq(out@).contains(k));
                    let i = choose|i: int| 0 <= i < out@.len() && key_seq(out@)[i] == k;
                    assert(jmodel_map(out@)[out@[i].0@] == jmodel(out@[i].1));
                    assert(jmodel_map(orig)[orig[i].0@] == jmodel(orig[i].1));
                }
                assert(jmodel_map(out@) =~= jmodel_map(orig));
            }
            let ghost unsorted = out@;
            let sorted = sort_pairs(out);
            proof {
                lemma_jmodel_map_perm(unsorted, sorted@);
                assert forall|i: int, j: int|
                    0 <= i < j < sorted@.len() implies lex_lt(
                        (#[trigger] sorted@[i]).0@,
                        (#[trigger] sorted@[j]).0@,
                    ) by {
                    assert(!lex_lt(sorted@[j].0@, sorted@[i].0@));
                    assert(sorted@[i].0@ != sorted@[j].0@);
                    if !lex_lt(sorted@[i].0@, sorted@[j].0@) {
                        lemma_lex_connected(sorted@[i].0@, sorted@[j].0@);
                        assert(false);
                    }
                }
                sorted@.to_multiset_ensures();
                unsorted.to_multiset_ensures();
                assert forall|i: int|
                    0 <= i < sorted@.len() implies canonical_json((#[trigger] sorted@[i]).1) by {
                    assert(sorted@.contains(sorted@[i]));
                    lemma_elem_transfer(sorted@, unsorted, sorted@[i]);
                    let a = choose|a: int| 0 <= a < unsorted.len() && unsorted[a] == sorted@[i];
                    assert(canonical_json(unsorted[a].1));
                }
            }
            JsonValue::Object(sorted)
        },
    }
}

/// The canonical serialization of a structure: the bytes of its one
/// canonical arrangement.
pub open spec fn canon_ser(m: JsonModel) -> Seq<u8> {
    ser_value(choose|cv: JsonValue| canonical_json(cv) && jmodel(cv) == m)
}

/// Serializes `v` to canonical JSON: every object's keys in strict
/// lexicographic order, recursively, and no whitespace. The bytes
/// depend only on the structure `v` denotes, not on the member order
/// it was built with.
pub fn to_canonical_json(v: JsonValue) -> (r: Vec<u8>)
    requires
        wf_json(v),
    ensures
        r@ == canon_ser(jmodel(v)),
{
    let ghost m = jmodel(v);
    let cv = canonicalize(v);
    let mut out: Vec<u8> = Vec::new();
    emit_value(&cv, &mut out);
    proof {
        assert(canonical_json(cv) && jmodel(cv) == m);
        let w = choose|w: JsonValue| canonical_json(w) && jmodel(w) == m;
        lemma_canonical_ser_unique(cv, w);
        assert(out@ =~= ser_value(cv));
    }
    out
}

/// Canonical ordering: two objects that hold the same members, in any
/// two orders, serialize to identical bytes.
pub proof fn lemma_canonical_ordering(v1: JsonValue, v2: JsonValue)
    requires
        wf_json(v1),
        v1 matches JsonValue::Object(p1) && v2 matches JsonValue::Object(p2)
            && p1@.to_multiset() == p2@.to_multiset(),
    ensures
        wf_json(v2),
        canon_ser(jmodel(v1)) == canon_ser(jmodel(v2)),
{
    let p1 = v1->Object_0;
    let p2 = v2->Object_0;
    lemma_jmodel_map_perm(p1@, p2@);
    assert forall|i: int| 0 <= i < p2@.len() implies wf_json((#[trigger] p2@[i]).1) by {
        assert(p2@.contains(p2@[i]));
        lemma_elem_transfer(p2@, p1@, p2@[i]);
        let k = choose|k: int| 0 <= k < p1@.len() && p1@[k] == p2@[i];
        assert(wf_json(p1@[k].1));
    }
    assert(wf_json(v2));
    assert(jmodel(v1) == jmodel(v2));
}

} // verus!
