use vstd::prelude::*;
use vstd::utf8::*;

use crate::codec::{
    decode_entries, decode_items, decode_key, decode_term, encode_entries, encode_items,
    encode_value, lemma_reserved_names_distinct, lemma_upsert_keeps_keys_unique, upsert,
};
use crate::errors::TypeEncodingError;
use crate::term::TermModel;
use crate::value::{canonical, holds_uint, keys_unique, ValueModel};

verus! {

broadcast use vstd::utf8::group_utf8_lib;

/// Every value that a sequence of terms decodes to is canonical and holds
/// no unsigned integer.
proof fn lemma_decoded_items_canonical(ts: Seq<TermModel>)
    requires
        decode_items(ts) is Some,
    ensures
        decode_items(ts)->Some_0.len() == ts.len(),
        forall|i: int|
            0 <= i < ts.len() ==> canonical(#[trigger] decode_items(ts)->Some_0[i]) && !holds_uint(
                decode_items(ts)->Some_0[i],
            ),
    decreases ts,
{
    if ts.len() > 0 {
        let n = ts.len() - 1;
        lemma_decoded_items_canonical(ts.subrange(0, n));
        lemma_decoded_canonical(ts[n]);
    }
}

proof fn lemma_decoded_entries_canonical(ps: Seq<(TermModel, TermModel)>)
    requires
        decode_entries(ps) is Some,
    ensures
        keys_unique(decode_entries(ps)->Some_0),
        forall|i: int|
            0 <= i < decode_entries(ps)->Some_0.len() ==> canonical(
                #[trigger] decode_entries(ps)->Some_0[i].1,
            ) && !holds_uint(decode_entries(ps)->Some_0[i].1),
    decreases ps,
{
    if ps.len() > 0 {
        let n = ps.len() - 1;
        let last = ps[n];
        lemma_decoded_entries_canonical(ps.subrange(0, n));
        lemma_decoded_canonical(last.1);
        let es = decode_entries(ps.subrange(0, n))->Some_0;
        let k = decode_key(last.0)->Some_0;
        let v = decode_term(last.1)->Ok_0;
        lemma_upsert_keeps_keys_unique(es, k, v);
        let r = upsert(es, k, v);
        assert forall|i: int| 0 <= i < r.len() implies canonical(#[trigger] r[i].1) && !holds_uint(
            r[i].1,
        ) by {
            if i < es.len() && r[i] == es[i] {
            } else {
                assert(r[i].1 == v);
            }
        }
    }
}

/// What a term decodes to is canonical and holds no unsigned integer.
proof fn lemma_decoded_canonical(t: TermModel)
    requires
        decode_term(t) is Ok,
    ensures
        canonical(decode_term(t)->Ok_0),
        !holds_uint(decode_term(t)->Ok_0),
    decreases t,
{
    match t {
        TermModel::Tuple(ts) => lemma_decoded_items_canonical(ts),
        TermModel::List(ts) => lemma_decoded_items_canonical(ts),
        TermModel::Mapping(ps) => lemma_decoded_entries_canonical(ps),
        _ => {},
    }
}

proof fn lemma_items_round_trip(vs: Seq<ValueModel>)
    requires
        forall|i: int| 0 <= i < vs.len() ==> canonical(#[trigger] vs[i]) && !holds_uint(vs[i]),
    ensures
        encode_items(vs) is Some,
        encode_items(vs)->Some_0.len() == vs.len(),
        decode_items(encode_items(vs)->Some_0) == Some(vs),
    decreases vs,
{
    if vs.len() > 0 {
        let n = vs.len() - 1;
        let prefix = vs.subrange(0, n);
        assert forall|i: int| 0 <= i < prefix.len() implies canonical(#[trigger] prefix[i])
            && !holds_uint(prefix[i]) by {
            assert(prefix[i] == vs[i]);
        }
        lemma_items_round_trip(prefix);
        law_value_round_trip(vs[n]);
        let ts = encode_items(vs)->Some_0;
        assert(ts.subrange(0, n) =~= encode_items(prefix)->Some_0);
        assert(prefix.push(vs[n]) =~= vs);
    }
}

proof fn lemma_entries_round_trip(es: Seq<(Seq<char>, ValueModel)>)
    requires
        keys_unique(es),
        forall|i: int| 0 <= i < es.len() ==> canonical(#[trigger] es[i].1) && !holds_uint(es[i].1),
    ensures
        encode_entries(es) is Some,
        encode_entries(es)->Some_0.len() == es.len(),
        decode_entries(encode_entries(es)->Some_0) == Some(es),
    decreases es,
{
    if es.len() > 0 {
        let n = es.len() - 1;
        let prefix = es.subrange(0, n);
        let last = es[n];
        assert forall|i: int| 0 <= i < prefix.len() implies canonical(#[trigger] prefix[i].1)
            && !holds_uint(prefix[i].1) by {
            assert(prefix[i] == es[i]);
        }
        assert forall|i: int, j: int|
            0 <= i < prefix.len() && 0 <= j < prefix.len() && i != j implies #[trigger] prefix[i].0
            != #[trigger] prefix[j].0 by {
            assert(prefix[i] == es[i] && prefix[j] == es[j]);
        }
        lemma_entries_round_trip(prefix);
        law_value_round_trip(last.1);
        let ps = encode_entries(es)->Some_0;
        assert(ps.subrange(0, n) =~= encode_entries(prefix)->Some_0);
        assert(decode_key(ps[n].0) == Some(last.0));
        assert(!exists|j: int| 0 <= j < prefix.len() && prefix[j].0 == last.0) by {
            if exists|j: int| 0 <= j < prefix.len() && prefix[j].0 == last.0 {
                let j = choose|j: int| 0 <= j < prefix.len() && prefix[j].0 == last.0;
                assert(es[j].0 == es[n].0);
            }
        }
        assert(prefix.push(last) =~= es);
    }
}

/// Encoding a canonical value that holds no unsigned integer, then decoding
/// the term, gives back the same value: arrays keep their order, objects
/// their keys and the value under each key.
pub proof fn law_value_round_trip(v: ValueModel)
    requires
        canonical(v),
        !holds_uint(v),
    ensures
        encode_value(v) is Ok,
        decode_term(encode_value(v)->Ok_0) == Ok::<ValueModel, TypeEncodingError>(v),
    decreases v,
{
    lemma_reserved_names_distinct();
    match v {
        ValueModel::Array(vs) => {
            assert forall|i: int| 0 <= i < vs.len() implies canonical(#[trigger] vs[i])
                && !holds_uint(vs[i]) by {}
            lemma_items_round_trip(vs);
        },
        ValueModel::Object(es) => {
            assert forall|i: int| 0 <= i < es.len() implies canonical(#[trigger] es[i].1)
                && !holds_uint(es[i].1) by {}
            lemma_entries_round_trip(es);
        },
        ValueModel::Str(s) => {
            encode_utf8_valid_utf8(s);
            encode_utf8_decode_utf8(s);
        },
        _ => {},
    }
}

/// A term that decodes, once its value is encoded again, gives a term that
/// decodes to that same value.
pub proof fn law_term_round_trip(t: TermModel)
    requires
        decode_term(t) is Ok,
    ensures
        encode_value(decode_term(t)->Ok_0) is Ok,
        decode_term(encode_value(decode_term(t)->Ok_0)->Ok_0) == decode_term(t),
{
    lemma_decoded_canonical(t);
    law_value_round_trip(decode_term(t)->Ok_0);
}

proof fn lemma_failing_item(ts: Seq<TermModel>, i: int)
    requires
        0 <= i < ts.len(),
        decode_term(ts[i]) is Err,
    ensures
        decode_items(ts) is None,
    decreases ts.len(),
{
    let n = ts.len() - 1;
    if i < n {
        let prefix = ts.subrange(0, n);
        assert(prefix[i] == ts[i]);
        lemma_failing_item(prefix, i);
    }
}

proof fn lemma_failing_entry(ps: Seq<(TermModel, TermModel)>, i: int)
    requires
        0 <= i < ps.len(),
        decode_key(ps[i].0) is None || decode_term(ps[i].1) is Err,
    ensures
        decode_entries(ps) is None,
    decreases ps.len(),
{
    let n = ps.len() - 1;
    if i < n {
        let prefix = ps.subrange(0, n);
        assert(prefix[i] == ps[i]);
        lemma_failing_entry(prefix, i);
    }
}

/// A tuple or a list with one element that cannot be converted fails as a
/// whole, with the kind that names an element of that container.
pub proof fn law_bad_item_fails_sequence(ts: Seq<TermModel>, i: int)
    requires
        0 <= i < ts.len(),
        decode_term(ts[i]) is Err,
    ensures
        decode_term(TermModel::Tuple(ts)) == Err::<ValueModel, TypeEncodingError>(
            TypeEncodingError::InvalidTupleItem,
        ),
        decode_term(TermModel::List(ts)) == Err::<ValueModel, TypeEncodingError>(
            TypeEncodingError::InvalidArrayItem,
        ),
{
    lemma_failing_item(ts, i);
}

/// A map with one value that cannot be converted fails as a whole with
/// `InvalidMapItem`.
pub proof fn law_bad_value_fails_map(ps: Seq<(TermModel, TermModel)>, i: int)
    requires
        0 <= i < ps.len(),
        decode_term(ps[i].1) is Err,
    ensures
        decode_term(TermModel::Mapping(ps)) == Err::<ValueModel, TypeEncodingError>(
            TypeEncodingError::InvalidMapItem,
        ),
{
    lemma_failing_entry(ps, i);
}

/// A map with a key that is neither a binary nor an atom fails with
/// `InvalidMapItem`.
pub proof fn law_bad_key_fails_map(ps: Seq<(TermModel, TermModel)>, i: int)
    requires
        0 <= i < ps.len(),
        !(ps[i].0 is Binary),
        !(ps[i].0 is Atom),
    ensures
        decode_term(TermModel::Mapping(ps)) == Err::<ValueModel, TypeEncodingError>(
            TypeEncodingError::InvalidMapItem,
        ),
{
    lemma_failing_entry(ps, i);
}

/// Process identifiers, ports, references, functions and terms of unknown
/// type never decode: they fail with `UnsupportedType`.
pub proof fn law_handles_are_unsupported(t: TermModel)
    requires
        t is Pid || t is Port || t is Ref || t is Fun || t is Unknown,
    ensures
        decode_term(t) == Err::<ValueModel, TypeEncodingError>(
            TypeEncodingError::UnsupportedType,
        ),
{
}

} // verus!
