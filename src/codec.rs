use vstd::prelude::*;
use vstd::utf8::*;

use crate::errors::TypeEncodingError;
use crate::term::{Term, TermModel};
use crate::term::{
    lemma_pair_models_index, lemma_term_models_index, pair_models, term_model, term_models,
};
use crate::value::{
    entry_models, finite_bits, keys_unique, lemma_entry_models_index, lemma_value_models_index,
    value_model, value_models, Value, ValueModel,
};

verus! {

broadcast use vstd::utf8::group_utf8_lib;

// ---------------------------------------------------------------------------
// Decoding: term to value
// ---------------------------------------------------------------------------

/// The value that an atom stands for: the reserved names `true`, `false`
/// and `nil` are a boolean and null, any other name is a string.
pub open spec fn atom_value(name: Seq<char>) -> ValueModel {
    if name == "true"@ {
        ValueModel::Bool(true)
    } else if name == "false"@ {
        ValueModel::Bool(false)
    } else if name == "nil"@ {
        ValueModel::Null
    } else {
        ValueModel::Str(name)
    }
}

/// The reserved atom names differ from one another.
pub proof fn lemma_reserved_names_distinct()
    ensures
        "true"@ != "false"@,
        "true"@ != "nil"@,
        "false"@ != "nil"@,
{
    reveal_strlit("true");
    reveal_strlit("false");
    reveal_strlit("nil");
    assert("true"@.len() == 4);
    assert("false"@.len() == 5);
    assert("nil"@.len() == 3);
}

/// The key that a map key term stands for: the text of a UTF-8 binary or
/// the name of an atom.
pub open spec fn decode_key(k: TermModel) -> Option<Seq<char>> {
    match k {
        TermModel::Binary(b) => if valid_utf8(b) {
            Some(decode_utf8(b))
        } else {
            None
        },
        TermModel::Atom(name) => Some(name),
        _ => None,
    }
}

/// Puts `v` under `k`: in place of the entry that has key `k`, or at the end.
pub open spec fn upsert(
    es: Seq<(Seq<char>, ValueModel)>,
    k: Seq<char>,
    v: ValueModel,
) -> Seq<(Seq<char>, ValueModel)> {
    if exists|j: int| 0 <= j < es.len() && es[j].0 == k {
        let j = choose|j: int| 0 <= j < es.len() && es[j].0 == k;
        es.update(j, (k, v))
    } else {
        es.push((k, v))
    }
}

/// What a term decodes to, by its tag: a binary as UTF-8 text, an atom as a
/// boolean, null or its name, an integer within the signed 64-bit range, a
/// finite float, a tuple or a proper list as an array, a map as an object.
/// A container fails as a whole when any of its elements fails, with the
/// kind that names that container's elements.
pub open spec fn decode_term(t: TermModel) -> Result<ValueModel, TypeEncodingError>
    decreases t,
{
    match t {
        TermModel::Binary(b) => if valid_utf8(b) {
            Ok(ValueModel::Str(decode_utf8(b)))
        } else {
            Err(TypeEncodingError::InvalidBinary)
        },
        TermModel::Atom(name) => Ok(atom_value(name)),
        TermModel::Integer(i) => if i64::MIN <= i <= i64::MAX {
            Ok(ValueModel::Int(i as i64))
        } else {
            Err(TypeEncodingError::InvalidInteger)
        },
        TermModel::Float(bits) => if finite_bits(bits) {
            Ok(ValueModel::Float(bits))
        } else {
            Err(TypeEncodingError::InvalidFloat)
        },
        TermModel::Tuple(ts) => match decode_items(ts) {
            Some(vs) => Ok(ValueModel::Array(vs)),
            None => Err(TypeEncodingError::InvalidTupleItem),
        },
        TermModel::List(ts) => match decode_items(ts) {
            Some(vs) => Ok(ValueModel::Array(vs)),
            None => Err(TypeEncodingError::InvalidArrayItem),
        },
        TermModel::ImproperList(_, _) => Err(TypeEncodingError::InvalidArray),
        TermModel::Mapping(ps) => match decode_entries(ps) {
            Some(es) => Ok(ValueModel::Object(es)),
            None => Err(TypeEncodingError::InvalidMapItem),
        },
        _ => Err(TypeEncodingError::UnsupportedType),
    }
}

/// The values of a sequence of terms, or `None` when any of them fails.
pub open spec fn decode_items(ts: Seq<TermModel>) -> Option<Seq<ValueModel>>
    decreases ts,
{
    if ts.len() == 0 {
        Some(Seq::empty())
    } else {
        match (decode_items(ts.subrange(0, ts.len() - 1)), decode_term(ts[ts.len() - 1])) {
            (Some(vs), Ok(v)) => Some(vs.push(v)),
            _ => None,
        }
    }
}

/// The entries of a map's pairs, taken in order, a later key replacing an
/// equal earlier one; `None` when any key or value fails.
pub open spec fn decode_entries(ps: Seq<(TermModel, TermModel)>) -> Option<
    Seq<(Seq<char>, ValueModel)>,
>
    decreases ps,
{
    if ps.len() == 0 {
        Some(Seq::empty())
    } else {
        let last = ps[ps.len() - 1];
        match (
            decode_entries(ps.subrange(0, ps.len() - 1)),
            decode_key(last.0),
            decode_term(last.1),
        ) {
            (Some(es), Some(k), Ok(v)) => Some(upsert(es, k, v)),
            _ => None,
        }
    }
}

pub open spec fn value_result_model(r: Result<Value, TypeEncodingError>) -> Result<
    ValueModel,
    TypeEncodingError,
> {
    match r {
        Ok(v) => Ok(v@),
        Err(e) => Err(e),
    }
}

/// Relies on `String::from_utf8`: it succeeds exactly on well-formed UTF-8,
/// and the string then holds the characters that the bytes encode.
#[verifier::external_body]
fn string_from_utf8(bytes: Vec<u8>) -> (r: Option<String>)
    ensures
        r is Some <==> valid_utf8(bytes@),
        r matches Some(s) ==> s@ == decode_utf8(bytes@),
{
    String::from_utf8(bytes).ok()
}

fn copy_bytes(b: &[u8]) -> (r: Vec<u8>)
    ensures
        r@ == b@,
{
    let mut out: Vec<u8> = Vec::new();
    let mut i: usize = 0;
    while i < b.len()
        invariant
            i <= b.len(),
            out@ == b@.subrange(0, i as int),
        decreases b.len() - i,
    {
        out.push(b[i]);
        i += 1;
    }
    assert(out@ =~= b@);
    out
}

fn binary_text(b: &Vec<u8>) -> (r: Option<String>)
    ensures
        r is Some <==> valid_utf8(b@),
        r matches Some(s) ==> s@ == decode_utf8(b@),
{
    string_from_utf8(copy_bytes(b.as_slice()))
}

/// Reads an atom: a reserved name first, else the name as a string.
fn atom_to_value(name: &String) -> (r: Value)
    ensures
        r@ == atom_value(name@),
{
    proof {
        reveal_strlit("true");
        reveal_strlit("false");
        reveal_strlit("nil");
    }
    if *name == String::from_str("true") {
        Value::Bool(true)
    } else if *name == String::from_str("false") {
        Value::Bool(false)
    } else if *name == String::from_str("nil") {
        Value::Null
    } else {
        Value::String(name.clone())
    }
}

/// Putting an entry among entries with distinct keys keeps them distinct.
pub proof fn lemma_upsert_keeps_keys_unique(
    es: Seq<(Seq<char>, ValueModel)>,
    k: Seq<char>,
    v: ValueModel,
)
    requires
        keys_unique(es),
    ensures
        keys_unique(upsert(es, k, v)),
{
}

/// Puts `v` under `k` among the entries, in place of an entry with an equal
/// key or at the end.
fn upsert_entry(out: &mut Vec<(String, Value)>, k: String, v: Value)
    requires
        keys_unique(entry_models(old(out)@)),
    ensures
        entry_models(final(out)@) == upsert(entry_models(old(out)@), k@, v@),
        keys_unique(entry_models(final(out)@)),
{
    let ghost es = entry_models(out@);
    proof {
        lemma_entry_models_index(out@);
        lemma_upsert_keeps_keys_unique(es, k@, v@);
    }
    let mut j: usize = 0;
    while j < out.len()
        invariant
            j <= out.len(),
            out@ == old(out)@,
            es == entry_models(out@),
            es.len() == out@.len(),
            keys_unique(es),
            forall|m: int| 0 <= m < j ==> #[trigger] es[m].0 != k@,
        decreases out.len() - j,
    {
        proof {
            lemma_entry_models_index(out@);
        }
        if out[j].0 == k {
            let ghost kk = k@;
            let ghost vv = v@;
            out[j] = (k, v);
            proof {
                lemma_entry_models_index(out@);
                assert(es[j as int].0 == kk);
                let c = choose|c: int| 0 <= c < es.len() && es[c].0 == kk;
                assert(c == j);
                assert(entry_models(out@) =~= es.update(j as int, (kk, vv)));
            }
            return;
        }
        j += 1;
    }
    let ghost kk = k@;
    let ghost vv = v@;
    out.push((k, v));
    proof {
        lemma_entry_models_index(out@);
        assert(entry_models(out@) =~= es.push((kk, vv)));
    }
}

fn key_text(k: &Term) -> (r: Option<String>)
    ensures
        match r {
            Some(s) => decode_key(k@) == Some(s@),
            None => decode_key(k@) is None,
        },
{
    match k {
        Term::Binary(b) => binary_text(b),
        Term::Atom(name) => Some(name.clone()),
        _ => None,
    }
}

/// Converts a host term into a value; on failure, the kind says which tag
/// could not be converted.
pub fn to_value(term: &Term) -> (r: Result<Value, TypeEncodingError>)
    ensures
        value_result_model(r) == decode_term(term@),
    decreases term,
{
    match term {
        Term::Binary(b) => match binary_text(b) {
            Some(s) => Ok(Value::String(s)),
            None => Err(TypeEncodingError::InvalidBinary),
        },
        Term::Atom(name) => Ok(atom_to_value(name)),
        Term::Integer(i) => {
            if i64::MIN as i128 <= *i && *i <= i64::MAX as i128 {
                Ok(Value::Int(*i as i64))
            } else {
                Err(TypeEncodingError::InvalidInteger)
            }
        },
        Term::Float(bits) => {
            if (*bits >> 52u64) & 0x7ffu64 != 0x7ffu64 {
                Ok(Value::Float(*bits))
            } else {
                Err(TypeEncodingError::InvalidFloat)
            }
        },
        Term::Tuple(items) => match to_values(items) {
            Some(vs) => Ok(Value::Array(vs)),
            None => Err(TypeEncodingError::InvalidTupleItem),
        },
        Term::List(items) => match to_values(items) {
            Some(vs) => Ok(Value::Array(vs)),
            None => Err(TypeEncodingError::InvalidArrayItem),
        },
        Term::ImproperList(_, _) => Err(TypeEncodingError::InvalidArray),
        Term::Mapping(pairs) => match to_entries(pairs) {
            Some(es) => Ok(Value::Object(es)),
            None => Err(TypeEncodingError::InvalidMapItem),
        },
        Term::Pid | Term::Port | Term::Ref | Term::Fun | Term::Unknown => Err(
            TypeEncodingError::UnsupportedType,
        ),
    }
}

/// Converts every term of a sequence, all of them even after a failure;
/// `None` when any failed.
fn to_values(items: &Vec<Term>) -> (r: Option<Vec<Value>>)
    ensures
        match r {
            Some(vs) => decode_items(term_models(items@)) == Some(value_models(vs@)),
            None => decode_items(term_models(items@)) is None,
        },
    decreases items,
{
    let mut out: Vec<Value> = Vec::new();
    let mut failed = false;
    let mut i: usize = 0;
    while i < items.len()
        invariant
            i <= items.len(),
            failed <==> decode_items(term_models(items@.subrange(0, i as int))) is None,
            !failed ==> decode_items(term_models(items@.subrange(0, i as int))) == Some(
                value_models(out@),
            ),
        decreases items.len() - i,
    {
        let ghost before = items@.subrange(0, i as int);
        let ghost after = items@.subrange(0, i + 1);
        proof {
            lemma_term_models_index(before);
            assert(after.subrange(0, i as int) =~= before);
            assert(term_models(after) == term_models(before).push(term_model(items@[i as int])));
            assert(term_models(after).subrange(0, i as int) =~= term_models(before));
        }
        let r = to_value(&items[i]);
        match r {
            Ok(v) => {
                if !failed {
                    let ghost old_out = out@;
                    out.push(v);
                    proof {
                        assert(out@.subrange(0, out@.len() - 1) =~= old_out);
                    }
                }
            },
            Err(_) => {
                failed = true;
            },
        }
        i += 1;
    }
    proof {
        assert(items@.subrange(0, items@.len() as int) =~= items@);
    }
    if failed {
        None
    } else {
        Some(out)
    }
}

/// Converts every pair of a map, all of them even after a failure; `None`
/// when any key or value failed.
fn to_entries(pairs: &Vec<(Term, Term)>) -> (r: Option<Vec<(String, Value)>>)
    ensures
        match r {
            Some(es) => decode_entries(pair_models(pairs@)) == Some(entry_models(es@)),
            None => decode_entries(pair_models(pairs@)) is None,
        },
    decreases pairs,
{
    let mut out: Vec<(String, Value)> = Vec::new();
    let mut failed = false;
    let mut i: usize = 0;
    proof {
        assert(keys_unique(entry_models(out@)));
    }
    while i < pairs.len()
        invariant
            i <= pairs.len(),
            keys_unique(entry_models(out@)),
            failed <==> decode_entries(pair_models(pairs@.subrange(0, i as int))) is None,
            !failed ==> decode_entries(pair_models(pairs@.subrange(0, i as int))) == Some(
                entry_models(out@),
            ),
        decreases pairs.len() - i,
    {
        let ghost before = pairs@.subrange(0, i as int);
        let ghost after = pairs@.subrange(0, i + 1);
        proof {
            lemma_pair_models_index(before);
            assert(after.subrange(0, i as int) =~= before);
            assert(pair_models(after) == pair_models(before).push(
                (term_model(pairs@[i as int].0), term_model(pairs@[i as int].1)),
            ));
            assert(pair_models(after).subrange(0, i as int) =~= pair_models(before));
        }
        let k = key_text(&pairs[i].0);
        let v = to_value(&pairs[i].1);
        match (k, v) {
            (Some(k), Ok(v)) => {
                if !failed {
                    upsert_entry(&mut out, k, v);
                }
            },
            _ => {
                failed = true;
            },
        }
        i += 1;
    }
    proof {
        assert(pairs@.subrange(0, pairs@.len() as int) =~= pairs@);
    }
    if failed {
        None
    } else {
        Some(out)
    }
}

// ---------------------------------------------------------------------------
// Encoding: value to term
// ---------------------------------------------------------------------------

/// The term a value encodes to: null and the booleans as their atoms, an
/// integer as an integer, a finite float as a float, a string as a UTF-8
/// binary, an array as a list in the same order, an object as a map with
/// binary keys. An object with a repeated key has no map.
pub open spec fn encode_value(v: ValueModel) -> Result<TermModel, TypeEncodingError>
    decreases v,
{
    match v {
        ValueModel::Null => Ok(TermModel::Atom("nil"@)),
        ValueModel::Bool(b) => Ok(
            TermModel::Atom(
                if b {
                    "true"@
                } else {
                    "false"@
                },
            ),
        ),
        ValueModel::Int(i) => Ok(TermModel::Integer(i as int)),
        ValueModel::UInt(u) => Ok(TermModel::Integer(u as int)),
        ValueModel::Float(bits) => if finite_bits(bits) {
            Ok(TermModel::Float(bits))
        } else {
            Err(TypeEncodingError::InvalidFloat)
        },
        ValueModel::Str(s) => Ok(TermModel::Binary(encode_utf8(s))),
        ValueModel::Array(vs) => match encode_items(vs) {
            Some(ts) => Ok(TermModel::List(ts)),
            None => Err(TypeEncodingError::InvalidArrayItem),
        },
        ValueModel::Object(es) => match encode_entries(es) {
            Some(ps) => if keys_unique(es) {
                Ok(TermModel::Mapping(ps))
            } else {
                Err(TypeEncodingError::InvalidMap)
            },
            None => Err(TypeEncodingError::InvalidMapItem),
        },
    }
}

/// The terms of a sequence of values, or `None` when any of them fails.
pub open spec fn encode_items(vs: Seq<ValueModel>) -> Option<Seq<TermModel>>
    decreases vs,
{
    if vs.len() == 0 {
        Some(Seq::empty())
    } else {
        match (encode_items(vs.subrange(0, vs.len() - 1)), encode_value(vs[vs.len() - 1])) {
            (Some(ts), Ok(t)) => Some(ts.push(t)),
            _ => None,
        }
    }
}

/// The pairs of an object's entries, each key as a UTF-8 binary, or `None`
/// when any value fails.
pub open spec fn encode_entries(es: Seq<(Seq<char>, ValueModel)>) -> Option<
    Seq<(TermModel, TermModel)>,
>
    decreases es,
{
    if es.len() == 0 {
        Some(Seq::empty())
    } else {
        let last = es[es.len() - 1];
        match (encode_entries(es.subrange(0, es.len() - 1)), encode_value(last.1)) {
            (Some(ps), Ok(t)) => Some(ps.push((TermModel::Binary(encode_utf8(last.0)), t))),
            _ => None,
        }
    }
}

pub open spec fn term_result_model(r: Result<Term, TypeEncodingError>) -> Result<
    TermModel,
    TypeEncodingError,
> {
    match r {
        Ok(t) => Ok(t@),
        Err(e) => Err(e),
    }
}

fn string_binary(s: &String) -> (r: Term)
    ensures
        r@ == TermModel::Binary(encode_utf8(s@)),
{
    Term::Binary(copy_bytes(s.as_str().as_bytes()))
}

/// Whether no key occurs twice among the entries.
fn entry_keys_unique(es: &Vec<(String, Value)>) -> (r: bool)
    ensures
        r == keys_unique(entry_models(es@)),
{
    let ghost m = entry_models(es@);
    proof {
        lemma_entry_models_index(es@);
    }
    let mut i: usize = 0;
    while i < es.len()
        invariant
            i <= es.len(),
            m == entry_models(es@),
            m.len() == es@.len(),
            forall|a: int| 0 <= a < es@.len() ==> #[trigger] m[a].0 == es@[a].0@,
            forall|a: int, b: int| 0 <= a < i && 0 <= b < i && a != b ==> m[a].0 != m[b].0,
        decreases es.len() - i,
    {
        let mut j: usize = 0;
        while j < i
            invariant
                i < es.len(),
                j <= i,
                m == entry_models(es@),
                m.len() == es@.len(),
                forall|a: int| 0 <= a < es@.len() ==> #[trigger] m[a].0 == es@[a].0@,
                forall|b: int| 0 <= b < j ==> m[b].0 != m[i as int].0,
            decreases i - j,
        {
            if es[j].0 == es[i].0 {
                proof {
                    assert(m[j as int].0 == m[i as int].0);
                }
                return false;
            }
            j += 1;
        }
        i += 1;
    }
    true
}

/// Converts a value into a host term; arrays keep their order.
pub fn from_value(value: &Value) -> (r: Result<Term, TypeEncodingError>)
    ensures
        term_result_model(r) == encode_value(value@),
    decreases value,
{
    proof {
        reveal_strlit("true");
        reveal_strlit("false");
        reveal_strlit("nil");
    }
    match value {
        Value::Null => Ok(Term::Atom(String::from_str("nil"))),
        Value::Bool(b) => {
            if *b {
                Ok(Term::Atom(String::from_str("true")))
            } else {
                Ok(Term::Atom(String::from_str("false")))
            }
        },
        Value::Int(i) => Ok(Term::Integer(*i as i128)),
        Value::UInt(u) => Ok(Term::Integer(*u as i128)),
        Value::Float(bits) => {
            if (*bits >> 52u64) & 0x7ffu64 != 0x7ffu64 {
                Ok(Term::Float(*bits))
            } else {
                Err(TypeEncodingError::InvalidFloat)
            }
        },
        Value::String(s) => Ok(string_binary(s)),
        Value::Array(items) => match from_values(items) {
            Some(ts) => Ok(Term::List(ts)),
            None => Err(TypeEncodingError::InvalidArrayItem),
        },
        Value::Object(entries) => match from_entries(entries) {
            Some(ps) => {
                if entry_keys_unique(entries) {
                    Ok(Term::Mapping(ps))
                } else {
                    Err(TypeEncodingError::InvalidMap)
                }
            },
            None => Err(TypeEncodingError::InvalidMapItem),
        },
    }
}

/// Converts every value of a sequence, in order; `None` when any failed.
fn from_values(items: &Vec<Value>) -> (r: Option<Vec<Term>>)
    ensures
        match r {
            Some(ts) => encode_items(value_models(items@)) == Some(term_models(ts@)),
            None => encode_items(value_models(items@)) is None,
        },
    decreases items,
{
    let mut out: Vec<Term> = Vec::new();
    let mut failed = false;
    let mut i: usize = 0;
    while i < items.len()
        invariant
            i <= items.len(),
            failed <==> encode_items(value_models(items@.subrange(0, i as int))) is None,
            !failed ==> encode_items(value_models(items@.subrange(0, i as int))) == Some(
                term_models(out@),
            ),
        decreases items.len() - i,
    {
        let ghost before = items@.subrange(0, i as int);
        let ghost after = items@.subrange(0, i + 1);
        proof {
            lemma_value_models_index(before);
            assert(after.subrange(0, i as int) =~= before);
            assert(value_models(after) == value_models(before).push(value_model(items@[i as int])));
            assert(value_models(after).subrange(0, i as int) =~= value_models(before));
        }
        let r = from_value(&items[i]);
        match r {
            Ok(t) => {
                if !failed {
                    let ghost old_out = out@;
                    out.push(t);
                    proof {
                        assert(out@.subrange(0, out@.len() - 1) =~= old_out);
                    }
                }
            },
            Err(_) => {
                failed = true;
            },
        }
        i += 1;
    }
    proof {
        assert(items@.subrange(0, items@.len() as int) =~= items@);
    }
    if failed {
        None
    } else {
        Some(out)
    }
}

/// Converts every entry of an object, in order, the key as a UTF-8 binary;
/// `None` when any value failed.
fn from_entries(entries: &Vec<(String, Value)>) -> (r: Option<Vec<(Term, Term)>>)
    ensures
        match r {
            Some(ps) => encode_entries(entry_models(entries@)) == Some(pair_models(ps@)),
            None => encode_entries(entry_models(entries@)) is None,
        },
    decreases entries,
{
    let mut out: Vec<(Term, Term)> = Vec::new();
    let mut failed = false;
    let mut i: usize = 0;
    while i < entries.len()
        invariant
            i <= entries.len(),
            failed <==> encode_entries(entry_models(entries@.subrange(0, i as int))) is None,
            !failed ==> encode_entries(entry_models(entries@.subrange(0, i as int))) == Some(
                pair_models(out@),
            ),
        decreases entries.len() - i,
    {
        let ghost before = entries@.subrange(0, i as int);
        let ghost after = entries@.subrange(0, i + 1);
        proof {
            lemma_entry_models_index(before);
            assert(after.subrange(0, i as int) =~= before);
            assert(entry_models(after) == entry_models(before).push(
                (entries@[i as int].0@, value_model(entries@[i as int].1)),
            ));
            assert(entry_models(after).subrange(0, i as int) =~= entry_models(before));
        }
        let r = from_value(&entries[i].1);
        match r {
            Ok(t) => {
                if !failed {
                    let k = string_binary(&entries[i].0);
                    let ghost old_out = out@;
                    out.push((k, t));
                    proof {
                        assert(out@.subrange(0, out@.len() - 1) =~= old_out);
                    }
                }
            },
            Err(_) => {
                failed = true;
            },
        }
        i += 1;
    }
    proof {
        assert(entries@.subrange(0, entries@.len() as int) =~= entries@);
    }
    if failed {
        None
    } else {
        Some(out)
    }
}

} // verus!
