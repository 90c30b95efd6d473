use vstd::prelude::*;

verus! {

/// A JSON-shaped value, as the expression engine reads and writes it.
///
/// A float carries its IEEE 754 bit pattern. An object carries its entries
/// as key-value pairs; only the set of keys and the value under each key
/// carry meaning, not their order.
#[derive(Debug, PartialEq)]
pub enum Value {
    Null,
    Bool(bool),
    Int(i64),
    /// An unsigned magnitude beyond the signed 64-bit range.
    UInt(u64),
    Float(u64),
    String(String),
    Array(Vec<Value>),
    Object(Vec<(String, Value)>),
}

/// The mathematical model of a `Value`.
pub enum ValueModel {
    Null,
    Bool(bool),
    Int(i64),
    UInt(u64),
    Float(u64),
    Str(Seq<char>),
    Array(Seq<ValueModel>),
    Object(Seq<(Seq<char>, ValueModel)>),
}

pub open spec fn value_model(v: Value) -> ValueModel
    decreases v,
{
    match v {
        Value::Null => ValueModel::Null,
        Value::Bool(b) => ValueModel::Bool(b),
        Value::Int(i) => ValueModel::Int(i),
        Value::UInt(u) => ValueModel::UInt(u),
        Value::Float(bits) => ValueModel::Float(bits),
        Value::String(s) => ValueModel::Str(s@),
        Value::Array(items) => ValueModel::Array(value_models(items@)),
        Value::Object(entries) => ValueModel::Object(entry_models(entries@)),
    }
}

pub open spec fn value_models(vs: Seq<Value>) -> Seq<ValueModel>
    decreases vs,
{
    if vs.len() == 0 {
        Seq::empty()
    } else {
        value_models(vs.subrange(0, vs.len() - 1)).push(value_model(vs[vs.len() - 1]))
    }
}

pub open spec fn entry_models(es: Seq<(String, Value)>) -> Seq<(Seq<char>, ValueModel)>
    decreases es,
{
    if es.len() == 0 {
        Seq::empty()
    } else {
        entry_models(es.subrange(0, es.len() - 1)).push(
            (es[es.len() - 1].0@, value_model(es[es.len() - 1].1)),
        )
    }
}

impl View for Value {
    type V = ValueModel;

    open spec fn view(&self) -> ValueModel {
        value_model(*self)
    }
}

pub proof fn lemma_value_models_index(vs: Seq<Value>)
    ensures
        value_models(vs).len() == vs.len(),
        forall|i: int| 0 <= i < vs.len() ==> #[trigger] value_models(vs)[i] == value_model(vs[i]),
    decreases vs.len(),
{
    if vs.len() > 0 {
        lemma_value_models_index(vs.subrange(0, vs.len() - 1));
    }
}

pub proof fn lemma_entry_models_index(es: Seq<(String, Value)>)
    ensures
        entry_models(es).len() == es.len(),
        forall|i: int|
            0 <= i < es.len() ==> #[trigger] entry_models(es)[i] == (
                es[i].0@,
                value_model(es[i].1),
            ),
    decreases es.len(),
{
    if es.len() > 0 {
        lemma_entry_models_index(es.subrange(0, es.len() - 1));
    }
}

/// Whether a float's bit pattern is neither an infinity nor a NaN.
pub open spec fn finite_bits(bits: u64) -> bool {
    (bits >> 52u64) & 0x7ffu64 != 0x7ffu64
}

/// Whether no key occurs twice among the entries of an object.
pub open spec fn keys_unique(es: Seq<(Seq<char>, ValueModel)>) -> bool {
    forall|i: int, j: int|
        0 <= i < es.len() && 0 <= j < es.len() && i != j ==> #[trigger] es[i].0 != #[trigger] es[j].0
}

/// A canonical value: every float is finite, no object repeats a key, and an
/// unsigned integer is used only beyond the signed 64-bit range.
pub open spec fn canonical(v: ValueModel) -> bool
    decreases v,
{
    match v {
        ValueModel::UInt(u) => u > i64::MAX,
        ValueModel::Float(bits) => finite_bits(bits),
        ValueModel::Array(vs) => forall|i: int| 0 <= i < vs.len() ==> canonical(#[trigger] vs[i]),
        ValueModel::Object(es) => keys_unique(es) && forall|i: int|
            0 <= i < es.len() ==> canonical(#[trigger] es[i].1),
        _ => true,
    }
}

/// Whether an unsigned integer occurs anywhere in the value.
pub open spec fn holds_uint(v: ValueModel) -> bool
    decreases v,
{
    match v {
        ValueModel::UInt(_) => true,
        ValueModel::Array(vs) => exists|i: int| 0 <= i < vs.len() && holds_uint(#[trigger] vs[i]),
        ValueModel::Object(es) => exists|i: int|
            0 <= i < es.len() && holds_uint(#[trigger] es[i].1),
        _ => false,
    }
}

} // verus!
