//! The protocol's abstract payload: a recursively structured value, together
//! with its mathematical model.

use vstd::prelude::*;

verus! {

/// Mathematical model of a protocol value.  Contracts and lemmas speak of
/// this type; the executable [`Value`] views to it.
pub enum ValueV {
    Nil,
    Bool(bool),
    Int(i64),
    Str(Seq<u8>),
    Bin(Seq<u8>),
    Arr(Seq<ValueV>),
    Dict(Seq<(ValueV, ValueV)>),
}

/// An executable protocol value: nil, a boolean, a signed integer, text
/// (UTF-8 bytes), raw bytes, an array of values, or a map given as a sequence
/// of key/value pairs in wire order.
///
/// Handlers exchange only this type; the engine never inspects payloads.
pub enum Value {
    Nil,
    Bool(bool),
    Int(i64),
    Str(Vec<u8>),
    Bin(Vec<u8>),
    Array(Vec<Value>),
    Dict(Vec<(Value, Value)>),
}

/// Model of a sequence of values.
pub open spec fn model_elems(s: Seq<Value>) -> Seq<ValueV>
    decreases s,
{
    if s.len() == 0 {
        Seq::empty()
    } else {
        model_elems(s.drop_last()).push(s.last().model())
    }
}

/// Model of a sequence of key/value pairs.
pub open spec fn model_pairs(s: Seq<(Value, Value)>) -> Seq<(ValueV, ValueV)>
    decreases s,
{
    if s.len() == 0 {
        Seq::empty()
    } else {
        model_pairs(s.drop_last()).push((s.last().0.model(), s.last().1.model()))
    }
}

impl Value {
    /// The mathematical model of this value.
    pub open spec fn model(self) -> ValueV
        decreases self,
    {
        match self {
            Value::Nil => ValueV::Nil,
            Value::Bool(b) => ValueV::Bool(b),
            Value::Int(i) => ValueV::Int(i),
            Value::Str(b) => ValueV::Str(b@),
            Value::Bin(b) => ValueV::Bin(b@),
            Value::Array(elems) => ValueV::Arr(model_elems(elems@)),
            Value::Dict(pairs) => ValueV::Dict(model_pairs(pairs@)),
        }
    }
}

impl View for Value {
    type V = ValueV;

    open spec fn view(&self) -> ValueV {
        self.model()
    }
}

pub proof fn lemma_model_elems_len(s: Seq<Value>)
    ensures
        model_elems(s).len() == s.len(),
        forall|i: int| 0 <= i < s.len() ==> model_elems(s)[i] == #[trigger] s[i].model(),
    decreases s,
{
    if s.len() > 0 {
        lemma_model_elems_len(s.drop_last());
        assert forall|i: int| 0 <= i < s.len() implies model_elems(s)[i]
            == #[trigger] s[i].model() by {
            if i < s.len() - 1 {
                assert(s.drop_last()[i] == s[i]);
            } else {
                assert(s[i] == s.last());
            }
        }
    }
}

pub proof fn lemma_model_pairs_len(s: Seq<(Value, Value)>)
    ensures
        model_pairs(s).len() == s.len(),
        forall|i: int| 0 <= i < s.len() ==> model_pairs(s)[i] == (
            #[trigger] s[i].0.model(),
            s[i].1.model(),
        ),
    decreases s,
{
    if s.len() > 0 {
        lemma_model_pairs_len(s.drop_last());
        assert forall|i: int| 0 <= i < s.len() implies model_pairs(s)[i] == (
            #[trigger] s[i].0.model(),
            s[i].1.model(),
        ) by {
            if i < s.len() - 1 {
                assert(s.drop_last()[i] == s[i]);
            } else {
                assert(s[i] == s.last());
            }
        }
    }
}

/// The model keeps each variant: an executable value and its model are the
/// same kind of datum.
pub proof fn lemma_model_variant(v: Value)
    ensures
        (v is Nil) <==> (v.model() is Nil),
        (v is Bool) <==> (v.model() is Bool),
        (v is Int) <==> (v.model() is Int),
        (v is Str) <==> (v.model() is Str),
        (v is Bin) <==> (v.model() is Bin),
        (v is Array) <==> (v.model() is Arr),
        (v is Dict) <==> (v.model() is Dict),
{
    match v {
        Value::Nil => {},
        Value::Bool(_) => {},
        Value::Int(_) => {},
        Value::Str(_) => {},
        Value::Bin(_) => {},
        Value::Array(_) => {},
        Value::Dict(_) => {},
    }
}

} // verus!
