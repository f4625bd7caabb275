use vstd::prelude::*;
use crate::bytes::{Address, Bytes, Bytes32};
use crate::u256::U256;

verus! {

/// An ABI type to decode.
#[derive(Debug, PartialEq, Eq)]
pub enum Type {
    Bool,
    U256,
    U128,
    U64,
    U32,
    U16,
    U8,
    Address,
    Bytes32,
    Bytes,
    String,
    DynamicArray(Box<Type>),
    Tuple(Vec<Type>),
}

/// An ABI value.
#[derive(Debug, PartialEq, Eq)]
pub enum Value {
    Bool(bool),
    U256(U256),
    U128(u128),
    U64(u64),
    U32(u32),
    U16(u16),
    U8(u8),
    Address(Address),
    Bytes32(Bytes32),
    Bytes(Bytes),
    String(String),
    Tuple(Vec<Value>),
    DynamicArray(Vec<Value>),
}

/// The mathematical model of an ABI type.
pub enum TypeV {
    Bool,
    U256,
    U128,
    U64,
    U32,
    U16,
    U8,
    Address,
    Bytes32,
    Bytes,
    String,
    DynamicArray(Box<TypeV>),
    Tuple(Seq<TypeV>),
}

/// The model of a type.
pub open spec fn type_view(t: Type) -> TypeV
    decreases t,
{
    match t {
        Type::Bool => TypeV::Bool,
        Type::U256 => TypeV::U256,
        Type::U128 => TypeV::U128,
        Type::U64 => TypeV::U64,
        Type::U32 => TypeV::U32,
        Type::U16 => TypeV::U16,
        Type::U8 => TypeV::U8,
        Type::Address => TypeV::Address,
        Type::Bytes32 => TypeV::Bytes32,
        Type::Bytes => TypeV::Bytes,
        Type::String => TypeV::String,
        Type::DynamicArray(inner) => TypeV::DynamicArray(Box::new(type_view(*inner))),
        Type::Tuple(ts) => TypeV::Tuple(types_view(ts@)),
    }
}

/// The models of a sequence of types.
pub open spec fn types_view(ts: Seq<Type>) -> Seq<TypeV>
    decreases ts,
{
    if ts.len() == 0 {
        Seq::empty()
    } else {
        types_view(ts.drop_last()).push(type_view(ts.last()))
    }
}

impl View for Type {
    type V = TypeV;

    open spec fn view(&self) -> TypeV {
        type_view(*self)
    }
}

pub proof fn lemma_types_view_len(ts: Seq<Type>)
    ensures
        types_view(ts).len() == ts.len(),
    decreases ts.len(),
{
    if ts.len() > 0 {
        lemma_types_view_len(ts.drop_last());
    }
}

pub proof fn lemma_types_view_index(ts: Seq<Type>, i: int)
    requires
        0 <= i < ts.len(),
    ensures
        types_view(ts).len() == ts.len(),
        types_view(ts)[i] == type_view(ts[i]),
    decreases ts.len(),
{
    lemma_types_view_len(ts);
    if i < ts.len() - 1 {
        lemma_types_view_index(ts.drop_last(), i);
    }
}

/// The mathematical model of an ABI value.
pub enum ValueV {
    Bool(bool),
    U256(nat),
    U128(u128),
    U64(u64),
    U32(u32),
    U16(u16),
    U8(u8),
    Address(Seq<u8>),
    Bytes32(Seq<u8>),
    Bytes(Seq<u8>),
    String(Seq<char>),
    Tuple(Seq<ValueV>),
    DynamicArray(Seq<ValueV>),
}

/// The model of a value.
pub open spec fn value_view(v: Value) -> ValueV
    decreases v,
{
    match v {
        Value::Bool(b) => ValueV::Bool(b),
        Value::U256(x) => ValueV::U256(x.value()),
        Value::U128(x) => ValueV::U128(x),
        Value::U64(x) => ValueV::U64(x),
        Value::U32(x) => ValueV::U32(x),
        Value::U16(x) => ValueV::U16(x),
        Value::U8(x) => ValueV::U8(x),
        Value::Address(a) => ValueV::Address(a@),
        Value::Bytes32(b) => ValueV::Bytes32(b@),
        Value::Bytes(b) => ValueV::Bytes(b@),
        Value::String(s) => ValueV::String(s@),
        Value::Tuple(vs) => ValueV::Tuple(values_view(vs@)),
        Value::DynamicArray(vs) => ValueV::DynamicArray(values_view(vs@)),
    }
}

/// The models of a sequence of values.
pub open spec fn values_view(vs: Seq<Value>) -> Seq<ValueV>
    decreases vs,
{
    if vs.len() == 0 {
        Seq::empty()
    } else {
        values_view(vs.drop_last()).push(value_view(vs.last()))
    }
}

impl View for Value {
    type V = ValueV;

    open spec fn view(&self) -> ValueV {
        value_view(*self)
    }
}

pub proof fn lemma_values_view_len(vs: Seq<Value>)
    ensures
        values_view(vs).len() == vs.len(),
    decreases vs.len(),
{
    if vs.len() > 0 {
        lemma_values_view_len(vs.drop_last());
    }
}

pub proof fn lemma_values_view_index(vs: Seq<Value>, i: int)
    requires
        0 <= i < vs.len(),
    ensures
        values_view(vs).len() == vs.len(),
        values_view(vs)[i] == value_view(vs[i]),
    decreases vs.len(),
{
    lemma_values_view_len(vs);
    if i < vs.len() - 1 {
        lemma_values_view_index(vs.drop_last(), i);
    }
}

pub proof fn lemma_values_view_push(vs: Seq<Value>, v: Value)
    ensures
        values_view(vs.push(v)) == values_view(vs).push(value_view(v)),
{
    assert(vs.push(v).drop_last() =~= vs);
}

/// Whether a type is encoded in place (has no dynamic part).
pub open spec fn type_is_static(t: TypeV) -> bool
    decreases t,
{
    match t {
        TypeV::Bytes | TypeV::String | TypeV::DynamicArray(_) => false,
        TypeV::Tuple(ts) => types_all_static(ts),
        _ => true,
    }
}

/// Whether all of the types are static.
pub open spec fn types_all_static(ts: Seq<TypeV>) -> bool
    decreases ts,
{
    if ts.len() == 0 {
        true
    } else {
        types_all_static(ts.drop_last()) && type_is_static(ts.last())
    }
}

/// Whether a value model is encoded in place.
pub open spec fn value_is_static(v: ValueV) -> bool
    decreases v,
{
    match v {
        ValueV::Bytes(_) | ValueV::String(_) | ValueV::DynamicArray(_) => false,
        ValueV::Tuple(vs) => values_all_static(vs),
        _ => true,
    }
}

/// Whether all of the value models are static.
pub open spec fn values_all_static(vs: Seq<ValueV>) -> bool
    decreases vs,
{
    if vs.len() == 0 {
        true
    } else {
        values_all_static(vs.drop_last()) && value_is_static(vs.last())
    }
}

impl Type {
    /// Whether every type of `tuple` is static.
    pub fn all_static(tuple: &Vec<Type>) -> (r: bool)
        ensures
            r == types_all_static(types_view(tuple@)),
        decreases tuple@, 1nat,
    {
        let mut i: usize = 0;
        let mut all = true;
        while i < tuple.len()
            invariant
                i <= tuple@.len(),
                all == types_all_static(types_view(tuple@.subrange(0, i as int))),
            decreases tuple@.len() - i,
        {
            let s = tuple[i].is_static();
            proof {
                let p = tuple@.subrange(0, i + 1);
                assert(p.drop_last() =~= tuple@.subrange(0, i as int));
                let pv = types_view(p);
                assert(pv.drop_last() =~= types_view(tuple@.subrange(0, i as int)));
            }
            all = all && s;
            i = i + 1;
        }
        assert(tuple@.subrange(0, tuple@.len() as int) =~= tuple@);
        all
    }

    /// Whether the type is encoded in place.
    pub fn is_static(&self) -> (r: bool)
        ensures
            r == type_is_static(self@),
        decreases *self, 0nat,
    {
        match self {
            Type::Bytes | Type::String | Type::DynamicArray(_) => false,
            Type::Tuple(tuple) => Self::all_static(tuple),
            _ => true,
        }
    }
}

impl Value {
    /// Whether every value of `tuple` is static.
    pub fn all_static(tuple: &Vec<Value>) -> (r: bool)
        ensures
            r == values_all_static(values_view(tuple@)),
        decreases tuple@, 1nat,
    {
        let mut i: usize = 0;
        let mut all = true;
        while i < tuple.len()
            invariant
                i <= tuple@.len(),
                all == values_all_static(values_view(tuple@.subrange(0, i as int))),
            decreases tuple@.len() - i,
        {
            let s = tuple[i].is_static();
            proof {
                let p = tuple@.subrange(0, i + 1);
                assert(p.drop_last() =~= tuple@.subrange(0, i as int));
                lemma_values_view_push(tuple@.subrange(0, i as int), tuple@[i as int]);
                assert(p =~= tuple@.subrange(0, i as int).push(tuple@[i as int]));
                let pv = values_view(tuple@.subrange(0, i as int)).push(value_view(tuple@[i as int]));
                assert(pv.drop_last() =~= values_view(tuple@.subrange(0, i as int)));
            }
            all = all && s;
            i = i + 1;
        }
        assert(tuple@.subrange(0, tuple@.len() as int) =~= tuple@);
        all
    }

    /// Whether the value is encoded in place.
    pub fn is_static(&self) -> (r: bool)
        ensures
            r == value_is_static(self@),
        decreases *self, 0nat,
    {
        match self {
            Value::Bytes(_) | Value::String(_) | Value::DynamicArray(_) => false,
            Value::Tuple(tuple) => Self::all_static(tuple),
            _ => true,
        }
    }
}

} // verus!
