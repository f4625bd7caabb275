use vstd::prelude::*;
use crate::abi_decode::{into_tuple_fields, values_of, AbiDecode, AbiDecodeError, AbiTypeToDecode};
use crate::abi_types::{
    lemma_types_view_index, lemma_values_view_index, lemma_values_view_push, types_view,
    values_view, Type, TypeV, Value, ValueV,
};
use crate::bytes::{Address, Bytes};
use crate::u256::U256;

verus! {

/// An amount of a token.
#[derive(Clone, Debug, Copy)]
pub struct EVMTokenAmount {
    pub token: Address,
    pub amount: U256,
}

impl AbiTypeToDecode for EVMTokenAmount {
    open spec fn spec_abi_type() -> TypeV {
        TypeV::Tuple(seq![<Address as AbiTypeToDecode>::spec_abi_type(), <U256 as AbiTypeToDecode>::spec_abi_type()])
    }

    fn abi_type_to_decode() -> (t: Type) {
        let mut ts: Vec<Type> = Vec::new();
        ts.push(<Address as AbiTypeToDecode>::abi_type_to_decode());
        ts.push(<U256 as AbiTypeToDecode>::abi_type_to_decode());
        proof {
            lemma_types_view_index(ts@, 0); lemma_types_view_index(ts@, 1);
            assert(types_view(ts@) =~= seq![<Address as AbiTypeToDecode>::spec_abi_type(), <U256 as AbiTypeToDecode>::spec_abi_type()]);
        }
        Type::Tuple(ts)
    }
}

impl AbiDecode for EVMTokenAmount {
    open spec fn spec_value(&self) -> ValueV {
        ValueV::Tuple(seq![self.token.spec_value(), self.amount.spec_value()])
    }

    open spec fn spec_decodable(v: ValueV) -> bool {
        v is Tuple && v->Tuple_0.len() == 2
            && <Address as AbiDecode>::spec_decodable(v->Tuple_0[0])
            && <U256 as AbiDecode>::spec_decodable(v->Tuple_0[1])
    }

    fn try_from_value(v: Value) -> (r: Result<Self, AbiDecodeError>) {
        let mut fs = match into_tuple_fields(v, 2) {
            Some(fs) => fs,
            None => return Err(AbiDecodeError::InvalidValueError),
        };
        let ghost orig = fs@;
        proof {
            lemma_values_view_index(orig, 0); lemma_values_view_index(orig, 1);
        }
        let f1 = fs.pop().unwrap();
        let f0 = fs.pop().unwrap();
        assert(f0 == orig[0] && f1 == orig[1]);
        let x0 = match <Address as AbiDecode>::try_from_value(f0) {
            Ok(x) => x,
            Err(e) => return Err(e),
        };
        let x1 = match <U256 as AbiDecode>::try_from_value(f1) {
            Ok(x) => x,
            Err(e) => return Err(e),
        };
        proof {
            assert(seq![x0.spec_value(), x1.spec_value()] =~= values_view(orig));
        }
        Ok(EVMTokenAmount { token: x0, amount: x1 })
    }
}

impl EVMTokenAmount {
    /// The ABI value of the amount: a tuple of the token and the amount.
    pub fn to_value(&self) -> (r: Value)
        ensures
            r@ == self.spec_value(),
    {
        let mut vs: Vec<Value> = Vec::new();
        vs.push(Value::Address(self.token));
        vs.push(Value::U256(self.amount));
        proof {
            lemma_values_view_index(vs@, 0);
            lemma_values_view_index(vs@, 1);
            assert(values_view(vs@) =~= seq![ValueV::Address(self.token@), ValueV::U256(self.amount.value())]);
        }
        Value::Tuple(vs)
    }
}

/// The ABI value of a list of token amounts: a dynamic array of tuples.
pub fn token_amounts_value(ts: &Vec<EVMTokenAmount>) -> (r: Value)
    ensures
        r@ == ValueV::DynamicArray(values_of(ts@)),
{
    let mut vs: Vec<Value> = Vec::new();
    let mut i: usize = 0;
    while i < ts.len()
        invariant
            i <= ts.len(),
            values_view(vs@) =~= values_of(ts@.subrange(0, i as int)),
        decreases ts.len() - i,
    {
        let v = ts[i].to_value();
        proof {
            lemma_values_view_push(vs@, v);
        }
        vs.push(v);
        i += 1;
        proof {
            assert(values_of(ts@.subrange(0, i as int)) =~= values_of(ts@.subrange(0, i - 1)).push(ts@[i - 1].spec_value()));
        }
    }
    assert(ts@.subrange(0, ts@.len() as int) =~= ts@);
    Value::DynamicArray(vs)
}

/// The ABI value of a list of byte strings: a dynamic array of `bytes`.
pub fn bytes_list_value(bs: &Vec<Bytes>) -> (r: Value)
    ensures
        r@ == ValueV::DynamicArray(values_of(bs@)),
{
    let mut vs: Vec<Value> = Vec::new();
    let mut i: usize = 0;
    while i < bs.len()
        invariant
            i <= bs.len(),
            values_view(vs@) =~= values_of(bs@.subrange(0, i as int)),
        decreases bs.len() - i,
    {
        let v = Value::Bytes(bs[i].clone());
        proof {
            lemma_values_view_push(vs@, v);
        }
        vs.push(v);
        i += 1;
        proof {
            assert(values_of(bs@.subrange(0, i as int)) =~= values_of(bs@.subrange(0, i - 1)).push(bs@[i - 1].spec_value()));
        }
    }
    assert(bs@.subrange(0, bs@.len() as int) =~= bs@);
    Value::DynamicArray(vs)
}

} // verus!
