use vstd::prelude::*;
use crate::abi_decode::{into_tuple_fields, AbiDecode, AbiDecodeError, AbiTypeToDecode};
use crate::abi_types::{
    lemma_types_view_index, lemma_values_view_index, types_view, values_view, Type, TypeV, Value,
    ValueV,
};
use crate::bytes::{Address, Bytes32};
use crate::merkle::{leaf_views, merkle_root_spec, root_from_hashed_leafs};
use crate::u256::U256;

verus! {

/// A closed range of sequence numbers.
#[derive(Debug, Clone, Copy, PartialEq, Eq, Hash, Structural)]
pub struct Interval {
    pub min: u64,
    pub max: u64,
}

/// A price update of a token.
#[derive(Debug, Clone, Copy)]
pub struct TokenPriceUpdate {
    pub source_token: Address,
    pub usd_per_token: U256,
}

/// A price update of gas on a destination chain.
#[derive(Debug, Clone, Copy)]
pub struct GasPriceUpdate {
    pub dest_chain_selector: u64,
    pub usd_per_unit_gas: U256,
}

/// A report committed to a commit store.
#[derive(Debug, Clone)]
pub struct CommitReport<P> {
    pub price_updates: P,
    pub interval: Interval,
    pub merkle_root: Bytes32,
}

impl AbiTypeToDecode for Interval {
    open spec fn spec_abi_type() -> TypeV {
        TypeV::Tuple(seq![<u64 as AbiTypeToDecode>::spec_abi_type(), <u64 as AbiTypeToDecode>::spec_abi_type()])
    }

    fn abi_type_to_decode() -> (t: Type) {
        let mut ts: Vec<Type> = Vec::new();
        ts.push(<u64 as AbiTypeToDecode>::abi_type_to_decode());
        ts.push(<u64 as AbiTypeToDecode>::abi_type_to_decode());
        proof {
            lemma_types_view_index(ts@, 0); lemma_types_view_index(ts@, 1);
            assert(types_view(ts@) =~= seq![<u64 as AbiTypeToDecode>::spec_abi_type(), <u64 as AbiTypeToDecode>::spec_abi_type()]);
        }
        Type::Tuple(ts)
    }
}

impl AbiDecode for Interval {
    open spec fn spec_value(&self) -> ValueV {
        ValueV::Tuple(seq![self.min.spec_value(), self.max.spec_value()])
    }

    open spec fn spec_decodable(v: ValueV) -> bool {
        v is Tuple && v->Tuple_0.len() == 2
            && <u64 as AbiDecode>::spec_decodable(v->Tuple_0[0])
            && <u64 as AbiDecode>::spec_decodable(v->Tuple_0[1])
    }

    fn try_from_value(v: Value) -> (r: Result<Self, AbiDecodeError>) {
        let mut fs = match into_tuple_fields(v, 2) {
            Some(fs) => fs,
            None => return Err(AbiDecodeError::InvalidValueError),
        };
        let ghost orig = fs@;
        proof {
            lemma_values_view_index(orig, 0); lemma_values_view_index(orig, 1);
        }
        let f1 = fs.pop().unwrap();
        let f0 = fs.pop().unwrap();
        assert(f0 == orig[0] && f1 == orig[1]);
        let x0 = match <u64 as AbiDecode>::try_from_value(f0) {
            Ok(x) => x,
            Err(e) => return Err(e),
        };
        let x1 = match <u64 as AbiDecode>::try_from_value(f1) {
            Ok(x) => x,
            Err(e) => return Err(e),
        };
        proof {
            assert(seq![x0.spec_value(), x1.spec_value()] =~= values_view(orig));
        }
        Ok(Interval { min: x0, max: x1 })
    }
}

impl AbiTypeToDecode for TokenPriceUpdate {
    open spec fn spec_abi_type() -> TypeV {
        TypeV::Tuple(seq![<Address as AbiTypeToDecode>::spec_abi_type(), <U256 as AbiTypeToDecode>::spec_abi_type()])
    }

    fn abi_type_to_decode() -> (t: Type) {
        let mut ts: Vec<Type> = Vec::new();
        ts.push(<Address as AbiTypeToDecode>::abi_type_to_decode());
        ts.push(<U256 as AbiTypeToDecode>::abi_type_to_decode());
        proof {
            lemma_types_view_index(ts@, 0); lemma_types_view_index(ts@, 1);
            assert(types_view(ts@) =~= seq![<Address as AbiTypeToDecode>::spec_abi_type(), <U256 as AbiTypeToDecode>::spec_abi_type()]);
        }
        Type::Tuple(ts)
    }
}

impl AbiDecode for TokenPriceUpdate {
    open spec fn spec_value(&self) -> ValueV {
        ValueV::Tuple(seq![self.source_token.spec_value(), self.usd_per_token.spec_value()])
    }

    open spec fn spec_decodable(v: ValueV) -> bool {
        v is Tuple && v->Tuple_0.len() == 2
            && <Address as AbiDecode>::spec_decodable(v->Tuple_0[0])
            && <U256 as AbiDecode>::spec_decodable(v->Tuple_0[1])
    }

    fn try_from_value(v: Value) -> (r: Result<Self, AbiDecodeError>) {
        let mut fs = match into_tuple_fields(v, 2) {
            Some(fs) => fs,
            None => return Err(AbiDecodeError::InvalidValueError),
        };
        let ghost orig = fs@;
        proof {
            lemma_values_view_index(orig, 0); lemma_values_view_index(orig, 1);
        }
        let f1 = fs.pop().unwrap();
        let f0 = fs.pop().unwrap();
        assert(f0 == orig[0] && f1 == orig[1]);
        let x0 = match <Address as AbiDecode>::try_from_value(f0) {
            Ok(x) => x,
            Err(e) => return Err(e),
        };
        let x1 = match <U256 as AbiDecode>::try_from_value(f1) {
            Ok(x) => x,
            Err(e) => return Err(e),
        };
        proof {
            assert(seq![x0.spec_value(), x1.spec_value()] =~= values_view(orig));
        }
        Ok(TokenPriceUpdate { source_token: x0, usd_per_token: x1 })
    }
}

impl AbiTypeToDecode for GasPriceUpdate {
    open spec fn spec_abi_type() -> TypeV {
        TypeV::Tuple(seq![<u64 as AbiTypeToDecode>::spec_abi_type(), <U256 as AbiTypeToDecode>::spec_abi_type()])
    }

    fn abi_type_to_decode() -> (t: Type) {
        let mut ts: Vec<Type> = Vec::new();
        ts.push(<u64 as AbiTypeToDecode>::abi_type_to_decode());
        ts.push(<U256 as AbiTypeToDecode>::abi_type_to_decode());
        proof {
            lemma_types_view_index(ts@, 0); lemma_types_view_index(ts@, 1);
            assert(types_view(ts@) =~= seq![<u64 as AbiTypeToDecode>::spec_abi_type(), <U256 as AbiTypeToDecode>::spec_abi_type()]);
        }
        Type::Tuple(ts)
    }
}

impl AbiDecode for GasPriceUpdate {
    open spec fn spec_value(&self) -> ValueV {
        ValueV::Tuple(seq![self.dest_chain_selector.spec_value(), self.usd_per_unit_gas.spec_value()])
    }

    open spec fn spec_decodable(v: ValueV) -> bool {
        v is Tuple && v->Tuple_0.len() == 2
            && <u64 as AbiDecode>::spec_decodable(v->Tuple_0[0])
            && <U256 as AbiDecode>::spec_decodable(v->Tuple_0[1])
    }

    fn try_from_value(v: Value) -> (r: Result<Self, AbiDecodeError>) {
        let mut fs = match into_tuple_fields(v, 2) {
            Some(fs) => fs,
            None => return Err(AbiDecodeError::InvalidValueError),
        };
        let ghost orig = fs@;
        proof {
            lemma_values_view_index(orig, 0); lemma_values_view_index(orig, 1);
        }
        let f1 = fs.pop().unwrap();
        let f0 = fs.pop().unwrap();
        assert(f0 == orig[0] && f1 == orig[1]);
        let x0 = match <u64 as AbiDecode>::try_from_value(f0) {
            Ok(x) => x,
            Err(e) => return Err(e),
        };
        let x1 = match <U256 as AbiDecode>::try_from_value(f1) {
            Ok(x) => x,
            Err(e) => return Err(e),
        };
        proof {
            assert(seq![x0.spec_value(), x1.spec_value()] =~= values_view(orig));
        }
        Ok(GasPriceUpdate { dest_chain_selector: x0, usd_per_unit_gas: x1 })
    }
}

impl<P: AbiTypeToDecode> AbiTypeToDecode for CommitReport<P> {
    open spec fn spec_abi_type() -> TypeV {
        TypeV::Tuple(seq![<P as AbiTypeToDecode>::spec_abi_type(), <Interval as AbiTypeToDecode>::spec_abi_type(), <Bytes32 as AbiTypeToDecode>::spec_abi_type()])
    }

    fn abi_type_to_decode() -> (t: Type) {
        let mut ts: Vec<Type> = Vec::new();
        ts.push(<P as AbiTypeToDecode>::abi_type_to_decode());
        ts.push(<Interval as AbiTypeToDecode>::abi_type_to_decode());
        ts.push(<Bytes32 as AbiTypeToDecode>::abi_type_to_decode());
        proof {
            lemma_types_view_index(ts@, 0); lemma_types_view_index(ts@, 1); lemma_types_view_index(ts@, 2);
            assert(types_view(ts@) =~= seq![<P as AbiTypeToDecode>::spec_abi_type(), <Interval as AbiTypeToDecode>::spec_abi_type(), <Bytes32 as AbiTypeToDecode>::spec_abi_type()]);
        }
        Type::Tuple(ts)
    }
}

impl<P: AbiDecode> AbiDecode for CommitReport<P> {
    open spec fn spec_value(&self) -> ValueV {
        ValueV::Tuple(seq![self.price_updates.spec_value(), self.interval.spec_value(), self.merkle_root.spec_value()])
    }

    open spec fn spec_decodable(v: ValueV) -> bool {
        v is Tuple && v->Tuple_0.len() == 3
            && <P as AbiDecode>::spec_decodable(v->Tuple_0[0])
            && <Interval as AbiDecode>::spec_decodable(v->Tuple_0[1])
            && <Bytes32 as AbiDecode>::spec_decodable(v->Tuple_0[2])
    }

    fn try_from_value(v: Value) -> (r: Result<Self, AbiDecodeError>) {
        let mut fs = match into_tuple_fields(v, 3) {
            Some(fs) => fs,
            None => return Err(AbiDecodeError::InvalidValueError),
        };
        let ghost orig = fs@;
        proof {
            lemma_values_view_index(orig, 0); lemma_values_view_index(orig, 1); lemma_values_view_index(orig, 2);
        }
        let f2 = fs.pop().unwrap();
        let f1 = fs.pop().unwrap();
        let f0 = fs.pop().unwrap();
        assert(f0 == orig[0] && f1 == orig[1] && f2 == orig[2]);
        let x0 = match <P as AbiDecode>::try_from_value(f0) {
            Ok(x) => x,
            Err(e) => return Err(e),
        };
        let x1 = match <Interval as AbiDecode>::try_from_value(f1) {
            Ok(x) => x,
            Err(e) => return Err(e),
        };
        let x2 = match <Bytes32 as AbiDecode>::try_from_value(f2) {
            Ok(x) => x,
            Err(e) => return Err(e),
        };
        proof {
            assert(seq![x0.spec_value(), x1.spec_value(), x2.spec_value()] =~= values_view(orig));
        }
        Ok(CommitReport { price_updates: x0, interval: x1, merkle_root: x2 })
    }
}

/// A committed Merkle root with the interval of sequence numbers it covers.
#[derive(Debug, Clone, Copy)]
pub struct RootWithInterval {
    pub root: Bytes32,
    pub interval: Interval,
}

impl<P> CommitReport<P> {
    /// The committed root and its interval.
    pub fn root_with_interval(self) -> (r: RootWithInterval)
        ensures
            r.root == self.merkle_root,
            r.interval == self.interval,
    {
        RootWithInterval { root: self.merkle_root, interval: self.interval }
    }
}

/// A source of the message hashes of an on-ramp.
pub trait OnRampReader {
    /// The message hashes of the messages with sequence numbers in `interval`,
    /// in order, where the reader has all of them.
    spec fn spec_message_hashes(&self, interval: Interval) -> Option<Seq<Seq<u8>>>;

    /// Reads the message hashes of the messages with sequence numbers in `interval`.
    fn get_message_hashes(&self, interval: &Interval) -> (r: Option<Vec<Bytes32>>)
        ensures
            match self.spec_message_hashes(*interval) {
                None => r is None,
                Some(hs) => r matches Some(v) && leaf_views(v@) == hs,
            },
    ;
}

/// Why a Merkle root could not be computed for an interval.
#[derive(Debug, Clone, Copy, PartialEq, Eq, Structural)]
pub enum ComputeMerkleRootError {
    /// The interval ends before it starts.
    InvalidInterval,
    /// The reader does not have the message hashes of the interval.
    MissingMessageHashes,
    /// The reader gave another number of hashes than the interval holds.
    WrongNumberOfMessages { expected: u64, got: u64 },
    /// There were no leaves to build a tree from.
    NoLeaves,
}

/// Whether an interval is not empty.
pub fn is_valid_interval(interval: &Interval) -> (r: bool)
    ensures
        r == (interval.max >= interval.min),
{
    interval.max >= interval.min
}

/// What `compute_merkle_root` gives for an interval and a reader.
pub open spec fn compute_merkle_root_spec<R: OnRampReader>(interval: Interval, reader: R) -> Result<
    Seq<u8>,
    ComputeMerkleRootError,
> {
    if !(interval.max >= interval.min) {
        Err(ComputeMerkleRootError::InvalidInterval)
    } else {
        match reader.spec_message_hashes(interval) {
            None => Err(ComputeMerkleRootError::MissingMessageHashes),
            Some(hs) => if hs.len() != interval.max - interval.min + 1 {
                Err(
                    ComputeMerkleRootError::WrongNumberOfMessages {
                        expected: (interval.max - interval.min + 1) as u64,
                        got: hs.len() as u64,
                    },
                )
            } else {
                match merkle_root_spec(hs) {
                    None => Err(ComputeMerkleRootError::NoLeaves),
                    Some(root) => Ok(root),
                }
            },
        }
    }
}

/// The Merkle root over the message hashes of the messages in `interval`.
pub fn compute_merkle_root<R: OnRampReader>(interval: &Interval, reader: &R) -> (r: Result<
    Bytes32,
    ComputeMerkleRootError,
>)
    requires
        interval.max - interval.min < u64::MAX,
    ensures
        match compute_merkle_root_spec(*interval, *reader) {
            Ok(root) => r matches Ok(x) && x@ == root,
            Err(e) => r == Err::<Bytes32, ComputeMerkleRootError>(e),
        },
{
    if !is_valid_interval(interval) {
        return Err(ComputeMerkleRootError::InvalidInterval);
    }
    let leaves = match reader.get_message_hashes(interval) {
        Some(l) => l,
        None => return Err(ComputeMerkleRootError::MissingMessageHashes),
    };
    let expected_num_leaves = interval.max - interval.min + 1;
    if leaves.len() as u64 != expected_num_leaves {
        return Err(
            ComputeMerkleRootError::WrongNumberOfMessages {
                expected: expected_num_leaves,
                got: leaves.len() as u64,
            },
        );
    }
    match root_from_hashed_leafs(leaves.as_slice()) {
        Some(root) => Ok(root),
        None => Err(ComputeMerkleRootError::NoLeaves),
    }
}

/// Whether the root of `ri` is the Merkle root of the messages of its interval.
pub fn verify_root_with_interval<R: OnRampReader>(ri: &RootWithInterval, reader: &R) -> (r: Result<
    bool,
    ComputeMerkleRootError,
>)
    requires
        ri.interval.max - ri.interval.min < u64::MAX,
    ensures
        match compute_merkle_root_spec(ri.interval, *reader) {
            Ok(root) => r == Ok::<bool, ComputeMerkleRootError>(ri.root@ == root),
            Err(e) => r == Err::<bool, ComputeMerkleRootError>(e),
        },
{
    match compute_merkle_root(&ri.interval, reader) {
        Ok(root) => Ok(ri.root == root),
        Err(e) => Err(e),
    }
}

} // verus!
