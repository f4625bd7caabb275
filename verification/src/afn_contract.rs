use vstd::prelude::*;
use crate::abi_decode::{
    abi_decode_as, decode_to_value, into_tuple_fields, values_of, AbiDecode, AbiDecodeError,
    AbiTypeToDecode,
};
use crate::abi_encode::{
    abi_encode_spec, enc, is_word_value, lemma_word_tuple_len, lemma_word_value_len, tuple_enc,
    AbiEncode,
};
use crate::abi_types::{
    lemma_types_view_index, lemma_values_view_index, types_view, values_view, Type, TypeV, Value,
    ValueV,
};
use crate::bytes::{Address, Bytes32, SizedBytes};
use crate::common::{
    ContractCall, LogDecodeError, LogSignature, UncheckedDecodeLog,
};
use crate::keccak::{keccak256, keccak256_spec};
use crate::rpc::EVMLog;

verus! {

broadcast use vstd::array::group_array_axioms;

/// A voter of the RMN contract with its addresses and weights.
#[derive(Debug, Clone, Copy)]
pub struct Voter {
    pub bless_vote_addr: Address,
    pub curse_vote_addr: Address,
    pub curse_unvote_addr: Address,
    pub bless_weight: u8,
    pub curse_weight: u8,
}

/// The voters and thresholds configured on chain.
#[derive(Debug, Clone)]
pub struct OnchainConfig {
    pub voters: Vec<Voter>,
    pub bless_weight_threshold: u16,
    pub curse_weight_threshold: u16,
}

/// An on-chain configuration with its version and the block it was set in.
#[derive(Debug, Clone)]
pub struct VersionedOnchainConfig {
    pub version: u32,
    pub block_number: u32,
    pub config: OnchainConfig,
}

/// A Merkle root tagged with the commit store that holds it.
#[derive(Debug, Clone, Copy)]
pub struct TaggedRoot {
    pub commit_store: Address,
    pub root: Bytes32,
}

/// The progress of blessing a tagged root.
#[derive(Debug, Clone)]
pub struct BlessProgress {
    pub bless_vote_addrs: Vec<Address>,
    pub accumulated_weight: u16,
    pub blessed: bool,
}

impl AbiTypeToDecode for Voter {
    open spec fn spec_abi_type() -> TypeV {
        TypeV::Tuple(seq![<Address as AbiTypeToDecode>::spec_abi_type(), <Address as AbiTypeToDecode>::spec_abi_type(), <Address as AbiTypeToDecode>::spec_abi_type(), <u8 as AbiTypeToDecode>::spec_abi_type(), <u8 as AbiTypeToDecode>::spec_abi_type()])
    }

    fn abi_type_to_decode() -> (t: Type) {
        let mut ts: Vec<Type> = Vec::new();
        ts.push(<Address as AbiTypeToDecode>::abi_type_to_decode());
        ts.push(<Address as AbiTypeToDecode>::abi_type_to_decode());
        ts.push(<Address as AbiTypeToDecode>::abi_type_to_decode());
        ts.push(<u8 as AbiTypeToDecode>::abi_type_to_decode());
        ts.push(<u8 as AbiTypeToDecode>::abi_type_to_decode());
        proof {
            lemma_types_view_index(ts@, 0); lemma_types_view_index(ts@, 1); lemma_types_view_index(ts@, 2); lemma_types_view_index(ts@, 3); lemma_types_view_index(ts@, 4);
            assert(types_view(ts@) =~= seq![<Address as AbiTypeToDecode>::spec_abi_type(), <Address as AbiTypeToDecode>::spec_abi_type(), <Address as AbiTypeToDecode>::spec_abi_type(), <u8 as AbiTypeToDecode>::spec_abi_type(), <u8 as AbiTypeToDecode>::spec_abi_type()]);
        }
        Type::Tuple(ts)
    }
}

impl AbiDecode for Voter {
    open spec fn spec_value(&self) -> ValueV {
        ValueV::Tuple(seq![self.bless_vote_addr.spec_value(), self.curse_vote_addr.spec_value(), self.curse_unvote_addr.spec_value(), self.bless_weight.spec_value(), self.curse_weight.spec_value()])
    }

    open spec fn spec_decodable(v: ValueV) -> bool {
        v is Tuple && v->Tuple_0.len() == 5
            && <Address as AbiDecode>::spec_decodable(v->Tuple_0[0])
            && <Address as AbiDecode>::spec_decodable(v->Tuple_0[1])
            && <Address as AbiDecode>::spec_decodable(v->Tuple_0[2])
            && <u8 as AbiDecode>::spec_decodable(v->Tuple_0[3])
            && <u8 as AbiDecode>::spec_decodable(v->Tuple_0[4])
    }

    fn try_from_value(v: Value) -> (r: Result<Self, AbiDecodeError>) {
        let mut fs = match into_tuple_fields(v, 5) {
            Some(fs) => fs,
            None => return Err(AbiDecodeError::InvalidValueError),
        };
        let ghost orig = fs@;
        proof {
            lemma_values_view_index(orig, 0); lemma_values_view_index(orig, 1); lemma_values_view_index(orig, 2); lemma_values_view_index(orig, 3); lemma_values_view_index(orig, 4);
        }
        let f4 = fs.pop().unwrap();
        let f3 = fs.pop().unwrap();
        let f2 = fs.pop().unwrap();
        let f1 = fs.pop().unwrap();
        let f0 = fs.pop().unwrap();
        assert(f0 == orig[0] && f1 == orig[1] && f2 == orig[2] && f3 == orig[3] && f4 == orig[4]);
        let x0 = match <Address as AbiDecode>::try_from_value(f0) {
            Ok(x) => x,
            Err(e) => return Err(e),
        };
        let x1 = match <Address as AbiDecode>::try_from_value(f1) {
            Ok(x) => x,
            Err(e) => return Err(e),
        };
        let x2 = match <Address as AbiDecode>::try_from_value(f2) {
            Ok(x) => x,
            Err(e) => return Err(e),
        };
        let x3 = match <u8 as AbiDecode>::try_from_value(f3) {
            Ok(x) => x,
            Err(e) => return Err(e),
        };
        let x4 = match <u8 as AbiDecode>::try_from_value(f4) {
            Ok(x) => x,
            Err(e) => return Err(e),
        };
        proof {
            assert(seq![x0.spec_value(), x1.spec_value(), x2.spec_value(), x3.spec_value(), x4.spec_value()] =~= values_view(orig));
        }
        Ok(Voter { bless_vote_addr: x0, curse_vote_addr: x1, curse_unvote_addr: x2, bless_weight: x3, curse_weight: x4 })
    }
}

impl AbiTypeToDecode for OnchainConfig {
    open spec fn spec_abi_type() -> TypeV {
        TypeV::Tuple(seq![<Vec<Voter> as AbiTypeToDecode>::spec_abi_type(), <u16 as AbiTypeToDecode>::spec_abi_type(), <u16 as AbiTypeToDecode>::spec_abi_type()])
    }

    fn abi_type_to_decode() -> (t: Type) {
        let mut ts: Vec<Type> = Vec::new();
        ts.push(<Vec<Voter> as AbiTypeToDecode>::abi_type_to_decode());
        ts.push(<u16 as AbiTypeToDecode>::abi_type_to_decode());
        ts.push(<u16 as AbiTypeToDecode>::abi_type_to_decode());
        proof {
            lemma_types_view_index(ts@, 0); lemma_types_view_index(ts@, 1); lemma_types_view_index(ts@, 2);
            assert(types_view(ts@) =~= seq![<Vec<Voter> as AbiTypeToDecode>::spec_abi_type(), <u16 as AbiTypeToDecode>::spec_abi_type(), <u16 as AbiTypeToDecode>::spec_abi_type()]);
        }
        Type::Tuple(ts)
    }
}

impl AbiDecode for OnchainConfig {
    open spec fn spec_value(&self) -> ValueV {
        ValueV::Tuple(seq![self.voters.spec_value(), self.bless_weight_threshold.spec_value(), self.curse_weight_threshold.spec_value()])
    }

    open spec fn spec_decodable(v: ValueV) -> bool {
        v is Tuple && v->Tuple_0.len() == 3
            && <Vec<Voter> as AbiDecode>::spec_decodable(v->Tuple_0[0])
            && <u16 as AbiDecode>::spec_decodable(v->Tuple_0[1])
            && <u16 as AbiDecode>::spec_decodable(v->Tuple_0[2])
    }

    fn try_from_value(v: Value) -> (r: Result<Self, AbiDecodeError>) {
        let mut fs = match into_tuple_fields(v, 3) {
            Some(fs) => fs,
            None => return Err(AbiDecodeError::InvalidValueError),
        };
        let ghost orig = fs@;
        proof {
            lemma_values_view_index(orig, 0); lemma_values_view_index(orig, 1); lemma_values_view_index(orig, 2);
        }
        let f2 = fs.pop().unwrap();
        let f1 = fs.pop().unwrap();
        let f0 = fs.pop().unwrap();
        assert(f0 == orig[0] && f1 == orig[1] && f2 == orig[2]);
        let x0 = match <Vec<Voter> as AbiDecode>::try_from_value(f0) {
            Ok(x) => x,
            Err(e) => return Err(e),
        };
        let x1 = match <u16 as AbiDecode>::try_from_value(f1) {
            Ok(x) => x,
            Err(e) => return Err(e),
        };
        let x2 = match <u16 as AbiDecode>::try_from_value(f2) {
            Ok(x) => x,
            Err(e) => return Err(e),
        };
        proof {
            assert(seq![x0.spec_value(), x1.spec_value(), x2.spec_value()] =~= values_view(orig));
        }
        Ok(OnchainConfig { voters: x0, bless_weight_threshold: x1, curse_weight_threshold: x2 })
    }
}

impl AbiTypeToDecode for VersionedOnchainConfig {
    open spec fn spec_abi_type() -> TypeV {
        TypeV::Tuple(seq![<u32 as AbiTypeToDecode>::spec_abi_type(), <u32 as AbiTypeToDecode>::spec_abi_type(), <OnchainConfig as AbiTypeToDecode>::spec_abi_type()])
    }

    fn abi_type_to_decode() -> (t: Type) {
        let mut ts: Vec<Type> = Vec::new();
        ts.push(<u32 as AbiTypeToDecode>::abi_type_to_decode());
        ts.push(<u32 as AbiTypeToDecode>::abi_type_to_decode());
        ts.push(<OnchainConfig as AbiTypeToDecode>::abi_type_to_decode());
        proof {
            lemma_types_view_index(ts@, 0); lemma_types_view_index(ts@, 1); lemma_types_view_index(ts@, 2);
            assert(types_view(ts@) =~= seq![<u32 as AbiTypeToDecode>::spec_abi_type(), <u32 as AbiTypeToDecode>::spec_abi_type(), <OnchainConfig as AbiTypeToDecode>::spec_abi_type()]);
        }
        Type::Tuple(ts)
    }
}

impl AbiDecode for VersionedOnchainConfig {
    open spec fn spec_value(&self) -> ValueV {
        ValueV::Tuple(seq![self.version.spec_value(), self.block_number.spec_value(), self.config.spec_value()])
    }

    open spec fn spec_decodable(v: ValueV) -> bool {
        v is Tuple && v->Tuple_0.len() == 3
            && <u32 as AbiDecode>::spec_decodable(v->Tuple_0[0])
            && <u32 as AbiDecode>::spec_decodable(v->Tuple_0[1])
            && <OnchainConfig as AbiDecode>::spec_decodable(v->Tuple_0[2])
    }

    fn try_from_value(v: Value) -> (r: Result<Self, AbiDecodeError>) {
        let mut fs = match into_tuple_fields(v, 3) {
            Some(fs) => fs,
            None => return Err(AbiDecodeError::InvalidValueError),
        };
        let ghost orig = fs@;
        proof {
            lemma_values_view_index(orig, 0); lemma_values_view_index(orig, 1); lemma_values_view_index(orig, 2);
        }
        let f2 = fs.pop().unwrap();
        let f1 = fs.pop().unwrap();
        let f0 = fs.pop().unwrap();
        assert(f0 == orig[0] && f1 == orig[1] && f2 == orig[2]);
        let x0 = match <u32 as AbiDecode>::try_from_value(f0) {
            Ok(x) => x,
            Err(e) => return Err(e),
        };
        let x1 = match <u32 as AbiDecode>::try_from_value(f1) {
            Ok(x) => x,
            Err(e) => return Err(e),
        };
        let x2 = match <OnchainConfig as AbiDecode>::try_from_value(f2) {
            Ok(x) => x,
            Err(e) => return Err(e),
        };
        proof {
            assert(seq![x0.spec_value(), x1.spec_value(), x2.spec_value()] =~= values_view(orig));
        }
        Ok(VersionedOnchainConfig { version: x0, block_number: x1, config: x2 })
    }
}

impl AbiTypeToDecode for TaggedRoot {
    open spec fn spec_abi_type() -> TypeV {
        TypeV::Tuple(seq![<Address as AbiTypeToDecode>::spec_abi_type(), <Bytes32 as AbiTypeToDecode>::spec_abi_type()])
    }

    fn abi_type_to_decode() -> (t: Type) {
        let mut ts: Vec<Type> = Vec::new();
        ts.push(<Address as AbiTypeToDecode>::abi_type_to_decode());
        ts.push(<Bytes32 as AbiTypeToDecode>::abi_type_to_decode());
        proof {
            lemma_types_view_index(ts@, 0); lemma_types_view_index(ts@, 1);
            assert(types_view(ts@) =~= seq![<Address as AbiTypeToDecode>::spec_abi_type(), <Bytes32 as AbiTypeToDecode>::spec_abi_type()]);
        }
        Type::Tuple(ts)
    }
}

impl AbiDecode for TaggedRoot {
    open spec fn spec_value(&self) -> ValueV {
        ValueV::Tuple(seq![self.commit_store.spec_value(), self.root.spec_value()])
    }

    open spec fn spec_decodable(v: ValueV) -> bool {
        v is Tuple && v->Tuple_0.len() == 2
            && <Address as AbiDecode>::spec_decodable(v->Tuple_0[0])
            && <Bytes32 as AbiDecode>::spec_decodable(v->Tuple_0[1])
    }

    fn try_from_value(v: Value) -> (r: Result<Self, AbiDecodeError>) {
        let mut fs = match into_tuple_fields(v, 2) {
            Some(fs) => fs,
            None => return Err(AbiDecodeError::InvalidValueError),
        };
        let ghost orig = fs@;
        proof {
            lemma_values_view_index(orig, 0); lemma_values_view_index(orig, 1);
        }
        let f1 = fs.pop().unwrap();
        let f0 = fs.pop().unwrap();
        assert(f0 == orig[0] && f1 == orig[1]);
        let x0 = match <Address as AbiDecode>::try_from_value(f0) {
            Ok(x) => x,
            Err(e) => return Err(e),
        };
        let x1 = match <Bytes32 as AbiDecode>::try_from_value(f1) {
            Ok(x) => x,
            Err(e) => return Err(e),
        };
        proof {
            assert(seq![x0.spec_value(), x1.spec_value()] =~= values_view(orig));
        }
        Ok(TaggedRoot { commit_store: x0, root: x1 })
    }
}

/// What reading the config version (topic 1) and the voter (topic 2) of a log gives.
pub open spec fn indexed_config_version_and_voter_spec(topics: Seq<Bytes32>) -> Result<
    (ValueV, ValueV),
    LogDecodeError,
> {
    if topics.len() < 2 {
        Err(LogDecodeError::MissingTopic { index: 1 })
    } else {
        match decode_to_value::<u32>(topics[1]@) {
            Err(e) => Err(LogDecodeError::Abi(e)),
            Ok(cv) => if topics.len() < 3 {
                Err(LogDecodeError::MissingTopic { index: 2 })
            } else {
                match decode_to_value::<Address>(topics[2]@) {
                    Err(e) => Err(LogDecodeError::Abi(e)),
                    Ok(voter) => Ok((cv, voter)),
                }
            },
        }
    }
}

/// Reads the config version from topic 1 and the voter from topic 2.
pub fn parse_indexed_config_version_voter_and_root_as_tuple(
    log_signature: &str,
    topics: &[Bytes32],
) -> (r: Result<(u32, Address), LogDecodeError>)
    ensures
        match indexed_config_version_and_voter_spec(topics@) {
            Err(e) => r == Err::<(u32, Address), LogDecodeError>(e),
            Ok((cv, voter)) => r matches Ok((c, v)) && ValueV::U32(c) == cv && ValueV::Address(v@)
                == voter,
        },
{
    if topics.len() < 2 {
        return Err(LogDecodeError::MissingTopic { index: 1 });
    }
    let config_version = match abi_decode_as::<u32>(topics[1].as_slice()) {
        Ok(x) => x,
        Err(e) => return Err(LogDecodeError::Abi(e)),
    };
    if topics.len() < 3 {
        return Err(LogDecodeError::MissingTopic { index: 2 });
    }
    let voter = match abi_decode_as::<Address>(topics[2].as_slice()) {
        Ok(x) => x,
        Err(e) => return Err(LogDecodeError::Abi(e)),
    };
    Ok((config_version, voter))
}

/// The `TaggedRootBlessed` event of the RMN contract.
#[derive(Debug, Clone, Copy)]
pub struct TaggedRootBlessedEvent {
    pub config_version: u32,
    pub tagged_root: TaggedRoot,
    pub accumulated_weight: u16,
}

impl LogSignature for TaggedRootBlessedEvent {
    open spec fn spec_log_signature() -> Seq<char> {
        "TaggedRootBlessed(uint32,(address,bytes32),uint16)"@
    }

    fn log_signature() -> (r: &'static str) {
        "TaggedRootBlessed(uint32,(address,bytes32),uint16)"
    }
}

impl UncheckedDecodeLog for TaggedRootBlessedEvent {
    open spec fn spec_event_value(&self) -> ValueV {
        ValueV::Tuple(seq![ValueV::U32(self.config_version), self.tagged_root.spec_value(), ValueV::U16(self.accumulated_weight)])
    }

    open spec fn spec_decode_log(log: EVMLog) -> Result<ValueV, LogDecodeError> {
        if log.topics@.len() < 2 {
            Err(LogDecodeError::MissingTopic { index: 1 })
        } else {
            match decode_to_value::<u32>(log.topics@[1]@) {
                Err(e) => Err(LogDecodeError::Abi(e)),
                Ok(cv) => match decode_to_value::<(TaggedRoot, u16)>(log.data@) {
                    Err(e) => Err(LogDecodeError::Abi(e)),
                    Ok(d) => Ok(ValueV::Tuple(seq![cv, d->Tuple_0[0], d->Tuple_0[1]])),
                }
            }
        }
    }

    fn unchecked_decode_log(log: EVMLog) -> (r: Result<Self, LogDecodeError>) {
        if log.topics.len() < 2 {
            return Err(LogDecodeError::MissingTopic { index: 1 });
        }
        let config_version = match abi_decode_as::<u32>(log.topics[1].as_slice()) {
            Ok(x) => x,
            Err(e) => return Err(LogDecodeError::Abi(e)),
        };
        let (tagged_root, x1) = match abi_decode_as::<(TaggedRoot, u16)>(log.data.as_slice()) {
            Ok(x) => x,
            Err(e) => return Err(LogDecodeError::Abi(e)),
        };
        Ok(TaggedRootBlessedEvent { config_version, tagged_root, accumulated_weight: x1 })
    }
}

/// The `TaggedRootBlessVotesReset` event of the RMN contract.
#[derive(Debug, Clone, Copy)]
pub struct TaggedRootBlessVotesResetEvent {
    pub config_version: u32,
    pub tagged_root: TaggedRoot,
    pub was_blessed: bool,
}

impl LogSignature for TaggedRootBlessVotesResetEvent {
    open spec fn spec_log_signature() -> Seq<char> {
        "TaggedRootBlessVotesReset(uint32,(address,bytes32),bool)"@
    }

    fn log_signature() -> (r: &'static str) {
        "TaggedRootBlessVotesReset(uint32,(address,bytes32),bool)"
    }
}

impl UncheckedDecodeLog for TaggedRootBlessVotesResetEvent {
    open spec fn spec_event_value(&self) -> ValueV {
        ValueV::Tuple(seq![ValueV::U32(self.config_version), self.tagged_root.spec_value(), ValueV::Bool(self.was_blessed)])
    }

    open spec fn spec_decode_log(log: EVMLog) -> Result<ValueV, LogDecodeError> {
        if log.topics@.len() < 2 {
            Err(LogDecodeError::MissingTopic { index: 1 })
        } else {
            match decode_to_value::<u32>(log.topics@[1]@) {
                Err(e) => Err(LogDecodeError::Abi(e)),
                Ok(cv) => match decode_to_value::<(TaggedRoot, bool)>(log.data@) {
                    Err(e) => Err(LogDecodeError::Abi(e)),
                    Ok(d) => Ok(ValueV::Tuple(seq![cv, d->Tuple_0[0], d->Tuple_0[1]])),
                }
            }
        }
    }

    fn unchecked_decode_log(log: EVMLog) -> (r: Result<Self, LogDecodeError>) {
        if log.topics.len() < 2 {
            return Err(LogDecodeError::MissingTopic { index: 1 });
        }
        let config_version = match abi_decode_as::<u32>(log.topics[1].as_slice()) {
            Ok(x) => x,
            Err(e) => return Err(LogDecodeError::Abi(e)),
        };
        let (tagged_root, x1) = match abi_decode_as::<(TaggedRoot, bool)>(log.data.as_slice()) {
            Ok(x) => x,
            Err(e) => return Err(LogDecodeError::Abi(e)),
        };
        Ok(TaggedRootBlessVotesResetEvent { config_version, tagged_root, was_blessed: x1 })
    }
}

/// The `VotedToBless` event of the RMN contract.
#[derive(Debug, Clone, Copy)]
pub struct VotedToBlessEvent {
    pub config_version: u32,
    pub voter: Address,
    pub tagged_root: TaggedRoot,
    pub weight: u8,
}

impl LogSignature for VotedToBlessEvent {
    open spec fn spec_log_signature() -> Seq<char> {
        "VotedToBless(uint32,address,(address,bytes32),uint8)"@
    }

    fn log_signature() -> (r: &'static str) {
        "VotedToBless(uint32,address,(address,bytes32),uint8)"
    }
}

impl UncheckedDecodeLog for VotedToBlessEvent {
    open spec fn spec_event_value(&self) -> ValueV {
        ValueV::Tuple(seq![ValueV::U32(self.config_version), ValueV::Address(self.voter@), self.tagged_root.spec_value(), ValueV::U8(self.weight)])
    }

    open spec fn spec_decode_log(log: EVMLog) -> Result<ValueV, LogDecodeError> {
        match indexed_config_version_and_voter_spec(log.topics@) {
            Err(e) => Err(e),
            Ok((cv, voter)) => match decode_to_value::<(TaggedRoot, u8)>(log.data@) {
                    Err(e) => Err(LogDecodeError::Abi(e)),
                    Ok(d) => Ok(ValueV::Tuple(seq![cv, voter, d->Tuple_0[0], d->Tuple_0[1]])),
                }
        }
    }

    fn unchecked_decode_log(log: EVMLog) -> (r: Result<Self, LogDecodeError>) {
        let (config_version, voter) = match parse_indexed_config_version_voter_and_root_as_tuple(
            Self::log_signature(),
            log.topics.as_slice(),
        ) {
            Ok(x) => x,
            Err(e) => return Err(e),
        };
        let (tagged_root, x1) = match abi_decode_as::<(TaggedRoot, u8)>(log.data.as_slice()) {
            Ok(x) => x,
            Err(e) => return Err(LogDecodeError::Abi(e)),
        };
        Ok(VotedToBlessEvent { config_version, voter, tagged_root, weight: x1 })
    }
}

/// The `AlreadyVotedToBless` event of the RMN contract.
#[derive(Debug, Clone, Copy)]
pub struct AlreadyVotedToBlessEvent {
    pub config_version: u32,
    pub voter: Address,
    pub tagged_root: TaggedRoot,
}

impl LogSignature for AlreadyVotedToBlessEvent {
    open spec fn spec_log_signature() -> Seq<char> {
        "AlreadyVotedToBless(uint32,address,(address,bytes32))"@
    }

    fn log_signature() -> (r: &'static str) {
        "AlreadyVotedToBless(uint32,address,(address,bytes32))"
    }
}

impl UncheckedDecodeLog for AlreadyVotedToBlessEvent {
    open spec fn spec_event_value(&self) -> ValueV {
        ValueV::Tuple(seq![ValueV::U32(self.config_version), ValueV::Address(self.voter@), self.tagged_root.spec_value()])
    }

    open spec fn spec_decode_log(log: EVMLog) -> Result<ValueV, LogDecodeError> {
        match indexed_config_version_and_voter_spec(log.topics@) {
            Err(e) => Err(e),
            Ok((cv, voter)) => match decode_to_value::<TaggedRoot>(log.data@) {
                    Err(e) => Err(LogDecodeError::Abi(e)),
                    Ok(d) => Ok(ValueV::Tuple(seq![cv, voter, d])),
                }
        }
    }

    fn unchecked_decode_log(log: EVMLog) -> (r: Result<Self, LogDecodeError>) {
        let (config_version, voter) = match parse_indexed_config_version_voter_and_root_as_tuple(
            Self::log_signature(),
            log.topics.as_slice(),
        ) {
            Ok(x) => x,
            Err(e) => return Err(e),
        };
        let tagged_root = match abi_decode_as::<TaggedRoot>(log.data.as_slice()) {
            Ok(x) => x,
            Err(e) => return Err(LogDecodeError::Abi(e)),
        };
        Ok(AlreadyVotedToBlessEvent { config_version, voter, tagged_root })
    }
}

/// The `AlreadyBlessed` event of the RMN contract.
#[derive(Debug, Clone, Copy)]
pub struct AlreadyBlessedEvent {
    pub config_version: u32,
    pub voter: Address,
    pub tagged_root: TaggedRoot,
}

impl LogSignature for AlreadyBlessedEvent {
    open spec fn spec_log_signature() -> Seq<char> {
        "AlreadyBlessed(uint32,address,(address,bytes32))"@
    }

    fn log_signature() -> (r: &'static str) {
        "AlreadyBlessed(uint32,address,(address,bytes32))"
    }
}

impl UncheckedDecodeLog for AlreadyBlessedEvent {
    open spec fn spec_event_value(&self) -> ValueV {
        ValueV::Tuple(seq![ValueV::U32(self.config_version), ValueV::Address(self.voter@), self.tagged_root.spec_value()])
    }

    open spec fn spec_decode_log(log: EVMLog) -> Result<ValueV, LogDecodeError> {
        match indexed_config_version_and_voter_spec(log.topics@) {
            Err(e) => Err(e),
            Ok((cv, voter)) => match decode_to_value::<TaggedRoot>(log.data@) {
                    Err(e) => Err(LogDecodeError::Abi(e)),
                    Ok(d) => Ok(ValueV::Tuple(seq![cv, voter, d])),
                }
        }
    }

    fn unchecked_decode_log(log: EVMLog) -> (r: Result<Self, LogDecodeError>) {
        let (config_version, voter) = match parse_indexed_config_version_voter_and_root_as_tuple(
            Self::log_signature(),
            log.topics.as_slice(),
        ) {
            Ok(x) => x,
            Err(e) => return Err(e),
        };
        let tagged_root = match abi_decode_as::<TaggedRoot>(log.data.as_slice()) {
            Ok(x) => x,
            Err(e) => return Err(LogDecodeError::Abi(e)),
        };
        Ok(AlreadyBlessedEvent { config_version, voter, tagged_root })
    }
}

impl TaggedRoot {
    /// The ABI value of the tagged root: a tuple of its address and root.
    pub fn to_value(&self) -> (r: Value)
        ensures
            r@ == self.spec_value(),
    {
        let mut vs: Vec<Value> = Vec::new();
        vs.push(Value::Address(self.commit_store));
        vs.push(Value::Bytes32(self.root));
        proof {
            lemma_values_view_index(vs@, 0);
            lemma_values_view_index(vs@, 1);
            assert(values_view(vs@) =~= seq![ValueV::Address(self.commit_store@), ValueV::Bytes32(self.root@)]);
        }
        Value::Tuple(vs)
    }

    /// The tagged root of zero bytes.
    pub fn default() -> (r: TaggedRoot)
        ensures
            r.commit_store@ == Seq::new(20, |i: int| 0u8),
            r.root@ == Seq::new(32, |i: int| 0u8),
    {
        TaggedRoot { commit_store: SizedBytes::zero(), root: SizedBytes::zero() }
    }

    /// The Keccak-256 hash of the ABI encoding of the tagged root.
    pub fn tagged_root_hash(self) -> (r: Bytes32)
        ensures
            r@ == keccak256_spec(abi_encode_spec(self.spec_value())),
    {
        proof {
            lemma_tagged_root_encodable(self);
        }
        let enc = self.to_value().abi_encode();
        SizedBytes(keccak256(enc.as_slice()))
    }
}

proof fn lemma_tagged_root_encodable(t: TaggedRoot)
    ensures
        abi_encode_spec(t.spec_value()).len() == 64,
{
    let vs = seq![ValueV::Address(t.commit_store@), ValueV::Bytes32(t.root@)];
    assert(is_word_value(vs[0]));
    assert(is_word_value(vs[1]));
    lemma_word_tuple_len(vs);
}

/// The value models of tagged roots.
pub open spec fn tagged_roots_values(ts: Seq<TaggedRoot>) -> Seq<ValueV> {
    Seq::new(ts.len(), |i: int| ts[i].spec_value())
}

/// A call of `voteToBless` for a batch of tagged roots.
pub struct VoteToBlessCall {
    pub tagged_roots: Vec<TaggedRoot>,
}

impl ContractCall for VoteToBlessCall {
    open spec fn spec_call_signature() -> Seq<char> {
        "voteToBless((address,bytes32)[])"@
    }

    open spec fn spec_call_parameters(&self) -> ValueV {
        ValueV::DynamicArray(tagged_roots_values(self.tagged_roots@))
    }

    fn contract_call_signature() -> (r: &'static str) {
        "voteToBless((address,bytes32)[])"
    }

    fn contract_call_parameters(self) -> (r: Value) {
        let mut vs: Vec<Value> = Vec::new();
        let mut i: usize = 0;
        while i < self.tagged_roots.len()
            invariant
                i <= self.tagged_roots@.len(),
                vs@.len() == i,
                forall|j: int| 0 <= j < i ==> (#[trigger] vs@[j])@ == self.tagged_roots@[j].spec_value(),
            decreases self.tagged_roots@.len() - i,
        {
            vs.push(self.tagged_roots[i].to_value());
            i = i + 1;
        }
        proof {
            crate::abi_types::lemma_values_view_len(vs@);
            assert forall|j: int| 0 <= j < vs@.len() implies values_view(vs@)[j] == tagged_roots_values(self.tagged_roots@)[j] by {
                lemma_values_view_index(vs@, j);
            }
            assert(values_view(vs@) =~= tagged_roots_values(self.tagged_roots@));
        }
        Value::DynamicArray(vs)
    }
}

/// A call of `voteToCurse` with a curse id.
pub struct VoteToCurseCall {
    pub curse_id: Bytes32,
}

impl ContractCall for VoteToCurseCall {
    open spec fn spec_call_signature() -> Seq<char> {
        "voteToCurse(bytes32)"@
    }

    open spec fn spec_call_parameters(&self) -> ValueV {
        ValueV::Tuple(seq![ValueV::Bytes32(self.curse_id@)])
    }

    fn contract_call_signature() -> (r: &'static str) {
        "voteToCurse(bytes32)"
    }

    fn contract_call_parameters(self) -> (r: Value) {
        let mut vs: Vec<Value> = Vec::new();
        vs.push(Value::Bytes32(self.curse_id));
        proof {
            lemma_values_view_index(vs@, 0);
            assert(values_view(vs@) =~= seq![ValueV::Bytes32(self.curse_id@)]);
        }
        Value::Tuple(vs)
    }
}

/// A call of `getConfigDetails`.
pub struct GetConfigDetailsCall;

impl ContractCall for GetConfigDetailsCall {
    open spec fn spec_call_signature() -> Seq<char> {
        "getConfigDetails()"@
    }

    open spec fn spec_call_parameters(&self) -> ValueV {
        ValueV::Tuple(Seq::empty())
    }

    fn contract_call_signature() -> (r: &'static str) {
        "getConfigDetails()"
    }

    fn contract_call_parameters(self) -> (r: Value) {
        let vs: Vec<Value> = Vec::new();
        assert(values_view(vs@) =~= Seq::<ValueV>::empty());
        Value::Tuple(vs)
    }
}

/// A call of `isCursed`.
pub struct IsCursedCall;

impl ContractCall for IsCursedCall {
    open spec fn spec_call_signature() -> Seq<char> {
        "isCursed()"@
    }

    open spec fn spec_call_parameters(&self) -> ValueV {
        ValueV::Tuple(Seq::empty())
    }

    fn contract_call_signature() -> (r: &'static str) {
        "isCursed()"
    }

    fn contract_call_parameters(self) -> (r: Value) {
        let vs: Vec<Value> = Vec::new();
        assert(values_view(vs@) =~= Seq::<ValueV>::empty());
        Value::Tuple(vs)
    }
}

} // verus!
