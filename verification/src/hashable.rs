use vstd::prelude::*;
use vstd::utf8::encode_utf8;
use vstd::string::StringSliceAdditionalSpecFns;
use crate::abi_encode::{
    abi_encode_spec, is_word_value, lemma_word_tuple_len, lemma_word_value_len, AbiEncode,
};
use crate::abi_types::{lemma_values_view_index, values_view, Value, ValueV};
use crate::bytes::{Address, Bytes32, SizedBytes};
use crate::chain_selector::ChainSelector;
use crate::keccak::{keccak256, keccak256_spec};

verus! {

/// What identifies the lane of a message: its on-ramp and its two chains.
#[derive(Debug, Clone, Copy)]
pub struct MessageMetadata {
    pub onramp_address: Address,
    pub source_chain_selector: ChainSelector,
    pub dest_chain_selector: ChainSelector,
}

/// The ABI value that the metadata hash is taken of: the hash of the message
/// type, the two chain selectors and the on-ramp address.
pub open spec fn metadata_value(message_type: Seq<char>, m: MessageMetadata) -> ValueV {
    ValueV::Tuple(
        seq![
            ValueV::Bytes32(keccak256_spec(encode_utf8(message_type))),
            ValueV::U64(m.source_chain_selector),
            ValueV::U64(m.dest_chain_selector),
            ValueV::Address(m.onramp_address@),
        ],
    )
}

/// The metadata hash of a message type on a lane.
pub open spec fn metadata_hash_spec(message_type: Seq<char>, m: MessageMetadata) -> Seq<u8> {
    keccak256_spec(abi_encode_spec(metadata_value(message_type, m)))
}

/// The Keccak-256 hash of the ABI encoding of the hashed message type, the
/// source and destination chain selectors, and the on-ramp address.
pub fn metadata_hash(message_type: &str, metadata: &MessageMetadata) -> (r: Bytes32)
    ensures
        r@ == metadata_hash_spec(message_type@, *metadata),
{
    let type_hash = keccak256(message_type.as_bytes());
    let mut fs: Vec<Value> = Vec::new();
    fs.push(Value::Bytes32(SizedBytes(type_hash)));
    fs.push(Value::U64(metadata.source_chain_selector));
    fs.push(Value::U64(metadata.dest_chain_selector));
    fs.push(Value::Address(metadata.onramp_address));
    let ghost ws = metadata_value(message_type@, *metadata)->Tuple_0;
    proof {
        lemma_values_view_index(fs@, 0);
        lemma_values_view_index(fs@, 1);
        lemma_values_view_index(fs@, 2);
        lemma_values_view_index(fs@, 3);
        assert(values_view(fs@) =~= ws);
        lemma_word_value_len(metadata.source_chain_selector as nat);
        lemma_word_value_len(metadata.dest_chain_selector as nat);
        assert(is_word_value(ws[0]));
        assert(is_word_value(ws[1]));
        assert(is_word_value(ws[2]));
        assert(is_word_value(ws[3]));
        lemma_word_tuple_len(ws);
    }
    let encoded = Value::Tuple(fs).abi_encode();
    SizedBytes(keccak256(encoded.as_slice()))
}

/// A message whose hash identifies it on its lane.
pub trait Hashable {
    /// The hash of the message on the lane of `metadata`.
    spec fn spec_hash(&self, metadata: MessageMetadata) -> Seq<u8>;

    /// Whether the encodings that the hash is taken of fit in memory.
    spec fn hashable(&self) -> bool;

    /// Whether the encodings that the hash is taken of fit in memory.
    fn is_hashable(&self) -> (r: bool)
        ensures
            r == self.hashable(),
    ;

    /// The hash of the message on the lane of `metadata`.
    fn hash(&self, metadata: &MessageMetadata) -> (r: Bytes32)
        requires
            self.hashable(),
        ensures
            r@ == self.spec_hash(*metadata),
    ;
}

} // verus!
