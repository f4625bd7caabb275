use vstd::prelude::*;
use crate::abi_decode::{
    abi_decode_as, decode_to_value, into_tuple_fields, values_of, AbiDecode, AbiDecodeError,
    AbiTypeToDecode,
};
use crate::abi_encode::{
    abi_encode_spec, encs_concat, is_word_value, lemma_encs_concat_push, lemma_static_tuple_enc,
    lemma_word_tuple_len, lemma_word_value_len, zeros, AbiEncode,
};
use crate::abi_types::{
    lemma_types_view_index, lemma_values_view_index, types_view, value_is_static, values_view,
    Type, TypeV, Value, ValueV,
};
use crate::bytes::{Address, Bytes, Bytes32, SizedBytes};
use crate::chain_selector::ChainSelector;
use crate::common::{LogDecodeError, LogSignature, UncheckedDecodeLog};
use crate::evm_common_types::{bytes_list_value, token_amounts_value, EVMTokenAmount};
use crate::hashable::{metadata_hash, metadata_hash_spec, Hashable, MessageMetadata};
use crate::keccak::{keccak256, keccak256_spec};
use crate::merkle::{leaf_domain_separator, leaf_domain_separator_spec};
use crate::rpc::EVMLog;
use crate::u256::{word, U256};

verus! {

/// A cross-chain message as the 1.2 on-ramp emits it.
#[derive(Clone, Debug)]
pub struct Evm2EvmMessageV1_2 {
    pub source_chain_selector: ChainSelector,
    pub sender: Address,
    pub receiver: Address,
    pub sequence_number: u64,
    pub gas_limit: U256,
    pub strict: bool,
    pub nonce: u64,
    pub fee_token: Address,
    pub fee_token_amount: U256,
    pub data: Bytes,
    pub token_amounts: Vec<EVMTokenAmount>,
    pub source_token_data: Vec<Bytes>,
    pub message_id: Bytes32,
}

impl AbiTypeToDecode for Evm2EvmMessageV1_2 {
    open spec fn spec_abi_type() -> TypeV {
        TypeV::Tuple(seq![<u64 as AbiTypeToDecode>::spec_abi_type(), <Address as AbiTypeToDecode>::spec_abi_type(), <Address as AbiTypeToDecode>::spec_abi_type(), <u64 as AbiTypeToDecode>::spec_abi_type(), <U256 as AbiTypeToDecode>::spec_abi_type(), <bool as AbiTypeToDecode>::spec_abi_type(), <u64 as AbiTypeToDecode>::spec_abi_type(), <Address as AbiTypeToDecode>::spec_abi_type(), <U256 as AbiTypeToDecode>::spec_abi_type(), <Bytes as AbiTypeToDecode>::spec_abi_type(), <Vec<EVMTokenAmount> as AbiTypeToDecode>::spec_abi_type(), <Vec<Bytes> as AbiTypeToDecode>::spec_abi_type(), <Bytes32 as AbiTypeToDecode>::spec_abi_type()])
    }

    fn abi_type_to_decode() -> (t: Type) {
        let mut ts: Vec<Type> = Vec::new();
        ts.push(<u64 as AbiTypeToDecode>::abi_type_to_decode());
        ts.push(<Address as AbiTypeToDecode>::abi_type_to_decode());
        ts.push(<Address as AbiTypeToDecode>::abi_type_to_decode());
        ts.push(<u64 as AbiTypeToDecode>::abi_type_to_decode());
        ts.push(<U256 as AbiTypeToDecode>::abi_type_to_decode());
        ts.push(<bool as AbiTypeToDecode>::abi_type_to_decode());
        ts.push(<u64 as AbiTypeToDecode>::abi_type_to_decode());
        ts.push(<Address as AbiTypeToDecode>::abi_type_to_decode());
        ts.push(<U256 as AbiTypeToDecode>::abi_type_to_decode());
        ts.push(<Bytes as AbiTypeToDecode>::abi_type_to_decode());
        ts.push(<Vec<EVMTokenAmount> as AbiTypeToDecode>::abi_type_to_decode());
        ts.push(<Vec<Bytes> as AbiTypeToDecode>::abi_type_to_decode());
        ts.push(<Bytes32 as AbiTypeToDecode>::abi_type_to_decode());
        proof {
            lemma_types_view_index(ts@, 0); lemma_types_view_index(ts@, 1); lemma_types_view_index(ts@, 2); lemma_types_view_index(ts@, 3); lemma_types_view_index(ts@, 4); lemma_types_view_index(ts@, 5); lemma_types_view_index(ts@, 6); lemma_types_view_index(ts@, 7); lemma_types_view_index(ts@, 8); lemma_types_view_index(ts@, 9); lemma_types_view_index(ts@, 10); lemma_types_view_index(ts@, 11); lemma_types_view_index(ts@, 12);
            assert(types_view(ts@) =~= seq![<u64 as AbiTypeToDecode>::spec_abi_type(), <Address as AbiTypeToDecode>::spec_abi_type(), <Address as AbiTypeToDecode>::spec_abi_type(), <u64 as AbiTypeToDecode>::spec_abi_type(), <U256 as AbiTypeToDecode>::spec_abi_type(), <bool as AbiTypeToDecode>::spec_abi_type(), <u64 as AbiTypeToDecode>::spec_abi_type(), <Address as AbiTypeToDecode>::spec_abi_type(), <U256 as AbiTypeToDecode>::spec_abi_type(), <Bytes as AbiTypeToDecode>::spec_abi_type(), <Vec<EVMTokenAmount> as AbiTypeToDecode>::spec_abi_type(), <Vec<Bytes> as AbiTypeToDecode>::spec_abi_type(), <Bytes32 as AbiTypeToDecode>::spec_abi_type()]);
        }
        Type::Tuple(ts)
    }
}

impl AbiDecode for Evm2EvmMessageV1_2 {
    open spec fn spec_value(&self) -> ValueV {
        ValueV::Tuple(seq![self.source_chain_selector.spec_value(), self.sender.spec_value(), self.receiver.spec_value(), self.sequence_number.spec_value(), self.gas_limit.spec_value(), self.strict.spec_value(), self.nonce.spec_value(), self.fee_token.spec_value(), self.fee_token_amount.spec_value(), self.data.spec_value(), self.token_amounts.spec_value(), self.source_token_data.spec_value(), self.message_id.spec_value()])
    }

    open spec fn spec_decodable(v: ValueV) -> bool {
        v is Tuple && v->Tuple_0.len() == 13
            && <u64 as AbiDecode>::spec_decodable(v->Tuple_0[0])
            && <Address as AbiDecode>::spec_decodable(v->Tuple_0[1])
            && <Address as AbiDecode>::spec_decodable(v->Tuple_0[2])
            && <u64 as AbiDecode>::spec_decodable(v->Tuple_0[3])
            && <U256 as AbiDecode>::spec_decodable(v->Tuple_0[4])
            && <bool as AbiDecode>::spec_decodable(v->Tuple_0[5])
            && <u64 as AbiDecode>::spec_decodable(v->Tuple_0[6])
            && <Address as AbiDecode>::spec_decodable(v->Tuple_0[7])
            && <U256 as AbiDecode>::spec_decodable(v->Tuple_0[8])
            && <Bytes as AbiDecode>::spec_decodable(v->Tuple_0[9])
            && <Vec<EVMTokenAmount> as AbiDecode>::spec_decodable(v->Tuple_0[10])
            && <Vec<Bytes> as AbiDecode>::spec_decodable(v->Tuple_0[11])
            && <Bytes32 as AbiDecode>::spec_decodable(v->Tuple_0[12])
    }

    fn try_from_value(v: Value) -> (r: Result<Self, AbiDecodeError>) {
        let mut fs = match into_tuple_fields(v, 13) {
            Some(fs) => fs,
            None => return Err(AbiDecodeError::InvalidValueError),
        };
        let ghost orig = fs@;
        proof {
            lemma_values_view_index(orig, 0); lemma_values_view_index(orig, 1); lemma_values_view_index(orig, 2); lemma_values_view_index(orig, 3); lemma_values_view_index(orig, 4); lemma_values_view_index(orig, 5); lemma_values_view_index(orig, 6); lemma_values_view_index(orig, 7); lemma_values_view_index(orig, 8); lemma_values_view_index(orig, 9); lemma_values_view_index(orig, 10); lemma_values_view_index(orig, 11); lemma_values_view_index(orig, 12);
        }
        let f12 = fs.pop().unwrap();
        let f11 = fs.pop().unwrap();
        let f10 = fs.pop().unwrap();
        let f9 = fs.pop().unwrap();
        let f8 = fs.pop().unwrap();
        let f7 = fs.pop().unwrap();
        let f6 = fs.pop().unwrap();
        let f5 = fs.pop().unwrap();
        let f4 = fs.pop().unwrap();
        let f3 = fs.pop().unwrap();
        let f2 = fs.pop().unwrap();
        let f1 = fs.pop().unwrap();
        let f0 = fs.pop().unwrap();
        assert(f0 == orig[0] && f1 == orig[1] && f2 == orig[2] && f3 == orig[3] && f4 == orig[4] && f5 == orig[5] && f6 == orig[6] && f7 == orig[7] && f8 == orig[8] && f9 == orig[9] && f10 == orig[10] && f11 == orig[11] && f12 == orig[12]);
        let x0 = match <u64 as AbiDecode>::try_from_value(f0) {
            Ok(x) => x,
            Err(e) => return Err(e),
        };
        let x1 = match <Address as AbiDecode>::try_from_value(f1) {
            Ok(x) => x,
            Err(e) => return Err(e),
        };
        let x2 = match <Address as AbiDecode>::try_from_value(f2) {
            Ok(x) => x,
            Err(e) => return Err(e),
        };
        let x3 = match <u64 as AbiDecode>::try_from_value(f3) {
            Ok(x) => x,
            Err(e) => return Err(e),
        };
        let x4 = match <U256 as AbiDecode>::try_from_value(f4) {
            Ok(x) => x,
            Err(e) => return Err(e),
        };
        let x5 = match <bool as AbiDecode>::try_from_value(f5) {
            Ok(x) => x,
            Err(e) => return Err(e),
        };
        let x6 = match <u64 as AbiDecode>::try_from_value(f6) {
            Ok(x) => x,
            Err(e) => return Err(e),
        };
        let x7 = match <Address as AbiDecode>::try_from_value(f7) {
            Ok(x) => x,
            Err(e) => return Err(e),
        };
        let x8 = match <U256 as AbiDecode>::try_from_value(f8) {
            Ok(x) => x,
            Err(e) => return Err(e),
        };
        let x9 = match <Bytes as AbiDecode>::try_from_value(f9) {
            Ok(x) => x,
            Err(e) => return Err(e),
        };
        let x10 = match <Vec<EVMTokenAmount> as AbiDecode>::try_from_value(f10) {
            Ok(x) => x,
            Err(e) => return Err(e),
        };
        let x11 = match <Vec<Bytes> as AbiDecode>::try_from_value(f11) {
            Ok(x) => x,
            Err(e) => return Err(e),
        };
        let x12 = match <Bytes32 as AbiDecode>::try_from_value(f12) {
            Ok(x) => x,
            Err(e) => return Err(e),
        };
        proof {
            assert(seq![x0.spec_value(), x1.spec_value(), x2.spec_value(), x3.spec_value(), x4.spec_value(), x5.spec_value(), x6.spec_value(), x7.spec_value(), x8.spec_value(), x9.spec_value(), x10.spec_value(), x11.spec_value(), x12.spec_value()] =~= values_view(orig));
        }
        Ok(Evm2EvmMessageV1_2 { source_chain_selector: x0, sender: x1, receiver: x2, sequence_number: x3, gas_limit: x4, strict: x5, nonce: x6, fee_token: x7, fee_token_amount: x8, data: x9, token_amounts: x10, source_token_data: x11, message_id: x12 })
    }
}

/// The `CCIPSendRequested` event of the 1.2 on-ramp.
#[derive(Clone, Debug)]
pub struct CcipSendRequestedEventV1_2 {
    pub message: Evm2EvmMessageV1_2,
}

impl AbiTypeToDecode for CcipSendRequestedEventV1_2 {
    open spec fn spec_abi_type() -> TypeV {
        TypeV::Tuple(seq![<Evm2EvmMessageV1_2 as AbiTypeToDecode>::spec_abi_type()])
    }

    fn abi_type_to_decode() -> (t: Type) {
        let mut ts: Vec<Type> = Vec::new();
        ts.push(<Evm2EvmMessageV1_2 as AbiTypeToDecode>::abi_type_to_decode());
        proof {
            lemma_types_view_index(ts@, 0);
            assert(types_view(ts@) =~= seq![<Evm2EvmMessageV1_2 as AbiTypeToDecode>::spec_abi_type()]);
        }
        Type::Tuple(ts)
    }
}

impl AbiDecode for CcipSendRequestedEventV1_2 {
    open spec fn spec_value(&self) -> ValueV {
        ValueV::Tuple(seq![self.message.spec_value()])
    }

    open spec fn spec_decodable(v: ValueV) -> bool {
        v is Tuple && v->Tuple_0.len() == 1
            && <Evm2EvmMessageV1_2 as AbiDecode>::spec_decodable(v->Tuple_0[0])
    }

    fn try_from_value(v: Value) -> (r: Result<Self, AbiDecodeError>) {
        let mut fs = match into_tuple_fields(v, 1) {
            Some(fs) => fs,
            None => return Err(AbiDecodeError::InvalidValueError),
        };
        let ghost orig = fs@;
        proof {
            lemma_values_view_index(orig, 0);
        }
        let f0 = fs.pop().unwrap();
        assert(f0 == orig[0]);
        let x0 = match <Evm2EvmMessageV1_2 as AbiDecode>::try_from_value(f0) {
            Ok(x) => x,
            Err(e) => return Err(e),
        };
        proof {
            assert(seq![x0.spec_value()] =~= values_view(orig));
        }
        Ok(CcipSendRequestedEventV1_2 { message: x0 })
    }
}

impl LogSignature for CcipSendRequestedEventV1_2 {
    open spec fn spec_log_signature() -> Seq<char> {
        "CCIPSendRequested((uint64,address,address,uint64,uint256,bool,uint64,address,uint256,bytes,(address,uint256)[],bytes[],bytes32))"@
    }

    fn log_signature() -> (r: &'static str) {
        "CCIPSendRequested((uint64,address,address,uint64,uint256,bool,uint64,address,uint256,bytes,(address,uint256)[],bytes[],bytes32))"
    }
}

impl UncheckedDecodeLog for CcipSendRequestedEventV1_2 {
    open spec fn spec_event_value(&self) -> ValueV {
        self.spec_value()
    }

    open spec fn spec_decode_log(log: EVMLog) -> Result<ValueV, LogDecodeError> {
        match decode_to_value::<CcipSendRequestedEventV1_2>(log.data@) {
            Err(e) => Err(LogDecodeError::Abi(e)),
            Ok(v) => Ok(v),
        }
    }

    fn unchecked_decode_log(log: EVMLog) -> (r: Result<Self, LogDecodeError>) {
        match abi_decode_as::<CcipSendRequestedEventV1_2>(log.data.as_slice()) {
            Ok(x) => Ok(x),
            Err(e) => Err(LogDecodeError::Abi(e)),
        }
    }
}

/// The ABI value of the fixed-size fields of a 1.2 message, whose hash goes
/// into the message hash.
pub open spec fn message_fields_value_v1_2(m: Evm2EvmMessageV1_2) -> ValueV {
    ValueV::Tuple(
        seq![
            ValueV::Address(m.sender@),
            ValueV::Address(m.receiver@),
            ValueV::U64(m.sequence_number),
            ValueV::U256(m.gas_limit.value()),
            ValueV::Bool(m.strict),
            ValueV::U64(m.nonce),
            ValueV::Address(m.fee_token@),
            ValueV::U256(m.fee_token_amount.value()),
        ],
    )
}

/// The ABI value that the hash of a 1.2 message is taken of.
pub open spec fn message_hash_value_v1_2(m: Evm2EvmMessageV1_2, metadata: MessageMetadata) -> ValueV {
    ValueV::Tuple(
        seq![
            ValueV::Bytes32(leaf_domain_separator_spec()),
            ValueV::Bytes32(metadata_hash_spec("EVM2EVMMessageHashV2"@, metadata)),
            ValueV::Bytes32(keccak256_spec(abi_encode_spec(message_fields_value_v1_2(m)))),
            ValueV::Bytes32(keccak256_spec(m.data@)),
            ValueV::Bytes32(keccak256_spec(abi_encode_spec(m.token_amounts_value()))),
            ValueV::Bytes32(keccak256_spec(abi_encode_spec(m.source_token_data_value()))),
        ],
    )
}

/// The hash of a 1.2 message is the on-ramp's: the Keccak-256 hash of the
/// leaf domain separator, the metadata hash under "EVM2EVMMessageHashV2", the
/// hash of the fixed-size fields encoded one word each in the contract's order
/// (sender, receiver, sequence number, gas limit, strict, nonce, fee token,
/// fee token amount, each address padded on the left with 12 zero bytes), the
/// hash of the data, and the hashes of the encoded token amounts and source
/// token data, one after the other.
pub proof fn law_message_hash_v1_2_layout(m: Evm2EvmMessageV1_2, metadata: MessageMetadata)
    ensures
        m.spec_hash(metadata) == keccak256_spec(
            leaf_domain_separator_spec() + metadata_hash_spec("EVM2EVMMessageHashV2"@, metadata)
                + keccak256_spec(
                zeros(12) + m.sender@ + zeros(12) + m.receiver@ + word(m.sequence_number as nat)
                    + word(m.gas_limit.value()) + word(
                    if m.strict {
                        1
                    } else {
                        0
                    },
                ) + word(m.nonce as nat) + zeros(12) + m.fee_token@ + word(
                    m.fee_token_amount.value(),
                ),
            ) + keccak256_spec(m.data@) + keccak256_spec(abi_encode_spec(m.token_amounts_value()))
                + keccak256_spec(abi_encode_spec(m.source_token_data_value())),
        ),
{
    let fs = message_fields_value_v1_2(m)->Tuple_0;
    assert forall|i: int| 0 <= i < fs.len() implies value_is_static(#[trigger] fs[i]) by {}
    lemma_static_tuple_enc(fs);
    let e = Seq::<ValueV>::empty();
    let f1 = e.push(fs[0]);
    let f2 = f1.push(fs[1]);
    let f3 = f2.push(fs[2]);
    let f4 = f3.push(fs[3]);
    let f5 = f4.push(fs[4]);
    let f6 = f5.push(fs[5]);
    let f7 = f6.push(fs[6]);
    let f8 = f7.push(fs[7]);
    assert(f8 =~= fs);
    assert(encs_concat(e) == Seq::<u8>::empty());
    lemma_encs_concat_push(e, fs[0]);
    lemma_encs_concat_push(f1, fs[1]);
    lemma_encs_concat_push(f2, fs[2]);
    lemma_encs_concat_push(f3, fs[3]);
    lemma_encs_concat_push(f4, fs[4]);
    lemma_encs_concat_push(f5, fs[5]);
    lemma_encs_concat_push(f6, fs[6]);
    lemma_encs_concat_push(f7, fs[7]);
    let fields = zeros(12) + m.sender@ + zeros(12) + m.receiver@ + word(m.sequence_number as nat)
        + word(m.gas_limit.value()) + word(
        if m.strict {
            1
        } else {
            0
        },
    ) + word(m.nonce as nat) + zeros(12) + m.fee_token@ + word(m.fee_token_amount.value());
    assert(abi_encode_spec(message_fields_value_v1_2(m)) =~= fields);
    let ws = message_hash_value_v1_2(m, metadata)->Tuple_0;
    assert forall|i: int| 0 <= i < ws.len() implies value_is_static(#[trigger] ws[i]) by {}
    lemma_static_tuple_enc(ws);
    let w1 = e.push(ws[0]);
    let w2 = w1.push(ws[1]);
    let w3 = w2.push(ws[2]);
    let w4 = w3.push(ws[3]);
    let w5 = w4.push(ws[4]);
    let w6 = w5.push(ws[5]);
    assert(w6 =~= ws);
    lemma_encs_concat_push(e, ws[0]);
    lemma_encs_concat_push(w1, ws[1]);
    lemma_encs_concat_push(w2, ws[2]);
    lemma_encs_concat_push(w3, ws[3]);
    lemma_encs_concat_push(w4, ws[4]);
    lemma_encs_concat_push(w5, ws[5]);
    let outer = leaf_domain_separator_spec() + metadata_hash_spec("EVM2EVMMessageHashV2"@, metadata)
        + keccak256_spec(fields) + keccak256_spec(m.data@) + keccak256_spec(
        abi_encode_spec(m.token_amounts_value()),
    ) + keccak256_spec(abi_encode_spec(m.source_token_data_value()));
    assert(abi_encode_spec(message_hash_value_v1_2(m, metadata)) =~= outer);
}

impl Evm2EvmMessageV1_2 {
    /// The ABI value of the token amounts of the message.
    pub open spec fn token_amounts_value(&self) -> ValueV {
        ValueV::DynamicArray(values_of(self.token_amounts@))
    }

    /// The ABI value of the source token data of the message.
    pub open spec fn source_token_data_value(&self) -> ValueV {
        ValueV::DynamicArray(values_of(self.source_token_data@))
    }
}

impl Hashable for Evm2EvmMessageV1_2 {
    open spec fn spec_hash(&self, metadata: MessageMetadata) -> Seq<u8> {
        keccak256_spec(abi_encode_spec(message_hash_value_v1_2(*self, metadata)))
    }

    open spec fn hashable(&self) -> bool {
        &&& abi_encode_spec(self.token_amounts_value()).len() <= usize::MAX
        &&& abi_encode_spec(self.source_token_data_value()).len() <= usize::MAX
    }

    fn is_hashable(&self) -> (r: bool) {
        let amounts = token_amounts_value(&self.token_amounts).abi_encoded_len();
        let token_data = bytes_list_value(&self.source_token_data).abi_encoded_len();
        amounts.is_some() && token_data.is_some()
    }

    fn hash(&self, metadata: &MessageMetadata) -> (r: Bytes32) {
        let mut gs: Vec<Value> = Vec::new();
        gs.push(Value::Address(self.sender));
        gs.push(Value::Address(self.receiver));
        gs.push(Value::U64(self.sequence_number));
        gs.push(Value::U256(self.gas_limit));
        gs.push(Value::Bool(self.strict));
        gs.push(Value::U64(self.nonce));
        gs.push(Value::Address(self.fee_token));
        gs.push(Value::U256(self.fee_token_amount));
        let ghost gws = message_fields_value_v1_2(*self)->Tuple_0;
        proof {
            lemma_values_view_index(gs@, 0);
            lemma_values_view_index(gs@, 1);
            lemma_values_view_index(gs@, 2);
            lemma_values_view_index(gs@, 3);
            lemma_values_view_index(gs@, 4);
            lemma_values_view_index(gs@, 5);
            lemma_values_view_index(gs@, 6);
            lemma_values_view_index(gs@, 7);
            assert(values_view(gs@) =~= gws);
            lemma_word_value_len(self.sequence_number as nat);
            lemma_word_value_len(self.nonce as nat);
            lemma_word_value_len(self.gas_limit.value());
            lemma_word_value_len(if self.strict { 1 } else { 0 });
            lemma_word_value_len(self.fee_token_amount.value());
            assert(is_word_value(gws[0]));
            assert(is_word_value(gws[1]));
            assert(is_word_value(gws[2]));
            assert(is_word_value(gws[3]));
            assert(is_word_value(gws[4]));
            assert(is_word_value(gws[5]));
            assert(is_word_value(gws[6]));
            assert(is_word_value(gws[7]));
            lemma_word_tuple_len(gws);
        }
        let fields = Value::Tuple(gs).abi_encode();
        let fields_hash = keccak256(fields.as_slice());
        let separator = leaf_domain_separator();
        let meta = metadata_hash("EVM2EVMMessageHashV2", metadata);
        let data_hash = keccak256(self.data.as_slice());
        let amounts = token_amounts_value(&self.token_amounts).abi_encode();
        let amounts_hash = keccak256(amounts.as_slice());
        let token_data = bytes_list_value(&self.source_token_data).abi_encode();
        let token_data_hash = keccak256(token_data.as_slice());
        let mut fs: Vec<Value> = Vec::new();
        fs.push(Value::Bytes32(SizedBytes(separator)));
        fs.push(Value::Bytes32(meta));
        fs.push(Value::Bytes32(SizedBytes(fields_hash)));
        fs.push(Value::Bytes32(SizedBytes(data_hash)));
        fs.push(Value::Bytes32(SizedBytes(amounts_hash)));
        fs.push(Value::Bytes32(SizedBytes(token_data_hash)));
        let ghost ws = message_hash_value_v1_2(*self, *metadata)->Tuple_0;
        proof {
            lemma_values_view_index(fs@, 0);
            lemma_values_view_index(fs@, 1);
            lemma_values_view_index(fs@, 2);
            lemma_values_view_index(fs@, 3);
            lemma_values_view_index(fs@, 4);
            lemma_values_view_index(fs@, 5);
            assert(values_view(fs@) =~= ws);
            assert(is_word_value(ws[0]));
            assert(is_word_value(ws[1]));
            assert(is_word_value(ws[2]));
            assert(is_word_value(ws[3]));
            assert(is_word_value(ws[4]));
            assert(is_word_value(ws[5]));
            lemma_word_tuple_len(ws);
        }
        let encoded = Value::Tuple(fs).abi_encode();
        SizedBytes(keccak256(encoded.as_slice()))
    }
}

} // verus!
