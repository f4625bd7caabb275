use vstd::prelude::*;
use vstd::string::StringSliceAdditionalSpecFns;
use crate::abi_decode::{abi_decode_spec, AbiDecodeError};
use crate::abi_types::{
    lemma_types_view_index, lemma_values_view_index, lemma_values_view_len, types_view,
    values_view, Type, TypeV, Value, ValueV,
};
use crate::bytes::Address;
use crate::text::str_eq;
use crate::chain_selector::{chain_selector, chain_selector_spec, ChainSelector};
use crate::common::{ChainName, ContractCall};
use crate::config::{LaneType, SharedLaneConfig};

verus! {

fn is_address(v: &Value) -> (r: bool)
    ensures
        r == (v@ is Address),
{
    match v {
        Value::Address(_) => true,
        _ => false,
    }
}

fn is_u64(v: &Value) -> (r: bool)
    ensures
        r == (v@ is U64),
{
    match v {
        Value::U64(_) => true,
        _ => false,
    }
}

fn is_u128(v: &Value) -> (r: bool)
    ensures
        r == (v@ is U128),
{
    match v {
        Value::U128(_) => true,
        _ => false,
    }
}

fn as_u64(v: &Value) -> (r: u64)
    requires
        v@ is U64,
    ensures
        r == v@->U64_0,
{
    match v {
        Value::U64(x) => *x,
        _ => 0,
    }
}

fn as_address(v: &Value) -> (r: Address)
    requires
        v@ is Address,
    ensures
        r@ == v@->Address_0,
{
    match v {
        Value::Address(a) => *a,
        _ => crate::bytes::SizedBytes::zero(),
    }
}

/// The static configuration of an on-ramp as far as the monitor checks it.
#[derive(Debug, Clone, Copy)]
pub struct OnRampStaticConfig {
    pub chain_selector: ChainSelector,
    pub dest_chain_selector: ChainSelector,
}

impl OnRampStaticConfig {
    /// The ABI type of the static configuration tuple.
    pub open spec fn spec_abi_type() -> TypeV {
        TypeV::Tuple(seq![TypeV::Address, TypeV::U64, TypeV::U64, TypeV::U64, TypeV::U128, TypeV::Address, TypeV::Address])
    }

    /// Whether `v` has the shape of the static configuration tuple.
    pub open spec fn spec_decodable(v: ValueV) -> bool {
        v is Tuple && ({
            let vs = v->Tuple_0;
            vs.len() == 7 && vs[0] is Address && vs[1] is U64 && vs[2] is U64 && vs[3] is U64 && vs[4] is U128 && vs[5] is Address && vs[6] is Address
        })
    }

    /// Whether the configuration holds the fields that the monitor reads from `v`.
    pub open spec fn read_from(self, v: ValueV) -> bool {
        let vs = v->Tuple_0;
        let c = self;
        c.chain_selector == vs[1]->U64_0 && c.dest_chain_selector == vs[2]->U64_0
    }

    /// The ABI type to decode.
    pub fn abi_type_to_decode() -> (t: Type)
        ensures
            t@ == Self::spec_abi_type(),
    {
        let mut ts: Vec<Type> = Vec::new();
        ts.push(Type::Address);
        ts.push(Type::U64);
        ts.push(Type::U64);
        ts.push(Type::U64);
        ts.push(Type::U128);
        ts.push(Type::Address);
        ts.push(Type::Address);
        proof {
            lemma_types_view_index(ts@, 0); lemma_types_view_index(ts@, 1); lemma_types_view_index(ts@, 2); lemma_types_view_index(ts@, 3); lemma_types_view_index(ts@, 4); lemma_types_view_index(ts@, 5); lemma_types_view_index(ts@, 6);
            assert(types_view(ts@) =~= seq![TypeV::Address, TypeV::U64, TypeV::U64, TypeV::U64, TypeV::U128, TypeV::Address, TypeV::Address]);
        }
        Type::Tuple(ts)
    }

    /// Reads the configuration from a decoded value.
    pub fn try_from_value(v: Value) -> (r: Result<Self, AbiDecodeError>)
        ensures
            r is Ok <==> Self::spec_decodable(v@),
            r matches Ok(c) ==> c.read_from(v@),
            r matches Err(e) ==> e == AbiDecodeError::InvalidValueError,
    {
        let fs = match v {
            Value::Tuple(fs) => fs,
            _ => return Err(AbiDecodeError::InvalidValueError),
        };
        proof {
            lemma_values_view_len(fs@);
        }
        if fs.len() != 7 {
            return Err(AbiDecodeError::InvalidValueError);
        }
        proof {
            lemma_values_view_index(fs@, 0); lemma_values_view_index(fs@, 1); lemma_values_view_index(fs@, 2); lemma_values_view_index(fs@, 3); lemma_values_view_index(fs@, 4); lemma_values_view_index(fs@, 5); lemma_values_view_index(fs@, 6);
        }
        if !(is_address(&fs[0]) && is_u64(&fs[1]) && is_u64(&fs[2]) && is_u64(&fs[3]) && is_u128(&fs[4]) && is_address(&fs[5]) && is_address(&fs[6])) {
            return Err(AbiDecodeError::InvalidValueError);
        }
        Ok(OnRampStaticConfig { chain_selector: as_u64(&fs[1]), dest_chain_selector: as_u64(&fs[2]) })
    }

    /// Decodes the configuration from what `getStaticConfig()` returned.
    pub fn abi_decode(bytes: &[u8]) -> (r: Result<Self, AbiDecodeError>)
        ensures
            match abi_decode_spec(Self::spec_abi_type(), bytes@) {
                Err(e) => r == Err::<Self, AbiDecodeError>(e),
                Ok(v) => (r is Ok <==> Self::spec_decodable(v)) && (r matches Ok(c) ==> c.read_from(v))
                    && (r matches Err(e) ==> e == AbiDecodeError::InvalidValueError),
            },
    {
        let t = Self::abi_type_to_decode();
        match t.decode(bytes) {
            Ok(v) => Self::try_from_value(v),
            Err(e) => Err(e),
        }
    }
}

/// The static configuration of an off-ramp as far as the monitor checks it.
#[derive(Debug, Clone, Copy)]
pub struct OffRampStaticConfig {
    pub chain_selector: ChainSelector,
    pub src_chain_selector: ChainSelector,
    pub commit_store: Address,
    pub on_ramp: Address,
}

impl OffRampStaticConfig {
    /// The ABI type of the static configuration tuple.
    pub open spec fn spec_abi_type() -> TypeV {
        TypeV::Tuple(seq![TypeV::Address, TypeV::U64, TypeV::U64, TypeV::Address, TypeV::Address, TypeV::Address])
    }

    /// Whether `v` has the shape of the static configuration tuple.
    pub open spec fn spec_decodable(v: ValueV) -> bool {
        v is Tuple && ({
            let vs = v->Tuple_0;
            vs.len() == 6 && vs[0] is Address && vs[1] is U64 && vs[2] is U64 && vs[3] is Address && vs[4] is Address && vs[5] is Address
        })
    }

    /// Whether the configuration holds the fields that the monitor reads from `v`.
    pub open spec fn read_from(self, v: ValueV) -> bool {
        let vs = v->Tuple_0;
        let c = self;
        c.chain_selector == vs[1]->U64_0 && c.src_chain_selector == vs[2]->U64_0 && c.commit_store@ == vs[0]->Address_0 && c.on_ramp@ == vs[3]->Address_0
    }

    /// The ABI type to decode.
    pub fn abi_type_to_decode() -> (t: Type)
        ensures
            t@ == Self::spec_abi_type(),
    {
        let mut ts: Vec<Type> = Vec::new();
        ts.push(Type::Address);
        ts.push(Type::U64);
        ts.push(Type::U64);
        ts.push(Type::Address);
        ts.push(Type::Address);
        ts.push(Type::Address);
        proof {
            lemma_types_view_index(ts@, 0); lemma_types_view_index(ts@, 1); lemma_types_view_index(ts@, 2); lemma_types_view_index(ts@, 3); lemma_types_view_index(ts@, 4); lemma_types_view_index(ts@, 5);
            assert(types_view(ts@) =~= seq![TypeV::Address, TypeV::U64, TypeV::U64, TypeV::Address, TypeV::Address, TypeV::Address]);
        }
        Type::Tuple(ts)
    }

    /// Reads the configuration from a decoded value.
    pub fn try_from_value(v: Value) -> (r: Result<Self, AbiDecodeError>)
        ensures
            r is Ok <==> Self::spec_decodable(v@),
            r matches Ok(c) ==> c.read_from(v@),
            r matches Err(e) ==> e == AbiDecodeError::InvalidValueError,
    {
        let fs = match v {
            Value::Tuple(fs) => fs,
            _ => return Err(AbiDecodeError::InvalidValueError),
        };
        proof {
            lemma_values_view_len(fs@);
        }
        if fs.len() != 6 {
            return Err(AbiDecodeError::InvalidValueError);
        }
        proof {
            lemma_values_view_index(fs@, 0); lemma_values_view_index(fs@, 1); lemma_values_view_index(fs@, 2); lemma_values_view_index(fs@, 3); lemma_values_view_index(fs@, 4); lemma_values_view_index(fs@, 5);
        }
        if !(is_address(&fs[0]) && is_u64(&fs[1]) && is_u64(&fs[2]) && is_address(&fs[3]) && is_address(&fs[4]) && is_address(&fs[5])) {
            return Err(AbiDecodeError::InvalidValueError);
        }
        Ok(OffRampStaticConfig { chain_selector: as_u64(&fs[1]), src_chain_selector: as_u64(&fs[2]), commit_store: as_address(&fs[0]), on_ramp: as_address(&fs[3]) })
    }

    /// Decodes the configuration from what `getStaticConfig()` returned.
    pub fn abi_decode(bytes: &[u8]) -> (r: Result<Self, AbiDecodeError>)
        ensures
            match abi_decode_spec(Self::spec_abi_type(), bytes@) {
                Err(e) => r == Err::<Self, AbiDecodeError>(e),
                Ok(v) => (r is Ok <==> Self::spec_decodable(v)) && (r matches Ok(c) ==> c.read_from(v))
                    && (r matches Err(e) ==> e == AbiDecodeError::InvalidValueError),
            },
    {
        let t = Self::abi_type_to_decode();
        match t.decode(bytes) {
            Ok(v) => Self::try_from_value(v),
            Err(e) => Err(e),
        }
    }
}

/// The static configuration of an commit store as far as the monitor checks it.
#[derive(Debug, Clone, Copy)]
pub struct CommitStoreStaticConfig {
    pub chain_selector: ChainSelector,
    pub src_chain_selector: ChainSelector,
    pub on_ramp: Address,
}

impl CommitStoreStaticConfig {
    /// The ABI type of the static configuration tuple.
    pub open spec fn spec_abi_type() -> TypeV {
        TypeV::Tuple(seq![TypeV::U64, TypeV::U64, TypeV::Address, TypeV::Address])
    }

    /// Whether `v` has the shape of the static configuration tuple.
    pub open spec fn spec_decodable(v: ValueV) -> bool {
        v is Tuple && ({
            let vs = v->Tuple_0;
            vs.len() == 4 && vs[0] is U64 && vs[1] is U64 && vs[2] is Address && vs[3] is Address
        })
    }

    /// Whether the configuration holds the fields that the monitor reads from `v`.
    pub open spec fn read_from(self, v: ValueV) -> bool {
        let vs = v->Tuple_0;
        let c = self;
        c.chain_selector == vs[0]->U64_0 && c.src_chain_selector == vs[1]->U64_0 && c.on_ramp@ == vs[2]->Address_0
    }

    /// The ABI type to decode.
    pub fn abi_type_to_decode() -> (t: Type)
        ensures
            t@ == Self::spec_abi_type(),
    {
        let mut ts: Vec<Type> = Vec::new();
        ts.push(Type::U64);
        ts.push(Type::U64);
        ts.push(Type::Address);
        ts.push(Type::Address);
        proof {
            lemma_types_view_index(ts@, 0); lemma_types_view_index(ts@, 1); lemma_types_view_index(ts@, 2); lemma_types_view_index(ts@, 3);
            assert(types_view(ts@) =~= seq![TypeV::U64, TypeV::U64, TypeV::Address, TypeV::Address]);
        }
        Type::Tuple(ts)
    }

    /// Reads the configuration from a decoded value.
    pub fn try_from_value(v: Value) -> (r: Result<Self, AbiDecodeError>)
        ensures
            r is Ok <==> Self::spec_decodable(v@),
            r matches Ok(c) ==> c.read_from(v@),
            r matches Err(e) ==> e == AbiDecodeError::InvalidValueError,
    {
        let fs = match v {
            Value::Tuple(fs) => fs,
            _ => return Err(AbiDecodeError::InvalidValueError),
        };
        proof {
            lemma_values_view_len(fs@);
        }
        if fs.len() != 4 {
            return Err(AbiDecodeError::InvalidValueError);
        }
        proof {
            lemma_values_view_index(fs@, 0); lemma_values_view_index(fs@, 1); lemma_values_view_index(fs@, 2); lemma_values_view_index(fs@, 3);
        }
        if !(is_u64(&fs[0]) && is_u64(&fs[1]) && is_address(&fs[2]) && is_address(&fs[3])) {
            return Err(AbiDecodeError::InvalidValueError);
        }
        Ok(CommitStoreStaticConfig { chain_selector: as_u64(&fs[0]), src_chain_selector: as_u64(&fs[1]), on_ramp: as_address(&fs[2]) })
    }

    /// Decodes the configuration from what `getStaticConfig()` returned.
    pub fn abi_decode(bytes: &[u8]) -> (r: Result<Self, AbiDecodeError>)
        ensures
            match abi_decode_spec(Self::spec_abi_type(), bytes@) {
                Err(e) => r == Err::<Self, AbiDecodeError>(e),
                Ok(v) => (r is Ok <==> Self::spec_decodable(v)) && (r matches Ok(c) ==> c.read_from(v))
                    && (r matches Err(e) ==> e == AbiDecodeError::InvalidValueError),
            },
    {
        let t = Self::abi_type_to_decode();
        match t.decode(bytes) {
            Ok(v) => Self::try_from_value(v),
            Err(e) => Err(e),
        }
    }
}

/// The call of `getStaticConfig()`.
pub struct GetStaticConfig;

impl ContractCall for GetStaticConfig {
    open spec fn spec_call_signature() -> Seq<char> {
        "getStaticConfig()"@
    }

    open spec fn spec_call_parameters(&self) -> ValueV {
        ValueV::Tuple(Seq::empty())
    }

    fn contract_call_signature() -> (r: &'static str) {
        "getStaticConfig()"
    }

    fn contract_call_parameters(self) -> (r: Value) {
        let vs: Vec<Value> = Vec::new();
        assert(values_view(vs@) =~= Seq::<ValueV>::empty());
        Value::Tuple(vs)
    }
}

/// The call of `typeAndVersion()`.
pub struct TypeAndVersion;

impl ContractCall for TypeAndVersion {
    open spec fn spec_call_signature() -> Seq<char> {
        "typeAndVersion()"@
    }

    open spec fn spec_call_parameters(&self) -> ValueV {
        ValueV::Tuple(Seq::empty())
    }

    fn contract_call_signature() -> (r: &'static str) {
        "typeAndVersion()"
    }

    fn contract_call_parameters(self) -> (r: Value) {
        let vs: Vec<Value> = Vec::new();
        assert(values_view(vs@) =~= Seq::<ValueV>::empty());
        Value::Tuple(vs)
    }
}

/// Whether an on-ramp reports a type and version that its lane version has.
pub open spec fn onramp_version_ok(tv: Seq<char>, lane_type: LaneType) -> bool {
    match lane_type {
        LaneType::Evm2EvmV1_0 => tv == "EVM2EVMOnRamp 1.0.0"@ || tv == "EVM2EVMOnRamp 1.1.0"@,
        LaneType::Evm2EvmV1_2 => tv == "EVM2EVMOnRamp 1.2.0"@,
    }
}

/// Whether an off-ramp reports a type and version that its lane version has.
pub open spec fn offramp_version_ok(tv: Seq<char>, lane_type: LaneType) -> bool {
    match lane_type {
        LaneType::Evm2EvmV1_0 => tv == "EVM2EVMOffRamp 1.0.0"@ || tv == "EVM2EVMOffRamp 1.1.0"@,
        LaneType::Evm2EvmV1_2 => tv == "EVM2EVMOffRamp 1.2.0"@,
    }
}

/// Whether a commit store reports a type and version that its lane version has.
pub open spec fn commit_store_version_ok(tv: Seq<char>, lane_type: LaneType) -> bool {
    match lane_type {
        LaneType::Evm2EvmV1_0 => tv == "CommitStore 1.0.0"@ || tv == "CommitStore 1.1.0"@,
        LaneType::Evm2EvmV1_2 => tv == "CommitStore 1.2.0"@,
    }
}

/// Whether an on-ramp's type and version fits the lane version.
pub fn onramp_type_and_version_ok(tv: &str, lane_type: LaneType) -> (r: bool)
    ensures
        r == onramp_version_ok(tv@, lane_type),
{
    match lane_type {
        LaneType::Evm2EvmV1_0 => str_eq(tv, "EVM2EVMOnRamp 1.0.0") || str_eq(tv, "EVM2EVMOnRamp 1.1.0"),
        LaneType::Evm2EvmV1_2 => str_eq(tv, "EVM2EVMOnRamp 1.2.0"),
    }
}

/// Whether an off-ramp's type and version fits the lane version.
pub fn offramp_type_and_version_ok(tv: &str, lane_type: LaneType) -> (r: bool)
    ensures
        r == offramp_version_ok(tv@, lane_type),
{
    match lane_type {
        LaneType::Evm2EvmV1_0 => str_eq(tv, "EVM2EVMOffRamp 1.0.0") || str_eq(tv, "EVM2EVMOffRamp 1.1.0"),
        LaneType::Evm2EvmV1_2 => str_eq(tv, "EVM2EVMOffRamp 1.2.0"),
    }
}

/// Whether a commit store's type and version fits the lane version.
pub fn commit_store_type_and_version_ok(tv: &str, lane_type: LaneType) -> (r: bool)
    ensures
        r == commit_store_version_ok(tv@, lane_type),
{
    match lane_type {
        LaneType::Evm2EvmV1_0 => str_eq(tv, "CommitStore 1.0.0") || str_eq(tv, "CommitStore 1.1.0"),
        LaneType::Evm2EvmV1_2 => str_eq(tv, "CommitStore 1.2.0"),
    }
}

/// Which of the on-chain settings of a lane is not as configured.
#[derive(Debug, Clone, Copy, PartialEq, Eq, Structural)]
pub enum LaneConfigMismatch {
    OnRampConfig,
    OnRampTypeAndVersion,
    OffRampConfig,
    OffRampTypeAndVersion,
    CommitStoreConfig,
    CommitStoreTypeAndVersion,
}

/// The first mismatch between the lane configuration and what its contracts
/// report, in the order: on-ramp configuration and version, off-ramp
/// configuration and version, commit store configuration and version.
pub open spec fn lane_config_mismatch(
    lane: SharedLaneConfig,
    onramp: OnRampStaticConfig,
    onramp_tv: Seq<char>,
    offramp: OffRampStaticConfig,
    offramp_tv: Seq<char>,
    commit_store: CommitStoreStaticConfig,
    commit_store_tv: Seq<char>,
) -> Option<LaneConfigMismatch> {
    let src = chain_selector_spec(lane.lane_id.source_chain_name)->0;
    let dest = chain_selector_spec(lane.lane_id.dest_chain_name)->0;
    if !(onramp.chain_selector == src && onramp.dest_chain_selector == dest) {
        Some(LaneConfigMismatch::OnRampConfig)
    } else if !onramp_version_ok(onramp_tv, lane.lane_type) {
        Some(LaneConfigMismatch::OnRampTypeAndVersion)
    } else if !(offramp.chain_selector == dest && offramp.src_chain_selector == src
        && offramp.commit_store@ == lane.commit_store@ && offramp.on_ramp@ == lane.on_ramp@) {
        Some(LaneConfigMismatch::OffRampConfig)
    } else if !offramp_version_ok(offramp_tv, lane.lane_type) {
        Some(LaneConfigMismatch::OffRampTypeAndVersion)
    } else if !(commit_store.chain_selector == dest && commit_store.src_chain_selector == src
        && commit_store.on_ramp@ == lane.on_ramp@) {
        Some(LaneConfigMismatch::CommitStoreConfig)
    } else if !commit_store_version_ok(commit_store_tv, lane.lane_type) {
        Some(LaneConfigMismatch::CommitStoreTypeAndVersion)
    } else {
        None
    }
}

/// Checks what the on-ramp, off-ramp and commit store of a lane report against
/// the lane's configuration.
pub fn validate_onchain_lane_config(
    lane: &SharedLaneConfig,
    onramp: &OnRampStaticConfig,
    onramp_tv: &str,
    offramp: &OffRampStaticConfig,
    offramp_tv: &str,
    commit_store: &CommitStoreStaticConfig,
    commit_store_tv: &str,
) -> (r: Result<(), LaneConfigMismatch>)
    requires
        lane.lane_id.source_chain_name != ChainName::Goerli,
        lane.lane_id.dest_chain_name != ChainName::Goerli,
    ensures
        match lane_config_mismatch(
            *lane,
            *onramp,
            onramp_tv@,
            *offramp,
            offramp_tv@,
            *commit_store,
            commit_store_tv@,
        ) {
            Some(m) => r == Err::<(), LaneConfigMismatch>(m),
            None => r is Ok,
        },
{
    let src = chain_selector(lane.lane_id.source_chain_name);
    let dest = chain_selector(lane.lane_id.dest_chain_name);
    if !(onramp.chain_selector == src && onramp.dest_chain_selector == dest) {
        return Err(LaneConfigMismatch::OnRampConfig);
    }
    if !onramp_type_and_version_ok(onramp_tv, lane.lane_type) {
        return Err(LaneConfigMismatch::OnRampTypeAndVersion);
    }
    if !(offramp.chain_selector == dest && offramp.src_chain_selector == src && offramp.commit_store
        == lane.commit_store && offramp.on_ramp == lane.on_ramp) {
        return Err(LaneConfigMismatch::OffRampConfig);
    }
    if !offramp_type_and_version_ok(offramp_tv, lane.lane_type) {
        return Err(LaneConfigMismatch::OffRampTypeAndVersion);
    }
    if !(commit_store.chain_selector == dest && commit_store.src_chain_selector == src
        && commit_store.on_ramp == lane.on_ramp) {
        return Err(LaneConfigMismatch::CommitStoreConfig);
    }
    if !commit_store_type_and_version_ok(commit_store_tv, lane.lane_type) {
        return Err(LaneConfigMismatch::CommitStoreTypeAndVersion);
    }
    Ok(())
}

} // verus!
