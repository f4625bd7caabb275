use vstd::prelude::*;
use vstd::utf8::encode_utf8;
use vstd::string::StringSliceAdditionalSpecFns;
use crate::abi_decode::AbiDecodeError;
use crate::abi_encode::{abi_encode_spec, AbiEncode};
use crate::abi_types::{Value, ValueV};
use crate::bytes::{extend_bytes, slices_equal, Bytes, Bytes32, SizedBytes};
use crate::keccak::{keccak256, keccak256_spec};
use crate::rpc::EVMLog;
use crate::text::{join_text, str_eq, str_to_uppercase, to_uppercase_spec};

verus! {

/// An EVM chain id.
pub type ChainId = u64;

/// The chains that the monitor knows, in the order of their chain ids.
#[derive(Debug, Clone, Copy, PartialEq, Eq, Hash, PartialOrd, Ord, Structural)]
pub enum ChainName {
    Ethereum,
    Goerli,
    Optimism,
    Bsc,
    BscTestnet,
    Polygon,
    Kroma,
    ZkSyncGoerli,
    OptimismGoerli,
    PolygonZkEvm,
    Wemix,
    WemixTestnet,
    PolygonZkEvmTestnet,
    KromaSepolia,
    Base,
    Arbitrum,
    AvaxFuji,
    Avax,
    PolygonMumbai,
    BaseGoerli,
    BaseSepolia,
    ArbitrumGoerli,
    ArbitrumSepolia,
    ScrollSepolia,
    Scroll,
    Sepolia,
    OptimismSepolia,
}

/// The EVM chain id of each chain.
pub open spec fn chain_id_spec(c: ChainName) -> u64 {
    match c {
        ChainName::Arbitrum => 42161,
        ChainName::Avax => 43114,
        ChainName::Base => 8453,
        ChainName::Bsc => 56,
        ChainName::Ethereum => 1,
        ChainName::Kroma => 255,
        ChainName::Optimism => 10,
        ChainName::Polygon => 137,
        ChainName::PolygonZkEvm => 1101,
        ChainName::Scroll => 534352,
        ChainName::Wemix => 1111,
        ChainName::ArbitrumGoerli => 421613,
        ChainName::ArbitrumSepolia => 421614,
        ChainName::AvaxFuji => 43113,
        ChainName::BaseGoerli => 84531,
        ChainName::BaseSepolia => 84532,
        ChainName::BscTestnet => 97,
        ChainName::Goerli => 5,
        ChainName::KromaSepolia => 2358,
        ChainName::OptimismGoerli => 420,
        ChainName::OptimismSepolia => 11155420,
        ChainName::PolygonMumbai => 80001,
        ChainName::PolygonZkEvmTestnet => 1442,
        ChainName::ScrollSepolia => 534351,
        ChainName::Sepolia => 11155111,
        ChainName::WemixTestnet => 1112,
        ChainName::ZkSyncGoerli => 280,
    }
}

impl ChainName {
    /// The EVM chain id of the chain.
    pub fn chain_id(self) -> (r: ChainId)
        ensures
            r == chain_id_spec(self),
    {
        match self {
        ChainName::Arbitrum => 42161,
        ChainName::Avax => 43114,
        ChainName::Base => 8453,
        ChainName::Bsc => 56,
        ChainName::Ethereum => 1,
        ChainName::Kroma => 255,
        ChainName::Optimism => 10,
        ChainName::Polygon => 137,
        ChainName::PolygonZkEvm => 1101,
        ChainName::Scroll => 534352,
        ChainName::Wemix => 1111,
        ChainName::ArbitrumGoerli => 421613,
        ChainName::ArbitrumSepolia => 421614,
        ChainName::AvaxFuji => 43113,
        ChainName::BaseGoerli => 84531,
        ChainName::BaseSepolia => 84532,
        ChainName::BscTestnet => 97,
        ChainName::Goerli => 5,
        ChainName::KromaSepolia => 2358,
        ChainName::OptimismGoerli => 420,
        ChainName::OptimismSepolia => 11155420,
        ChainName::PolygonMumbai => 80001,
        ChainName::PolygonZkEvmTestnet => 1442,
        ChainName::ScrollSepolia => 534351,
        ChainName::Sepolia => 11155111,
        ChainName::WemixTestnet => 1112,
        ChainName::ZkSyncGoerli => 280,
        }
    }
}

/// A lane: messages sent from one chain to another.
#[derive(Debug, PartialEq, Eq, Hash, PartialOrd, Ord)]
pub struct LaneId {
    pub source_chain_name: ChainName,
    pub dest_chain_name: ChainName,
    pub name: String,
}

/// The model of a lane id.
pub struct LaneIdV {
    pub source_chain_name: ChainName,
    pub dest_chain_name: ChainName,
    pub name: Seq<char>,
}

impl View for LaneId {
    type V = LaneIdV;

    open spec fn view(&self) -> LaneIdV {
        LaneIdV {
            source_chain_name: self.source_chain_name,
            dest_chain_name: self.dest_chain_name,
            name: self.name@,
        }
    }
}

impl Clone for LaneId {
    fn clone(&self) -> (r: Self)
        ensures
            r@ == self@,
    {
        LaneId {
            source_chain_name: self.source_chain_name,
            dest_chain_name: self.dest_chain_name,
            name: self.name.clone(),
        }
    }
}

impl LaneId {
    /// Whether two lane ids are the same.
    pub fn same_as(&self, other: &LaneId) -> (r: bool)
        ensures
            r == (self@ == other@),
    {
        if self.source_chain_name != other.source_chain_name
            || self.dest_chain_name != other.dest_chain_name {
            return false;
        }
        let a = self.name.as_str().as_bytes();
        let b = other.name.as_str().as_bytes();
        let eq = slices_equal(a, b);
        proof {
            vstd::utf8::encode_utf8_decode_utf8(self.name@);
            vstd::utf8::encode_utf8_decode_utf8(other.name@);
        }
        eq
    }
}

/// Why a log could not be decoded as an event.
#[derive(Debug, Clone, Copy, PartialEq, Eq, Structural)]
pub enum LogDecodeError {
    /// The log has no topic at `index`.
    MissingTopic { index: usize },
    /// The first topic is not the topic of the event.
    TopicMismatch,
    /// The log has another number of topics than the event.
    UnexpectedTopicCount,
    /// The log data or a topic is not a valid ABI encoding.
    Abi(AbiDecodeError),
    /// The execution state number is not one of the known states.
    UnknownExecutionState { state: u8 },
    /// The first topic is none of the events that are looked for.
    UnknownTopic,
}

/// An event with a Solidity signature.
pub trait LogSignature {
    /// The signature text.
    spec fn spec_log_signature() -> Seq<char>;

    /// The signature text, such as `Transfer(address,address,uint256)`.
    fn log_signature() -> (r: &'static str)
        ensures
            r@ == Self::spec_log_signature(),
    ;
}

/// The topic of an event: the Keccak-256 hash of its signature.
pub open spec fn log_topic_spec(signature: Seq<char>) -> Seq<u8> {
    keccak256_spec(encode_utf8(signature))
}

/// An event with a topic.
pub trait LogTopic: LogSignature {
    /// The topic: the Keccak-256 hash of the signature.
    fn log_topic() -> (r: Bytes32)
        ensures
            r@ == log_topic_spec(Self::spec_log_signature()),
    ;
}

impl<T: LogSignature> LogTopic for T {
    fn log_topic() -> (r: Bytes32) {
        let s = T::log_signature();
        SizedBytes(keccak256(s.as_bytes()))
    }
}

/// An event that can be read from a log whose topic has been checked.
pub trait UncheckedDecodeLog: Sized + LogSignature {
    /// The value model of an event.
    spec fn spec_event_value(&self) -> ValueV;

    /// What decoding a log gives: the value model, or the error.
    spec fn spec_decode_log(log: EVMLog) -> Result<ValueV, LogDecodeError>;

    /// Reads the event from a log, without checking its topic.
    fn unchecked_decode_log(log: EVMLog) -> (r: Result<Self, LogDecodeError>)
        ensures
            match Self::spec_decode_log(log) {
                Err(e) => r == Err::<Self, LogDecodeError>(e),
                Ok(v) => r matches Ok(x) && x.spec_event_value() == v,
            },
    ;
}

/// What checking the first topic of a log against an event topic gives.
pub open spec fn check_event_topic_spec(topics: Seq<Bytes32>, topic: Seq<u8>) -> Result<
    (),
    LogDecodeError,
> {
    if topics.len() == 0 {
        Err(LogDecodeError::MissingTopic { index: 0 })
    } else if topics[0]@ != topic {
        Err(LogDecodeError::TopicMismatch)
    } else {
        Ok(())
    }
}

/// Checks that the first topic of a log is the topic of the event `T`.
pub fn check_event_topic<T: LogSignature>(log: &EVMLog) -> (r: Result<(), LogDecodeError>)
    ensures
        r == check_event_topic_spec(log.topics@, log_topic_spec(T::spec_log_signature())),
{
    if log.topics.len() == 0 {
        return Err(LogDecodeError::MissingTopic { index: 0 });
    }
    let topic = log.topics[0];
    if topic != T::log_topic() {
        Err(LogDecodeError::TopicMismatch)
    } else {
        Ok(())
    }
}

/// An event that can be read from a log.
pub trait DecodeLog: UncheckedDecodeLog {
    /// Reads the event from a log whose first topic is the event topic.
    fn decode_log(log: EVMLog) -> (r: Result<Self, LogDecodeError>)
        ensures
            match check_event_topic_spec(log.topics@, log_topic_spec(Self::spec_log_signature())) {
                Err(e) => r == Err::<Self, LogDecodeError>(e),
                Ok(_) => match Self::spec_decode_log(log) {
                    Err(e) => r == Err::<Self, LogDecodeError>(e),
                    Ok(v) => r matches Ok(x) && x.spec_event_value() == v,
                },
            },
    ;
}

impl<T: UncheckedDecodeLog> DecodeLog for T {
    fn decode_log(log: EVMLog) -> (r: Result<Self, LogDecodeError>) {
        match check_event_topic::<T>(&log) {
            Err(e) => Err(e),
            Ok(()) => T::unchecked_decode_log(log),
        }
    }
}

/// A call of a contract function.
pub trait ContractCall: Sized {
    /// The function signature text.
    spec fn spec_call_signature() -> Seq<char>;

    /// The value model of the parameters.
    spec fn spec_call_parameters(&self) -> ValueV;

    /// The function signature, such as `isCursed()`.
    fn contract_call_signature() -> (r: &'static str)
        ensures
            r@ == Self::spec_call_signature(),
    ;

    /// The parameters of the call.
    fn contract_call_parameters(self) -> (r: Value)
        ensures
            r@ == self.spec_call_parameters(),
    ;
}

/// The function selector: the first four bytes of the hash of the signature.
pub open spec fn call_selector_spec(signature: Seq<char>) -> Seq<u8> {
    keccak256_spec(encode_utf8(signature)).subrange(0, 4)
}

/// A call with a function selector.
pub trait ContractCallSelector: ContractCall {
    /// The function selector.
    fn contract_call_selector() -> (r: [u8; 4])
        ensures
            r@ == call_selector_spec(Self::spec_call_signature()),
    ;
}

impl<T: ContractCall> ContractCallSelector for T {
    fn contract_call_selector() -> (r: [u8; 4]) {
        let s = T::contract_call_signature();
        let h = keccak256(s.as_bytes());
        let mut out = [0u8; 4];
        out[0] = h[0];
        out[1] = h[1];
        out[2] = h[2];
        out[3] = h[3];
        proof {
            assert(out@ =~= h@.subrange(0, 4));
        }
        out
    }
}

/// A call that can be encoded as transaction data.
pub trait EncodeContractCall: ContractCall {
    /// The call data: the selector, then the encoded parameters.
    fn encode_contract_call(self) -> (r: Bytes)
        requires
            abi_encode_spec(self.spec_call_parameters()).len() <= usize::MAX,
        ensures
            r@ == call_selector_spec(Self::spec_call_signature()) + abi_encode_spec(
                self.spec_call_parameters(),
            ),
    ;
}

impl<T: ContractCall> EncodeContractCall for T {
    fn encode_contract_call(self) -> (r: Bytes) {
        let selector = T::contract_call_selector();
        let params = self.contract_call_parameters().abi_encode();
        let mut out: Vec<u8> = Vec::new();
        extend_bytes(&mut out, selector.as_slice());
        extend_bytes(&mut out, params.as_slice());
        Bytes(out)
    }
}


/// The name of a chain, as it prints.
pub open spec fn chain_name_text(c: ChainName) -> Seq<char> {
    match c {
        ChainName::Arbitrum => "Arbitrum"@,
        ChainName::Avax => "Avax"@,
        ChainName::Base => "Base"@,
        ChainName::Bsc => "Bsc"@,
        ChainName::Ethereum => "Ethereum"@,
        ChainName::Kroma => "Kroma"@,
        ChainName::Optimism => "Optimism"@,
        ChainName::Polygon => "Polygon"@,
        ChainName::PolygonZkEvm => "PolygonZkEvm"@,
        ChainName::Scroll => "Scroll"@,
        ChainName::Wemix => "Wemix"@,
        ChainName::ArbitrumGoerli => "ArbitrumGoerli"@,
        ChainName::ArbitrumSepolia => "ArbitrumSepolia"@,
        ChainName::AvaxFuji => "AvaxFuji"@,
        ChainName::BaseGoerli => "BaseGoerli"@,
        ChainName::BaseSepolia => "BaseSepolia"@,
        ChainName::BscTestnet => "BscTestnet"@,
        ChainName::Goerli => "Goerli"@,
        ChainName::KromaSepolia => "KromaSepolia"@,
        ChainName::OptimismGoerli => "OptimismGoerli"@,
        ChainName::OptimismSepolia => "OptimismSepolia"@,
        ChainName::PolygonMumbai => "PolygonMumbai"@,
        ChainName::PolygonZkEvmTestnet => "PolygonZkEvmTestnet"@,
        ChainName::ScrollSepolia => "ScrollSepolia"@,
        ChainName::Sepolia => "Sepolia"@,
        ChainName::WemixTestnet => "WemixTestnet"@,
        ChainName::ZkSyncGoerli => "ZkSyncGoerli"@,
    }
}

impl ChainName {
    /// The name of the chain, such as `Ethereum`.
    pub fn name(self) -> (r: &'static str)
        ensures
            r@ == chain_name_text(self),
    {
        match self {
            ChainName::Arbitrum => "Arbitrum",
            ChainName::Avax => "Avax",
            ChainName::Base => "Base",
            ChainName::Bsc => "Bsc",
            ChainName::Ethereum => "Ethereum",
            ChainName::Kroma => "Kroma",
            ChainName::Optimism => "Optimism",
            ChainName::Polygon => "Polygon",
            ChainName::PolygonZkEvm => "PolygonZkEvm",
            ChainName::Scroll => "Scroll",
            ChainName::Wemix => "Wemix",
            ChainName::ArbitrumGoerli => "ArbitrumGoerli",
            ChainName::ArbitrumSepolia => "ArbitrumSepolia",
            ChainName::AvaxFuji => "AvaxFuji",
            ChainName::BaseGoerli => "BaseGoerli",
            ChainName::BaseSepolia => "BaseSepolia",
            ChainName::BscTestnet => "BscTestnet",
            ChainName::Goerli => "Goerli",
            ChainName::KromaSepolia => "KromaSepolia",
            ChainName::OptimismGoerli => "OptimismGoerli",
            ChainName::OptimismSepolia => "OptimismSepolia",
            ChainName::PolygonMumbai => "PolygonMumbai",
            ChainName::PolygonZkEvmTestnet => "PolygonZkEvmTestnet",
            ChainName::ScrollSepolia => "ScrollSepolia",
            ChainName::Sepolia => "Sepolia",
            ChainName::WemixTestnet => "WemixTestnet",
            ChainName::ZkSyncGoerli => "ZkSyncGoerli",
        }
    }
}

/// Why a text names no chain.
#[derive(Debug, Clone, Copy, PartialEq, Eq, Structural)]
pub struct UnknownChainName;

/// The chain that an upper-cased text names; only the test networks that
/// the command line takes have a name here.
pub open spec fn chain_from_upper(s: Seq<char>) -> Option<ChainName> {
    if s == "GOERLI"@ {
        Some(ChainName::Goerli)
    } else if s == "AVAXFUJI"@ {
        Some(ChainName::AvaxFuji)
    } else if s == "OPTIMISMGOERLI"@ {
        Some(ChainName::OptimismGoerli)
    } else if s == "SEPOLIA"@ {
        Some(ChainName::Sepolia)
    } else if s == "ARBITRUMGOERLI"@ {
        Some(ChainName::ArbitrumGoerli)
    } else if s == "POLYGONMUMBAI"@ {
        Some(ChainName::PolygonMumbai)
    } else {
        None
    }
}

impl ChainName {
    /// The chain that `input` names, in any case.
    pub fn from_str(input: &str) -> (r: Result<ChainName, UnknownChainName>)
        ensures
            match chain_from_upper(to_uppercase_spec(input@)) {
                Some(c) => r == Ok::<ChainName, UnknownChainName>(c),
                None => r == Err::<ChainName, UnknownChainName>(UnknownChainName),
            },
    {
        let upper = str_to_uppercase(input);
        let u = upper.as_str();
        if str_eq(u, "GOERLI") {
            Ok(ChainName::Goerli)
        } else if str_eq(u, "AVAXFUJI") {
            Ok(ChainName::AvaxFuji)
        } else if str_eq(u, "OPTIMISMGOERLI") {
            Ok(ChainName::OptimismGoerli)
        } else if str_eq(u, "SEPOLIA") {
            Ok(ChainName::Sepolia)
        } else if str_eq(u, "ARBITRUMGOERLI") {
            Ok(ChainName::ArbitrumGoerli)
        } else if str_eq(u, "POLYGONMUMBAI") {
            Ok(ChainName::PolygonMumbai)
        } else {
            Err(UnknownChainName)
        }
    }
}

/// How a lane prints: `Lane(source->dest,name)`.
pub open spec fn lane_id_text(l: LaneIdV) -> Seq<char> {
    "Lane("@ + chain_name_text(l.source_chain_name) + "->"@ + chain_name_text(l.dest_chain_name)
        + ","@ + l.name + ")"@
}

impl LaneId {
    /// How the lane prints, such as `Lane(Ethereum->Avax,lane-1)`.
    pub fn to_text(&self) -> (r: String)
        ensures
            r@ == lane_id_text(self@),
    {
        let a = join_text("Lane(", self.source_chain_name.name());
        let b = join_text(a.as_str(), "->");
        let c = join_text(b.as_str(), self.dest_chain_name.name());
        let d = join_text(c.as_str(), ",");
        let e = join_text(d.as_str(), self.name.as_str());
        let f = join_text(e.as_str(), ")");
        proof {
            assert(f@ =~= lane_id_text(self@));
        }
        f
    }
}

} // verus!
