use vstd::prelude::*;
use crate::abi_decode::{
    abi_decode_as, decode_to_value, into_tuple_fields, AbiDecode, AbiDecodeError, AbiTypeToDecode,
};
use crate::abi_types::{
    lemma_types_view_index, lemma_values_view_index, types_view, values_view, Type, TypeV, Value,
    ValueV,
};
use crate::commit_store_common::{CommitReport, TokenPriceUpdate};
use crate::common::{LogDecodeError, LogSignature, UncheckedDecodeLog};
use crate::rpc::EVMLog;
use crate::u256::U256;

verus! {

/// The price updates of a 1.0 commit report.
#[derive(Debug, Clone)]
pub struct PriceUpdatesV1_0 {
    pub token_price_updates: Vec<TokenPriceUpdate>,
    pub dest_chain_selector: u64,
    pub usd_per_unit_gas: U256,
}

impl AbiTypeToDecode for PriceUpdatesV1_0 {
    open spec fn spec_abi_type() -> TypeV {
        TypeV::Tuple(seq![<Vec<TokenPriceUpdate> as AbiTypeToDecode>::spec_abi_type(), <u64 as AbiTypeToDecode>::spec_abi_type(), <U256 as AbiTypeToDecode>::spec_abi_type()])
    }

    fn abi_type_to_decode() -> (t: Type) {
        let mut ts: Vec<Type> = Vec::new();
        ts.push(<Vec<TokenPriceUpdate> as AbiTypeToDecode>::abi_type_to_decode());
        ts.push(<u64 as AbiTypeToDecode>::abi_type_to_decode());
        ts.push(<U256 as AbiTypeToDecode>::abi_type_to_decode());
        proof {
            lemma_types_view_index(ts@, 0); lemma_types_view_index(ts@, 1); lemma_types_view_index(ts@, 2);
            assert(types_view(ts@) =~= seq![<Vec<TokenPriceUpdate> as AbiTypeToDecode>::spec_abi_type(), <u64 as AbiTypeToDecode>::spec_abi_type(), <U256 as AbiTypeToDecode>::spec_abi_type()]);
        }
        Type::Tuple(ts)
    }
}

impl AbiDecode for PriceUpdatesV1_0 {
    open spec fn spec_value(&self) -> ValueV {
        ValueV::Tuple(seq![self.token_price_updates.spec_value(), self.dest_chain_selector.spec_value(), self.usd_per_unit_gas.spec_value()])
    }

    open spec fn spec_decodable(v: ValueV) -> bool {
        v is Tuple && v->Tuple_0.len() == 3
            && <Vec<TokenPriceUpdate> as AbiDecode>::spec_decodable(v->Tuple_0[0])
            && <u64 as AbiDecode>::spec_decodable(v->Tuple_0[1])
            && <U256 as AbiDecode>::spec_decodable(v->Tuple_0[2])
    }

    fn try_from_value(v: Value) -> (r: Result<Self, AbiDecodeError>) {
        let mut fs = match into_tuple_fields(v, 3) {
            Some(fs) => fs,
            None => return Err(AbiDecodeError::InvalidValueError),
        };
        let ghost orig = fs@;
        proof {
            lemma_values_view_index(orig, 0); lemma_values_view_index(orig, 1); lemma_values_view_index(orig, 2);
        }
        let f2 = fs.pop().unwrap();
        let f1 = fs.pop().unwrap();
        let f0 = fs.pop().unwrap();
        assert(f0 == orig[0] && f1 == orig[1] && f2 == orig[2]);
        let x0 = match <Vec<TokenPriceUpdate> as AbiDecode>::try_from_value(f0) {
            Ok(x) => x,
            Err(e) => return Err(e),
        };
        let x1 = match <u64 as AbiDecode>::try_from_value(f1) {
            Ok(x) => x,
            Err(e) => return Err(e),
        };
        let x2 = match <U256 as AbiDecode>::try_from_value(f2) {
            Ok(x) => x,
            Err(e) => return Err(e),
        };
        proof {
            assert(seq![x0.spec_value(), x1.spec_value(), x2.spec_value()] =~= values_view(orig));
        }
        Ok(PriceUpdatesV1_0 { token_price_updates: x0, dest_chain_selector: x1, usd_per_unit_gas: x2 })
    }
}

/// A commit report of a 1.0 commit store.
pub type CommitReportV1_0 = CommitReport<PriceUpdatesV1_0>;

/// The `ReportAccepted` event of a 1.0 commit store.
#[derive(Debug, Clone)]
pub struct ReportAcceptedEventV1_0 {
    pub report: CommitReportV1_0,
}

impl AbiTypeToDecode for ReportAcceptedEventV1_0 {
    open spec fn spec_abi_type() -> TypeV {
        TypeV::Tuple(seq![<CommitReportV1_0 as AbiTypeToDecode>::spec_abi_type()])
    }

    fn abi_type_to_decode() -> (t: Type) {
        let mut ts: Vec<Type> = Vec::new();
        ts.push(<CommitReportV1_0 as AbiTypeToDecode>::abi_type_to_decode());
        proof {
            lemma_types_view_index(ts@, 0);
            assert(types_view(ts@) =~= seq![<CommitReportV1_0 as AbiTypeToDecode>::spec_abi_type()]);
        }
        Type::Tuple(ts)
    }
}

impl AbiDecode for ReportAcceptedEventV1_0 {
    open spec fn spec_value(&self) -> ValueV {
        ValueV::Tuple(seq![self.report.spec_value()])
    }

    open spec fn spec_decodable(v: ValueV) -> bool {
        v is Tuple && v->Tuple_0.len() == 1
            && <CommitReportV1_0 as AbiDecode>::spec_decodable(v->Tuple_0[0])
    }

    fn try_from_value(v: Value) -> (r: Result<Self, AbiDecodeError>) {
        let mut fs = match into_tuple_fields(v, 1) {
            Some(fs) => fs,
            None => return Err(AbiDecodeError::InvalidValueError),
        };
        let ghost orig = fs@;
        proof {
            lemma_values_view_index(orig, 0);
        }
        let f0 = fs.pop().unwrap();
        assert(f0 == orig[0]);
        let x0 = match <CommitReportV1_0 as AbiDecode>::try_from_value(f0) {
            Ok(x) => x,
            Err(e) => return Err(e),
        };
        proof {
            assert(seq![x0.spec_value()] =~= values_view(orig));
        }
        Ok(ReportAcceptedEventV1_0 { report: x0 })
    }
}

impl LogSignature for ReportAcceptedEventV1_0 {
    open spec fn spec_log_signature() -> Seq<char> {
        "ReportAccepted((((address,uint192)[],uint64,uint192),(uint64,uint64),bytes32))"@
    }

    fn log_signature() -> (r: &'static str) {
        "ReportAccepted((((address,uint192)[],uint64,uint192),(uint64,uint64),bytes32))"
    }
}

impl UncheckedDecodeLog for ReportAcceptedEventV1_0 {
    open spec fn spec_event_value(&self) -> ValueV {
        self.spec_value()
    }

    open spec fn spec_decode_log(log: EVMLog) -> Result<ValueV, LogDecodeError> {
        match decode_to_value::<ReportAcceptedEventV1_0>(log.data@) {
            Err(e) => Err(LogDecodeError::Abi(e)),
            Ok(v) => Ok(v),
        }
    }

    fn unchecked_decode_log(log: EVMLog) -> (r: Result<Self, LogDecodeError>) {
        match abi_decode_as::<ReportAcceptedEventV1_0>(log.data.as_slice()) {
            Ok(x) => Ok(x),
            Err(e) => Err(LogDecodeError::Abi(e)),
        }
    }
}

} // verus!
