use vstd::prelude::*;
use crate::abi_decode::{
    abi_decode_as, decode_to_value, into_tuple_fields, AbiDecode, AbiDecodeError, AbiTypeToDecode,
};
use crate::abi_types::{
    lemma_types_view_index, lemma_values_view_index, types_view, values_view, Type, TypeV, Value,
    ValueV,
};
use crate::commit_store_common::{CommitReport, GasPriceUpdate, TokenPriceUpdate};
use crate::common::{LogDecodeError, LogSignature, UncheckedDecodeLog};
use crate::rpc::EVMLog;

verus! {

/// The price updates of a 1.2 commit report.
#[derive(Debug, Clone)]
pub struct PriceUpdatesV1_2 {
    pub token_price_updates: Vec<TokenPriceUpdate>,
    pub gas_price_updates: Vec<GasPriceUpdate>,
}

impl AbiTypeToDecode for PriceUpdatesV1_2 {
    open spec fn spec_abi_type() -> TypeV {
        TypeV::Tuple(seq![<Vec<TokenPriceUpdate> as AbiTypeToDecode>::spec_abi_type(), <Vec<GasPriceUpdate> as AbiTypeToDecode>::spec_abi_type()])
    }

    fn abi_type_to_decode() -> (t: Type) {
        let mut ts: Vec<Type> = Vec::new();
        ts.push(<Vec<TokenPriceUpdate> as AbiTypeToDecode>::abi_type_to_decode());
        ts.push(<Vec<GasPriceUpdate> as AbiTypeToDecode>::abi_type_to_decode());
        proof {
            lemma_types_view_index(ts@, 0); lemma_types_view_index(ts@, 1);
            assert(types_view(ts@) =~= seq![<Vec<TokenPriceUpdate> as AbiTypeToDecode>::spec_abi_type(), <Vec<GasPriceUpdate> as AbiTypeToDecode>::spec_abi_type()]);
        }
        Type::Tuple(ts)
    }
}

impl AbiDecode for PriceUpdatesV1_2 {
    open spec fn spec_value(&self) -> ValueV {
        ValueV::Tuple(seq![self.token_price_updates.spec_value(), self.gas_price_updates.spec_value()])
    }

    open spec fn spec_decodable(v: ValueV) -> bool {
        v is Tuple && v->Tuple_0.len() == 2
            && <Vec<TokenPriceUpdate> as AbiDecode>::spec_decodable(v->Tuple_0[0])
            && <Vec<GasPriceUpdate> as AbiDecode>::spec_decodable(v->Tuple_0[1])
    }

    fn try_from_value(v: Value) -> (r: Result<Self, AbiDecodeError>) {
        let mut fs = match into_tuple_fields(v, 2) {
            Some(fs) => fs,
            None => return Err(AbiDecodeError::InvalidValueError),
        };
        let ghost orig = fs@;
        proof {
            lemma_values_view_index(orig, 0); lemma_values_view_index(orig, 1);
        }
        let f1 = fs.pop().unwrap();
        let f0 = fs.pop().unwrap();
        assert(f0 == orig[0] && f1 == orig[1]);
        let x0 = match <Vec<TokenPriceUpdate> as AbiDecode>::try_from_value(f0) {
            Ok(x) => x,
            Err(e) => return Err(e),
        };
        let x1 = match <Vec<GasPriceUpdate> as AbiDecode>::try_from_value(f1) {
            Ok(x) => x,
            Err(e) => return Err(e),
        };
        proof {
            assert(seq![x0.spec_value(), x1.spec_value()] =~= values_view(orig));
        }
        Ok(PriceUpdatesV1_2 { token_price_updates: x0, gas_price_updates: x1 })
    }
}

/// A commit report of a 1.2 commit store.
pub type CommitReportV1_2 = CommitReport<PriceUpdatesV1_2>;

/// The `ReportAccepted` event of a 1.2 commit store.
#[derive(Debug, Clone)]
pub struct ReportAcceptedEventV1_2 {
    pub report: CommitReportV1_2,
}

impl AbiTypeToDecode for ReportAcceptedEventV1_2 {
    open spec fn spec_abi_type() -> TypeV {
        TypeV::Tuple(seq![<CommitReportV1_2 as AbiTypeToDecode>::spec_abi_type()])
    }

    fn abi_type_to_decode() -> (t: Type) {
        let mut ts: Vec<Type> = Vec::new();
        ts.push(<CommitReportV1_2 as AbiTypeToDecode>::abi_type_to_decode());
        proof {
            lemma_types_view_index(ts@, 0);
            assert(types_view(ts@) =~= seq![<CommitReportV1_2 as AbiTypeToDecode>::spec_abi_type()]);
        }
        Type::Tuple(ts)
    }
}

impl AbiDecode for ReportAcceptedEventV1_2 {
    open spec fn spec_value(&self) -> ValueV {
        ValueV::Tuple(seq![self.report.spec_value()])
    }

    open spec fn spec_decodable(v: ValueV) -> bool {
        v is Tuple && v->Tuple_0.len() == 1
            && <CommitReportV1_2 as AbiDecode>::spec_decodable(v->Tuple_0[0])
    }

    fn try_from_value(v: Value) -> (r: Result<Self, AbiDecodeError>) {
        let mut fs = match into_tuple_fields(v, 1) {
            Some(fs) => fs,
            None => return Err(AbiDecodeError::InvalidValueError),
        };
        let ghost orig = fs@;
        proof {
            lemma_values_view_index(orig, 0);
        }
        let f0 = fs.pop().unwrap();
        assert(f0 == orig[0]);
        let x0 = match <CommitReportV1_2 as AbiDecode>::try_from_value(f0) {
            Ok(x) => x,
            Err(e) => return Err(e),
        };
        proof {
            assert(seq![x0.spec_value()] =~= values_view(orig));
        }
        Ok(ReportAcceptedEventV1_2 { report: x0 })
    }
}

impl LogSignature for ReportAcceptedEventV1_2 {
    open spec fn spec_log_signature() -> Seq<char> {
        "ReportAccepted((((address,uint224)[],(uint64,uint224)[]),(uint64,uint64),bytes32))"@
    }

    fn log_signature() -> (r: &'static str) {
        "ReportAccepted((((address,uint224)[],(uint64,uint224)[]),(uint64,uint64),bytes32))"
    }
}

impl UncheckedDecodeLog for ReportAcceptedEventV1_2 {
    open spec fn spec_event_value(&self) -> ValueV {
        self.spec_value()
    }

    open spec fn spec_decode_log(log: EVMLog) -> Result<ValueV, LogDecodeError> {
        match decode_to_value::<ReportAcceptedEventV1_2>(log.data@) {
            Err(e) => Err(LogDecodeError::Abi(e)),
            Ok(v) => Ok(v),
        }
    }

    fn unchecked_decode_log(log: EVMLog) -> (r: Result<Self, LogDecodeError>) {
        match abi_decode_as::<ReportAcceptedEventV1_2>(log.data.as_slice()) {
            Ok(x) => Ok(x),
            Err(e) => Err(LogDecodeError::Abi(e)),
        }
    }
}

} // verus!
