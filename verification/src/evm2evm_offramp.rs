use vstd::prelude::*;
use crate::abi_decode::{abi_decode_as, decode_to_value, AbiDecode};
use crate::abi_types::ValueV;
use crate::bytes::{Bytes, Bytes32};
use crate::common::{LogDecodeError, LogSignature, UncheckedDecodeLog};
use crate::rpc::EVMLog;

verus! {

/// The execution state of a message on the off-ramp.
#[derive(Debug, Clone, Copy, PartialEq, Eq, Hash, Structural)]
pub enum MessageExecutionState {
    Untouched,
    InProgress,
    Success,
    Failure,
}

/// The number that the off-ramp emits for an execution state.
pub open spec fn execution_state_code(s: MessageExecutionState) -> u8 {
    match s {
        MessageExecutionState::Untouched => 0,
        MessageExecutionState::InProgress => 1,
        MessageExecutionState::Success => 2,
        MessageExecutionState::Failure => 3,
    }
}

/// The id of a message.
pub type MessageId = Bytes32;

/// The `ExecutionStateChanged` event of the off-ramp.
#[derive(Debug, Clone, Copy)]
pub struct ExecutionStateChanged {
    pub sequence_number: u64,
    pub message_id: MessageId,
    pub state: MessageExecutionState,
}

impl LogSignature for ExecutionStateChanged {
    open spec fn spec_log_signature() -> Seq<char> {
        "ExecutionStateChanged(uint64,bytes32,uint8,bytes)"@
    }

    fn log_signature() -> (r: &'static str) {
        "ExecutionStateChanged(uint64,bytes32,uint8,bytes)"
    }
}

impl UncheckedDecodeLog for ExecutionStateChanged {
    open spec fn spec_event_value(&self) -> ValueV {
        ValueV::Tuple(
            seq![
                ValueV::U64(self.sequence_number),
                ValueV::Bytes32(self.message_id@),
                ValueV::U8(execution_state_code(self.state)),
            ],
        )
    }

    /// The sequence number and the message id are the two indexed topics after
    /// the event topic; the data holds the state number and the return data.
    open spec fn spec_decode_log(log: EVMLog) -> Result<ValueV, LogDecodeError> {
        if log.topics@.len() != 3 {
            Err(LogDecodeError::UnexpectedTopicCount)
        } else {
            match decode_to_value::<(u8, Bytes)>(log.data@) {
                Err(e) => Err(LogDecodeError::Abi(e)),
                Ok(d) => match decode_to_value::<u64>(log.topics@[1]@) {
                    Err(e) => Err(LogDecodeError::Abi(e)),
                    Ok(sv) => {
                        let state = d->Tuple_0[0]->U8_0;
                        if state < 4 {
                            Ok(ValueV::Tuple(seq![sv, ValueV::Bytes32(log.topics@[2]@), ValueV::U8(state)]))
                        } else {
                            Err(LogDecodeError::UnknownExecutionState { state })
                        }
                    },
                },
            }
        }
    }

    fn unchecked_decode_log(log: EVMLog) -> (r: Result<Self, LogDecodeError>) {
        if log.topics.len() != 3 {
            return Err(LogDecodeError::UnexpectedTopicCount);
        }
        let (state, _return_data) = match abi_decode_as::<(u8, Bytes)>(log.data.as_slice()) {
            Ok(x) => x,
            Err(e) => return Err(LogDecodeError::Abi(e)),
        };
        let sequence_number = match abi_decode_as::<u64>(log.topics[1].as_slice()) {
            Ok(x) => x,
            Err(e) => return Err(LogDecodeError::Abi(e)),
        };
        let message_id = log.topics[2];
        let state = match state {
            0 => MessageExecutionState::Untouched,
            1 => MessageExecutionState::InProgress,
            2 => MessageExecutionState::Success,
            3 => MessageExecutionState::Failure,
            _ => return Err(LogDecodeError::UnknownExecutionState { state }),
        };
        Ok(ExecutionStateChanged { sequence_number, message_id, state })
    }
}

} // verus!
