use vstd::prelude::*;
use std::collections::BTreeMap;
use std::collections::VecDeque;
use bit_set::BitSet;
use crate::bitset::{bitset_clone, bitset_contains, bitset_contents, bitset_insert, bitset_new};
use crate::evm2evm_offramp::{ExecutionStateChanged, MessageExecutionState};
use crate::abi_types::ValueV;
use crate::bytes::{Address, Bytes32, SizedBytes};
use crate::afn_contract::{
    AlreadyBlessedEvent, AlreadyVotedToBlessEvent, TaggedRoot, TaggedRootBlessVotesResetEvent,
    TaggedRootBlessedEvent, VotedToBlessEvent,
};
use crate::commit_store_common::{Interval, OnRampReader, RootWithInterval};
use crate::commit_store_v1_0::ReportAcceptedEventV1_0;
use crate::commit_store_v1_2::ReportAcceptedEventV1_2;
use crate::common::{log_topic_spec, DecodeLog, LogDecodeError, LogSignature, LogTopic, UncheckedDecodeLog};
use crate::chain_status::{age_at_spec, ChainStatus};
use crate::config::LaneType;
use crate::evm2evm_onramp_v1_0::CcipSendRequestedEventV1_0;
use crate::evm2evm_onramp_v1_2::CcipSendRequestedEventV1_2;
use crate::hashable::{Hashable, MessageMetadata};
use crate::merkle::leaf_views;
use crate::rpc::EVMLog;

verus! {

broadcast use vstd::std_specs::btree::group_btree_axioms;

/// What reads the events of a contract from its logs.
pub trait ContractEventFilter: Sized {
    /// The events that the filter reads.
    type ContractEventUnion;

    /// The topics of the logs to read.
    fn log_topics(&self) -> Vec<Bytes32>;

    /// Whether reading `log` gives `r`.
    spec fn decodes_to(&self, log: EVMLog, r: Result<Self::ContractEventUnion, LogDecodeError>) -> bool;

    /// Reads an event from a log.
    fn decode_log(&self, log: EVMLog) -> (r: Result<Self::ContractEventUnion, LogDecodeError>)
        ensures
            self.decodes_to(log, r),
    ;

    /// A copy of the filter.
    fn clone_filter(&self) -> Self;
}

/// Why a state refused an event.
#[derive(Debug, Clone, Copy, PartialEq, Eq, Structural)]
pub enum StateError {
    /// The event is of the other lane version.
    LaneTypeMismatch,
    /// The hash of the message is not its message id.
    MessageHashMismatch { seq_nr: u64 },
    /// The sequence number does not follow the last one.
    NonContiguousSeqNr { last_seq_nr: u64, seq_nr: u64 },
    /// The first sequence number is not 1.
    FirstSeqNrNotOne { seq_nr: u64 },
    /// The encodings that the message hash is taken of do not fit in memory.
    MessageTooLarge { seq_nr: u64 },
    /// The sequence number is too large to be held in the set of executed ones.
    SequenceNumberOutOfRange { seq_nr: u64 },
}

/// A state that the events of a contract build up.
pub trait State: Sized {
    /// The filter that reads the events.
    type ContractEventFilter: ContractEventFilter;

    /// What holds of every state that events build.
    spec fn inv(&self) -> bool;

    /// Whether applying the event `ev` of the block `block_number` with hash
    /// `block_hash`, emitted by `address` and read with `filter`, to this state
    /// answers `r` and leaves the state `next`.
    spec fn steps_to(
        &self,
        block_number: u64,
        block_hash: Bytes32,
        address: Address,
        filter: Self::ContractEventFilter,
        ev: <Self::ContractEventFilter as ContractEventFilter>::ContractEventUnion,
        r: Result<(), StateError>,
        next: Self,
    ) -> bool;

    /// Applies an event of the block `block_number` with hash `block_hash`,
    /// emitted by `address`.
    fn update_with_event(
        &mut self,
        block_number: u64,
        block_hash: Bytes32,
        address: Address,
        filter: &Self::ContractEventFilter,
        ev: <Self::ContractEventFilter as ContractEventFilter>::ContractEventUnion,
    ) -> (r: Result<(), StateError>)
        requires
            old(self).inv(),
        ensures
            final(self).inv(),
            old(self).steps_to(block_number, block_hash, address, *filter, ev, r, *final(self)),
    ;

    /// A copy of the state.
    fn duplicate(&self) -> (r: Self)
        requires
            self.inv(),
        ensures
            r.inv(),
    ;
}

/// A `CCIPSendRequested` event of either lane version.
#[derive(Debug, Clone)]
pub enum CcipSendRequestedEventUnion {
    Evm2EvmV1_0(CcipSendRequestedEventV1_0),
    Evm2EvmV1_2(CcipSendRequestedEventV1_2),
}

/// The lane version and the value model of a `CCIPSendRequested` event.
pub open spec fn ccip_event_model(u: CcipSendRequestedEventUnion) -> (LaneType, ValueV) {
    match u {
        CcipSendRequestedEventUnion::Evm2EvmV1_0(e) => (LaneType::Evm2EvmV1_0, e.spec_event_value()),
        CcipSendRequestedEventUnion::Evm2EvmV1_2(e) => (LaneType::Evm2EvmV1_2, e.spec_event_value()),
    }
}

/// What reading a log of an on-ramp of `lane_type` gives.
pub open spec fn ccip_decode_spec(lane_type: LaneType, log: EVMLog) -> Result<
    (LaneType, ValueV),
    LogDecodeError,
> {
    if log.topics@.len() == 0 {
        Err(LogDecodeError::MissingTopic { index: 0 })
    } else {
        let t = log.topics@[0]@;
        if lane_type == LaneType::Evm2EvmV1_0 && t == log_topic_spec(
            CcipSendRequestedEventV1_0::spec_log_signature(),
        ) {
            match CcipSendRequestedEventV1_0::spec_decode_log(log) {
                Err(e) => Err(e),
                Ok(v) => Ok((LaneType::Evm2EvmV1_0, v)),
            }
        } else if lane_type == LaneType::Evm2EvmV1_2 && t == log_topic_spec(
            CcipSendRequestedEventV1_2::spec_log_signature(),
        ) {
            match CcipSendRequestedEventV1_2::spec_decode_log(log) {
                Err(e) => Err(e),
                Ok(v) => Ok((LaneType::Evm2EvmV1_2, v)),
            }
        } else {
            Err(LogDecodeError::UnknownTopic)
        }
    }
}

/// Reads the `CCIPSendRequested` events of an on-ramp of one lane version.
#[derive(Clone, Copy, Debug)]
pub struct VersionedCcipSendRequestFilter {
    pub lane_type: LaneType,
}

impl ContractEventFilter for VersionedCcipSendRequestFilter {
    type ContractEventUnion = CcipSendRequestedEventUnion;


    fn clone_filter(&self) -> (r: Self)
        ensures
            r == *self,
    {
        *self
    }

    fn log_topics(&self) -> (r: Vec<Bytes32>)
        ensures
            r@.len() == 1,
            r@[0]@ == log_topic_spec(
                match self.lane_type {
                    LaneType::Evm2EvmV1_0 => CcipSendRequestedEventV1_0::spec_log_signature(),
                    LaneType::Evm2EvmV1_2 => CcipSendRequestedEventV1_2::spec_log_signature(),
                },
            ),
    {
        let mut r: Vec<Bytes32> = Vec::new();
        match self.lane_type {
            LaneType::Evm2EvmV1_0 => r.push(CcipSendRequestedEventV1_0::log_topic()),
            LaneType::Evm2EvmV1_2 => r.push(CcipSendRequestedEventV1_2::log_topic()),
        }
        r
    }

    open spec fn decodes_to(&self, log: EVMLog, r: Result<CcipSendRequestedEventUnion, LogDecodeError>) -> bool {
        match ccip_decode_spec(self.lane_type, log) {
            Err(e) => r == Err::<CcipSendRequestedEventUnion, LogDecodeError>(e),
            Ok(m) => r matches Ok(u) && ccip_event_model(u) == m,
        }
    }

    fn decode_log(&self, log: EVMLog) -> (r: Result<CcipSendRequestedEventUnion, LogDecodeError>)
        ensures
            match ccip_decode_spec(self.lane_type, log) {
                Err(e) => r == Err::<CcipSendRequestedEventUnion, LogDecodeError>(e),
                Ok(m) => r matches Ok(u) && ccip_event_model(u) == m,
            },
    {
        if log.topics.len() == 0 {
            return Err(LogDecodeError::MissingTopic { index: 0 });
        }
        let topic = log.topics[0];
        if self.lane_type == LaneType::Evm2EvmV1_0 && topic
            == CcipSendRequestedEventV1_0::log_topic() {
            match CcipSendRequestedEventV1_0::decode_log(log) {
                Ok(ev) => Ok(CcipSendRequestedEventUnion::Evm2EvmV1_0(ev)),
                Err(e) => Err(e),
            }
        } else if self.lane_type == LaneType::Evm2EvmV1_2 && topic
            == CcipSendRequestedEventV1_2::log_topic() {
            match CcipSendRequestedEventV1_2::decode_log(log) {
                Ok(ev) => Ok(CcipSendRequestedEventUnion::Evm2EvmV1_2(ev)),
                Err(e) => Err(e),
            }
        } else {
            Err(LogDecodeError::UnknownTopic)
        }
    }
}

/// The message hashes of an on-ramp by sequence number, as its events build
/// them up.
pub struct SourceBlessState {
    pub message_metadata: MessageMetadata,
    pub seq_nrs_and_message_hashes: VecDeque<(u64, Bytes32)>,
}

/// Whether the sequence numbers of `q` go up from each entry to the next.
pub open spec fn strictly_increasing(q: Seq<(u64, Bytes32)>) -> bool {
    forall|i: int, j: int| 0 <= i < j < q.len() ==> (#[trigger] q[i]).0 < (#[trigger] q[j]).0
}

/// Whether the sequence numbers of the entries count up by one.
pub open spec fn contiguous(q: Seq<(u64, Bytes32)>) -> bool {
    forall|i: int| 0 <= i < q.len() ==> (#[trigger] q[i]).0 == q[0].0 + i
}

/// The sequence number, the message hash (where the message can be hashed)
/// and the message id of a `CCIPSendRequested` event.
pub open spec fn ccip_message_parts(ev: CcipSendRequestedEventUnion, metadata: MessageMetadata) -> (
    u64,
    bool,
    Seq<u8>,
    Seq<u8>,
) {
    match ev {
        CcipSendRequestedEventUnion::Evm2EvmV1_0(e) => (
            e.message.sequence_number,
            e.message.hashable(),
            e.message.spec_hash(metadata),
            e.message.message_id@,
        ),
        CcipSendRequestedEventUnion::Evm2EvmV1_2(e) => (
            e.message.sequence_number,
            e.message.hashable(),
            e.message.spec_hash(metadata),
            e.message.message_id@,
        ),
    }
}

/// What applying a `CCIPSendRequested` event to the entries `q` gives: the
/// refusal, or the sequence number and hash to append.
pub open spec fn source_update_spec(
    q: Seq<(u64, Bytes32)>,
    metadata: MessageMetadata,
    lane_type: LaneType,
    ev: CcipSendRequestedEventUnion,
) -> Result<(u64, Seq<u8>), StateError> {
    let (seq_nr, hashable, hash, id) = ccip_message_parts(ev, metadata);
    if ccip_event_model(ev).0 != lane_type {
        Err(StateError::LaneTypeMismatch)
    } else if !hashable {
        Err(StateError::MessageTooLarge { seq_nr })
    } else if hash != id {
        Err(StateError::MessageHashMismatch { seq_nr })
    } else if q.len() > 0 && q.last().0 + 1 != seq_nr {
        Err(StateError::NonContiguousSeqNr { last_seq_nr: q.last().0, seq_nr })
    } else if q.len() == 0 && seq_nr != 1 {
        Err(StateError::FirstSeqNrNotOne { seq_nr })
    } else {
        Ok((seq_nr, hash))
    }
}

impl SourceBlessState {
    /// The state before any event of the lane of `message_metadata`.
    pub fn new(message_metadata: MessageMetadata) -> (r: SourceBlessState)
        ensures
            r.message_metadata == message_metadata,
            r.seq_nrs_and_message_hashes@ == Seq::<(u64, Bytes32)>::empty(),
    {
        SourceBlessState { message_metadata, seq_nrs_and_message_hashes: VecDeque::new() }
    }

    /// Drops the entries up to sequence number `seq_nr`.
    pub fn try_reap_up_to(&mut self, seq_nr: u64)
        requires
            strictly_increasing(old(self).seq_nrs_and_message_hashes@),
        ensures
            final(self).message_metadata == old(self).message_metadata,
            ({
                let q0 = old(self).seq_nrs_and_message_hashes@;
                let q1 = final(self).seq_nrs_and_message_hashes@;
                &&& q1.len() <= q0.len()
                &&& q1 == q0.subrange(q0.len() - q1.len(), q0.len() as int)
                &&& forall|i: int| 0 <= i < q0.len() - q1.len() ==> (#[trigger] q0[i]).0 <= seq_nr
                &&& forall|i: int| 0 <= i < q1.len() ==> (#[trigger] q1[i]).0 > seq_nr
            }),
            strictly_increasing(final(self).seq_nrs_and_message_hashes@),
            contiguous(old(self).seq_nrs_and_message_hashes@) ==> contiguous(
                final(self).seq_nrs_and_message_hashes@,
            ),
    {
        let ghost q0 = self.seq_nrs_and_message_hashes@;
        let ghost metadata = self.message_metadata;
        let n0 = self.seq_nrs_and_message_hashes.len();
        let mut k: usize = 0;
        while self.seq_nrs_and_message_hashes.len() > 0 && self.seq_nrs_and_message_hashes[0].0
            <= seq_nr
            invariant
                strictly_increasing(q0),
                q0.len() == n0,
                self.message_metadata == metadata,
                k <= q0.len(),
                forall|i: int| 0 <= i < k ==> (#[trigger] q0[i]).0 <= seq_nr,
                self.seq_nrs_and_message_hashes@ == q0.subrange(k as int, q0.len() as int),
            decreases self.seq_nrs_and_message_hashes@.len(),
        {
            proof {
                assert(q0[k as int] == self.seq_nrs_and_message_hashes@[0]);
            }
            self.seq_nrs_and_message_hashes.pop_front();
            k = k + 1;
            assert(self.seq_nrs_and_message_hashes@ =~= q0.subrange(k as int, q0.len() as int));
        }
        proof {
            let q1 = self.seq_nrs_and_message_hashes@;
            if k < q0.len() {
                assert(q0[k as int] == q1[0]);
                assert forall|i: int| 0 <= i < q1.len() implies (#[trigger] q1[i]).0 > seq_nr by {
                    assert(q1[i] == q0[k + i]);
                    if i > 0 {
                        assert(q0[k as int].0 < q0[k + i].0);
                    }
                }
            }
            assert forall|i: int, j: int| 0 <= i < j < q1.len() implies (#[trigger] q1[i]).0 < (#[trigger] q1[j]).0 by {
                assert(q1[i] == q0[k + i] && q1[j] == q0[k + j]);
            }
            if contiguous(q0) {
                lemma_contiguous_suffix(q0, k as int);
            }
        }
    }

    /// The hash of the message with sequence number `seq_nr`, where the state
    /// has it.
    pub fn message_hash(&self, seq_nr: u64) -> (r: Option<&Bytes32>)
        ensures
            match message_hash_spec(self.seq_nrs_and_message_hashes@, seq_nr) {
                None => r is None,
                Some(i) => r == Some(&self.seq_nrs_and_message_hashes@[i].1),
            },
    {
        if self.seq_nrs_and_message_hashes.len() == 0 {
            return None;
        }
        let min_seq_nr = self.seq_nrs_and_message_hashes[0].0;
        if seq_nr < min_seq_nr {
            return None;
        }
        let idx = seq_nr - min_seq_nr;
        if idx >= self.seq_nrs_and_message_hashes.len() as u64 {
            return None;
        }
        Some(&self.seq_nrs_and_message_hashes[idx as usize].1)
    }
}

/// The index of the entry with sequence number `seq_nr`, counted from the
/// first entry's.
pub open spec fn message_hash_spec(q: Seq<(u64, Bytes32)>, seq_nr: u64) -> Option<int> {
    if q.len() == 0 || seq_nr < q[0].0 || seq_nr - q[0].0 >= q.len() {
        None
    } else {
        Some(seq_nr - q[0].0)
    }
}

proof fn lemma_contiguous_suffix(q: Seq<(u64, Bytes32)>, k: int)
    requires
        contiguous(q),
        0 <= k <= q.len(),
    ensures
        contiguous(q.subrange(k, q.len() as int)),
{
    let s = q.subrange(k, q.len() as int);
    assert forall|i: int| 0 <= i < s.len() implies (#[trigger] s[i]).0 == s[0].0 + i by {
        assert(s[i] == q[k + i]);
        assert(s[0] == q[k]);
    }
}

/// In entries whose sequence numbers count up by one, a lookup by sequence
/// number finds the entry with that number, and finds nothing exactly when
/// no entry has it.
pub proof fn law_message_hash_lookup(q: Seq<(u64, Bytes32)>, seq_nr: u64)
    requires
        contiguous(q),
    ensures
        message_hash_spec(q, seq_nr) matches Some(i) ==> 0 <= i < q.len() && q[i].0 == seq_nr,
        message_hash_spec(q, seq_nr) is None ==> forall|i: int| 0 <= i < q.len() ==> (#[trigger] q[i]).0 != seq_nr,
{
    if q.len() > 0 {
        assert(q[0].0 == q[0].0 + 0);
    }
}

/// After an accepted `CCIPSendRequested` event (as `update_with_event`
/// ensures it), the entries still count up by one, and the lookup of the
/// event's sequence number finds the event's message hash, while every
/// other lookup gives what it gave before.
pub proof fn law_appended_hash_is_found(q0: Seq<(u64, Bytes32)>, q1: Seq<(u64, Bytes32)>, seq_nr: u64, hash: Seq<u8>)
    requires
        contiguous(q0),
        contiguous(q1),
        q1.len() == q0.len() + 1,
        q1.drop_last() == q0,
        q1.last().0 == seq_nr,
        q1.last().1@ == hash,
    ensures
        message_hash_spec(q1, seq_nr) == Some(q0.len() as int),
        q1[q0.len() as int].1@ == hash,
        forall|s: u64| s != seq_nr ==> #[trigger] message_hash_spec(q1, s) == message_hash_spec(q0, s),
{
    let n = q0.len() as int;
    assert(q1[n].0 == q1[0].0 + n);
    assert forall|s: u64| s != seq_nr implies #[trigger] message_hash_spec(q1, s) == message_hash_spec(q0, s) by {
        if n > 0 {
            assert(q0[0] == q1[0]);
        }
    }
}

impl State for SourceBlessState {
    type ContractEventFilter = VersionedCcipSendRequestFilter;

    open spec fn inv(&self) -> bool {
        contiguous(self.seq_nrs_and_message_hashes@)
    }

    open spec fn steps_to(
        &self,
        block_number: u64,
        block_hash: Bytes32,
        address: Address,
        filter: VersionedCcipSendRequestFilter,
        ev: CcipSendRequestedEventUnion,
        r: Result<(), StateError>,
        next: Self,
    ) -> bool {
        &&& next.message_metadata == self.message_metadata
        &&& {
            let q0 = self.seq_nrs_and_message_hashes@;
            let q1 = next.seq_nrs_and_message_hashes@;
            match source_update_spec(q0, self.message_metadata, filter.lane_type, ev) {
                Err(e) => r == Err::<(), StateError>(e) && q1 == q0,
                Ok((seq_nr, hash)) => r is Ok && q1.len() == q0.len() + 1 && q1.drop_last() == q0
                    && q1.last().0 == seq_nr && q1.last().1@ == hash,
            }
        }
    }

    fn update_with_event(
        &mut self,
        block_number: u64,
        block_hash: Bytes32,
        address: Address,
        filter: &VersionedCcipSendRequestFilter,
        ev: CcipSendRequestedEventUnion,
    ) -> (r: Result<(), StateError>)
        ensures
            final(self).message_metadata == old(self).message_metadata,
            ({
                let q0 = old(self).seq_nrs_and_message_hashes@;
                let q1 = final(self).seq_nrs_and_message_hashes@;
                match source_update_spec(q0, old(self).message_metadata, filter.lane_type, ev) {
                    Err(e) => r == Err::<(), StateError>(e) && q1 == q0,
                    Ok((seq_nr, hash)) => r is Ok && q1.len() == q0.len() + 1 && q1.drop_last()
                        == q0 && q1.last().0 == seq_nr && q1.last().1@ == hash,
                }
            }),
    {
        let (seq_nr, msg_hash, msg_id) = match (filter.lane_type, ev) {
            (LaneType::Evm2EvmV1_0, CcipSendRequestedEventUnion::Evm2EvmV1_0(ev)) => {
                let msg = ev.message;
                if !msg.is_hashable() {
                    return Err(StateError::MessageTooLarge { seq_nr: msg.sequence_number });
                }
                (msg.sequence_number, msg.hash(&self.message_metadata), msg.message_id)
            },
            (LaneType::Evm2EvmV1_2, CcipSendRequestedEventUnion::Evm2EvmV1_2(ev)) => {
                let msg = ev.message;
                if !msg.is_hashable() {
                    return Err(StateError::MessageTooLarge { seq_nr: msg.sequence_number });
                }
                (msg.sequence_number, msg.hash(&self.message_metadata), msg.message_id)
            },
            _ => {
                return Err(StateError::LaneTypeMismatch);
            },
        };
        if msg_hash != msg_id {
            return Err(StateError::MessageHashMismatch { seq_nr });
        }
        let len = self.seq_nrs_and_message_hashes.len();
        if len > 0 {
            let last_seq_nr = self.seq_nrs_and_message_hashes[len - 1].0;
            if last_seq_nr == u64::MAX || last_seq_nr + 1 != seq_nr {
                return Err(StateError::NonContiguousSeqNr { last_seq_nr, seq_nr });
            }
        } else if seq_nr != 1 {
            return Err(StateError::FirstSeqNrNotOne { seq_nr });
        }
        let ghost q0 = self.seq_nrs_and_message_hashes@;
        self.seq_nrs_and_message_hashes.push_back((seq_nr, msg_hash));
        proof {
            let q = self.seq_nrs_and_message_hashes@;
            assert(q.drop_last() =~= q0);
            assert forall|i: int| 0 <= i < q.len() implies (#[trigger] q[i]).0 == q[0].0 + i by {
                if i < q0.len() {
                    assert(q[i] == q0[i]);
                }
                if q0.len() > 0 {
                    assert(q[0] == q0[0]);
                    assert(q0[q0.len() - 1] == q0.last());
                }
            }
        }
        Ok(())
    }

    fn duplicate(&self) -> (r: Self) {
        let mut q: VecDeque<(u64, Bytes32)> = VecDeque::new();
        let mut i: usize = 0;
        while i < self.seq_nrs_and_message_hashes.len()
            invariant
                i <= self.seq_nrs_and_message_hashes@.len(),
                q@ == self.seq_nrs_and_message_hashes@.subrange(0, i as int),
            decreases self.seq_nrs_and_message_hashes@.len() - i,
        {
            q.push_back(self.seq_nrs_and_message_hashes[i]);
            i = i + 1;
            assert(q@ =~= self.seq_nrs_and_message_hashes@.subrange(0, i as int));
        }
        assert(q@ =~= self.seq_nrs_and_message_hashes@);
        SourceBlessState { message_metadata: self.message_metadata, seq_nrs_and_message_hashes: q }
    }
}

/// The message hashes of the entries from index `start` to index `end`.
pub open spec fn entry_hashes(q: Seq<(u64, Bytes32)>, start: int, end: int) -> Seq<Seq<u8>> {
    Seq::new((end - start + 1) as nat, |k: int| q[start + k].1@)
}

/// The indices of the entries of the sequence numbers of `interval`, counted
/// from the first entry's, where the state has them all.
pub open spec fn interval_indices(q: Seq<(u64, Bytes32)>, interval: Interval) -> Option<(int, int)> {
    if q.len() == 0 {
        None
    } else {
        let first = q[0].0 as usize;
        let min = interval.min as usize;
        if min < first || interval.max < interval.min {
            None
        } else {
            let start = min - first;
            let end = start + (interval.max - interval.min) as usize;
            if end > usize::MAX || end >= q.len() {
                None
            } else {
                Some((start, end))
            }
        }
    }
}

impl OnRampReader for SourceBlessState {
    open spec fn spec_message_hashes(&self, interval: Interval) -> Option<Seq<Seq<u8>>> {
        match interval_indices(self.seq_nrs_and_message_hashes@, interval) {
            None => None,
            Some((start, end)) => Some(entry_hashes(self.seq_nrs_and_message_hashes@, start, end)),
        }
    }

    fn get_message_hashes(&self, interval: &Interval) -> (r: Option<Vec<Bytes32>>) {
        let q = &self.seq_nrs_and_message_hashes;
        if q.len() == 0 {
            return None;
        }
        let first = q[0].0 as usize;
        let min = interval.min as usize;
        if min < first {
            return None;
        }
        let start = min - first;
        if interval.max < interval.min {
            return None;
        }
        let d = (interval.max - interval.min) as usize;
        if d > usize::MAX - start {
            return None;
        }
        let end = start + d;
        if end >= q.len() {
            return None;
        }
        let n = q.len();
        let mut r: Vec<Bytes32> = Vec::new();
        let mut i: usize = start;
        while i <= end
            invariant
                start <= i <= end + 1,
                end < n,
                n == q@.len(),
                q == &self.seq_nrs_and_message_hashes,
                r@.len() == i - start,
                forall|k: int| 0 <= k < r@.len() ==> (#[trigger] r@[k])@ == q@[start + k].1@,
            decreases end + 1 - i,
        {
            r.push(q[i].1);
            i = i + 1;
        }
        proof {
            let hs = entry_hashes(q@, start as int, end as int);
            assert(leaf_views(r@) =~= hs) by {
                assert forall|k: int| 0 <= k < r@.len() implies #[trigger] leaf_views(r@)[k] == hs[k] by {
                    assert(leaf_views(r@)[k] == r@[k]@);
                }
            }
        }
        Some(r)
    }
}


/// The set of the roots in `v`.
pub open spec fn root_set(v: Seq<Bytes32>) -> Set<Seq<u8>> {
    Set::new(|r: Seq<u8>| exists|i: int| 0 <= i < v.len() && #[trigger] v[i]@ == r)
}

/// Whether `v` holds `root`.
pub fn roots_contain(v: &Vec<Bytes32>, root: &Bytes32) -> (b: bool)
    ensures
        b == root_set(v@).contains(root@),
{
    let mut i: usize = 0;
    while i < v.len()
        invariant
            i <= v@.len(),
            forall|k: int| 0 <= k < i ==> v@[k]@ != root@,
        decreases v@.len() - i,
    {
        if v[i] == *root {
            assert(v@[i as int]@ == root@);
            return true;
        }
        i = i + 1;
    }
    false
}

/// Adds `root` to `v` unless `v` holds it.
pub fn roots_insert(v: &mut Vec<Bytes32>, root: Bytes32)
    ensures
        root_set(final(v)@) == root_set(old(v)@).insert(root@),
{
    if !roots_contain(v, &root) {
        let ghost v0 = v@;
        v.push(root);
        proof {
            assert forall|r: Seq<u8>| #[trigger] root_set(v@).contains(r) == root_set(v0).insert(root@).contains(r) by {
                if root_set(v0).contains(r) {
                    let i = choose|i: int| 0 <= i < v0.len() && v0[i]@ == r;
                    assert(v@[i]@ == r);
                }
                if r == root@ {
                    assert(v@[v0.len() as int]@ == r);
                }
                if root_set(v@).contains(r) {
                    let i = choose|i: int| 0 <= i < v@.len() && v@[i]@ == r;
                    if i < v0.len() {
                        assert(v0[i]@ == r);
                    }
                }
            }
            assert(root_set(v@) =~= root_set(v0).insert(root@));
        }
    } else {
        assert(root_set(v@) =~= root_set(v@).insert(root@));
    }
}

/// Drops every copy of `root` from `v`.
pub fn roots_remove(v: &mut Vec<Bytes32>, root: &Bytes32)
    ensures
        root_set(final(v)@) == root_set(old(v)@).remove(root@),
{
    let ghost v0 = v@;
    let mut kept: Vec<Bytes32> = Vec::new();
    let mut i: usize = 0;
    while i < v.len()
        invariant
            i <= v@.len(),
            v@ == v0,
            forall|k: int| 0 <= k < kept@.len() ==> (#[trigger] kept@[k])@ != root@,
            forall|r: Seq<u8>|
                #[trigger] root_set(kept@).contains(r) <==> (r != root@ && exists|k: int|
                    0 <= k < i && v0[k]@ == r),
        decreases v@.len() - i,
    {
        let ghost kept0 = kept@;
        if v[i] != *root {
            kept.push(v[i]);
        }
        proof {
            assert forall|r: Seq<u8>| #[trigger] root_set(kept@).contains(r) <==> (r != root@
                && exists|k: int| 0 <= k < i + 1 && v0[k]@ == r) by {
                if root_set(kept@).contains(r) {
                    let j = choose|j: int| 0 <= j < kept@.len() && kept@[j]@ == r;
                    if j < kept0.len() {
                        assert(kept0[j]@ == r);
                        assert(root_set(kept0).contains(r));
                    } else {
                        assert(v0[i as int]@ == r);
                    }
                }
                if r != root@ && exists|k: int| 0 <= k < i + 1 && v0[k]@ == r {
                    let k = choose|k: int| 0 <= k < i + 1 && v0[k]@ == r;
                    if k < i {
                        assert(root_set(kept0).contains(r));
                        let j = choose|j: int| 0 <= j < kept0.len() && kept0[j]@ == r;
                        assert(kept@[j]@ == r);
                    } else {
                        assert(kept@[kept@.len() - 1]@ == r);
                    }
                }
            }
        }
        i = i + 1;
    }
    proof {
        assert forall|r: Seq<u8>| #[trigger] root_set(kept@).contains(r) == root_set(v0).remove(root@).contains(r) by {
            if root_set(v0).contains(r) {
                let k = choose|k: int| 0 <= k < v0.len() && v0[k]@ == r;
                assert(exists|k: int| 0 <= k < v0.len() && v0[k]@ == r);
            }
        }
        assert(root_set(kept@) =~= root_set(v0).remove(root@));
    }
    *v = kept;
}

/// An event of the RMN contract or the commit store on a destination chain.
#[derive(Debug, Clone)]
pub enum DestEventUnion {
    Blessed(TaggedRootBlessedEvent),
    BlessVotesReset(TaggedRootBlessVotesResetEvent),
    AlreadyBlessed(AlreadyBlessedEvent),
    Voted(VotedToBlessEvent),
    AlreadyVoted(AlreadyVotedToBlessEvent),
    CommittedV1_0(ReportAcceptedEventV1_0),
    CommittedV1_2(ReportAcceptedEventV1_2),
}

/// The roots that this monitor's vote, the blessings and the commits of a
/// lane's destination build up.
#[derive(Debug)]
pub struct DestBlessState {
    pub my_vote_address: Address,
    pub commit_store_address: Address,
    pub config_version: u32,
    pub my_voted_but_not_yet_blessed_roots: Vec<Bytes32>,
    pub blessed_roots: Vec<Bytes32>,
    pub committed_roots_with_intervals: Vec<RootWithInterval>,
}

/// The sets of blessed roots and of roots voted for but not blessed, and the
/// committed roots, that a state holds.
pub open spec fn dest_bless_model(s: DestBlessState) -> (Set<Seq<u8>>, Set<Seq<u8>>, Seq<
    RootWithInterval,
>) {
    (root_set(s.blessed_roots@), root_set(s.my_voted_but_not_yet_blessed_roots@), s.committed_roots_with_intervals@)
}

/// What a blessing of `tagged_root` does to the model.
pub open spec fn bless_spec(s: DestBlessState, tagged_root: TaggedRoot) -> (Set<Seq<u8>>, Set<Seq<u8>>, Seq<
    RootWithInterval,
>) {
    let (b, v, c) = dest_bless_model(s);
    if tagged_root.commit_store@ == s.commit_store_address@ {
        (b.insert(tagged_root.root@), v.remove(tagged_root.root@), c)
    } else {
        (b, v, c)
    }
}

/// What a vote for `tagged_root` by `voter` under `config_version` does to the
/// model.
pub open spec fn vote_spec(s: DestBlessState, config_version: u32, voter: Address, tagged_root: TaggedRoot) -> (
    Set<Seq<u8>>,
    Set<Seq<u8>>,
    Seq<RootWithInterval>,
) {
    let (b, v, c) = dest_bless_model(s);
    if config_version == s.config_version && voter@ == s.my_vote_address@
        && tagged_root.commit_store@ == s.commit_store_address@ && !b.contains(tagged_root.root@) {
        (b, v.insert(tagged_root.root@), c)
    } else {
        (b, v, c)
    }
}

/// What applying a destination event to a state gives: the refusal, or the
/// new model.
pub open spec fn dest_bless_update_spec(s: DestBlessState, lane_type: LaneType, ev: DestEventUnion) -> Result<
    (Set<Seq<u8>>, Set<Seq<u8>>, Seq<RootWithInterval>),
    StateError,
> {
    let (b, v, c) = dest_bless_model(s);
    match ev {
        DestEventUnion::Blessed(e) => Ok(bless_spec(s, e.tagged_root)),
        DestEventUnion::AlreadyBlessed(e) => Ok(bless_spec(s, e.tagged_root)),
        DestEventUnion::Voted(e) => Ok(vote_spec(s, e.config_version, e.voter, e.tagged_root)),
        DestEventUnion::AlreadyVoted(e) => Ok(vote_spec(s, e.config_version, e.voter, e.tagged_root)),
        DestEventUnion::BlessVotesReset(e) => if e.config_version == s.config_version
            && e.tagged_root.commit_store@ == s.commit_store_address@ {
            Ok((b.remove(e.tagged_root.root@), v.remove(e.tagged_root.root@), c))
        } else {
            Ok((b, v, c))
        },
        DestEventUnion::CommittedV1_0(e) => if lane_type == LaneType::Evm2EvmV1_0 {
            Ok((b, v, c.push(RootWithInterval { root: e.report.merkle_root, interval: e.report.interval })))
        } else {
            Err(StateError::LaneTypeMismatch)
        },
        DestEventUnion::CommittedV1_2(e) => if lane_type == LaneType::Evm2EvmV1_2 {
            Ok((b, v, c.push(RootWithInterval { root: e.report.merkle_root, interval: e.report.interval })))
        } else {
            Err(StateError::LaneTypeMismatch)
        },
    }
}

/// The committed roots, with their indices, that are neither blessed nor voted
/// for by this monitor, in order.
pub open spec fn could_vote_spec(
    cs: Seq<RootWithInterval>,
    blessed: Set<Seq<u8>>,
    voted: Set<Seq<u8>>,
) -> Seq<(usize, RootWithInterval)>
    decreases cs.len(),
{
    if cs.len() == 0 {
        seq![]
    } else if blessed.contains(cs.last().root@) || voted.contains(cs.last().root@) {
        could_vote_spec(cs.drop_last(), blessed, voted)
    } else {
        could_vote_spec(cs.drop_last(), blessed, voted).push(((cs.len() - 1) as usize, cs.last()))
    }
}

impl DestBlessState {
    /// The state before any event, for the commit store `commit_store_address`,
    /// the vote address `my_vote_address` and the configuration version
    /// `config_version`.
    pub fn new(my_vote_address: Address, commit_store_address: Address, config_version: u32) -> (r: DestBlessState)
        ensures
            r.my_vote_address == my_vote_address,
            r.commit_store_address == commit_store_address,
            r.config_version == config_version,
            r.my_voted_but_not_yet_blessed_roots@ == Seq::<Bytes32>::empty(),
            r.blessed_roots@ == Seq::<Bytes32>::empty(),
            r.committed_roots_with_intervals@ == Seq::<RootWithInterval>::empty(),
    {
        DestBlessState {
            my_vote_address,
            commit_store_address,
            config_version,
            my_voted_but_not_yet_blessed_roots: Vec::new(),
            blessed_roots: Vec::new(),
            committed_roots_with_intervals: Vec::new(),
        }
    }

    /// The committed roots, with their indices, that are neither blessed nor
    /// voted for by this monitor.
    pub fn unverified_roots_with_intervals_we_could_vote(&self) -> (r: Vec<(usize, RootWithInterval)>)
        ensures
            r@ == could_vote_spec(
                self.committed_roots_with_intervals@,
                root_set(self.blessed_roots@),
                root_set(self.my_voted_but_not_yet_blessed_roots@),
            ),
    {
        let cs = &self.committed_roots_with_intervals;
        let ghost b = root_set(self.blessed_roots@);
        let ghost v = root_set(self.my_voted_but_not_yet_blessed_roots@);
        let mut r: Vec<(usize, RootWithInterval)> = Vec::new();
        let mut i: usize = 0;
        while i < cs.len()
            invariant
                i <= cs@.len(),
                cs == &self.committed_roots_with_intervals,
                b == root_set(self.blessed_roots@),
                v == root_set(self.my_voted_but_not_yet_blessed_roots@),
                r@ == could_vote_spec(cs@.subrange(0, i as int), b, v),
            decreases cs@.len() - i,
        {
            proof {
                assert(cs@.subrange(0, i + 1).drop_last() =~= cs@.subrange(0, i as int));
            }
            let ri = cs[i];
            if !(roots_contain(&self.blessed_roots, &ri.root) || roots_contain(
                &self.my_voted_but_not_yet_blessed_roots,
                &ri.root,
            )) {
                r.push((i, ri));
            }
            i = i + 1;
        }
        assert(cs@.subrange(0, cs@.len() as int) =~= cs@);
        r
    }

    fn bless(&mut self, tagged_root: &TaggedRoot)
        ensures
            dest_bless_model(*final(self)) == bless_spec(*old(self), *tagged_root),
            final(self).my_vote_address == old(self).my_vote_address,
            final(self).commit_store_address == old(self).commit_store_address,
            final(self).config_version == old(self).config_version,
    {
        if tagged_root.commit_store == self.commit_store_address {
            roots_insert(&mut self.blessed_roots, tagged_root.root);
            roots_remove(&mut self.my_voted_but_not_yet_blessed_roots, &tagged_root.root);
        }
    }

    fn vote(&mut self, config_version: u32, voter: &Address, tagged_root: &TaggedRoot)
        ensures
            dest_bless_model(*final(self)) == vote_spec(
                *old(self),
                config_version,
                *voter,
                *tagged_root,
            ),
            final(self).my_vote_address == old(self).my_vote_address,
            final(self).commit_store_address == old(self).commit_store_address,
            final(self).config_version == old(self).config_version,
    {
        if config_version == self.config_version && *voter == self.my_vote_address
            && tagged_root.commit_store == self.commit_store_address {
            if !roots_contain(&self.blessed_roots, &tagged_root.root) {
                roots_insert(&mut self.my_voted_but_not_yet_blessed_roots, tagged_root.root);
            }
        }
    }
}

/// Whether no root is both blessed and awaiting a blessing after our vote.
pub open spec fn dest_bless_inv(s: DestBlessState) -> bool {
    forall|r: Seq<u8>|
        !(#[trigger] root_set(s.blessed_roots@).contains(r) && root_set(
            s.my_voted_but_not_yet_blessed_roots@,
        ).contains(r))
}

impl State for DestBlessState {
    type ContractEventFilter = VersionedDestEventFilter;

    open spec fn inv(&self) -> bool {
        dest_bless_inv(*self)
    }

    open spec fn steps_to(
        &self,
        block_number: u64,
        block_hash: Bytes32,
        address: Address,
        filter: VersionedDestEventFilter,
        ev: DestEventUnion,
        r: Result<(), StateError>,
        next: Self,
    ) -> bool {
        &&& next.my_vote_address == self.my_vote_address
        &&& next.commit_store_address == self.commit_store_address
        &&& next.config_version == self.config_version
        &&& match dest_bless_update_spec(*self, filter.lane_type, ev) {
            Err(e) => r == Err::<(), StateError>(e) && dest_bless_model(next) == dest_bless_model(*self),
            Ok(m) => r is Ok && dest_bless_model(next) == m,
        }
    }

    fn update_with_event(
        &mut self,
        block_number: u64,
        block_hash: Bytes32,
        address: Address,
        filter: &VersionedDestEventFilter,
        ev: DestEventUnion,
    ) -> (r: Result<(), StateError>)
        ensures
            final(self).my_vote_address == old(self).my_vote_address,
            final(self).commit_store_address == old(self).commit_store_address,
            final(self).config_version == old(self).config_version,
            match dest_bless_update_spec(*old(self), filter.lane_type, ev) {
                Err(e) => r == Err::<(), StateError>(e) && dest_bless_model(*final(self))
                    == dest_bless_model(*old(self)),
                Ok(m) => r is Ok && dest_bless_model(*final(self)) == m,
            },
    {
        match ev {
            DestEventUnion::Blessed(e) => self.bless(&e.tagged_root),
            DestEventUnion::AlreadyBlessed(e) => self.bless(&e.tagged_root),
            DestEventUnion::Voted(e) => self.vote(e.config_version, &e.voter, &e.tagged_root),
            DestEventUnion::AlreadyVoted(e) => self.vote(e.config_version, &e.voter, &e.tagged_root),
            DestEventUnion::BlessVotesReset(e) => {
                if e.config_version == self.config_version && e.tagged_root.commit_store
                    == self.commit_store_address {
                    roots_remove(&mut self.blessed_roots, &e.tagged_root.root);
                    roots_remove(&mut self.my_voted_but_not_yet_blessed_roots, &e.tagged_root.root);
                }
            },
            DestEventUnion::CommittedV1_0(e) => {
                if filter.lane_type != LaneType::Evm2EvmV1_0 {
                    return Err(StateError::LaneTypeMismatch);
                }
                self.committed_roots_with_intervals.push(e.report.root_with_interval());
            },
            DestEventUnion::CommittedV1_2(e) => {
                if filter.lane_type != LaneType::Evm2EvmV1_2 {
                    return Err(StateError::LaneTypeMismatch);
                }
                self.committed_roots_with_intervals.push(e.report.root_with_interval());
            },
        }
        Ok(())
    }

    fn duplicate(&self) -> (r: Self)
        ensures
            r.my_vote_address == self.my_vote_address,
            r.commit_store_address == self.commit_store_address,
            r.config_version == self.config_version,
            r.my_voted_but_not_yet_blessed_roots@ == self.my_voted_but_not_yet_blessed_roots@,
            r.blessed_roots@ == self.blessed_roots@,
            r.committed_roots_with_intervals@ == self.committed_roots_with_intervals@,
    {
        DestBlessState {
            my_vote_address: self.my_vote_address,
            commit_store_address: self.commit_store_address,
            config_version: self.config_version,
            my_voted_but_not_yet_blessed_roots: copy_roots(&self.my_voted_but_not_yet_blessed_roots),
            blessed_roots: copy_roots(&self.blessed_roots),
            committed_roots_with_intervals: copy_committed(&self.committed_roots_with_intervals),
        }
    }
}

fn copy_roots(v: &Vec<Bytes32>) -> (r: Vec<Bytes32>)
    ensures
        r@ == v@,
{
    let mut r: Vec<Bytes32> = Vec::new();
    let mut i: usize = 0;
    while i < v.len()
        invariant
            i <= v@.len(),
            r@ == v@.subrange(0, i as int),
        decreases v@.len() - i,
    {
        r.push(v[i]);
        i = i + 1;
        assert(r@ =~= v@.subrange(0, i as int));
    }
    assert(r@ =~= v@);
    r
}

fn copy_committed(v: &Vec<RootWithInterval>) -> (r: Vec<RootWithInterval>)
    ensures
        r@ == v@,
{
    let mut r: Vec<RootWithInterval> = Vec::new();
    let mut i: usize = 0;
    while i < v.len()
        invariant
            i <= v@.len(),
            r@ == v@.subrange(0, i as int),
        decreases v@.len() - i,
    {
        r.push(v[i]);
        i = i + 1;
        assert(r@ =~= v@.subrange(0, i as int));
    }
    assert(r@ =~= v@);
    r
}


/// Which event of a destination chain a log holds.
#[derive(Debug, Clone, Copy, PartialEq, Eq, Structural)]
pub enum DestEventKind {
    Blessed,
    BlessVotesReset,
    AlreadyBlessed,
    Voted,
    AlreadyVoted,
    CommittedV1_0,
    CommittedV1_2,
}

/// The kind and the value model of a destination event.
pub open spec fn dest_event_model(u: DestEventUnion) -> (DestEventKind, ValueV) {
    match u {
        DestEventUnion::Blessed(e) => (DestEventKind::Blessed, e.spec_event_value()),
        DestEventUnion::BlessVotesReset(e) => (DestEventKind::BlessVotesReset, e.spec_event_value()),
        DestEventUnion::AlreadyBlessed(e) => (DestEventKind::AlreadyBlessed, e.spec_event_value()),
        DestEventUnion::Voted(e) => (DestEventKind::Voted, e.spec_event_value()),
        DestEventUnion::AlreadyVoted(e) => (DestEventKind::AlreadyVoted, e.spec_event_value()),
        DestEventUnion::CommittedV1_0(e) => (DestEventKind::CommittedV1_0, e.spec_event_value()),
        DestEventUnion::CommittedV1_2(e) => (DestEventKind::CommittedV1_2, e.spec_event_value()),
    }
}

/// Tags what decoding a log gave with the kind of the event.
pub open spec fn tag_kind(r: Result<ValueV, LogDecodeError>, kind: DestEventKind) -> Result<
    (DestEventKind, ValueV),
    LogDecodeError,
> {
    match r {
        Err(e) => Err(e),
        Ok(v) => Ok((kind, v)),
    }
}

/// Whether the first topic `t` is the topic of the event `T`.
pub open spec fn is_topic_of<T: LogSignature>(t: Seq<u8>) -> bool {
    t == log_topic_spec(T::spec_log_signature())
}

/// What reading a log of a destination chain of a lane of `lane_type` gives.
pub open spec fn dest_decode_spec(lane_type: LaneType, log: EVMLog) -> Result<
    (DestEventKind, ValueV),
    LogDecodeError,
> {
    if log.topics@.len() == 0 {
        Err(LogDecodeError::MissingTopic { index: 0 })
    } else {
        let t = log.topics@[0]@;
        if is_topic_of::<TaggedRootBlessedEvent>(t) {
            tag_kind(TaggedRootBlessedEvent::spec_decode_log(log), DestEventKind::Blessed)
        } else if is_topic_of::<TaggedRootBlessVotesResetEvent>(t) {
            tag_kind(TaggedRootBlessVotesResetEvent::spec_decode_log(log), DestEventKind::BlessVotesReset)
        } else if is_topic_of::<AlreadyBlessedEvent>(t) {
            tag_kind(AlreadyBlessedEvent::spec_decode_log(log), DestEventKind::AlreadyBlessed)
        } else if is_topic_of::<VotedToBlessEvent>(t) {
            tag_kind(VotedToBlessEvent::spec_decode_log(log), DestEventKind::Voted)
        } else if is_topic_of::<AlreadyVotedToBlessEvent>(t) {
            tag_kind(AlreadyVotedToBlessEvent::spec_decode_log(log), DestEventKind::AlreadyVoted)
        } else if is_topic_of::<ReportAcceptedEventV1_0>(t) && lane_type == LaneType::Evm2EvmV1_0 {
            tag_kind(ReportAcceptedEventV1_0::spec_decode_log(log), DestEventKind::CommittedV1_0)
        } else if is_topic_of::<ReportAcceptedEventV1_2>(t) && lane_type == LaneType::Evm2EvmV1_2 {
            tag_kind(ReportAcceptedEventV1_2::spec_decode_log(log), DestEventKind::CommittedV1_2)
        } else {
            Err(LogDecodeError::UnknownTopic)
        }
    }
}

/// Reads the events of the RMN contract and of a commit store of one lane
/// version.
#[derive(Clone, Copy, Debug)]
pub struct VersionedDestEventFilter {
    pub lane_type: LaneType,
}

impl ContractEventFilter for VersionedDestEventFilter {
    type ContractEventUnion = DestEventUnion;


    fn clone_filter(&self) -> (r: Self)
        ensures
            r == *self,
    {
        *self
    }

    fn log_topics(&self) -> (r: Vec<Bytes32>)
        ensures
            r@.len() == 6,
            r@[0]@ == log_topic_spec(TaggedRootBlessedEvent::spec_log_signature()),
            r@[1]@ == log_topic_spec(TaggedRootBlessVotesResetEvent::spec_log_signature()),
            r@[2]@ == log_topic_spec(AlreadyBlessedEvent::spec_log_signature()),
            r@[3]@ == log_topic_spec(VotedToBlessEvent::spec_log_signature()),
            r@[4]@ == log_topic_spec(AlreadyVotedToBlessEvent::spec_log_signature()),
            r@[5]@ == log_topic_spec(
                match self.lane_type {
                    LaneType::Evm2EvmV1_0 => ReportAcceptedEventV1_0::spec_log_signature(),
                    LaneType::Evm2EvmV1_2 => ReportAcceptedEventV1_2::spec_log_signature(),
                },
            ),
    {
        let mut r: Vec<Bytes32> = Vec::new();
        r.push(TaggedRootBlessedEvent::log_topic());
        r.push(TaggedRootBlessVotesResetEvent::log_topic());
        r.push(AlreadyBlessedEvent::log_topic());
        r.push(VotedToBlessEvent::log_topic());
        r.push(AlreadyVotedToBlessEvent::log_topic());
        match self.lane_type {
            LaneType::Evm2EvmV1_0 => r.push(ReportAcceptedEventV1_0::log_topic()),
            LaneType::Evm2EvmV1_2 => r.push(ReportAcceptedEventV1_2::log_topic()),
        }
        r
    }

    open spec fn decodes_to(&self, log: EVMLog, r: Result<DestEventUnion, LogDecodeError>) -> bool {
        match dest_decode_spec(self.lane_type, log) {
            Err(e) => r == Err::<DestEventUnion, LogDecodeError>(e),
            Ok(m) => r matches Ok(u) && dest_event_model(u) == m,
        }
    }

    fn decode_log(&self, log: EVMLog) -> (r: Result<DestEventUnion, LogDecodeError>)
        ensures
            match dest_decode_spec(self.lane_type, log) {
                Err(e) => r == Err::<DestEventUnion, LogDecodeError>(e),
                Ok(m) => r matches Ok(u) && dest_event_model(u) == m,
            },
    {
        if log.topics.len() == 0 {
            return Err(LogDecodeError::MissingTopic { index: 0 });
        }
        let topic = log.topics[0];
        if topic == TaggedRootBlessedEvent::log_topic() {
            match TaggedRootBlessedEvent::decode_log(log) {
                Ok(e) => Ok(DestEventUnion::Blessed(e)),
                Err(e) => Err(e),
            }
        } else if topic == TaggedRootBlessVotesResetEvent::log_topic() {
            match TaggedRootBlessVotesResetEvent::decode_log(log) {
                Ok(e) => Ok(DestEventUnion::BlessVotesReset(e)),
                Err(e) => Err(e),
            }
        } else if topic == AlreadyBlessedEvent::log_topic() {
            match AlreadyBlessedEvent::decode_log(log) {
                Ok(e) => Ok(DestEventUnion::AlreadyBlessed(e)),
                Err(e) => Err(e),
            }
        } else if topic == VotedToBlessEvent::log_topic() {
            match VotedToBlessEvent::decode_log(log) {
                Ok(e) => Ok(DestEventUnion::Voted(e)),
                Err(e) => Err(e),
            }
        } else if topic == AlreadyVotedToBlessEvent::log_topic() {
            match AlreadyVotedToBlessEvent::decode_log(log) {
                Ok(e) => Ok(DestEventUnion::AlreadyVoted(e)),
                Err(e) => Err(e),
            }
        } else if topic == ReportAcceptedEventV1_0::log_topic() && self.lane_type
            == LaneType::Evm2EvmV1_0 {
            match ReportAcceptedEventV1_0::decode_log(log) {
                Ok(e) => Ok(DestEventUnion::CommittedV1_0(e)),
                Err(e) => Err(e),
            }
        } else if topic == ReportAcceptedEventV1_2::log_topic() && self.lane_type
            == LaneType::Evm2EvmV1_2 {
            match ReportAcceptedEventV1_2::decode_log(log) {
                Ok(e) => Ok(DestEventUnion::CommittedV1_2(e)),
                Err(e) => Err(e),
            }
        } else {
            Err(LogDecodeError::UnknownTopic)
        }
    }
}


/// Reads the `ExecutionStateChanged` events of an off-ramp.
#[derive(Clone, Copy, Debug)]
pub struct SimpleExecutionStateChangedFilter;

impl ContractEventFilter for SimpleExecutionStateChangedFilter {
    type ContractEventUnion = ExecutionStateChanged;


    fn clone_filter(&self) -> (r: Self)
        ensures
            r == *self,
    {
        *self
    }

    fn log_topics(&self) -> (r: Vec<Bytes32>)
        ensures
            r@.len() == 1,
            r@[0]@ == log_topic_spec(ExecutionStateChanged::spec_log_signature()),
    {
        let mut r: Vec<Bytes32> = Vec::new();
        r.push(ExecutionStateChanged::log_topic());
        r
    }

    open spec fn decodes_to(&self, log: EVMLog, r: Result<ExecutionStateChanged, LogDecodeError>) -> bool {
        match crate::common::check_event_topic_spec(
            log.topics@,
            log_topic_spec(ExecutionStateChanged::spec_log_signature()),
        ) {
            Err(e) => r == Err::<ExecutionStateChanged, LogDecodeError>(e),
            Ok(_) => match ExecutionStateChanged::spec_decode_log(log) {
                Err(e) => r == Err::<ExecutionStateChanged, LogDecodeError>(e),
                Ok(v) => r matches Ok(x) && x.spec_event_value() == v,
            },
        }
    }

    fn decode_log(&self, log: EVMLog) -> (r: Result<ExecutionStateChanged, LogDecodeError>)
        ensures
            match crate::common::check_event_topic_spec(
                log.topics@,
                log_topic_spec(ExecutionStateChanged::spec_log_signature()),
            ) {
                Err(e) => r == Err::<ExecutionStateChanged, LogDecodeError>(e),
                Ok(_) => match ExecutionStateChanged::spec_decode_log(log) {
                    Err(e) => r == Err::<ExecutionStateChanged, LogDecodeError>(e),
                    Ok(v) => r matches Ok(x) && x.spec_event_value() == v,
                },
            },
    {
        ExecutionStateChanged::decode_log(log)
    }
}

/// Something wrong that the events of an off-ramp show.
#[derive(Clone, Copy, Debug, PartialEq, Eq, Hash)]
pub enum OffRampStateAnomaly {
    /// A message was executed twice, or two messages have one sequence number.
    DoubleExecution {
        seq_nr: u64,
        old_message_id: Option<Bytes32>,
        new_message_id: Bytes32,
        new_state: MessageExecutionState,
    },
    /// A message went into a state that execution does not end in.
    InvalidMessageState { seq_nr: u64, message_id: Bytes32, state: MessageExecutionState },
}

/// The executions of the messages of an off-ramp, as its events build them up.
#[derive(Debug)]
pub struct DestOffRampState {
    pub successfully_executed_seq_nrs: BitSet,
    pub local_anomalies: Vec<OffRampStateAnomaly>,
    pub message_id_by_sequence_number: BTreeMap<u64, Bytes32>,
    pub max_sequence_number: Option<u64>,
}

/// The message id that the map held for `seq_nr` before.
pub open spec fn old_message_id(m: Map<u64, Bytes32>, seq_nr: u64) -> Option<Bytes32> {
    if m.contains_key(seq_nr) {
        Some(m[seq_nr])
    } else {
        None
    }
}

/// The anomalies that an execution state change adds, given the message id
/// held before and whether the message had been executed successfully.
pub open spec fn new_anomalies(
    ev: ExecutionStateChanged,
    old_id: Option<Bytes32>,
    executed: bool,
) -> Seq<OffRampStateAnomaly> {
    let double = OffRampStateAnomaly::DoubleExecution {
        seq_nr: ev.sequence_number,
        old_message_id: old_id,
        new_message_id: ev.message_id,
        new_state: ev.state,
    };
    let first = match old_id {
        Some(o) => if o@ != ev.message_id@ {
            seq![double]
        } else {
            seq![]
        },
        None => seq![],
    };
    let second = if executed {
        seq![double]
    } else {
        match ev.state {
            MessageExecutionState::Success => seq![],
            MessageExecutionState::Failure => seq![],
            _ => seq![
                OffRampStateAnomaly::InvalidMessageState {
                    seq_nr: ev.sequence_number,
                    message_id: ev.message_id,
                    state: ev.state,
                },
            ],
        }
    };
    first + second
}

impl Default for DestOffRampState {
    fn default() -> (r: Self)
        ensures
            bitset_contents(r.successfully_executed_seq_nrs) == Set::<usize>::empty(),
            r.local_anomalies@ == Seq::<OffRampStateAnomaly>::empty(),
            r.message_id_by_sequence_number@ == Map::<u64, Bytes32>::empty(),
            r.max_sequence_number is None,
    {
        DestOffRampState {
            successfully_executed_seq_nrs: bitset_new(),
            local_anomalies: Vec::new(),
            message_id_by_sequence_number: BTreeMap::new(),
            max_sequence_number: None,
        }
    }
}

impl DestOffRampState {
    /// Forgets the message ids of the sequence numbers `seq_nrs`.
    pub fn reap_message_ids(&mut self, seq_nrs: &[u64])
        ensures
            final(self).message_id_by_sequence_number@ == old(self).message_id_by_sequence_number@.remove_keys(seq_nrs@.to_set()),
            final(self).local_anomalies@ == old(self).local_anomalies@,
            final(self).max_sequence_number == old(self).max_sequence_number,
            bitset_contents(final(self).successfully_executed_seq_nrs) == bitset_contents(
                old(self).successfully_executed_seq_nrs,
            ),
    {
        let ghost m0 = self.message_id_by_sequence_number@;
        let mut i: usize = 0;
        while i < seq_nrs.len()
            invariant
                i <= seq_nrs@.len(),
                self.message_id_by_sequence_number@ == m0.remove_keys(
                    seq_nrs@.subrange(0, i as int).to_set(),
                ),
                self.local_anomalies@ == old(self).local_anomalies@,
                self.max_sequence_number == old(self).max_sequence_number,
                bitset_contents(self.successfully_executed_seq_nrs) == bitset_contents(
                    old(self).successfully_executed_seq_nrs,
                ),
            decreases seq_nrs@.len() - i,
        {
            let ghost before = self.message_id_by_sequence_number@;
            self.message_id_by_sequence_number.remove(&seq_nrs[i]);
            proof {
                let p = seq_nrs@.subrange(0, i + 1);
                assert(p.to_set() =~= seq_nrs@.subrange(0, i as int).to_set().insert(seq_nrs@[i as int])) by {
                    assert forall|x: u64| #[trigger] p.to_set().contains(x) == seq_nrs@.subrange(0, i as int).to_set().insert(seq_nrs@[i as int]).contains(x) by {
                        if p.contains(x) {
                            let k = choose|k: int| 0 <= k < p.len() && p[k] == x;
                            if k < i {
                                assert(seq_nrs@.subrange(0, i as int)[k] == x);
                            }
                        }
                        if seq_nrs@.subrange(0, i as int).contains(x) {
                            let k = choose|k: int| 0 <= k < i && seq_nrs@.subrange(0, i as int)[k] == x;
                            assert(p[k] == x);
                        }
                        if x == seq_nrs@[i as int] {
                            assert(p[i as int] == x);
                        }
                    }
                }
                assert(self.message_id_by_sequence_number@ =~= m0.remove_keys(p.to_set()));
            }
            i = i + 1;
        }
        assert(seq_nrs@.subrange(0, seq_nrs@.len() as int) =~= seq_nrs@);
    }
}

impl State for DestOffRampState {
    type ContractEventFilter = SimpleExecutionStateChangedFilter;

    open spec fn inv(&self) -> bool {
        true
    }

    open spec fn steps_to(
        &self,
        block_number: u64,
        block_hash: Bytes32,
        address: Address,
        filter: SimpleExecutionStateChangedFilter,
        ev: ExecutionStateChanged,
        r: Result<(), StateError>,
        next: Self,
    ) -> bool {
        let m0 = self.message_id_by_sequence_number@;
        let bits0 = bitset_contents(self.successfully_executed_seq_nrs);
        let seq_nr = ev.sequence_number;
        let executed = bits0.contains(seq_nr as usize);
        if (seq_nr as usize) == usize::MAX {
            &&& r == Err::<(), StateError>(StateError::SequenceNumberOutOfRange { seq_nr })
            &&& next.message_id_by_sequence_number@ == m0
            &&& next.local_anomalies@ == self.local_anomalies@
            &&& bitset_contents(next.successfully_executed_seq_nrs) == bits0
            &&& next.max_sequence_number == self.max_sequence_number
        } else {
            &&& r is Ok
            &&& next.message_id_by_sequence_number@ == m0.insert(seq_nr, ev.message_id)
            &&& next.local_anomalies@ == self.local_anomalies@ + new_anomalies(
                ev,
                old_message_id(m0, seq_nr),
                executed,
            )
            &&& bitset_contents(next.successfully_executed_seq_nrs) == if !executed && ev.state
                == MessageExecutionState::Success {
                bits0.insert(seq_nr as usize)
            } else {
                bits0
            }
            &&& next.max_sequence_number == if seq_nr >= match self.max_sequence_number {
                Some(m) => m,
                None => 0,
            } {
                Some(seq_nr)
            } else {
                self.max_sequence_number
            }
        }
    }

    fn update_with_event(
        &mut self,
        block_number: u64,
        block_hash: Bytes32,
        address: Address,
        filter: &SimpleExecutionStateChangedFilter,
        ev: ExecutionStateChanged,
    ) -> (r: Result<(), StateError>)
        ensures
            ({
                let m0 = old(self).message_id_by_sequence_number@;
                let bits0 = bitset_contents(old(self).successfully_executed_seq_nrs);
                let seq_nr = ev.sequence_number;
                let executed = bits0.contains(seq_nr as usize);
                if (seq_nr as usize) == usize::MAX {
                    &&& r == Err::<(), StateError>(StateError::SequenceNumberOutOfRange { seq_nr })
                    &&& final(self).message_id_by_sequence_number@ == m0
                    &&& final(self).local_anomalies@ == old(self).local_anomalies@
                    &&& bitset_contents(final(self).successfully_executed_seq_nrs) == bits0
                    &&& final(self).max_sequence_number == old(self).max_sequence_number
                } else {
                    &&& r is Ok
                    &&& final(self).message_id_by_sequence_number@ == m0.insert(seq_nr, ev.message_id)
                    &&& final(self).local_anomalies@ == old(self).local_anomalies@ + new_anomalies(
                        ev,
                        old_message_id(m0, seq_nr),
                        executed,
                    )
                    &&& bitset_contents(final(self).successfully_executed_seq_nrs) == if !executed
                        && ev.state == MessageExecutionState::Success {
                        bits0.insert(seq_nr as usize)
                    } else {
                        bits0
                    }
                    &&& final(self).max_sequence_number == if seq_nr >= match old(self).max_sequence_number {
                        Some(m) => m,
                        None => 0,
                    } {
                        Some(seq_nr)
                    } else {
                        old(self).max_sequence_number
                    }
                }
            }),
    {
        let seq_nr = ev.sequence_number;
        let index = seq_nr as usize;
        if index == usize::MAX {
            return Err(StateError::SequenceNumberOutOfRange { seq_nr });
        }
        let ghost a0 = self.local_anomalies@;
        let old_message_id = self.message_id_by_sequence_number.insert(seq_nr, ev.message_id);
        let double = OffRampStateAnomaly::DoubleExecution {
            seq_nr,
            old_message_id,
            new_message_id: ev.message_id,
            new_state: ev.state,
        };
        match old_message_id {
            Some(o) => {
                if o != ev.message_id {
                    self.local_anomalies.push(double);
                }
            },
            None => {},
        }
        let ghost a1 = self.local_anomalies@;
        let executed = bitset_contains(&self.successfully_executed_seq_nrs, index);
        if executed {
            self.local_anomalies.push(double);
        } else {
            match ev.state {
                MessageExecutionState::Failure => {},
                MessageExecutionState::Success => {
                    bitset_insert(&mut self.successfully_executed_seq_nrs, index);
                },
                state => {
                    self.local_anomalies.push(
                        OffRampStateAnomaly::InvalidMessageState {
                            seq_nr,
                            message_id: ev.message_id,
                            state,
                        },
                    );
                },
            }
        }
        proof {
            assert(self.local_anomalies@ =~= a0 + new_anomalies(
                ev,
                old_message_id,
                executed,
            ));
        }
        let max = match self.max_sequence_number {
            Some(m) => m,
            None => 0,
        };
        if seq_nr >= max {
            self.max_sequence_number = Some(seq_nr);
        }
        Ok(())
    }

    fn duplicate(&self) -> (r: Self)
        ensures
            bitset_contents(r.successfully_executed_seq_nrs) == bitset_contents(
                self.successfully_executed_seq_nrs,
            ),
            r.local_anomalies@ == self.local_anomalies@,
            r.message_id_by_sequence_number@ == self.message_id_by_sequence_number@,
            r.max_sequence_number == self.max_sequence_number,
    {
        let mut anomalies: Vec<OffRampStateAnomaly> = Vec::new();
        let mut i: usize = 0;
        while i < self.local_anomalies.len()
            invariant
                i <= self.local_anomalies@.len(),
                anomalies@ == self.local_anomalies@.subrange(0, i as int),
            decreases self.local_anomalies@.len() - i,
        {
            anomalies.push(self.local_anomalies[i]);
            i = i + 1;
            assert(anomalies@ =~= self.local_anomalies@.subrange(0, i as int));
        }
        assert(anomalies@ =~= self.local_anomalies@);
        DestOffRampState {
            successfully_executed_seq_nrs: bitset_clone(&self.successfully_executed_seq_nrs),
            local_anomalies: anomalies,
            message_id_by_sequence_number: self.message_id_by_sequence_number.clone(),
            max_sequence_number: self.max_sequence_number,
        }
    }
}

/// A message executed successfully once and then executed again is reported:
/// an execution state change for a sequence number that the state already
/// holds as successfully executed is accepted and appends, as the last new
/// anomaly, a double execution of that sequence number with the message id
/// held before, the new message id and the new state. The anomalies held
/// before stay, in order.
pub proof fn law_reexecution_is_double_execution(
    s: DestOffRampState,
    block_number: u64,
    block_hash: Bytes32,
    address: Address,
    filter: SimpleExecutionStateChangedFilter,
    ev: ExecutionStateChanged,
    r: Result<(), StateError>,
    next: DestOffRampState,
)
    requires
        s.steps_to(block_number, block_hash, address, filter, ev, r, next),
        bitset_contents(s.successfully_executed_seq_nrs).contains(ev.sequence_number as usize),
        (ev.sequence_number as usize) != usize::MAX,
    ensures
        r is Ok,
        next.local_anomalies@.len() > s.local_anomalies@.len(),
        next.local_anomalies@.subrange(0, s.local_anomalies@.len() as int) == s.local_anomalies@,
        next.local_anomalies@.last() == (OffRampStateAnomaly::DoubleExecution {
            seq_nr: ev.sequence_number,
            old_message_id: if s.message_id_by_sequence_number@.contains_key(ev.sequence_number) {
                Some(s.message_id_by_sequence_number@[ev.sequence_number])
            } else {
                None
            },
            new_message_id: ev.message_id,
            new_state: ev.state,
        }),
        bitset_contents(next.successfully_executed_seq_nrs) == bitset_contents(
            s.successfully_executed_seq_nrs,
        ),
{
    let a0 = s.local_anomalies@;
    let added = new_anomalies(
        ev,
        old_message_id(s.message_id_by_sequence_number@, ev.sequence_number),
        true,
    );
    assert(next.local_anomalies@ == a0 + added);
    assert((a0 + added).subrange(0, a0.len() as int) =~= a0);
}

/// The other anomalies of an execution state change of a message not yet
/// executed successfully: a message id that differs from the one held for the
/// sequence number is a double execution; a state that execution does not end
/// in (neither success nor failure) is an invalid message state; a success
/// marks the sequence number as executed; and a first success or failure of
/// the message id held, if any, adds no anomaly.
pub proof fn law_first_execution_anomalies(
    s: DestOffRampState,
    block_number: u64,
    block_hash: Bytes32,
    address: Address,
    filter: SimpleExecutionStateChangedFilter,
    ev: ExecutionStateChanged,
    r: Result<(), StateError>,
    next: DestOffRampState,
)
    requires
        s.steps_to(block_number, block_hash, address, filter, ev, r, next),
        !bitset_contents(s.successfully_executed_seq_nrs).contains(ev.sequence_number as usize),
        (ev.sequence_number as usize) != usize::MAX,
    ensures
        r is Ok,
        next.local_anomalies@.len() >= s.local_anomalies@.len(),
        next.local_anomalies@.subrange(0, s.local_anomalies@.len() as int) == s.local_anomalies@,
        ({
            let m0 = s.message_id_by_sequence_number@;
            let k = ev.sequence_number;
            let n = s.local_anomalies@.len() as int;
            &&& (m0.contains_key(k) && m0[k]@ != ev.message_id@) ==> next.local_anomalies@.len() > n
                && next.local_anomalies@[n] == (OffRampStateAnomaly::DoubleExecution {
                seq_nr: k,
                old_message_id: Some(m0[k]),
                new_message_id: ev.message_id,
                new_state: ev.state,
            })
            &&& (ev.state != MessageExecutionState::Success && ev.state
                != MessageExecutionState::Failure) ==> next.local_anomalies@.len() > n
                && next.local_anomalies@.last() == (OffRampStateAnomaly::InvalidMessageState {
                seq_nr: k,
                message_id: ev.message_id,
                state: ev.state,
            })
            &&& (!(m0.contains_key(k) && m0[k]@ != ev.message_id@) && (ev.state
                == MessageExecutionState::Success || ev.state == MessageExecutionState::Failure))
                ==> next.local_anomalies@ == s.local_anomalies@
        }),
        bitset_contents(next.successfully_executed_seq_nrs) == if ev.state
            == MessageExecutionState::Success {
            bitset_contents(s.successfully_executed_seq_nrs).insert(ev.sequence_number as usize)
        } else {
            bitset_contents(s.successfully_executed_seq_nrs)
        },
{
    let a0 = s.local_anomalies@;
    let added = new_anomalies(
        ev,
        old_message_id(s.message_id_by_sequence_number@, ev.sequence_number),
        false,
    );
    assert(next.local_anomalies@ == a0 + added);
    assert((a0 + added).subrange(0, a0.len() as int) =~= a0);
    if ev.state == MessageExecutionState::Success || ev.state == MessageExecutionState::Failure {
        let m0 = s.message_id_by_sequence_number@;
        let k = ev.sequence_number;
        if !(m0.contains_key(k) && m0[k]@ != ev.message_id@) {
            assert(added =~= Seq::<OffRampStateAnomaly>::empty());
            assert(a0 + added =~= a0);
        }
    }
}

/// Only this monitor's own votes are its votes: a `Voted` or `AlreadyVoted`
/// event whose voter is another address is accepted and leaves the roots
/// voted for by this monitor, the blessed roots and the committed roots as
/// they were.
pub proof fn law_others_votes_are_not_ours(
    s: DestBlessState,
    block_number: u64,
    block_hash: Bytes32,
    address: Address,
    filter: VersionedDestEventFilter,
    ev: DestEventUnion,
    r: Result<(), StateError>,
    next: DestBlessState,
)
    requires
        s.steps_to(block_number, block_hash, address, filter, ev, r, next),
        match ev {
            DestEventUnion::Voted(e) => e.voter@ != s.my_vote_address@,
            DestEventUnion::AlreadyVoted(e) => e.voter@ != s.my_vote_address@,
            _ => false,
        },
    ensures
        r is Ok,
        root_set(next.my_voted_but_not_yet_blessed_roots@) == root_set(
            s.my_voted_but_not_yet_blessed_roots@,
        ),
        root_set(next.blessed_roots@) == root_set(s.blessed_roots@),
        next.committed_roots_with_intervals@ == s.committed_roots_with_intervals@,
{
}

/// This monitor's own vote counts: a `Voted` or `AlreadyVoted` event of this
/// monitor's vote address, under the current configuration version, for a
/// root of its commit store that is not blessed, is accepted and puts the root
/// among the roots voted for by this monitor, with the other roots as they
/// were.
pub proof fn law_own_vote_is_recorded(
    s: DestBlessState,
    block_number: u64,
    block_hash: Bytes32,
    address: Address,
    filter: VersionedDestEventFilter,
    ev: DestEventUnion,
    r: Result<(), StateError>,
    next: DestBlessState,
    voter: Address,
    config_version: u32,
    tagged_root: TaggedRoot,
)
    requires
        s.steps_to(block_number, block_hash, address, filter, ev, r, next),
        match ev {
            DestEventUnion::Voted(e) => e.voter == voter && e.config_version == config_version
                && e.tagged_root == tagged_root,
            DestEventUnion::AlreadyVoted(e) => e.voter == voter && e.config_version
                == config_version && e.tagged_root == tagged_root,
            _ => false,
        },
        voter@ == s.my_vote_address@,
        config_version == s.config_version,
        tagged_root.commit_store@ == s.commit_store_address@,
        !root_set(s.blessed_roots@).contains(tagged_root.root@),
    ensures
        r is Ok,
        root_set(next.my_voted_but_not_yet_blessed_roots@) == root_set(
            s.my_voted_but_not_yet_blessed_roots@,
        ).insert(tagged_root.root@),
        root_set(next.blessed_roots@) == root_set(s.blessed_roots@),
{
}

/// A blessing of a root of this commit store, reported as `Blessed` or
/// `AlreadyBlessed`, is accepted, makes the root blessed and takes it out of
/// the roots awaiting a blessing after this monitor's vote; a blessing of a
/// root of another commit store changes nothing.
pub proof fn law_blessing_settles_vote(
    s: DestBlessState,
    block_number: u64,
    block_hash: Bytes32,
    address: Address,
    filter: VersionedDestEventFilter,
    ev: DestEventUnion,
    r: Result<(), StateError>,
    next: DestBlessState,
    tagged_root: TaggedRoot,
)
    requires
        s.steps_to(block_number, block_hash, address, filter, ev, r, next),
        match ev {
            DestEventUnion::Blessed(e) => e.tagged_root == tagged_root,
            DestEventUnion::AlreadyBlessed(e) => e.tagged_root == tagged_root,
            _ => false,
        },
    ensures
        r is Ok,
        next.committed_roots_with_intervals@ == s.committed_roots_with_intervals@,
        tagged_root.commit_store@ == s.commit_store_address@ ==> root_set(next.blessed_roots@)
            == root_set(s.blessed_roots@).insert(tagged_root.root@) && root_set(
            next.my_voted_but_not_yet_blessed_roots@,
        ) == root_set(s.my_voted_but_not_yet_blessed_roots@).remove(tagged_root.root@),
        tagged_root.commit_store@ != s.commit_store_address@ ==> root_set(next.blessed_roots@)
            == root_set(s.blessed_roots@) && root_set(next.my_voted_but_not_yet_blessed_roots@)
            == root_set(s.my_voted_but_not_yet_blessed_roots@),
{
}

/// Where a state machine is in the chain.
#[derive(Clone, Copy, Debug, PartialEq, Eq, Structural)]
pub enum UpdateProgress {
    /// The logs up to the block before this one have been applied.
    NextStartBlockNumber(u64),
    /// The machine applied something that the chain no longer holds.
    Corrupted,
}

/// How far an update got.
#[derive(Clone, Copy, Debug, PartialEq, Eq, Structural)]
pub enum ContractStateMachineUpdateResult {
    /// Every block up to the end asked for has been applied.
    Complete,
    /// The blocks up to `block_number` have been applied.
    Partial { block_number: u64 },
}

/// Whether a machine follows the stable part of the chain or its tip.
#[derive(Clone, Copy, Debug, PartialEq, Eq, Structural)]
pub enum Finality {
    Stable,
    Unstable,
}

/// What an update needs next.
#[derive(Clone, Copy, Debug, PartialEq, Eq, Structural)]
pub enum UpdatePlan {
    /// Nothing: the machine is at the end already.
    UpToDate,
    /// The logs of the blocks `from_block` to `to_block`, from the stable part
    /// of the chain where `stable`.
    FetchLogs { from_block: u64, to_block: u64, stable: bool },
}

/// Why an update failed.
#[derive(Clone, Copy, Debug, PartialEq, Eq, Structural)]
pub enum CesmError {
    /// The machine broke down before.
    Corrupted,
    /// The chain violated finality.
    FinalityViolated,
    /// A log is of a block that the chain status does not hold.
    MissingBlock { block_number: u64 },
    /// A log is of a block whose hash is not that of the chain status.
    BlockHashMismatch { block_number: u64 },
    /// A log could not be read as an event.
    Decode(LogDecodeError),
    /// The state refused an event.
    Update(StateError),
    /// The two machines follow different addresses.
    AddressesMismatch,
}

/// What checking the block of a log against the chain status gives: the
/// unstable part of the chain must hold a block of that number and hash.
pub open spec fn log_block_check(cs: ChainStatus, finality: Finality, log: EVMLog) -> Option<CesmError> {
    match finality {
        Finality::Stable => None,
        Finality::Unstable => {
            let n = log.block_number;
            match cs {
                ChainStatus::FinalityViolated => Some(CesmError::MissingBlock { block_number: n }),
                ChainStatus::Good { tail } => {
                    let first = tail.blocks()[0].number;
                    if first <= n < first + tail.blocks().len() {
                        if tail.blocks()[n - first].hash@ != log.block_hash@ {
                            Some(CesmError::BlockHashMismatch { block_number: n })
                        } else {
                            None
                        }
                    } else {
                        Some(CesmError::MissingBlock { block_number: n })
                    }
                },
            }
        },
    }
}

/// Whether two lists of addresses hold the same addresses in the same order.
pub open spec fn same_addresses(a: Seq<Address>, b: Seq<Address>) -> bool {
    a.len() == b.len() && forall|k: int| 0 <= k < a.len() ==> (#[trigger] a[k])@ == b[k]@
}

/// Whether the blocks of the first `i` logs agree with the chain status.
pub open spec fn checks_pass_upto(cs: ChainStatus, finality: Finality, logs: Seq<EVMLog>, i: int) -> bool {
    forall|j: int| 0 <= j < i ==> log_block_check(cs, finality, #[trigger] logs[j]) is None
}

/// Whether reading the logs `logs` with `filter`, and applying their events
/// one after another to `s0`, takes every event and leaves `s1`.
pub open spec fn applies_all<S: State>(filter: S::ContractEventFilter, s0: S, logs: Seq<EVMLog>, s1: S) -> bool
    decreases logs.len(),
{
    if logs.len() == 0 {
        s1 == s0
    } else {
        let log = logs.last();
        exists|ev: <S::ContractEventFilter as ContractEventFilter>::ContractEventUnion, mid: S|
            #![trigger mid.steps_to(log.block_number, log.block_hash, log.address, filter, ev, Ok::<(), StateError>(()), s1)]
            applies_all(filter, s0, logs.drop_last(), mid) && filter.decodes_to(
                log,
                Ok::<<S::ContractEventFilter as ContractEventFilter>::ContractEventUnion, LogDecodeError>(ev),
            ) && mid.steps_to(
                log.block_number,
                log.block_hash,
                log.address,
                filter,
                ev,
                Ok::<(), StateError>(()),
                s1,
            )
    }
}

/// A state built up from the events of a set of contracts, block by block.
pub struct ContractEventStateMachine<S: State> {
    max_fresh_block_age: u64,
    addresses: Vec<Address>,
    update_progress: UpdateProgress,
    timestamp: Option<u64>,
    state: S,
    contract_event_filter: S::ContractEventFilter,
}

impl<S: State> ContractEventStateMachine<S> {
    /// Whether the state holds its invariant.
    pub closed spec fn wf(&self) -> bool {
        self.state.inv()
    }

    /// Where the machine is in the chain.
    pub closed spec fn progress(&self) -> UpdateProgress {
        self.update_progress
    }

    /// The timestamp of the newest block that the machine has caught up with.
    pub closed spec fn latest_timestamp(&self) -> Option<u64> {
        self.timestamp
    }

    /// The state.
    pub closed spec fn spec_state(&self) -> S {
        self.state
    }

    /// The filter that reads the logs.
    pub closed spec fn spec_filter(&self) -> S::ContractEventFilter {
        self.contract_event_filter
    }

    /// The addresses whose logs the machine reads.
    pub closed spec fn spec_addresses(&self) -> Seq<Address> {
        self.addresses@
    }

    /// The age in seconds up to which the newest block counts as fresh.
    pub closed spec fn spec_max_fresh_block_age(&self) -> u64 {
        self.max_fresh_block_age
    }

    /// A machine that starts at block `start_block_number` with `initial_state`.
    pub fn new(
        max_fresh_block_age: u64,
        start_block_number: u64,
        addresses: Vec<Address>,
        initial_state: S,
        contract_event_filter: S::ContractEventFilter,
    ) -> (r: Self)
        requires
            initial_state.inv(),
        ensures
            r.wf(),
            r.progress() == UpdateProgress::NextStartBlockNumber(start_block_number),
            r.latest_timestamp() is None,
            r.spec_state() == initial_state,
            r.spec_addresses() == addresses@,
            r.spec_max_fresh_block_age() == max_fresh_block_age,
    {
        ContractEventStateMachine {
            max_fresh_block_age,
            addresses,
            update_progress: UpdateProgress::NextStartBlockNumber(start_block_number),
            timestamp: None,
            state: initial_state,
            contract_event_filter,
        }
    }

    /// The first half of an update: decides, from the progress and the chain
    /// status, which blocks' logs to fetch.
    pub fn plan_update(&mut self, chain_status: &ChainStatus, finality: Finality) -> (r: Result<
        UpdatePlan,
        CesmError,
    >)
        requires
            old(self).wf(),
        ensures
            final(self).wf(),
            final(self).spec_state() == old(self).spec_state(),
            final(self).spec_addresses() == old(self).spec_addresses(),
            final(self).spec_max_fresh_block_age() == old(self).spec_max_fresh_block_age(),
            match old(self).progress() {
                UpdateProgress::Corrupted => r == Err::<UpdatePlan, CesmError>(CesmError::Corrupted)
                    && final(self).progress() == old(self).progress() && final(self).latest_timestamp()
                    == old(self).latest_timestamp(),
                UpdateProgress::NextStartBlockNumber(start) => match *chain_status {
                    ChainStatus::FinalityViolated => r == Err::<UpdatePlan, CesmError>(
                        CesmError::FinalityViolated,
                    ) && final(self).progress() == UpdateProgress::Corrupted && final(self).latest_timestamp() == old(self).latest_timestamp(),
                    ChainStatus::Good { tail } => {
                        let tip = tail.blocks().last();
                        let max_end = match finality {
                            Finality::Stable => tail.blocks()[0].number,
                            Finality::Unstable => tip.number,
                        };
                        &&& final(self).progress() == old(self).progress()
                        &&& if max_end < start {
                            &&& r == Ok::<UpdatePlan, CesmError>(UpdatePlan::UpToDate)
                            &&& final(self).latest_timestamp() == Some(tip.timestamp)
                        } else {
                            &&& r == Ok::<UpdatePlan, CesmError>(
                                UpdatePlan::FetchLogs {
                                    from_block: start,
                                    to_block: max_end,
                                    stable: finality == Finality::Stable,
                                },
                            )
                            &&& final(self).latest_timestamp() == old(self).latest_timestamp()
                        }
                    },
                },
            },
    {
        let start = match self.update_progress {
            UpdateProgress::NextStartBlockNumber(i) => i,
            UpdateProgress::Corrupted => return Err(CesmError::Corrupted),
        };
        let (tip, stable_tip) = match chain_status.tip() {
            None => {
                self.update_progress = UpdateProgress::Corrupted;
                return Err(CesmError::FinalityViolated);
            },
            Some(tip) => match chain_status.stable_tip() {
                Some(stable_tip) => (tip, stable_tip),
                None => {
                    self.update_progress = UpdateProgress::Corrupted;
                    return Err(CesmError::FinalityViolated);
                },
            },
        };
        let max_end = match finality {
            Finality::Stable => stable_tip.number,
            Finality::Unstable => tip.number,
        };
        if max_end < start {
            self.timestamp = Some(tip.timestamp);
            return Ok(UpdatePlan::UpToDate);
        }
        Ok(
            UpdatePlan::FetchLogs {
                from_block: start,
                to_block: max_end,
                stable: finality == Finality::Stable,
            },
        )
    }

    /// The second half of an update: checks the fetched logs of the blocks up
    /// to `end_block_number` against the chain status, applies their events
    /// to the state, and moves on to the block after; the update is complete
    /// where `end_block_number` is the `max_end_block_number` planned.
    pub fn apply_logs(
        &mut self,
        chain_status: &ChainStatus,
        finality: Finality,
        max_end_block_number: u64,
        end_block_number: u64,
        logs: Vec<EVMLog>,
    ) -> (r: Result<ContractStateMachineUpdateResult, CesmError>)
        requires
            old(self).wf(),
            *chain_status is Good,
            end_block_number < u64::MAX,
        ensures
            final(self).wf(),
            final(self).spec_addresses() == old(self).spec_addresses(),
            final(self).spec_max_fresh_block_age() == old(self).spec_max_fresh_block_age(),
            final(self).spec_filter() == old(self).spec_filter(),
            old(self).progress() == UpdateProgress::Corrupted ==> r == Err::<
                ContractStateMachineUpdateResult,
                CesmError,
            >(CesmError::Corrupted) && final(self).progress() == UpdateProgress::Corrupted
                && final(self).spec_state() == old(self).spec_state(),
            match r {
                Ok(res) => {
                    &&& checks_pass_upto(*chain_status, finality, logs@, logs@.len() as int)
                    &&& applies_all(old(self).spec_filter(), old(self).spec_state(), logs@, final(self).spec_state())
                    &&& final(self).progress() == UpdateProgress::NextStartBlockNumber(
                        (end_block_number + 1) as u64,
                    )
                    &&& if end_block_number == max_end_block_number {
                        &&& res == ContractStateMachineUpdateResult::Complete
                        &&& final(self).latest_timestamp() == Some(
                            chain_status->tail.blocks().last().timestamp,
                        )
                    } else {
                        &&& res == ContractStateMachineUpdateResult::Partial {
                            block_number: end_block_number,
                        }
                        &&& final(self).latest_timestamp() == old(self).latest_timestamp()
                    }
                },
                Err(e) => {
                    &&& final(self).latest_timestamp() == old(self).latest_timestamp()
                    &&& match e {
                        CesmError::MissingBlock { .. } => final(self).progress() == old(self).progress() && exists|i: int|
                            0 <= i < logs@.len() && checks_pass_upto(
                                *chain_status,
                                finality,
                                logs@,
                                i,
                            ) && log_block_check(*chain_status, finality, #[trigger] logs@[i])
                                == Some(e) && applies_all(
                                old(self).spec_filter(),
                                old(self).spec_state(),
                                logs@.take(i),
                                final(self).spec_state(),
                            ),
                        CesmError::BlockHashMismatch { .. } => final(self).progress()
                            == UpdateProgress::Corrupted && exists|i: int|
                            0 <= i < logs@.len() && checks_pass_upto(
                                *chain_status,
                                finality,
                                logs@,
                                i,
                            ) && log_block_check(*chain_status, finality, #[trigger] logs@[i])
                                == Some(e) && applies_all(
                                old(self).spec_filter(),
                                old(self).spec_state(),
                                logs@.take(i),
                                final(self).spec_state(),
                            ),
                        CesmError::Decode(d) => final(self).progress() == old(self).progress()
                            && exists|i: int|
                            0 <= i < logs@.len() && checks_pass_upto(
                                *chain_status,
                                finality,
                                logs@,
                                i + 1,
                            ) && applies_all(
                                old(self).spec_filter(),
                                old(self).spec_state(),
                                logs@.take(i),
                                final(self).spec_state(),
                            ) && old(self).spec_filter().decodes_to(
                                #[trigger] logs@[i],
                                Err::<<S::ContractEventFilter as ContractEventFilter>::ContractEventUnion, LogDecodeError>(d),
                            ),
                        CesmError::Update(u) => final(self).progress() == UpdateProgress::Corrupted
                            && exists|i: int, ev: <S::ContractEventFilter as ContractEventFilter>::ContractEventUnion, mid: S|
                            #![trigger mid.steps_to(logs@[i].block_number, logs@[i].block_hash, logs@[i].address, old(self).spec_filter(), ev, Err::<(), StateError>(u), final(self).spec_state())]
                            0 <= i < logs@.len() && checks_pass_upto(
                                *chain_status,
                                finality,
                                logs@,
                                i + 1,
                            ) && applies_all(
                                old(self).spec_filter(),
                                old(self).spec_state(),
                                logs@.take(i),
                                mid,
                            ) && old(self).spec_filter().decodes_to(
                                logs@[i],
                                Ok::<<S::ContractEventFilter as ContractEventFilter>::ContractEventUnion, LogDecodeError>(ev),
                            ) && mid.steps_to(
                                logs@[i].block_number,
                                logs@[i].block_hash,
                                logs@[i].address,
                                old(self).spec_filter(),
                                ev,
                                Err::<(), StateError>(u),
                                final(self).spec_state(),
                            ),
                        CesmError::Corrupted => old(self).progress() == UpdateProgress::Corrupted
                            && final(self).progress() == UpdateProgress::Corrupted,
                        _ => false,
                    }
                },
            },
    {
        if let UpdateProgress::Corrupted = self.update_progress {
            return Err(CesmError::Corrupted);
        }
        let ghost logs0 = logs@;
        let ghost cs = *chain_status;
        let ghost ts0 = self.timestamp;
        let ghost p0 = self.update_progress;
        let ghost addrs0 = self.addresses@;
        let ghost f0 = self.contract_event_filter;
        let ghost s0 = self.state;
        proof {
            assert(logs@.take(0) =~= Seq::<EVMLog>::empty());
        }
        let n = logs.len();
        let mut rest = logs;
        let mut i: usize = 0;
        while rest.len() > 0
            invariant
                logs0 == logs@,
                logs0.len() == n,
                i <= n,
                rest@ == logs0.subrange(i as int, n as int),
                self.state.inv(),
                self.timestamp == ts0,
                self.update_progress == p0,
                self.addresses@ == addrs0,
                ts0 == old(self).timestamp,
                p0 == old(self).update_progress,
                p0 != UpdateProgress::Corrupted,
                addrs0 == old(self).addresses@,
                self.max_fresh_block_age == old(self).max_fresh_block_age,
                *chain_status == cs,
                checks_pass_upto(cs, finality, logs0, i as int),
                f0 == old(self).contract_event_filter,
                s0 == old(self).state,
                self.contract_event_filter == f0,
                applies_all(f0, s0, logs0.take(i as int), self.state),
            decreases rest@.len(),
        {
            let log = rest.remove(0);
            assert(log == logs0[i as int]);
            let block_number = log.block_number;
            let block_hash = log.block_hash;
            let address = log.address;
            if finality == Finality::Unstable {
                match chain_status.block_by_number(block_number) {
                    None => {
                        proof {
                            assert(log_block_check(cs, finality, logs0[i as int]) == Some(
                                CesmError::MissingBlock { block_number },
                            ));
                            assert(logs@ == logs0);
                        }
                        return Err(CesmError::MissingBlock { block_number });
                    },
                    Some(b) => {
                        if b.hash != block_hash {
                            proof {
                                assert(log_block_check(cs, finality, logs0[i as int]) == Some(
                                    CesmError::BlockHashMismatch { block_number },
                                ));
                                assert(logs@ == logs0);
                            }
                            self.update_progress = UpdateProgress::Corrupted;
                            return Err(CesmError::BlockHashMismatch { block_number });
                        }
                    },
                }
            }
            assert(log_block_check(cs, finality, logs0[i as int]) is None);
            assert(checks_pass_upto(cs, finality, logs0, i + 1)) by {
                assert forall|j: int| 0 <= j < i + 1 implies log_block_check(cs, finality, #[trigger] logs0[j]) is None by {
                    if j < i {
                        assert(checks_pass_upto(cs, finality, logs0, i as int));
                    }
                }
            }
            let ev = match self.contract_event_filter.decode_log(log) {
                Ok(ev) => ev,
                Err(e) => {
                    assert(logs@ == logs0);
                    assert(f0.decodes_to(logs0[i as int], Err(e)));
                    return Err(CesmError::Decode(e));
                },
            };
            let ghost evg = ev;
            let ghost mid = self.state;
            assert(f0.decodes_to(logs0[i as int], Ok(evg)));
            assert(applies_all(f0, s0, logs0.take(i as int), mid));
            let res = self.state.update_with_event(
                block_number,
                block_hash,
                address,
                &self.contract_event_filter,
                ev,
            );
            assert(mid.steps_to(
                logs0[i as int].block_number,
                logs0[i as int].block_hash,
                logs0[i as int].address,
                f0,
                evg,
                res,
                self.state,
            ));
            match res {
                Ok(unit) => {
                    proof {
                        assert(unit == ());
                        assert(res == Ok::<(), StateError>(()));
                        let t = logs0.take(i + 1);
                        assert(t.drop_last() =~= logs0.take(i as int));
                        assert(t.last() == logs0[i as int]);
                        assert(mid.steps_to(
                            logs0[i as int].block_number,
                            logs0[i as int].block_hash,
                            logs0[i as int].address,
                            f0,
                            evg,
                            Ok::<(), StateError>(()),
                            self.state,
                        ));
                        assert(mid.steps_to(
                            t.last().block_number,
                            t.last().block_hash,
                            t.last().address,
                            f0,
                            evg,
                            Ok::<(), StateError>(()),
                            self.state,
                        ));
                        assert(applies_all(f0, s0, t, self.state));
                    }
                },
                Err(e) => {
                    assert(logs@ == logs0);
                    assert(mid.steps_to(
                        logs0[i as int].block_number,
                        logs0[i as int].block_hash,
                        logs0[i as int].address,
                        f0,
                        evg,
                        Err::<(), StateError>(e),
                        self.state,
                    ));
                    assert(0 <= i < logs@.len() && checks_pass_upto(cs, finality, logs@, i + 1)
                        && applies_all(f0, s0, logs@.take(i as int), mid) && f0.decodes_to(
                        logs@[i as int],
                        Ok::<<S::ContractEventFilter as ContractEventFilter>::ContractEventUnion, LogDecodeError>(evg),
                    ) && mid.steps_to(
                        logs@[i as int].block_number,
                        logs@[i as int].block_hash,
                        logs@[i as int].address,
                        f0,
                        evg,
                        Err::<(), StateError>(e),
                        self.state,
                    ));
                    self.update_progress = UpdateProgress::Corrupted;
                    assert(mid.steps_to(
                        logs@[i as int].block_number,
                        logs@[i as int].block_hash,
                        logs@[i as int].address,
                        old(self).spec_filter(),
                        evg,
                        Err::<(), StateError>(e),
                        self.spec_state(),
                    ));
                    return Err(CesmError::Update(e));
                },
            }
            i = i + 1;
            assert(rest@ =~= logs0.subrange(i as int, n as int));
        }
        assert(logs0.take(n as int) =~= logs0);
        self.update_progress = UpdateProgress::NextStartBlockNumber(end_block_number + 1);
        if end_block_number == max_end_block_number {
            match chain_status.tip() {
                Some(tip) => {
                    self.timestamp = Some(tip.timestamp);
                },
                None => {},
            }
            Ok(ContractStateMachineUpdateResult::Complete)
        } else {
            Ok(ContractStateMachineUpdateResult::Partial { block_number: end_block_number })
        }
    }

    /// The state.
    pub fn state_read(&self) -> (r: &S)
        ensures
            *r == self.spec_state(),
    {
        &self.state
    }

    /// Whether the newest block caught up with is at most the fresh age old at
    /// the time `now`.
    pub open spec fn synced_at(&self, now: u64) -> bool {
        match self.latest_timestamp() {
            Some(t) => age_at_spec(now, t) <= self.spec_max_fresh_block_age(),
            None => false,
        }
    }

    /// Whether the newest block caught up with is at most the fresh age old at
    /// the time `now`.
    pub fn is_synced_at(&self, now: u64) -> (r: bool)
        ensures
            r == self.synced_at(now),
    {
        match self.timestamp {
            Some(t) => crate::chain_status::age_at(now, t) <= self.max_fresh_block_age,
            None => false,
        }
    }

    /// The state, and whether the newest block caught up with is at most the
    /// fresh age old now.
    pub fn synced_state_read(&self) -> (r: (&S, bool))
        ensures
            *r.0 == self.spec_state(),
            exists|now: u64| r.1 == #[trigger] self.synced_at(now),
    {
        let now = crate::chain_status::unix_time_now_secs();
        let synced = self.is_synced_at(now);
        (&self.state, synced)
    }

    /// A copy of the machine.
    pub fn duplicate(&self) -> (r: Self)
        requires
            self.wf(),
        ensures
            r.wf(),
            r.progress() == self.progress(),
            r.latest_timestamp() == self.latest_timestamp(),
            r.spec_addresses() == self.spec_addresses(),
            r.spec_max_fresh_block_age() == self.spec_max_fresh_block_age(),
    {
        ContractEventStateMachine {
            max_fresh_block_age: self.max_fresh_block_age,
            addresses: copy_addresses(&self.addresses),
            update_progress: self.update_progress,
            timestamp: self.timestamp,
            state: self.state.duplicate(),
            contract_event_filter: self.contract_event_filter.clone_filter(),
        }
    }

    /// Takes over the progress, the state and the timestamp of `other`, a
    /// machine of the same addresses.
    pub fn fork_from(&mut self, other: &Self) -> (r: Result<(), CesmError>)
        requires
            old(self).wf(),
            other.wf(),
        ensures
            final(self).wf(),
            final(self).spec_addresses() == old(self).spec_addresses(),
            final(self).spec_max_fresh_block_age() == old(self).spec_max_fresh_block_age(),
            (r is Ok) == same_addresses(old(self).spec_addresses(), other.spec_addresses()),
            r is Ok ==> final(self).progress() == other.progress() && final(self).latest_timestamp()
                == other.latest_timestamp(),
            r is Err ==> r == Err::<(), CesmError>(CesmError::AddressesMismatch) && final(self).progress()
                == old(self).progress() && final(self).latest_timestamp() == old(self).latest_timestamp()
                && final(self).spec_state() == old(self).spec_state(),
    {
        if !addresses_equal(&self.addresses, &other.addresses) {
            return Err(CesmError::AddressesMismatch);
        }
        self.update_progress = other.update_progress;
        self.state = other.state.duplicate();
        self.timestamp = other.timestamp;
        Ok(())
    }
}

fn copy_addresses(v: &Vec<Address>) -> (r: Vec<Address>)
    ensures
        r@ == v@,
{
    let mut r: Vec<Address> = Vec::new();
    let mut i: usize = 0;
    while i < v.len()
        invariant
            i <= v@.len(),
            r@ == v@.subrange(0, i as int),
        decreases v@.len() - i,
    {
        r.push(v[i]);
        i = i + 1;
        assert(r@ =~= v@.subrange(0, i as int));
    }
    assert(r@ =~= v@);
    r
}

fn addresses_equal(a: &Vec<Address>, b: &Vec<Address>) -> (r: bool)
    ensures
        r == same_addresses(a@, b@),
{
    if a.len() != b.len() {
        return false;
    }
    let mut i: usize = 0;
    while i < a.len()
        invariant
            i <= a@.len(),
            a@.len() == b@.len(),
            forall|k: int| 0 <= k < i ==> a@[k]@ == b@[k]@,
        decreases a@.len() - i,
    {
        if a[i] != b[i] {
            return false;
        }
        i = i + 1;
    }
    true
}

} // verus!
