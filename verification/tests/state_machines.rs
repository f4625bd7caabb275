use afn::afn_contract::{OnchainConfig, VersionedOnchainConfig, Voter};
use afn::bytes::SizedBytes;
use afn::cached_rpc::query_shape_digest;
use afn::chain_status::{ChainStatus, Tail};
use afn::common::{ChainName, LaneId};
use afn::config::{
    ChainStability, LaneType, LocalChainConfig, OffchainConfig, SharedChainConfig, SharedLaneConfig,
    TimeUnit,
};
use afn::contract_event_state_machine::{
    CesmError, ContractEventStateMachine, ContractStateMachineUpdateResult, Finality, SourceBlessState,
    UpdatePlan, VersionedCcipSendRequestFilter,
};
use afn::hashable::MessageMetadata;
use afn::keccak::keccak256;
use afn::key_types::{BlessCurseKeys, BlessCurseKeysByChain};
use afn::rpc::Block;
use afn::smart_get_logs::{GetLogsOutcome, GetLogsStep, RpcErrorKind, SmartGetLogs};
use afn::state::{validate_voter_addresses, VoterValidationError};
use afn::tx_sender::{FeeUnit, TransactionSenderFeeConfig};

fn block(number: u64, hash: u8, parent: u8) -> Block {
    Block { number, hash: SizedBytes([hash; 32]), parent_hash: SizedBytes([parent; 32]), timestamp: 100 + number }
}

fn good_status() -> ChainStatus {
    ChainStatus::Good { tail: Tail::new(vec![block(10, 10, 9), block(11, 11, 10), block(12, 12, 11)]).unwrap() }
}

fn machine(start: u64) -> ContractEventStateMachine<SourceBlessState> {
    let state = SourceBlessState::new(MessageMetadata {
        onramp_address: SizedBytes([1; 20]),
        source_chain_selector: 1,
        dest_chain_selector: 2,
    });
    ContractEventStateMachine::new(
        60,
        start,
        vec![SizedBytes([1; 20])],
        state,
        VersionedCcipSendRequestFilter { lane_type: LaneType::Evm2EvmV1_2 },
    )
}

#[test]
fn state_machine_plans_and_applies() {
    let mut m = machine(11);
    let status = good_status();
    assert_eq!(
        m.plan_update(&status, Finality::Unstable),
        Ok(UpdatePlan::FetchLogs { from_block: 11, to_block: 12, stable: false })
    );
    assert_eq!(
        m.plan_update(&status, Finality::Stable),
        Ok(UpdatePlan::UpToDate)
    );
    assert_eq!(
        m.apply_logs(&status, Finality::Unstable, 12, 11, vec![]),
        Ok(ContractStateMachineUpdateResult::Partial { block_number: 11 })
    );
    assert_eq!(
        m.apply_logs(&status, Finality::Unstable, 12, 12, vec![]),
        Ok(ContractStateMachineUpdateResult::Complete)
    );
    assert!(m.is_synced_at(112 + 60));
    assert!(!m.is_synced_at(112 + 61));
    assert_eq!(m.plan_update(&status, Finality::Unstable), Ok(UpdatePlan::UpToDate));
}

#[test]
fn corrupted_state_machine_stays_corrupted() {
    let mut m = machine(11);
    assert_eq!(
        m.plan_update(&ChainStatus::FinalityViolated, Finality::Unstable),
        Err(CesmError::FinalityViolated)
    );
    assert_eq!(m.plan_update(&good_status(), Finality::Unstable), Err(CesmError::Corrupted));
    assert_eq!(
        m.apply_logs(&good_status(), Finality::Unstable, 12, 12, vec![]),
        Err(CesmError::Corrupted)
    );
    assert_eq!(m.plan_update(&good_status(), Finality::Stable), Err(CesmError::Corrupted));
}

#[test]
fn smart_get_logs_steps() {
    let mut s = SmartGetLogs::new(vec![], vec![]);
    assert_eq!(s.block_range.size, 1);
    assert_eq!(s.after_query(0, 0, GetLogsOutcome::Failed(RpcErrorKind::InternalError)), GetLogsStep::GiveUp);
    assert_eq!(s.after_query(0, 0, GetLogsOutcome::Succeeded { elapsed_millis: 10 }), GetLogsStep::Done);
    assert_eq!(s.block_range.size, 2);
    assert_eq!(s.after_query(0, 1, GetLogsOutcome::Succeeded { elapsed_millis: 10 }), GetLogsStep::Done);
    assert_eq!(s.block_range.size, 4);
    assert_eq!(s.after_query(0, 3, GetLogsOutcome::Failed(RpcErrorKind::ErrorResponse)), GetLogsStep::Retry);
    assert_eq!(s.block_range.size, 2);
    assert_eq!(s.after_query(0, 1, GetLogsOutcome::Failed(RpcErrorKind::NotFound)), GetLogsStep::GiveUp);
    assert_eq!(s.block_range.size, 2);
    assert_eq!(s.after_query(0, 9, GetLogsOutcome::Succeeded { elapsed_millis: 5001 }), GetLogsStep::Done);
    assert_eq!(s.block_range.size, 5);
}

#[test]
fn query_shape_digest_is_keccak_of_parts() {
    let json = br#"{"type":"FinalityTag","soft_confirmations":2}"#;
    let addrs = [SizedBytes([1u8; 20]), SizedBytes([2u8; 20])];
    let topics = [SizedBytes([3u8; 32])];
    let d = query_shape_digest(ChainName::Sepolia, json, &addrs, &topics);
    let mut buf = 11155111u64.to_be_bytes().to_vec();
    buf.extend_from_slice(&keccak256(json));
    let mut a = vec![1u8; 20];
    a.extend_from_slice(&[2u8; 20]);
    buf.extend_from_slice(&keccak256(&a));
    buf.extend_from_slice(&keccak256(&[3u8; 32]));
    assert_eq!(d.0, keccak256(&buf));
}

fn shared(name: ChainName) -> SharedChainConfig {
    SharedChainConfig {
        name,
        stability: ChainStability::FinalityTag { soft_confirmations: 2 },
        bless_fee_config: TransactionSenderFeeConfig::Legacy { gas_price: FeeUnit::Gwei(1) },
        curse_fee_config: TransactionSenderFeeConfig::Legacy { gas_price: FeeUnit::Gwei(1) },
        max_tagged_roots_per_vote_to_bless: 10,
        afn_contract: SizedBytes([9; 20]),
        inflight_time: TimeUnit::Seconds(1),
        max_fresh_block_age: TimeUnit::Seconds(1),
        upon_finality_violation_vote_to_curse_on_other_chains: false,
    }
}

#[test]
fn voter_addresses_are_validated() {
    let config = OffchainConfig::new(
        vec![shared(ChainName::Sepolia), shared(ChainName::AvaxFuji)],
        vec![SharedLaneConfig {
            lane_id: LaneId { source_chain_name: ChainName::Sepolia, dest_chain_name: ChainName::AvaxFuji, name: "l".to_string() },
            lane_type: LaneType::Evm2EvmV1_2,
            source_start_block_number: 1,
            dest_start_block_number: 1,
            commit_store: SizedBytes([5; 20]),
            on_ramp: SizedBytes([6; 20]),
            off_ramp: SizedBytes([7; 20]),
        }],
        vec![
            LocalChainConfig { name: ChainName::Sepolia, disabled: false, rpcs: vec![] },
            LocalChainConfig { name: ChainName::AvaxFuji, disabled: false, rpcs: vec![] },
        ],
    )
    .unwrap();
    let mut keys = BlessCurseKeysByChain::new();
    assert_eq!(
        validate_voter_addresses(&config, &keys, &vec![]),
        Err(VoterValidationError::OnchainConfigNotFound { chain: ChainName::AvaxFuji })
    );
    let k = BlessCurseKeys::generate();
    let other = BlessCurseKeys::generate();
    let voter = |k: &BlessCurseKeys| Voter {
        bless_vote_addr: k.bless.address(),
        curse_vote_addr: k.curse.address(),
        curse_unvote_addr: SizedBytes([0; 20]),
        bless_weight: 1,
        curse_weight: 1,
    };
    let onchain = |voters: Vec<Voter>| {
        vec![(ChainName::AvaxFuji, VersionedOnchainConfig {
            version: 1,
            block_number: 1,
            config: OnchainConfig { voters, bless_weight_threshold: 1, curse_weight_threshold: 1 },
        })]
    };
    assert_eq!(
        validate_voter_addresses(&config, &keys, &onchain(vec![voter(&k)])),
        Err(VoterValidationError::KeyNotFound { chain: ChainName::AvaxFuji })
    );
    keys.insert(ChainName::AvaxFuji, k);
    assert_eq!(
        validate_voter_addresses(&config, &keys, &onchain(vec![voter(&other)])),
        Err(VoterValidationError::NoMatchingVoter { chain: ChainName::AvaxFuji })
    );
    assert_eq!(validate_voter_addresses(&config, &keys, &onchain(vec![voter(&other), voter(&k)])), Ok(()));
}

fn log_at(block_number: u64, log_index: u64) -> afn::rpc::EVMLog {
    afn::rpc::EVMLog {
        log_index,
        address: SizedBytes([0; 20]),
        data: afn::bytes::Bytes(vec![]),
        topics: vec![],
        block_hash: SizedBytes([block_number as u8; 32]),
        block_number,
    }
}

#[test]
fn logs_are_sorted_by_block_then_index() {
    let logs = vec![log_at(5, 1), log_at(3, 7), log_at(5, 0), log_at(3, 2), log_at(4, 0)];
    let sorted = afn::rpc::sort_logs(logs);
    let keys: Vec<(u64, u64)> = sorted.iter().map(|l| (l.block_number, l.log_index)).collect();
    assert_eq!(keys, vec![(3, 2), (3, 7), (4, 0), (5, 0), (5, 1)]);
    assert!(afn::rpc::sort_logs(vec![]).is_empty());
}
