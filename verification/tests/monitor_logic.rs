use std::collections::VecDeque;

use afn::afn_contract::{OnchainConfig, TaggedRoot, Voter};
use afn::afn_voting_manager::VotingMode;
use afn::bytes::{Bytes32, SizedBytes};
use afn::chain_status::{ChainStatus, Tail, TailError};
use afn::common::{ChainName, LaneId};
use afn::contract_event_state_machine::{OffRampStateAnomaly, SourceBlessState};
use afn::curse_beacon::{CursableAnomaly, CurseBeacon};
use afn::evm2evm_offramp::MessageExecutionState;
use afn::hashable::MessageMetadata;
use afn::inflight_root_cache::InflightRootCacheWithCustomTime;
use afn::keccak::keccak256;
use afn::merkle::{hash_node, internal_node_domain_separator, leaf_domain_separator, root_from_hashed_leafs};
use afn::offramp_anomaly_detector::OffRampAnomaly;
use afn::permutation::{delay, delay_with_seed, permute, DELTA_STAGE_SECS};
use afn::rpc::Block;
use afn::smart_get_logs::{BlockRange, BlockRangeIncrease};
use afn::vote_to_bless_worker::{enqueue_votable, take_batch, UnknownCommitStore, VoteQueue};

fn root(n: u8) -> TaggedRoot {
    TaggedRoot { commit_store: SizedBytes([1; 20]), root: SizedBytes([n; 32]) }
}

fn lane(name: &str) -> LaneId {
    LaneId { source_chain_name: ChainName::Sepolia, dest_chain_name: ChainName::AvaxFuji, name: name.to_string() }
}

#[test]
fn block_range_grows_and_shrinks() {
    let mut r = BlockRange::new();
    assert_eq!(r.size, 1);
    assert_eq!(r.query_to_block(10, 100), 10);
    r.on_success(10, 10);
    assert_eq!(r.size, 2);
    r.on_success(11, 12);
    assert_eq!(r.size, 4);
    r.on_success(13, 13);
    assert_eq!(r.size, 4);
    assert_eq!(r.query_to_block(10, 100), 13);
    assert_eq!(r.query_to_block(10, 11), 11);
    r.on_failure(0, 9);
    assert_eq!(r.increase, BlockRangeIncrease::Additive);
    assert_eq!(r.size, 5);
    r.on_success(0, 4);
    assert_eq!(r.size, 6);
    r.on_failure(7, 7);
    assert_eq!(r.size, 1);
    assert_eq!(r.query_to_block(u64::MAX, u64::MAX), u64::MAX - 1);
}

#[test]
fn vote_queue_pops_earliest_first_and_once() {
    let mut q = VoteQueue::new();
    q.push(30, root(3));
    q.push(10, root(1));
    q.push(20, root(2));
    q.push(5, root(1));
    assert_eq!(q.peek().unwrap().0, 10);
    assert!(q.pop(9).is_none());
    assert_eq!(q.pop(10).unwrap().root, SizedBytes([1; 32]));
    assert_eq!(q.pop(100).unwrap().root, SizedBytes([2; 32]));
    assert_eq!(q.pop(100).unwrap().root, SizedBytes([3; 32]));
    assert!(q.pop(100).is_none());
    assert!(q.peek().is_none());
}

#[test]
fn inflight_cache_forgets_after_inflight_time() {
    let mut c = InflightRootCacheWithCustomTime::new(10);
    assert!(!c.contains(0, root(1)));
    c.add(100, root(1));
    assert!(c.contains(105, root(1)));
    assert!(!c.contains(105, root(2)));
    assert!(!c.contains(111, root(1)));
}

#[test]
fn curse_beacon_keeps_curses() {
    let mut b = CurseBeacon::new(vec![ChainName::Sepolia]);
    assert!(!b.is_cursed());
    b.update(&[], &[]).unwrap();
    assert!(!b.is_cursed());
    let anomaly = OffRampAnomaly::Local(OffRampStateAnomaly::InvalidMessageState {
        seq_nr: 3,
        message_id: SizedBytes([9; 32]),
        state: MessageExecutionState::InProgress,
    });
    b.update(&[], &[(lane("l"), anomaly)]).unwrap();
    assert!(b.is_cursed());
    assert!(b.lane_is_cursed(&lane("l")));
    assert!(b.lane_is_cursed(&lane("other")));
    let ids = b.get_anomalies_and_curse_ids_for_chain(ChainName::AvaxFuji);
    assert_eq!(ids.len(), 1);
    let id = ids[0].1;
    b.update(&[], &[(lane("l"), anomaly)]).unwrap();
    let again = b.get_anomalies_and_curse_ids_for_chain(ChainName::AvaxFuji);
    assert_eq!(again.len(), 1);
    assert_eq!(again[0].1, id);
    b.update(&[ChainName::Sepolia], &[]).unwrap();
    let sepolia = b.get_anomalies_and_curse_ids_for_chain(ChainName::Sepolia);
    assert!(sepolia.iter().any(|(a, _)| matches!(a, CursableAnomaly::FinalityViolatedGlobalCurse(ChainName::Sepolia))));
    assert!(b.lane_is_cursed(&lane("other")));
}

#[test]
fn curse_beacon_local_finality_curse() {
    let mut b = CurseBeacon::new(vec![]);
    b.update(&[ChainName::Goerli], &[]).unwrap();
    let g = b.get_anomalies_and_curse_ids_for_chain(ChainName::Goerli);
    assert_eq!(g.len(), 1);
    assert!(matches!(g[0].0, CursableAnomaly::FinalityViolatedLocalCurse(ChainName::Goerli)));
    assert!(b.get_anomalies_and_curse_ids_for_chain(ChainName::Sepolia).is_empty());
    assert!(b.is_cursed());
    assert!(!b.lane_is_cursed(&lane("l")));
}

#[test]
fn merkle_roots() {
    assert_eq!(leaf_domain_separator(), [0u8; 32]);
    let mut one = [0u8; 32];
    one[31] = 1;
    assert_eq!(internal_node_domain_separator(), one);
    assert!(root_from_hashed_leafs(&[]).is_none());
    let a: Bytes32 = SizedBytes([1; 32]);
    let b: Bytes32 = SizedBytes([2; 32]);
    assert_eq!(root_from_hashed_leafs(&[a]), Some(a));
    let expected = hash_node(&a.0, &b.0);
    let mut data = one.to_vec();
    data.extend_from_slice(&a.0);
    data.extend_from_slice(&b.0);
    assert_eq!(expected, keccak256(&data));
    assert_eq!(root_from_hashed_leafs(&[a, b]), Some(SizedBytes(expected)));
    assert_eq!(root_from_hashed_leafs(&[b, a]), Some(SizedBytes(expected)));
    let c: Bytes32 = SizedBytes([3; 32]);
    let ab = hash_node(&a.0, &b.0);
    let cz = hash_node(&c.0, &[0xff; 32]);
    let top = if ab < cz { hash_node(&ab, &cz) } else { hash_node(&cz, &ab) };
    assert_eq!(root_from_hashed_leafs(&[a, b, c]), Some(SizedBytes(top)));
}

fn voter(n: u8, weight: u8) -> Voter {
    Voter {
        bless_vote_addr: SizedBytes([n; 20]),
        curse_vote_addr: SizedBytes([n + 100; 20]),
        curse_unvote_addr: SizedBytes([n + 200; 20]),
        bless_weight: weight,
        curse_weight: 1,
    }
}

#[test]
fn bless_delays() {
    let config = OnchainConfig {
        voters: vec![voter(1, 1), voter(2, 1), voter(3, 1), voter(4, 1)],
        bless_weight_threshold: 2,
        curse_weight_threshold: 1,
    };
    assert_eq!(delay_with_seed(SizedBytes([9; 20]), &config, 1), None);
    let mut delays: Vec<u64> = (1u8..=4)
        .map(|n| delay_with_seed(SizedBytes([n; 20]), &config, 42).unwrap())
        .collect();
    delays.sort();
    assert_eq!(delays, vec![0, 0, DELTA_STAGE_SECS, 2 * DELTA_STAGE_SECS]);
    assert_eq!(delay(SizedBytes([1; 20]), &config, VotingMode::Passive), Some(0));
    assert!(delay(SizedBytes([1; 20]), &config, VotingMode::Active).is_some());
    let p = permute(&vec![1u32, 2, 3, 4, 5], 7);
    let mut sorted = p.clone();
    sorted.sort();
    assert_eq!(sorted, vec![1, 2, 3, 4, 5]);
    assert_eq!(permute(&vec![1u32, 2, 3, 4, 5], 7), p);
}

fn block(number: u64, hash: u8, parent: u8) -> Block {
    Block { number, hash: SizedBytes([hash; 32]), parent_hash: SizedBytes([parent; 32]), timestamp: 1000 + number }
}

#[test]
fn tails_must_be_chains() {
    assert_eq!(Tail::new(vec![]).err(), Some(TailError::Empty));
    assert!(Tail::new(vec![block(1, 1, 0), block(3, 3, 1)]).is_err());
    assert!(Tail::new(vec![block(1, 1, 0), block(2, 2, 9)]).is_err());
    let t = Tail::new(vec![block(1, 1, 0), block(2, 2, 1), block(3, 3, 2)]).unwrap();
    assert_eq!(t.tip().number, 3);
    assert_eq!(t.stable_tip().number, 1);
    assert_eq!(t.block_by_number(2).unwrap().hash, SizedBytes([2; 32]));
    assert!(t.block_by_number(4).is_none());
    assert!(t.contains(&block(2, 2, 1)));
    assert!(!t.contains(&block(2, 7, 1)));
    let s = ChainStatus::Good { tail: t };
    assert_eq!(s.tip().unwrap().number, 3);
}

#[test]
fn source_bless_state_reaps_and_finds() {
    let mut s = SourceBlessState::new(MessageMetadata {
        onramp_address: SizedBytes([1; 20]),
        source_chain_selector: 1,
        dest_chain_selector: 2,
    });
    let mut q = VecDeque::new();
    for n in 1u64..=5 {
        q.push_back((n, SizedBytes([n as u8; 32])));
    }
    s.seq_nrs_and_message_hashes = q;
    assert_eq!(s.message_hash(3), Some(&SizedBytes([3; 32])));
    assert_eq!(s.message_hash(6), None);
    s.try_reap_up_to(2);
    assert_eq!(s.seq_nrs_and_message_hashes.len(), 3);
    assert_eq!(s.message_hash(2), None);
    assert_eq!(s.message_hash(4), Some(&SizedBytes([4; 32])));
    s.try_reap_up_to(100);
    assert!(s.seq_nrs_and_message_hashes.is_empty());
}

#[test]
fn vote_batches_skip_inflight_and_wait_for_send_time() {
    let votable = vec![root(1), root(2), root(3)];
    let mut q = VoteQueue::new();
    let mut inflight = InflightRootCacheWithCustomTime::new(100);
    inflight.add(0, root(2));
    enqueue_votable(&mut q, &mut inflight, 10, &votable, 50);
    assert_eq!(q.peek().unwrap().0, 50);
    let beacon = CurseBeacon::new(vec![]);
    let lanes = vec![(SizedBytes([1; 20]), lane("l"))];
    assert!(take_batch(&mut q, &mut inflight, 40, &votable, &lanes, &beacon, 10).unwrap().is_empty());
    let first = take_batch(&mut q, &mut inflight, 60, &votable, &lanes, &beacon, 1).unwrap();
    assert_eq!(first.len(), 1);
    assert_eq!(first[0].root, SizedBytes([1; 32]));
    let rest = take_batch(&mut q, &mut inflight, 60, &votable, &lanes, &beacon, 10).unwrap();
    assert_eq!(rest.len(), 1);
    assert_eq!(rest[0].root, SizedBytes([3; 32]));
    assert!(q.peek().is_none());
    // a root of a commit store that no lane has
    let stray = TaggedRoot { commit_store: SizedBytes([7; 20]), root: SizedBytes([4; 32]) };
    q.push(0, stray);
    match take_batch(&mut q, &mut inflight, 60, &votable, &lanes, &beacon, 10) {
        Err(e) => assert_eq!(e, UnknownCommitStore { commit_store: SizedBytes([7; 20]) }),
        Ok(_) => panic!("a stray commit store must be an error"),
    }
    // roots that are no longer votable are dropped from the queue
    q.push(0, root(9));
    assert!(take_batch(&mut q, &mut inflight, 60, &votable, &lanes, &beacon, 10).unwrap().is_empty());
    assert!(q.peek().is_none());
}

#[test]
fn inflight_window_over_several_calls() {
    let mut c = InflightRootCacheWithCustomTime::new(10);
    c.add(100, root(1));
    c.add(102, root(2));
    assert!(c.contains(104, root(2)));
    c.add(106, root(3));
    assert!(c.contains(110, root(1)));
    assert!(!c.contains(111, root(1)));
    assert!(!c.contains(112, root(1)));
    c.add(113, root(1));
    assert!(c.contains(120, root(1)));
}
