use vstd::prelude::*;

pub mod bytes;
pub mod keccak;
pub mod u256;
pub mod hex;
pub mod rlp;
pub mod abi_types;
pub mod abi_decode;
pub mod abi_encode;
pub mod abi_laws;
pub mod rpc;
pub mod json_rpc;
pub mod common;
pub mod chain_selector;
pub mod chain_status;
pub mod chain_status_worker;
pub mod merkle;
pub mod commit_store_common;
pub mod afn_contract;
pub mod evm_common_types;
pub mod hashable;
pub mod evm2evm_onramp_v1_0;
pub mod evm2evm_onramp_v1_2;
pub mod commit_store_v1_0;
pub mod commit_store_v1_2;
pub mod evm2evm_offramp;
pub mod tx_sender;
pub mod config;
pub mod vote_to_curse_worker;
pub mod vote_to_bless_worker;
pub mod curse_beacon;
pub mod offramp_anomaly_detector;
pub mod lane_bless_status;
pub mod permutation;
pub mod inflight_root_cache;
pub mod metrics;
pub mod afn_voting_manager;
pub mod smart_get_logs;
pub mod text;
pub mod config_sanity_check;
pub mod bitset;
pub mod contract_event_state_machine;
pub mod ecdsa;
pub mod tx;
pub mod key_types;
pub mod encryption;
pub mod state;
pub mod cached_rpc;

verus! {

} // verus!
