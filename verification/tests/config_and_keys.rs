use afn::bytes::SizedBytes;
use afn::common::{ChainName, LaneId, UnknownChainName};
use afn::config::{
    ChainStability, ConfigError, LaneType, LocalChainConfig, OffchainConfig, SharedChainConfig,
    SharedLaneConfig, TimeUnit,
};
use afn::ecdsa::{EthereumSigner, InvalidSecretKey};
use afn::key_types::{BlessCurseKeys, BlessCurseKeysByChain, SecretKey};
use afn::tx_sender::{FeeUnit, TransactionSenderFeeConfig};
use afn::afn_voting_manager::{UnknownVotingMode, VotingMode};
use afn::chain_selector::chain_selector;

fn shared(name: ChainName, afn: u8) -> SharedChainConfig {
    SharedChainConfig {
        name,
        stability: ChainStability::FinalityTag { soft_confirmations: 2 },
        bless_fee_config: TransactionSenderFeeConfig::Legacy { gas_price: FeeUnit::Gwei(1) },
        curse_fee_config: TransactionSenderFeeConfig::Legacy { gas_price: FeeUnit::Gwei(2) },
        max_tagged_roots_per_vote_to_bless: 10,
        afn_contract: SizedBytes([afn; 20]),
        inflight_time: TimeUnit::Minutes(5),
        max_fresh_block_age: TimeUnit::Seconds(60),
        upon_finality_violation_vote_to_curse_on_other_chains: true,
    }
}

fn local(name: ChainName, disabled: bool) -> LocalChainConfig {
    LocalChainConfig { name, disabled, rpcs: vec!["http://localhost:8545".to_string()] }
}

fn lane(source: ChainName, dest: ChainName, name: &str, commit_store: u8) -> SharedLaneConfig {
    SharedLaneConfig {
        lane_id: LaneId { source_chain_name: source, dest_chain_name: dest, name: name.to_string() },
        lane_type: LaneType::Evm2EvmV1_2,
        source_start_block_number: 1,
        dest_start_block_number: 2,
        commit_store: SizedBytes([commit_store; 20]),
        on_ramp: SizedBytes([0xa0; 20]),
        off_ramp: SizedBytes([0xb0; 20]),
    }
}

#[test]
fn config_enables_lanes_between_enabled_chains() {
    let c = OffchainConfig::new(
        vec![shared(ChainName::Sepolia, 1), shared(ChainName::AvaxFuji, 2), shared(ChainName::Goerli, 3)],
        vec![
            lane(ChainName::Sepolia, ChainName::AvaxFuji, "a", 1),
            lane(ChainName::AvaxFuji, ChainName::Goerli, "b", 2),
        ],
        vec![local(ChainName::Sepolia, false), local(ChainName::AvaxFuji, false), local(ChainName::Goerli, true)],
    )
    .unwrap();
    assert_eq!(c.enabled_chains(), vec![ChainName::Sepolia, ChainName::AvaxFuji]);
    assert_eq!(c.disabled_chains(), vec![ChainName::Goerli]);
    let lanes = c.enabled_lanes();
    assert_eq!(lanes.len(), 1);
    assert_eq!(lanes[0].name, "a");
    let dests = c.dest_chains();
    assert_eq!(dests.len(), 1);
    assert_eq!(dests[0].name, ChainName::AvaxFuji);
}

#[test]
fn config_errors() {
    let err = |s: Vec<SharedChainConfig>, l: Vec<SharedLaneConfig>, lo: Vec<LocalChainConfig>| {
        OffchainConfig::new(s, l, lo).err()
    };
    assert_eq!(
        err(vec![shared(ChainName::Sepolia, 1)], vec![], vec![local(ChainName::Sepolia, false), local(ChainName::Sepolia, true)]),
        Some(ConfigError::DuplicateLocalChain { chain: ChainName::Sepolia })
    );
    assert_eq!(
        err(vec![shared(ChainName::Sepolia, 1), shared(ChainName::Sepolia, 2)], vec![], vec![local(ChainName::Sepolia, false)]),
        Some(ConfigError::DuplicateSharedChain { chain: ChainName::Sepolia })
    );
    assert_eq!(
        err(vec![shared(ChainName::Sepolia, 1)], vec![], vec![local(ChainName::Sepolia, false), local(ChainName::Goerli, false)]),
        Some(ConfigError::LocalWithoutShared { chain: ChainName::Goerli })
    );
    assert_eq!(
        err(vec![shared(ChainName::Sepolia, 1), shared(ChainName::Goerli, 1)], vec![], vec![local(ChainName::Sepolia, false)]),
        Some(ConfigError::SharedWithoutLocal { chain: ChainName::Goerli })
    );
    let two = || vec![shared(ChainName::Sepolia, 1), shared(ChainName::AvaxFuji, 2)];
    let two_local = || vec![local(ChainName::Sepolia, false), local(ChainName::AvaxFuji, false)];
    assert_eq!(
        err(two(), vec![lane(ChainName::Sepolia, ChainName::AvaxFuji, "a", 1), lane(ChainName::Sepolia, ChainName::AvaxFuji, "a", 2)], two_local()),
        Some(ConfigError::DuplicateLane { index: 1 })
    );
    assert_eq!(
        err(two(), vec![lane(ChainName::Sepolia, ChainName::AvaxFuji, "a", 1), lane(ChainName::Sepolia, ChainName::AvaxFuji, "b", 1)], two_local()),
        Some(ConfigError::DuplicateCommitStore { index: 1 })
    );
    assert_eq!(
        err(two(), vec![lane(ChainName::Sepolia, ChainName::Goerli, "a", 1)], two_local()),
        Some(ConfigError::UnknownChain { lane: 0, chain: ChainName::Goerli })
    );
    assert_eq!(
        err(two(), vec![lane(ChainName::Sepolia, ChainName::Sepolia, "a", 1)], two_local()),
        Some(ConfigError::SameSourceAndDest { lane: 0 })
    );
}

#[test]
fn time_and_fee_units() {
    assert_eq!(TimeUnit::Minutes(5).as_secs(), 300);
    assert_eq!(TimeUnit::Seconds(7).as_secs(), 7);
    assert_eq!(FeeUnit::Gwei(2).to_wei(), afn::u256::U256::new(2_000_000_000));
    assert_eq!(FeeUnit::Kwei(3).to_wei(), afn::u256::U256::new(3_000));
    assert_eq!(FeeUnit::Mwei(4).to_wei(), afn::u256::U256::new(4_000_000));
    assert_eq!(FeeUnit::Wei(5).to_wei(), afn::u256::U256::new(5));
}

#[test]
fn chain_names_and_ids() {
    assert_eq!(ChainName::from_str("sepolia"), Ok(ChainName::Sepolia));
    assert_eq!(ChainName::from_str("AvaxFuji"), Ok(ChainName::AvaxFuji));
    assert_eq!(ChainName::from_str("mars"), Err(UnknownChainName));
    assert_eq!(ChainName::Ethereum.chain_id(), 1);
    assert_eq!(ChainName::Sepolia.chain_id(), 11155111);
    assert_eq!(ChainName::Ethereum.name(), "Ethereum");
    assert_eq!(chain_selector(ChainName::Ethereum), 5009297550715157269);
    let l = LaneId { source_chain_name: ChainName::Sepolia, dest_chain_name: ChainName::AvaxFuji, name: "x".to_string() };
    assert_eq!(l.to_text(), "Lane(Sepolia->AvaxFuji,x)");
}

#[test]
fn voting_modes() {
    assert_eq!(VotingMode::from_str("active"), Ok(VotingMode::Active));
    assert_eq!(VotingMode::from_str("Passive"), Ok(VotingMode::Passive));
    assert_eq!(VotingMode::from_str("dryrun"), Ok(VotingMode::DryRun));
    assert_eq!(VotingMode::from_str("loud"), Err(UnknownVotingMode));
}

#[test]
fn keys_by_chain_insert_get_chains() {
    let mut m = BlessCurseKeysByChain::generate(&[ChainName::Sepolia, ChainName::AvaxFuji, ChainName::Sepolia]);
    let mut chains = m.chains();
    chains.sort();
    let mut expected = vec![ChainName::Sepolia, ChainName::AvaxFuji];
    expected.sort();
    assert_eq!(chains, expected);
    assert!(m.get(ChainName::Goerli).is_none());
    let keys = BlessCurseKeys::generate();
    let old = *m.get(ChainName::Sepolia).unwrap();
    assert!(m.insert(ChainName::Sepolia, keys) == Some(old));
    assert!(m.get(ChainName::Sepolia) == Some(&keys));
    assert!(m.insert(ChainName::Goerli, keys).is_none());
    assert_eq!(m.chains().len(), 3);
    assert_eq!(m.entries().len(), 3);
    let empty = BlessCurseKeysByChain::new();
    assert!(empty.chains().is_empty());
}

#[test]
fn secret_key_bytes() {
    assert_eq!(SecretKey::try_from_bytes(SizedBytes([0; 32])).err(), Some(InvalidSecretKey::InvalidSecretKey));
    let k = SecretKey::try_from_bytes(SizedBytes([0x46; 32])).unwrap();
    assert_eq!(k.to_bytes(), SizedBytes([0x46; 32]));
    assert_eq!(k.address().to_string(), "0x9d8a62f656a8d1615c1294fd71e9cfb3e4855a4f");
    assert_eq!(k.local_signer().address(), k.address());
    let a = SecretKey::generate();
    let b = SecretKey::generate();
    assert_ne!(a.to_bytes(), b.to_bytes());
}

#[test]
fn keys_are_checked_for_each_chain_of_the_config() {
    let c = OffchainConfig::new(
        vec![shared(ChainName::Sepolia, 1), shared(ChainName::AvaxFuji, 2), shared(ChainName::Goerli, 3)],
        vec![lane(ChainName::Sepolia, ChainName::AvaxFuji, "a", 1)],
        vec![local(ChainName::Sepolia, false), local(ChainName::AvaxFuji, false), local(ChainName::Goerli, true)],
    )
    .unwrap();
    assert_eq!(c.all_chains(), vec![ChainName::Sepolia, ChainName::AvaxFuji, ChainName::Goerli]);
    let some = BlessCurseKeysByChain::generate(&[ChainName::Sepolia]);
    assert!(!afn::state::ensure_keys_for_chains(&c, &some));
    assert_eq!(afn::state::missing_key_chain(&c, &some), Some(ChainName::AvaxFuji));
    let enabled = BlessCurseKeysByChain::generate(&[ChainName::AvaxFuji, ChainName::Sepolia]);
    assert!(!afn::state::ensure_keys_for_chains(&c, &enabled));
    assert_eq!(afn::state::missing_key_chain(&c, &enabled), Some(ChainName::Goerli));
    let all = BlessCurseKeysByChain::generate(&[ChainName::Goerli, ChainName::AvaxFuji, ChainName::Sepolia]);
    assert!(afn::state::ensure_keys_for_chains(&c, &all));
    assert_eq!(afn::state::missing_key_chain(&c, &all), None);
}

#[test]
fn only_the_active_mode_sends_votes() {
    assert!(afn::afn_voting_manager::sends_votes(VotingMode::Active));
    assert!(!afn::afn_voting_manager::sends_votes(VotingMode::DryRun));
    assert!(!afn::afn_voting_manager::sends_votes(VotingMode::Passive));
}

#[test]
fn manual_curse_ids_are_32_bytes() {
    let id = afn::curse_beacon::parse_manual_curse_id(&format!("0x{}", "ab".repeat(32))).unwrap();
    assert_eq!(id, SizedBytes([0xab; 32]));
    assert_eq!(
        afn::curse_beacon::parse_manual_curse_id("0xabcd").err(),
        Some(afn::bytes::BytesDecodeError::InvalidSize)
    );
    assert_eq!(
        afn::curse_beacon::parse_manual_curse_id("0xzz").err(),
        Some(afn::bytes::BytesDecodeError::InvalidHex)
    );
}

#[test]
fn chain_names_order_by_chain_id() {
    let mut names = vec![ChainName::Sepolia, ChainName::Ethereum, ChainName::AvaxFuji, ChainName::Goerli];
    names.sort();
    assert_eq!(names, vec![ChainName::Ethereum, ChainName::Goerli, ChainName::AvaxFuji, ChainName::Sepolia]);
    assert!(ChainName::Bsc < ChainName::Polygon);
}
