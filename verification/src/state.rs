use vstd::prelude::*;
use crate::afn_contract::{VersionedOnchainConfig, Voter};
use crate::bytes::{slices_equal, Address};
use crate::common::ChainName;
use crate::config::{dest_names, OffchainConfig};
use crate::ecdsa::{address_of_public_key_spec, public_key_spec};
use crate::key_types::{BlessCurseKeys, BlessCurseKeysByChain, SecretKey};

verus! {

/// Why the monitor's keys do not match the voters configured on chain.
#[derive(Debug, Clone, Copy, PartialEq, Eq, Structural)]
pub enum VoterValidationError {
    /// No on-chain configuration was discovered for `chain`.
    OnchainConfigNotFound { chain: ChainName },
    /// The keystore has no keys for `chain`.
    KeyNotFound { chain: ChainName },
    /// No voter of `chain` has the addresses of the keys.
    NoMatchingVoter { chain: ChainName },
}

/// The account address of a key.
pub open spec fn key_address(k: SecretKey) -> Seq<u8> {
    address_of_public_key_spec(public_key_spec(k.spec_bytes()))
}

/// Whether one of `voters` votes to bless from `bless` and to curse from
/// `curse`.
pub open spec fn voter_matches(voters: Seq<Voter>, bless: Seq<u8>, curse: Seq<u8>) -> bool {
    exists|i: int|
        0 <= i < voters.len() && (#[trigger] voters[i]).bless_vote_addr@ == bless
            && voters[i].curse_vote_addr@ == curse
}

/// The first on-chain configuration listed for `chain`.
pub open spec fn config_for(cs: Seq<(ChainName, VersionedOnchainConfig)>, chain: ChainName) -> Option<
    VersionedOnchainConfig,
>
    decreases cs.len(),
{
    if cs.len() == 0 {
        None
    } else if cs[0].0 == chain {
        Some(cs[0].1)
    } else {
        config_for(cs.drop_first(), chain)
    }
}

/// What is wrong with `chain`, where something is.
pub open spec fn chain_voter_problem(
    chain: ChainName,
    keys: Map<ChainName, BlessCurseKeys>,
    cs: Seq<(ChainName, VersionedOnchainConfig)>,
) -> Option<VoterValidationError> {
    match config_for(cs, chain) {
        None => Some(VoterValidationError::OnchainConfigNotFound { chain }),
        Some(vc) => if !keys.contains_key(chain) {
            Some(VoterValidationError::KeyNotFound { chain })
        } else if !voter_matches(
            vc.config.voters@,
            key_address(keys[chain].bless),
            key_address(keys[chain].curse),
        ) {
            Some(VoterValidationError::NoMatchingVoter { chain })
        } else {
            None
        },
    }
}

/// The problem of the first of `chains` that has one.
pub open spec fn first_voter_problem(
    chains: Seq<ChainName>,
    keys: Map<ChainName, BlessCurseKeys>,
    cs: Seq<(ChainName, VersionedOnchainConfig)>,
) -> Option<VoterValidationError>
    decreases chains.len(),
{
    if chains.len() == 0 {
        None
    } else {
        match first_voter_problem(chains.drop_last(), keys, cs) {
            Some(e) => Some(e),
            None => chain_voter_problem(chains.last(), keys, cs),
        }
    }
}

fn find_onchain_config(cs: &Vec<(ChainName, VersionedOnchainConfig)>, chain: ChainName) -> (r: Option<
    &VersionedOnchainConfig,
>)
    ensures
        match config_for(cs@, chain) {
            None => r is None,
            Some(vc) => r == Some(&vc),
        },
{
    let mut i: usize = 0;
    assert(cs@.skip(0) =~= cs@);
    while i < cs.len()
        invariant
            i <= cs@.len(),
            config_for(cs@, chain) == config_for(cs@.skip(i as int), chain),
        decreases cs@.len() - i,
    {
        let ghost rest = cs@.skip(i as int);
        if cs[i].0 == chain {
            assert(rest[0] == cs@[i as int]);
            return Some(&cs[i].1);
        }
        assert(rest.drop_first() =~= cs@.skip(i + 1));
        i = i + 1;
    }
    assert(cs@.skip(i as int) =~= Seq::<(ChainName, VersionedOnchainConfig)>::empty());
    None
}

fn has_matching_voter(voters: &Vec<Voter>, bless: &Address, curse: &Address) -> (r: bool)
    ensures
        r == voter_matches(voters@, bless@, curse@),
{
    let mut i: usize = 0;
    while i < voters.len()
        invariant
            i <= voters@.len(),
            forall|j: int|
                0 <= j < i ==> !((#[trigger] voters@[j]).bless_vote_addr@ == bless@
                    && voters@[j].curse_vote_addr@ == curse@),
        decreases voters@.len() - i,
    {
        let v = &voters[i];
        if slices_equal(v.bless_vote_addr.as_slice(), bless.as_slice()) && slices_equal(
            v.curse_vote_addr.as_slice(),
            curse.as_slice(),
        ) {
            return true;
        }
        i = i + 1;
    }
    false
}

/// Checks that, on each destination chain of the configuration, the
/// on-chain configuration has a voter with the addresses of the monitor's
/// keys; the error names the first destination chain that fails.
pub fn validate_voter_addresses(
    config: &OffchainConfig,
    keys: &BlessCurseKeysByChain,
    onchain_configs: &Vec<(ChainName, VersionedOnchainConfig)>,
) -> (r: Result<(), VoterValidationError>)
    requires
        config.lane_dests_enabled(),
    ensures
        match first_voter_problem(dest_names(config.spec_lane_configs()), keys@, onchain_configs@) {
            None => r is Ok,
            Some(e) => r == Err::<(), VoterValidationError>(e),
        },
{
    let dests = config.dest_chains();
    let ghost names = dest_names(config.spec_lane_configs());
    let mut i: usize = 0;
    while i < dests.len()
        invariant
            i <= dests@.len(),
            names == dest_names(config.spec_lane_configs()),
            dests@.len() == names.len(),
            forall|k: int| 0 <= k < dests@.len() ==> (#[trigger] dests@[k]).name == names[k],
            first_voter_problem(names.subrange(0, i as int), keys@, onchain_configs@) is None,
        decreases dests@.len() - i,
    {
        let chain = dests[i].name;
        proof {
            assert(names.subrange(0, i + 1).drop_last() =~= names.subrange(0, i as int));
            assert(names.subrange(0, i + 1).last() == chain);
        }
        let vc = match find_onchain_config(onchain_configs, chain) {
            None => {
                proof {
                    lemma_first_problem_prefix(names, i + 1, keys@, onchain_configs@);
                }
                return Err(VoterValidationError::OnchainConfigNotFound { chain });
            },
            Some(vc) => vc,
        };
        let k = match keys.get(chain) {
            None => {
                proof {
                    lemma_first_problem_prefix(names, i + 1, keys@, onchain_configs@);
                }
                return Err(VoterValidationError::KeyNotFound { chain });
            },
            Some(k) => k,
        };
        let bless = k.bless.address();
        let curse = k.curse.address();
        if !has_matching_voter(&vc.config.voters, &bless, &curse) {
            proof {
                lemma_first_problem_prefix(names, i + 1, keys@, onchain_configs@);
            }
            return Err(VoterValidationError::NoMatchingVoter { chain });
        }
        i = i + 1;
    }
    assert(names.subrange(0, i as int) =~= names);
    Ok(())
}

/// Once a prefix of the chains has a problem, the first problem of all of
/// them is that one.
proof fn lemma_first_problem_prefix(
    chains: Seq<ChainName>,
    k: int,
    keys: Map<ChainName, BlessCurseKeys>,
    cs: Seq<(ChainName, VersionedOnchainConfig)>,
)
    requires
        0 <= k <= chains.len(),
        first_voter_problem(chains.subrange(0, k), keys, cs) is Some,
    ensures
        first_voter_problem(chains, keys, cs) == first_voter_problem(chains.subrange(0, k), keys, cs),
    decreases chains.len() - k,
{
    if k == chains.len() {
        assert(chains.subrange(0, k) =~= chains);
    } else {
        assert(chains.subrange(0, k + 1).drop_last() =~= chains.subrange(0, k));
        lemma_first_problem_prefix(chains, k + 1, keys, cs);
    }
}

/// The first chain of `config`, enabled ones first and then disabled ones,
/// that `keys` has no keys for.
pub fn missing_key_chain(config: &OffchainConfig, keys: &BlessCurseKeysByChain) -> (r: Option<ChainName>)
    ensures
        match r {
            None => forall|i: int|
                0 <= i < config.all_chain_names().len() ==> keys@.contains_key(
                    #[trigger] config.all_chain_names()[i],
                ),
            Some(c) => exists|i: int|
                0 <= i < config.all_chain_names().len() && #[trigger] config.all_chain_names()[i] == c
                    && !keys@.contains_key(c) && forall|j: int|
                    0 <= j < i ==> keys@.contains_key(#[trigger] config.all_chain_names()[j]),
        },
{
    let chains = config.all_chains();
    let ghost names = config.all_chain_names();
    let mut i: usize = 0;
    while i < chains.len()
        invariant
            chains@ == names,
            names == config.all_chain_names(),
            i <= chains@.len(),
            forall|j: int| 0 <= j < i ==> keys@.contains_key(#[trigger] names[j]),
        decreases chains@.len() - i,
    {
        if keys.get(chains[i]).is_none() {
            return Some(chains[i]);
        }
        i = i + 1;
    }
    None
}

/// Whether `keys` has keys for each chain of `config`, enabled or disabled.
pub fn ensure_keys_for_chains(config: &OffchainConfig, keys: &BlessCurseKeysByChain) -> (r: bool)
    ensures
        r == forall|i: int|
            0 <= i < config.all_chain_names().len() ==> keys@.contains_key(#[trigger] config.all_chain_names()[i]),
{
    missing_key_chain(config, keys).is_none()
}

} // verus!
