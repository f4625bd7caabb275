use vstd::prelude::*;
use rand::seq::SliceRandom;
use rand::SeedableRng;
use rand_chacha::ChaChaRng;
use crate::afn_contract::{OnchainConfig, Voter};
use crate::afn_voting_manager::VotingMode;
use crate::bytes::Address;
use crate::chain_status::unix_time_now_secs;

verus! {

broadcast use vstd::seq_lib::group_to_multiset_ensures;

/// The delay in seconds between two voting stages.
pub const DELTA_STAGE_SECS: u64 = 120;

/// What `SliceRandom::shuffle` with a `ChaChaRng` seeded from `seed` makes of
/// `items`.
pub uninterp spec fn chacha_shuffle(items: Seq<usize>, seed: u64) -> Seq<usize>;

/// Calls `SliceRandom::shuffle` of `rand` on `items` with
/// `ChaChaRng::seed_from_u64(seed)`: the result is the named function
/// `chacha_shuffle` of the items and the seed, and holds the same items (the
/// shuffle only swaps them). Which order comes out is not stated.
#[verifier::external_body]
fn shuffle_with_seed(items: Vec<usize>, seed: u64) -> (r: Vec<usize>)
    ensures
        r@ == chacha_shuffle(items@, seed),
        r@.to_multiset() == items@.to_multiset(),
{
    let mut rng = ChaChaRng::seed_from_u64(seed);
    let mut v = items;
    v.shuffle(&mut rng);
    v
}

/// The indices `0..n`.
pub open spec fn indices(n: nat) -> Seq<usize> {
    Seq::new(n, |i: int| i as usize)
}

/// `things` in the order in which the seeded shuffle puts their indices.
pub open spec fn permuted<T>(things: Seq<T>, seed: u64) -> Seq<T> {
    let order = chacha_shuffle(indices(things.len()), seed);
    Seq::new(things.len(), |i: int| things[order[i] as int])
}

/// `things` shuffled with the seed `seed`: the order that the seeded shuffle
/// gives their indices (the shuffle's swaps depend on the length alone).
pub fn permute<T: Copy>(things: &Vec<T>, seed: u64) -> (r: Vec<T>)
    ensures
        r@ == permuted(things@, seed),
{
    let n = things.len();
    let mut idx: Vec<usize> = Vec::new();
    let mut i: usize = 0;
    while i < n
        invariant
            i <= n,
            n == things@.len(),
            idx@ =~= indices(i as nat),
        decreases n - i,
    {
        idx.push(i);
        i = i + 1;
    }
    let order = shuffle_with_seed(idx, seed);
    let ghost ind = indices(n as nat);
    let mut r: Vec<T> = Vec::new();
    let mut k: usize = 0;
    while k < n
        invariant
            k <= n,
            n == things@.len(),
            order@ == chacha_shuffle(ind, seed),
            order@.to_multiset() == ind.to_multiset(),
            ind == indices(n as nat),
            r@.len() == k,
            forall|j: int| 0 <= j < k ==> #[trigger] r@[j] == things@[order@[j] as int],
        decreases n - k,
    {
        proof {
            assert(order@.to_multiset().len() == order@.len());
            assert(ind.to_multiset().len() == ind.len());
            assert(order@.len() == n);
            let x = order@[k as int];
            assert(order@.contains(x));
            assert(order@.to_multiset().count(x) > 0);
            assert(ind.to_multiset().count(x) > 0);
            assert(ind.contains(x));
        }
        let j = order[k];
        r.push(things[j]);
        k = k + 1;
    }
    assert(r@ =~= permuted(things@, seed));
    r
}

/// The sum of the bless weights of `voters`.
pub open spec fn total_bless_weight(voters: Seq<Voter>) -> int
    decreases voters.len(),
{
    if voters.len() == 0 {
        0
    } else {
        total_bless_weight(voters.drop_last()) + voters.last().bless_weight
    }
}

/// The sum of the bless weights of the voters before the first one with the
/// address `addr` (of all of them, where none has it).
pub open spec fn weight_before(voters: Seq<Voter>, addr: Seq<u8>) -> int
    decreases voters.len(),
{
    if voters.len() == 0 || voters[0].bless_vote_addr@ == addr {
        0
    } else {
        voters[0].bless_weight + weight_before(voters.drop_first(), addr)
    }
}

/// The stage of `addr` among `voters` in order: the first stage holds the
/// voters up to the one whose weight reaches `threshold`, every later voter
/// has a stage of its own.
pub open spec fn voter_stage(voters: Seq<Voter>, addr: Seq<u8>, threshold: u16, stage: nat, acc: int) -> Option<
    nat,
>
    decreases voters.len(),
{
    if voters.len() == 0 {
        None
    } else if voters[0].bless_vote_addr@ == addr {
        Some(stage)
    } else {
        let acc2 = acc + voters[0].bless_weight;
        let stage2 = if (stage == 0 && acc2 >= threshold) || stage > 0 {
            stage + 1
        } else {
            stage
        };
        voter_stage(voters.drop_first(), addr, threshold, stage2, acc2)
    }
}

/// The delay in seconds of the vote of `addr` under the seed `seed`.
pub open spec fn delay_with_seed_spec(addr: Address, config: OnchainConfig, seed: u64) -> Option<nat> {
    match voter_stage(permuted(config.voters@, seed), addr@, config.bless_weight_threshold, 0, 0) {
        Some(stage) => Some(stage * (DELTA_STAGE_SECS as nat)),
        None => None,
    }
}

/// Whether the delay `r` in seconds is the delay `d`.
pub open spec fn delay_is(r: Option<u64>, d: Option<nat>) -> bool {
    match d {
        Some(d) => r == Some(d as u64),
        None => r is None,
    }
}

/// The delay in seconds before `bless_vote_addr` votes to bless, under the
/// seed `seed`; `None` for an address that is no voter's. The weights summed
/// on the way, those of the voters before the address in the shuffled order,
/// must fit in a `u16`; a total weight that fits is enough for that.
pub fn delay_with_seed(bless_vote_addr: Address, config: &OnchainConfig, seed: u64) -> (r: Option<u64>)
    requires
        weight_before(permuted(config.voters@, seed), bless_vote_addr@) <= u16::MAX
            || total_bless_weight(config.voters@) <= u16::MAX,
        config.voters@.len() <= u32::MAX,
    ensures
        match delay_with_seed_spec(bless_vote_addr, *config, seed) {
            Some(d) => r == Some(d as u64),
            None => r is None,
        },
{
    let voters = permute(&config.voters, seed);
    let ghost vs = voters@;
    assert(vs.subrange(0, vs.len() as int) =~= vs);
    let mut stage: u64 = 0;
    let mut acc: u128 = 0;
    let mut i: usize = 0;
    while i < voters.len()
        invariant
            i <= vs.len(),
            vs == voters@,
            vs == permuted(config.voters@, seed),
            vs.len() <= u32::MAX,
            stage <= i,
            acc <= 255 * i,
            voter_stage(vs, bless_vote_addr@, config.bless_weight_threshold, 0, 0) == voter_stage(
                vs.subrange(i as int, vs.len() as int),
                bless_vote_addr@,
                config.bless_weight_threshold,
                stage as nat,
                acc as int,
            ),
        decreases vs.len() - i,
    {
        let v = voters[i];
        proof {
            let rest = vs.subrange(i as int, vs.len() as int);
            assert(rest[0] == v);
            assert(rest.drop_first() =~= vs.subrange(i + 1, vs.len() as int));
        }
        if v.bless_vote_addr == bless_vote_addr {
            proof {
                assert(stage * 120 <= u64::MAX) by (nonlinear_arith)
                    requires
                        stage <= u32::MAX,
                ;
            }
            return Some(stage * DELTA_STAGE_SECS);
        }
        acc = acc + v.bless_weight as u128;
        if (stage == 0 && acc >= config.bless_weight_threshold as u128) || stage > 0 {
            stage = stage + 1;
        }
        i = i + 1;
    }
    None
}

/// The hours since the Unix epoch at `seconds` seconds since it.
pub open spec fn hours_since_epoch(seconds: u64) -> u64 {
    seconds / 60 / 60
}

/// The seed of the current hour: the hours since the Unix epoch.
fn current_seed() -> (r: u64)
    ensures
        exists|seconds: u64| r == #[trigger] hours_since_epoch(seconds),
{
    let seconds = unix_time_now_secs();
    let minutes = seconds / 60;
    let hours = minutes / 60;
    assert(hours == hours_since_epoch(seconds));
    hours
}

/// The delay in seconds before `bless_vote_addr` votes to bless: by the seed
/// of the current hour in the active and dry-run modes, none in the passive
/// mode.
pub fn delay(bless_vote_addr: Address, config: &OnchainConfig, mode: VotingMode) -> (r: Option<u64>)
    requires
        total_bless_weight(config.voters@) <= u16::MAX,
        config.voters@.len() <= u32::MAX,
    ensures
        mode == VotingMode::Passive ==> r == Some(0u64),
        mode != VotingMode::Passive ==> exists|seed: u64| #[trigger]
            delay_is(r, delay_with_seed_spec(bless_vote_addr, *config, seed)),
{
    match mode {
        VotingMode::Active | VotingMode::DryRun => {
            let seed = current_seed();
            let r = delay_with_seed(bless_vote_addr, config, seed);
            assert(delay_is(r, delay_with_seed_spec(bless_vote_addr, *config, seed)));
            r
        },
        VotingMode::Passive => Some(0),
    }
}

} // verus!
