use vstd::prelude::*;
use crate::afn_contract::TaggedRoot;
use crate::bytes::Address;
use crate::commit_store_common::{
    compute_merkle_root_spec, verify_root_with_interval, ComputeMerkleRootError, Interval,
    OnRampReader, RootWithInterval,
};
use crate::contract_event_state_machine::{
    could_vote_spec, interval_indices, root_set, DestBlessState, SourceBlessState,
};

verus! {

/// The tagged roots of a lane that this monitor has verified and may vote to
/// bless.
#[derive(Clone, Debug)]
pub struct LaneBlessStatus {
    pub verified_tagged_roots: Vec<TaggedRoot>,
}

/// The tagged roots, in the commit store `commit_store`, of the candidates
/// whose root is the Merkle root of the source's messages of its interval.
pub open spec fn verified_roots_spec(
    candidates: Seq<(usize, RootWithInterval)>,
    source: SourceBlessState,
    commit_store: Address,
) -> Seq<TaggedRoot>
    decreases candidates.len(),
{
    if candidates.len() == 0 {
        seq![]
    } else {
        let ri = candidates.last().1;
        let prev = verified_roots_spec(candidates.drop_last(), source, commit_store);
        if compute_merkle_root_spec(ri.interval, source) == Ok::<Seq<u8>, ComputeMerkleRootError>(ri.root@) {
            prev.push(TaggedRoot { commit_store, root: ri.root })
        } else {
            prev
        }
    }
}

proof fn lemma_full_interval_unknown(source: SourceBlessState, interval: Interval)
    requires
        interval.max - interval.min == u64::MAX,
        source.seq_nrs_and_message_hashes@.len() <= usize::MAX,
    ensures
        interval_indices(source.seq_nrs_and_message_hashes@, interval) is None,
{
    let d = (interval.max - interval.min) as u64;
    assert(d == u64::MAX);
    let q = source.seq_nrs_and_message_hashes@;
    if q.len() > 0 {
        let n: usize = q.len() as usize;
        assert(n <= (0xffff_ffff_ffff_ffffu64 as usize)) by (bit_vector);
        let dd: usize = (interval.max - interval.min) as usize;
        assert(dd == (0xffff_ffff_ffff_ffffu64 as usize));
        assert(n as int == q.len());
        assert(dd >= q.len());
    }
}

/// The roots committed on the destination that this monitor could vote for
/// and has verified against the source's message hashes.
pub fn latest_lane_bless_status(dest: &DestBlessState, source: &SourceBlessState) -> (r: LaneBlessStatus)
    ensures
        r.verified_tagged_roots@ == verified_roots_spec(
            could_vote_spec(
                dest.committed_roots_with_intervals@,
                root_set(dest.blessed_roots@),
                root_set(dest.my_voted_but_not_yet_blessed_roots@),
            ),
            *source,
            dest.commit_store_address,
        ),
{
    let commit_store = dest.commit_store_address;
    let candidates = dest.unverified_roots_with_intervals_we_could_vote();
    let mut verified: Vec<TaggedRoot> = Vec::new();
    let mut i: usize = 0;
    while i < candidates.len()
        invariant
            i <= candidates@.len(),
            verified@ == verified_roots_spec(candidates@.subrange(0, i as int), *source, commit_store),
        decreases candidates@.len() - i,
    {
        proof {
            assert(candidates@.subrange(0, i + 1).drop_last() =~= candidates@.subrange(0, i as int));
        }
        let ri = candidates[i].1;
        if ri.interval.max >= ri.interval.min && ri.interval.max - ri.interval.min == u64::MAX {
            let len = source.seq_nrs_and_message_hashes.len();
            proof {
                lemma_full_interval_unknown(*source, ri.interval);
            }
        } else {
            match verify_root_with_interval(&ri, source) {
                Ok(true) => {
                    verified.push(TaggedRoot { commit_store, root: ri.root });
                },
                _ => {},
            }
        }
        i = i + 1;
    }
    assert(candidates@.subrange(0, candidates@.len() as int) =~= candidates@);
    LaneBlessStatus { verified_tagged_roots: verified }
}

} // verus!
