use vstd::prelude::*;
use crate::common::ChainName;
use crate::curse_beacon::CurseId;

verus! {

/// The seconds to wait before voting to curse again with one curse id.
pub const VOTE_TO_CURSE_SEND_INTERVAL_PER_CURSE_ID_SECS: u64 = 30;

/// The worker that votes to curse a chain.
pub struct VoteToCurseWorker {
    pub chain_name: ChainName,
}

/// For each curse id voted with, the time before which no vote is sent again.
#[derive(Debug, Clone)]
pub struct CurseVoteThrottle {
    do_not_send_vote_for_curse_id_until: Vec<(CurseId, u64)>,
}

/// The time until which votes with `curse_id` wait, where there is one: the
/// last entry for it.
pub open spec fn wait_until(es: Seq<(CurseId, u64)>, curse_id: Seq<u8>) -> Option<u64>
    decreases es.len(),
{
    if es.len() == 0 {
        None
    } else if es.last().0@ == curse_id {
        Some(es.last().1)
    } else {
        wait_until(es.drop_last(), curse_id)
    }
}

impl CurseVoteThrottle {
    /// The entries, oldest first.
    pub closed spec fn entries(&self) -> Seq<(CurseId, u64)> {
        self.do_not_send_vote_for_curse_id_until@
    }

    /// No curse id waits.
    pub fn new() -> (r: Self)
        ensures
            r.entries() == Seq::<(CurseId, u64)>::empty(),
    {
        CurseVoteThrottle { do_not_send_vote_for_curse_id_until: Vec::new() }
    }

    /// Whether a vote with `curse_id` may be sent at `now`: not before the time
    /// set when the last vote with it was sent.
    pub fn may_send(&self, curse_id: &CurseId, now: u64) -> (r: bool)
        ensures
            r == match wait_until(self.entries(), curse_id@) {
                Some(t) => now >= t,
                None => true,
            },
    {
        let es = &self.do_not_send_vote_for_curse_id_until;
        let mut i = es.len();
        assert(es@.subrange(0, i as int) =~= es@);
        while i > 0
            invariant
                es == &self.do_not_send_vote_for_curse_id_until,
                i <= es@.len(),
                wait_until(es@, curse_id@) == wait_until(es@.subrange(0, i as int), curse_id@),
            decreases i,
        {
            proof {
                assert(es@.subrange(0, i as int).drop_last() =~= es@.subrange(0, i - 1));
            }
            if es[i - 1].0 == *curse_id {
                assert(es@.subrange(0, i as int).last() == es@[i - 1]);
                return now >= es[i - 1].1;
            }
            i = i - 1;
        }
        true
    }

    /// Notes that a vote with `curse_id` was sent at `now`: the next waits
    /// the send interval.
    pub fn note_sent(&mut self, curse_id: CurseId, now: u64)
        ensures
            wait_until(final(self).entries(), curse_id@) == Some(
                if now as int + VOTE_TO_CURSE_SEND_INTERVAL_PER_CURSE_ID_SECS <= u64::MAX {
                    (now + VOTE_TO_CURSE_SEND_INTERVAL_PER_CURSE_ID_SECS) as u64
                } else {
                    u64::MAX
                },
            ),
            forall|c: Seq<u8>| c != curse_id@ ==> wait_until(final(self).entries(), c) == wait_until(
                old(self).entries(),
                c,
            ),
    {
        let until = now.saturating_add(VOTE_TO_CURSE_SEND_INTERVAL_PER_CURSE_ID_SECS);
        let ghost es0 = self.entries();
        self.do_not_send_vote_for_curse_id_until.push((curse_id, until));
        assert(self.entries().drop_last() =~= es0);
    }
}

} // verus!
