use vstd::prelude::*;
use std::collections::VecDeque;
use crate::bytes::Bytes32;
use crate::chain_status::{is_chain, lemma_chain_numbers, ChainStatus, Tail, TailError};
use crate::rpc::Block;

verus! {

/// What walking back from the head of a new tail decides.
#[derive(Debug, Clone, Copy, PartialEq, Eq, Structural)]
pub enum WalkStep {
    /// The head is a block of the old tail: the new tail joins it.
    Joined,
    /// The head conflicts with a final block.
    FinalityViolated,
    /// The head is older than the old tail's stable tip: keep the old tail.
    RewoundPastStableTip,
    /// The parent of the head, with this hash, is needed next.
    NeedParent,
}

/// Whether the old tail holds a block of the number and hash of `head`.
pub open spec fn tail_holds(blocks: Seq<Block>, head: Block) -> bool {
    exists|i: int|
        0 <= i < blocks.len() && #[trigger] blocks[i].number == head.number && blocks[i].hash@
            == head.hash@
}

/// What a step of the walk back decides, given the old tail's blocks, the
/// finalized block where the chain has a finality tag, and the head.
pub open spec fn walk_step_spec(blocks: Seq<Block>, finalized: Option<Block>, head: Block) -> WalkStep {
    if tail_holds(blocks, head) {
        WalkStep::Joined
    } else if head.number == blocks[0].number {
        WalkStep::FinalityViolated
    } else if finalized matches Some(f) && head.number == f.number && head.hash@ != f.hash@ {
        WalkStep::FinalityViolated
    } else if head.number < blocks[0].number {
        WalkStep::RewoundPastStableTip
    } else {
        WalkStep::NeedParent
    }
}

/// Decides the next step of walking back from `head`, the oldest block of a
/// new tail, towards the old tail.
pub fn walk_step(tail: &Tail, finalized: Option<Block>, head: &Block) -> (r: WalkStep)
    ensures
        r == walk_step_spec(tail.blocks(), finalized, *head),
{
    let stable_number = tail.stable_tip().number;
    if tail.contains(head) {
        WalkStep::Joined
    } else if head.number == stable_number {
        WalkStep::FinalityViolated
    } else {
        let conflicts = match finalized {
            Some(f) => head.number == f.number && head.hash != f.hash,
            None => false,
        };
        if conflicts {
            WalkStep::FinalityViolated
        } else if head.number < stable_number {
            WalkStep::RewoundPastStableTip
        } else {
            WalkStep::NeedParent
        }
    }
}

/// The walk back never goes below the old stable tip: a head that the old
/// tail does not hold but that has the stable tip's number is a finality
/// violation, and the walk asks for a parent only of a head above the stable
/// tip that the old tail does not hold. A head that conflicts with the
/// finalized block is a finality violation too, and a head joins the old tail
/// exactly when the old tail holds it.
pub proof fn law_walk_stops_at_stable_tip(blocks: Seq<Block>, finalized: Option<Block>, head: Block)
    requires
        is_chain(blocks),
    ensures
        !tail_holds(blocks, head) && head.number == blocks[0].number ==> walk_step_spec(
            blocks,
            finalized,
            head,
        ) == WalkStep::FinalityViolated,
        walk_step_spec(blocks, finalized, head) == WalkStep::NeedParent ==> head.number
            > blocks[0].number && !tail_holds(blocks, head),
        walk_step_spec(blocks, finalized, head) == WalkStep::RewoundPastStableTip ==> head.number
            < blocks[0].number && !tail_holds(blocks, head),
        (finalized matches Some(f) && head.number == f.number && head.hash@ != f.hash@
            && !tail_holds(blocks, head)) ==> walk_step_spec(blocks, finalized, head)
            == WalkStep::FinalityViolated,
        (walk_step_spec(blocks, finalized, head) == WalkStep::Joined) == tail_holds(blocks, head),
        (!tail_holds(blocks, head) && !(finalized matches Some(f) && head.number == f.number
            && head.hash@ != f.hash@)) ==> (head.number > blocks[0].number ==> walk_step_spec(
            blocks,
            finalized,
            head,
        ) == WalkStep::NeedParent) && (head.number < blocks[0].number ==> walk_step_spec(
            blocks,
            finalized,
            head,
        ) == WalkStep::RewoundPastStableTip),
{
}

/// The finalized and latest blocks to build a tail between: a latest block
/// older than the finalized one is replaced by the finalized one.
pub fn normalize_finalized_and_latest(finalized: Block, latest: Block) -> (r: (Block, Block))
    ensures
        r.0 == finalized,
        r.1 == if finalized.number <= latest.number {
            latest
        } else {
            finalized
        },
{
    if finalized.number <= latest.number {
        (finalized, latest)
    } else {
        (finalized, finalized)
    }
}

/// The height `confirmations` blocks below `latest_number`, or 0.
pub fn confirmed_height(latest_number: u64, confirmations: usize) -> (r: u64)
    ensures
        r == if latest_number >= confirmations {
            (latest_number - confirmations) as u64
        } else {
            0
        },
{
    let c = confirmations as u64;
    latest_number.saturating_sub(c)
}

/// The blocks of the old tail that go before a new tail whose oldest block
/// has number `front`: those numbered from `lo_bound` (or the old tail's
/// first) up to `front - 1`, where the old tail holds `front - 1`.
pub open spec fn tail_extension(blocks: Seq<Block>, front: u64, lo_bound: u64) -> Seq<Block> {
    let first = blocks[0].number as int;
    let lo = if lo_bound >= first {
        lo_bound as int
    } else {
        first
    };
    if front - 1 > first + blocks.len() - 1 || lo >= front {
        seq![]
    } else {
        blocks.subrange(lo - first, front - first)
    }
}

/// `s` without its leading blocks numbered below `floor`.
pub open spec fn drop_below(s: Seq<Block>, floor: u64) -> Seq<Block>
    decreases s.len(),
{
    if s.len() > 0 && s[0].number < floor {
        drop_below(s.drop_first(), floor)
    } else {
        s
    }
}

/// Puts the blocks of the old tail numbered down to `lo_bound` before the new
/// tail, for as long as the old tail holds the predecessor.
fn extend_down(tail: &Tail, new_tail: &mut VecDeque<Block>, lo_bound: u64)
    requires
        old(new_tail)@.len() > 0,
    ensures
        final(new_tail)@ == tail_extension(tail.blocks(), old(new_tail)@[0].number, lo_bound) + old(
            new_tail,
        )@,
{
    let ghost nt0 = new_tail@;
    let ghost blocks = tail.blocks();
    let first = tail.stable_tip().number;
    proof {
        lemma_chain_numbers(blocks);
    }
    let f = new_tail[0].number;
    let mut k: u64 = 0;
    while new_tail[0].number > lo_bound
        invariant
            blocks == tail.blocks(),
            is_chain(blocks),
            first == blocks[0].number,
            forall|i: int| 0 <= i < blocks.len() ==> #[trigger] blocks[i].number == first + i,
            nt0 == old(new_tail)@,
            f == nt0[0].number,
            k <= f,
            new_tail@.len() > 0,
            new_tail@[0].number == f - k,
            k > 0 ==> f - 1 <= first + blocks.len() - 1 && f - k >= first && f - k >= lo_bound,
            k > 0 ==> new_tail@ == blocks.subrange(f - k - first, f - first) + nt0,
            k == 0 ==> new_tail@ == nt0,
        decreases new_tail@[0].number,
    {
        let front = new_tail[0].number;
        match tail.block_by_number(front - 1) {
            None => {
                proof {
                    if k > 0 {
                        assert(new_tail@ =~= tail_extension(blocks, f, lo_bound) + nt0);
                    } else {
                        assert(tail_extension(blocks, f, lo_bound) =~= Seq::<Block>::empty());
                        assert(new_tail@ =~= tail_extension(blocks, f, lo_bound) + nt0);
                    }
                }
                return;
            },
            Some(p) => {
                let ghost before = new_tail@;
                new_tail.push_front(*p);
                proof {
                    let j = front - 1 - first;
                    assert(*p == blocks[j]);
                    if k > 0 {
                        assert(new_tail@ =~= blocks.subrange(f - (k + 1) - first, f - first) + nt0);
                    } else {
                        assert(new_tail@ =~= blocks.subrange(f - 1 - first, f - first) + nt0);
                    }
                }
                k = k + 1;
            },
        }
    }
    proof {
        if k > 0 {
            assert(new_tail@ =~= tail_extension(blocks, f, lo_bound) + nt0);
        } else {
            assert(tail_extension(blocks, f, lo_bound) =~= Seq::<Block>::empty());
            assert(new_tail@ =~= tail_extension(blocks, f, lo_bound) + nt0);
        }
    }
}

proof fn lemma_drop_below_nonempty(s: Seq<Block>, floor: u64)
    requires
        s.len() > 0,
        s.last().number >= floor,
    ensures
        drop_below(s, floor).len() > 0,
        drop_below(s, floor).last() == s.last(),
    decreases s.len(),
{
    if s[0].number < floor {
        assert(s.len() > 1);
        assert(s.drop_first().last() == s.last());
        lemma_drop_below_nonempty(s.drop_first(), floor);
    }
}

fn to_vec(q: VecDeque<Block>) -> (r: Vec<Block>)
    ensures
        r@ == q@,
{
    let mut r: Vec<Block> = Vec::new();
    let mut i: usize = 0;
    while i < q.len()
        invariant
            i <= q@.len(),
            r@ == q@.subrange(0, i as int),
        decreases q@.len() - i,
    {
        r.push(q[i]);
        i = i + 1;
        assert(r@ =~= q@.subrange(0, i as int));
    }
    assert(r@ =~= q@);
    r
}

/// The new tail of a chain with a finality tag, once the walk back from the
/// latest block joined the old tail: the old tail's blocks down to the
/// finalized one go first, the blocks before the finalized one are dropped.
pub fn finish_finality_tag(tail: &Tail, finalized: &Block, new_tail: VecDeque<Block>) -> (r: Result<
    Tail,
    TailError,
>)
    requires
        new_tail@.len() > 0,
        new_tail@.last().number >= finalized.number,
    ensures
        ({
            let s = drop_below(
                tail_extension(tail.blocks(), new_tail@[0].number, finalized.number) + new_tail@,
                finalized.number,
            );
            &&& r is Ok <==> is_chain(s)
            &&& r matches Ok(t) ==> t.blocks() == s
        }),
{
    let ghost nt0 = new_tail@;
    let mut q = new_tail;
    extend_down(tail, &mut q, finalized.number);
    let ghost ext = q@;
    proof {
        assert(ext.last() == nt0.last());
        lemma_drop_below_nonempty(ext, finalized.number);
    }
    while q[0].number < finalized.number
        invariant
            q@.len() > 0,
            drop_below(q@, finalized.number) == drop_below(ext, finalized.number),
            drop_below(q@, finalized.number).len() > 0,
        decreases q@.len(),
    {
        let ghost before = q@;
        q.pop_front();
        proof {
            assert(q@ =~= before.drop_first());
            if q@.len() == 0 {
                assert(drop_below(before, finalized.number) == drop_below(q@, finalized.number));
            }
        }
    }
    Tail::new(to_vec(q))
}

/// The new tail of a chain whose blocks are final at a confirmation depth,
/// once the walk back joined the old tail: the old tail's blocks go first
/// until it has `hard_confirmations + 1` blocks, and the oldest ones beyond
/// that are dropped.
pub fn finish_confirmation_depth(
    tail: &Tail,
    hard_confirmations: usize,
    new_tail: VecDeque<Block>,
) -> (r: Result<Tail, TailError>)
    requires
        new_tail@.len() > 0,
        hard_confirmations < usize::MAX,
    ensures
        ({
            let n = new_tail@.len();
            let m = hard_confirmations + 1 - n;
            let f = new_tail@[0].number;
            let lo_bound = if m <= 0 {
                f
            } else if f >= m {
                (f - m) as u64
            } else {
                0u64
            };
            let ext = tail_extension(tail.blocks(), f, lo_bound) + new_tail@;
            let s = if ext.len() > hard_confirmations + 1 {
                ext.subrange(ext.len() - (hard_confirmations + 1), ext.len() as int)
            } else {
                ext
            };
            &&& r is Ok <==> is_chain(s)
            &&& r matches Ok(t) ==> t.blocks() == s
        }),
{
    let want = hard_confirmations + 1;
    let n = new_tail.len();
    let f = new_tail[0].number;
    let lo_bound = if n >= want {
        f
    } else {
        let m = (want - n) as u64;
        f.saturating_sub(m)
    };
    let mut q = new_tail;
    extend_down(tail, &mut q, lo_bound);
    let ghost ext = q@;
    let ext_len = q.len();
    let mut dropped: usize = 0;
    while q.len() > want
        invariant
            q@ == ext.subrange(dropped as int, ext.len() as int),
            dropped <= ext.len(),
            ext.len() == ext_len,
            want == hard_confirmations + 1,
            ext.len() > want ==> q@.len() >= want,
            ext.len() <= want ==> dropped == 0,
        decreases q@.len(),
    {
        q.pop_front();
        dropped = dropped + 1;
        assert(q@ =~= ext.subrange(dropped as int, ext.len() as int));
    }
    proof {
        if ext.len() > want {
            assert(dropped == ext.len() - want);
        } else {
            assert(q@ =~= ext);
        }
    }
    Tail::new(to_vec(q))
}

/// `drop_below` keeps a suffix: the blocks from the first one numbered at
/// least `floor`.
proof fn lemma_drop_below_suffix(c: Seq<Block>, floor: u64) -> (d: int)
    ensures
        0 <= d <= c.len(),
        drop_below(c, floor) == c.subrange(d, c.len() as int),
        forall|k: int| 0 <= k < d ==> (#[trigger] c[k]).number < floor,
        d < c.len() ==> c[d].number >= floor,
    decreases c.len(),
{
    if c.len() > 0 && c[0].number < floor {
        let d1 = lemma_drop_below_suffix(c.drop_first(), floor);
        assert(c.drop_first().subrange(d1, c.drop_first().len() as int) =~= c.subrange(d1 + 1, c.len() as int));
        assert forall|k: int| 0 <= k < d1 + 1 implies (#[trigger] c[k]).number < floor by {
            if k > 0 {
                assert(c[k] == c.drop_first()[k - 1]);
            }
        }
        if d1 + 1 < c.len() {
            assert(c[d1 + 1] == c.drop_first()[d1]);
        }
        d1 + 1
    } else {
        assert(c.subrange(0, c.len() as int) =~= c);
        0
    }
}

/// A good new tail of a chain with a finality tag never rewrites the old
/// stable tip: once the walk back from the latest block joined the old tail,
/// the tail that `finish_finality_tag` builds holds a block of the old stable
/// tip's number only with the old stable tip's hash.
pub proof fn law_finality_tag_keeps_stable_tip(blocks: Seq<Block>, finalized: Block, new_tail: Seq<Block>)
    requires
        is_chain(blocks),
        new_tail.len() > 0,
        tail_holds(blocks, new_tail[0]),
        is_chain(
            drop_below(
                tail_extension(blocks, new_tail[0].number, finalized.number) + new_tail,
                finalized.number,
            ),
        ),
    ensures
        ({
            let s = drop_below(
                tail_extension(blocks, new_tail[0].number, finalized.number) + new_tail,
                finalized.number,
            );
            forall|i: int|
                0 <= i < s.len() && (#[trigger] s[i]).number == blocks[0].number ==> s[i].hash@
                    == blocks[0].hash@
        }),
{
    let e = tail_extension(blocks, new_tail[0].number, finalized.number);
    let c = e + new_tail;
    let s = drop_below(c, finalized.number);
    let d = lemma_drop_below_suffix(c, finalized.number);
    lemma_chain_numbers(blocks);
    lemma_chain_numbers(s);
    let first = blocks[0].number as int;
    let front = new_tail[0].number as int;
    let j0 = choose|j: int|
        0 <= j < blocks.len() && #[trigger] blocks[j].number == new_tail[0].number && blocks[j].hash@
            == new_tail[0].hash@;
    assert(front == first + j0);
    assert forall|i: int| 0 <= i < s.len() && (#[trigger] s[i]).number == blocks[0].number implies s[i].hash@
        == blocks[0].hash@ by {
        assert(s[i] == c[d + i]);
        if d + i < e.len() {
            let lo = if finalized.number >= first {
                finalized.number as int
            } else {
                first
            };
            assert(e == blocks.subrange(lo - first, front - first));
            assert(c[d + i] == blocks[lo - first + d + i]);
            assert(lo - first + d + i == 0);
        } else if d + i == e.len() {
            assert(c[d + i] == new_tail[0]);
            assert(j0 == 0);
        } else if d <= e.len() {
            let i0 = e.len() - d;
            assert(s[i0] == c[e.len() as int]);
            assert(c[e.len() as int] == new_tail[0]);
            assert(s[i].number == s[0].number + i);
            assert(s[i0].number == s[0].number + i0);
        } else {
            assert(c[d].number >= finalized.number);
            assert(s[0] == c[d]);
            assert(s[i].number == s[0].number + i);
            assert(c[e.len() as int] == new_tail[0]);
            assert(c[e.len() as int].number < finalized.number);
        }
    }
}

} // verus!
