use vstd::prelude::*;
use crate::afn_contract::TaggedRoot;
use crate::bytes::Address;
use crate::common::{ChainName, LaneId, LaneIdV};
use crate::curse_beacon::{lane_is_cursed_spec, CurseBeacon, CursableAnomalyV};
use crate::inflight_root_cache::{
    inflight_entries, same_tagged_root, still_inflight, InflightRootCacheWithCustomTime,
};
use crate::lane_bless_status::LaneBlessStatus;
use crate::merkle::lex_lt;

verus! {

/// The worker that votes to bless the verified roots of the lanes into a chain.
pub struct VoteToBlessWorker {
    pub chain_name: ChainName,
}

/// Whether `a` comes before `b`: by commit store, then by root.
pub open spec fn tagged_root_lt(a: TaggedRoot, b: TaggedRoot) -> bool {
    lex_lt(a.commit_store@, b.commit_store@) || (a.commit_store@ == b.commit_store@ && lex_lt(
        a.root@,
        b.root@,
    ))
}

/// Whether the entry `a` comes before `b`: by send time, then by tagged root.
pub open spec fn entry_lt(a: (u64, TaggedRoot), b: (u64, TaggedRoot)) -> bool {
    a.0 < b.0 || (a.0 == b.0 && tagged_root_lt(a.1, b.1))
}

/// Whether the entry at `i` comes before none of `es`.
pub open spec fn is_first(es: Seq<(u64, TaggedRoot)>, i: int) -> bool {
    0 <= i < es.len() && forall|j: int| 0 <= j < es.len() ==> !entry_lt(#[trigger] es[j], es[i])
}

fn bytes_lt(a: &[u8], b: &[u8]) -> (r: bool)
    requires
        a@.len() == b@.len(),
    ensures
        r == lex_lt(a@, b@),
{
    let n = a.len();
    let mut i: usize = 0;
    assert(a@.skip(0) =~= a@);
    assert(b@.skip(0) =~= b@);
    while i < n
        invariant
            i <= n,
            a@.len() == n,
            b@.len() == n,
            lex_lt(a@, b@) == lex_lt(a@.skip(i as int), b@.skip(i as int)),
        decreases n - i,
    {
        if a[i] != b[i] {
            return a[i] < b[i];
        }
        assert(a@.skip(i as int).drop_first() =~= a@.skip(i + 1));
        assert(b@.skip(i as int).drop_first() =~= b@.skip(i + 1));
        i = i + 1;
    }
    false
}

fn entry_less(a: &(u64, TaggedRoot), b: &(u64, TaggedRoot)) -> (r: bool)
    ensures
        r == entry_lt(*a, *b),
{
    if a.0 != b.0 {
        return a.0 < b.0;
    }
    let c1 = a.1.commit_store.as_slice();
    let c2 = b.1.commit_store.as_slice();
    if bytes_lt(c1, c2) {
        return true;
    }
    if a.1.commit_store != b.1.commit_store {
        return false;
    }
    bytes_lt(a.1.root.as_slice(), b.1.root.as_slice())
}

/// Whether no two entries are for the same tagged root.
pub open spec fn unique_roots(es: Seq<(u64, TaggedRoot)>) -> bool {
    forall|i: int, j: int|
        0 <= i < j < es.len() ==> !same_tagged_root(#[trigger] es[i].1, #[trigger] es[j].1)
}

/// The tagged roots waiting to be voted for, each with the time to send its
/// vote; the earliest goes first.
#[derive(Debug)]
pub struct VoteQueue {
    queued_tagged_roots: Vec<(u64, TaggedRoot)>,
}

impl VoteQueue {
    /// No tagged root is queued twice.
    #[verifier::type_invariant]
    spec fn roots_unique(self) -> bool {
        unique_roots(self.queued_tagged_roots@)
    }

    /// The entries, in the order they came.
    pub closed spec fn entries(&self) -> Seq<(u64, TaggedRoot)> {
        self.queued_tagged_roots@
    }

    /// An empty queue.
    pub fn new() -> (r: Self)
        ensures
            r.entries() == Seq::<(u64, TaggedRoot)>::empty(),
            unique_roots(r.entries()),
    {
        VoteQueue { queued_tagged_roots: Vec::new() }
    }

    /// Whether the queue holds an entry for `tagged_root`.
    fn holds(&self, tagged_root: &TaggedRoot) -> (r: bool)
        ensures
            r == exists|i: int|
                0 <= i < self.entries().len() && same_tagged_root(#[trigger] self.entries()[i].1, *tagged_root),
    {
        let mut i: usize = 0;
        while i < self.queued_tagged_roots.len()
            invariant
                i <= self.entries().len(),
                forall|k: int| 0 <= k < i ==> !same_tagged_root(#[trigger] self.entries()[k].1, *tagged_root),
            decreases self.entries().len() - i,
        {
            let e = &self.queued_tagged_roots[i];
            if e.1.commit_store == tagged_root.commit_store && e.1.root == tagged_root.root {
                assert(same_tagged_root(self.entries()[i as int].1, *tagged_root));
                return true;
            }
            i = i + 1;
        }
        false
    }

    /// Queues `tagged_root` to be sent at `send_time`, unless it is queued.
    pub fn push(&mut self, send_time: u64, tagged_root: TaggedRoot)
        ensures
            (exists|i: int|
                0 <= i < old(self).entries().len() && same_tagged_root(#[trigger] old(self).entries()[i].1, tagged_root))
                ==> final(self).entries() == old(self).entries(),
            !(exists|i: int|
                0 <= i < old(self).entries().len() && same_tagged_root(#[trigger] old(self).entries()[i].1, tagged_root))
                ==> final(self).entries() == old(self).entries().push((send_time, tagged_root)),
            unique_roots(final(self).entries()),
    {
        proof {
            use_type_invariant(&*self);
        }
        if !self.holds(&tagged_root) {
            let ghost es0 = self.entries();
            let mut v: Vec<(u64, TaggedRoot)> = Vec::new();
            std::mem::swap(&mut v, &mut self.queued_tagged_roots);
            v.push((send_time, tagged_root));
            proof {
                let es = v@;
                assert forall|i: int, j: int| 0 <= i < j < es.len() && unique_roots(es0) implies !same_tagged_root(
                    #[trigger] es[i].1,
                    #[trigger] es[j].1,
                ) by {
                    assert(es[i] == es0[i]);
                    if j < es0.len() {
                        assert(es[j] == es0[j]);
                    } else {
                        if same_tagged_root(es0[i].1, tagged_root) {
                            assert(same_tagged_root(es0[i].1, tagged_root));
                        }
                    }
                }
            }
            self.queued_tagged_roots = v;
        }
    }

    /// The index of the entry that goes first, where there is one.
    fn first_index(&self) -> (r: Option<usize>)
        ensures
            match r {
                None => self.entries().len() == 0,
                Some(i) => is_first(self.entries(), i as int),
            },
    {
        let es = &self.queued_tagged_roots;
        if es.len() == 0 {
            return None;
        }
        let mut best: usize = 0;
        let mut i: usize = 1;
        proof {
            lemma_entry_lt_irreflexive(es@[0]);
        }
        while i < es.len()
            invariant
                1 <= i <= es@.len(),
                best < i,
                forall|j: int| 0 <= j < i ==> !entry_lt(#[trigger] es@[j], es@[best as int]),
            decreases es@.len() - i,
        {
            if entry_less(&es[i], &es[best]) {
                proof {
                    assert forall|j: int| 0 <= j < i + 1 implies !entry_lt(#[trigger] es@[j], es@[i as int]) by {
                        if j == i {
                            lemma_entry_lt_irreflexive(es@[i as int]);
                        } else {
                            lemma_entry_lt_transitive_asym(es@[j], es@[best as int], es@[i as int]);
                        }
                    }
                }
                best = i;
            }
            i = i + 1;
        }
        Some(best)
    }

    /// The entry that goes first, where there is one.
    pub fn peek(&self) -> (r: Option<(u64, TaggedRoot)>)
        ensures
            match r {
                None => self.entries().len() == 0,
                Some(e) => exists|i: int| is_first(self.entries(), i) && self.entries()[i] == e,
            },
    {
        match self.first_index() {
            None => None,
            Some(i) => Some(self.queued_tagged_roots[i]),
        }
    }

    /// Takes out the entry that goes first, where its send time has come at
    /// `now`.
    pub fn pop(&mut self, now: u64) -> (r: Option<TaggedRoot>)
        ensures
            match r {
                None => final(self).entries() == old(self).entries() && (old(self).entries().len() == 0
                    || exists|i: int| is_first(old(self).entries(), i) && old(self).entries()[i].0 > now),
                Some(root) => exists|i: int|
                    is_first(old(self).entries(), i) && old(self).entries()[i].0 <= now && old(
                        self,
                    ).entries()[i].1 == root && final(self).entries() == old(self).entries().remove(i),
            },
            unique_roots(final(self).entries()),
    {
        proof {
            use_type_invariant(&*self);
        }
        match self.first_index() {
            None => None,
            Some(i) => {
                let (send_time, tagged_root) = self.queued_tagged_roots[i];
                if now >= send_time {
                    let ghost es0 = self.entries();
                    let mut v: Vec<(u64, TaggedRoot)> = Vec::new();
                    std::mem::swap(&mut v, &mut self.queued_tagged_roots);
                    v.remove(i);
                    proof {
                        let es = v@;
                        assert forall|a: int, b: int| 0 <= a < b < es.len() && unique_roots(es0) implies !same_tagged_root(
                            #[trigger] es[a].1,
                            #[trigger] es[b].1,
                        ) by {
                            let a0 = if a < i { a } else { a + 1 };
                            let b0 = if b < i { b } else { b + 1 };
                            assert(es[a] == es0[a0]);
                            assert(es[b] == es0[b0]);
                        }
                    }
                    self.queued_tagged_roots = v;
                    Some(tagged_root)
                } else {
                    None
                }
            },
        }
    }
}

proof fn lemma_lex_lt_transitive(a: Seq<u8>, b: Seq<u8>, c: Seq<u8>)
    requires
        lex_lt(a, b),
        lex_lt(b, c),
    ensures
        lex_lt(a, c),
    decreases a.len(),
{
    if a.len() > 0 && b.len() > 0 && c.len() > 0 && a[0] == b[0] && b[0] == c[0] {
        lemma_lex_lt_transitive(a.drop_first(), b.drop_first(), c.drop_first());
    }
}

proof fn lemma_lex_lt_irreflexive_asym(a: Seq<u8>, b: Seq<u8>)
    ensures
        !(lex_lt(a, b) && lex_lt(b, a)),
    decreases a.len(),
{
    if a.len() > 0 && b.len() > 0 && a[0] == b[0] {
        lemma_lex_lt_irreflexive_asym(a.drop_first(), b.drop_first());
    }
}

proof fn lemma_entry_lt_irreflexive(x: (u64, TaggedRoot))
    ensures
        !entry_lt(x, x),
{
    lemma_lex_lt_irreflexive_asym(x.1.commit_store@, x.1.commit_store@);
    lemma_lex_lt_irreflexive_asym(x.1.root@, x.1.root@);
}

/// The order of entries is transitive: `x` before `c` and `c` before `b`
/// put `x` before `b`.
proof fn lemma_entry_lt_transitive_asym(x: (u64, TaggedRoot), b: (u64, TaggedRoot), c: (u64, TaggedRoot))
    requires
        !entry_lt(x, b),
        entry_lt(c, b),
    ensures
        !entry_lt(x, c),
{
    if entry_lt(x, c) {
        if x.0 == c.0 && c.0 == b.0 {
            let (xr, br, cr) = (x.1, b.1, c.1);
            if lex_lt(xr.commit_store@, cr.commit_store@) && lex_lt(cr.commit_store@, br.commit_store@) {
                lemma_lex_lt_transitive(xr.commit_store@, cr.commit_store@, br.commit_store@);
            } else if lex_lt(xr.commit_store@, cr.commit_store@) {
                assert(cr.commit_store@ == br.commit_store@);
            } else if lex_lt(cr.commit_store@, br.commit_store@) {
                assert(xr.commit_store@ == cr.commit_store@);
            } else {
                lemma_lex_lt_transitive(xr.root@, cr.root@, br.root@);
            }
        }
    }
}

/// The verified tagged roots of the lanes that no anomaly curses, lane by lane
/// in the given order.
pub open spec fn roots_to_bless_spec(
    statuses: Seq<(LaneIdV, Option<Seq<TaggedRoot>>)>,
    cursed: Map<CursableAnomalyV, Seq<u8>>,
) -> Seq<TaggedRoot>
    decreases statuses.len(),
{
    if statuses.len() == 0 {
        seq![]
    } else {
        let prev = roots_to_bless_spec(statuses.drop_last(), cursed);
        let (lane, status) = statuses.last();
        let lane_cursed = exists|a: CursableAnomalyV| #[trigger] cursed.contains_key(a) && lane_is_cursed_spec(a, lane);
        match status {
            Some(roots) => if lane_cursed {
                prev
            } else {
                prev + roots
            },
            None => prev,
        }
    }
}

/// The models of the lanes and their bless statuses.
pub open spec fn statuses_view(s: Seq<(LaneId, Option<LaneBlessStatus>)>) -> Seq<(LaneIdV, Option<Seq<TaggedRoot>>)> {
    Seq::new(
        s.len(),
        |i: int|
            (
                s[i].0@,
                match s[i].1 {
                    Some(st) => Some(st.verified_tagged_roots@),
                    None => None,
                },
            ),
    )
}

/// The tagged roots to vote to bless: the verified roots of every lane that
/// no anomaly curses.
pub fn get_roots_to_bless(
    lane_bless_statuses: &Vec<(LaneId, Option<LaneBlessStatus>)>,
    curse_beacon: &CurseBeacon,
) -> (r: Vec<TaggedRoot>)
    requires
        curse_beacon.cursable_anomalies.wf(),
    ensures
        r@ == roots_to_bless_spec(statuses_view(lane_bless_statuses@), curse_beacon.cursable_anomalies@),
{
    let ghost sv = statuses_view(lane_bless_statuses@);
    let ghost cursed = curse_beacon.cursable_anomalies@;
    let mut r: Vec<TaggedRoot> = Vec::new();
    let mut i: usize = 0;
    while i < lane_bless_statuses.len()
        invariant
            i <= lane_bless_statuses@.len(),
            sv == statuses_view(lane_bless_statuses@),
            cursed == curse_beacon.cursable_anomalies@,
            curse_beacon.cursable_anomalies.wf(),
            r@ == roots_to_bless_spec(sv.subrange(0, i as int), cursed),
        decreases lane_bless_statuses@.len() - i,
    {
        proof {
            assert(sv.subrange(0, i + 1).drop_last() =~= sv.subrange(0, i as int));
        }
        let (lane_id, status) = (&lane_bless_statuses[i].0, &lane_bless_statuses[i].1);
        match status {
            Some(st) => {
                if !curse_beacon.lane_is_cursed(lane_id) {
                    let ghost r0 = r@;
                    let mut k: usize = 0;
                    while k < st.verified_tagged_roots.len()
                        invariant
                            k <= st.verified_tagged_roots@.len(),
                            r@ == r0 + st.verified_tagged_roots@.subrange(0, k as int),
                        decreases st.verified_tagged_roots@.len() - k,
                    {
                        r.push(st.verified_tagged_roots[k]);
                        k = k + 1;
                        assert(r@ =~= r0 + st.verified_tagged_roots@.subrange(0, k as int));
                    }
                    assert(st.verified_tagged_roots@.subrange(0, k as int) =~= st.verified_tagged_roots@);
                }
            },
            None => {},
        }
        i = i + 1;
    }
    assert(sv.subrange(0, sv.len() as int) =~= sv);
    r
}

/// Whether an entry of the cache is for `root`.
pub open spec fn is_inflight(es: Seq<(TaggedRoot, u64)>, root: TaggedRoot) -> bool {
    exists|i: int| 0 <= i < es.len() && same_tagged_root(#[trigger] es[i].0, root)
}

/// Dropping the entries no longer in flight twice at one time drops no more
/// than once.
proof fn lemma_inflight_entries_idempotent(es: Seq<(TaggedRoot, u64)>, now: u64, t: u64)
    ensures
        inflight_entries(inflight_entries(es, now, t), now, t) == inflight_entries(es, now, t),
    decreases es.len(),
{
    if es.len() > 0 {
        lemma_inflight_entries_idempotent(es.drop_last(), now, t);
        let p = inflight_entries(es.drop_last(), now, t);
        if still_inflight(now, es.last().1, t) {
            assert(p.push(es.last()).drop_last() =~= p);
        }
    }
}

/// The queue after queuing `root` to be sent at `send_time`, unless it is
/// queued.
pub open spec fn queue_push_spec(q: Seq<(u64, TaggedRoot)>, send_time: u64, root: TaggedRoot) -> Seq<
    (u64, TaggedRoot),
> {
    if exists|i: int| 0 <= i < q.len() && same_tagged_root(#[trigger] q[i].1, root) {
        q
    } else {
        q.push((send_time, root))
    }
}

/// The queue after queuing, one after the other, the roots of `votable` that
/// are not in flight.
pub open spec fn enqueue_spec(
    q: Seq<(u64, TaggedRoot)>,
    inflight: Seq<(TaggedRoot, u64)>,
    votable: Seq<TaggedRoot>,
    send_time: u64,
) -> Seq<(u64, TaggedRoot)>
    decreases votable.len(),
{
    if votable.len() == 0 {
        q
    } else {
        let q1 = enqueue_spec(q, inflight, votable.drop_last(), send_time);
        if is_inflight(inflight, votable.last()) {
            q1
        } else {
            queue_push_spec(q1, send_time, votable.last())
        }
    }
}

/// Queues, to be sent at `send_time`, the roots of `votable` that are not in
/// flight at `now`.
pub fn enqueue_votable(
    queue: &mut VoteQueue,
    inflight: &mut InflightRootCacheWithCustomTime,
    now: u64,
    votable: &Vec<TaggedRoot>,
    send_time: u64,
)
    ensures
        final(queue).entries() == enqueue_spec(
            old(queue).entries(),
            inflight_entries(old(inflight).entries(), now, old(inflight).spec_inflight_time()),
            votable@,
            send_time,
        ),
        final(inflight).spec_inflight_time() == old(inflight).spec_inflight_time(),
        votable@.len() == 0 ==> final(inflight).entries() == old(inflight).entries(),
        votable@.len() > 0 ==> final(inflight).entries() == inflight_entries(
            old(inflight).entries(),
            now,
            old(inflight).spec_inflight_time(),
        ),
        unique_roots(final(queue).entries()),
{
    let ghost t = inflight.spec_inflight_time();
    let ghost e0 = inflight.entries();
    let ghost pruned = inflight_entries(e0, now, t);
    let ghost q0 = queue.entries();
    proof {
        use_type_invariant(&*queue);
        lemma_inflight_entries_idempotent(e0, now, t);
    }
    let mut i: usize = 0;
    while i < votable.len()
        invariant
            i <= votable@.len(),
            t == inflight.spec_inflight_time(),
            pruned == inflight_entries(e0, now, t),
            inflight_entries(pruned, now, t) == pruned,
            i == 0 ==> inflight.entries() == e0,
            i > 0 ==> inflight.entries() == pruned,
            queue.entries() == enqueue_spec(q0, pruned, votable@.subrange(0, i as int), send_time),
            q0 == old(queue).entries(),
            unique_roots(queue.entries()),
        decreases votable@.len() - i,
    {
        let root = votable[i];
        proof {
            assert(votable@.subrange(0, i + 1).drop_last() =~= votable@.subrange(0, i as int));
        }
        let in_flight = inflight.contains(now, root);
        if !in_flight {
            queue.push(send_time, root);
        }
        i = i + 1;
    }
    assert(votable@.subrange(0, votable@.len() as int) =~= votable@);
}

/// A commit store that no lane of the chain has.
#[derive(Debug, Clone, Copy, PartialEq, Eq)]
pub struct UnknownCommitStore {
    pub commit_store: Address,
}

/// The lane of the first entry for `commit_store`.
pub open spec fn lane_for(v: Seq<(Address, LaneId)>, commit_store: Seq<u8>) -> Option<LaneIdV>
    decreases v.len(),
{
    if v.len() == 0 {
        None
    } else if v[0].0@ == commit_store {
        Some(v[0].1@)
    } else {
        lane_for(v.drop_first(), commit_store)
    }
}

fn find_lane<'a>(v: &'a Vec<(Address, LaneId)>, commit_store: &Address) -> (r: Option<&'a LaneId>)
    ensures
        match lane_for(v@, commit_store@) {
            None => r is None,
            Some(l) => r matches Some(x) && x@ == l,
        },
{
    let mut i: usize = 0;
    assert(v@.skip(0) =~= v@);
    while i < v.len()
        invariant
            i <= v@.len(),
            lane_for(v@, commit_store@) == lane_for(v@.skip(i as int), commit_store@),
        decreases v@.len() - i,
    {
        let ghost rest = v@.skip(i as int);
        if v[i].0 == *commit_store {
            assert(rest[0] == v@[i as int]);
            return Some(&v[i].1);
        }
        assert(rest.drop_first() =~= v@.skip(i + 1));
        i = i + 1;
    }
    assert(v@.skip(i as int) =~= Seq::<(Address, LaneId)>::empty());
    None
}

fn contains_root(v: &Vec<TaggedRoot>, root: &TaggedRoot) -> (r: bool)
    ensures
        r == exists|i: int| 0 <= i < v@.len() && same_tagged_root(#[trigger] v@[i], *root),
{
    let mut i: usize = 0;
    while i < v.len()
        invariant
            i <= v@.len(),
            forall|k: int| 0 <= k < i ==> !same_tagged_root(#[trigger] v@[k], *root),
        decreases v@.len() - i,
    {
        if v[i].commit_store == root.commit_store && v[i].root == root.root {
            assert(same_tagged_root(v@[i as int], *root));
            return true;
        }
        i = i + 1;
    }
    false
}

/// Whether a root taken out of the queue goes into the batch: it is still to
/// vote for, not in flight, and its lane is known and not cursed.
pub open spec fn goes_into_batch(
    root: TaggedRoot,
    votable: Seq<TaggedRoot>,
    inflight: Seq<(TaggedRoot, u64)>,
    lanes: Seq<(Address, LaneId)>,
    anomalies: Map<CursableAnomalyV, Seq<u8>>,
) -> bool {
    &&& exists|i: int| 0 <= i < votable.len() && same_tagged_root(#[trigger] votable[i], root)
    &&& !is_inflight(inflight, root)
    &&& lane_for(lanes, root.commit_store@) matches Some(lane) && !exists|a: CursableAnomalyV|
        #[trigger] anomalies.contains_key(a) && lane_is_cursed_spec(a, lane)
}

/// The roots of the entries `taken` that go into the batch, in order.
pub open spec fn batch_of(
    taken: Seq<(u64, TaggedRoot)>,
    votable: Seq<TaggedRoot>,
    inflight: Seq<(TaggedRoot, u64)>,
    lanes: Seq<(Address, LaneId)>,
    anomalies: Map<CursableAnomalyV, Seq<u8>>,
) -> Seq<TaggedRoot>
    decreases taken.len(),
{
    if taken.len() == 0 {
        seq![]
    } else {
        let b = batch_of(taken.drop_last(), votable, inflight, lanes, anomalies);
        if goes_into_batch(taken.last().1, votable, inflight, lanes, anomalies) {
            b.push(taken.last().1)
        } else {
            b
        }
    }
}

/// Whether taking the entries `taken` out of `q0`, one at a time and each the
/// first of what was left, with its send time come at `now`, leaves `rest`.
pub open spec fn popped_in_order(
    q0: Seq<(u64, TaggedRoot)>,
    rest: Seq<(u64, TaggedRoot)>,
    taken: Seq<(u64, TaggedRoot)>,
    now: u64,
) -> bool {
    &&& taken.to_multiset().add(rest.to_multiset()) == q0.to_multiset()
    &&& forall|k: int| 0 <= k < taken.len() ==> (#[trigger] taken[k]).0 <= now
    &&& forall|a: int, b: int| 0 <= a < b < taken.len() ==> !entry_lt(#[trigger] taken[b], #[trigger] taken[a])
    &&& forall|k: int, j: int|
        0 <= k < taken.len() && 0 <= j < rest.len() ==> !entry_lt(#[trigger] rest[j], #[trigger] taken[k])
}

/// Takes out of the queue, first to last, the roots whose send time has come
/// at `now`, and keeps those that go into the batch, until the batch holds
/// `max` roots or no root is due any more. A due root of a commit store that
/// no lane has is an error, and ends the taking there.
pub fn take_batch(
    queue: &mut VoteQueue,
    inflight: &mut InflightRootCacheWithCustomTime,
    now: u64,
    votable: &Vec<TaggedRoot>,
    lane_by_commit_store: &Vec<(Address, LaneId)>,
    curse_beacon: &CurseBeacon,
    max: usize,
) -> (r: Result<Vec<TaggedRoot>, UnknownCommitStore>)
    requires
        curse_beacon.cursable_anomalies.wf(),
    ensures
        final(inflight).spec_inflight_time() == old(inflight).spec_inflight_time(),
        final(inflight).entries() == old(inflight).entries() || final(inflight).entries() == inflight_entries(
            old(inflight).entries(),
            now,
            old(inflight).spec_inflight_time(),
        ),
        unique_roots(final(queue).entries()),
        match r {
            Ok(batch) => exists|taken: Seq<(u64, TaggedRoot)>|
                {
                    &&& popped_in_order(old(queue).entries(), final(queue).entries(), taken, now)
                    &&& forall|k: int|
                        0 <= k < taken.len() ==> lane_for(
                            lane_by_commit_store@,
                            (#[trigger] taken[k]).1.commit_store@,
                        ) is Some
                    &&& batch@ == batch_of(
                        taken,
                        votable@,
                        inflight_entries(old(inflight).entries(), now, old(inflight).spec_inflight_time()),
                        lane_by_commit_store@,
                        curse_beacon.cursable_anomalies@,
                    )
                    &&& batch@.len() <= max
                    &&& batch@.len() < max ==> forall|k: int|
                        0 <= k < final(queue).entries().len() ==> (#[trigger] final(queue).entries()[k]).0
                            > now
                    &&& batch@.len() == max && taken.len() > 0 ==> goes_into_batch(
                        taken.last().1,
                        votable@,
                        inflight_entries(old(inflight).entries(), now, old(inflight).spec_inflight_time()),
                        lane_by_commit_store@,
                        curse_beacon.cursable_anomalies@,
                    )
                },
            Err(e) => exists|taken: Seq<(u64, TaggedRoot)>|
                {
                    &&& popped_in_order(old(queue).entries(), final(queue).entries(), taken, now)
                    &&& taken.len() > 0
                    &&& forall|k: int|
                        0 <= k < taken.len() - 1 ==> lane_for(
                            lane_by_commit_store@,
                            (#[trigger] taken[k]).1.commit_store@,
                        ) is Some
                    &&& lane_for(lane_by_commit_store@, taken.last().1.commit_store@) is None
                    &&& e.commit_store == taken.last().1.commit_store
                    &&& batch_of(
                        taken.drop_last(),
                        votable@,
                        inflight_entries(old(inflight).entries(), now, old(inflight).spec_inflight_time()),
                        lane_by_commit_store@,
                        curse_beacon.cursable_anomalies@,
                    ).len() < max
                },
        },
{
    broadcast use vstd::seq_lib::group_to_multiset_ensures, vstd::multiset::group_multiset_axioms;

    let ghost t = inflight.spec_inflight_time();
    let ghost e0 = inflight.entries();
    let ghost pruned = inflight_entries(e0, now, t);
    let ghost q0 = queue.entries();
    let ghost anomalies = curse_beacon.cursable_anomalies@;
    let ghost mut taken: Seq<(u64, TaggedRoot)> = seq![];
    proof {
        use_type_invariant(&*queue);
        lemma_inflight_entries_idempotent(e0, now, t);
        assert(taken.to_multiset() =~= vstd::multiset::Multiset::empty());
        assert(taken.to_multiset().add(q0.to_multiset()) =~= q0.to_multiset());
    }
    let mut batch: Vec<TaggedRoot> = Vec::new();
    loop
        invariant
            batch@.len() <= max,
            e0 == old(inflight).entries(),
            t == old(inflight).spec_inflight_time(),
            q0 == old(queue).entries(),
            anomalies == curse_beacon.cursable_anomalies@,
            t == inflight.spec_inflight_time(),
            pruned == inflight_entries(e0, now, t),
            inflight_entries(pruned, now, t) == pruned,
            inflight.entries() == e0 || inflight.entries() == pruned,
            curse_beacon.cursable_anomalies.wf(),
            unique_roots(queue.entries()),
            popped_in_order(q0, queue.entries(), taken, now),
            forall|k: int|
                0 <= k < taken.len() ==> lane_for(lane_by_commit_store@, (#[trigger] taken[k]).1.commit_store@)
                    is Some,
            batch@ == batch_of(taken, votable@, pruned, lane_by_commit_store@, anomalies),
            batch@.len() == max && taken.len() > 0 ==> goes_into_batch(
                taken.last().1,
                votable@,
                pruned,
                lane_by_commit_store@,
                anomalies,
            ),
        ensures
            batch@.len() <= max,
            inflight.entries() == e0 || inflight.entries() == pruned,
            unique_roots(queue.entries()),
            popped_in_order(q0, queue.entries(), taken, now),
            forall|k: int|
                0 <= k < taken.len() ==> lane_for(lane_by_commit_store@, (#[trigger] taken[k]).1.commit_store@)
                    is Some,
            batch@ == batch_of(taken, votable@, pruned, lane_by_commit_store@, anomalies),
            batch@.len() < max ==> forall|k: int| 0 <= k < queue.entries().len() ==> (#[trigger] queue.entries()[k]).0 > now,
            batch@.len() == max && taken.len() > 0 ==> goes_into_batch(
                taken.last().1,
                votable@,
                pruned,
                lane_by_commit_store@,
                anomalies,
            ),
        decreases queue.entries().len() + (max - batch@.len()),
    {
        if batch.len() >= max {
            break;
        }
        let ghost qb = queue.entries();
        match queue.pop(now) {
            None => {
                proof {
                    assert forall|k: int| 0 <= k < queue.entries().len() implies (#[trigger] queue.entries()[k]).0 > now by {
                        let i = choose|i: int| is_first(qb, i) && qb[i].0 > now;
                        assert(!entry_lt(qb[k], qb[i]));
                    }
                }
                break;
            },
            Some(root) => {
                let ghost i = choose|i: int|
                    is_first(qb, i) && qb[i].0 <= now && qb[i].1 == root && queue.entries() == qb.remove(i);
                let ghost entry = qb[i];
                let ghost old_taken = taken;
                proof {
                    taken = taken.push(entry);
                    let qa = queue.entries();
                    assert(qa == qb.remove(i));
                    assert(qb[i] == entry);
                    assert(qb.contains(entry));
                    qb.to_multiset_ensures();
                    assert(qb.to_multiset().count(entry) > 0);
                    vstd::seq_lib::to_multiset_remove(qb, i);
                    vstd::seq_lib::to_multiset_build(old_taken, entry);
                    assert(qa.to_multiset() == qb.to_multiset().remove(entry));
                    assert(taken.to_multiset() == old_taken.to_multiset().insert(entry));
                    assert(taken.to_multiset().add(qa.to_multiset()) =~= old_taken.to_multiset().add(
                        qb.to_multiset(),
                    ));
                    assert forall|k: int| 0 <= k < taken.len() implies (#[trigger] taken[k]).0 <= now by {
                        if k < old_taken.len() {
                            assert(taken[k] == old_taken[k]);
                        }
                    }
                    assert forall|a: int, b: int| 0 <= a < b < taken.len() implies !entry_lt(
                        #[trigger] taken[b],
                        #[trigger] taken[a],
                    ) by {
                        assert(taken[a] == old_taken[a]);
                        if b < old_taken.len() {
                            assert(taken[b] == old_taken[b]);
                        } else {
                            assert(taken[b] == qb[i]);
                            assert(0 <= i < qb.len());
                            assert(!entry_lt(qb[i], old_taken[a]));
                        }
                    }
                    assert forall|k: int, j: int|
                        0 <= k < taken.len() && 0 <= j < qa.len() implies !entry_lt(
                        #[trigger] qa[j],
                        #[trigger] taken[k],
                    ) by {
                        let j0 = if j < i { j } else { j + 1 };
                        assert(qa[j] == qb[j0]);
                        if k < old_taken.len() {
                            assert(taken[k] == old_taken[k]);
                            assert(!entry_lt(qb[j0], old_taken[k]));
                        } else {
                            assert(taken[k] == qb[i]);
                            assert(!entry_lt(qb[j0], qb[i]));
                        }
                    }
                    assert(taken.drop_last() =~= old_taken);
                    assert(taken.last() == entry);
                }
                let lane = match find_lane(lane_by_commit_store, &root.commit_store) {
                    None => {
                        proof {
                            assert(taken.drop_last() == old_taken);
                            assert forall|k: int| 0 <= k < taken.len() - 1 implies lane_for(
                                lane_by_commit_store@,
                                (#[trigger] taken[k]).1.commit_store@,
                            ) is Some by {
                                assert(taken[k] == old_taken[k]);
                            }
                            assert(taken.last().1 == root);
                            assert(batch_of(taken.drop_last(), votable@, pruned, lane_by_commit_store@, anomalies).len()
                                < max);
                            assert(popped_in_order(q0, queue.entries(), taken, now));
                            assert(lane_for(lane_by_commit_store@, taken.last().1.commit_store@) is None);
                        }
                        return Err(UnknownCommitStore { commit_store: root.commit_store });
                    },
                    Some(lane) => lane,
                };
                if contains_root(votable, &root) && !inflight.contains(now, root)
                    && !curse_beacon.lane_is_cursed(lane) {
                    batch.push(root);
                    proof {
                        assert(goes_into_batch(root, votable@, pruned, lane_by_commit_store@, anomalies));
                    }
                } else {
                    proof {
                        assert(!goes_into_batch(root, votable@, pruned, lane_by_commit_store@, anomalies));
                    }
                }
                proof {
                    assert forall|k: int| 0 <= k < taken.len() implies lane_for(
                        lane_by_commit_store@,
                        (#[trigger] taken[k]).1.commit_store@,
                    ) is Some by {
                        if k < old_taken.len() {
                            assert(taken[k] == old_taken[k]);
                        }
                    }
                }
            },
        }
    }
    Ok(batch)
}

} // verus!
