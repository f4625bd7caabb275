use vstd::prelude::*;
use crate::afn_contract::TaggedRoot;
use crate::chain_status::unix_time_now_secs;

verus! {

/// Whether two tagged roots name the same commit store and root.
pub open spec fn same_tagged_root(a: TaggedRoot, b: TaggedRoot) -> bool {
    a.commit_store@ == b.commit_store@ && a.root@ == b.root@
}

/// Whether an entry made at `entry_time` is still in flight at `now`: at most
/// `inflight_time` seconds old (an entry from the future counts as new).
pub open spec fn still_inflight(now: u64, entry_time: u64, inflight_time: u64) -> bool {
    if now >= entry_time {
        now - entry_time <= inflight_time
    } else {
        true
    }
}

/// The entries of `es` that are not for `root`, in order.
pub open spec fn without_root(es: Seq<(TaggedRoot, u64)>, root: TaggedRoot) -> Seq<(TaggedRoot, u64)>
    decreases es.len(),
{
    if es.len() == 0 {
        seq![]
    } else if same_tagged_root(es.last().0, root) {
        without_root(es.drop_last(), root)
    } else {
        without_root(es.drop_last(), root).push(es.last())
    }
}

/// The entries of `es` still in flight at `now`, in order.
pub open spec fn inflight_entries(es: Seq<(TaggedRoot, u64)>, now: u64, inflight_time: u64) -> Seq<
    (TaggedRoot, u64),
>
    decreases es.len(),
{
    if es.len() == 0 {
        seq![]
    } else if still_inflight(now, es.last().1, inflight_time) {
        inflight_entries(es.drop_last(), now, inflight_time).push(es.last())
    } else {
        inflight_entries(es.drop_last(), now, inflight_time)
    }
}

/// Whether no two entries are for the same tagged root.
pub open spec fn unique_entries(es: Seq<(TaggedRoot, u64)>) -> bool {
    forall|i: int, j: int|
        0 <= i < j < es.len() ==> !same_tagged_root(#[trigger] es[i].0, #[trigger] es[j].0)
}

/// The entries that `without_root` keeps are entries of `es`, in order, and
/// none is for `root`; without repeats in `es`, there are none in them.
proof fn lemma_without_root(es: Seq<(TaggedRoot, u64)>, root: TaggedRoot)
    ensures
        forall|k: int|
            #![trigger without_root(es, root)[k]]
            0 <= k < without_root(es, root).len() ==> !same_tagged_root(
                without_root(es, root)[k].0,
                root,
            ) && es.contains(without_root(es, root)[k]),
        unique_entries(es) ==> unique_entries(without_root(es, root)),
    decreases es.len(),
{
    if es.len() > 0 {
        let p = es.drop_last();
        lemma_without_root(p, root);
        let w = without_root(p, root);
        assert forall|k: int| 0 <= k < w.len() implies es.contains(#[trigger] w[k]) by {
            let j = choose|j: int| 0 <= j < p.len() && p[j] == w[k];
            assert(es[j] == p[j]);
        }
        if !same_tagged_root(es.last().0, root) {
            let w2 = w.push(es.last());
            assert(es[es.len() - 1] == es.last());
            assert forall|k: int| 0 <= k < w2.len() implies es.contains(#[trigger] w2[k]) by {
                if k < w.len() {
                    assert(w2[k] == w[k]);
                }
            }
            if unique_entries(es) {
                assert(unique_entries(p)) by {
                    assert forall|i: int, j: int| 0 <= i < j < p.len() implies !same_tagged_root(
                        #[trigger] p[i].0,
                        #[trigger] p[j].0,
                    ) by {
                        assert(p[i] == es[i] && p[j] == es[j]);
                    }
                }
                assert forall|i: int, j: int| 0 <= i < j < w2.len() implies !same_tagged_root(
                    #[trigger] w2[i].0,
                    #[trigger] w2[j].0,
                ) by {
                    assert(w2[i] == w[i]);
                    if j < w.len() {
                        assert(w2[j] == w[j]);
                    } else {
                        let a = choose|a: int| 0 <= a < p.len() && p[a] == w[i];
                        assert(es[a] == p[a]);
                        assert(!same_tagged_root(es[a].0, es[es.len() - 1].0));
                    }
                }
            }
        } else if unique_entries(es) {
            assert forall|i: int, j: int| 0 <= i < j < p.len() implies !same_tagged_root(
                #[trigger] p[i].0,
                #[trigger] p[j].0,
            ) by {
                assert(p[i] == es[i] && p[j] == es[j]);
            }
        }
    }
}

/// The entries that `inflight_entries` keeps are entries of `es`, in order;
/// without repeats in `es`, there are none in them.
proof fn lemma_inflight_entries_unique(es: Seq<(TaggedRoot, u64)>, now: u64, t: u64)
    ensures
        forall|k: int|
            0 <= k < inflight_entries(es, now, t).len() ==> es.contains(
                #[trigger] inflight_entries(es, now, t)[k],
            ),
        unique_entries(es) ==> unique_entries(inflight_entries(es, now, t)),
    decreases es.len(),
{
    if es.len() > 0 {
        let p = es.drop_last();
        lemma_inflight_entries_unique(p, now, t);
        let w = inflight_entries(p, now, t);
        assert forall|k: int| 0 <= k < w.len() implies es.contains(#[trigger] w[k]) by {
            let j = choose|j: int| 0 <= j < p.len() && p[j] == w[k];
            assert(es[j] == p[j]);
        }
        if unique_entries(es) {
            assert(unique_entries(p)) by {
                assert forall|i: int, j: int| 0 <= i < j < p.len() implies !same_tagged_root(
                    #[trigger] p[i].0,
                    #[trigger] p[j].0,
                ) by {
                    assert(p[i] == es[i] && p[j] == es[j]);
                }
            }
        }
        if still_inflight(now, es.last().1, t) {
            let w2 = w.push(es.last());
            assert(es[es.len() - 1] == es.last());
            assert forall|k: int| 0 <= k < w2.len() implies es.contains(#[trigger] w2[k]) by {
                if k < w.len() {
                    assert(w2[k] == w[k]);
                }
            }
            if unique_entries(es) {
                assert forall|i: int, j: int| 0 <= i < j < w2.len() implies !same_tagged_root(
                    #[trigger] w2[i].0,
                    #[trigger] w2[j].0,
                ) by {
                    assert(w2[i] == w[i]);
                    if j < w.len() {
                        assert(w2[j] == w[j]);
                    } else {
                        let a = choose|a: int| 0 <= a < p.len() && p[a] == w[i];
                        assert(es[a] == p[a]);
                        assert(!same_tagged_root(es[a].0, es[es.len() - 1].0));
                    }
                }
            }
        }
    }
}

/// The tagged roots voted for recently, with the time of the vote, at times
/// that the caller gives.
#[derive(Debug, Clone)]
pub struct InflightRootCacheWithCustomTime {
    inflight_time: u64,
    inflight_roots: Vec<(TaggedRoot, u64)>,
}

impl InflightRootCacheWithCustomTime {
    /// The entries, oldest first.
    pub closed spec fn entries(&self) -> Seq<(TaggedRoot, u64)> {
        self.inflight_roots@
    }

    /// How many seconds an entry stays in flight.
    pub closed spec fn spec_inflight_time(&self) -> u64 {
        self.inflight_time
    }

    /// An empty cache whose entries stay `inflight_time` seconds.
    pub fn new(inflight_time: u64) -> (r: Self)
        ensures
            r.entries() == Seq::<(TaggedRoot, u64)>::empty(),
            r.spec_inflight_time() == inflight_time,
            unique_entries(r.entries()),
    {
        InflightRootCacheWithCustomTime { inflight_time, inflight_roots: Vec::new() }
    }

    /// Notes that `root` was voted for at `now`, in place of an earlier entry
    /// for it.
    pub fn add(&mut self, now: u64, root: TaggedRoot)
        ensures
            final(self).entries() == without_root(old(self).entries(), root).push((root, now)),
            final(self).spec_inflight_time() == old(self).spec_inflight_time(),
            unique_entries(old(self).entries()) ==> unique_entries(final(self).entries()),
    {
        let ghost es = self.inflight_roots@;
        let mut kept: Vec<(TaggedRoot, u64)> = Vec::new();
        let mut i: usize = 0;
        while i < self.inflight_roots.len()
            invariant
                i <= es.len(),
                self.inflight_roots@ == es,
                kept@ == without_root(es.subrange(0, i as int), root),
            decreases es.len() - i,
        {
            proof {
                assert(es.subrange(0, i + 1).drop_last() =~= es.subrange(0, i as int));
            }
            let e = self.inflight_roots[i];
            if !(e.0.commit_store == root.commit_store && e.0.root == root.root) {
                kept.push(e);
            }
            i = i + 1;
        }
        assert(es.subrange(0, es.len() as int) =~= es);
        kept.push((root, now));
        self.inflight_roots = kept;
        proof {
            lemma_without_root(es, root);
            let w = without_root(es, root);
            let f = self.entries();
            assert forall|i: int, j: int| 0 <= i < j < f.len() && unique_entries(es) implies !same_tagged_root(
                #[trigger] f[i].0,
                #[trigger] f[j].0,
            ) by {
                assert(f[i] == w[i]);
                if j < w.len() {
                    assert(f[j] == w[j]);
                }
            }
        }
    }

    /// Drops the entries no longer in flight at `now`, and says whether an
    /// entry for `tagged_root` is left.
    pub fn contains(&mut self, now: u64, tagged_root: TaggedRoot) -> (r: bool)
        ensures
            final(self).entries() == inflight_entries(
                old(self).entries(),
                now,
                old(self).spec_inflight_time(),
            ),
            final(self).spec_inflight_time() == old(self).spec_inflight_time(),
            r == exists|i: int|
                0 <= i < final(self).entries().len() && same_tagged_root(
                    #[trigger] final(self).entries()[i].0,
                    tagged_root,
                ),
            unique_entries(old(self).entries()) ==> unique_entries(final(self).entries()),
    {
        let ghost es = self.inflight_roots@;
        let t = self.inflight_time;
        let mut kept: Vec<(TaggedRoot, u64)> = Vec::new();
        let mut found = false;
        let mut i: usize = 0;
        while i < self.inflight_roots.len()
            invariant
                i <= es.len(),
                self.inflight_roots@ == es,
                t == self.inflight_time,
                kept@ == inflight_entries(es.subrange(0, i as int), now, t),
                found == exists|k: int|
                    0 <= k < kept@.len() && same_tagged_root(#[trigger] kept@[k].0, tagged_root),
            decreases es.len() - i,
        {
            proof {
                assert(es.subrange(0, i + 1).drop_last() =~= es.subrange(0, i as int));
            }
            let e = self.inflight_roots[i];
            let fresh = if now >= e.1 {
                now - e.1 <= t
            } else {
                true
            };
            if fresh {
                let ghost k0 = kept@;
                kept.push(e);
                if e.0.commit_store == tagged_root.commit_store && e.0.root == tagged_root.root {
                    found = true;
                }
                proof {
                    if found {
                        if same_tagged_root(e.0, tagged_root) {
                            assert(same_tagged_root(kept@[kept@.len() - 1].0, tagged_root));
                        } else {
                            let k = choose|k: int| 0 <= k < k0.len() && same_tagged_root(k0[k].0, tagged_root);
                            assert(kept@[k] == k0[k]);
                        }
                    } else {
                        assert forall|k: int| 0 <= k < kept@.len() implies !same_tagged_root(#[trigger] kept@[k].0, tagged_root) by {
                            if k < k0.len() {
                                assert(kept@[k] == k0[k]);
                            }
                        }
                    }
                }
            }
            i = i + 1;
        }
        assert(es.subrange(0, es.len() as int) =~= es);
        let ghost kv = kept@;
        self.inflight_roots = kept;
        proof {
            lemma_inflight_entries_unique(es, now, t);
            if found {
                let k = choose|k: int| 0 <= k < kv.len() && same_tagged_root(kv[k].0, tagged_root);
                assert(self.entries()[k] == kv[k]);
            }
        }
        found
    }
}

/// The tagged roots voted for recently, timed by the clock in seconds.
pub struct InflightRootCache(pub InflightRootCacheWithCustomTime);

impl InflightRootCache {
    /// An empty cache whose entries stay `inflight_time` seconds.
    pub fn new(inflight_time: u64) -> (r: Self)
        ensures
            r.0.entries() == Seq::<(TaggedRoot, u64)>::empty(),
            r.0.spec_inflight_time() == inflight_time,
            unique_entries(r.0.entries()),
    {
        InflightRootCache(InflightRootCacheWithCustomTime::new(inflight_time))
    }

    /// Notes that `root` was voted for now.
    pub fn add(&mut self, root: TaggedRoot)
        ensures
            exists|now: u64| final(self).0.entries() == without_root(old(self).0.entries(), root).push((root, now)),
            final(self).0.spec_inflight_time() == old(self).0.spec_inflight_time(),
            unique_entries(old(self).0.entries()) ==> unique_entries(final(self).0.entries()),
    {
        let now = unix_time_now_secs();
        self.0.add(now, root);
    }

    /// Whether an entry for `tagged_root` is still in flight now.
    pub fn contains(&mut self, tagged_root: TaggedRoot) -> (r: bool)
        ensures
            final(self).0.spec_inflight_time() == old(self).0.spec_inflight_time(),
            exists|now: u64|
                final(self).0.entries() == inflight_entries(old(self).0.entries(), now, old(self).0.spec_inflight_time()),
            unique_entries(old(self).0.entries()) ==> unique_entries(final(self).0.entries()),
            r == exists|i: int|
                0 <= i < final(self).0.entries().len() && same_tagged_root(
                    #[trigger] final(self).0.entries()[i].0,
                    tagged_root,
                ),
    {
        let now = unix_time_now_secs();
        let r = self.0.contains(now, tagged_root);
        assert(r == exists|i: int|
            0 <= i < self.0.entries().len() && same_tagged_root(#[trigger] self.0.entries()[i].0, tagged_root));
        r
    }
}

/// A call on a cache with the times given: `add` of a root at a time, or
/// `contains` at a time (which drops the entries no longer in flight).
pub enum CacheCall {
    Add(TaggedRoot, u64),
    Contains(u64),
}

/// The time that a call gives.
pub open spec fn call_time(c: CacheCall) -> u64 {
    match c {
        CacheCall::Add(_, t) => t,
        CacheCall::Contains(t) => t,
    }
}

/// The entries after the calls `calls`, one after another, on the entries
/// `es` of a cache whose entries stay `inflight_time` seconds.
pub open spec fn after_calls(es: Seq<(TaggedRoot, u64)>, calls: Seq<CacheCall>, inflight_time: u64) -> Seq<
    (TaggedRoot, u64),
>
    decreases calls.len(),
{
    if calls.len() == 0 {
        es
    } else {
        let e = after_calls(es, calls.drop_last(), inflight_time);
        match calls.last() {
            CacheCall::Add(r, now) => without_root(e, r).push((r, now)),
            CacheCall::Contains(now) => inflight_entries(e, now, inflight_time),
        }
    }
}

/// Whether some entry of `es` is for `root`.
pub open spec fn holds_root(es: Seq<(TaggedRoot, u64)>, root: TaggedRoot) -> bool {
    exists|i: int| 0 <= i < es.len() && same_tagged_root(#[trigger] es[i].0, root)
}

proof fn lemma_without_root_members(es: Seq<(TaggedRoot, u64)>, other: TaggedRoot)
    ensures
        forall|x: (TaggedRoot, u64)|
            #[trigger] without_root(es, other).contains(x) <==> es.contains(x) && !same_tagged_root(x.0, other),
    decreases es.len(),
{
    if es.len() > 0 {
        let p = es.drop_last();
        lemma_without_root_members(p, other);
        let w = without_root(p, other);
        assert forall|x: (TaggedRoot, u64)|
            #[trigger] without_root(es, other).contains(x) <==> es.contains(x) && !same_tagged_root(x.0, other) by {
            if es.contains(x) {
                let k = choose|k: int| 0 <= k < es.len() && es[k] == x;
                if k < p.len() {
                    assert(p[k] == x);
                    assert(p.contains(x));
                }
            }
            if p.contains(x) {
                let k = choose|k: int| 0 <= k < p.len() && p[k] == x;
                assert(es[k] == x);
            }
            if !same_tagged_root(es.last().0, other) {
                let w2 = w.push(es.last());
                if w2.contains(x) {
                    let k = choose|k: int| 0 <= k < w2.len() && w2[k] == x;
                    if k < w.len() {
                        assert(w[k] == x);
                        assert(w.contains(x));
                    } else {
                        assert(es[es.len() - 1] == x);
                    }
                }
                if w.contains(x) {
                    let k = choose|k: int| 0 <= k < w.len() && w[k] == x;
                    assert(w2[k] == x);
                }
                if x == es.last() {
                    assert(w2[w.len() as int] == x);
                }
            }
        }
    }
}

proof fn lemma_inflight_entries_members(es: Seq<(TaggedRoot, u64)>, now: u64, t: u64)
    ensures
        forall|x: (TaggedRoot, u64)|
            #[trigger] inflight_entries(es, now, t).contains(x) <==> es.contains(x) && still_inflight(now, x.1, t),
    decreases es.len(),
{
    if es.len() > 0 {
        let p = es.drop_last();
        lemma_inflight_entries_members(p, now, t);
        let w = inflight_entries(p, now, t);
        assert forall|x: (TaggedRoot, u64)|
            #[trigger] inflight_entries(es, now, t).contains(x) <==> es.contains(x) && still_inflight(now, x.1, t) by {
            if es.contains(x) {
                let k = choose|k: int| 0 <= k < es.len() && es[k] == x;
                if k < p.len() {
                    assert(p[k] == x);
                    assert(p.contains(x));
                }
            }
            if p.contains(x) {
                let k = choose|k: int| 0 <= k < p.len() && p[k] == x;
                assert(es[k] == x);
            }
            if still_inflight(now, es.last().1, t) {
                let w2 = w.push(es.last());
                if w2.contains(x) {
                    let k = choose|k: int| 0 <= k < w2.len() && w2[k] == x;
                    if k < w.len() {
                        assert(w[k] == x);
                        assert(w.contains(x));
                    } else {
                        assert(es[es.len() - 1] == x);
                    }
                }
                if w.contains(x) {
                    let k = choose|k: int| 0 <= k < w.len() && w[k] == x;
                    assert(w2[k] == x);
                }
                if x == es.last() {
                    assert(w2[w.len() as int] == x);
                }
            }
        }
    }
}

/// After `add` of `root` at `t0`, calls at times from `t0` to `now` that add
/// no entry for `root` leave it in flight at `now` exactly when it is at most
/// `inflight_time` seconds old: `contains` at `now` finds it exactly then.
pub proof fn law_inflight_window(
    es: Seq<(TaggedRoot, u64)>,
    root: TaggedRoot,
    t0: u64,
    calls: Seq<CacheCall>,
    now: u64,
    inflight_time: u64,
)
    requires
        t0 <= now,
        forall|i: int| 0 <= i < calls.len() ==> t0 <= call_time(#[trigger] calls[i]) <= now,
        forall|i: int|
            0 <= i < calls.len() ==> (#[trigger] calls[i] matches CacheCall::Add(r, _) ==> !same_tagged_root(
                r,
                root,
            )),
    ensures
        holds_root(
            inflight_entries(
                after_calls(without_root(es, root).push((root, t0)), calls, inflight_time),
                now,
                inflight_time,
            ),
            root,
        ) == (now - t0 <= inflight_time),
{
    let e0 = without_root(es, root).push((root, t0));
    lemma_window_step(es, root, t0, calls, now, inflight_time);
    let e = after_calls(e0, calls, inflight_time);
    let f = inflight_entries(e, now, inflight_time);
    lemma_inflight_entries_members(e, now, inflight_time);
    if holds_root(f, root) {
        let i = choose|i: int| 0 <= i < f.len() && same_tagged_root(#[trigger] f[i].0, root);
        assert(f.contains(f[i]));
        assert(e.contains(f[i]));
    }
    if now - t0 <= inflight_time {
        let i = choose|i: int| 0 <= i < e.len() && same_tagged_root(#[trigger] e[i].0, root);
        assert(e.contains(e[i]));
        assert(e[i].1 == t0);
        assert(f.contains(e[i]));
        let k = choose|k: int| 0 <= k < f.len() && f[k] == e[i];
        assert(same_tagged_root(f[k].0, root));
    }
}

/// What the window law rests on: after the calls, the entries for `root` all
/// carry `t0`, and one is left exactly when no `contains` so far dropped it.
proof fn lemma_window_step(
    es: Seq<(TaggedRoot, u64)>,
    root: TaggedRoot,
    t0: u64,
    calls: Seq<CacheCall>,
    now: u64,
    inflight_time: u64,
)
    requires
        t0 <= now,
        forall|i: int| 0 <= i < calls.len() ==> t0 <= call_time(#[trigger] calls[i]) <= now,
        forall|i: int|
            0 <= i < calls.len() ==> (#[trigger] calls[i] matches CacheCall::Add(r, _) ==> !same_tagged_root(
                r,
                root,
            )),
    ensures
        ({
            let e = after_calls(without_root(es, root).push((root, t0)), calls, inflight_time);
            &&& forall|x: (TaggedRoot, u64)| #[trigger] e.contains(x) && same_tagged_root(x.0, root) ==> x.1 == t0
            &&& (now - t0 <= inflight_time ==> holds_root(e, root))
        }),
    decreases calls.len(),
{
    let e0 = without_root(es, root).push((root, t0));
    if calls.len() == 0 {
        lemma_without_root_members(es, root);
        assert forall|x: (TaggedRoot, u64)| #[trigger] e0.contains(x) && same_tagged_root(x.0, root) implies x.1 == t0 by {
            let k = choose|k: int| 0 <= k < e0.len() && e0[k] == x;
            if k < e0.len() - 1 {
                assert(without_root(es, root)[k] == x);
                assert(without_root(es, root).contains(x));
            }
        }
        assert(same_tagged_root(e0[e0.len() - 1].0, root));
    } else {
        let pc = calls.drop_last();
        assert forall|i: int| 0 <= i < pc.len() implies t0 <= call_time(#[trigger] pc[i]) <= now by {
            assert(pc[i] == calls[i]);
        }
        assert forall|i: int| 0 <= i < pc.len() implies (#[trigger] pc[i] matches CacheCall::Add(r, _)
            ==> !same_tagged_root(r, root)) by {
            assert(pc[i] == calls[i]);
        }
        lemma_window_step(es, root, t0, pc, now, inflight_time);
        let ep = after_calls(e0, pc, inflight_time);
        let e = after_calls(e0, calls, inflight_time);
        let c = calls.last();
        assert(c == calls[calls.len() - 1]);
        match c {
            CacheCall::Add(r, tm) => {
                lemma_without_root_members(ep, r);
                let w = without_root(ep, r);
                assert(e == w.push((r, tm)));
                assert(!same_tagged_root(r, root));
                assert forall|x: (TaggedRoot, u64)| #[trigger] e.contains(x) && same_tagged_root(x.0, root) implies x.1
                    == t0 by {
                    let k = choose|k: int| 0 <= k < e.len() && e[k] == x;
                    if k < w.len() {
                        assert(w[k] == x);
                        assert(w.contains(x));
                    }
                }
                if now - t0 <= inflight_time {
                    let i = choose|i: int| 0 <= i < ep.len() && same_tagged_root(#[trigger] ep[i].0, root);
                    assert(ep.contains(ep[i]));
                    assert(w.contains(ep[i]));
                    let k = choose|k: int| 0 <= k < w.len() && w[k] == ep[i];
                    assert(e[k] == w[k]);
                    assert(same_tagged_root(e[k].0, root));
                }
            },
            CacheCall::Contains(tm) => {
                lemma_inflight_entries_members(ep, tm, inflight_time);
                assert(e == inflight_entries(ep, tm, inflight_time));
                assert forall|x: (TaggedRoot, u64)| #[trigger] e.contains(x) && same_tagged_root(x.0, root) implies x.1
                    == t0 by {
                    assert(ep.contains(x));
                }
                if now - t0 <= inflight_time {
                    let i = choose|i: int| 0 <= i < ep.len() && same_tagged_root(#[trigger] ep[i].0, root);
                    assert(ep.contains(ep[i]));
                    assert(ep[i].1 == t0);
                    assert(t0 <= tm <= now);
                    assert(still_inflight(tm, t0, inflight_time));
                    assert(e.contains(ep[i]));
                    let k = choose|k: int| 0 <= k < e.len() && e[k] == ep[i];
                    assert(same_tagged_root(e[k].0, root));
                }
            },
        }
    }
}

} // verus!
