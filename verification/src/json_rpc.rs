use vstd::prelude::*;
use vstd::relations::{sorted_by, total_ordering};

verus! {

broadcast use vstd::seq_lib::group_to_multiset_ensures;

/// One reply of a batch as the library reads it. `result` is `None` where the
/// server answered `null`.
#[derive(Debug)]
pub enum JsonRpcResponse<V, E> {
    Success { jsonrpc: String, id: u64, result: Option<V> },
    Failure { jsonrpc: String, id: u64, error: E },
}

impl<V, E> JsonRpcResponse<V, E> {
    /// The id that the reply answers.
    pub open spec fn id_of(&self) -> u64 {
        match self {
            JsonRpcResponse::Success { id, .. } => *id,
            JsonRpcResponse::Failure { id, .. } => *id,
        }
    }

    /// The version string of the reply.
    pub open spec fn version_of(&self) -> Seq<char> {
        match self {
            JsonRpcResponse::Success { jsonrpc, .. } => jsonrpc@,
            JsonRpcResponse::Failure { jsonrpc, .. } => jsonrpc@,
        }
    }

    pub fn id(&self) -> (r: u64)
        ensures
            r == self.id_of(),
    {
        match self {
            JsonRpcResponse::Success { id, .. } => *id,
            JsonRpcResponse::Failure { id, .. } => *id,
        }
    }

    /// The reply as the outcome of its call: the result (`None` for `null`)
    /// or the server's error object.
    pub fn into_call_response(self) -> (r: Result<Option<V>, E>)
        ensures
            r == (match self {
                JsonRpcResponse::Success { result, .. } => Ok::<Option<V>, E>(result),
                JsonRpcResponse::Failure { error, .. } => Err::<Option<V>, E>(error),
            }),
    {
        match self {
            JsonRpcResponse::Success { result, .. } => Ok(result),
            JsonRpcResponse::Failure { error, .. } => Err(error),
        }
    }

    pub fn jsonrpc(&self) -> (r: &str)
        ensures
            r@ == self.version_of(),
    {
        match self {
            JsonRpcResponse::Success { jsonrpc, .. } => jsonrpc.as_str(),
            JsonRpcResponse::Failure { jsonrpc, .. } => jsonrpc.as_str(),
        }
    }
}

/// Why a call over JSON-RPC failed. `E` is what a server's error object holds.
#[derive(Debug)]
pub enum JsonRpcError<E> {
    NetError(String),
    HttpStatus(u32, String),
    SerdeJsonError(String),
    ErrorResponse(E),
    UnexpectedId { expected: u64, actual: u64 },
    UnexpectedVersion(String),
    IncompleteBatch,
}

/// The version that every request carries and every reply must carry.
pub open spec fn jsonrpc_version() -> Seq<char> {
    seq!['2', '.', '0']
}

/// Whether a reply may stand for a fault of the server rather than an answer:
/// an error object, or `null`.
pub open spec fn is_potentially_faulty<V, E>(r: JsonRpcResponse<V, E>) -> bool {
    match r {
        JsonRpcResponse::Failure { .. } => true,
        JsonRpcResponse::Success { result, .. } => result is None,
    }
}

/// How many replies of `s` may stand for a fault.
pub open spec fn faulty_count<V, E>(s: Seq<JsonRpcResponse<V, E>>) -> nat
    decreases s.len(),
{
    if s.len() == 0 {
        0
    } else {
        faulty_count(s.drop_last()) + if is_potentially_faulty(s.last()) {
            1nat
        } else {
            0nat
        }
    }
}

proof fn lemma_faulty_count_bound<V, E>(s: Seq<JsonRpcResponse<V, E>>)
    ensures
        faulty_count(s) <= s.len(),
    decreases s.len(),
{
    if s.len() > 0 {
        lemma_faulty_count_bound(s.drop_last());
    }
}

pub fn potentially_faulty_response<V, E>(r: &JsonRpcResponse<V, E>) -> (b: bool)
    ensures
        b == is_potentially_faulty(*r),
{
    match r {
        JsonRpcResponse::Failure { .. } => true,
        JsonRpcResponse::Success { result, .. } => result.is_none(),
    }
}

pub fn count_potentially_faulty_responses<V, E>(r: &[JsonRpcResponse<V, E>]) -> (n: usize)
    ensures
        n == faulty_count(r@),
{
    let mut n: usize = 0;
    let mut i: usize = 0;
    while i < r.len()
        invariant
            i <= r@.len(),
            n == faulty_count(r@.take(i as int)),
            n <= i,
        decreases r@.len() - i,
    {
        proof {
            assert(r@.take(i + 1).drop_last() =~= r@.take(i as int));
            assert(r@.take(i + 1).last() == r@[i as int]);
        }
        if potentially_faulty_response(&r[i]) {
            n = n + 1;
        }
        i = i + 1;
    }
    assert(r@.take(i as int) =~= r@);
    n
}

/// Of two outcomes of the same batch, the one to keep: a decoded batch over a
/// failure, and of two decoded batches the one with fewer replies that may
/// stand for a fault (the older where they tie); of two failures, the newer.
pub open spec fn better_batch<V, E>(
    older: Result<Vec<JsonRpcResponse<V, E>>, JsonRpcError<E>>,
    newer: Result<Vec<JsonRpcResponse<V, E>>, JsonRpcError<E>>,
) -> Result<Vec<JsonRpcResponse<V, E>>, JsonRpcError<E>> {
    match (older, newer) {
        (Ok(o), Ok(n)) => if faulty_count(o@) <= faulty_count(n@) {
            Ok(o)
        } else {
            Ok(n)
        },
        (Err(_), Ok(n)) => Ok(n),
        (Ok(o), Err(_)) => Ok(o),
        (Err(_), Err(n)) => Err(n),
    }
}

pub fn better_jsonrpc_batch_result<V, E>(
    older: Result<Vec<JsonRpcResponse<V, E>>, JsonRpcError<E>>,
    newer: Result<Vec<JsonRpcResponse<V, E>>, JsonRpcError<E>>,
) -> (r: Result<Vec<JsonRpcResponse<V, E>>, JsonRpcError<E>>)
    ensures
        r == better_batch(older, newer),
{
    match (older, newer) {
        (Ok(older), Ok(newer)) => {
            if count_potentially_faulty_responses(older.as_slice())
                <= count_potentially_faulty_responses(newer.as_slice()) {
                Ok(older)
            } else {
                Ok(newer)
            }
        },
        (Err(_), Ok(newer)) => Ok(newer),
        (Ok(older), Err(_)) => Ok(older),
        (Err(_), Err(newer)) => Err(newer),
    }
}

/// The ids that the replies answer, in their order.
pub open spec fn ids_of<V, E>(s: Seq<JsonRpcResponse<V, E>>) -> Seq<u64> {
    s.map_values(|r: JsonRpcResponse<V, E>| r.id_of())
}

/// The ids `base`, `base + 1`, ..., of a batch of `n` calls.
pub open spec fn id_range(base: u64, n: nat) -> Seq<u64> {
    Seq::new(n, |i: int| (base + i) as u64)
}

/// Whether the replies answer each id of the batch once.
pub open spec fn batch_is_complete<V, E>(base: u64, n: nat, s: Seq<JsonRpcResponse<V, E>>) -> bool {
    ids_of(s).to_multiset() == id_range(base, n).to_multiset()
}

/// Whether a reply carries the expected version.
pub open spec fn version_ok<V, E>(r: JsonRpcResponse<V, E>) -> bool {
    r.version_of() == jsonrpc_version()
}

/// The order of ids.
pub open spec fn id_le(a: u64, b: u64) -> bool {
    a <= b
}

/// Whether the ids stand in ascending order.
pub open spec fn ids_ascending(s: Seq<u64>) -> bool {
    forall|i: int, j: int| 0 <= i < j < s.len() ==> #[trigger] s[i] <= #[trigger] s[j]
}

proof fn lemma_id_le_total()
    ensures
        total_ordering(|a: u64, b: u64| id_le(a, b)),
{
}

proof fn lemma_ascending_sorted_by(s: Seq<u64>)
    requires
        ids_ascending(s),
    ensures
        sorted_by(s, |a: u64, b: u64| id_le(a, b)),
{
    let f = |a: u64, b: u64| id_le(a, b);
    assert forall|i: int, j: int| 0 <= i < j < s.len() implies #[trigger] f(s[i], s[j]) by {
        assert(s[i] <= s[j]);
    }
}

fn sort_by_id<V, E>(responses: Vec<JsonRpcResponse<V, E>>) -> (r: Vec<JsonRpcResponse<V, E>>)
    ensures
        ids_ascending(ids_of(r@)),
        r@.to_multiset() == responses@.to_multiset(),
        ids_of(r@).to_multiset() == ids_of(responses@).to_multiset(),
        r@.len() == responses@.len(),
{
    let ghost orig = responses@;
    let n = responses.len();
    let mut rest = responses;
    let mut sorted: Vec<JsonRpcResponse<V, E>> = Vec::new();
    let mut k: usize = 0;
    while rest.len() > 0
        invariant
            orig.len() == n,
            k <= orig.len(),
            rest@ == orig.subrange(k as int, orig.len() as int),
            ids_ascending(ids_of(sorted@)),
            sorted@.to_multiset() == orig.subrange(0, k as int).to_multiset(),
            ids_of(sorted@).to_multiset() == ids_of(orig.subrange(0, k as int)).to_multiset(),
            sorted@.len() == k,
        decreases rest@.len(),
    {
        assert(rest@.len() == orig.len() - k);
        let item = rest.remove(0);
        assert(item == orig[k as int]);
        let item_id = item.id();
        let mut p: usize = 0;
        while p < sorted.len() && sorted[p].id() <= item_id
            invariant
                p <= sorted@.len(),
                item_id == item.id_of(),
                forall|j: int| 0 <= j < p ==> #[trigger] sorted@[j].id_of() <= item_id,
            decreases sorted@.len() - p,
        {
            p = p + 1;
        }
        let ghost before = sorted@;
        sorted.insert(p, item);
        proof {
            let bi = ids_of(before);
            let si = ids_of(sorted@);
            assert(sorted@ == before.insert(p as int, item));
            assert(si =~= bi.insert(p as int, item_id));
            assert forall|i: int, j: int| 0 <= i < j < si.len() implies #[trigger] si[i]
                <= #[trigger] si[j] by {
                if i < p && j < p {
                    assert(si[i] == bi[i] && si[j] == bi[j]);
                } else if i < p && j == p {
                    assert(si[i] == before[i].id_of());
                } else if i < p {
                    assert(si[i] == bi[i] && si[j] == bi[j - 1]);
                } else if i == p {
                    assert(si[j] == bi[j - 1]);
                    assert(bi[p as int] == before[p as int].id_of());
                    assert(!(before[p as int].id_of() <= item_id));
                    if p < j - 1 {
                        assert(bi[p as int] <= bi[j - 1]);
                    }
                } else {
                    assert(si[i] == bi[i - 1] && si[j] == bi[j - 1]);
                }
            }
            let pre = orig.subrange(0, k as int);
            assert(orig.subrange(0, k + 1) =~= pre.push(item));
            assert(ids_of(pre.push(item)) =~= ids_of(pre).push(item_id));
            vstd::seq_lib::to_multiset_insert(before, p as int, item);
            vstd::seq_lib::to_multiset_build(pre, item);
            vstd::seq_lib::to_multiset_insert(bi, p as int, item_id);
            vstd::seq_lib::to_multiset_build(ids_of(pre), item_id);
        }
        k = k + 1;
    }
    assert(orig.subrange(0, k as int) =~= orig);
    sorted
}

proof fn lemma_range_sorted(base: u64, n: nat)
    requires
        base + n <= u64::MAX + 1,
    ensures
        ids_ascending(id_range(base, n)),
{
}

/// Puts the replies of a batch of `num_calls` calls numbered from `base_id` in
/// the order of their ids, and checks them: `IncompleteBatch` unless they
/// answer each id once, then `UnexpectedVersion` with the version of the reply
/// of least id that carries another version than `2.0`.
pub fn check_batch_responses<V, E>(
    base_id: u64,
    num_calls: usize,
    responses: Vec<JsonRpcResponse<V, E>>,
) -> (r: Result<Vec<JsonRpcResponse<V, E>>, JsonRpcError<E>>)
    requires
        base_id + num_calls <= u64::MAX,
    ensures
        !batch_is_complete(base_id, num_calls as nat, responses@) <==> r matches Err(
            JsonRpcError::IncompleteBatch,
        ),
        batch_is_complete(base_id, num_calls as nat, responses@) && (forall|j: int|
            0 <= j < responses@.len() ==> version_ok(#[trigger] responses@[j])) ==> (r matches Ok(v)
            && v@.to_multiset() == responses@.to_multiset() && ids_of(v@) == id_range(
            base_id,
            num_calls as nat,
        )),
        batch_is_complete(base_id, num_calls as nat, responses@) && (exists|j: int|
            0 <= j < responses@.len() && !version_ok(#[trigger] responses@[j])) ==> (r matches Err(
            JsonRpcError::UnexpectedVersion(s),
        ) && exists|j: int|
            0 <= j < responses@.len() && !version_ok(#[trigger] responses@[j]) && s@
                == responses@[j].version_of() && forall|k: int|
                0 <= k < responses@.len() && !version_ok(#[trigger] responses@[k])
                    ==> responses@[j].id_of() <= responses@[k].id_of()),
{
    let ghost orig = responses@;
    let sorted = sort_by_id(responses);
    let ghost range = id_range(base_id, num_calls as nat);
    let ghost si = ids_of(sorted@);
    proof {
        lemma_id_le_total();
        lemma_range_sorted(base_id, num_calls as nat);
        lemma_ascending_sorted_by(si);
        lemma_ascending_sorted_by(range);
        if batch_is_complete(base_id, num_calls as nat, orig) {
            vstd::seq_lib::lemma_sorted_unique(si, range, |a: u64, b: u64| id_le(a, b));
        }
    }
    if sorted.len() != num_calls {
        proof {
            if batch_is_complete(base_id, num_calls as nat, orig) {
                assert(si.len() == range.len());
            }
        }
        return Err(JsonRpcError::IncompleteBatch);
    }
    let mut i: usize = 0;
    while i < sorted.len()
        invariant
            sorted@.len() == num_calls,
            orig == responses@,
            base_id + num_calls <= u64::MAX,
            si == ids_of(sorted@),
            range == id_range(base_id, num_calls as nat),
            batch_is_complete(base_id, num_calls as nat, orig) ==> si == range,
            ids_of(sorted@).to_multiset() == ids_of(orig).to_multiset(),
            sorted@.to_multiset() == orig.to_multiset(),
            i <= num_calls,
            forall|j: int| 0 <= j < i ==> #[trigger] si[j] == range[j],
        decreases num_calls - i,
    {
        if sorted[i].id() != base_id + i as u64 {
            proof {
                assert(si[i as int] == sorted@[i as int].id_of());
                assert(range[i as int] == (base_id + i) as u64);
                assert(si[i as int] != range[i as int]);
                if batch_is_complete(base_id, num_calls as nat, orig) {
                    assert(si[i as int] == range[i as int]);
                }
            }
            return Err(JsonRpcError::IncompleteBatch);
        }
        assert(si[i as int] == sorted@[i as int].id_of());
        i = i + 1;
    }
    proof {
        assert(si =~= range);
        assert(batch_is_complete(base_id, num_calls as nat, orig));
    }
    let version = "2.0";
    proof {
        reveal_strlit("2.0");
    }
    assert(version@ == jsonrpc_version());
    let mut k: usize = 0;
    while k < sorted.len()
        invariant
            sorted@.len() == num_calls,
            orig == responses@,
            k <= num_calls,
            version@ == jsonrpc_version(),
            si == ids_of(sorted@),
            si == range,
            range == id_range(base_id, num_calls as nat),
            base_id + num_calls <= u64::MAX,
            batch_is_complete(base_id, num_calls as nat, orig),
            sorted@.to_multiset() == orig.to_multiset(),
            forall|j: int| 0 <= j < k ==> version_ok(#[trigger] sorted@[j]),
        decreases num_calls - k,
    {
        let v = sorted[k].jsonrpc();
        if !crate::text::str_eq(v, version) {
            let found = v.to_owned();
            proof {
                let bad = sorted@[k as int];
                assert(sorted@.contains(bad));
                assert(sorted@.to_multiset().count(bad) > 0);
                assert(orig.to_multiset().count(bad) > 0);
                assert(orig.contains(bad));
                let j = choose|j: int| 0 <= j < orig.len() && orig[j] == bad;
                assert(!version_ok(orig[j]));
                assert forall|m: int| 0 <= m < orig.len() && !version_ok(#[trigger] orig[m]) implies orig[j].id_of()
                    <= orig[m].id_of() by {
                    assert(orig.contains(orig[m]));
                    assert(orig.to_multiset().count(orig[m]) > 0);
                    assert(sorted@.to_multiset().count(orig[m]) > 0);
                    assert(sorted@.contains(orig[m]));
                    let q = choose|q: int| 0 <= q < sorted@.len() && sorted@[q] == orig[m];
                    assert(!version_ok(sorted@[q]));
                    assert(q >= k);
                    assert(range[q] == (base_id + q) as u64);
                    assert(range[k as int] == (base_id + k) as u64);
                    assert(si[q] == sorted@[q].id_of());
                    assert(si[k as int] == sorted@[k as int].id_of());
                    assert(si[q] == range[q] && si[k as int] == range[k as int]);
                }
            }
            return Err(JsonRpcError::UnexpectedVersion(found));
        }
        k = k + 1;
    }
    proof {
        assert forall|j: int| 0 <= j < orig.len() implies version_ok(#[trigger] orig[j]) by {
            assert(orig.contains(orig[j]));
            assert(orig.to_multiset().count(orig[j]) > 0);
            assert(sorted@.to_multiset().count(orig[j]) > 0);
            assert(sorted@.contains(orig[j]));
            let q = choose|q: int| 0 <= q < sorted@.len() && sorted@[q] == orig[j];
            assert(version_ok(sorted@[q]));
        }
    }
    Ok(sorted)
}

/// The least number of attempts of a call before it gives up.
pub const MIN_RETRIES: u64 = 2u64;

/// The least time, in milliseconds, that a call keeps trying before it gives
/// up.
pub const MIN_WAIT_MILLIS: u64 = 30000u64;

/// The least time, in milliseconds, from the start of one attempt to the start
/// of the next.
pub const MIN_RETRY_WAIT_MILLIS: u64 = 250u64;

/// What a call does after an attempt.
#[derive(Debug, PartialEq, Eq, Structural)]
pub enum CallStep {
    /// Stop, with the best outcome so far.
    Finish,
    /// Sleep, then send the batch again to the given server.
    Retry { server_id: usize, sleep_millis: u64 },
}

/// The attempts of one call, each of which sends the whole batch to one
/// server, going round the servers in turn.
#[derive(Debug, Clone, Copy, PartialEq, Eq, Structural)]
pub struct CallAttempts {
    /// The number of the current attempt, from 1.
    pub attempt: u64,
    /// The server of the current attempt.
    pub server_id: usize,
    pub num_servers: usize,
}

/// Whether every server has had an attempt.
pub open spec fn tried_all_servers(a: CallAttempts) -> bool {
    a.attempt >= a.num_servers
}

/// Whether the call has tried every server, at least `MIN_RETRIES` times in
/// all, for at least `MIN_WAIT_MILLIS`.
pub open spec fn exhausted_retries(a: CallAttempts, elapsed_millis: u64) -> bool {
    tried_all_servers(a) && a.attempt >= MIN_RETRIES && elapsed_millis >= MIN_WAIT_MILLIS
}

/// Whether the call stops after the current attempt: it has exhausted its
/// retries, or it has a decoded batch with no reply that may stand for a
/// fault, or a decoded batch at all once every server was tried.
pub open spec fn call_finishes(a: CallAttempts, elapsed_millis: u64, best_faulty: Option<usize>) -> bool {
    exhausted_retries(a, elapsed_millis) || (best_faulty matches Some(c) && (c == 0
        || tried_all_servers(a)))
}

/// How long to sleep so that attempts start at least `MIN_RETRY_WAIT_MILLIS`
/// apart.
pub open spec fn retry_sleep(took_millis: u64) -> u64 {
    if took_millis < MIN_RETRY_WAIT_MILLIS {
        (MIN_RETRY_WAIT_MILLIS - took_millis) as u64
    } else {
        0
    }
}

impl CallAttempts {
    pub open spec fn wf(&self) -> bool {
        &&& self.num_servers > 0
        &&& self.server_id < self.num_servers
        &&& self.attempt >= 1
    }

    /// The first attempt of a call, to the given server.
    pub fn new(server_id: usize, num_servers: usize) -> (r: CallAttempts)
        requires
            server_id < num_servers,
        ensures
            r.wf(),
            r == (CallAttempts { attempt: 1, server_id, num_servers }),
    {
        CallAttempts { attempt: 1, server_id, num_servers }
    }

    /// Decides what follows the current attempt, given the time since the
    /// first attempt began, the time the current one took, and the number of
    /// replies that may stand for a fault in the best decoded batch so far
    /// (`None` where no batch was decoded).
    pub fn after_attempt(&mut self, elapsed_millis: u64, took_millis: u64, best_faulty: Option<usize>) -> (step: CallStep)
        requires
            old(self).wf(),
            old(self).attempt < u64::MAX,
        ensures
            final(self).wf(),
            call_finishes(*old(self), elapsed_millis, best_faulty) ==> step == CallStep::Finish && *final(self) == *old(self),
            !call_finishes(*old(self), elapsed_millis, best_faulty) ==> step == (CallStep::Retry {
                server_id: ((old(self).server_id + 1) % (old(self).num_servers as int)) as usize,
                sleep_millis: retry_sleep(took_millis),
            }) && *final(self) == (CallAttempts {
                attempt: (old(self).attempt + 1) as u64,
                server_id: ((old(self).server_id + 1) % (old(self).num_servers as int)) as usize,
                num_servers: old(self).num_servers,
            }),
    {
        let tried_all_servers = self.attempt >= self.num_servers as u64;
        let exhausted_retries = tried_all_servers && self.attempt >= MIN_RETRIES && elapsed_millis
            >= MIN_WAIT_MILLIS;
        if exhausted_retries {
            return CallStep::Finish;
        }
        match best_faulty {
            Some(c) => {
                if c == 0 || tried_all_servers {
                    return CallStep::Finish;
                }
            },
            None => {},
        }
        self.attempt = self.attempt + 1;
        self.server_id = (self.server_id + 1) % self.num_servers;
        let sleep_millis = if took_millis < MIN_RETRY_WAIT_MILLIS {
            MIN_RETRY_WAIT_MILLIS - took_millis
        } else {
            0
        };
        CallStep::Retry { server_id: self.server_id, sleep_millis }
    }
}

} // verus!
