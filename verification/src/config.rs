use vstd::prelude::*;
use crate::bytes::Address;
use crate::common::{ChainName, LaneId, LaneIdV};
use crate::tx_sender::TransactionSenderFeeConfig;

verus! {

/// How the monitor decides that a block of a chain is final.
#[derive(Debug, Clone, Copy, PartialEq, Eq, Structural)]
pub enum ChainStability {
    ConfirmationDepth { soft_confirmations: u64, hard_confirmations: u64 },
    FinalityTag { soft_confirmations: u64 },
}

/// A span of time in seconds or minutes.
#[derive(Clone, Copy, Debug, PartialEq, Eq, Structural)]
pub enum TimeUnit {
    Seconds(u64),
    Minutes(u64),
}

impl TimeUnit {
    /// The span in seconds.
    pub open spec fn spec_secs(self) -> nat {
        match self {
            TimeUnit::Seconds(s) => s as nat,
            TimeUnit::Minutes(m) => m as nat * 60,
        }
    }

    /// The span in seconds.
    pub fn as_secs(self) -> (r: u64)
        requires
            self.spec_secs() <= u64::MAX,
        ensures
            r == self.spec_secs(),
    {
        match self {
            TimeUnit::Seconds(s) => s,
            TimeUnit::Minutes(m) => m * 60,
        }
    }
}

/// The configuration of a chain that all monitors share.
#[derive(Clone, Copy, Debug)]
pub struct SharedChainConfig {
    pub name: ChainName,
    pub stability: ChainStability,
    pub bless_fee_config: TransactionSenderFeeConfig,
    pub curse_fee_config: TransactionSenderFeeConfig,
    pub max_tagged_roots_per_vote_to_bless: usize,
    pub afn_contract: Address,
    pub inflight_time: TimeUnit,
    pub max_fresh_block_age: TimeUnit,
    pub upon_finality_violation_vote_to_curse_on_other_chains: bool,
}

/// The version of the contracts of a lane.
#[derive(Clone, Copy, Debug, PartialEq, Eq, Structural)]
pub enum LaneType {
    Evm2EvmV1_0,
    Evm2EvmV1_2,
}

/// The configuration of a lane that all monitors share.
#[derive(Debug)]
pub struct SharedLaneConfig {
    pub lane_id: LaneId,
    pub lane_type: LaneType,
    pub source_start_block_number: u64,
    pub dest_start_block_number: u64,
    pub commit_store: Address,
    pub on_ramp: Address,
    pub off_ramp: Address,
}

impl Clone for SharedLaneConfig {
    fn clone(&self) -> (r: Self)
        ensures
            r.lane_id@ == self.lane_id@,
            r.lane_type == self.lane_type,
            r.source_start_block_number == self.source_start_block_number,
            r.dest_start_block_number == self.dest_start_block_number,
            r.commit_store == self.commit_store,
            r.on_ramp == self.on_ramp,
            r.off_ramp == self.off_ramp,
    {
        SharedLaneConfig {
            lane_id: self.lane_id.clone(),
            lane_type: self.lane_type,
            source_start_block_number: self.source_start_block_number,
            dest_start_block_number: self.dest_start_block_number,
            commit_store: self.commit_store,
            on_ramp: self.on_ramp,
            off_ramp: self.off_ramp,
        }
    }
}

/// An address on a chain.
#[derive(Clone, Copy, Debug)]
pub struct QualifiedAddress {
    pub chain: ChainName,
    pub address: Address,
}

impl View for QualifiedAddress {
    type V = (ChainName, Seq<u8>);

    open spec fn view(&self) -> (ChainName, Seq<u8>) {
        (self.chain, self.address@)
    }
}

impl QualifiedAddress {
    /// The address `address` on `chain`.
    pub fn from(chain_and_address: (ChainName, Address)) -> (r: QualifiedAddress)
        ensures
            r.chain == chain_and_address.0,
            r.address == chain_and_address.1,
    {
        QualifiedAddress { chain: chain_and_address.0, address: chain_and_address.1 }
    }
}

/// The configuration of a chain that is local to this monitor.
#[derive(Clone, Debug)]
pub struct LocalChainConfig {
    pub name: ChainName,
    pub disabled: bool,
    pub rpcs: Vec<String>,
}

/// Why a set of configuration entries does not make an offchain configuration.
#[derive(Debug, Clone, Copy, PartialEq, Eq, Structural)]
pub enum ConfigError {
    /// Two local entries are for `chain`.
    DuplicateLocalChain { chain: ChainName },
    /// Two shared entries are for `chain`.
    DuplicateSharedChain { chain: ChainName },
    /// The local entry for `chain` has no shared entry.
    LocalWithoutShared { chain: ChainName },
    /// The shared entry for `chain` has no local entry.
    SharedWithoutLocal { chain: ChainName },
    /// The lane entry at `index` repeats the lane of an earlier entry.
    DuplicateLane { index: usize },
    /// The lane entry at `index` repeats the commit store of an earlier entry.
    DuplicateCommitStore { index: usize },
    /// The lane entry at `lane` refers to `chain`, which has no shared entry.
    UnknownChain { lane: usize, chain: ChainName },
    /// The lane entry at `lane` has the same source and destination.
    SameSourceAndDest { lane: usize },
}

/// The index of the first key that equals an earlier key.
pub open spec fn first_dup<K>(ks: Seq<K>) -> Option<int>
    decreases ks.len(),
{
    if ks.len() == 0 {
        None
    } else {
        match first_dup(ks.drop_last()) {
            Some(j) => Some(j),
            None => if ks.drop_last().contains(ks.last()) {
                Some(ks.len() - 1)
            } else {
                None
            },
        }
    }
}

/// The index of the first key that `others` does not hold.
pub open spec fn first_missing<K>(ks: Seq<K>, others: Seq<K>) -> Option<int>
    decreases ks.len(),
{
    if ks.len() == 0 {
        None
    } else {
        match first_missing(ks.drop_last(), others) {
            Some(j) => Some(j),
            None => if others.contains(ks.last()) {
                None
            } else {
                Some(ks.len() - 1)
            },
        }
    }
}

proof fn lemma_first_dup_prefix<K>(s: Seq<K>, k: int)
    requires
        0 <= k <= s.len(),
        first_dup(s.subrange(0, k)) is Some,
    ensures
        first_dup(s) == first_dup(s.subrange(0, k)),
    decreases s.len() - k,
{
    if k < s.len() {
        assert(s.subrange(0, k + 1).drop_last() =~= s.subrange(0, k));
        lemma_first_dup_prefix(s, k + 1);
    } else {
        assert(s.subrange(0, k) =~= s);
    }
}

proof fn lemma_first_missing_prefix<K>(s: Seq<K>, others: Seq<K>, k: int)
    requires
        0 <= k <= s.len(),
        first_missing(s.subrange(0, k), others) is Some,
    ensures
        first_missing(s, others) == first_missing(s.subrange(0, k), others),
    decreases s.len() - k,
{
    if k < s.len() {
        assert(s.subrange(0, k + 1).drop_last() =~= s.subrange(0, k));
        lemma_first_missing_prefix(s, others, k + 1);
    } else {
        assert(s.subrange(0, k) =~= s);
    }
}

/// The models of a sequence of keys.
pub open spec fn key_views<K: View>(ks: Seq<K>) -> Seq<K::V> {
    Seq::new(ks.len(), |i: int| ks[i]@)
}

/// A key whose equality can be tested.
pub trait KeyEq: View {
    /// Whether the two keys have the same model.
    fn key_eq(&self, other: &Self) -> (r: bool)
        ensures
            r == (self@ == other@),
    ;
}

impl View for ChainName {
    type V = ChainName;

    open spec fn view(&self) -> ChainName {
        *self
    }
}

impl KeyEq for ChainName {
    fn key_eq(&self, other: &Self) -> (r: bool) {
        *self == *other
    }
}

impl KeyEq for LaneId {
    fn key_eq(&self, other: &Self) -> (r: bool) {
        self.same_as(other)
    }
}

impl KeyEq for QualifiedAddress {
    fn key_eq(&self, other: &Self) -> (r: bool) {
        self.chain == other.chain && self.address == other.address
    }
}

/// The index of the first key that equals an earlier one.
fn find_duplicate<K: KeyEq>(keys: &Vec<K>) -> (r: Option<usize>)
    ensures
        match r {
            Some(j) => j < keys@.len() && first_dup(key_views(keys@)) == Some(j as int),
            None => first_dup(key_views(keys@)) is None,
        },
{
    let ghost vs = key_views(keys@);
    let mut j: usize = 0;
    while j < keys.len()
        invariant
            j <= keys@.len(),
            vs == key_views(keys@),
            first_dup(vs.subrange(0, j as int)) is None,
        decreases keys@.len() - j,
    {
        let mut i: usize = 0;
        let mut found = false;
        while i < j
            invariant
                i <= j,
                j < keys@.len(),
                vs == key_views(keys@),
                found == (exists|k: int| 0 <= k < i && vs[k] == vs[j as int]),
            decreases j - i,
        {
            assert(vs[i as int] == keys@[i as int]@);
            assert(vs[j as int] == keys@[j as int]@);
            if keys[i].key_eq(&keys[j]) {
                found = true;
            }
            i = i + 1;
        }
        proof {
            let p = vs.subrange(0, j + 1);
            assert(p.drop_last() =~= vs.subrange(0, j as int));
            assert(p.last() == vs[j as int]);
            if found {
                let k = choose|k: int| 0 <= k < j && vs[k] == vs[j as int];
                assert(vs.subrange(0, j as int)[k] == vs[j as int]);
            } else {
                assert(!vs.subrange(0, j as int).contains(vs[j as int]));
            }
        }
        if found {
            proof {
                lemma_first_dup_prefix(vs, j + 1);
            }
            return Some(j);
        }
        j = j + 1;
    }
    assert(vs.subrange(0, vs.len() as int) =~= vs);
    None
}

/// The index of the first name of `ks` that `others` does not hold.
fn find_missing(ks: &Vec<ChainName>, others: &Vec<ChainName>) -> (r: Option<usize>)
    ensures
        match r {
            Some(j) => j < ks@.len() && first_missing(ks@, others@) == Some(j as int),
            None => first_missing(ks@, others@) is None,
        },
{
    let mut j: usize = 0;
    while j < ks.len()
        invariant
            j <= ks@.len(),
            first_missing(ks@.subrange(0, j as int), others@) is None,
        decreases ks@.len() - j,
    {
        let found = contains_name(others, ks[j]);
        proof {
            let p = ks@.subrange(0, j + 1);
            assert(p.drop_last() =~= ks@.subrange(0, j as int));
        }
        if !found {
            proof {
                lemma_first_missing_prefix(ks@, others@, j + 1);
            }
            return Some(j);
        }
        j = j + 1;
    }
    assert(ks@.subrange(0, ks@.len() as int) =~= ks@);
    None
}

/// Whether `names` holds `name`.
fn contains_name(names: &Vec<ChainName>, name: ChainName) -> (r: bool)
    ensures
        r == names@.contains(name),
{
    let mut i: usize = 0;
    while i < names.len()
        invariant
            i <= names@.len(),
            forall|k: int| 0 <= k < i ==> names@[k] != name,
        decreases names@.len() - i,
    {
        if names[i] == name {
            return true;
        }
        i = i + 1;
    }
    false
}

/// The chain names of local entries.
pub open spec fn local_names(cs: Seq<LocalChainConfig>) -> Seq<ChainName> {
    Seq::new(cs.len(), |i: int| cs[i].name)
}

/// The chain names of shared entries.
pub open spec fn shared_names(cs: Seq<SharedChainConfig>) -> Seq<ChainName> {
    Seq::new(cs.len(), |i: int| cs[i].name)
}

/// The lane ids of lane entries.
pub open spec fn lane_ids(ls: Seq<SharedLaneConfig>) -> Seq<LaneIdV> {
    Seq::new(ls.len(), |i: int| ls[i].lane_id@)
}

/// The commit stores of lane entries, each on the destination chain.
pub open spec fn commit_stores(ls: Seq<SharedLaneConfig>) -> Seq<(ChainName, Seq<u8>)> {
    Seq::new(ls.len(), |i: int| (ls[i].lane_id.dest_chain_name, ls[i].commit_store@))
}

/// What is wrong with the lane entry at `index`, given the chains with a shared entry.
pub open spec fn lane_problem(l: SharedLaneConfig, index: int, names: Seq<ChainName>) -> Option<
    ConfigError,
> {
    if !names.contains(l.lane_id.source_chain_name) {
        Some(ConfigError::UnknownChain { lane: index as usize, chain: l.lane_id.source_chain_name })
    } else if !names.contains(l.lane_id.dest_chain_name) {
        Some(ConfigError::UnknownChain { lane: index as usize, chain: l.lane_id.dest_chain_name })
    } else if l.lane_id.source_chain_name == l.lane_id.dest_chain_name {
        Some(ConfigError::SameSourceAndDest { lane: index as usize })
    } else {
        None
    }
}

/// What is wrong with the first lane entry that is wrong.
pub open spec fn first_lane_problem(ls: Seq<SharedLaneConfig>, names: Seq<ChainName>) -> Option<
    ConfigError,
>
    decreases ls.len(),
{
    if ls.len() == 0 {
        None
    } else {
        match first_lane_problem(ls.drop_last(), names) {
            Some(e) => Some(e),
            None => lane_problem(ls.last(), ls.len() - 1, names),
        }
    }
}

/// The error that the entries give, checked in order, or `None` where they make
/// a configuration.
pub open spec fn config_error(
    shared: Seq<SharedChainConfig>,
    lanes: Seq<SharedLaneConfig>,
    local: Seq<LocalChainConfig>,
) -> Option<ConfigError> {
    let ln = local_names(local);
    let sn = shared_names(shared);
    if first_dup(ln) is Some {
        Some(ConfigError::DuplicateLocalChain { chain: ln[first_dup(ln)->0] })
    } else if first_dup(sn) is Some {
        Some(ConfigError::DuplicateSharedChain { chain: sn[first_dup(sn)->0] })
    } else if first_missing(ln, sn) is Some {
        Some(ConfigError::LocalWithoutShared { chain: ln[first_missing(ln, sn)->0] })
    } else if first_missing(sn, ln) is Some {
        Some(ConfigError::SharedWithoutLocal { chain: sn[first_missing(sn, ln)->0] })
    } else if first_dup(lane_ids(lanes)) is Some {
        Some(ConfigError::DuplicateLane { index: first_dup(lane_ids(lanes))->0 as usize })
    } else if first_dup(commit_stores(lanes)) is Some {
        Some(ConfigError::DuplicateCommitStore { index: first_dup(commit_stores(lanes))->0 as usize })
    } else {
        first_lane_problem(lanes, sn)
    }
}

proof fn lemma_first_lane_problem_prefix(ls: Seq<SharedLaneConfig>, names: Seq<ChainName>, k: int)
    requires
        0 <= k <= ls.len(),
        first_lane_problem(ls.subrange(0, k), names) is Some,
    ensures
        first_lane_problem(ls, names) == first_lane_problem(ls.subrange(0, k), names),
    decreases ls.len() - k,
{
    if k < ls.len() {
        assert(ls.subrange(0, k + 1).drop_last() =~= ls.subrange(0, k));
        lemma_first_lane_problem_prefix(ls, names, k + 1);
    } else {
        assert(ls.subrange(0, k) =~= ls);
    }
}

/// The local entries that are not disabled, in order.
pub open spec fn enabled_local(cs: Seq<LocalChainConfig>) -> Seq<LocalChainConfig>
    decreases cs.len(),
{
    if cs.len() == 0 {
        seq![]
    } else if cs.last().disabled {
        enabled_local(cs.drop_last())
    } else {
        enabled_local(cs.drop_last()).push(cs.last())
    }
}

/// The shared entries whose chain is in `names` (`inside`) or is not in it
/// (`!inside`), in order.
pub open spec fn shared_by_names(cs: Seq<SharedChainConfig>, names: Seq<ChainName>, inside: bool) -> Seq<
    SharedChainConfig,
>
    decreases cs.len(),
{
    if cs.len() == 0 {
        seq![]
    } else if names.contains(cs.last().name) == inside {
        shared_by_names(cs.drop_last(), names, inside).push(cs.last())
    } else {
        shared_by_names(cs.drop_last(), names, inside)
    }
}

/// The lane entries both of whose chains are in `names`, in order.
pub open spec fn lanes_within(ls: Seq<SharedLaneConfig>, names: Seq<ChainName>) -> Seq<
    SharedLaneConfig,
>
    decreases ls.len(),
{
    if ls.len() == 0 {
        seq![]
    } else if names.contains(ls.last().lane_id.source_chain_name) && names.contains(
        ls.last().lane_id.dest_chain_name,
    ) {
        lanes_within(ls.drop_last(), names).push(ls.last())
    } else {
        lanes_within(ls.drop_last(), names)
    }
}

/// The offchain configuration: the shared and local entries of the enabled
/// chains, the shared entries of the disabled ones, and the lanes between
/// enabled chains.
#[derive(Debug)]
pub struct OffchainConfig {
    pub(crate) shared_config_by_enabled_chain: Vec<SharedChainConfig>,
    pub(crate) shared_config_by_disabled_chain: Vec<SharedChainConfig>,
    pub(crate) shared_config_by_enabled_lane: Vec<SharedLaneConfig>,
    pub(crate) local_config_by_enabled_chain: Vec<LocalChainConfig>,
}

/// Whether no chain name comes twice among the enabled chains, nor among the
/// disabled ones, and no chain is both.
pub open spec fn chains_split(enabled: Seq<SharedChainConfig>, disabled: Seq<SharedChainConfig>) -> bool {
    &&& shared_names(enabled).no_duplicates()
    &&& shared_names(disabled).no_duplicates()
    &&& forall|c: ChainName| #[trigger] shared_names(enabled).contains(c) ==> !shared_names(disabled).contains(c)
}

impl OffchainConfig {
    /// The shared entries of the enabled chains.
    pub closed spec fn spec_enabled_chain_configs(self) -> Seq<SharedChainConfig> {
        self.shared_config_by_enabled_chain@
    }

    /// The shared entries of the disabled chains.
    pub closed spec fn spec_disabled_chain_configs(self) -> Seq<SharedChainConfig> {
        self.shared_config_by_disabled_chain@
    }

    /// The entries of the enabled lanes.
    pub closed spec fn spec_lane_configs(self) -> Seq<SharedLaneConfig> {
        self.shared_config_by_enabled_lane@
    }

    /// The local entries of the enabled chains.
    pub closed spec fn spec_local_configs(self) -> Seq<LocalChainConfig> {
        self.local_config_by_enabled_chain@
    }

    /// Each chain is enabled or disabled, once.
    #[verifier::type_invariant]
    spec fn chains_unique(self) -> bool {
        chains_split(self.spec_enabled_chain_configs(), self.spec_disabled_chain_configs())
    }
}

/// A list of keys in which no key comes twice before the end has no key twice.
proof fn lemma_no_first_dup<K>(ks: Seq<K>)
    requires
        first_dup(ks) is None,
    ensures
        ks.no_duplicates(),
    decreases ks.len(),
{
    if ks.len() > 0 {
        let p = ks.drop_last();
        lemma_no_first_dup(p);
        assert forall|i: int, j: int| 0 <= i < ks.len() && 0 <= j < ks.len() && i != j implies ks[i] != ks[j] by {
            if i < p.len() && j < p.len() {
                assert(p[i] == ks[i] && p[j] == ks[j]);
            } else if i < p.len() {
                assert(p[i] == ks[i]);
                assert(!p.contains(ks.last()));
            } else {
                assert(p[j] == ks[j]);
                assert(!p.contains(ks.last()));
            }
        }
    }
}

/// The entries that `shared_by_names` keeps have names of `cs` on the chosen
/// side of `names`, and keep them unique.
proof fn lemma_shared_by_names(cs: Seq<SharedChainConfig>, names: Seq<ChainName>, inside: bool)
    ensures
        forall|c: ChainName|
            #[trigger] shared_names(shared_by_names(cs, names, inside)).contains(c) ==> shared_names(cs).contains(c)
                && names.contains(c) == inside,
        shared_names(cs).no_duplicates() ==> shared_names(shared_by_names(cs, names, inside)).no_duplicates(),
    decreases cs.len(),
{
    if cs.len() > 0 {
        let p = cs.drop_last();
        lemma_shared_by_names(p, names, inside);
        let rp = shared_by_names(p, names, inside);
        let r = shared_by_names(cs, names, inside);
        assert(shared_names(p) =~= shared_names(cs).drop_last());
        assert forall|c: ChainName| #[trigger] shared_names(r).contains(c) implies shared_names(cs).contains(c)
            && names.contains(c) == inside by {
            let k = choose|k: int| 0 <= k < shared_names(r).len() && shared_names(r)[k] == c;
            if names.contains(cs.last().name) == inside {
                assert(r == rp.push(cs.last()));
            } else {
                assert(r == rp);
            }
            if k < rp.len() {
                assert(shared_names(rp)[k] == c);
                assert(shared_names(rp).contains(c));
                let m = choose|m: int| 0 <= m < shared_names(p).len() && shared_names(p)[m] == c;
                assert(shared_names(cs)[m] == shared_names(p)[m]);
                assert(shared_names(cs).contains(c));
            } else {
                assert(shared_names(cs)[cs.len() - 1] == c);
                assert(shared_names(cs).contains(c));
            }
        }
        if shared_names(cs).no_duplicates() && names.contains(cs.last().name) == inside {
            assert(shared_names(p).no_duplicates()) by {
                assert forall|i: int, j: int| 0 <= i < p.len() && 0 <= j < p.len() && i != j implies shared_names(p)[i]
                    != shared_names(p)[j] by {
                    assert(shared_names(cs)[i] != shared_names(cs)[j]);
                }
            }
            assert(!shared_names(rp).contains(cs.last().name)) by {
                if shared_names(rp).contains(cs.last().name) {
                    let m = choose|m: int| 0 <= m < shared_names(p).len() && shared_names(p)[m] == cs.last().name;
                    assert(shared_names(cs)[m] == shared_names(cs)[cs.len() - 1]);
                }
            }
            assert forall|i: int, j: int| 0 <= i < r.len() && 0 <= j < r.len() && i != j implies shared_names(r)[i]
                != shared_names(r)[j] by {
                if i < rp.len() && j < rp.len() {
                    assert(shared_names(rp)[i] == shared_names(r)[i]);
                    assert(shared_names(rp)[j] == shared_names(r)[j]);
                } else if i < rp.len() {
                    assert(shared_names(rp)[i] == shared_names(r)[i]);
                    assert(shared_names(rp).contains(shared_names(r)[i]));
                } else {
                    assert(shared_names(rp)[j] == shared_names(r)[j]);
                    assert(shared_names(rp).contains(shared_names(r)[j]));
                }
            }
        } else if shared_names(cs).no_duplicates() {
            assert(shared_names(p).no_duplicates()) by {
                assert forall|i: int, j: int| 0 <= i < p.len() && 0 <= j < p.len() && i != j implies shared_names(p)[i]
                    != shared_names(p)[j] by {
                    assert(shared_names(cs)[i] != shared_names(cs)[j]);
                }
            }
        }
    }
}

impl OffchainConfig {
    /// Whether the configuration is what `new` makes of the entries.
    pub open spec fn built_from(
        self,
        shared: Seq<SharedChainConfig>,
        lanes: Seq<SharedLaneConfig>,
        local: Seq<LocalChainConfig>,
    ) -> bool {
        let enabled = enabled_local(local);
        let enabled_shared = shared_by_names(shared, local_names(enabled), true);
        &&& self.spec_local_configs() == enabled
        &&& self.spec_enabled_chain_configs() == enabled_shared
        &&& self.spec_disabled_chain_configs() == shared_by_names(
            shared,
            local_names(enabled),
            false,
        )
        &&& self.spec_lane_configs() == lanes_within(lanes, shared_names(enabled_shared))
    }

    /// Checks the entries and makes the configuration: no chain has two local
    /// or two shared entries, the local and shared entries are for the same
    /// chains, no lane or commit store comes twice, and each lane joins two
    /// known, different chains. A chain is enabled unless its local entry
    /// disables it, and a lane is enabled where both its chains are.
    pub fn new(
        shared_chain_configs: Vec<SharedChainConfig>,
        shared_lane_configs: Vec<SharedLaneConfig>,
        local_chain_configs: Vec<LocalChainConfig>,
    ) -> (r: Result<OffchainConfig, ConfigError>)
        ensures
            match config_error(shared_chain_configs@, shared_lane_configs@, local_chain_configs@) {
                Some(e) => r == Err::<OffchainConfig, ConfigError>(e),
                None => r matches Ok(c) && c.built_from(
                    shared_chain_configs@,
                    shared_lane_configs@,
                    local_chain_configs@,
                ),
            },
    {
        let ghost shared0 = shared_chain_configs@;
        let ghost lanes0 = shared_lane_configs@;
        let ghost local0 = local_chain_configs@;
        let ln = names_of_local(&local_chain_configs);
        proof {
            assert(key_views(ln@) =~= ln@);
        }
        if let Some(j) = find_duplicate(&ln) {
            return Err(ConfigError::DuplicateLocalChain { chain: ln[j] });
        }
        let sn = names_of_shared(&shared_chain_configs);
        proof {
            assert(key_views(sn@) =~= sn@);
        }
        if let Some(j) = find_duplicate(&sn) {
            return Err(ConfigError::DuplicateSharedChain { chain: sn[j] });
        }
        if let Some(j) = find_missing(&ln, &sn) {
            return Err(ConfigError::LocalWithoutShared { chain: ln[j] });
        }
        if let Some(j) = find_missing(&sn, &ln) {
            return Err(ConfigError::SharedWithoutLocal { chain: sn[j] });
        }
        let ids = lane_ids_of(&shared_lane_configs);
        if let Some(j) = find_duplicate(&ids) {
            return Err(ConfigError::DuplicateLane { index: j });
        }
        let stores = commit_stores_of(&shared_lane_configs);
        if let Some(j) = find_duplicate(&stores) {
            return Err(ConfigError::DuplicateCommitStore { index: j });
        }
        if let Some(e) = find_lane_problem(&shared_lane_configs, &sn) {
            return Err(e);
        }
        let local_enabled = keep_enabled_local(local_chain_configs);
        let en = names_of_local(&local_enabled);
        let (enabled_shared, disabled_shared) = split_shared(&shared_chain_configs, &en);
        let esn = names_of_shared(&enabled_shared);
        let lanes = keep_lanes_within(shared_lane_configs, &esn);
        proof {
            lemma_no_first_dup(shared_names(shared0));
            lemma_shared_by_names(shared0, en@, true);
            lemma_shared_by_names(shared0, en@, false);
            assert(chains_split(enabled_shared@, disabled_shared@));
        }
        Ok(OffchainConfig {
            shared_config_by_enabled_chain: enabled_shared,
            shared_config_by_disabled_chain: disabled_shared,
            shared_config_by_enabled_lane: lanes,
            local_config_by_enabled_chain: local_enabled,
        })
    }
}

fn names_of_local(cs: &Vec<LocalChainConfig>) -> (r: Vec<ChainName>)
    ensures
        r@ == local_names(cs@),
{
    let mut r: Vec<ChainName> = Vec::new();
    let mut i: usize = 0;
    while i < cs.len()
        invariant
            i <= cs@.len(),
            r@ =~= local_names(cs@).subrange(0, i as int),
        decreases cs@.len() - i,
    {
        r.push(cs[i].name);
        i = i + 1;
    }
    r
}

fn names_of_shared(cs: &Vec<SharedChainConfig>) -> (r: Vec<ChainName>)
    ensures
        r@ == shared_names(cs@),
{
    let mut r: Vec<ChainName> = Vec::new();
    let mut i: usize = 0;
    while i < cs.len()
        invariant
            i <= cs@.len(),
            r@ =~= shared_names(cs@).subrange(0, i as int),
        decreases cs@.len() - i,
    {
        r.push(cs[i].name);
        i = i + 1;
    }
    r
}

fn lane_ids_of(ls: &Vec<SharedLaneConfig>) -> (r: Vec<LaneId>)
    ensures
        key_views(r@) == lane_ids(ls@),
{
    let mut r: Vec<LaneId> = Vec::new();
    let mut i: usize = 0;
    while i < ls.len()
        invariant
            i <= ls@.len(),
            r@.len() == i,
            forall|k: int| 0 <= k < i ==> #[trigger] r@[k]@ == ls@[k].lane_id@,
        decreases ls@.len() - i,
    {
        let id = ls[i].lane_id.clone();
        r.push(id);
        i = i + 1;
    }
    assert(key_views(r@) =~= lane_ids(ls@));
    r
}

fn commit_stores_of(ls: &Vec<SharedLaneConfig>) -> (r: Vec<QualifiedAddress>)
    ensures
        key_views(r@) == commit_stores(ls@),
{
    let mut r: Vec<QualifiedAddress> = Vec::new();
    let mut i: usize = 0;
    while i < ls.len()
        invariant
            i <= ls@.len(),
            r@.len() == i,
            forall|k: int|
                0 <= k < i ==> #[trigger] r@[k]@ == (
                    ls@[k].lane_id.dest_chain_name,
                    ls@[k].commit_store@,
                ),
        decreases ls@.len() - i,
    {
        let q = QualifiedAddress::from((ls[i].lane_id.dest_chain_name, ls[i].commit_store));
        r.push(q);
        i = i + 1;
    }
    assert(key_views(r@) =~= commit_stores(ls@));
    r
}

fn find_lane_problem(ls: &Vec<SharedLaneConfig>, names: &Vec<ChainName>) -> (r: Option<ConfigError>)
    ensures
        r == first_lane_problem(ls@, names@),
{
    let mut i: usize = 0;
    while i < ls.len()
        invariant
            i <= ls@.len(),
            first_lane_problem(ls@.subrange(0, i as int), names@) is None,
        decreases ls@.len() - i,
    {
        let l = &ls[i];
        let source = l.lane_id.source_chain_name;
        let dest = l.lane_id.dest_chain_name;
        let problem = if !contains_name(names, source) {
            Some(ConfigError::UnknownChain { lane: i, chain: source })
        } else if !contains_name(names, dest) {
            Some(ConfigError::UnknownChain { lane: i, chain: dest })
        } else if source == dest {
            Some(ConfigError::SameSourceAndDest { lane: i })
        } else {
            None
        };
        proof {
            assert(ls@.subrange(0, i + 1).drop_last() =~= ls@.subrange(0, i as int));
            assert(problem == lane_problem(ls@[i as int], i as int, names@));
        }
        if problem.is_some() {
            proof {
                lemma_first_lane_problem_prefix(ls@, names@, i + 1);
            }
            return problem;
        }
        i = i + 1;
    }
    assert(ls@.subrange(0, ls@.len() as int) =~= ls@);
    None
}

fn keep_enabled_local(cs: Vec<LocalChainConfig>) -> (r: Vec<LocalChainConfig>)
    ensures
        r@ == enabled_local(cs@),
{
    let ghost orig = cs@;
    let n = cs.len();
    let mut rest = cs;
    let mut out: Vec<LocalChainConfig> = Vec::new();
    let mut i: usize = 0;
    while rest.len() > 0
        invariant
            orig.len() == n,
            i <= orig.len(),
            rest@ == orig.subrange(i as int, orig.len() as int),
            out@ == enabled_local(orig.subrange(0, i as int)),
        decreases rest@.len(),
    {
        let c = rest.remove(0);
        proof {
            assert(orig.subrange(0, i + 1).drop_last() =~= orig.subrange(0, i as int));
            assert(c == orig[i as int]);
        }
        if !c.disabled {
            out.push(c);
        }
        i = i + 1;
        assert(rest@ =~= orig.subrange(i as int, orig.len() as int));
    }
    assert(orig.subrange(0, i as int) =~= orig);
    out
}

fn split_shared(cs: &Vec<SharedChainConfig>, names: &Vec<ChainName>) -> (r: (
    Vec<SharedChainConfig>,
    Vec<SharedChainConfig>,
))
    ensures
        r.0@ == shared_by_names(cs@, names@, true),
        r.1@ == shared_by_names(cs@, names@, false),
{
    let mut inside: Vec<SharedChainConfig> = Vec::new();
    let mut outside: Vec<SharedChainConfig> = Vec::new();
    let mut i: usize = 0;
    while i < cs.len()
        invariant
            i <= cs@.len(),
            inside@ == shared_by_names(cs@.subrange(0, i as int), names@, true),
            outside@ == shared_by_names(cs@.subrange(0, i as int), names@, false),
        decreases cs@.len() - i,
    {
        proof {
            assert(cs@.subrange(0, i + 1).drop_last() =~= cs@.subrange(0, i as int));
        }
        let c = cs[i];
        if contains_name(names, c.name) {
            inside.push(c);
        } else {
            outside.push(c);
        }
        i = i + 1;
    }
    assert(cs@.subrange(0, cs@.len() as int) =~= cs@);
    (inside, outside)
}

fn keep_lanes_within(ls: Vec<SharedLaneConfig>, names: &Vec<ChainName>) -> (r: Vec<SharedLaneConfig>)
    ensures
        r@ == lanes_within(ls@, names@),
{
    let ghost orig = ls@;
    let n = ls.len();
    let mut rest = ls;
    let mut out: Vec<SharedLaneConfig> = Vec::new();
    let mut i: usize = 0;
    while rest.len() > 0
        invariant
            orig.len() == n,
            i <= orig.len(),
            rest@ == orig.subrange(i as int, orig.len() as int),
            out@ == lanes_within(orig.subrange(0, i as int), names@),
        decreases rest@.len(),
    {
        let l = rest.remove(0);
        proof {
            assert(orig.subrange(0, i + 1).drop_last() =~= orig.subrange(0, i as int));
            assert(l == orig[i as int]);
        }
        if contains_name(names, l.lane_id.source_chain_name) && contains_name(
            names,
            l.lane_id.dest_chain_name,
        ) {
            out.push(l);
        }
        i = i + 1;
        assert(rest@ =~= orig.subrange(i as int, orig.len() as int));
    }
    assert(orig.subrange(0, i as int) =~= orig);
    out
}


/// The destination chains of lanes, each once, in the order of their first lane.
pub open spec fn dest_names(ls: Seq<SharedLaneConfig>) -> Seq<ChainName>
    decreases ls.len(),
{
    if ls.len() == 0 {
        seq![]
    } else if dest_names(ls.drop_last()).contains(ls.last().lane_id.dest_chain_name) {
        dest_names(ls.drop_last())
    } else {
        dest_names(ls.drop_last()).push(ls.last().lane_id.dest_chain_name)
    }
}

impl OffchainConfig {
    /// Whether both chains of every enabled lane are enabled.
    pub open spec fn lanes_between_enabled_chains(self) -> bool {
        forall|i: int|
            0 <= i < self.spec_lane_configs().len() ==> {
                let l = #[trigger] self.spec_lane_configs()[i];
                &&& shared_names(self.spec_enabled_chain_configs()).contains(
                    l.lane_id.source_chain_name,
                )
                &&& shared_names(self.spec_enabled_chain_configs()).contains(
                    l.lane_id.dest_chain_name,
                )
            }
    }

    /// Whether the destination chain of every enabled lane is enabled.
    pub open spec fn lane_dests_enabled(self) -> bool {
        forall|i: int|
            0 <= i < self.spec_lane_configs().len() ==> shared_names(
                self.spec_enabled_chain_configs(),
            ).contains((#[trigger] self.spec_lane_configs()[i]).lane_id.dest_chain_name)
    }

    /// The shared entries of the destination chains of the enabled lanes, each
    /// once, in the order of their first lane.
    pub fn dest_chains(&self) -> (r: Vec<SharedChainConfig>)
        requires
            self.lane_dests_enabled(),
        ensures
            r@.len() == dest_names(self.spec_lane_configs()).len(),
            forall|i: int|
                0 <= i < r@.len() ==> (#[trigger] r@[i]).name == dest_names(
                    self.spec_lane_configs(),
                )[i] && self.spec_enabled_chain_configs().contains(r@[i]),
    {
        let lanes = &self.shared_config_by_enabled_lane;
        let chains = &self.shared_config_by_enabled_chain;
        let mut names: Vec<ChainName> = Vec::new();
        let mut r: Vec<SharedChainConfig> = Vec::new();
        let mut i: usize = 0;
        while i < lanes.len()
            invariant
                i <= lanes@.len(),
                self.lane_dests_enabled(),
                lanes == &self.shared_config_by_enabled_lane,
                chains == &self.shared_config_by_enabled_chain,
                names@ == dest_names(lanes@.subrange(0, i as int)),
                r@.len() == names@.len(),
                forall|k: int|
                    0 <= k < r@.len() ==> (#[trigger] r@[k]).name == names@[k]
                        && chains@.contains(r@[k]),
            decreases lanes@.len() - i,
        {
            proof {
                assert(lanes@.subrange(0, i + 1).drop_last() =~= lanes@.subrange(0, i as int));
            }
            let dest = lanes[i].lane_id.dest_chain_name;
            if !contains_name(&names, dest) {
                let c = find_shared(chains, dest);
                match c {
                    Some(c) => {
                        names.push(dest);
                        r.push(c);
                    },
                    None => {
                        proof {
                            assert(shared_names(chains@).contains(dest));
                        }
                    },
                }
            }
            i = i + 1;
        }
        assert(lanes@.subrange(0, lanes@.len() as int) =~= lanes@);
        r
    }

    /// The enabled chains.
    pub fn enabled_chains(&self) -> (r: Vec<ChainName>)
        ensures
            r@ == shared_names(self.spec_enabled_chain_configs()),
            r@.no_duplicates(),
            forall|c: ChainName| #[trigger] r@.contains(c) ==> !shared_names(self.spec_disabled_chain_configs()).contains(c),
    {
        proof {
            use_type_invariant(self);
        }
        names_of_shared(&self.shared_config_by_enabled_chain)
    }

    /// The enabled lanes.
    pub fn enabled_lanes(&self) -> (r: Vec<LaneId>)
        ensures
            key_views(r@) == lane_ids(self.spec_lane_configs()),
    {
        lane_ids_of(&self.shared_config_by_enabled_lane)
    }

    /// The disabled chains.
    /// The names of all chains of the configuration: the enabled ones, then
    /// the disabled ones.
    pub open spec fn all_chain_names(self) -> Seq<ChainName> {
        shared_names(self.spec_enabled_chain_configs()) + shared_names(self.spec_disabled_chain_configs())
    }

    /// All chains of the configuration, enabled ones first, each once.
    pub fn all_chains(&self) -> (r: Vec<ChainName>)
        ensures
            r@ == self.all_chain_names(),
            r@.no_duplicates(),
    {
        proof {
            use_type_invariant(self);
        }
        let mut r = names_of_shared(&self.shared_config_by_enabled_chain);
        let d = names_of_shared(&self.shared_config_by_disabled_chain);
        let ghost e = r@;
        let mut i: usize = 0;
        while i < d.len()
            invariant
                i <= d@.len(),
                r@ == e + d@.subrange(0, i as int),
            decreases d@.len() - i,
        {
            r.push(d[i]);
            i = i + 1;
            assert(r@ =~= e + d@.subrange(0, i as int));
        }
        assert(d@.subrange(0, d@.len() as int) =~= d@);
        proof {
            let en = shared_names(self.spec_enabled_chain_configs());
            let di = shared_names(self.spec_disabled_chain_configs());
            assert forall|a: int, b: int| 0 <= a < r@.len() && 0 <= b < r@.len() && a != b implies r@[a] != r@[b] by {
                if a < en.len() && b < en.len() {
                } else if a >= en.len() && b >= en.len() {
                    assert(r@[a] == di[a - en.len()] && r@[b] == di[b - en.len()]);
                } else if a < en.len() {
                    assert(r@[b] == di[b - en.len()]);
                    assert(en.contains(r@[a]));
                    assert(di.contains(r@[b]));
                } else {
                    assert(r@[a] == di[a - en.len()]);
                    assert(en.contains(r@[b]));
                    assert(di.contains(r@[a]));
                }
            }
        }
        r
    }

    pub fn disabled_chains(&self) -> (r: Vec<ChainName>)
        ensures
            r@ == shared_names(self.spec_disabled_chain_configs()),
            r@.no_duplicates(),
    {
        proof {
            use_type_invariant(self);
        }
        names_of_shared(&self.shared_config_by_disabled_chain)
    }
}

/// The first shared entry for `name`.
fn find_shared(cs: &Vec<SharedChainConfig>, name: ChainName) -> (r: Option<SharedChainConfig>)
    ensures
        match r {
            Some(c) => c.name == name && cs@.contains(c),
            None => !shared_names(cs@).contains(name),
        },
{
    let mut i: usize = 0;
    while i < cs.len()
        invariant
            i <= cs@.len(),
            forall|k: int| 0 <= k < i ==> cs@[k].name != name,
        decreases cs@.len() - i,
    {
        if cs[i].name == name {
            assert(cs@[i as int] == cs[i as int]);
            return Some(cs[i]);
        }
        i = i + 1;
    }
    proof {
        if shared_names(cs@).contains(name) {
            let k = choose|k: int| 0 <= k < shared_names(cs@).len() && shared_names(cs@)[k] == name;
            assert(cs@[k].name == name);
        }
    }
    None
}

proof fn lemma_lanes_within(ls: Seq<SharedLaneConfig>, names: Seq<ChainName>)
    ensures
        forall|i: int|
            0 <= i < lanes_within(ls, names).len() ==> {
                let l = #[trigger] lanes_within(ls, names)[i];
                names.contains(l.lane_id.source_chain_name) && names.contains(
                    l.lane_id.dest_chain_name,
                )
            },
    decreases ls.len(),
{
    if ls.len() > 0 {
        lemma_lanes_within(ls.drop_last(), names);
    }
}

proof fn lemma_shared_split_len(cs: Seq<SharedChainConfig>, names: Seq<ChainName>)
    ensures
        shared_by_names(cs, names, true).len() + shared_by_names(cs, names, false).len() == cs.len(),
    decreases cs.len(),
{
    if cs.len() > 0 {
        lemma_shared_split_len(cs.drop_last(), names);
    }
}

/// A configuration that `new` made joins enabled chains only by its lanes,
/// and splits the shared entries between enabled and disabled chains.
pub proof fn law_config_lanes_and_chains(
    c: OffchainConfig,
    shared: Seq<SharedChainConfig>,
    lanes: Seq<SharedLaneConfig>,
    local: Seq<LocalChainConfig>,
)
    requires
        c.built_from(shared, lanes, local),
    ensures
        c.lanes_between_enabled_chains(),
        c.spec_enabled_chain_configs().len() + c.spec_disabled_chain_configs().len()
            == shared.len(),
{
    let enabled = enabled_local(local);
    lemma_lanes_within(lanes, shared_names(c.spec_enabled_chain_configs()));
    lemma_shared_split_len(shared, local_names(enabled));
}

} // verus!
