use vstd::prelude::*;
use vstd::string::StringSliceAdditionalSpecFns;
use crate::bytes::{BytesDecodeError, Bytes32, SizedBytes};
use crate::common::{ChainName, LaneId, LaneIdV};
use crate::encryption::random_bytes_32;
use crate::offramp_anomaly_detector::{anomaly_eq, OffRampAnomaly};

verus! {

/// The id of a curse.
pub type CurseId = Bytes32;

/// Reads the id of a manual curse: 32 bytes of hexadecimal text, with or
/// without `0x`.
pub fn parse_manual_curse_id(s: &str) -> (r: Result<CurseId, BytesDecodeError>)
    ensures
        crate::hex::hex_decode_spec(s.spec_bytes()) is None ==> r == Err::<CurseId, BytesDecodeError>(
            BytesDecodeError::InvalidHex,
        ),
        crate::hex::hex_decode_spec(s.spec_bytes()) matches Some(b) ==> (if b.len() == 32 {
            r matches Ok(v) && v@ == b
        } else {
            r == Err::<CurseId, BytesDecodeError>(BytesDecodeError::InvalidSize)
        }),
{
    SizedBytes::<32>::from_str(s)
}

/// Something that makes the monitor curse.
#[derive(Debug)]
pub enum CursableAnomaly {
    ManualCurse(CurseId),
    FinalityViolatedLocalCurse(ChainName),
    FinalityViolatedGlobalCurse(ChainName),
    OffRampAnomaly(LaneId, OffRampAnomaly),
}

/// The model of a cursable anomaly.
pub enum CursableAnomalyV {
    ManualCurse(Seq<u8>),
    FinalityViolatedLocalCurse(ChainName),
    FinalityViolatedGlobalCurse(ChainName),
    OffRampAnomaly(LaneIdV, OffRampAnomaly),
}

impl View for CursableAnomaly {
    type V = CursableAnomalyV;

    open spec fn view(&self) -> CursableAnomalyV {
        match self {
            CursableAnomaly::ManualCurse(c) => CursableAnomalyV::ManualCurse(c@),
            CursableAnomaly::FinalityViolatedLocalCurse(c) => CursableAnomalyV::FinalityViolatedLocalCurse(*c),
            CursableAnomaly::FinalityViolatedGlobalCurse(c) => CursableAnomalyV::FinalityViolatedGlobalCurse(*c),
            CursableAnomaly::OffRampAnomaly(l, a) => CursableAnomalyV::OffRampAnomaly(l@, *a),
        }
    }
}

impl Clone for CursableAnomaly {
    fn clone(&self) -> (r: Self)
        ensures
            r@ == self@,
    {
        match self {
            CursableAnomaly::ManualCurse(c) => CursableAnomaly::ManualCurse(*c),
            CursableAnomaly::FinalityViolatedLocalCurse(c) => CursableAnomaly::FinalityViolatedLocalCurse(*c),
            CursableAnomaly::FinalityViolatedGlobalCurse(c) => CursableAnomaly::FinalityViolatedGlobalCurse(*c),
            CursableAnomaly::OffRampAnomaly(l, a) => CursableAnomaly::OffRampAnomaly(l.clone(), *a),
        }
    }
}

/// Whether an anomaly curses `chain`: a local finality violation curses its
/// own chain only, every other anomaly curses every chain.
pub open spec fn chain_is_cursed_spec(a: CursableAnomalyV, chain: ChainName) -> bool {
    match a {
        CursableAnomalyV::FinalityViolatedLocalCurse(c) => c == chain,
        _ => true,
    }
}

/// Whether an anomaly curses a lane: it curses its source or destination.
pub open spec fn lane_is_cursed_spec(a: CursableAnomalyV, lane: LaneIdV) -> bool {
    chain_is_cursed_spec(a, lane.source_chain_name) || chain_is_cursed_spec(a, lane.dest_chain_name)
}

impl CursableAnomaly {
    /// Whether the two anomalies are the same.
    pub fn same_as(&self, other: &CursableAnomaly) -> (r: bool)
        ensures
            r == (self@ == other@),
    {
        match (self, other) {
            (CursableAnomaly::ManualCurse(a), CursableAnomaly::ManualCurse(b)) => *a == *b,
            (
                CursableAnomaly::FinalityViolatedLocalCurse(a),
                CursableAnomaly::FinalityViolatedLocalCurse(b),
            ) => *a == *b,
            (
                CursableAnomaly::FinalityViolatedGlobalCurse(a),
                CursableAnomaly::FinalityViolatedGlobalCurse(b),
            ) => *a == *b,
            (CursableAnomaly::OffRampAnomaly(l1, a1), CursableAnomaly::OffRampAnomaly(l2, a2)) => {
                l1.same_as(l2) && anomaly_eq(a1, a2)
            },
            _ => false,
        }
    }

    /// Whether the anomaly curses `chain`.
    pub fn chain_is_cursed(&self, chain: ChainName) -> (r: bool)
        ensures
            r == chain_is_cursed_spec(self@, chain),
    {
        match self {
            CursableAnomaly::FinalityViolatedLocalCurse(c) => *c == chain,
            _ => true,
        }
    }

    /// Whether the anomaly curses the lane `lane_id`.
    pub fn lane_is_cursed(&self, lane_id: &LaneId) -> (r: bool)
        ensures
            r == lane_is_cursed_spec(self@, lane_id@),
    {
        self.chain_is_cursed(lane_id.source_chain_name) || self.chain_is_cursed(
            lane_id.dest_chain_name,
        )
    }
}

/// The anomalies with the ids of their curses, as a map.
pub open spec fn anomaly_map(es: Seq<(CursableAnomalyV, Seq<u8>)>) -> Map<CursableAnomalyV, Seq<u8>>
    decreases es.len(),
{
    if es.len() == 0 {
        Map::empty()
    } else {
        anomaly_map(es.drop_last()).insert(es.last().0, es.last().1)
    }
}

/// Whether no anomaly comes twice.
pub open spec fn unique_anomalies(es: Seq<(CursableAnomalyV, Seq<u8>)>) -> bool {
    forall|i: int, j: int| 0 <= i < j < es.len() ==> es[i].0 != es[j].0
}

proof fn lemma_anomaly_map(es: Seq<(CursableAnomalyV, Seq<u8>)>)
    requires
        unique_anomalies(es),
    ensures
        forall|k: CursableAnomalyV|
            #[trigger] anomaly_map(es).contains_key(k) <==> exists|i: int|
                0 <= i < es.len() && es[i].0 == k,
        forall|i: int| 0 <= i < es.len() ==> anomaly_map(es)[#[trigger] es[i].0] == es[i].1,
    decreases es.len(),
{
    if es.len() > 0 {
        let p = es.drop_last();
        assert(unique_anomalies(p));
        lemma_anomaly_map(p);
        assert forall|k: CursableAnomalyV| #[trigger] anomaly_map(es).contains_key(k) <==> exists|i: int|
            0 <= i < es.len() && es[i].0 == k by {
            if anomaly_map(p).contains_key(k) {
                let i = choose|i: int| 0 <= i < p.len() && p[i].0 == k;
                assert(es[i].0 == k);
            }
            if exists|i: int| 0 <= i < es.len() && es[i].0 == k {
                let i = choose|i: int| 0 <= i < es.len() && es[i].0 == k;
                if i < p.len() {
                    assert(p[i].0 == k);
                }
            }
        }
        assert forall|i: int| 0 <= i < es.len() implies anomaly_map(es)[#[trigger] es[i].0] == es[i].1 by {
            if i < p.len() {
                assert(p[i] == es[i]);
                assert(es[i].0 != es.last().0);
            }
        }
    }
}

/// The anomalies noted so far, each with the id of its curse.
#[derive(Debug)]
pub struct CursableAnomaliesWithCurseIds {
    entries: Vec<(CursableAnomaly, CurseId)>,
}

impl CursableAnomaliesWithCurseIds {
    /// The entries, as models.
    pub closed spec fn entries_view(&self) -> Seq<(CursableAnomalyV, Seq<u8>)> {
        Seq::new(self.entries@.len(), |i: int| (self.entries@[i].0@, self.entries@[i].1@))
    }

    /// Whether no anomaly comes twice.
    pub closed spec fn wf(&self) -> bool {
        unique_anomalies(self.entries_view())
    }
}

impl View for CursableAnomaliesWithCurseIds {
    type V = Map<CursableAnomalyV, Seq<u8>>;

    closed spec fn view(&self) -> Map<CursableAnomalyV, Seq<u8>> {
        anomaly_map(self.entries_view())
    }
}

/// Why a curse id could not be made: no random bytes were to be had.
#[derive(Debug, Clone, Copy, PartialEq, Eq, Structural)]
pub struct CurseIdUnavailable;

impl CursableAnomaliesWithCurseIds {
    /// No anomaly.
    pub fn new() -> (r: Self)
        ensures
            r.wf(),
            r@ == Map::<CursableAnomalyV, Seq<u8>>::empty(),
    {
        let r = CursableAnomaliesWithCurseIds { entries: Vec::new() };
        assert(r.entries_view() =~= Seq::<(CursableAnomalyV, Seq<u8>)>::empty());
        r
    }

    /// The index of the entry of `anomaly`, where there is one.
    fn find(&self, anomaly: &CursableAnomaly) -> (r: Option<usize>)
        requires
            self.wf(),
        ensures
            match r {
                Some(i) => i < self.entries_view().len() && self.entries_view()[i as int].0
                    == anomaly@,
                None => !self@.contains_key(anomaly@),
            },
    {
        proof {
            lemma_anomaly_map(self.entries_view());
        }
        let mut i: usize = 0;
        while i < self.entries.len()
            invariant
                i <= self.entries@.len(),
                forall|k: int| 0 <= k < i ==> self.entries_view()[k].0 != anomaly@,
            decreases self.entries@.len() - i,
        {
            if self.entries[i].0.same_as(anomaly) {
                return Some(i);
            }
            i = i + 1;
        }
        None
    }

    /// Whether no anomaly is noted.
    pub fn is_empty(&self) -> (r: bool)
        requires
            self.wf(),
        ensures
            r == (self@.dom() =~= Set::<CursableAnomalyV>::empty()),
    {
        proof {
            lemma_anomaly_map(self.entries_view());
            if self.entries@.len() > 0 {
                assert(self@.contains_key(self.entries_view()[0].0));
            }
        }
        self.entries.len() == 0
    }

    /// Whether a noted anomaly curses the lane `lane_id`.
    pub fn curses_lane(&self, lane_id: &LaneId) -> (r: bool)
        requires
            self.wf(),
        ensures
            r == exists|a: CursableAnomalyV|
                #[trigger] self@.contains_key(a) && lane_is_cursed_spec(a, lane_id@),
    {
        proof {
            lemma_anomaly_map(self.entries_view());
        }
        let mut i: usize = 0;
        while i < self.entries.len()
            invariant
                i <= self.entries@.len(),
                self.wf(),
                forall|k: int| 0 <= k < i ==> !lane_is_cursed_spec(#[trigger] self.entries_view()[k].0, lane_id@),
            decreases self.entries@.len() - i,
        {
            if self.entries[i].0.lane_is_cursed(lane_id) {
                proof {
                    lemma_anomaly_map(self.entries_view());
                    assert(self.entries_view()[i as int].0 == self.entries@[i as int].0@);
                }
                assert(self@.contains_key(self.entries_view()[i as int].0));
                return true;
            }
            i = i + 1;
        }
        proof {
            if exists|a: CursableAnomalyV| #[trigger] self@.contains_key(a) && lane_is_cursed_spec(a, lane_id@) {
                let a = choose|a: CursableAnomalyV| #[trigger] self@.contains_key(a) && lane_is_cursed_spec(a, lane_id@);
                let k = choose|k: int| 0 <= k < self.entries_view().len() && self.entries_view()[k].0 == a;
            }
        }
        false
    }

    /// The noted anomalies that curse `chain`, each with its curse id.
    pub fn for_chain(&self, chain: ChainName) -> (r: Vec<(CursableAnomaly, CurseId)>)
        requires
            self.wf(),
        ensures
            forall|i: int|
                0 <= i < r@.len() ==> self@.contains_key((#[trigger] r@[i]).0@) && self@[r@[i].0@]
                    == r@[i].1@ && chain_is_cursed_spec(r@[i].0@, chain),
            forall|a: CursableAnomalyV|
                #[trigger] self@.contains_key(a) && chain_is_cursed_spec(a, chain) ==> exists|i: int|
                    0 <= i < r@.len() && r@[i].0@ == a,
            forall|i: int, j: int| 0 <= i < j < r@.len() ==> (#[trigger] r@[i]).0@ != (#[trigger] r@[j]).0@,
    {
        proof {
            lemma_anomaly_map(self.entries_view());
        }
        let mut r: Vec<(CursableAnomaly, CurseId)> = Vec::new();
        let ghost mut idx: Seq<int> = seq![];
        let mut i: usize = 0;
        while i < self.entries.len()
            invariant
                i <= self.entries@.len(),
                self.wf(),
                idx.len() == r@.len(),
                forall|j: int| 0 <= j < idx.len() ==> 0 <= #[trigger] idx[j] < i && r@[j].0@ == self.entries_view()[idx[j]].0,
                forall|a: int, b: int| 0 <= a < b < idx.len() ==> #[trigger] idx[a] < #[trigger] idx[b],
                forall|j: int|
                    0 <= j < r@.len() ==> self@.contains_key((#[trigger] r@[j]).0@) && self@[r@[j].0@]
                        == r@[j].1@ && chain_is_cursed_spec(r@[j].0@, chain),
                forall|k: int|
                    0 <= k < i && chain_is_cursed_spec(#[trigger] self.entries_view()[k].0, chain)
                        ==> exists|j: int| 0 <= j < r@.len() && r@[j].0@ == self.entries_view()[k].0,
            decreases self.entries@.len() - i,
        {
            if self.entries[i].0.chain_is_cursed(chain) {
                let a = self.entries[i].0.clone();
                let id = self.entries[i].1;
                let ghost r0 = r@;
                r.push((a, id));
                proof {
                    let ev = self.entries_view();
                    lemma_anomaly_map(ev);
                    assert(ev[i as int] == (self.entries@[i as int].0@, self.entries@[i as int].1@));
                    assert(self@.contains_key(ev[i as int].0));
                    assert(r@[r@.len() - 1].0@ == ev[i as int].0);
                    assert forall|k: int|
                        0 <= k < i + 1 && chain_is_cursed_spec(#[trigger] ev[k].0, chain) implies exists|j: int|
                            0 <= j < r@.len() && r@[j].0@ == ev[k].0 by {
                        if k < i {
                            let j = choose|j: int| 0 <= j < r0.len() && r0[j].0@ == ev[k].0;
                            assert(r@[j] == r0[j]);
                        } else {
                            assert(r@[r0.len() as int].0@ == ev[k].0);
                        }
                    }
                    idx = idx.push(i as int);
                    assert forall|j: int| 0 <= j < idx.len() implies 0 <= #[trigger] idx[j] < i + 1 && r@[j].0@ == ev[idx[j]].0 by {
                        if j < r0.len() {
                            assert(r@[j] == r0[j]);
                        }
                    }
                }
            }
            i = i + 1;
        }
        proof {
            let ev = self.entries_view();
            assert forall|a: int, b: int| 0 <= a < b < r@.len() implies (#[trigger] r@[a]).0@ != (#[trigger] r@[b]).0@ by {
                assert(idx[a] < idx[b]);
                assert(ev[idx[a]].0 != ev[idx[b]].0);
            }
            assert forall|a: CursableAnomalyV|
                #[trigger] self@.contains_key(a) && chain_is_cursed_spec(a, chain) implies exists|i: int|
                    0 <= i < r@.len() && r@[i].0@ == a by {
                let k = choose|k: int| 0 <= k < self.entries_view().len() && self.entries_view()[k].0 == a;
                assert(chain_is_cursed_spec(self.entries_view()[k].0, chain));
            }
        }
        r
    }

    /// Notes `anomaly` with a new curse id, unless it is noted already: a
    /// manual curse brings its own id, any other gets random bytes.
    pub fn note(&mut self, anomaly: CursableAnomaly) -> (r: Result<(), CurseIdUnavailable>)
        requires
            old(self).wf(),
        ensures
            final(self).wf(),
            old(self)@.contains_key(anomaly@) ==> r is Ok && final(self)@ == old(self)@,
            !old(self)@.contains_key(anomaly@) ==> match r {
                Ok(()) => {
                    &&& final(self)@.dom() == old(self)@.dom().insert(anomaly@)
                    &&& forall|a: CursableAnomalyV|
                        #[trigger] old(self)@.contains_key(a) ==> final(self)@[a] == old(self)@[a]
                    &&& anomaly matches CursableAnomaly::ManualCurse(c) ==> final(self)@[anomaly@]
                        == c@
                },
                Err(_) => final(self)@ == old(self)@ && !(anomaly is ManualCurse),
            },
    {
        if self.find(&anomaly).is_some() {
            proof {
                lemma_anomaly_map(self.entries_view());
            }
            return Ok(());
        }
        let curse_id = match anomaly {
            CursableAnomaly::ManualCurse(c) => c,
            _ => match random_bytes_32() {
                Some(bytes) => SizedBytes(bytes),
                None => return Err(CurseIdUnavailable),
            },
        };
        let ghost ev0 = self.entries_view();
        let ghost av = anomaly@;
        self.entries.push((anomaly, curse_id));
        proof {
            assert(self.entries_view() =~= ev0.push((av, curse_id@)));
            assert(self.entries_view().drop_last() =~= ev0);
            lemma_anomaly_map(ev0);
            assert(unique_anomalies(self.entries_view())) by {
                assert forall|i: int, j: int| 0 <= i < j < self.entries_view().len() implies self.entries_view()[i].0 != self.entries_view()[j].0 by {
                    if j == ev0.len() {
                        assert(ev0[i].0 != av);
                    }
                }
            }
            assert(self@.dom() =~= old(self)@.dom().insert(av));
        }
        Ok(())
    }
}

/// The anomaly that a finality violation on `chain` is: a global one where
/// `chain` is among `global_chains`.
pub open spec fn finality_anomaly(chain: ChainName, global_chains: Seq<ChainName>) -> CursableAnomalyV {
    if global_chains.contains(chain) {
        CursableAnomalyV::FinalityViolatedGlobalCurse(chain)
    } else {
        CursableAnomalyV::FinalityViolatedLocalCurse(chain)
    }
}

/// The anomalies that an update notes: a finality violation of each chain in
/// `violated`, and each off-ramp anomaly of a lane.
pub open spec fn update_anomalies(
    violated: Seq<ChainName>,
    global_chains: Seq<ChainName>,
    offramp: Seq<(LaneIdV, OffRampAnomaly)>,
) -> Set<CursableAnomalyV> {
    Set::new(
        |a: CursableAnomalyV|
            (exists|i: int|
                0 <= i < violated.len() && a == finality_anomaly(#[trigger] violated[i], global_chains))
                || (exists|i: int|
                0 <= i < offramp.len() && a == CursableAnomalyV::OffRampAnomaly(
                    (#[trigger] offramp[i]).0,
                    offramp[i].1,
                )),
    )
}

/// The models of the lanes and anomalies of off-ramps.
pub open spec fn offramp_views(xs: Seq<(LaneId, OffRampAnomaly)>) -> Seq<(LaneIdV, OffRampAnomaly)> {
    Seq::new(xs.len(), |i: int| (xs[i].0@, xs[i].1))
}

/// What curses the monitor: the anomalies noted so far, with their curse ids.
#[derive(Debug)]
pub struct CurseBeacon {
    pub finality_violation_global_curse_chains: Vec<ChainName>,
    pub cursable_anomalies: CursableAnomaliesWithCurseIds,
}

impl CurseBeacon {
    /// A beacon with no anomaly, whose finality violations on
    /// `finality_violation_global_curse_chains` curse every chain.
    pub fn new(finality_violation_global_curse_chains: Vec<ChainName>) -> (r: Self)
        ensures
            r.cursable_anomalies.wf(),
            r.cursable_anomalies@ == Map::<CursableAnomalyV, Seq<u8>>::empty(),
            r.finality_violation_global_curse_chains@ == finality_violation_global_curse_chains@,
    {
        CurseBeacon {
            finality_violation_global_curse_chains,
            cursable_anomalies: CursableAnomaliesWithCurseIds::new(),
        }
    }

    /// Notes the finality violations of the chains `finality_violated_chains`
    /// and the anomalies `offramp_anomalies` of off-ramps; the anomalies noted
    /// before keep their curse ids.
    pub fn update(
        &mut self,
        finality_violated_chains: &[ChainName],
        offramp_anomalies: &[(LaneId, OffRampAnomaly)],
    ) -> (r: Result<(), CurseIdUnavailable>)
        requires
            old(self).cursable_anomalies.wf(),
        ensures
            final(self).cursable_anomalies.wf(),
            final(self).finality_violation_global_curse_chains@ == old(self).finality_violation_global_curse_chains@,
            forall|a: CursableAnomalyV|
                #[trigger] old(self).cursable_anomalies@.contains_key(a) ==> final(self).cursable_anomalies@.contains_key(a) && final(self).cursable_anomalies@[a] == old(self).cursable_anomalies@[a],
            final(self).cursable_anomalies@.dom() <= old(self).cursable_anomalies@.dom()
                + update_anomalies(
                finality_violated_chains@,
                old(self).finality_violation_global_curse_chains@,
                offramp_views(offramp_anomalies@),
            ),
            r is Ok ==> final(self).cursable_anomalies@.dom() == old(self).cursable_anomalies@.dom()
                + update_anomalies(
                finality_violated_chains@,
                old(self).finality_violation_global_curse_chains@,
                offramp_views(offramp_anomalies@),
            ),
            update_anomalies(
                finality_violated_chains@,
                old(self).finality_violation_global_curse_chains@,
                offramp_views(offramp_anomalies@),
            ).subset_of(old(self).cursable_anomalies@.dom()) ==> r is Ok && final(self).cursable_anomalies@
                == old(self).cursable_anomalies@,
    {
        let ghost d0 = self.cursable_anomalies@.dom();
        let ghost m0 = self.cursable_anomalies@;
        let ghost globals = self.finality_violation_global_curse_chains@;
        let ghost vs = finality_violated_chains@;
        let ghost os = offramp_views(offramp_anomalies@);
        let mut i: usize = 0;
        while i < finality_violated_chains.len()
            invariant
                i <= vs.len(),
                vs == finality_violated_chains@,
                os == offramp_views(offramp_anomalies@),
                globals == self.finality_violation_global_curse_chains@,
                globals == old(self).finality_violation_global_curse_chains@,
                m0 == old(self).cursable_anomalies@,
                d0 == m0.dom(),
                self.cursable_anomalies.wf(),
                forall|a: CursableAnomalyV|
                    #[trigger] m0.contains_key(a) ==> self.cursable_anomalies@.contains_key(a)
                        && self.cursable_anomalies@[a] == m0[a],
                self.cursable_anomalies@.dom() == d0 + Set::new(
                    |a: CursableAnomalyV|
                        exists|j: int| 0 <= j < i && a == finality_anomaly(#[trigger] vs[j], globals),
                ),
            decreases vs.len() - i,
        {
            let chain = finality_violated_chains[i];
            let global = contains_chain(&self.finality_violation_global_curse_chains, chain);
            let anomaly = if global {
                CursableAnomaly::FinalityViolatedGlobalCurse(chain)
            } else {
                CursableAnomaly::FinalityViolatedLocalCurse(chain)
            };
            let ghost before = self.cursable_anomalies@;
            let ghost av = anomaly@;
            match self.cursable_anomalies.note(anomaly) {
                Ok(()) => {},
                Err(e) => {
                    proof {
                        if update_anomalies(vs, globals, os).subset_of(d0) {
                            assert(av == finality_anomaly(vs[i as int], globals));
                            assert(update_anomalies(vs, globals, os).contains(av));
                            assert(m0.contains_key(av));
                            assert(before.contains_key(av));
                        }
                        let fset = Set::new(
                            |a: CursableAnomalyV|
                                exists|j: int| 0 <= j < vs.len() && a == finality_anomaly(#[trigger] vs[j], globals),
                        );
                        let oset = Set::new(
                            |a: CursableAnomalyV|
                                exists|j: int|
                                    0 <= j < os.len() && a == CursableAnomalyV::OffRampAnomaly(
                                        (#[trigger] os[j]).0,
                                        os[j].1,
                                    ),
                        );
                        assert(update_anomalies(vs, globals, os) =~= fset + oset);
                        assert forall|a: CursableAnomalyV| #[trigger] self.cursable_anomalies@.dom().contains(a) implies (d0 + fset + oset).contains(a) by {
                            if !d0.contains(a) {
                                let j = choose|j: int| 0 <= j < i && a == finality_anomaly(#[trigger] vs[j], globals);
                                assert(fset.contains(a));
                            }
                        }
                    }
                    return Err(e);
                },
            }
            proof {
                let next = Set::new(
                    |a: CursableAnomalyV|
                        exists|j: int| 0 <= j < i + 1 && a == finality_anomaly(#[trigger] vs[j], globals),
                );
                let prev = Set::new(
                    |a: CursableAnomalyV|
                        exists|j: int| 0 <= j < i && a == finality_anomaly(#[trigger] vs[j], globals),
                );
                assert(next =~= prev.insert(finality_anomaly(vs[i as int], globals)));
                assert(self.cursable_anomalies@.dom() =~= d0 + next);
            }
            i = i + 1;
        }
        let ghost d1 = self.cursable_anomalies@.dom();
        let mut k: usize = 0;
        while k < offramp_anomalies.len()
            invariant
                k <= os.len(),
                vs == finality_violated_chains@,
                os == offramp_views(offramp_anomalies@),
                globals == self.finality_violation_global_curse_chains@,
                globals == old(self).finality_violation_global_curse_chains@,
                m0 == old(self).cursable_anomalies@,
                d0 == m0.dom(),
                self.cursable_anomalies.wf(),
                forall|a: CursableAnomalyV|
                    #[trigger] m0.contains_key(a) ==> self.cursable_anomalies@.contains_key(a)
                        && self.cursable_anomalies@[a] == m0[a],
                d1 == d0 + Set::new(
                    |a: CursableAnomalyV|
                        exists|j: int| 0 <= j < vs.len() && a == finality_anomaly(#[trigger] vs[j], globals),
                ),
                self.cursable_anomalies@.dom() == d1 + Set::new(
                    |a: CursableAnomalyV|
                        exists|j: int|
                            0 <= j < k && a == CursableAnomalyV::OffRampAnomaly(
                                (#[trigger] os[j]).0,
                                os[j].1,
                            ),
                ),
            decreases os.len() - k,
        {
            let anomaly = CursableAnomaly::OffRampAnomaly(
                offramp_anomalies[k].0.clone(),
                offramp_anomalies[k].1,
            );
            let ghost before = self.cursable_anomalies@;
            let ghost prev_dom = self.cursable_anomalies@.dom();
            let ghost av = anomaly@;
            match self.cursable_anomalies.note(anomaly) {
                Ok(()) => {},
                Err(e) => {
                    proof {
                        if update_anomalies(vs, globals, os).subset_of(d0) {
                            assert(os[k as int] == (offramp_anomalies@[k as int].0@, offramp_anomalies@[k as int].1));
                            assert(av == CursableAnomalyV::OffRampAnomaly(os[k as int].0, os[k as int].1));
                            assert(update_anomalies(vs, globals, os).contains(av));
                            assert(m0.contains_key(av));
                            assert(before.contains_key(av));
                        }
                        let full = d1 + Set::new(
                            |a: CursableAnomalyV|
                                exists|j: int|
                                    0 <= j < os.len() && a == CursableAnomalyV::OffRampAnomaly(
                                        (#[trigger] os[j]).0,
                                        os[j].1,
                                    ),
                        );
                        assert(self.cursable_anomalies@.dom() <= full) by {
                            assert forall|a: CursableAnomalyV| #[trigger] self.cursable_anomalies@.dom().contains(a) implies full.contains(a) by {
                                if !d1.contains(a) {
                                    let j = choose|j: int|
                                        0 <= j < k && a == CursableAnomalyV::OffRampAnomaly(
                                            (#[trigger] os[j]).0,
                                            os[j].1,
                                        );
                                }
                            }
                        }
                        assert(update_anomalies(vs, globals, os) =~= Set::new(
                            |a: CursableAnomalyV|
                                exists|j: int| 0 <= j < vs.len() && a == finality_anomaly(#[trigger] vs[j], globals),
                        ) + Set::new(
                            |a: CursableAnomalyV|
                                exists|j: int|
                                    0 <= j < os.len() && a == CursableAnomalyV::OffRampAnomaly(
                                        (#[trigger] os[j]).0,
                                        os[j].1,
                                    ),
                        ));
                    }
                    return Err(e);
                },
            }
            proof {
                let next = Set::new(
                    |a: CursableAnomalyV|
                        exists|j: int|
                            0 <= j < k + 1 && a == CursableAnomalyV::OffRampAnomaly(
                                (#[trigger] os[j]).0,
                                os[j].1,
                            ),
                );
                let prev = Set::new(
                    |a: CursableAnomalyV|
                        exists|j: int|
                            0 <= j < k && a == CursableAnomalyV::OffRampAnomaly(
                                (#[trigger] os[j]).0,
                                os[j].1,
                            ),
                );
                assert(os[k as int] == (offramp_anomalies@[k as int].0@, offramp_anomalies@[k as int].1));
                assert(next =~= prev.insert(CursableAnomalyV::OffRampAnomaly(os[k as int].0, os[k as int].1)));
                assert(self.cursable_anomalies@.dom() =~= d1 + next);
            }
            k = k + 1;
        }
        proof {
            assert(update_anomalies(vs, globals, os) =~= Set::new(
                |a: CursableAnomalyV|
                    exists|j: int| 0 <= j < vs.len() && a == finality_anomaly(#[trigger] vs[j], globals),
            ) + Set::new(
                |a: CursableAnomalyV|
                    exists|j: int|
                        0 <= j < os.len() && a == CursableAnomalyV::OffRampAnomaly(
                            (#[trigger] os[j]).0,
                            os[j].1,
                        ),
            ));
            if update_anomalies(vs, globals, os).subset_of(d0) {
                assert(self.cursable_anomalies@.dom() =~= d0);
                assert(self.cursable_anomalies@ =~= m0);
            }
        }
        Ok(())
    }

    /// Whether any anomaly is noted.
    pub fn is_cursed(&self) -> (r: bool)
        requires
            self.cursable_anomalies.wf(),
        ensures
            r == !(self.cursable_anomalies@.dom() =~= Set::<CursableAnomalyV>::empty()),
    {
        !self.cursable_anomalies.is_empty()
    }

    /// Whether a noted anomaly curses the lane `lane_id`.
    pub fn lane_is_cursed(&self, lane_id: &LaneId) -> (r: bool)
        requires
            self.cursable_anomalies.wf(),
        ensures
            r == exists|a: CursableAnomalyV|
                #[trigger] self.cursable_anomalies@.contains_key(a) && lane_is_cursed_spec(a, lane_id@),
    {
        self.cursable_anomalies.curses_lane(lane_id)
    }

    /// The noted anomalies that curse `chain`, each with its curse id.
    pub fn get_anomalies_and_curse_ids_for_chain(&self, chain: ChainName) -> (r: Vec<(CursableAnomaly, CurseId)>)
        requires
            self.cursable_anomalies.wf(),
        ensures
            forall|i: int|
                0 <= i < r@.len() ==> self.cursable_anomalies@.contains_key((#[trigger] r@[i]).0@)
                    && self.cursable_anomalies@[r@[i].0@] == r@[i].1@ && chain_is_cursed_spec(r@[i].0@, chain),
            forall|a: CursableAnomalyV|
                #[trigger] self.cursable_anomalies@.contains_key(a) && chain_is_cursed_spec(a, chain) ==> exists|i: int|
                    0 <= i < r@.len() && r@[i].0@ == a,
            forall|i: int, j: int| 0 <= i < j < r@.len() ==> (#[trigger] r@[i]).0@ != (#[trigger] r@[j]).0@,
    {
        self.cursable_anomalies.for_chain(chain)
    }
}

fn contains_chain(chains: &Vec<ChainName>, chain: ChainName) -> (r: bool)
    ensures
        r == chains@.contains(chain),
{
    let mut i: usize = 0;
    while i < chains.len()
        invariant
            i <= chains@.len(),
            forall|k: int| 0 <= k < i ==> chains@[k] != chain,
        decreases chains@.len() - i,
    {
        if chains[i] == chain {
            return true;
        }
        i = i + 1;
    }
    false
}

/// An anomaly curses a lane exactly when it curses the lane's source chain or
/// its destination chain; so a local finality violation of either end of a
/// lane curses the lane.
pub proof fn law_lane_cursed_by_either_end(a: CursableAnomalyV, lane: LaneIdV)
    ensures
        chain_is_cursed_spec(a, lane.source_chain_name) ==> lane_is_cursed_spec(a, lane),
        chain_is_cursed_spec(a, lane.dest_chain_name) ==> lane_is_cursed_spec(a, lane),
        lane_is_cursed_spec(a, lane) ==> chain_is_cursed_spec(a, lane.source_chain_name)
            || chain_is_cursed_spec(a, lane.dest_chain_name),
        lane_is_cursed_spec(
            CursableAnomalyV::FinalityViolatedLocalCurse(lane.source_chain_name),
            lane,
        ),
        lane_is_cursed_spec(CursableAnomalyV::FinalityViolatedLocalCurse(lane.dest_chain_name), lane),
{
}

/// A local finality violation curses its own chain and no other; every other
/// anomaly curses every chain.
pub proof fn law_local_curse_is_local(a: CursableAnomalyV, chain: ChainName)
    ensures
        chain_is_cursed_spec(CursableAnomalyV::FinalityViolatedLocalCurse(chain), chain),
        (a matches CursableAnomalyV::FinalityViolatedLocalCurse(c) && c != chain) ==> !chain_is_cursed_spec(
            a,
            chain,
        ),
        !(a is FinalityViolatedLocalCurse) ==> chain_is_cursed_spec(a, chain),
{
}

/// A curse is never lifted: when every anomaly of `before` stays in `after`
/// with its curse id (as `CurseBeacon::update` ensures), a beacon that was
/// cursed stays cursed, and so does every lane that was cursed.
pub proof fn law_curses_are_never_lifted(
    before: Map<CursableAnomalyV, Seq<u8>>,
    after: Map<CursableAnomalyV, Seq<u8>>,
    lane: LaneIdV,
)
    requires
        forall|a: CursableAnomalyV|
            #[trigger] before.contains_key(a) ==> after.contains_key(a) && after[a] == before[a],
    ensures
        !(before.dom() =~= Set::<CursableAnomalyV>::empty()) ==> !(after.dom() =~= Set::<
            CursableAnomalyV,
        >::empty()),
        (exists|a: CursableAnomalyV| #[trigger] before.contains_key(a) && lane_is_cursed_spec(a, lane))
            ==> (exists|a: CursableAnomalyV| #[trigger] after.contains_key(a) && lane_is_cursed_spec(a, lane)),
{
    if !(before.dom() =~= Set::<CursableAnomalyV>::empty()) {
        let a = choose|a: CursableAnomalyV| before.dom().contains(a) != Set::<CursableAnomalyV>::empty().contains(a);
        assert(after.contains_key(a));
        assert(!Set::<CursableAnomalyV>::empty().contains(a));
    }
    if exists|a: CursableAnomalyV| #[trigger] before.contains_key(a) && lane_is_cursed_spec(a, lane) {
        let a = choose|a: CursableAnomalyV| #[trigger] before.contains_key(a) && lane_is_cursed_spec(a, lane);
        assert(after.contains_key(a));
    }
}

} // verus!
