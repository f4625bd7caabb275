use vstd::prelude::*;
use crate::bitset::{bitset_contains, bitset_contents};
use crate::bytes::{lemma_sized_bytes_ext, Bytes32};
use crate::contract_event_state_machine::{
    message_hash_spec, DestOffRampState, OffRampStateAnomaly, SourceBlessState,
};
use crate::evm2evm_offramp::MessageId;

verus! {

broadcast use vstd::std_specs::btree::group_btree_axioms;

/// Something wrong with the executions of an off-ramp.
#[derive(Clone, Copy, Debug, PartialEq, Eq, Hash)]
pub enum OffRampAnomaly {
    /// The off-ramp's own events show it.
    Local(OffRampStateAnomaly),
    /// A message was executed that the source did not send, or with another id.
    FalseExecution { seq_nr: u64, src_message_id: Option<MessageId>, dest_message_id: MessageId },
}

fn bytes32_eq(a: &Bytes32, b: &Bytes32) -> (r: bool)
    ensures
        r == (*a == *b),
{
    let e = *a == *b;
    proof {
        if e {
            lemma_sized_bytes_ext(*a, *b);
        }
    }
    e
}

fn opt_bytes32_eq(a: &Option<Bytes32>, b: &Option<Bytes32>) -> (r: bool)
    ensures
        r == (*a == *b),
{
    match (a, b) {
        (Some(x), Some(y)) => bytes32_eq(x, y),
        (None, None) => true,
        _ => false,
    }
}

fn state_anomaly_eq(a: &OffRampStateAnomaly, b: &OffRampStateAnomaly) -> (r: bool)
    ensures
        r == (*a == *b),
{
    match (a, b) {
        (
            OffRampStateAnomaly::DoubleExecution {
                seq_nr: s1,
                old_message_id: o1,
                new_message_id: n1,
                new_state: t1,
            },
            OffRampStateAnomaly::DoubleExecution {
                seq_nr: s2,
                old_message_id: o2,
                new_message_id: n2,
                new_state: t2,
            },
        ) => *s1 == *s2 && opt_bytes32_eq(o1, o2) && bytes32_eq(n1, n2) && *t1 == *t2,
        (
            OffRampStateAnomaly::InvalidMessageState { seq_nr: s1, message_id: m1, state: t1 },
            OffRampStateAnomaly::InvalidMessageState { seq_nr: s2, message_id: m2, state: t2 },
        ) => *s1 == *s2 && bytes32_eq(m1, m2) && *t1 == *t2,
        _ => false,
    }
}

/// Whether two anomalies are the same.
pub fn anomaly_eq(a: &OffRampAnomaly, b: &OffRampAnomaly) -> (r: bool)
    ensures
        r == (*a == *b),
{
    match (a, b) {
        (OffRampAnomaly::Local(x), OffRampAnomaly::Local(y)) => state_anomaly_eq(x, y),
        (
            OffRampAnomaly::FalseExecution {
                seq_nr: s1,
                src_message_id: a1,
                dest_message_id: d1,
            },
            OffRampAnomaly::FalseExecution {
                seq_nr: s2,
                src_message_id: a2,
                dest_message_id: d2,
            },
        ) => *s1 == *s2 && opt_bytes32_eq(a1, a2) && bytes32_eq(d1, d2),
        _ => false,
    }
}

/// What the anomaly detector of a lane found so far.
#[derive(Clone, Debug)]
pub struct OffRampAnomalyDetectorState {
    pub anomalies: Vec<OffRampAnomaly>,
    pub seq_nrs_with_reapable_msg_ids: Vec<u64>,
    pub last_checked: Option<u64>,
}

/// The anomaly that the execution of message `seq_nr` with id `id` shows,
/// given the source's stable and unstable message hashes and whether each is
/// synced.
pub open spec fn false_execution(
    seq_nr: u64,
    id: Bytes32,
    source_unstable: SourceBlessState,
    source_unstable_synced: bool,
    source_stable: SourceBlessState,
    source_stable_synced: bool,
) -> Option<OffRampAnomaly> {
    match message_hash_spec(source_stable.seq_nrs_and_message_hashes@, seq_nr) {
        Some(i) => {
            let h = source_stable.seq_nrs_and_message_hashes@[i].1;
            if h@ != id@ {
                Some(
                    OffRampAnomaly::FalseExecution {
                        seq_nr,
                        src_message_id: Some(h),
                        dest_message_id: id,
                    },
                )
            } else {
                None
            }
        },
        None => if source_unstable_synced && message_hash_spec(
            source_unstable.seq_nrs_and_message_hashes@,
            seq_nr,
        ) is None && source_stable_synced {
            Some(
                OffRampAnomaly::FalseExecution { seq_nr, src_message_id: None, dest_message_id: id },
            )
        } else {
            None
        },
    }
}

/// Whether the message id of `seq_nr` may be forgotten: the source agrees on
/// it and the stable destination executed it successfully.
pub open spec fn reapable(seq_nr: u64, id: Bytes32, source_stable: SourceBlessState, dest_stable: DestOffRampState) -> bool {
    match message_hash_spec(source_stable.seq_nrs_and_message_hashes@, seq_nr) {
        Some(i) => source_stable.seq_nrs_and_message_hashes@[i].1@ == id@ && bitset_contents(
            dest_stable.successfully_executed_seq_nrs,
        ).contains(seq_nr as usize),
        None => false,
    }
}

/// Whether `v` holds `a`.
fn contains_anomaly(v: &Vec<OffRampAnomaly>, a: &OffRampAnomaly) -> (r: bool)
    ensures
        r == v@.contains(*a),
{
    let mut i: usize = 0;
    while i < v.len()
        invariant
            i <= v@.len(),
            forall|k: int| 0 <= k < i ==> v@[k] != *a,
        decreases v@.len() - i,
    {
        if anomaly_eq(&v[i], a) {
            return true;
        }
        i = i + 1;
    }
    false
}

/// Adds `a` to `v` unless `v` holds it.
fn insert_anomaly(v: &mut Vec<OffRampAnomaly>, a: OffRampAnomaly)
    ensures
        final(v)@.to_set() == old(v)@.to_set().insert(a),
        old(v)@.no_duplicates() ==> final(v)@.no_duplicates(),
{
    broadcast use vstd::seq_lib::group_to_multiset_ensures;
    if !contains_anomaly(v, &a) {
        let ghost v0 = v@;
        v.push(a);
        proof {
            assert forall|x: OffRampAnomaly| #[trigger] v@.to_set().contains(x) == v0.to_set().insert(a).contains(x) by {
                if v0.contains(x) {
                    let k = choose|k: int| 0 <= k < v0.len() && v0[k] == x;
                    assert(v@[k] == x);
                }
                if v@.contains(x) && x != a {
                    let k = choose|k: int| 0 <= k < v@.len() && v@[k] == x;
                    assert(v0[k] == x);
                }
                if x == a {
                    assert(v@[v0.len() as int] == x);
                }
            }
            assert(v@.to_set() =~= v0.to_set().insert(a));
            assert(!v0.contains(a));
            assert(v0.no_duplicates() ==> v@.no_duplicates()) by {
                if v0.no_duplicates() {
                    assert forall|i: int, j: int| 0 <= i < v@.len() && 0 <= j < v@.len() && i != j implies v@[i] != v@[j] by {
                        if i < v0.len() && j < v0.len() {
                            assert(v@[i] == v0[i] && v@[j] == v0[j]);
                        } else if i < v0.len() {
                            assert(v@[i] == v0[i]);
                        } else {
                            assert(v@[j] == v0[j]);
                        }
                    }
                }
            }
        }
    } else {
        assert(v@.to_set() =~= v@.to_set().insert(a));
    }
}

/// Adds `x` to `v` unless `v` holds it.
fn insert_seq_nr(v: &mut Vec<u64>, x: u64)
    ensures
        final(v)@.to_set() == old(v)@.to_set().insert(x),
        old(v)@.no_duplicates() ==> final(v)@.no_duplicates(),
{
    let mut i: usize = 0;
    while i < v.len()
        invariant
            i <= v@.len(),
            forall|k: int| 0 <= k < i ==> v@[k] != x,
        decreases v@.len() - i,
    {
        if v[i] == x {
            assert(v@.to_set() =~= v@.to_set().insert(x));
            return;
        }
        i = i + 1;
    }
    let ghost v0 = v@;
    v.push(x);
    proof {
        assert forall|y: u64| #[trigger] v@.to_set().contains(y) == v0.to_set().insert(x).contains(y) by {
            if v0.contains(y) {
                let k = choose|k: int| 0 <= k < v0.len() && v0[k] == y;
                assert(v@[k] == y);
            }
            if v@.contains(y) && y != x {
                let k = choose|k: int| 0 <= k < v@.len() && v@[k] == y;
                assert(v0[k] == y);
            }
            if y == x {
                assert(v@[v0.len() as int] == y);
            }
        }
        assert(v@.to_set() =~= v0.to_set().insert(x));
        assert(v0.no_duplicates() ==> v@.no_duplicates()) by {
            if v0.no_duplicates() {
                assert forall|i: int, j: int| 0 <= i < v@.len() && 0 <= j < v@.len() && i != j implies v@[i] != v@[j] by {
                    if i < v0.len() && j < v0.len() {
                        assert(v@[i] == v0[i] && v@[j] == v0[j]);
                    } else if i < v0.len() {
                        assert(v@[i] == v0[i]);
                    } else {
                        assert(v@[j] == v0[j]);
                    }
                }
            }
        }
    }
}

/// The anomalies that a check adds: the local anomalies of the unstable
/// destination state, and the false executions of its messages.
pub open spec fn found_anomalies(
    dest_state: DestOffRampState,
    source_unstable: SourceBlessState,
    source_unstable_synced: bool,
    source_stable: SourceBlessState,
    source_stable_synced: bool,
) -> Set<OffRampAnomaly> {
    Set::new(
        |a: OffRampAnomaly|
            {
                ||| exists|i: int|
                    0 <= i < dest_state.local_anomalies@.len() && a == OffRampAnomaly::Local(
                        #[trigger] dest_state.local_anomalies@[i],
                    )
                ||| exists|k: u64|
                    #[trigger] dest_state.message_id_by_sequence_number@.contains_key(k)
                        && false_execution(
                        k,
                        dest_state.message_id_by_sequence_number@[k],
                        source_unstable,
                        source_unstable_synced,
                        source_stable,
                        source_stable_synced,
                    ) == Some(a)
            },
    )
}

/// The sequence numbers whose message ids a check finds reapable.
pub open spec fn found_reapable(
    dest_state: DestOffRampState,
    source_stable: SourceBlessState,
    dest_stable: DestOffRampState,
) -> Set<u64> {
    Set::new(
        |k: u64|
            dest_state.message_id_by_sequence_number@.contains_key(k) && reapable(
                k,
                dest_state.message_id_by_sequence_number@[k],
                source_stable,
                dest_stable,
            ),
    )
}

impl OffRampAnomalyDetectorState {
    /// A state that has found nothing and checked nothing.
    pub fn new() -> (r: Self)
        ensures
            r.anomalies@ == Seq::<OffRampAnomaly>::empty(),
            r.seq_nrs_with_reapable_msg_ids@ == Seq::<u64>::empty(),
            r.last_checked is None,
    {
        OffRampAnomalyDetectorState {
            anomalies: Vec::new(),
            seq_nrs_with_reapable_msg_ids: Vec::new(),
            last_checked: None,
        }
    }

    /// Checks the executions on the destination against the messages of the
    /// source, at the time `now`.
    pub fn check(
        &mut self,
        dest_state: &DestOffRampState,
        dest_stable_state: &DestOffRampState,
        source_unstable_state: &SourceBlessState,
        source_unstable_state_synced: bool,
        source_stable_state: &SourceBlessState,
        source_stable_state_synced: bool,
        now: u64,
    )
        ensures
            final(self).anomalies@.to_set() == old(self).anomalies@.to_set() + found_anomalies(
                *dest_state,
                *source_unstable_state,
                source_unstable_state_synced,
                *source_stable_state,
                source_stable_state_synced,
            ),
            final(self).seq_nrs_with_reapable_msg_ids@.to_set() == old(
                self,
            ).seq_nrs_with_reapable_msg_ids@.to_set() + found_reapable(
                *dest_state,
                *source_stable_state,
                *dest_stable_state,
            ),
            final(self).last_checked == Some(now),
            old(self).anomalies@.no_duplicates() ==> final(self).anomalies@.no_duplicates(),
            old(self).seq_nrs_with_reapable_msg_ids@.no_duplicates()
                ==> final(self).seq_nrs_with_reapable_msg_ids@.no_duplicates(),
    {
        let ghost a0 = self.anomalies@.to_set();
        let ghost r0 = self.seq_nrs_with_reapable_msg_ids@.to_set();
        let ghost locals = dest_state.local_anomalies@;
        let mut i: usize = 0;
        while i < dest_state.local_anomalies.len()
            invariant
                i <= locals.len(),
                locals == dest_state.local_anomalies@,
                self.anomalies@.to_set() == a0 + Set::new(
                    |a: OffRampAnomaly|
                        exists|j: int| 0 <= j < i && a == OffRampAnomaly::Local(#[trigger] locals[j]),
                ),
                self.seq_nrs_with_reapable_msg_ids@.to_set() == r0,
                self.last_checked == old(self).last_checked,
                old(self).anomalies@.no_duplicates() ==> self.anomalies@.no_duplicates(),
                self.seq_nrs_with_reapable_msg_ids@ == old(self).seq_nrs_with_reapable_msg_ids@,
            decreases locals.len() - i,
        {
            let ghost before = self.anomalies@.to_set();
            insert_anomaly(&mut self.anomalies, OffRampAnomaly::Local(dest_state.local_anomalies[i]));
            proof {
                let next = Set::new(
                    |a: OffRampAnomaly|
                        exists|j: int| 0 <= j < i + 1 && a == OffRampAnomaly::Local(#[trigger] locals[j]),
                );
                let prev = Set::new(
                    |a: OffRampAnomaly|
                        exists|j: int| 0 <= j < i && a == OffRampAnomaly::Local(#[trigger] locals[j]),
                );
                assert(next =~= prev.insert(OffRampAnomaly::Local(locals[i as int])));
                assert(self.anomalies@.to_set() =~= a0 + next);
            }
            i = i + 1;
        }
        let ghost after_locals = self.anomalies@.to_set();
        let ghost m = dest_state.message_id_by_sequence_number@;
        let ghost su = *source_unstable_state;
        let ghost ss = *source_stable_state;
        let ghost ds = *dest_stable_state;
        let ghost mut processed: Set<u64> = Set::empty();
        for kv in it: dest_state.message_id_by_sequence_number.iter()
            invariant
                m == dest_state.message_id_by_sequence_number@,
                su == *source_unstable_state,
                ss == *source_stable_state,
                ds == *dest_stable_state,
                forall|k: u64|
                    #[trigger] m.contains_key(k) ==> processed.contains(k) || exists|j: int|
                        it.index() <= j < it.seq().len() && *(#[trigger] it.seq()[j]).0 == k,
                forall|k: u64| #[trigger] processed.contains(k) ==> m.contains_key(k),
                self.anomalies@.to_set() == after_locals + Set::new(
                    |a: OffRampAnomaly|
                        exists|k: u64|
                            #[trigger] processed.contains(k) && false_execution(
                                k,
                                m[k],
                                su,
                                source_unstable_state_synced,
                                ss,
                                source_stable_state_synced,
                            ) == Some(a),
                ),
                self.seq_nrs_with_reapable_msg_ids@.to_set() == r0 + Set::new(
                    |k: u64| processed.contains(k) && reapable(k, m[k], ss, ds),
                ),
                self.last_checked == old(self).last_checked,
                old(self).anomalies@.no_duplicates() ==> self.anomalies@.no_duplicates(),
                old(self).seq_nrs_with_reapable_msg_ids@.no_duplicates()
                    ==> self.seq_nrs_with_reapable_msg_ids@.no_duplicates(),
        {
            let (seq_nr_ref, id_ref) = kv;
            let seq_nr = *seq_nr_ref;
            let id = *id_ref;
            let ghost idx = it.index();
            assert(it.seq()[idx] == kv);
            proof {
                assert(m.contains_key(seq_nr) && m[seq_nr] == id);
            }
            let ghost prev_a = self.anomalies@.to_set();
            let ghost prev_r = self.seq_nrs_with_reapable_msg_ids@.to_set();
            let ghost prev_p = processed;
            let ghost fe = false_execution(
                seq_nr,
                id,
                su,
                source_unstable_state_synced,
                ss,
                source_stable_state_synced,
            );
            let ghost re = reapable(seq_nr, id, ss, ds);
            match source_stable_state.message_hash(seq_nr) {
                Some(src) => {
                    if *src != id {
                        insert_anomaly(
                            &mut self.anomalies,
                            OffRampAnomaly::FalseExecution {
                                seq_nr,
                                src_message_id: Some(*src),
                                dest_message_id: id,
                            },
                        );
                    } else if bitset_contains(
                        &dest_stable_state.successfully_executed_seq_nrs,
                        seq_nr as usize,
                    ) {
                        insert_seq_nr(&mut self.seq_nrs_with_reapable_msg_ids, seq_nr);
                    }
                },
                None => {
                    if source_unstable_state_synced && source_unstable_state.message_hash(
                        seq_nr,
                    ).is_none() && source_stable_state_synced {
                        insert_anomaly(
                            &mut self.anomalies,
                            OffRampAnomaly::FalseExecution {
                                seq_nr,
                                src_message_id: None,
                                dest_message_id: id,
                            },
                        );
                    }
                },
            }
            proof {
                processed = processed.insert(seq_nr);
                match fe {
                    Some(a) => assert(self.anomalies@.to_set() == prev_a.insert(a)),
                    None => assert(self.anomalies@.to_set() == prev_a),
                }
                if re {
                    assert(self.seq_nrs_with_reapable_msg_ids@.to_set() == prev_r.insert(seq_nr));
                } else {
                    assert(self.seq_nrs_with_reapable_msg_ids@.to_set() == prev_r);
                }
                let na = Set::new(
                    |a: OffRampAnomaly|
                        exists|k: u64|
                            #[trigger] processed.contains(k) && false_execution(
                                k,
                                m[k],
                                su,
                                source_unstable_state_synced,
                                ss,
                                source_stable_state_synced,
                            ) == Some(a),
                );
                let pa = Set::new(
                    |a: OffRampAnomaly|
                        exists|k: u64|
                            #[trigger] prev_p.contains(k) && false_execution(
                                k,
                                m[k],
                                su,
                                source_unstable_state_synced,
                                ss,
                                source_stable_state_synced,
                            ) == Some(a),
                );
                match fe {
                    Some(a) => {
                        assert forall|x: OffRampAnomaly| #[trigger] na.contains(x) == pa.insert(a).contains(x) by {
                            if na.contains(x) {
                                let k = choose|k: u64| #[trigger] processed.contains(k) && false_execution(
                                    k, m[k], su, source_unstable_state_synced, ss, source_stable_state_synced) == Some(x);
                                if k != seq_nr {
                                    assert(prev_p.contains(k));
                                    assert(pa.contains(x));
                                }
                            }
                            if x == a {
                                assert(processed.contains(seq_nr));
                                assert(false_execution(seq_nr, m[seq_nr], su, source_unstable_state_synced, ss, source_stable_state_synced) == Some(a));
                            }
                            if pa.contains(x) {
                                let k = choose|k: u64| #[trigger] prev_p.contains(k) && false_execution(
                                    k, m[k], su, source_unstable_state_synced, ss, source_stable_state_synced) == Some(x);
                                assert(processed.contains(k));
                            }
                        }
                        assert(na =~= pa.insert(a));
                    },
                    None => {
                        assert forall|x: OffRampAnomaly| #[trigger] na.contains(x) == pa.contains(x) by {
                            if na.contains(x) {
                                let k = choose|k: u64| #[trigger] processed.contains(k) && false_execution(
                                    k, m[k], su, source_unstable_state_synced, ss, source_stable_state_synced) == Some(x);
                                if k != seq_nr {
                                    assert(prev_p.contains(k));
                                }
                            }
                            if pa.contains(x) {
                                let k = choose|k: u64| #[trigger] prev_p.contains(k) && false_execution(
                                    k, m[k], su, source_unstable_state_synced, ss, source_stable_state_synced) == Some(x);
                                assert(processed.contains(k));
                            }
                        }
                        assert(na =~= pa);
                    },
                }
                let nr = Set::new(|k: u64| processed.contains(k) && reapable(k, m[k], ss, ds));
                let pr = Set::new(|k: u64| prev_p.contains(k) && reapable(k, m[k], ss, ds));
                if re {
                    assert(nr =~= pr.insert(seq_nr));
                } else {
                    assert(nr =~= pr);
                }
                assert(self.anomalies@.to_set() =~= after_locals + na);
                assert(self.seq_nrs_with_reapable_msg_ids@.to_set() =~= r0 + nr);
            }
        }
        proof {
            assert(forall|k: u64| #[trigger] m.contains_key(k) ==> processed.contains(k));
            let fa = found_anomalies(
                *dest_state,
                *source_unstable_state,
                source_unstable_state_synced,
                *source_stable_state,
                source_stable_state_synced,
            );
            let locals_set = Set::new(
                |a: OffRampAnomaly|
                    exists|j: int| 0 <= j < locals.len() && a == OffRampAnomaly::Local(#[trigger] locals[j]),
            );
            let fe_set = Set::new(
                |a: OffRampAnomaly|
                    exists|k: u64|
                        #[trigger] processed.contains(k) && false_execution(
                            k,
                            m[k],
                            su,
                            source_unstable_state_synced,
                            ss,
                            source_stable_state_synced,
                        ) == Some(a),
            );
            assert forall|x: OffRampAnomaly| #[trigger] fa.contains(x) == (locals_set + fe_set).contains(x) by {
                if fe_set.contains(x) {
                    let k = choose|k: u64| #[trigger] processed.contains(k) && false_execution(
                        k, m[k], su, source_unstable_state_synced, ss, source_stable_state_synced) == Some(x);
                    assert(m.contains_key(k));
                }
                if fa.contains(x) && !locals_set.contains(x) {
                    let k = choose|k: u64| #[trigger] m.contains_key(k) && false_execution(
                        k, m[k], su, source_unstable_state_synced, ss, source_stable_state_synced) == Some(x);
                    assert(processed.contains(k));
                }
            }
            assert(fa =~= locals_set + fe_set);
            assert(self.anomalies@.to_set() =~= a0 + fa);
            let fr = found_reapable(*dest_state, *source_stable_state, *dest_stable_state);
            assert(fr =~= Set::new(|k: u64| processed.contains(k) && reapable(k, m[k], ss, ds)));
        }
        self.last_checked = Some(now);
    }
}

} // verus!
