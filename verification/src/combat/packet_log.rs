//! The damage events that have been seen, by target.
use crate::combat::data_storage::DataStorage;
use crate::entity::damage_packet::ParsedDamagePacket;
use crate::entity::job_class::JobTable;
use std::collections::HashMap;
use vstd::prelude::*;

verus! {

broadcast use vstd::std_specs::hash::group_hash_axioms;

/// The events of a table, as sequences.
pub open spec fn packet_seqs(m: Map<i32, Vec<ParsedDamagePacket>>) -> Map<
    i32,
    Seq<ParsedDamagePacket>,
> {
    m.map_values(|v: Vec<ParsedDamagePacket>| v@)
}

/// The events that are not older than the given time.
pub open spec fn not_before(ps: Seq<ParsedDamagePacket>, timestamp: i64) -> Seq<
    ParsedDamagePacket,
> {
    ps.filter(|p: ParsedDamagePacket| p.timestamp >= timestamp)
}

/// The events of a target; none for one that was never hit.
pub open spec fn events_of(m: Map<i32, Seq<ParsedDamagePacket>>, target: i32) -> Seq<
    ParsedDamagePacket,
> {
    if m.contains_key(target) {
        m[target]
    } else {
        Seq::empty()
    }
}

/// The table without the events of one target that are older than the given time.
pub open spec fn pruned(
    m: Map<i32, Seq<ParsedDamagePacket>>,
    target: i32,
    timestamp: i64,
) -> Map<i32, Seq<ParsedDamagePacket>> {
    if m.contains_key(target) {
        m.insert(target, not_before(m[target], timestamp))
    } else {
        m
    }
}

/// Keeps the events that are not older than the given time.
fn keep_not_before(events: Vec<ParsedDamagePacket>, timestamp: i64) -> (r: Vec<ParsedDamagePacket>)
    ensures
        r@ == not_before(events@, timestamp),
{
    let ghost all = events@;
    let ghost recent = |p: ParsedDamagePacket| p.timestamp >= timestamp;
    let mut rest = events;
    let mut backwards: Vec<ParsedDamagePacket> = Vec::new();
    assert(all.filter(recent) + Seq::<ParsedDamagePacket>::empty() =~= all.filter(recent));
    assert(backwards@.reverse() =~= Seq::<ParsedDamagePacket>::empty());
    while rest.len() > 0
        invariant
            recent == (|p: ParsedDamagePacket| p.timestamp >= timestamp),
            all.filter(recent) == rest@.filter(recent) + backwards@.reverse(),
        decreases rest@.len(),
    {
        let ghost before = rest@;
        let ghost kept = backwards@;
        reveal(Seq::filter);
        match rest.pop() {
            Some(p) => {
                assert(before.drop_last() == rest@ && before.last() == p);
                if p.timestamp >= timestamp {
                    backwards.push(p);
                    assert(backwards@.reverse() =~= seq![p] + kept.reverse());
                    assert(rest@.filter(recent).push(p) + kept.reverse() =~= rest@.filter(recent)
                        + backwards@.reverse());
                }
            },
            None => {},
        }
    }
    proof {
        reveal(Seq::filter);
        assert(rest@.filter(recent) =~= Seq::empty());
        assert(all.filter(recent) =~= backwards@.reverse());
    }
    let ghost wanted = backwards@.reverse();
    let mut r: Vec<ParsedDamagePacket> = Vec::new();
    while backwards.len() > 0
        invariant
            wanted == r@ + backwards@.reverse(),
        decreases backwards@.len(),
    {
        let ghost before = backwards@;
        match backwards.pop() {
            Some(p) => {
                assert(before.reverse() =~= seq![p] + backwards@.reverse());
                r.push(p);
            },
            None => {},
        }
        assert(wanted =~= r@ + backwards@.reverse());
    }
    assert(wanted =~= r@);
    r
}

/// The damage events that have been seen, by target.
#[derive(Debug)]
pub struct PacketLog {
    pub by_target: HashMap<i32, Vec<ParsedDamagePacket>>,
}

impl View for PacketLog {
    type V = Map<i32, Seq<ParsedDamagePacket>>;

    open spec fn view(&self) -> Map<i32, Seq<ParsedDamagePacket>> {
        packet_seqs(self.by_target@)
    }
}

impl PacketLog {
    /// A log of nothing.
    pub fn new() -> (r: Self)
        ensures
            r@ == Map::<i32, Seq<ParsedDamagePacket>>::empty(),
    {
        let r = PacketLog { by_target: HashMap::new() };
        assert(r@ =~= Map::empty());
        r
    }

    /// Adds an event to those of its target.
    pub fn append(&mut self, pdp: ParsedDamagePacket)
        ensures
            final(self)@ == old(self)@.insert(
                pdp.target_id,
                events_of(old(self)@, pdp.target_id).push(pdp),
            ),
    {
        let ghost before = self@;
        let target: i32 = pdp.target_id;
        let mut events = match self.by_target.remove(&target) {
            Some(v) => v,
            None => Vec::new(),
        };
        assert(events@ =~= events_of(before, target));
        events.push(pdp);
        self.by_target.insert(target, events);
        assert(self@ =~= before.insert(target, events_of(before, target).push(pdp)));
    }

    /// Drops the events of a target that are older than the given time.
    pub fn prune_target_before(&mut self, target_id: i32, timestamp: i64)
        ensures
            final(self)@ == pruned(old(self)@, target_id, timestamp),
    {
        let ghost before = self@;
        match self.by_target.remove(&target_id) {
            Some(events) => {
                assert(events@ == before[target_id]);
                let kept = keep_not_before(events, timestamp);
                self.by_target.insert(target_id, kept);
            },
            None => {},
        }
        assert(self@ =~= pruned(before, target_id, timestamp));
    }

    /// Drops all events.
    pub fn clear(&mut self)
        ensures
            final(self)@ == Map::<i32, Seq<ParsedDamagePacket>>::empty(),
    {
        self.by_target.clear();
        assert(self@ =~= Map::empty());
    }
}

/// Takes in a damage event: it goes to the storage, and to the log where it counts.
pub fn record_damage(
    storage: &mut DataStorage,
    log: &mut PacketLog,
    pdp: ParsedDamagePacket,
    jobs: &JobTable,
)
    ensures
        final(storage)@ == old(storage)@.after_damage(pdp, *jobs),
        final(log)@ == (if old(storage)@.counts(pdp) {
            old(log)@.insert(pdp.target_id, events_of(old(log)@, pdp.target_id).push(pdp))
        } else {
            old(log)@
        }),
{
    let counted = storage.take_damage(&pdp, jobs);
    if counted {
        log.append(pdp);
    }
}

} // verus!
