//! The running account of one target.
use crate::combat::storage_model::IDLE_RESET_MS;
use crate::entity::damage_packet::ParsedDamagePacket;
use std::collections::HashSet;
use vstd::prelude::*;

verus! {

broadcast use vstd::std_specs::hash::group_hash_axioms;

/// What is known of a target.
#[verifier::ext_equal]
pub struct TargetInfoModel {
    pub target_id: i32,
    pub damaged_amount: i64,
    pub target_damage_started: i64,
    pub last_damage_time: i64,
    pub processed: Set<i64>,
    pub idle_reset: Option<i64>,
}

impl TargetInfoModel {
    /// A target that is about to take its first damage.
    pub open spec fn begun(target_id: i32, timestamp: i64) -> Self {
        TargetInfoModel {
            target_id,
            damaged_amount: 0,
            target_damage_started: timestamp,
            last_damage_time: timestamp,
            processed: Set::empty(),
            idle_reset: None,
        }
    }

    /// Whether a pause ends before the event, so that the event opens a new fight.
    pub open spec fn idle_before(self, p: ParsedDamagePacket) -> bool {
        self.last_damage_time > 0 && p.timestamp.wrapping_sub(self.last_damage_time)
            > IDLE_RESET_MS
    }

    /// The target once the event is counted. An event is counted once.
    pub open spec fn hit(self, p: ParsedDamagePacket) -> Self {
        if self.processed.contains(p.id) {
            self
        } else {
            let fight = if self.idle_before(p) {
                TargetInfoModel {
                    damaged_amount: 0,
                    target_damage_started: p.timestamp,
                    last_damage_time: p.timestamp,
                    idle_reset: Some(p.timestamp),
                    ..self
                }
            } else {
                self
            };
            TargetInfoModel {
                damaged_amount: fight.damaged_amount.wrapping_add(p.total_damage as i64),
                target_damage_started: if p.timestamp < fight.target_damage_started {
                    p.timestamp
                } else {
                    fight.target_damage_started
                },
                last_damage_time: if p.timestamp > fight.last_damage_time {
                    p.timestamp
                } else {
                    fight.last_damage_time
                },
                processed: fight.processed.insert(p.id),
                ..fight
            }
        }
    }

    /// The target once all of the events are counted, in their order.
    pub open spec fn hit_all(self, ps: Seq<ParsedDamagePacket>) -> Self
        decreases ps.len(),
    {
        if ps.len() == 0 {
            self
        } else {
            self.hit_all(ps.drop_last()).hit(ps.last())
        }
    }

    /// How long the fight has lasted, in milliseconds.
    pub open spec fn battle_time(self) -> i64 {
        self.last_damage_time.wrapping_sub(self.target_damage_started)
    }
}

/// The running account of one target.
#[derive(Debug)]
pub struct TargetInfo {
    pub target_id: i32,
    pub damaged_amount: i64,
    pub target_damage_started: i64,
    pub last_damage_time: i64,
    pub processed_ids: HashSet<i64>,
    pub idle_reset: Option<i64>,
}

impl View for TargetInfo {
    type V = TargetInfoModel;

    open spec fn view(&self) -> TargetInfoModel {
        TargetInfoModel {
            target_id: self.target_id,
            damaged_amount: self.damaged_amount,
            target_damage_started: self.target_damage_started,
            last_damage_time: self.last_damage_time,
            processed: self.processed_ids@,
            idle_reset: self.idle_reset,
        }
    }
}

impl TargetInfo {
    /// A target that is about to take its first damage.
    pub fn new(target_id: i32, timestamp: i64) -> (r: Self)
        ensures
            r@ == TargetInfoModel::begun(target_id, timestamp),
    {
        TargetInfo {
            target_id,
            damaged_amount: 0,
            target_damage_started: timestamp,
            last_damage_time: timestamp,
            processed_ids: HashSet::new(),
            idle_reset: None,
        }
    }

    /// Counts the event, unless it was counted before.
    pub fn process_pdp(&mut self, p: &ParsedDamagePacket)
        ensures
            final(self)@ == old(self)@.hit(*p),
    {
        let ghost before = self@;
        if !self.processed_ids.insert(p.id) {
            assert(before.processed.insert(p.id) =~= before.processed);
            return;
        }
        if self.last_damage_time > 0 && p.timestamp.wrapping_sub(self.last_damage_time)
            > IDLE_RESET_MS {
            self.damaged_amount = 0;
            self.target_damage_started = p.timestamp;
            self.last_damage_time = p.timestamp;
            self.idle_reset = Some(p.timestamp);
        }
        if p.timestamp < self.target_damage_started {
            self.target_damage_started = p.timestamp;
        }
        if p.timestamp > self.last_damage_time {
            self.last_damage_time = p.timestamp;
        }
        self.damaged_amount = self.damaged_amount.wrapping_add(p.total_damage as i64);
    }

    /// Hands out when a pause last ended a fight, once.
    pub fn take_idle_reset(&mut self) -> (r: Option<i64>)
        ensures
            r == old(self)@.idle_reset,
            final(self)@ == (TargetInfoModel { idle_reset: None, ..old(self)@ }),
    {
        let r = self.idle_reset;
        self.idle_reset = None;
        r
    }

    /// How long the fight has lasted, in milliseconds.
    pub fn battle_time(&self) -> (r: i64)
        ensures
            r == self@.battle_time(),
    {
        self.last_damage_time.wrapping_sub(self.target_damage_started)
    }

    /// When the target last took damage.
    pub fn last_damage_time(&self) -> (r: i64)
        ensures
            r == self@.last_damage_time,
    {
        self.last_damage_time
    }
}

proof fn lemma_hit_all_keeps_processed(t: TargetInfoModel, ps: Seq<ParsedDamagePacket>)
    ensures
        t.processed.subset_of(t.hit_all(ps).processed),
        forall|i: int| 0 <= i < ps.len() ==> t.hit_all(ps).processed.contains(#[trigger] ps[i].id),
    decreases ps.len(),
{
    if ps.len() > 0 {
        lemma_hit_all_keeps_processed(t, ps.drop_last());
        assert forall|i: int| 0 <= i < ps.len() implies t.hit_all(ps).processed.contains(
            #[trigger] ps[i].id,
        ) by {
            if i < ps.len() - 1 {
                assert(ps.drop_last()[i] == ps[i]);
            }
        }
    }
}

proof fn lemma_known_events_change_nothing(t: TargetInfoModel, ps: Seq<ParsedDamagePacket>)
    requires
        forall|i: int| 0 <= i < ps.len() ==> t.processed.contains(#[trigger] ps[i].id),
    ensures
        t.hit_all(ps) == t,
    decreases ps.len(),
{
    if ps.len() > 0 {
        assert forall|i: int| 0 <= i < ps.drop_last().len() implies t.processed.contains(
            #[trigger] ps.drop_last()[i].id,
        ) by {
            assert(ps.drop_last()[i] == ps[i]);
        }
        lemma_known_events_change_nothing(t, ps.drop_last());
        assert(t.processed.contains(ps[ps.len() - 1].id));
    }
}

/// Events that were counted change nothing the next time, also once the end of the last pause was
/// handed out.
pub proof fn lemma_counted_events_change_nothing(t: TargetInfoModel, ps: Seq<ParsedDamagePacket>)
    ensures
        ({
            let after = TargetInfoModel { idle_reset: None, ..t.hit_all(ps) };
            after.hit_all(ps) == after
        }),
{
    lemma_hit_all_keeps_processed(t, ps);
    lemma_known_events_change_nothing(
        TargetInfoModel { idle_reset: None, ..t.hit_all(ps) },
        ps,
    );
}

/// Counting the same events again changes nothing: a target's damage is the same however often
/// its events are gone through.
pub proof fn law_events_are_counted_once(t: TargetInfoModel, ps: Seq<ParsedDamagePacket>)
    ensures
        t.hit_all(ps).hit_all(ps) == t.hit_all(ps),
{
    lemma_hit_all_keeps_processed(t, ps);
    lemma_known_events_change_nothing(t.hit_all(ps), ps);
}

/// After a pause that ends a fight, the new fight holds the damage of its first event alone and
/// has lasted no time.
pub proof fn law_a_pause_starts_a_new_fight(t: TargetInfoModel, p: ParsedDamagePacket)
    requires
        !t.processed.contains(p.id),
        t.idle_before(p),
    ensures
        t.hit(p).damaged_amount == p.total_damage,
        t.hit(p).battle_time() == 0,
        t.hit(p).idle_reset == Some(p.timestamp),
{
}

} // verus!
