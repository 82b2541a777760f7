//! What the details view shows.
use crate::entity::damage_packet::ParsedDamagePacket;
use crate::entity::special_damage::SpecialDamage;
use std::collections::HashMap;
use vstd::prelude::*;

#[allow(unused_imports)]
use crate::combat::storage_model;

verus! {

broadcast use vstd::std_specs::hash::group_hash_axioms;

/// What one player did with one skill.
#[verifier::ext_equal]
pub struct SkillEntryModel {
    pub actor_id: i32,
    pub code: i32,
    pub name: Seq<char>,
    pub time: i32,
    pub dmg: i32,
    pub multi_hit_count: i32,
    pub multi_hit_damage: i32,
    pub multi_hit_hits: i32,
    pub min_dmg: i32,
    pub max_dmg: i32,
    pub crit: i32,
    pub parry: i32,
    pub back: i32,
    pub perfect: i32,
    pub double: i32,
    pub heal: i32,
    pub job: Seq<char>,
    pub is_dot: bool,
    pub hit_timestamps: Seq<i64>,
    pub specs: Seq<bool>,
}

impl SkillEntryModel {
    /// A skill that has not been used.
    pub open spec fn unused(
        actor_id: i32,
        code: i32,
        name: Seq<char>,
        job: Seq<char>,
        is_dot: bool,
        specs: Seq<bool>,
    ) -> Self {
        SkillEntryModel {
            actor_id,
            code,
            name,
            time: 0,
            dmg: 0,
            multi_hit_count: 0,
            multi_hit_damage: 0,
            multi_hit_hits: 0,
            min_dmg: i32::MAX,
            max_dmg: 0,
            crit: 0,
            parry: 0,
            back: 0,
            perfect: 0,
            double: 0,
            heal: 0,
            job,
            is_dot,
            hit_timestamps: Seq::empty(),
            specs,
        }
    }

    /// The skill after one more use. Counters are machine integers: they wrap.
    pub open spec fn hit(self, p: ParsedDamagePacket) -> Self {
        let multi = p.multi_hit_count > 0;
        SkillEntryModel {
            time: self.time.wrapping_add(1),
            dmg: self.dmg.wrapping_add(p.total_damage),
            multi_hit_count: storage_model::bumped(self.multi_hit_count, multi),
            multi_hit_damage: if multi {
                self.multi_hit_damage.wrapping_add(p.multi_hit_damage)
            } else {
                self.multi_hit_damage
            },
            multi_hit_hits: if multi {
                self.multi_hit_hits.wrapping_add(p.multi_hit_count)
            } else {
                self.multi_hit_hits
            },
            min_dmg: if p.damage < self.min_dmg {
                p.damage
            } else {
                self.min_dmg
            },
            max_dmg: if p.damage > self.max_dmg {
                p.damage
            } else {
                self.max_dmg
            },
            crit: storage_model::bumped(self.crit, p.is_crit),
            parry: storage_model::bumped(self.parry, p.marked(SpecialDamage::Parry)),
            back: storage_model::bumped(self.back, p.marked(SpecialDamage::Back)),
            perfect: storage_model::bumped(self.perfect, p.marked(SpecialDamage::Perfect)),
            double: storage_model::bumped(self.double, p.marked(SpecialDamage::Double)),
            heal: self.heal.wrapping_add(p.heal_amount),
            hit_timestamps: self.hit_timestamps.push(p.timestamp),
            ..self
        }
    }

    /// The entry as it is shown: a smallest hit of zero where there was none to speak of, and
    /// times counted from the start of the fight.
    pub open spec fn shown(self, fight_start: i64) -> Self {
        SkillEntryModel {
            min_dmg: if self.min_dmg == i32::MAX {
                0
            } else {
                self.min_dmg
            },
            hit_timestamps: self.hit_timestamps.map_values(
                |ts: i64| ts.wrapping_sub(fight_start),
            ),
            ..self
        }
    }
}

/// What one player did with one skill.
#[derive(Debug)]
pub struct DetailSkillEntry {
    pub actor_id: i32,
    pub code: i32,
    pub name: String,
    /// How often it was used.
    pub time: i32,
    pub dmg: i32,
    pub multi_hit_count: i32,
    pub multi_hit_damage: i32,
    pub multi_hit_hits: i32,
    pub min_dmg: i32,
    pub max_dmg: i32,
    pub crit: i32,
    pub parry: i32,
    pub back: i32,
    pub perfect: i32,
    pub double: i32,
    pub heal: i32,
    pub job: String,
    pub is_dot: bool,
    pub hit_timestamps: Vec<i64>,
    pub specs: Vec<bool>,
}

impl View for DetailSkillEntry {
    type V = SkillEntryModel;

    open spec fn view(&self) -> SkillEntryModel {
        SkillEntryModel {
            actor_id: self.actor_id,
            code: self.code,
            name: self.name@,
            time: self.time,
            dmg: self.dmg,
            multi_hit_count: self.multi_hit_count,
            multi_hit_damage: self.multi_hit_damage,
            multi_hit_hits: self.multi_hit_hits,
            min_dmg: self.min_dmg,
            max_dmg: self.max_dmg,
            crit: self.crit,
            parry: self.parry,
            back: self.back,
            perfect: self.perfect,
            double: self.double,
            heal: self.heal,
            job: self.job@,
            is_dot: self.is_dot,
            hit_timestamps: self.hit_timestamps@,
            specs: self.specs@,
        }
    }
}

/// The models of a sequence of entries.
pub open spec fn entry_models(entries: Seq<DetailSkillEntry>) -> Seq<SkillEntryModel> {
    entries.map_values(|e: DetailSkillEntry| e@)
}

/// A copy of flags.
fn copied_flags(flags: &[bool; 5]) -> (r: Vec<bool>)
    ensures
        r@ == flags@,
{
    let mut r: Vec<bool> = Vec::new();
    let mut i: usize = 0;
    while i < 5
        invariant
            i <= 5,
            r@ == flags@.take(i as int),
        decreases 5 - i,
    {
        r.push(flags[i]);
        assert(flags@.take(i + 1) =~= flags@.take(i as int).push(flags@[i as int]));
        i += 1;
    }
    assert(flags@.take(5) =~= flags@);
    r
}

impl DetailSkillEntry {
    /// A skill that has not been used; its flags are those of the given event.
    pub fn new(
        actor_id: i32,
        code: i32,
        name: String,
        job: String,
        p: &ParsedDamagePacket,
    ) -> (r: Self)
        ensures
            r@ == SkillEntryModel::unused(actor_id, code, name@, job@, p.is_dot, p.spec_flags@),
    {
        DetailSkillEntry {
            actor_id,
            code,
            name,
            time: 0,
            dmg: 0,
            multi_hit_count: 0,
            multi_hit_damage: 0,
            multi_hit_hits: 0,
            min_dmg: i32::MAX,
            max_dmg: 0,
            crit: 0,
            parry: 0,
            back: 0,
            perfect: 0,
            double: 0,
            heal: 0,
            job,
            is_dot: p.is_dot,
            hit_timestamps: Vec::new(),
            specs: copied_flags(&p.spec_flags),
        }
    }

    /// Counts one more use.
    pub fn hit(&mut self, p: &ParsedDamagePacket)
        ensures
            final(self)@ == old(self)@.hit(*p),
    {
        self.time = self.time.wrapping_add(1);
        self.dmg = self.dmg.wrapping_add(p.total_damage);
        if p.multi_hit_count > 0 {
            self.multi_hit_count = self.multi_hit_count.wrapping_add(1);
            self.multi_hit_damage = self.multi_hit_damage.wrapping_add(p.multi_hit_damage);
            self.multi_hit_hits = self.multi_hit_hits.wrapping_add(p.multi_hit_count);
        }
        if p.damage < self.min_dmg {
            self.min_dmg = p.damage;
        }
        if p.damage > self.max_dmg {
            self.max_dmg = p.damage;
        }
        if p.is_crit {
            self.crit = self.crit.wrapping_add(1);
        }
        if p.has_special(SpecialDamage::Back) {
            self.back = self.back.wrapping_add(1);
        }
        if p.has_special(SpecialDamage::Parry) {
            self.parry = self.parry.wrapping_add(1);
        }
        if p.has_special(SpecialDamage::Perfect) {
            self.perfect = self.perfect.wrapping_add(1);
        }
        if p.has_special(SpecialDamage::Double) {
            self.double = self.double.wrapping_add(1);
        }
        self.heal = self.heal.wrapping_add(p.heal_amount);
        self.hit_timestamps.push(p.timestamp);
    }

    /// Turns the entry into what is shown.
    pub fn finish(&mut self, fight_start: i64)
        ensures
            final(self)@ == old(self)@.shown(fight_start),
    {
        let ghost before = self@;
        if self.min_dmg == i32::MAX {
            self.min_dmg = 0;
        }
        let mut times: Vec<i64> = Vec::new();
        let mut i: usize = 0;
        while i < self.hit_timestamps.len()
            invariant
                i <= self.hit_timestamps@.len(),
                times@ == self.hit_timestamps@.take(i as int).map_values(
                    |ts: i64| ts.wrapping_sub(fight_start),
                ),
            decreases self.hit_timestamps@.len() - i,
        {
            times.push(self.hit_timestamps[i].wrapping_sub(fight_start));
            i += 1;
            assert(times@ =~= self.hit_timestamps@.take(i as int).map_values(
                |ts: i64| ts.wrapping_sub(fight_start),
            ));
        }
        assert(self.hit_timestamps@.take(i as int) =~= self.hit_timestamps@);
        self.hit_timestamps = times;
        assert(self@ =~= before.shown(fight_start));
    }
}

/// How long the connection took to answer, and when.
#[derive(Debug, Clone, Copy, PartialEq, Eq, Structural)]
pub struct PingPoint {
    pub ts_ms: i64,
    pub ping_ms: i32,
}

/// One fight in detail.
#[verifier::ext_equal]
pub struct DetailsModel {
    pub target_id: i32,
    pub max_hp: i32,
    pub total_target_damage: i32,
    pub battle_time: i64,
    pub start_time: i64,
    pub skills: Seq<SkillEntryModel>,
    pub ping_history: Seq<PingPoint>,
}

/// One fight in detail.
#[derive(Debug)]
pub struct TargetDetailsResponse {
    pub target_id: i32,
    pub max_hp: i32,
    pub total_target_damage: i32,
    pub battle_time: i64,
    pub start_time: i64,
    pub skills: Vec<DetailSkillEntry>,
    pub ping_history: Vec<PingPoint>,
}

impl View for TargetDetailsResponse {
    type V = DetailsModel;

    open spec fn view(&self) -> DetailsModel {
        DetailsModel {
            target_id: self.target_id,
            max_hp: self.max_hp,
            total_target_damage: self.total_target_damage,
            battle_time: self.battle_time,
            start_time: self.start_time,
            skills: entry_models(self.skills@),
            ping_history: self.ping_history@,
        }
    }
}

/// A player in the list of players.
#[verifier::ext_equal]
pub struct ActorSummaryModel {
    pub actor_id: i32,
    pub nickname: Seq<char>,
    pub job: Seq<char>,
    pub job_id: i32,
}

/// A player in the list of players.
#[derive(Debug)]
pub struct DetailsActorSummary {
    pub actor_id: i32,
    pub nickname: String,
    pub job: String,
    pub job_id: i32,
}

impl View for DetailsActorSummary {
    type V = ActorSummaryModel;

    open spec fn view(&self) -> ActorSummaryModel {
        ActorSummaryModel {
            actor_id: self.actor_id,
            nickname: self.nickname@,
            job: self.job@,
            job_id: self.job_id,
        }
    }
}

/// A target in the list of targets.
#[verifier::ext_equal]
pub struct TargetSummaryModel {
    pub target_id: i32,
    pub target_name: Seq<char>,
    pub max_hp: i32,
    pub battle_time: i64,
    pub last_damage_time: i64,
    pub total_damage: i32,
    pub actor_damage: Map<i32, i32>,
}

/// A target in the list of targets.
#[derive(Debug)]
pub struct DetailsTargetSummary {
    pub target_id: i32,
    pub target_name: String,
    pub max_hp: i32,
    pub battle_time: i64,
    pub last_damage_time: i64,
    pub total_damage: i32,
    pub actor_damage: HashMap<i32, i32>,
}

impl View for DetailsTargetSummary {
    type V = TargetSummaryModel;

    open spec fn view(&self) -> TargetSummaryModel {
        TargetSummaryModel {
            target_id: self.target_id,
            target_name: self.target_name@,
            max_hp: self.max_hp,
            battle_time: self.battle_time,
            last_damage_time: self.last_damage_time,
            total_damage: self.total_damage,
            actor_damage: self.actor_damage@,
        }
    }
}

/// The targets and players to choose from.
#[verifier::ext_equal]
pub struct ContextModel {
    pub current_target_id: i32,
    pub targets: Seq<TargetSummaryModel>,
    pub actors: Seq<ActorSummaryModel>,
}

/// The targets and players to choose from.
#[derive(Debug)]
pub struct DetailsContext {
    pub current_target_id: i32,
    pub targets: Vec<DetailsTargetSummary>,
    pub actors: Vec<DetailsActorSummary>,
}

/// The models of a list of targets.
pub open spec fn target_summaries(s: Seq<DetailsTargetSummary>) -> Seq<TargetSummaryModel> {
    s.map_values(|t: DetailsTargetSummary| t@)
}

/// The models of a list of players.
pub open spec fn actor_summaries(s: Seq<DetailsActorSummary>) -> Seq<ActorSummaryModel> {
    s.map_values(|a: DetailsActorSummary| a@)
}

impl View for DetailsContext {
    type V = ContextModel;

    open spec fn view(&self) -> ContextModel {
        ContextModel {
            current_target_id: self.current_target_id,
            targets: target_summaries(self.targets@),
            actors: actor_summaries(self.actors@),
        }
    }
}

} // verus!
