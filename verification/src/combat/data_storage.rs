//! The combat storage: who fights whom, with what, and who they are.
use crate::combat::storage_model;
use crate::combat::storage_model::{
    ActorModel, SkillModel, StorageModel, TargetModel, IDLE_RESET_MS,
};
use crate::entity::damage_packet::ParsedDamagePacket;
use crate::entity::job_class::{JobClass, JobTable};
use crate::entity::special_damage::SpecialDamage;
use crate::entity::summon_resolver;
use crate::keys;
use crate::text;
use std::collections::{HashMap, HashSet};
use vstd::prelude::*;

verus! {

broadcast use vstd::std_specs::hash::group_hash_axioms;

/// One skill of one actor against one target.
#[derive(Debug, Clone)]
pub struct SkillCombatData {
    pub skill_code: i32,
    pub is_dot: bool,
    pub hit_count: i32,
    pub total_damage: i32,
    pub min_damage: i32,
    pub max_damage: i32,
    pub crit_count: i32,
    pub back_count: i32,
    pub parry_count: i32,
    pub perfect_count: i32,
    pub double_count: i32,
    pub multi_hit_count: i32,
    pub multi_hit_damage: i32,
    pub multi_hit_hits: i32,
    pub heal_amount: i32,
    pub hit_timestamps: Vec<i64>,
    pub spec_flags: [bool; 5],
}

impl View for SkillCombatData {
    type V = SkillModel;

    open spec fn view(&self) -> SkillModel {
        SkillModel {
            skill_code: self.skill_code,
            is_dot: self.is_dot,
            hit_count: self.hit_count,
            total_damage: self.total_damage,
            min_damage: self.min_damage,
            max_damage: self.max_damage,
            crit_count: self.crit_count,
            back_count: self.back_count,
            parry_count: self.parry_count,
            perfect_count: self.perfect_count,
            double_count: self.double_count,
            multi_hit_count: self.multi_hit_count,
            multi_hit_damage: self.multi_hit_damage,
            multi_hit_hits: self.multi_hit_hits,
            heal_amount: self.heal_amount,
            hit_timestamps: self.hit_timestamps@,
            spec_flags: self.spec_flags@,
        }
    }
}

/// A count that goes up by one where `when` holds.
pub fn bump(n: i32, when: bool) -> (r: i32)
    ensures
        r == storage_model::bumped(n, when),
{
    if when {
        n.wrapping_add(1)
    } else {
        n
    }
}

/// The key of a skill in its actor's table.
pub fn skill_table_key(code: i32, is_dot: bool) -> (r: i64)
    ensures
        r == storage_model::skill_key(code, is_dot),
{
    (code as i64) * 2 + if is_dot {
        1
    } else {
        0
    }
}

impl SkillCombatData {
    /// A skill that has not been used.
    pub fn new(skill_code: i32, is_dot: bool) -> (r: Self)
        ensures
            r@ == SkillModel::unused(skill_code, is_dot),
    {
        let r = SkillCombatData {
            skill_code,
            is_dot,
            hit_count: 0,
            total_damage: 0,
            min_damage: i32::MAX,
            max_damage: 0,
            crit_count: 0,
            back_count: 0,
            parry_count: 0,
            perfect_count: 0,
            double_count: 0,
            multi_hit_count: 0,
            multi_hit_damage: 0,
            multi_hit_hits: 0,
            heal_amount: 0,
            hit_timestamps: Vec::new(),
            spec_flags: [false, false, false, false, false],
        };
        assert(r@ =~= SkillModel::unused(skill_code, is_dot));
        r
    }

    /// Counts one more use.
    pub fn hit(&mut self, p: &ParsedDamagePacket)
        ensures
            final(self)@ == old(self)@.hit(*p),
    {
        let ghost before = self@;
        self.hit_count = self.hit_count.wrapping_add(1);
        self.total_damage = self.total_damage.wrapping_add(p.total_damage);
        if p.damage < self.min_damage {
            self.min_damage = p.damage;
        }
        if p.damage > self.max_damage {
            self.max_damage = p.damage;
        }
        self.crit_count = bump(self.crit_count, p.is_crit);
        self.back_count = bump(self.back_count, p.has_special(SpecialDamage::Back));
        self.parry_count = bump(self.parry_count, p.has_special(SpecialDamage::Parry));
        self.perfect_count = bump(self.perfect_count, p.has_special(SpecialDamage::Perfect));
        self.double_count = bump(self.double_count, p.has_special(SpecialDamage::Double));
        if p.multi_hit_count > 0 {
            self.multi_hit_count = bump(self.multi_hit_count, true);
            self.multi_hit_damage = self.multi_hit_damage.wrapping_add(p.multi_hit_damage);
            self.multi_hit_hits = self.multi_hit_hits.wrapping_add(p.multi_hit_count);
        }
        self.heal_amount = self.heal_amount.wrapping_add(p.heal_amount);
        self.hit_timestamps.push(p.timestamp);
        self.spec_flags = [
            self.spec_flags[0] || p.spec_flags[0],
            self.spec_flags[1] || p.spec_flags[1],
            self.spec_flags[2] || p.spec_flags[2],
            self.spec_flags[3] || p.spec_flags[3],
            self.spec_flags[4] || p.spec_flags[4],
        ];
        assert(self@ =~= before.hit(*p));
    }
}

/// The skill models in a table.
pub open spec fn skill_models(m: Map<i64, SkillCombatData>) -> Map<i64, SkillModel> {
    m.map_values(|s: SkillCombatData| s@)
}

/// One actor against one target.
#[derive(Debug, Clone)]
pub struct ActorCombatData {
    pub total_damage: i64,
    pub job: Option<JobClass>,
    /// The actor's skills, under the keys of `skill_table_key`.
    pub skills: HashMap<i64, SkillCombatData>,
}

impl View for ActorCombatData {
    type V = ActorModel;

    open spec fn view(&self) -> ActorModel {
        ActorModel {
            total_damage: self.total_damage,
            job: self.job,
            skills: skill_models(self.skills@),
        }
    }
}

impl ActorCombatData {
    /// An actor that has done nothing.
    pub fn new() -> (r: Self)
        ensures
            r@ == ActorModel::idle(),
    {
        let r = ActorCombatData { total_damage: 0, job: None, skills: HashMap::new() };
        assert(r@ =~= ActorModel::idle());
        r
    }

    /// Counts the event.
    pub fn hit(&mut self, p: &ParsedDamagePacket, jobs: &JobTable)
        ensures
            final(self)@ == old(self)@.hit(*p, *jobs),
    {
        let ghost before = *self;
        self.total_damage = self.total_damage.wrapping_add(p.total_damage as i64);
        if self.job.is_none() {
            self.job = jobs.convert_from_skill(p.skill_code);
        }
        let key: i64 = skill_table_key(p.skill_code, p.is_dot);
        let mut skill = match self.skills.remove(&key) {
            Some(s) => s,
            None => SkillCombatData::new(p.skill_code, p.is_dot),
        };
        assert(skill@ == before@.skill_before(*p));
        skill.hit(p);
        self.skills.insert(key, skill);
        assert(skill_models(self.skills@) =~= before@.hit(*p, *jobs).skills);
    }
}

/// The actor models in a table.
pub open spec fn actor_models(m: Map<i32, ActorCombatData>) -> Map<i32, ActorModel> {
    m.map_values(|a: ActorCombatData| a@)
}

/// One fight against one target.
#[derive(Debug, Clone)]
pub struct TargetCombatData {
    pub target_id: i32,
    pub total_damage: i64,
    pub first_damage_time: i64,
    pub last_damage_time: i64,
    pub last_packet_id: i64,
    /// What each actor did, by the id that it acted under.
    pub actors: HashMap<i32, ActorCombatData>,
}

impl View for TargetCombatData {
    type V = TargetModel;

    open spec fn view(&self) -> TargetModel {
        TargetModel {
            target_id: self.target_id,
            total_damage: self.total_damage,
            first_damage_time: self.first_damage_time,
            last_damage_time: self.last_damage_time,
            last_packet_id: self.last_packet_id,
            actors: actor_models(self.actors@),
        }
    }
}

impl TargetCombatData {
    /// A fight that is about to begin.
    pub fn new(target_id: i32, timestamp: i64) -> (r: Self)
        ensures
            r@ == TargetModel::fresh(target_id, timestamp),
    {
        let r = TargetCombatData {
            target_id,
            total_damage: 0,
            first_damage_time: timestamp,
            last_damage_time: timestamp,
            last_packet_id: -1,
            actors: HashMap::new(),
        };
        assert(r@ =~= TargetModel::fresh(target_id, timestamp));
        r
    }

    /// Counts the event.
    pub fn hit(&mut self, p: &ParsedDamagePacket, jobs: &JobTable)
        ensures
            final(self)@ == old(self)@.hit(*p, *jobs),
    {
        let ghost before = *self;
        if p.timestamp < self.first_damage_time {
            self.first_damage_time = p.timestamp;
        }
        if p.timestamp > self.last_damage_time {
            self.last_damage_time = p.timestamp;
        }
        self.total_damage = self.total_damage.wrapping_add(p.total_damage as i64);
        self.last_packet_id = p.id;
        let mut actor = match self.actors.remove(&p.actor_id) {
            Some(a) => a,
            None => ActorCombatData::new(),
        };
        assert(actor@ == before@.actor_before(*p));
        actor.hit(p, jobs);
        self.actors.insert(p.actor_id, actor);
        assert(actor_models(self.actors@) =~= before@.hit(*p, *jobs).actors);
    }
}

/// The target models in a table.
pub open spec fn target_models(m: Map<i32, TargetCombatData>) -> Map<i32, TargetModel> {
    m.map_values(|t: TargetCombatData| t@)
}

/// The texts in a table of strings.
pub open spec fn texts(m: Map<i32, String>) -> Map<i32, Seq<char>> {
    m.map_values(|s: String| s@)
}

/// The text of an optional string.
pub open spec fn text_of(s: Option<String>) -> Option<Seq<char>> {
    match s {
        Some(t) => Some(t@),
        None => None,
    }
}

/// Everything that is known of the current combat.
pub struct DataStorage {
    target_combat: HashMap<i32, TargetCombatData>,
    /// The class of each actor, whatever it fights; it tells whose summon is whose.
    actor_jobs: HashMap<i32, JobClass>,
    nickname_storage: HashMap<i32, String>,
    pending_nicknames: HashMap<i32, String>,
    permanent_nicknames: HashMap<i32, String>,
    summon_storage: HashMap<i32, i32>,
    mob_storage: HashMap<i32, i32>,
    mob_hp_data: HashMap<i32, i32>,
    known_player_ids: HashSet<i32>,
    confirmed_summon_ids: HashSet<i32>,
    hostile_target_ids: HashSet<i32>,
    current_target: i32,
    local_player_id: Option<i64>,
    local_character_name: Option<String>,
    damage_generation: i64,
}

impl View for DataStorage {
    type V = StorageModel;

    closed spec fn view(&self) -> StorageModel {
        StorageModel {
            targets: target_models(self.target_combat@),
            actor_jobs: self.actor_jobs@,
            nicknames: texts(self.nickname_storage@),
            pending_nicknames: texts(self.pending_nicknames@),
            permanent_nicknames: texts(self.permanent_nicknames@),
            summons: self.summon_storage@,
            mobs: self.mob_storage@,
            mob_hp: self.mob_hp_data@,
            known_players: self.known_player_ids@,
            confirmed_summons: self.confirmed_summon_ids@,
            hostile_targets: self.hostile_target_ids@,
            current_target: self.current_target,
            local_player_id: self.local_player_id,
            local_character_name: text_of(self.local_character_name),
            damage_generation: self.damage_generation,
        }
    }
}

/// Whether only players use the skill.
pub fn is_player_skill(skill_code: i32) -> (r: bool)
    ensures
        r == storage_model::player_skill(skill_code),
{
    (10_000_000 <= skill_code && skill_code <= 29_999_999) || (30_000_000 <= skill_code
        && skill_code <= 30_999_999)
}

impl DataStorage {
    /// A storage that has seen nothing.
    pub fn new() -> (r: Self)
        ensures
            r@ == StorageModel::empty(),
    {
        let r = DataStorage {
            target_combat: HashMap::new(),
            actor_jobs: HashMap::new(),
            nickname_storage: HashMap::new(),
            pending_nicknames: HashMap::new(),
            permanent_nicknames: HashMap::new(),
            summon_storage: HashMap::new(),
            mob_storage: HashMap::new(),
            mob_hp_data: HashMap::new(),
            known_player_ids: HashSet::new(),
            confirmed_summon_ids: HashSet::new(),
            hostile_target_ids: HashSet::new(),
            current_target: 0,
            local_player_id: None,
            local_character_name: None,
            damage_generation: 0,
        };
        assert(r@ =~= StorageModel::empty());
        r
    }
}

/// Whether a player, or a summon of one, acts on another.
pub fn is_friendly_action(storage: &DataStorage, actor_id: i32, target_id: i32) -> (r: bool)
    ensures
        r == storage@.friendly(actor_id, target_id),
{
    let resolved_actor = summon_resolver::resolve(actor_id, &storage.summon_storage);
    let resolved_target = summon_resolver::resolve(target_id, &storage.summon_storage);
    storage.known_player_ids.contains(&resolved_actor) && storage.known_player_ids.contains(
        &resolved_target,
    )
}

/// The actors of a target that are on its side, smallest id first.
fn friends_among(
    storage: &DataStorage,
    actors: &HashMap<i32, ActorCombatData>,
    target_id: i32,
) -> (r: Vec<i32>)
    ensures
        keys::is_ascending(r@),
        r@.to_set() == actors@.dom().filter(|a: i32| storage@.friendly(a, target_id)),
{
    let ids = keys::sorted_keys(actors);
    let ghost friend = |a: i32| storage@.friendly(a, target_id);
    let mut r: Vec<i32> = Vec::new();
    let mut i: usize = 0;
    while i < ids.len()
        invariant
            i <= ids@.len(),
            keys::is_ascending(ids@),
            friend == (|a: i32| storage@.friendly(a, target_id)),
            keys::is_ascending(r@),
            forall|j: int| 0 <= j < r@.len() ==> ids@.take(i as int).contains(#[trigger] r@[j]),
            forall|x: i32| #[trigger]
                r@.contains(x) <==> ids@.take(i as int).contains(x) && friend(x),
        decreases ids@.len() - i,
    {
        let ghost seen = ids@.take(i as int);
        let ghost before = r@;
        assert(ids@.take(i + 1) =~= seen.push(ids@[i as int]));
        if is_friendly_action(storage, ids[i], target_id) {
            r.push(ids[i]);
        }
        proof {
            let k = ids@[i as int];
            let now = ids@.take(i + 1);
            keys::lemma_one_more(ids@, i as int);
            assert forall|j: int| 0 <= j < before.len() implies before[j] < k by {
                let l = seen.index_of(before[j]);
                assert(ids@[l] == before[j]);
            }
            assert forall|x: i32| #[trigger] r@.contains(x) <==> now.contains(x) && friend(x) by {
                if before.contains(x) {
                    assert(r@[before.index_of(x)] == x);
                }
                if r@.contains(x) && x != k {
                    assert(before[r@.index_of(x)] == x);
                }
                if x == k && friend(x) {
                    assert(r@[before.len() as int] == k);
                }
            }
        }
        i += 1;
    }
    proof {
        assert(ids@.take(ids@.len() as int) =~= ids@);
        assert forall|x: i32| r@.to_set().contains(x) <==> actors@.dom().filter(friend).contains(
            x,
        ) by {
            assert(r@.contains(x) <==> ids@.contains(x) && friend(x));
            assert(ids@.to_set().contains(x) == actors@.dom().contains(x));
        }
        assert(r@.to_set() =~= actors@.dom().filter(friend));
    }
    r
}

/// Takes actors, and the damage they did, out of a fight.
fn remove_actors(data: &mut TargetCombatData, ids: &Vec<i32>)
    requires
        keys::is_ascending(ids@),
        ids@.to_set().subset_of(old(data).actors@.dom()),
    ensures
        final(data)@ == (TargetModel {
            total_damage: storage_model::total_without(
                old(data)@.total_damage,
                old(data)@.actors,
                ids@,
            ),
            actors: old(data)@.actors.remove_keys(ids@.to_set()),
            ..old(data)@
        }),
{
    let ghost before = data@;
    let mut i: usize = 0;
    assert(ids@.take(0) =~= Seq::<i32>::empty());
    assert(before.actors.remove_keys(ids@.take(0).to_set()) =~= before.actors);
    while i < ids.len()
        invariant
            i <= ids@.len(),
            keys::is_ascending(ids@),
            ids@.to_set().subset_of(before.actors.dom()),
            data@.target_id == before.target_id,
            data@.first_damage_time == before.first_damage_time,
            data@.last_damage_time == before.last_damage_time,
            data@.last_packet_id == before.last_packet_id,
            data@.total_damage == storage_model::total_without(
                before.total_damage,
                before.actors,
                ids@.take(i as int),
            ),
            data@.actors == before.actors.remove_keys(ids@.take(i as int).to_set()),
        decreases ids@.len() - i,
    {
        let ghost held = *data;
        let ghost done = ids@.take(i as int);
        let ghost now = ids@.take(i + 1);
        let ghost id = ids@[i as int];
        proof {
            assert(now.drop_last() =~= done);
            assert(now.last() == id);
            keys::lemma_one_more(ids@, i as int);
            assert(ids@.to_set().contains(id));
            assert(held@.actors.contains_key(id));
            assert(held@.actors[id] == before.actors[id]);
        }
        let removed = data.actors.remove(&ids[i]);
        match removed {
            Some(actor) => {
                assert(actor@ == before.actors[id]);
                data.total_damage = data.total_damage.wrapping_sub(actor.total_damage);
            },
            None => {},
        }
        proof {
            assert(data@.actors =~= held@.actors.remove(id));
            assert(data@.actors =~= before.actors.remove_keys(now.to_set()));
        }
        i += 1;
    }
    assert(ids@.take(ids@.len() as int) =~= ids@);
}

/// The targets when those of `done` are purged and the others are not.
spec fn half_purged(s: StorageModel, done: Set<i32>) -> Map<i32, TargetModel> {
    Map::new(
        |t: i32|
            if done.contains(t) {
                s.purged().targets.contains_key(t)
            } else {
                s.targets.contains_key(t)
            },
        |t: i32|
            if done.contains(t) {
                s.purged_target(t)
            } else {
                s.targets[t]
            },
    )
}

/// Removes friendly fire from the aggregates, once a new player is known.
pub fn purge_friendly_damage(storage: &mut DataStorage, _uid: i32)
    ensures
        final(storage)@ == old(storage)@.purged(),
{
    let ghost before = storage@;
    let targets = keys::sorted_keys(&storage.target_combat);
    let mut i: usize = 0;
    proof {
        assert(targets@.take(0).to_set() =~= Set::<i32>::empty());
        assert(half_purged(before, Set::empty()) =~= before.targets);
    }
    while i < targets.len()
        invariant
            i <= targets@.len(),
            keys::is_ascending(targets@),
            targets@.to_set() == before.targets.dom(),
            storage@ == (StorageModel {
                targets: half_purged(before, targets@.take(i as int).to_set()),
                ..before
            }),
        decreases targets@.len() - i,
    {
        let t: i32 = targets[i];
        let ghost done = targets@.take(i as int).to_set();
        let ghost held = storage@;
        proof {
            keys::lemma_one_more(targets@, i as int);
            assert(targets@.to_set().contains(t));
            assert(!done.contains(t));
            assert(held.targets.contains_key(t));
            assert(held.targets[t] == before.targets[t]);
            assert(targets@.take(i + 1).to_set() =~= done.insert(t));
        }
        let taken = storage.target_combat.remove(&t);
        match taken {
            Some(mut data) => {
                let ghost whole = data@;
                assert(whole == before.targets[t]);
                assert(storage@.summons == before.summons && storage@.known_players
                    == before.known_players);
                assert forall|a: i32| storage@.friendly(a, t) == before.friendly(a, t) by {}
                let friends = friends_among(storage, &data.actors, t);
                proof {
                    assert(friends@.to_set() =~= before.friends_of(t));
                    keys::lemma_is_ascending_of(friends@);
                }
                remove_actors(&mut data, &friends);
                assert(data@ == before.purged_target(t));
                if friends.len() == 0 || !data.actors.is_empty() {
                    proof {
                        if friends@.len() == 0 {
                            assert(before.friends_of(t) =~= Set::empty());
                        } else {
                            let a = choose|a: i32| data.actors@.contains_key(a);
                            assert(data.actors@.dom() != Set::<i32>::empty());
                            assert(data@.actors.contains_key(a));
                        }
                    }
                    storage.target_combat.insert(t, data);
                    assert(storage@.targets =~= held.targets.insert(t, before.purged_target(t)));
                } else {
                    proof {
                        assert(friends@.to_set().contains(friends@[0]));
                        assert(data@.actors =~= Map::empty());
                        assert(storage@.targets =~= held.targets.remove(t));
                    }
                }
            },
            None => {},
        }
        proof {
            assert(storage@.targets =~= half_purged(before, done.insert(t)));
            assert(storage@ =~= (StorageModel {
                targets: half_purged(before, done.insert(t)),
                ..before
            }));
        }
        i += 1;
    }
    proof {
        assert(targets@.take(targets@.len() as int) =~= targets@);
        assert(half_purged(before, before.targets.dom()) =~= before.purged().targets);
        assert(storage@ =~= before.purged());
    }
}

/// The local player is the one that carries the local character's name.
fn bind_local_name(storage: &mut DataStorage, uid: i32, nickname: &str)
    ensures
        final(storage)@ == old(storage)@.local_if_named(uid, nickname@),
{
    let named = match &storage.local_character_name {
        Some(name) => text::same_text(text::trim(name.as_str()), text::trim(nickname)),
        None => false,
    };
    if named {
        storage.local_player_id = Some(uid as i64);
    }
    assert(storage@ =~= old(storage)@.local_if_named(uid, nickname@));
}

/// Whoever has a nickname is a player, unless confirmed to be a summon.
fn note_player_by_name(storage: &mut DataStorage, uid: i32)
    ensures
        final(storage)@ == old(storage)@.player_by_name(uid),
{
    let ghost before = storage@;
    if !storage.confirmed_summon_ids.contains(&uid) {
        storage.summon_storage.remove(&uid);
        let is_new = storage.known_player_ids.insert(uid);
        if is_new {
            assert(storage@ =~= (StorageModel {
                known_players: before.known_players.insert(uid),
                summons: before.summons.remove(uid),
                ..before
            }));
            purge_friendly_damage(storage, uid);
        } else {
            assert(before.known_players.insert(uid) =~= before.known_players);
            assert(storage@ =~= before.player_by_name(uid));
        }
    }
}

/// Lets an id go by a nickname, whatever it went by before.
fn give_nickname(storage: &mut DataStorage, uid: i32, nickname: &str)
    ensures
        final(storage)@ == old(storage)@.given_name(uid, nickname@),
{
    let ghost before = storage@;
    let same = match storage.nickname_storage.get(&uid) {
        Some(existing) => {
            assert(before.nicknames[uid] == existing@);
            text::same_text(existing.as_str(), nickname)
        },
        None => false,
    };
    if !same {
        storage.nickname_storage.insert(uid, nickname.to_owned());
        assert(storage@ =~= (StorageModel {
            nicknames: before.nicknames.insert(uid, nickname@),
            ..before
        }));
        note_player_by_name(storage, uid);
    }
    bind_local_name(storage, uid, nickname);
}

/// Takes in a nickname that was seen for an id.
pub fn append_nickname_inner(storage: &mut DataStorage, uid: i32, nickname: &str)
    ensures
        final(storage)@ == old(storage)@.named(uid, nickname@),
{
    let ghost before = storage@;
    let fragment = match storage.nickname_storage.get(&uid) {
        Some(existing) => {
            let len: usize = nickname.as_bytes().len();
            let existing_len: usize = existing.as_str().as_bytes().len();
            assert(before.nicknames[uid] == existing@);
            len == 2 && len < existing_len
        },
        None => false,
    };
    if !fragment {
        give_nickname(storage, uid, nickname);
    }
}

/// Lets a nickname that was waiting for its owner to act take effect.
pub fn apply_pending_nickname(storage: &mut DataStorage, uid: i32)
    ensures
        final(storage)@ == old(storage)@.with_pending_applied(uid),
{
    let ghost before = storage@;
    if storage.nickname_storage.contains_key(&uid) {
        return;
    }
    match storage.pending_nicknames.remove(&uid) {
        Some(pending) => {
            assert(storage@ =~= (StorageModel {
                pending_nicknames: before.pending_nicknames.remove(uid),
                ..before
            }));
            assert(pending@ == before.pending_nicknames[uid]);
            append_nickname_inner(storage, uid, pending.as_str());
        },
        None => {
            assert(storage@ =~= before);
        },
    }
}

impl DataStorage {
    /// Notes that the id uses a player's skill.
    fn note_player(&mut self, id: i32)
        ensures
            final(self)@ == old(self)@.with_player(id),
    {
        let ghost before = self@;
        let is_new = self.known_player_ids.insert(id);
        if is_new {
            self.summon_storage.remove(&id);
            assert(self@ =~= (StorageModel {
                known_players: before.known_players.insert(id),
                summons: before.summons.remove(id),
                ..before
            }));
            purge_friendly_damage(self, id);
        } else {
            assert(before.known_players.insert(id) =~= before.known_players);
            assert(self@ =~= before);
        }
    }

    /// Counts an event that is known to be damage.
    fn count_damage(&mut self, p: &ParsedDamagePacket, jobs: &JobTable)
        ensures
            final(self)@ == old(self)@.counted(*p, *jobs),
    {
        let ghost before = self@;
        let resolved = summon_resolver::resolve(p.actor_id, &self.summon_storage);
        if self.known_player_ids.contains(&resolved) {
            self.hostile_target_ids.insert(p.target_id);
        }
        match jobs.convert_from_skill(p.skill_code) {
            Some(job) => {
                if !self.actor_jobs.contains_key(&p.actor_id) {
                    self.actor_jobs.insert(p.actor_id, job);
                }
            },
            None => {},
        }
        let mut data = match self.target_combat.remove(&p.target_id) {
            Some(d) => {
                assert(d@ == before.targets[p.target_id]);
                if d.last_damage_time > 0 && p.timestamp.wrapping_sub(d.last_damage_time)
                    > IDLE_RESET_MS {
                    TargetCombatData::new(p.target_id, p.timestamp)
                } else {
                    d
                }
            },
            None => TargetCombatData::new(p.target_id, p.timestamp),
        };
        assert(data@ == before.fight_before(*p));
        data.hit(p, jobs);
        self.target_combat.insert(p.target_id, data);
        self.damage_generation = self.damage_generation.wrapping_add(1);
        assert(self@.targets =~= before.counted(*p, *jobs).targets);
        assert(self@ =~= before.counted(*p, *jobs));
    }

    /// Takes in a damage event.
    pub fn append_damage(&mut self, pdp: ParsedDamagePacket, jobs: &JobTable)
        ensures
            final(self)@ == old(self)@.after_damage(pdp, *jobs),
    {
        self.take_damage(&pdp, jobs);
    }

    /// Takes in a damage event, and says whether it counts.
    pub(crate) fn take_damage(&mut self, pdp: &ParsedDamagePacket, jobs: &JobTable) -> (r: bool)
        ensures
            final(self)@ == old(self)@.after_damage(*pdp, *jobs),
            r == old(self)@.counts(*pdp),
    {
        let uses_npc_skill = 1_000_000 <= pdp.skill_code && pdp.skill_code <= 9_999_999;
        if self.mob_storage.contains_key(&pdp.actor_id) && !self.summon_storage.contains_key(
            &pdp.actor_id,
        ) && uses_npc_skill {
            return false;
        }
        if is_player_skill(pdp.skill_code) && !self.confirmed_summon_ids.contains(&pdp.actor_id) {
            self.note_player(pdp.actor_id);
        }
        if is_friendly_action(self, pdp.actor_id, pdp.target_id) {
            return false;
        }
        self.count_damage(pdp, jobs);
        apply_pending_nickname(self, pdp.actor_id);
        true
    }

    /// How many damage events have been counted.
    pub fn damage_generation(&self) -> (r: i64)
        ensures
            r == self@.damage_generation,
    {
        self.damage_generation
    }

    /// Sets the name of the local character.
    pub fn set_local_character_name(&mut self, name: Option<String>)
        ensures
            final(self)@ == (StorageModel { local_character_name: text_of(name), ..old(self)@ }),
    {
        self.local_character_name = name;
    }

    /// The name of the local character.
    pub fn local_character_name(&self) -> (r: Option<String>)
        ensures
            text_of(r) == self@.local_character_name,
    {
        match &self.local_character_name {
            Some(name) => Some(name.clone()),
            None => None,
        }
    }

    /// Sets which id is the local player.
    pub fn set_local_player_id(&mut self, id: Option<i64>)
        ensures
            final(self)@ == (StorageModel { local_player_id: id, ..old(self)@ }),
    {
        self.local_player_id = id;
    }

    /// Which id is the local player.
    pub fn local_player_id(&self) -> (r: Option<i64>)
        ensures
            r == self@.local_player_id,
    {
        self.local_player_id
    }

    /// Notes what kind of creature an id is.
    pub fn append_mob(&mut self, mid: i32, code: i32)
        ensures
            final(self)@ == (StorageModel { mobs: old(self)@.mobs.insert(mid, code), ..old(self)@ }),
    {
        self.mob_storage.insert(mid, code);
    }

    /// Notes how much health a creature has. A value that is not positive says nothing.
    pub fn append_mob_hp(&mut self, mid: i32, hp: i32)
        ensures
            final(self)@ == (if hp > 0 {
                StorageModel { mob_hp: old(self)@.mob_hp.insert(mid, hp), ..old(self)@ }
            } else {
                old(self)@
            }),
    {
        if hp > 0 {
            self.mob_hp_data.insert(mid, hp);
        }
    }

    /// Whether the id is a creature.
    pub fn is_mob(&self, id: i32) -> (r: bool)
        ensures
            r == self@.mobs.contains_key(id),
    {
        self.mob_storage.contains_key(&id)
    }

    /// Whether damage was counted against the id.
    pub fn is_damage_target(&self, id: i32) -> (r: bool)
        ensures
            r == self@.targets.contains_key(id),
    {
        self.target_combat.contains_key(&id)
    }

    /// Whether the id is taken for a summon.
    pub fn is_summon(&self, id: i32) -> (r: bool)
        ensures
            r == self@.summons.contains_key(id),
    {
        self.summon_storage.contains_key(&id)
    }

    /// Whether the id was confirmed to be a summon.
    pub fn is_confirmed_summon(&self, id: i32) -> (r: bool)
        ensures
            r == self@.confirmed_summons.contains(id),
    {
        self.confirmed_summon_ids.contains(&id)
    }

    /// Takes in that the server named the owner of a summon.
    pub fn register_confirmed_summon_by_id(&mut self, summon_id: i32, owner_id: i32)
        ensures
            final(self)@ == old(self)@.summon_confirmed(summon_id, owner_id),
    {
        let ghost before = self@;
        self.confirmed_summon_ids.insert(summon_id);
        self.known_player_ids.remove(&summon_id);
        self.summon_storage.insert(summon_id, owner_id);
        assert(self@ =~= (StorageModel {
            confirmed_summons: before.confirmed_summons.insert(summon_id),
            known_players: before.known_players.remove(summon_id),
            summons: before.summons.insert(summon_id, owner_id),
            ..before
        }));
        purge_friendly_damage(self, summon_id);
    }

    /// Takes in that a summon was seen beside its likely owner.
    pub fn append_summon(&mut self, summoner: i32, summon: i32)
        ensures
            final(self)@ == old(self)@.summon_linked(summoner, summon),
    {
        let ghost before = self@;
        if self.nickname_storage.contains_key(&summon) {
            return;
        }
        if self.known_player_ids.contains(&summon) {
            return;
        }
        if self.hostile_target_ids.contains(&summon) {
            return;
        }
        if self.summon_storage.contains_key(&summoner) {
            return;
        }
        if self.mob_storage.contains_key(&summoner) {
            return;
        }
        match (self.actor_jobs.get(&summon), self.actor_jobs.get(&summoner)) {
            (Some(summon_job), Some(owner_job)) => {
                if *summon_job != *owner_job {
                    return;
                }
            },
            _ => {},
        }
        self.summon_storage.insert(summon, summoner);
        assert(self@ =~= before.summon_linked(summoner, summon));
    }

    /// Takes in a nickname that was seen for an id.
    pub fn append_nickname(&mut self, uid: i32, nickname: &str)
        ensures
            final(self)@ == old(self)@.named(uid, nickname@),
    {
        append_nickname_inner(self, uid, nickname);
    }

    /// Takes in a nickname that the user asks for: it takes effect in any case, and outlives a
    /// reset.
    pub fn bind_nickname(&mut self, uid: i32, nickname: &str)
        ensures
            final(self)@ == old(self)@.bound_to_name(uid, nickname@),
    {
        let ghost before = self@;
        self.permanent_nicknames.insert(uid, nickname.to_owned());
        assert(self@ =~= (StorageModel {
            permanent_nicknames: before.permanent_nicknames.insert(uid, nickname@),
            ..before
        }));
        give_nickname(self, uid, nickname);
    }

    /// Takes in a nickname that was seen, and that is to outlive a reset.
    pub fn set_permanent_nickname(&mut self, uid: i32, nickname: &str)
        ensures
            final(self)@ == old(self)@.named_for_good(uid, nickname@),
    {
        let ghost before = self@;
        self.permanent_nicknames.insert(uid, nickname.to_owned());
        assert(self@ =~= (StorageModel {
            permanent_nicknames: before.permanent_nicknames.insert(uid, nickname@),
            ..before
        }));
        append_nickname_inner(self, uid, nickname);
    }

    /// Keeps a nickname until its owner acts.
    pub fn cache_pending_nickname(&mut self, uid: i32, nickname: &str)
        ensures
            final(self)@ == old(self)@.nickname_put_by(uid, nickname@),
    {
        let ghost before = self@;
        if self.nickname_storage.contains_key(&uid) {
            return;
        }
        self.pending_nicknames.insert(uid, nickname.to_owned());
        assert(self@ =~= before.nickname_put_by(uid, nickname@));
    }

    /// Whether the id has a nickname.
    pub fn has_nickname(&self, uid: i32) -> (r: bool)
        ensures
            r == self@.nicknames.contains_key(uid),
    {
        self.nickname_storage.contains_key(&uid)
    }

    /// The nickname of the id.
    pub fn get_nickname(&self, uid: i32) -> (r: Option<String>)
        ensures
            text_of(r) == (if self@.nicknames.contains_key(uid) {
                Some(self@.nicknames[uid])
            } else {
                None
            }),
    {
        match self.nickname_storage.get(&uid) {
            Some(name) => Some(name.clone()),
            None => None,
        }
    }

    /// Whether the id has taken part in combat, as an attacker, a target or a summon.
    pub fn actor_appears_in_combat(&self, actor_id: i32) -> (r: bool)
        ensures
            r == self@.in_combat(actor_id),
    {
        let targets = keys::sorted_keys(&self.target_combat);
        let mut i: usize = 0;
        while i < targets.len()
            invariant
                i <= targets@.len(),
                targets@.to_set() == self@.targets.dom(),
                forall|j: int|
                    0 <= j < i ==> !self@.targets[#[trigger] targets@[j]].actors.contains_key(
                        actor_id,
                    ),
            decreases targets@.len() - i,
        {
            assert(targets@.to_set().contains(targets@[i as int]));
            match self.target_combat.get(&targets[i]) {
                Some(data) => {
                    if data.actors.contains_key(&actor_id) {
                        assert(self@.targets.contains_key(targets@[i as int]));
                        return true;
                    }
                },
                None => {},
            }
            i += 1;
        }
        proof {
            assert forall|t: i32| #[trigger] self@.targets.contains_key(t) implies !self@.targets[t]
                .actors.contains_key(actor_id) by {
                assert(targets@.to_set().contains(t));
                let j = targets@.index_of(t);
                assert(targets@[j] == t);
            }
        }
        self.target_combat.contains_key(&actor_id) || self.summon_storage.contains_key(&actor_id)
    }

    /// A copy of the nicknames.
    pub fn get_nicknames(&self) -> (r: HashMap<i32, String>)
        ensures
            texts(r@) == self@.nicknames,
    {
        self.nickname_storage.clone()
    }

    /// A copy of the links from summons to owners.
    pub fn get_summon_data(&self) -> (r: HashMap<i32, i32>)
        ensures
            r@ == self@.summons,
    {
        self.summon_storage.clone()
    }

    /// A copy of the creatures' health.
    pub fn get_mob_hp_data(&self) -> (r: HashMap<i32, i32>)
        ensures
            r@ == self@.mob_hp,
    {
        self.mob_hp_data.clone()
    }

    /// A copy of the creatures' kinds.
    pub fn get_mob_data(&self) -> (r: HashMap<i32, i32>)
        ensures
            r@ == self@.mobs,
    {
        self.mob_storage.clone()
    }

    /// Sets the target that is being shown.
    pub fn set_current_target(&mut self, target: i32)
        ensures
            final(self)@ == (StorageModel { current_target: target, ..old(self)@ }),
    {
        self.current_target = target;
    }

    /// The target that is being shown.
    pub fn current_target(&self) -> (r: i32)
        ensures
            r == self@.current_target,
    {
        self.current_target
    }

    /// A copy of the fights.
    pub fn get_combat_snapshot(&self) -> (r: HashMap<i32, TargetCombatData>)
        ensures
            target_models(r@) == self@.targets,
    {
        self.target_combat.clone()
    }

    /// Drops the combat data; names and creatures stay.
    pub fn flush(&mut self)
        ensures
            final(self)@ == old(self)@.flushed(),
    {
        let ghost before = self@;
        self.target_combat.clear();
        self.actor_jobs.clear();
        self.summon_storage.clear();
        self.known_player_ids.clear();
        self.confirmed_summon_ids.clear();
        self.hostile_target_ids.clear();
        self.mob_hp_data.clear();
        self.current_target = 0;
        assert(self@ =~= before.flushed());
    }

    /// Drops all nicknames but the permanent ones.
    pub fn reset_nicknames(&mut self)
        ensures
            final(self)@ == old(self)@.nicknames_reset(),
    {
        let ghost before = self@;
        self.nickname_storage = self.permanent_nicknames.clone();
        self.pending_nicknames.clear();
        assert(self@ =~= before.nicknames_reset());
    }
}

} // verus!
