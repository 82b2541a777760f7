//! What holds of the combat storage, whatever it is told.
use crate::combat::storage_model;
use crate::combat::storage_model::{ActorModel, SkillModel, StorageModel, TargetModel};
use crate::entity::damage_packet::ParsedDamagePacket;
use crate::entity::job_class::JobTable;
#[allow(unused_imports)]
use crate::keys;
#[allow(unused_imports)]
use crate::sums;
#[allow(unused_imports)]
use crate::text;
use vstd::prelude::*;

verus! {

impl StorageModel {
    /// Whether players, summons and confirmed summons are told apart: no player is a summon, and
    /// what was confirmed to be a summon is one.
    pub open spec fn sides_are_clear(self) -> bool {
        &&& forall|id: i32| #[trigger]
            self.known_players.contains(id) ==> !self.summons.contains_key(id)
        &&& forall|id: i32| #[trigger]
            self.confirmed_summons.contains(id) ==> self.summons.contains_key(id)
    }

    /// Whether no damage of one side to itself is held.
    pub open spec fn holds_no_friendly_fire(self) -> bool {
        forall|t: i32, a: i32|
            self.targets.contains_key(t) && #[trigger] self.targets[t].actors.contains_key(a)
                ==> !self.friendly(a, t)
    }
}

/// Every event keeps players and summons apart.
pub proof fn law_sides_stay_clear(
    s: StorageModel,
    p: ParsedDamagePacket,
    jobs: JobTable,
    id: i32,
    other: i32,
    nickname: Seq<char>,
)
    requires
        s.sides_are_clear(),
    ensures
        StorageModel::empty().sides_are_clear(),
        s.after_damage(p, jobs).sides_are_clear(),
        s.named(id, nickname).sides_are_clear(),
        s.named_for_good(id, nickname).sides_are_clear(),
        s.bound_to_name(id, nickname).sides_are_clear(),
        s.nickname_put_by(id, nickname).sides_are_clear(),
        s.summon_confirmed(id, other).sides_are_clear(),
        s.summon_linked(other, id).sides_are_clear(),
        s.flushed().sides_are_clear(),
        s.nicknames_reset().sides_are_clear(),
{
    lemma_named_keeps_sides(s, id, nickname);
    lemma_named_keeps_sides(
        StorageModel {
            permanent_nicknames: s.permanent_nicknames.insert(id, nickname),
            ..s
        },
        id,
        nickname,
    );
    let seen = s.skill_seen(p);
    assert(seen.sides_are_clear());
    let counted = seen.counted(p, jobs);
    assert(counted.sides_are_clear());
    let rest = StorageModel {
        pending_nicknames: counted.pending_nicknames.remove(p.actor_id),
        ..counted
    };
    lemma_named_keeps_sides(rest, p.actor_id, counted.pending_nicknames[p.actor_id]);
}

proof fn lemma_named_keeps_sides(s: StorageModel, id: i32, nickname: Seq<char>)
    requires
        s.sides_are_clear(),
    ensures
        s.given_name(id, nickname).sides_are_clear(),
        s.named(id, nickname).sides_are_clear(),
{
}

/// A summon that the server confirmed stays a summon, whatever skills it uses and whatever name
/// it is given.
pub proof fn law_confirmed_summons_stay_summons(
    s: StorageModel,
    p: ParsedDamagePacket,
    jobs: JobTable,
    id: i32,
    nickname: Seq<char>,
    summon: i32,
)
    requires
        s.sides_are_clear(),
        s.confirmed_summons.contains(summon),
    ensures
        s.after_damage(p, jobs).summons.contains_key(summon),
        s.after_damage(p, jobs).summons[summon] == s.summons[summon],
        !s.after_damage(p, jobs).known_players.contains(summon),
        s.named(id, nickname).summons.contains_key(summon),
        s.named(id, nickname).summons[summon] == s.summons[summon],
        !s.named(id, nickname).known_players.contains(summon),
{
    law_sides_stay_clear(s, p, jobs, id, id, nickname);
}

/// The purge leaves no friendly fire, and changes nothing where there is none.
pub proof fn law_purge_removes_friendly_fire(s: StorageModel)
    ensures
        s.purged().holds_no_friendly_fire(),
        s.holds_no_friendly_fire() ==> s.purged() == s,
        s.purged().purged() == s.purged(),
{
    lemma_purged_is_peaceful(s);
    lemma_peace_needs_no_purge(s.purged());
    if s.holds_no_friendly_fire() {
        lemma_peace_needs_no_purge(s);
    }
}

proof fn lemma_purged_is_peaceful(s: StorageModel)
    ensures
        s.purged().holds_no_friendly_fire(),
{
    let after = s.purged();
    assert forall|t: i32, a: i32|
        after.targets.contains_key(t) && #[trigger] after.targets[t].actors.contains_key(
            a,
        ) implies !after.friendly(a, t) by {
        assert(s.targets[t].actors.contains_key(a));
        if s.friendly(a, t) {
            assert(s.friends_of(t).contains(a));
        }
    }
}

proof fn lemma_peace_needs_no_purge(s: StorageModel)
    requires
        s.holds_no_friendly_fire(),
    ensures
        s.purged() == s,
{
    assert forall|t: i32| s.targets.contains_key(t) implies #[trigger] s.purged_target(t)
        == s.targets[t] && s.friends_of(t) == Set::<i32>::empty() by {
        assert(s.friends_of(t) =~= Set::empty());
        let none = Seq::<i32>::empty();
        assert(none.to_set() =~= Set::empty());
        keys::lemma_is_ascending_of(none);
        assert(s.purged_target(t).actors =~= s.targets[t].actors);
    }
    assert(s.purged().targets =~= s.targets);
    assert(s.purged() =~= s);
}

/// Damage events, nicknames, confirmed summons and resets bring no friendly fire into the
/// storage.
pub proof fn law_friendly_fire_is_never_stored(
    s: StorageModel,
    p: ParsedDamagePacket,
    jobs: JobTable,
    id: i32,
    other: i32,
    nickname: Seq<char>,
)
    requires
        s.sides_are_clear(),
        s.holds_no_friendly_fire(),
    ensures
        StorageModel::empty().holds_no_friendly_fire(),
        s.after_damage(p, jobs).holds_no_friendly_fire(),
        s.named(id, nickname).holds_no_friendly_fire(),
        s.named_for_good(id, nickname).holds_no_friendly_fire(),
        s.bound_to_name(id, nickname).holds_no_friendly_fire(),
        s.nickname_put_by(id, nickname).holds_no_friendly_fire(),
        s.summon_confirmed(id, other).holds_no_friendly_fire(),
        s.flushed().holds_no_friendly_fire(),
        s.nicknames_reset().holds_no_friendly_fire(),
{
    lemma_named_keeps_peace(s, id, nickname);
    lemma_named_keeps_peace(
        StorageModel {
            permanent_nicknames: s.permanent_nicknames.insert(id, nickname),
            ..s
        },
        id,
        nickname,
    );
    lemma_purged_is_peaceful(
        StorageModel {
            confirmed_summons: s.confirmed_summons.insert(id),
            known_players: s.known_players.remove(id),
            summons: s.summons.insert(id, other),
            ..s
        },
    );
    lemma_damage_keeps_peace(s, p, jobs);
    assert(s.flushed().holds_no_friendly_fire());
    assert(s.nickname_put_by(id, nickname).holds_no_friendly_fire()) by {
        let after = s.nickname_put_by(id, nickname);
        assert forall|t: i32, a: i32|
            after.targets.contains_key(t) && #[trigger] after.targets[t].actors.contains_key(
                a,
            ) implies !after.friendly(a, t) by {
            assert(!s.friendly(a, t));
        }
    }
    assert(s.nicknames_reset().holds_no_friendly_fire()) by {
        let after = s.nicknames_reset();
        assert forall|t: i32, a: i32|
            after.targets.contains_key(t) && #[trigger] after.targets[t].actors.contains_key(
                a,
            ) implies !after.friendly(a, t) by {
            assert(!s.friendly(a, t));
        }
    }
}

proof fn lemma_named_keeps_peace(s: StorageModel, id: i32, nickname: Seq<char>)
    requires
        s.sides_are_clear(),
        s.holds_no_friendly_fire(),
    ensures
        s.given_name(id, nickname).holds_no_friendly_fire(),
        s.named(id, nickname).holds_no_friendly_fire(),
{
    let with_name = StorageModel { nicknames: s.nicknames.insert(id, nickname), ..s };
    let unlinked = StorageModel { summons: with_name.summons.remove(id), ..with_name };
    lemma_purged_is_peaceful(
        StorageModel { known_players: with_name.known_players.insert(id), ..unlinked },
    );
    if s.known_players.contains(id) {
        assert(!s.summons.contains_key(id));
        assert(unlinked.summons =~= s.summons);
    }
    let after = s.given_name(id, nickname);
    assert forall|t: i32, a: i32|
        after.targets.contains_key(t) && #[trigger] after.targets[t].actors.contains_key(
            a,
        ) implies !after.friendly(a, t) by {
        let mid = with_name.player_by_name(id);
        if after.targets == s.targets && after.summons == s.summons && after.known_players
            == s.known_players {
            assert(s.targets[t].actors.contains_key(a));
            assert(!s.friendly(a, t));
        } else {
            assert(mid.targets[t].actors.contains_key(a));
            assert(!mid.friendly(a, t));
        }
    }
}

proof fn lemma_damage_keeps_peace(s: StorageModel, p: ParsedDamagePacket, jobs: JobTable)
    requires
        s.sides_are_clear(),
        s.holds_no_friendly_fire(),
    ensures
        s.after_damage(p, jobs).holds_no_friendly_fire(),
{
    let seen = s.skill_seen(p);
    lemma_purged_is_peaceful(
        StorageModel {
            known_players: s.known_players.insert(p.actor_id),
            summons: s.summons.remove(p.actor_id),
            ..s
        },
    );
    assert(seen.holds_no_friendly_fire());
    assert(seen.sides_are_clear());
    if s.counts(p) {
        let counted = seen.counted(p, jobs);
        assert forall|t: i32, a: i32|
            counted.targets.contains_key(t) && #[trigger] counted.targets[t].actors.contains_key(
                a,
            ) implies !counted.friendly(a, t) by {
            assert(counted.friendly(a, t) == seen.friendly(a, t));
            if t == p.target_id {
                if a != p.actor_id {
                    let fight = seen.fight_before(p);
                    assert(fight.actors.contains_key(a));
                    assert(seen.targets.contains_key(t));
                    assert(seen.targets[t].actors.contains_key(a));
                }
            } else {
                assert(seen.targets[t].actors.contains_key(a));
            }
        }
        assert(counted.holds_no_friendly_fire());
        let rest = StorageModel {
            pending_nicknames: counted.pending_nicknames.remove(p.actor_id),
            ..counted
        };
        assert(rest.holds_no_friendly_fire()) by {
            assert forall|t: i32, a: i32|
                rest.targets.contains_key(t) && #[trigger] rest.targets[t].actors.contains_key(
                    a,
                ) implies !rest.friendly(a, t) by {
                assert(counted.targets[t].actors.contains_key(a));
                assert(!counted.friendly(a, t));
            }
        }
        assert(rest.sides_are_clear());
        lemma_named_keeps_peace(rest, p.actor_id, counted.pending_nicknames[p.actor_id]);
    }
}

/// Exactly the events that count raise the damage count, by one each.
pub proof fn law_damage_count_counts_damage(s: StorageModel, p: ParsedDamagePacket, jobs: JobTable)
    ensures
        s.after_damage(p, jobs).damage_generation == if s.counts(p) {
            s.damage_generation.wrapping_add(1)
        } else {
            s.damage_generation
        },
        s.counts(p) ==> s.skill_seen(p).counted(p, jobs).targets.contains_key(p.target_id),
{
}

/// After a pause that ends a fight, the target holds the damage of the new event alone.
pub proof fn law_a_pause_clears_the_target(s: StorageModel, p: ParsedDamagePacket, jobs: JobTable)
    requires
        s.targets.contains_key(p.target_id),
        s.targets[p.target_id].last_damage_time > 0,
        p.timestamp.wrapping_sub(s.targets[p.target_id].last_damage_time)
            > storage_model::IDLE_RESET_MS,
    ensures
        ({
            let fight = s.counted(p, jobs).targets[p.target_id];
            &&& fight.total_damage == p.total_damage
            &&& fight.first_damage_time == p.timestamp
            &&& fight.last_damage_time == p.timestamp
            &&& fight.actors.dom() == Set::<i32>::empty().insert(p.actor_id)
            &&& fight.actors[p.actor_id].total_damage == p.total_damage
        }),
{
    let fight = s.counted(p, jobs).targets[p.target_id];
    assert(fight.actors.dom() =~= Set::empty().insert(p.actor_id));
}

/// A permanent nickname is there again after a reset, whatever happened in between; nothing but
/// another permanent nickname for the same id replaces it. One that is asked for is there before
/// the reset too.
pub proof fn law_permanent_nicknames_outlive_resets(
    s: StorageModel,
    p: ParsedDamagePacket,
    jobs: JobTable,
    id: i32,
    other: i32,
    nickname: Seq<char>,
    other_name: Seq<char>,
)
    requires
        id != other,
    ensures
        s.named_for_good(id, nickname).nicknames_reset().nicknames.contains_key(id),
        s.named_for_good(id, nickname).nicknames_reset().nicknames[id] == nickname,
        s.bound_to_name(id, nickname).nicknames.contains_key(id),
        s.bound_to_name(id, nickname).nicknames[id] == nickname,
        s.bound_to_name(id, nickname).nicknames_reset().nicknames.contains_key(id),
        s.bound_to_name(id, nickname).nicknames_reset().nicknames[id] == nickname,
        s.nicknames_reset().nicknames == s.permanent_nicknames,
        s.named_for_good(other, other_name).permanent_nicknames.contains_key(id)
            == s.permanent_nicknames.contains_key(id),
        s.named_for_good(other, other_name).permanent_nicknames[id] == s.permanent_nicknames[id],
        s.bound_to_name(other, other_name).permanent_nicknames.contains_key(id)
            == s.permanent_nicknames.contains_key(id),
        s.bound_to_name(other, other_name).permanent_nicknames[id] == s.permanent_nicknames[id],
        s.after_damage(p, jobs).permanent_nicknames == s.permanent_nicknames,
        s.named(id, other_name).permanent_nicknames == s.permanent_nicknames,
        s.nickname_put_by(id, other_name).permanent_nicknames == s.permanent_nicknames,
        s.summon_confirmed(id, other).permanent_nicknames == s.permanent_nicknames,
        s.summon_linked(id, other).permanent_nicknames == s.permanent_nicknames,
        s.flushed().permanent_nicknames == s.permanent_nicknames,
        s.nicknames_reset().permanent_nicknames == s.permanent_nicknames,
{
}

/// Dropping the combat data leaves names, creatures, the local player and the damage count as
/// they are.
pub proof fn law_flush_keeps_names(s: StorageModel)
    ensures
        s.flushed().nicknames == s.nicknames,
        s.flushed().pending_nicknames == s.pending_nicknames,
        s.flushed().permanent_nicknames == s.permanent_nicknames,
        s.flushed().mobs == s.mobs,
        s.flushed().local_player_id == s.local_player_id,
        s.flushed().local_character_name == s.local_character_name,
        s.flushed().damage_generation == s.damage_generation,
        forall|id: i32| !(#[trigger] s.flushed().in_combat(id)),
{
}

/// Whoever is given the local character's name is the local player from then on.
pub proof fn law_local_player_is_found_by_name(
    s: StorageModel,
    id: i32,
    nickname: Seq<char>,
    local_name: Seq<char>,
)
    requires
        s.local_character_name == Some(local_name),
        text::trimmed(local_name) == text::trimmed(nickname),
        !s.fragment_of_known(id, nickname),
    ensures
        s.named(id, nickname).local_player_id == Some(id as i64),
        s.named(id, nickname).nicknames.contains_key(id),
        s.named(id, nickname).nicknames[id] == nickname,
{
}

/// A nickname that was seen is the one that is held from then on, unless it is a fragment of the
/// one held; no one else's changes.
pub proof fn law_nicknames_are_taken_in(s: StorageModel, id: i32, other: i32, nickname: Seq<char>)
    requires
        id != other,
    ensures
        s.named(id, nickname).nicknames.contains_key(id),
        s.named(id, nickname).nicknames[id] == if s.fragment_of_known(id, nickname) {
            s.nicknames[id]
        } else {
            nickname
        },
        s.named(id, nickname).nicknames.contains_key(other) == s.nicknames.contains_key(other),
        s.named(id, nickname).nicknames[other] == s.nicknames[other],
{
}

/// Two skills share a place only if they are the same skill, and both plain or both over time.
pub proof fn law_skills_do_not_share_places(a: i32, a_dot: bool, b: i32, b_dot: bool)
    ensures
        storage_model::skill_key(a, a_dot) == storage_model::skill_key(b, b_dot) <==> a == b
            && a_dot == b_dot,
{
}

/// The damage of each actor.
pub open spec fn damage_by_actor(actors: Map<i32, ActorModel>) -> Map<i32, i64> {
    actors.map_values(|a: ActorModel| a.total_damage)
}

/// What the damage of actors adds up to.
pub open spec fn actors_sum(actors: Map<i32, ActorModel>) -> int {
    sums::total(damage_by_actor(actors))
}

/// The damage of each skill.
pub open spec fn damage_by_skill(skills: Map<i64, SkillModel>) -> Map<i64, i64> {
    skills.map_values(|k: SkillModel| k.total_damage as i64)
}

/// What the damage of skills adds up to.
pub open spec fn skills_sum(skills: Map<i64, SkillModel>) -> int {
    sums::total(damage_by_skill(skills))
}

impl SkillModel {
    /// Whether the account of a skill is consistent: it stands at its own place, its hits are as
    /// many as their times, and all of them lie between the given times.
    pub open spec fn is_sound(self, place: i64, first: i64, last: i64) -> bool {
        &&& place == storage_model::skill_key(self.skill_code, self.is_dot)
        &&& sums::same_count32(self.hit_count as int, self.hit_timestamps.len() as int)
        &&& forall|i: int|
            0 <= i < self.hit_timestamps.len() ==> first <= #[trigger] self.hit_timestamps[i]
                <= last
    }
}

impl ActorModel {
    /// Whether the account of an actor is consistent: that of each skill is, and the actor's
    /// damage is that of the skills.
    pub open spec fn is_sound(self, first: i64, last: i64) -> bool {
        &&& self.skills.dom().finite()
        &&& forall|k: i64| #[trigger]
            self.skills.contains_key(k) ==> self.skills[k].is_sound(k, first, last)
        &&& sums::same_count32(self.total_damage as int, skills_sum(self.skills))
    }

    /// Whether the actor's damage is exactly that of the skills.
    pub open spec fn adds_up(self) -> bool {
        self.total_damage == skills_sum(self.skills)
    }
}

impl TargetModel {
    /// Whether the account of a fight is consistent: it is that of its target, someone took part,
    /// it began no later than it ended, the account of each actor is consistent, and the damage is
    /// that of the actors.
    pub open spec fn is_sound(self, target: i32) -> bool {
        &&& self.target_id == target
        &&& self.first_damage_time <= self.last_damage_time
        &&& self.actors.dom().finite()
        &&& self.actors.dom().len() > 0
        &&& self.actors_are_sound()
        &&& sums::same_count(self.total_damage as int, actors_sum(self.actors))
    }

    /// Whether the account of each actor is consistent.
    pub open spec fn actors_are_sound(self) -> bool {
        forall|a: i32| #[trigger]
            self.actors.contains_key(a) ==> self.actors[a].is_sound(
                self.first_damage_time,
                self.last_damage_time,
            )
    }
}

impl StorageModel {
    /// Whether the account of every fight is consistent.
    pub open spec fn fights_are_sound(self) -> bool {
        forall|t: i32| #[trigger]
            self.targets.contains_key(t) ==> self.targets[t].is_sound(t)
    }
}

proof fn lemma_sum_remove(actors: Map<i32, ActorModel>, a: i32)
    requires
        actors.dom().finite(),
        actors.contains_key(a),
    ensures
        actors_sum(actors) == actors[a].total_damage + actors_sum(actors.remove(a)),
{
    assert(damage_by_actor(actors).dom() =~= actors.dom());
    sums::lemma_total_remove(damage_by_actor(actors), a);
    assert(damage_by_actor(actors).remove(a) =~= damage_by_actor(actors.remove(a)));
}

proof fn lemma_sum_insert(actors: Map<i32, ActorModel>, a: i32, actor: ActorModel)
    requires
        actors.dom().finite(),
    ensures
        actors_sum(actors.insert(a, actor)) == actors_sum(actors) + actor.total_damage - if actors
            .contains_key(a) {
            actors[a].total_damage as int
        } else {
            0
        },
{
    assert(damage_by_actor(actors).dom() =~= actors.dom());
    sums::lemma_total_insert(damage_by_actor(actors), a, actor.total_damage);
    assert(damage_by_actor(actors.insert(a, actor)) =~= damage_by_actor(actors).insert(
        a,
        actor.total_damage,
    ));
}

proof fn lemma_skills_sum_insert(skills: Map<i64, SkillModel>, k: i64, skill: SkillModel)
    requires
        skills.dom().finite(),
    ensures
        skills_sum(skills.insert(k, skill)) == skills_sum(skills) + skill.total_damage
            - if skills.contains_key(k) {
            skills[k].total_damage as int
        } else {
            0
        },
{
    assert(damage_by_skill(skills).dom() =~= skills.dom());
    sums::lemma_total_insert(damage_by_skill(skills), k, skill.total_damage as i64);
    assert(damage_by_skill(skills.insert(k, skill)) =~= damage_by_skill(skills).insert(
        k,
        skill.total_damage as i64,
    ));
}

proof fn lemma_skills_sum_hit(a: ActorModel, p: ParsedDamagePacket, jobs: JobTable)
    requires
        a.skills.dom().finite(),
    ensures
        skills_sum(a.hit(p, jobs).skills) == skills_sum(a.skills) - a.skill_before(p).total_damage
            + a.skill_before(p).hit(p).total_damage,
{
    let key = storage_model::skill_key(p.skill_code, p.is_dot);
    lemma_skills_sum_insert(a.skills, key, a.skill_before(p).hit(p));
}

proof fn lemma_actor_hit_is_sound(
    a: ActorModel,
    p: ParsedDamagePacket,
    jobs: JobTable,
    first: i64,
    last: i64,
)
    requires
        a.is_sound(first, last),
        first <= p.timestamp <= last,
    ensures
        a.hit(p, jobs).is_sound(first, last),
{
    let key = storage_model::skill_key(p.skill_code, p.is_dot);
    let before = a.skill_before(p);
    let after = a.hit(p, jobs);
    lemma_skills_sum_hit(a, p, jobs);
    assert(after.skills.dom() =~= a.skills.dom().insert(key));
    law_skills_do_not_share_places(before.skill_code, before.is_dot, p.skill_code, p.is_dot);
    assert(before.is_sound(key, first, last));
    assert(before.hit(p).is_sound(key, first, last)) by {
        let times = before.hit(p).hit_timestamps;
        assert forall|i: int| 0 <= i < times.len() implies first <= #[trigger] times[i]
            <= last by {
            if i < before.hit_timestamps.len() {
                assert(times[i] == before.hit_timestamps[i]);
            }
        }
    }
    assert forall|k: i64| #[trigger] after.skills.contains_key(k) implies after.skills[k].is_sound(
        k,
        first,
        last,
    ) by {
        if k != key {
            assert(a.skills.contains_key(k));
        }
    }
    sums::lemma_wrapping(a.total_damage, p.total_damage as i64);
}

proof fn lemma_longer_span_is_sound(
    a: ActorModel,
    first: i64,
    last: i64,
    earlier: i64,
    later: i64,
)
    requires
        a.is_sound(first, last),
        earlier <= first,
        last <= later,
    ensures
        a.is_sound(earlier, later),
{
    assert forall|k: i64| #[trigger] a.skills.contains_key(k) implies a.skills[k].is_sound(
        k,
        earlier,
        later,
    ) by {
        assert(a.skills[k].is_sound(k, first, last));
    }
}

proof fn lemma_idle_is_sound(first: i64, last: i64)
    ensures
        ActorModel::idle().is_sound(first, last),
        ActorModel::idle().adds_up(),
{
    assert(damage_by_skill(Map::empty()).dom() =~= Set::empty());
}

proof fn lemma_hit_is_sound(f: TargetModel, p: ParsedDamagePacket, jobs: JobTable)
    requires
        f.target_id == p.target_id,
        f.first_damage_time <= f.last_damage_time,
        f.actors.dom().finite(),
        f.actors_are_sound(),
        sums::same_count(f.total_damage as int, actors_sum(f.actors)),
    ensures
        f.hit(p, jobs).is_sound(p.target_id),
{
    let before = f.actor_before(p);
    let after = before.hit(p, jobs);
    lemma_sum_insert(f.actors, p.actor_id, after);
    sums::lemma_wrapping(f.total_damage, p.total_damage as i64);
    sums::lemma_wrapping(before.total_damage, p.total_damage as i64);
    let hit = f.hit(p, jobs);
    let old_part = if f.actors.contains_key(p.actor_id) {
        f.actors[p.actor_id].total_damage as int
    } else {
        0
    };
    assert(old_part == before.total_damage);
    assert(hit.actors.dom() =~= f.actors.dom().insert(p.actor_id));
    assert(sums::same_count(
        hit.total_damage as int,
        f.total_damage + p.total_damage,
    ));
    assert(sums::same_count(
        after.total_damage as int,
        before.total_damage + p.total_damage,
    ));
    let first = hit.first_damage_time;
    let last = hit.last_damage_time;
    lemma_idle_is_sound(f.first_damage_time, f.last_damage_time);
    lemma_longer_span_is_sound(before, f.first_damage_time, f.last_damage_time, first, last);
    lemma_actor_hit_is_sound(before, p, jobs, first, last);
    assert forall|a: i32| #[trigger] hit.actors.contains_key(a) implies hit.actors[a].is_sound(
        first,
        last,
    ) by {
        if a != p.actor_id {
            assert(f.actors.contains_key(a));
            lemma_longer_span_is_sound(
                f.actors[a],
                f.first_damage_time,
                f.last_damage_time,
                first,
                last,
            );
        }
    }
}

proof fn lemma_without_is_sound(total: i64, actors: Map<i32, ActorModel>, ids: Seq<i32>)
    requires
        actors.dom().finite(),
        sums::same_count(total as int, actors_sum(actors)),
        keys::is_ascending(ids),
        ids.to_set().subset_of(actors.dom()),
    ensures
        sums::same_count(
            storage_model::total_without(total, actors, ids) as int,
            actors_sum(actors.remove_keys(ids.to_set())),
        ),
        actors.remove_keys(ids.to_set()).dom().finite(),
    decreases ids.len(),
{
    assert(actors.remove_keys(ids.to_set()).dom() =~= actors.dom().difference(ids.to_set()));
    if ids.len() == 0 {
        assert(actors.remove_keys(ids.to_set()) =~= actors);
    } else {
        let front = ids.drop_last();
        let a = ids.last();
        assert(ids[ids.len() - 1] == a);
        assert(ids.to_set().contains(a));
        assert forall|x: i32| front.to_set().contains(x) implies actors.dom().contains(x) by {
            let k = front.index_of(x);
            assert(ids[k] == x);
            assert(ids.to_set().contains(x));
        }
        lemma_without_is_sound(total, actors, front);
        let rest = actors.remove_keys(front.to_set());
        if front.contains(a) {
            assert(ids[front.index_of(a)] < ids[ids.len() - 1]);
        }
        assert(rest.contains_key(a));
        lemma_sum_remove(rest, a);
        assert forall|x: i32| ids.contains(x) <==> front.contains(x) || x == a by {
            if front.contains(x) {
                assert(ids[front.index_of(x)] == x);
            }
            if ids.contains(x) && x != a {
                assert(front[ids.index_of(x)] == x);
            }
        }
        assert(rest.remove(a) =~= actors.remove_keys(ids.to_set()));
        sums::lemma_wrapping(
            storage_model::total_without(total, actors, front),
            actors[a].total_damage,
        );
    }
}

proof fn lemma_purge_is_sound(s: StorageModel)
    requires
        s.fights_are_sound(),
    ensures
        s.purged().fights_are_sound(),
{
    let after = s.purged();
    assert forall|t: i32| #[trigger] after.targets.contains_key(t) implies after.targets[t].is_sound(
        t,
    ) by {
        let fight = s.targets[t];
        let friends = s.friends_of(t);
        assert(fight.is_sound(t));
        vstd::set_lib::lemma_set_subset_finite(fight.actors.dom(), friends);
        keys::lemma_ascending_exists(friends);
        lemma_without_is_sound(fight.total_damage, fight.actors, keys::ascending(friends));
        let left = after.targets[t].actors;
        assert forall|a: i32| #[trigger] left.contains_key(a) implies left[a].is_sound(
            fight.first_damage_time,
            fight.last_damage_time,
        ) by {
            assert(fight.actors.contains_key(a));
        }
        if friends == Set::<i32>::empty() {
            assert(left =~= fight.actors);
        } else {
            if left.dom().len() == 0 {
                assert(left.dom() =~= Set::empty());
                assert(left =~= Map::empty());
            }
        }
    }
}

proof fn lemma_named_is_sound(s: StorageModel, id: i32, nickname: Seq<char>)
    requires
        s.fights_are_sound(),
    ensures
        s.given_name(id, nickname).fights_are_sound(),
        s.named(id, nickname).fights_are_sound(),
{
    let with_name = StorageModel { nicknames: s.nicknames.insert(id, nickname), ..s };
    let player = StorageModel {
        known_players: with_name.known_players.insert(id),
        summons: with_name.summons.remove(id),
        ..with_name
    };
    assert(player.fights_are_sound());
    lemma_purge_is_sound(player);
}

/// The account of every fight stays consistent, before and after friendly fire is taken out: its
/// damage is that of its actors, that of an actor is that of its skills, each skill stands at its
/// own place, and each hit lies in the fight. Sums are equal up to what counters drop when they
/// wrap. What leaves the fights alone leaves their accounts alone.
pub proof fn law_fights_stay_sound(
    s: StorageModel,
    p: ParsedDamagePacket,
    jobs: JobTable,
    id: i32,
    other: i32,
    nickname: Seq<char>,
)
    requires
        s.fights_are_sound(),
    ensures
        StorageModel::empty().fights_are_sound(),
        s.after_damage(p, jobs).fights_are_sound(),
        s.named(id, nickname).fights_are_sound(),
        s.named_for_good(id, nickname).fights_are_sound(),
        s.bound_to_name(id, nickname).fights_are_sound(),
        s.summon_confirmed(id, other).fights_are_sound(),
        s.summon_linked(id, other).fights_are_sound(),
        forall|q: StorageModel| q.targets == s.targets ==> #[trigger] q.fights_are_sound(),
        s.flushed().fights_are_sound(),
        s.nicknames_reset().fights_are_sound(),
{
    lemma_named_is_sound(s, id, nickname);
    lemma_named_is_sound(
        StorageModel {
            permanent_nicknames: s.permanent_nicknames.insert(id, nickname),
            ..s
        },
        id,
        nickname,
    );
    lemma_purge_is_sound(
        StorageModel {
            confirmed_summons: s.confirmed_summons.insert(id),
            known_players: s.known_players.remove(id),
            summons: s.summons.insert(id, other),
            ..s
        },
    );
    lemma_purge_is_sound(
        StorageModel {
            known_players: s.known_players.insert(p.actor_id),
            summons: s.summons.remove(p.actor_id),
            ..s
        },
    );
    let seen = s.skill_seen(p);
    assert(seen.fights_are_sound());
    if s.counts(p) {
        if seen.targets.contains_key(p.target_id) {
            assert(seen.targets[p.target_id].is_sound(p.target_id));
        }
        assert(damage_by_actor(Map::empty()).dom() =~= Set::empty());
        lemma_hit_is_sound(seen.fight_before(p), p, jobs);
        let counted = seen.counted(p, jobs);
        assert(counted.fights_are_sound());
        let rest = StorageModel {
            pending_nicknames: counted.pending_nicknames.remove(p.actor_id),
            ..counted
        };
        lemma_named_is_sound(rest, p.actor_id, counted.pending_nicknames[p.actor_id]);
    }
}

/// Whether the number fits in a counter of 64 bits.
pub open spec fn fits_counter(n: int) -> bool {
    i64::MIN <= n <= i64::MAX
}

impl StorageModel {
    /// Whether the damage of every actor is exactly that of its skills.
    pub open spec fn actors_add_up(self) -> bool {
        forall|t: i32, a: i32|
            self.targets.contains_key(t) && #[trigger] self.targets[t].actors.contains_key(a)
                ==> self.targets[t].actors[a].adds_up()
    }

    /// Whether the counters of the event's actor and skill can take the event's damage.
    pub open spec fn has_room_for(self, p: ParsedDamagePacket) -> bool {
        let actor = self.fight_before(p).actor_before(p);
        let skill = actor.skill_before(p);
        &&& fits_counter(actor.total_damage + p.total_damage)
        &&& i32::MIN <= skill.total_damage + p.total_damage <= i32::MAX
    }
}

proof fn lemma_purge_adds_up(s: StorageModel)
    requires
        s.actors_add_up(),
    ensures
        s.purged().actors_add_up(),
{
    let after = s.purged();
    assert forall|t: i32, a: i32|
        after.targets.contains_key(t) && #[trigger] after.targets[t].actors.contains_key(
            a,
        ) implies after.targets[t].actors[a].adds_up() by {
        assert(s.targets[t].actors.contains_key(a));
    }
}

proof fn lemma_named_adds_up(s: StorageModel, id: i32, nickname: Seq<char>)
    requires
        s.actors_add_up(),
    ensures
        s.given_name(id, nickname).actors_add_up(),
        s.named(id, nickname).actors_add_up(),
{
    let with_name = StorageModel { nicknames: s.nicknames.insert(id, nickname), ..s };
    let player = StorageModel {
        known_players: with_name.known_players.insert(id),
        summons: with_name.summons.remove(id),
        ..with_name
    };
    assert(player.actors_add_up());
    lemma_purge_adds_up(player);
}

proof fn lemma_damage_adds_up(s: StorageModel, p: ParsedDamagePacket, jobs: JobTable)
    requires
        s.fights_are_sound(),
        s.actors_add_up(),
        s.has_room_for(p),
    ensures
        s.counted(p, jobs).actors_add_up(),
{
    let fight = s.fight_before(p);
    let actor = fight.actor_before(p);
    lemma_idle_is_sound(0, 0);
    if s.targets.contains_key(p.target_id) {
        assert(s.targets[p.target_id].is_sound(p.target_id));
        if fight.actors.contains_key(p.actor_id) {
            assert(s.targets[p.target_id].actors.contains_key(p.actor_id));
        }
    }
    lemma_skills_sum_hit(actor, p, jobs);
    let after = s.counted(p, jobs);
    assert forall|t: i32, a: i32|
        after.targets.contains_key(t) && #[trigger] after.targets[t].actors.contains_key(
            a,
        ) implies after.targets[t].actors[a].adds_up() by {
        if t == p.target_id {
            if a != p.actor_id {
                assert(s.targets[t].actors.contains_key(a));
            }
        } else {
            assert(s.targets[t].actors.contains_key(a));
        }
    }
}

/// As long as no counter wraps, the damage of every actor is exactly that of its skills.
pub proof fn law_actors_add_up(
    s: StorageModel,
    p: ParsedDamagePacket,
    jobs: JobTable,
    id: i32,
    other: i32,
    nickname: Seq<char>,
)
    requires
        s.fights_are_sound(),
        s.actors_add_up(),
    ensures
        StorageModel::empty().actors_add_up(),
        s.skill_seen(p).has_room_for(p) ==> s.after_damage(p, jobs).actors_add_up(),
        s.named(id, nickname).actors_add_up(),
        s.named_for_good(id, nickname).actors_add_up(),
        s.bound_to_name(id, nickname).actors_add_up(),
        s.summon_confirmed(id, other).actors_add_up(),
        s.summon_linked(id, other).actors_add_up(),
        forall|q: StorageModel| q.targets == s.targets ==> #[trigger] q.actors_add_up(),
        s.flushed().actors_add_up(),
        s.nicknames_reset().actors_add_up(),
{
    lemma_named_adds_up(s, id, nickname);
    lemma_named_adds_up(
        StorageModel {
            permanent_nicknames: s.permanent_nicknames.insert(id, nickname),
            ..s
        },
        id,
        nickname,
    );
    lemma_purge_adds_up(
        StorageModel {
            confirmed_summons: s.confirmed_summons.insert(id),
            known_players: s.known_players.remove(id),
            summons: s.summons.insert(id, other),
            ..s
        },
    );
    let player = StorageModel {
        known_players: s.known_players.insert(p.actor_id),
        summons: s.summons.remove(p.actor_id),
        ..s
    };
    lemma_purge_adds_up(player);
    lemma_purge_is_sound(player);
    let seen = s.skill_seen(p);
    assert(seen.fights_are_sound());
    assert(seen.actors_add_up());
    if s.counts(p) && seen.has_room_for(p) {
        lemma_damage_adds_up(seen, p, jobs);
        let counted = seen.counted(p, jobs);
        let rest = StorageModel {
            pending_nicknames: counted.pending_nicknames.remove(p.actor_id),
            ..counted
        };
        assert(rest.actors_add_up());
        lemma_named_adds_up(rest, p.actor_id, counted.pending_nicknames[p.actor_id]);
    }
}

/// Where the account of a fight is consistent and sums fit in their counters, they are equal: the
/// damage of the fight is that of its actors, and the hits of a skill are as many as their times.
pub proof fn law_sound_fights_are_exact(s: StorageModel, target: i32, actor: i32, place: i64)
    requires
        s.fights_are_sound(),
        s.targets.contains_key(target),
    ensures
        ({
            let fight = s.targets[target];
            let skills = fight.actors[actor].skills;
            &&& fight.target_id == target
            &&& fight.actors.dom() != Set::<i32>::empty()
            &&& fits_counter(actors_sum(fight.actors)) ==> fight.total_damage == actors_sum(
                fight.actors,
            )
            &&& fight.actors.contains_key(actor) && skills.contains_key(place) ==> {
                let skill = skills[place];
                &&& place == storage_model::skill_key(skill.skill_code, skill.is_dot)
                &&& skill.hit_timestamps.len() <= i32::MAX ==> skill.hit_count
                    == skill.hit_timestamps.len()
                &&& forall|i: int|
                    0 <= i < skill.hit_timestamps.len() ==> fight.first_damage_time
                        <= #[trigger] skill.hit_timestamps[i] <= fight.last_damage_time
            }
        }),
{
    let fight = s.targets[target];
    assert(fight.is_sound(target));
    if fight.actors.contains_key(actor) && fight.actors[actor].skills.contains_key(place) {
        assert(fight.actors[actor].is_sound(fight.first_damage_time, fight.last_damage_time));
        assert(fight.actors[actor].skills[place].is_sound(
            place,
            fight.first_damage_time,
            fight.last_damage_time,
        ));
    }
}

} // verus!
