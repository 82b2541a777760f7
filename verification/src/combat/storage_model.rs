//! What the combat storage holds, as mathematical values, and what each event does to it.
use crate::entity::damage_packet::ParsedDamagePacket;
use crate::entity::job_class::{JobClass, JobTable};
use crate::entity::special_damage::SpecialDamage;
#[allow(unused_imports)]
use crate::entity::summon_resolver;
#[allow(unused_imports)]
use crate::keys;
#[allow(unused_imports)]
use crate::text;
use vstd::prelude::*;
#[allow(unused_imports)]
use vstd::utf8::*;

verus! {

/// A pause of more than this many milliseconds ends a fight.
pub const IDLE_RESET_MS: i64 = 30_000;

/// A count that goes up by one where `when` holds. Counters are machine integers: they wrap.
pub open spec fn bumped(n: i32, when: bool) -> i32 {
    if when {
        n.wrapping_add(1)
    } else {
        n
    }
}

/// The key of a skill in its actor's table: plain hits and damage over time are kept apart.
pub open spec fn skill_key(code: i32, is_dot: bool) -> i64 {
    (code * 2 + if is_dot {
        1int
    } else {
        0
    }) as i64
}

/// What is known of one skill of one actor against one target.
#[verifier::ext_equal]
pub struct SkillModel {
    pub skill_code: i32,
    pub is_dot: bool,
    pub hit_count: i32,
    pub total_damage: i32,
    pub min_damage: i32,
    pub max_damage: i32,
    pub crit_count: i32,
    pub back_count: i32,
    pub parry_count: i32,
    pub perfect_count: i32,
    pub double_count: i32,
    pub multi_hit_count: i32,
    pub multi_hit_damage: i32,
    pub multi_hit_hits: i32,
    pub heal_amount: i32,
    pub hit_timestamps: Seq<i64>,
    pub spec_flags: Seq<bool>,
}

impl SkillModel {
    /// A skill that has not been used.
    pub open spec fn unused(skill_code: i32, is_dot: bool) -> Self {
        SkillModel {
            skill_code,
            is_dot,
            hit_count: 0,
            total_damage: 0,
            min_damage: i32::MAX,
            max_damage: 0,
            crit_count: 0,
            back_count: 0,
            parry_count: 0,
            perfect_count: 0,
            double_count: 0,
            multi_hit_count: 0,
            multi_hit_damage: 0,
            multi_hit_hits: 0,
            heal_amount: 0,
            hit_timestamps: Seq::empty(),
            spec_flags: Seq::new(5, |i: int| false),
        }
    }

    /// The skill after one more use.
    pub open spec fn hit(self, p: ParsedDamagePacket) -> Self {
        let multi = p.multi_hit_count > 0;
        SkillModel {
            skill_code: self.skill_code,
            is_dot: self.is_dot,
            hit_count: self.hit_count.wrapping_add(1),
            total_damage: self.total_damage.wrapping_add(p.total_damage),
            min_damage: if p.damage < self.min_damage {
                p.damage
            } else {
                self.min_damage
            },
            max_damage: if p.damage > self.max_damage {
                p.damage
            } else {
                self.max_damage
            },
            crit_count: bumped(self.crit_count, p.is_crit),
            back_count: bumped(self.back_count, p.marked(SpecialDamage::Back)),
            parry_count: bumped(self.parry_count, p.marked(SpecialDamage::Parry)),
            perfect_count: bumped(self.perfect_count, p.marked(SpecialDamage::Perfect)),
            double_count: bumped(self.double_count, p.marked(SpecialDamage::Double)),
            multi_hit_count: bumped(self.multi_hit_count, multi),
            multi_hit_damage: if multi {
                self.multi_hit_damage.wrapping_add(p.multi_hit_damage)
            } else {
                self.multi_hit_damage
            },
            multi_hit_hits: if multi {
                self.multi_hit_hits.wrapping_add(p.multi_hit_count)
            } else {
                self.multi_hit_hits
            },
            heal_amount: self.heal_amount.wrapping_add(p.heal_amount),
            hit_timestamps: self.hit_timestamps.push(p.timestamp),
            spec_flags: Seq::new(5, |i: int| self.spec_flags[i] || p.spec_flags@[i]),
        }
    }
}

/// What is known of one actor against one target.
#[verifier::ext_equal]
pub struct ActorModel {
    pub total_damage: i64,
    pub job: Option<JobClass>,
    pub skills: Map<i64, SkillModel>,
}

impl ActorModel {
    /// An actor that has done nothing.
    pub open spec fn idle() -> Self {
        ActorModel { total_damage: 0, job: None, skills: Map::empty() }
    }

    /// What is known of the skill that the event used, before the event.
    pub open spec fn skill_before(self, p: ParsedDamagePacket) -> SkillModel {
        let key = skill_key(p.skill_code, p.is_dot);
        if self.skills.contains_key(key) {
            self.skills[key]
        } else {
            SkillModel::unused(p.skill_code, p.is_dot)
        }
    }

    /// The actor after the event.
    pub open spec fn hit(self, p: ParsedDamagePacket, jobs: JobTable) -> Self {
        ActorModel {
            total_damage: self.total_damage.wrapping_add(p.total_damage as i64),
            job: if self.job is None {
                jobs.job_of(p.skill_code)
            } else {
                self.job
            },
            skills: self.skills.insert(
                skill_key(p.skill_code, p.is_dot),
                self.skill_before(p).hit(p),
            ),
        }
    }
}

/// What is known of one fight against one target.
#[verifier::ext_equal]
pub struct TargetModel {
    pub target_id: i32,
    pub total_damage: i64,
    pub first_damage_time: i64,
    pub last_damage_time: i64,
    pub last_packet_id: i64,
    pub actors: Map<i32, ActorModel>,
}

impl TargetModel {
    /// A fight that is about to begin.
    pub open spec fn fresh(target_id: i32, timestamp: i64) -> Self {
        TargetModel {
            target_id,
            total_damage: 0,
            first_damage_time: timestamp,
            last_damage_time: timestamp,
            last_packet_id: (-1int) as i64,
            actors: Map::empty(),
        }
    }

    /// The fight that an event at the given time belongs to: this one, or a new one after a long
    /// pause.
    pub open spec fn at(self, target_id: i32, timestamp: i64) -> Self {
        if self.last_damage_time > 0 && timestamp.wrapping_sub(self.last_damage_time)
            > IDLE_RESET_MS {
            TargetModel::fresh(target_id, timestamp)
        } else {
            self
        }
    }

    /// What is known of the event's actor before the event.
    pub open spec fn actor_before(self, p: ParsedDamagePacket) -> ActorModel {
        if self.actors.contains_key(p.actor_id) {
            self.actors[p.actor_id]
        } else {
            ActorModel::idle()
        }
    }

    /// The fight after the event.
    pub open spec fn hit(self, p: ParsedDamagePacket, jobs: JobTable) -> Self {
        TargetModel {
            target_id: self.target_id,
            total_damage: self.total_damage.wrapping_add(p.total_damage as i64),
            first_damage_time: if p.timestamp < self.first_damage_time {
                p.timestamp
            } else {
                self.first_damage_time
            },
            last_damage_time: if p.timestamp > self.last_damage_time {
                p.timestamp
            } else {
                self.last_damage_time
            },
            last_packet_id: p.id,
            actors: self.actors.insert(p.actor_id, self.actor_before(p).hit(p, jobs)),
        }
    }
}

/// A total without the damage of the given actors.
pub open spec fn total_without(total: i64, actors: Map<i32, ActorModel>, ids: Seq<i32>) -> i64
    decreases ids.len(),
{
    if ids.len() == 0 {
        total
    } else {
        total_without(total, actors, ids.drop_last()).wrapping_sub(
            actors[ids.last()].total_damage,
        )
    }
}

/// Everything the storage holds.
#[verifier::ext_equal]
pub struct StorageModel {
    pub targets: Map<i32, TargetModel>,
    pub actor_jobs: Map<i32, JobClass>,
    pub nicknames: Map<i32, Seq<char>>,
    pub pending_nicknames: Map<i32, Seq<char>>,
    pub permanent_nicknames: Map<i32, Seq<char>>,
    pub summons: Map<i32, i32>,
    pub mobs: Map<i32, i32>,
    pub mob_hp: Map<i32, i32>,
    pub known_players: Set<i32>,
    pub confirmed_summons: Set<i32>,
    pub hostile_targets: Set<i32>,
    pub current_target: i32,
    pub local_player_id: Option<i64>,
    pub local_character_name: Option<Seq<char>>,
    pub damage_generation: i64,
}

/// Whether only players use the skill.
pub open spec fn player_skill(code: i32) -> bool {
    10_000_000 <= code <= 30_999_999
}

/// Whether only creatures use the skill.
pub open spec fn npc_skill(code: i32) -> bool {
    1_000_000 <= code <= 9_999_999
}

impl StorageModel {
    /// A storage that has seen nothing.
    pub open spec fn empty() -> Self {
        StorageModel {
            targets: Map::empty(),
            actor_jobs: Map::empty(),
            nicknames: Map::empty(),
            pending_nicknames: Map::empty(),
            permanent_nicknames: Map::empty(),
            summons: Map::empty(),
            mobs: Map::empty(),
            mob_hp: Map::empty(),
            known_players: Set::empty(),
            confirmed_summons: Set::empty(),
            hostile_targets: Set::empty(),
            current_target: 0,
            local_player_id: None,
            local_character_name: None,
            damage_generation: 0,
        }
    }

    /// Whether a player, or a summon of one, acts on another.
    pub open spec fn friendly(self, actor: i32, target: i32) -> bool {
        &&& self.known_players.contains(summon_resolver::resolved(actor, self.summons))
        &&& self.known_players.contains(summon_resolver::resolved(target, self.summons))
    }

    /// The actors of a target that are on its side.
    pub open spec fn friends_of(self, target: i32) -> Set<i32> {
        self.targets[target].actors.dom().filter(|a: i32| self.friendly(a, target))
    }

    /// The target without the damage that its own side did to it.
    pub open spec fn purged_target(self, target: i32) -> TargetModel {
        let data = self.targets[target];
        TargetModel {
            total_damage: total_without(
                data.total_damage,
                data.actors,
                keys::ascending(self.friends_of(target)),
            ),
            actors: data.actors.remove_keys(self.friends_of(target)),
            ..data
        }
    }

    /// The storage without friendly fire. A target that no other damage was done to is forgotten.
    pub open spec fn purged(self) -> Self {
        StorageModel {
            targets: Map::new(
                |t: i32|
                    self.targets.contains_key(t) && (self.friends_of(t) == Set::<i32>::empty()
                        || self.purged_target(t).actors != Map::<i32, ActorModel>::empty()),
                |t: i32| self.purged_target(t),
            ),
            ..self
        }
    }

    /// Whether the event is a creature using a creature's skill, which is no one's damage.
    pub open spec fn creature_noise(self, p: ParsedDamagePacket) -> bool {
        &&& self.mobs.contains_key(p.actor_id)
        &&& !self.summons.contains_key(p.actor_id)
        &&& npc_skill(p.skill_code)
    }

    /// The storage once it is seen that the id uses a player's skill.
    pub open spec fn with_player(self, id: i32) -> Self {
        if self.known_players.contains(id) {
            self
        } else {
            (StorageModel {
                known_players: self.known_players.insert(id),
                summons: self.summons.remove(id),
                ..self
            }).purged()
        }
    }

    /// What the skill of an event says of its actor.
    pub open spec fn skill_seen(self, p: ParsedDamagePacket) -> Self {
        if player_skill(p.skill_code) && !self.confirmed_summons.contains(p.actor_id) {
            self.with_player(p.actor_id)
        } else {
            self
        }
    }

    /// The fight that the event belongs to, before the event.
    pub open spec fn fight_before(self, p: ParsedDamagePacket) -> TargetModel {
        if self.targets.contains_key(p.target_id) {
            self.targets[p.target_id].at(p.target_id, p.timestamp)
        } else {
            TargetModel::fresh(p.target_id, p.timestamp)
        }
    }

    /// The storage with the event counted.
    pub open spec fn counted(self, p: ParsedDamagePacket, jobs: JobTable) -> Self {
        StorageModel {
            hostile_targets: if self.known_players.contains(
                summon_resolver::resolved(p.actor_id, self.summons),
            ) {
                self.hostile_targets.insert(p.target_id)
            } else {
                self.hostile_targets
            },
            actor_jobs: if jobs.job_of(p.skill_code) is Some && !self.actor_jobs.contains_key(
                p.actor_id,
            ) {
                self.actor_jobs.insert(p.actor_id, jobs.job_of(p.skill_code)->0)
            } else {
                self.actor_jobs
            },
            targets: self.targets.insert(p.target_id, self.fight_before(p).hit(p, jobs)),
            damage_generation: self.damage_generation.wrapping_add(1),
            ..self
        }
    }

    /// Whether the event is damage that counts.
    pub open spec fn counts(self, p: ParsedDamagePacket) -> bool {
        !self.creature_noise(p) && !self.skill_seen(p).friendly(p.actor_id, p.target_id)
    }

    /// The storage after a damage event.
    pub open spec fn after_damage(self, p: ParsedDamagePacket, jobs: JobTable) -> Self {
        if self.creature_noise(p) {
            self
        } else if self.counts(p) {
            self.skill_seen(p).counted(p, jobs).with_pending_applied(p.actor_id)
        } else {
            self.skill_seen(p)
        }
    }

    /// The local player is the one that carries the local character's name.
    pub open spec fn local_if_named(self, uid: i32, nickname: Seq<char>) -> Self {
        match self.local_character_name {
            Some(name) if text::trimmed(name) == text::trimmed(nickname) => StorageModel {
                local_player_id: Some(uid as i64),
                ..self
            },
            _ => self,
        }
    }

    /// A nickname of two bytes does not replace a longer one: it is a fragment.
    pub open spec fn fragment_of_known(self, uid: i32, nickname: Seq<char>) -> bool {
        &&& self.nicknames.contains_key(uid)
        &&& self.nicknames[uid] != nickname
        &&& encode_utf8(nickname).len() == 2
        &&& encode_utf8(self.nicknames[uid]).len() > 2
    }

    /// Whoever has a nickname is a player, unless confirmed to be a summon.
    pub open spec fn player_by_name(self, uid: i32) -> Self {
        if self.confirmed_summons.contains(uid) {
            self
        } else {
            let unlinked = StorageModel { summons: self.summons.remove(uid), ..self };
            if self.known_players.contains(uid) {
                unlinked
            } else {
                (StorageModel {
                    known_players: self.known_players.insert(uid),
                    ..unlinked
                }).purged()
            }
        }
    }

    /// The storage once the id goes by the nickname, whatever it went by before.
    pub open spec fn given_name(self, uid: i32, nickname: Seq<char>) -> Self {
        if self.nicknames.contains_key(uid) && self.nicknames[uid] == nickname {
            self.local_if_named(uid, nickname)
        } else {
            (StorageModel { nicknames: self.nicknames.insert(uid, nickname), ..self })
                .player_by_name(uid).local_if_named(uid, nickname)
        }
    }

    /// The storage after a nickname was seen.
    pub open spec fn named(self, uid: i32, nickname: Seq<char>) -> Self {
        if self.fragment_of_known(uid, nickname) {
            self
        } else {
            self.given_name(uid, nickname)
        }
    }

    /// A nickname that was waiting for its owner to act takes effect.
    pub open spec fn with_pending_applied(self, uid: i32) -> Self {
        if !self.nicknames.contains_key(uid) && self.pending_nicknames.contains_key(uid) {
            (StorageModel {
                pending_nicknames: self.pending_nicknames.remove(uid),
                ..self
            }).named(uid, self.pending_nicknames[uid])
        } else {
            self
        }
    }

    /// A nickname that is asked for: it takes effect in any case, and outlives a reset.
    pub open spec fn bound_to_name(self, uid: i32, nickname: Seq<char>) -> Self {
        (StorageModel {
            permanent_nicknames: self.permanent_nicknames.insert(uid, nickname),
            ..self
        }).given_name(uid, nickname)
    }

    /// A nickname that was seen, and that outlives a reset.
    pub open spec fn named_for_good(self, uid: i32, nickname: Seq<char>) -> Self {
        (StorageModel {
            permanent_nicknames: self.permanent_nicknames.insert(uid, nickname),
            ..self
        }).named(uid, nickname)
    }

    /// A nickname that is to take effect once its owner acts.
    pub open spec fn nickname_put_by(self, uid: i32, nickname: Seq<char>) -> Self {
        if self.nicknames.contains_key(uid) {
            self
        } else {
            StorageModel {
                pending_nicknames: self.pending_nicknames.insert(uid, nickname),
                ..self
            }
        }
    }

    /// The server named the owner of a summon.
    pub open spec fn summon_confirmed(self, summon: i32, owner: i32) -> Self {
        (StorageModel {
            confirmed_summons: self.confirmed_summons.insert(summon),
            known_players: self.known_players.remove(summon),
            summons: self.summons.insert(summon, owner),
            ..self
        }).purged()
    }

    /// Whether `summon` may be taken for a summon of `summoner`.
    pub open spec fn may_link(self, summoner: i32, summon: i32) -> bool {
        &&& !self.nicknames.contains_key(summon)
        &&& !self.known_players.contains(summon)
        &&& !self.hostile_targets.contains(summon)
        &&& !self.summons.contains_key(summoner)
        &&& !self.mobs.contains_key(summoner)
        &&& self.actor_jobs.contains_key(summon) && self.actor_jobs.contains_key(summoner)
            ==> self.actor_jobs[summon] == self.actor_jobs[summoner]
    }

    /// A summon was seen beside its likely owner.
    pub open spec fn summon_linked(self, summoner: i32, summon: i32) -> Self {
        if self.may_link(summoner, summon) {
            StorageModel { summons: self.summons.insert(summon, summoner), ..self }
        } else {
            self
        }
    }

    /// Whether the id has taken part in combat.
    pub open spec fn in_combat(self, id: i32) -> bool {
        ||| exists|t: i32|
            #[trigger] self.targets.contains_key(t) && self.targets[t].actors.contains_key(id)
        ||| self.targets.contains_key(id)
        ||| self.summons.contains_key(id)
    }

    /// The storage without its combat data; names and creatures stay.
    pub open spec fn flushed(self) -> Self {
        StorageModel {
            targets: Map::empty(),
            actor_jobs: Map::empty(),
            summons: Map::empty(),
            known_players: Set::empty(),
            confirmed_summons: Set::empty(),
            hostile_targets: Set::empty(),
            mob_hp: Map::empty(),
            current_target: 0,
            ..self
        }
    }

    /// The storage with no nicknames but the permanent ones.
    pub open spec fn nicknames_reset(self) -> Self {
        StorageModel {
            nicknames: self.permanent_nicknames,
            pending_nicknames: Map::empty(),
            ..self
        }
    }
}

} // verus!
