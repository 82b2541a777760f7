//! What the combat storage holds, told by the events that came in.
use crate::combat::storage_model;
use crate::combat::storage_model::{ActorModel, SkillModel, StorageModel, TargetModel};
use crate::entity::damage_packet::ParsedDamagePacket;
use crate::entity::job_class::{JobClass, JobTable};
use crate::entity::special_damage::SpecialDamage;
use crate::entity::summon_resolver;
use crate::entity::target_laws;
use crate::sums;
use crate::tallies;
use crate::text;
use vstd::prelude::*;
use vstd::utf8::*;

verus! {

/// How many events carry the mark.
pub open spec fn marks(ps: Seq<ParsedDamagePacket>, mark: SpecialDamage) -> int {
    tallies::count(ps, |p: ParsedDamagePacket| p.specials@.contains(mark))
}

/// The further hits of an event.
pub open spec fn more_hits(p: ParsedDamagePacket) -> int {
    if p.multi_hit_count > 0 {
        p.multi_hit_count as int
    } else {
        0
    }
}

/// The damage of the further hits of an event.
pub open spec fn more_damage(p: ParsedDamagePacket) -> int {
    if p.multi_hit_count > 0 {
        p.multi_hit_damage as int
    } else {
        0
    }
}

/// Whether what is known of a skill counts just the given uses. Counters are equal up to what they
/// drop when they wrap.
pub open spec fn skill_counts(s: SkillModel, uses: Seq<ParsedDamagePacket>) -> bool {
    &&& sums::same_count32(s.hit_count as int, uses.len() as int)
    &&& sums::same_count32(s.total_damage as int, tallies::damage_sum(uses))
    &&& sums::same_count32(
        s.crit_count as int,
        tallies::count(uses, |p: ParsedDamagePacket| p.is_crit),
    )
    &&& sums::same_count32(s.back_count as int, marks(uses, SpecialDamage::Back))
    &&& sums::same_count32(s.parry_count as int, marks(uses, SpecialDamage::Parry))
    &&& sums::same_count32(s.perfect_count as int, marks(uses, SpecialDamage::Perfect))
    &&& sums::same_count32(s.double_count as int, marks(uses, SpecialDamage::Double))
    &&& sums::same_count32(
        s.multi_hit_count as int,
        tallies::count(uses, |p: ParsedDamagePacket| p.multi_hit_count > 0),
    )
    &&& sums::same_count32(
        s.multi_hit_hits as int,
        tallies::sum_by(uses, |p: ParsedDamagePacket| more_hits(p)),
    )
    &&& sums::same_count32(
        s.multi_hit_damage as int,
        tallies::sum_by(uses, |p: ParsedDamagePacket| more_damage(p)),
    )
    &&& sums::same_count32(
        s.heal_amount as int,
        tallies::sum_by(uses, |p: ParsedDamagePacket| p.heal_amount as int),
    )
}

/// Whether the largest and the smallest hit are those of the uses.
pub open spec fn has_extremes(s: SkillModel, uses: Seq<ParsedDamagePacket>) -> bool {
    &&& forall|i: int|
        0 <= i < uses.len() ==> s.min_damage <= (#[trigger] uses[i]).damage <= s.max_damage
    &&& s.max_damage == 0 || exists|i: int|
        0 <= i < uses.len() && (#[trigger] uses[i]).damage == s.max_damage
    &&& s.max_damage >= 0
    &&& uses.len() > 0 ==> exists|i: int|
        0 <= i < uses.len() && (#[trigger] uses[i]).damage == s.min_damage
}

/// Whether one of the uses carries the flag.
pub open spec fn is_flagged(uses: Seq<ParsedDamagePacket>, flag: int) -> bool {
    exists|i: int| 0 <= i < uses.len() && (#[trigger] uses[i]).spec_flags@[flag]
}

/// Whether what is known of a skill tells of just the given uses: it counts them, has their largest
/// and their smallest hit and their times in order, and a flag where one of them has it.
pub open spec fn skill_tells_of(s: SkillModel, uses: Seq<ParsedDamagePacket>) -> bool {
    &&& skill_counts(s, uses)
    &&& has_extremes(s, uses)
    &&& uses.len() == 0 ==> s.min_damage == i32::MAX
    &&& s.hit_timestamps.len() == uses.len()
    &&& forall|i: int| 0 <= i < uses.len() ==> #[trigger] s.hit_timestamps[i] == uses[i].timestamp
    &&& s.spec_flags.len() == 5
    &&& forall|f: int| 0 <= f < 5 ==> #[trigger] s.spec_flags[f] == is_flagged(uses, f)
}

proof fn lemma_skill_counts(s: SkillModel, uses: Seq<ParsedDamagePacket>, p: ParsedDamagePacket)
    requires
        skill_counts(s, uses),
    ensures
        skill_counts(s.hit(p), uses.push(p)),
{
    tallies::lemma_sum_push(uses, p, |q: ParsedDamagePacket| q.total_damage as int);
    tallies::lemma_sum_push(uses, p, |q: ParsedDamagePacket| more_hits(q));
    tallies::lemma_sum_push(uses, p, |q: ParsedDamagePacket| more_damage(q));
    tallies::lemma_sum_push(uses, p, |q: ParsedDamagePacket| q.heal_amount as int);
    tallies::lemma_filter_push(uses, p, |q: ParsedDamagePacket| q.is_crit);
    tallies::lemma_filter_push(uses, p, |q: ParsedDamagePacket| q.multi_hit_count > 0);
    tallies::lemma_filter_push(
        uses,
        p,
        |q: ParsedDamagePacket| q.specials@.contains(SpecialDamage::Back),
    );
    tallies::lemma_filter_push(
        uses,
        p,
        |q: ParsedDamagePacket| q.specials@.contains(SpecialDamage::Parry),
    );
    tallies::lemma_filter_push(
        uses,
        p,
        |q: ParsedDamagePacket| q.specials@.contains(SpecialDamage::Perfect),
    );
    tallies::lemma_filter_push(
        uses,
        p,
        |q: ParsedDamagePacket| q.specials@.contains(SpecialDamage::Double),
    );
}

proof fn lemma_unused_skill(code: i32, is_dot: bool)
    ensures
        skill_tells_of(SkillModel::unused(code, is_dot), Seq::empty()),
{
    reveal(Seq::filter);
}

proof fn lemma_skill_hit(s: SkillModel, uses: Seq<ParsedDamagePacket>, p: ParsedDamagePacket)
    requires
        skill_tells_of(s, uses),
    ensures
        skill_tells_of(s.hit(p), uses.push(p)),
{
    lemma_skill_counts(s, uses, p);
    let all = uses.push(p);
    let after = s.hit(p);
    assert(all[uses.len() as int] == p);
    assert forall|i: int| 0 <= i < all.len() implies after.min_damage <= (#[trigger] all[i]).damage
        <= after.max_damage by {
        if i < uses.len() {
            assert(all[i] == uses[i]);
        }
    }
    if after.max_damage != 0 && after.max_damage != p.damage {
        let i = choose|i: int| 0 <= i < uses.len() && (#[trigger] uses[i]).damage == s.max_damage;
        assert(all[i].damage == after.max_damage);
    }
    if after.min_damage != p.damage {
        let i = choose|i: int| 0 <= i < uses.len() && (#[trigger] uses[i]).damage == s.min_damage;
        assert(all[i].damage == after.min_damage);
    }
    assert forall|i: int| 0 <= i < all.len() implies #[trigger] after.hit_timestamps[i]
        == all[i].timestamp by {
        if i < uses.len() {
            assert(after.hit_timestamps[i] == s.hit_timestamps[i]);
            assert(all[i] == uses[i]);
        }
    }
    assert forall|f: int| 0 <= f < 5 implies #[trigger] after.spec_flags[f] == is_flagged(
        all,
        f,
    ) by {
        assert(s.spec_flags[f] == is_flagged(uses, f));
        if is_flagged(uses, f) {
            let i = choose|i: int| 0 <= i < uses.len() && (#[trigger] uses[i]).spec_flags@[f];
            assert(all[i].spec_flags@[f]);
        }
        if is_flagged(all, f) && !p.spec_flags@[f] {
            let i = choose|i: int| 0 <= i < all.len() && (#[trigger] all[i]).spec_flags@[f];
            assert(uses[i].spec_flags@[f]);
        }
    }
}

/// The events of an actor.
pub open spec fn deeds(ps: Seq<ParsedDamagePacket>, actor: i32) -> Seq<ParsedDamagePacket> {
    ps.filter(|p: ParsedDamagePacket| p.actor_id == actor)
}

/// The uses of a skill: all plain, or all over time.
pub open spec fn uses(ps: Seq<ParsedDamagePacket>, code: i32, is_dot: bool) -> Seq<
    ParsedDamagePacket,
> {
    ps.filter(|p: ParsedDamagePacket| p.skill_code == code && p.is_dot == is_dot)
}

/// Whether the class is that of the first event whose skill has one; none where none has.
pub open spec fn is_first_class(
    job: Option<JobClass>,
    ps: Seq<ParsedDamagePacket>,
    jobs: JobTable,
) -> bool {
    if job is Some {
        exists|k: int| #[trigger] gives_class(ps, jobs, k, job)
    } else {
        forall|k: int| 0 <= k < ps.len() ==> jobs.job_of((#[trigger] ps[k]).skill_code) is None
    }
}

/// Whether the event is the first whose skill has a class, and the class is that.
pub open spec fn gives_class(
    ps: Seq<ParsedDamagePacket>,
    jobs: JobTable,
    k: int,
    job: Option<JobClass>,
) -> bool {
    &&& 0 <= k < ps.len()
    &&& jobs.job_of(ps[k].skill_code) == job
    &&& forall|j: int| 0 <= j < k ==> jobs.job_of((#[trigger] ps[j]).skill_code) is None
}

/// Whether what is known of an actor tells of just the given events: their damage as a whole, the
/// class of the first that has one, and each skill by its uses.
pub open spec fn actor_tells_of(
    a: ActorModel,
    ps: Seq<ParsedDamagePacket>,
    jobs: JobTable,
) -> bool {
    &&& sums::same_count(a.total_damage as int, tallies::damage_sum(ps))
    &&& is_first_class(a.job, ps, jobs)
    &&& forall|code: i32, is_dot: bool|
        #![trigger uses(ps, code, is_dot)]
        {
            let key = storage_model::skill_key(code, is_dot);
            &&& a.skills.contains_key(key) <==> uses(ps, code, is_dot).len() > 0
            &&& a.skills.contains_key(key) ==> {
                &&& skill_tells_of(a.skills[key], uses(ps, code, is_dot))
                &&& a.skills[key].skill_code == code
                &&& a.skills[key].is_dot == is_dot
            }
        }
}

proof fn lemma_idle_actor(jobs: JobTable)
    ensures
        actor_tells_of(ActorModel::idle(), Seq::empty(), jobs),
{
    reveal(Seq::filter);
}

proof fn lemma_first_class(
    job: Option<JobClass>,
    ps: Seq<ParsedDamagePacket>,
    jobs: JobTable,
    p: ParsedDamagePacket,
)
    requires
        is_first_class(job, ps, jobs),
    ensures
        is_first_class(
            if job is None {
                jobs.job_of(p.skill_code)
            } else {
                job
            },
            ps.push(p),
            jobs,
        ),
{
    let all = ps.push(p);
    let n = ps.len() as int;
    assert(all[n] == p);
    if job is Some {
        let k = choose|k: int| #[trigger] gives_class(ps, jobs, k, job);
        assert(all[k] == ps[k]);
        assert forall|j: int| 0 <= j < k implies jobs.job_of(
            (#[trigger] all[j]).skill_code,
        ) is None by {
            assert(all[j] == ps[j]);
        }
        assert(gives_class(all, jobs, k, job));
    } else {
        assert forall|j: int| 0 <= j < n implies jobs.job_of(
            (#[trigger] all[j]).skill_code,
        ) is None by {
            assert(all[j] == ps[j]);
        }
        if jobs.job_of(p.skill_code) is Some {
            assert(gives_class(all, jobs, n, jobs.job_of(p.skill_code)));
        }
    }
}

proof fn lemma_actor_hit(
    a: ActorModel,
    ps: Seq<ParsedDamagePacket>,
    jobs: JobTable,
    p: ParsedDamagePacket,
)
    requires
        actor_tells_of(a, ps, jobs),
    ensures
        actor_tells_of(a.hit(p, jobs), ps.push(p), jobs),
{
    let all = ps.push(p);
    let after = a.hit(p, jobs);
    lemma_first_class(a.job, ps, jobs, p);
    tallies::lemma_sum_push(ps, p, |q: ParsedDamagePacket| q.total_damage as int);
    sums::lemma_wrapping(a.total_damage, p.total_damage as i64);
    assert forall|code: i32, is_dot: bool|
        #![trigger uses(all, code, is_dot)]
        ({
            let key = storage_model::skill_key(code, is_dot);
            &&& after.skills.contains_key(key) <==> uses(all, code, is_dot).len() > 0
            &&& after.skills.contains_key(key) ==> {
                &&& skill_tells_of(after.skills[key], uses(all, code, is_dot))
                &&& after.skills[key].skill_code == code
                &&& after.skills[key].is_dot == is_dot
            }
        }) by {
        let key = storage_model::skill_key(code, is_dot);
        let fits = |q: ParsedDamagePacket| q.skill_code == code && q.is_dot == is_dot;
        let before = uses(ps, code, is_dot);
        tallies::lemma_filter_push(ps, p, fits);
        if p.skill_code == code && p.is_dot == is_dot {
            if !a.skills.contains_key(key) {
                assert(before =~= Seq::empty());
                lemma_unused_skill(code, is_dot);
            }
            lemma_skill_hit(a.skill_before(p), before, p);
        }
    }
}

/// Whether what is known of a fight tells of just the given events: their damage as a whole, when
/// the earliest and the latest came, which was the last, and each actor by its events.
pub open spec fn fight_tells_of(
    t: TargetModel,
    ps: Seq<ParsedDamagePacket>,
    jobs: JobTable,
) -> bool {
    &&& ps.len() > 0
    &&& sums::same_count(t.total_damage as int, tallies::damage_sum(ps))
    &&& target_laws::is_earliest(t.first_damage_time, ps)
    &&& target_laws::is_latest(t.last_damage_time, ps)
    &&& t.last_packet_id == ps.last().id
    &&& forall|a: i32|
        #![trigger deeds(ps, a)]
        {
            &&& t.actors.contains_key(a) <==> deeds(ps, a).len() > 0
            &&& t.actors.contains_key(a) ==> actor_tells_of(t.actors[a], deeds(ps, a), jobs)
        }
}

proof fn lemma_fight_begins(target: i32, p: ParsedDamagePacket, jobs: JobTable)
    ensures
        fight_tells_of(TargetModel::fresh(target, p.timestamp).hit(p, jobs), seq![p], jobs),
{
    let t = TargetModel::fresh(target, p.timestamp);
    let after = t.hit(p, jobs);
    let none = Seq::<ParsedDamagePacket>::empty();
    assert(none.push(p) =~= seq![p]);
    tallies::lemma_sum_push(none, p, |q: ParsedDamagePacket| q.total_damage as int);
    assert(seq![p][0].timestamp == p.timestamp);
    assert forall|a: i32|
        #![trigger deeds(seq![p], a)]
        ({
            &&& after.actors.contains_key(a) <==> deeds(seq![p], a).len() > 0
            &&& after.actors.contains_key(a) ==> actor_tells_of(
                after.actors[a],
                deeds(seq![p], a),
                jobs,
            )
        }) by {
        tallies::lemma_filter_push(none, p, |q: ParsedDamagePacket| q.actor_id == a);
        reveal(Seq::filter);
        assert(deeds(none, a) =~= none);
        lemma_idle_actor(jobs);
        lemma_actor_hit(ActorModel::idle(), none, jobs, p);
    }
}

proof fn lemma_fight_goes_on(
    t: TargetModel,
    ps: Seq<ParsedDamagePacket>,
    p: ParsedDamagePacket,
    jobs: JobTable,
)
    requires
        fight_tells_of(t, ps, jobs),
    ensures
        fight_tells_of(t.hit(p, jobs), ps.push(p), jobs),
{
    let all = ps.push(p);
    let after = t.hit(p, jobs);
    tallies::lemma_sum_push(ps, p, |q: ParsedDamagePacket| q.total_damage as int);
    sums::lemma_wrapping(t.total_damage, p.total_damage as i64);
    target_laws::lemma_latest_push(t.last_damage_time, ps, p);
    target_laws::lemma_earliest_push(t.first_damage_time, ps, p);
    assert forall|a: i32|
        #![trigger deeds(all, a)]
        ({
            &&& after.actors.contains_key(a) <==> deeds(all, a).len() > 0
            &&& after.actors.contains_key(a) ==> actor_tells_of(
                after.actors[a],
                deeds(all, a),
                jobs,
            )
        }) by {
        tallies::lemma_filter_push(ps, p, |q: ParsedDamagePacket| q.actor_id == a);
        let before = deeds(ps, a);
        if a == p.actor_id {
            if !t.actors.contains_key(a) {
                assert(before =~= Seq::empty());
                lemma_idle_actor(jobs);
            }
            lemma_actor_hit(t.actor_before(p), before, jobs, p);
        }
    }
}

/// What is held of a target tells of the events of the fight that goes on: an event within half a
/// minute of the latest belongs to it, a later one begins a new one, and so does the first. What is
/// held of other targets stays.
pub proof fn law_a_stored_fight_tells_of_its_events(
    s: StorageModel,
    fight: Seq<ParsedDamagePacket>,
    p: ParsedDamagePacket,
    jobs: JobTable,
    other: i32,
)
    requires
        p.timestamp > 0,
        forall|i: int| 0 <= i < fight.len() ==> (#[trigger] fight[i]).timestamp > 0,
        s.targets.contains_key(p.target_id) <==> fight.len() > 0,
        s.targets.contains_key(p.target_id) ==> fight_tells_of(
            s.targets[p.target_id],
            fight,
            jobs,
        ),
        other != p.target_id,
    ensures
        ({
            let after = s.counted(p, jobs);
            let in_time = exists|i: int|
                0 <= i < fight.len() && p.timestamp - (#[trigger] fight[i]).timestamp <= 30_000;
            &&& after.targets.contains_key(p.target_id)
            &&& fight_tells_of(
                after.targets[p.target_id],
                if in_time {
                    fight.push(p)
                } else {
                    seq![p]
                },
                jobs,
            )
            &&& after.targets.contains_key(other) == s.targets.contains_key(other)
            &&& after.targets[other] == s.targets[other]
        }),
{
    if fight.len() > 0 {
        let t = s.targets[p.target_id];
        let last = choose|i: int|
            0 <= i < fight.len() && (#[trigger] fight[i]).timestamp == t.last_damage_time;
        assert(fight[last].timestamp > 0);
        lemma_fight_goes_on(t, fight, p, jobs);
    }
    lemma_fight_begins(p.target_id, p, jobs);
}

/// Whether a creature uses a skill of creatures.
pub open spec fn is_noise(s: StorageModel, p: ParsedDamagePacket) -> bool {
    s.mobs.contains_key(p.actor_id) && !s.summons.contains_key(p.actor_id) && 1_000_000
        <= p.skill_code && p.skill_code < 10_000_000
}

/// Whether the event shows its actor to be a player: it uses a skill of players, and the server did
/// not say that it is a summon.
pub open spec fn shows_a_player(s: StorageModel, p: ParsedDamagePacket) -> bool {
    10_000_000 <= p.skill_code && p.skill_code < 31_000_000 && !s.confirmed_summons.contains(
        p.actor_id,
    )
}

/// A creature that uses a skill of creatures changes nothing. Anyone else that uses a skill of
/// players is a player from then on, and no summon, unless the server said otherwise; no one else
/// becomes a player by an event, nor stops being one.
pub proof fn law_who_an_event_makes_a_player(
    s: StorageModel,
    p: ParsedDamagePacket,
    jobs: JobTable,
    id: i32,
)
    requires
        s.nicknames.contains_key(p.actor_id) || !s.pending_nicknames.contains_key(p.actor_id),
    ensures
        is_noise(s, p) ==> s.after_damage(p, jobs) == s,
        !is_noise(s, p) && shows_a_player(s, p) && !s.known_players.contains(p.actor_id) ==> {
            let after = s.after_damage(p, jobs);
            &&& after.known_players.contains(p.actor_id)
            &&& !after.summons.contains_key(p.actor_id)
        },
        id != p.actor_id || !shows_a_player(s, p) || s.known_players.contains(p.actor_id) ==> {
            let after = s.after_damage(p, jobs);
            &&& after.known_players.contains(id) == s.known_players.contains(id)
            &&& after.summons.contains_key(id) == s.summons.contains_key(id)
            &&& after.summons[id] == s.summons[id]
        },
{
}

/// Whether one of the two is a player, or a summon of one, and the other is, too.
pub open spec fn are_on_one_side(
    actor: i32,
    target: i32,
    players: Set<i32>,
    summons: Map<i32, i32>,
) -> bool {
    players.contains(summon_resolver::resolved(actor, summons)) && players.contains(
        summon_resolver::resolved(target, summons),
    )
}

/// An event between two of one side counts for nothing; every other one, but for those of creatures
/// with their own skills, is counted, and counted once. What it was counted against is hostile from
/// then on where a player's side did it.
pub proof fn law_what_is_counted(s: StorageModel, p: ParsedDamagePacket, jobs: JobTable)
    requires
        !is_noise(s, p),
        !shows_a_player(s, p) || s.known_players.contains(p.actor_id),
        s.nicknames.contains_key(p.actor_id) || !s.pending_nicknames.contains_key(p.actor_id),
    ensures
        ({
            let after = s.after_damage(p, jobs);
            let own = are_on_one_side(p.actor_id, p.target_id, s.known_players, s.summons);
            &&& own ==> after == s
            &&& !own ==> {
                &&& after.targets == s.counted(p, jobs).targets
                &&& sums::same_count(
                    after.damage_generation as int,
                    s.damage_generation + 1,
                )
                &&& after.hostile_targets.contains(p.target_id) <==> s.hostile_targets.contains(
                    p.target_id,
                ) || s.known_players.contains(
                    summon_resolver::resolved(p.actor_id, s.summons),
                )
            }
        }),
{
}

/// The class of an actor is the first that a skill of its showed; it stays, and no one else's
/// changes.
pub proof fn law_the_first_class_stays(
    s: StorageModel,
    p: ParsedDamagePacket,
    jobs: JobTable,
    id: i32,
)
    ensures
        ({
            let after = s.counted(p, jobs);
            &&& s.actor_jobs.contains_key(id) ==> after.actor_jobs.contains_key(id)
                && after.actor_jobs[id] == s.actor_jobs[id]
            &&& !s.actor_jobs.contains_key(id) && after.actor_jobs.contains_key(id) ==> id
                == p.actor_id && jobs.job_of(p.skill_code) == Some(after.actor_jobs[id])
            &&& jobs.job_of(p.skill_code) is Some ==> after.actor_jobs.contains_key(p.actor_id)
        }),
{
}

/// The purge takes out just the damage of a target's own side: every other actor stays as it is,
/// and so do the times; the damage as a whole goes down by what was taken out where there was one.
/// A target stays unless all of its actors were taken out.
pub proof fn law_the_purge_takes_out_friendly_fire_alone(s: StorageModel, t: i32, a: i32)
    requires
        s.targets.contains_key(t),
        s.targets[t].actors.contains_key(a),
    ensures
        ({
            let after = s.purged();
            let own = are_on_one_side(a, t, s.known_players, s.summons);
            &&& !own ==> {
                &&& after.targets.contains_key(t)
                &&& after.targets[t].actors.contains_key(a)
                &&& after.targets[t].actors[a] == s.targets[t].actors[a]
            }
            &&& own && after.targets.contains_key(t) ==> !after.targets[t].actors.contains_key(a)
            &&& after.targets.contains_key(t) ==> {
                &&& after.targets[t].first_damage_time == s.targets[t].first_damage_time
                &&& after.targets[t].last_damage_time == s.targets[t].last_damage_time
                &&& after.targets[t].last_packet_id == s.targets[t].last_packet_id
            }
            &&& after.known_players == s.known_players
            &&& after.summons == s.summons
            &&& after.nicknames == s.nicknames
            &&& after.damage_generation == s.damage_generation
        }),
{
    let own = are_on_one_side(a, t, s.known_players, s.summons);
    if !own {
        assert(!s.friends_of(t).contains(a));
        assert(s.purged_target(t).actors.contains_key(a));
    } else {
        assert(s.friends_of(t).contains(a));
    }
}

/// Whether the nickname is two bytes where a longer one is known.
pub open spec fn is_fragment(s: StorageModel, id: i32, nickname: Seq<char>) -> bool {
    s.nicknames.contains_key(id) && encode_utf8(nickname).len() == 2 && encode_utf8(
        s.nicknames[id],
    ).len() > 2
}

/// A nickname that was seen is taken over, makes its owner a player and no summon, unless the
/// server said that it is one, and finds the local player where it is its name, white space at the
/// ends aside. Two bytes where a longer nickname is known change nothing.
pub proof fn law_what_a_nickname_does(s: StorageModel, id: i32, nickname: Seq<char>, other: i32)
    requires
        other != id,
    ensures
        is_fragment(s, id, nickname) ==> s.named(id, nickname) == s,
        !is_fragment(s, id, nickname) ==> {
            let after = s.named(id, nickname);
            let is_new = !s.nicknames.contains_key(id) || s.nicknames[id] != nickname;
            &&& after.nicknames == s.nicknames.insert(id, nickname)
            &&& is_new && !s.confirmed_summons.contains(id) ==> after.known_players.contains(id)
                && !after.summons.contains_key(id)
            &&& s.confirmed_summons.contains(id) || !is_new ==> after.known_players
                == s.known_players && after.summons == s.summons
            &&& after.known_players.contains(other) == s.known_players.contains(other)
            &&& after.summons.contains_key(other) == s.summons.contains_key(other)
            &&& after.summons[other] == s.summons[other]
            &&& after.local_player_id == if s.local_character_name is Some && text::trimmed(
                s.local_character_name->0,
            ) == text::trimmed(nickname) {
                Some(id as i64)
            } else {
                s.local_player_id
            }
        },
{
    if !is_fragment(s, id, nickname) && s.nicknames.contains_key(id) && s.nicknames[id]
        == nickname {
        assert(s.nicknames.insert(id, nickname) =~= s.nicknames);
    }
}

/// A nickname that is put by changes no one's name until its owner does something that counts; then
/// it is the owner's name and waits no longer. Where a name is known, it is not put by. What waits
/// for others goes on waiting.
pub proof fn law_a_nickname_put_by_waits_for_its_owner(
    s: StorageModel,
    id: i32,
    nickname: Seq<char>,
    p: ParsedDamagePacket,
    jobs: JobTable,
)
    requires
        !s.nicknames.contains_key(id),
    ensures
        ({
            let waiting = s.nickname_put_by(id, nickname);
            let after = waiting.after_damage(p, jobs);
            &&& waiting.nicknames == s.nicknames
            &&& p.actor_id == id && waiting.counts(p) ==> after.nicknames.contains_key(id)
                && after.nicknames[id] == nickname && !after.pending_nicknames.contains_key(id)
            &&& p.actor_id != id || !waiting.counts(p) ==> !after.nicknames.contains_key(id)
                && after.pending_nicknames.contains_key(id) && after.pending_nicknames[id]
                == nickname
        }),
        forall|other: i32, name: Seq<char>|
            s.nicknames.contains_key(other) ==> #[trigger] s.nickname_put_by(other, name) == s,
{
}

/// Once the server names the owner of a summon, the summon is linked to that owner, is no player,
/// and everyone else is what it was.
pub proof fn law_a_confirmed_summon_belongs_to_its_owner(
    s: StorageModel,
    summon: i32,
    owner: i32,
    other: i32,
)
    requires
        other != summon,
    ensures
        ({
            let after = s.summon_confirmed(summon, owner);
            &&& after.summons == s.summons.insert(summon, owner)
            &&& after.confirmed_summons.contains(summon)
            &&& after.confirmed_summons.contains(other) == s.confirmed_summons.contains(other)
            &&& !after.known_players.contains(summon)
            &&& after.known_players.contains(other) == s.known_players.contains(other)
            &&& after.nicknames == s.nicknames
            &&& after.damage_generation == s.damage_generation
        }),
{
}

/// Who is seen beside someone is taken for that one's summon just where it has no nickname, is no
/// player and was not hit by one, the other is neither a summon nor a creature, and the two are of
/// one class, as far as that is known. Nothing else changes.
pub proof fn law_who_is_taken_for_a_summon(s: StorageModel, summoner: i32, summon: i32, other: i32)
    requires
        other != summon,
    ensures
        ({
            let after = s.summon_linked(summoner, summon);
            let nobody = !s.nicknames.contains_key(summon) && !s.known_players.contains(summon)
                && !s.hostile_targets.contains(summon);
            let owner = !s.summons.contains_key(summoner) && !s.mobs.contains_key(summoner);
            let alike = !s.actor_jobs.contains_key(summon) || !s.actor_jobs.contains_key(summoner)
                || s.actor_jobs[summon] == s.actor_jobs[summoner];
            &&& nobody && owner && alike ==> after.summons.contains_key(summon)
                && after.summons[summon] == summoner
            &&& !(nobody && owner && alike) ==> after == s
            &&& after.summons.contains_key(other) == s.summons.contains_key(other)
            &&& after.summons[other] == s.summons[other]
            &&& after.known_players == s.known_players
            &&& after.targets == s.targets
            &&& after.nicknames == s.nicknames
        }),
{
}

/// Whoever did or took damage that was counted, and whoever is linked to an owner, is in combat;
/// one who did nothing, took nothing and is linked to no one is not.
pub proof fn law_who_is_in_combat(
    s: StorageModel,
    p: ParsedDamagePacket,
    jobs: JobTable,
    summon: i32,
    owner: i32,
    id: i32,
)
    requires
        id != p.actor_id,
        id != p.target_id,
        !s.in_combat(id),
    ensures
        s.counted(p, jobs).in_combat(p.actor_id),
        s.counted(p, jobs).in_combat(p.target_id),
        !s.counted(p, jobs).in_combat(id),
        (StorageModel { summons: s.summons.insert(summon, owner), ..s }).in_combat(summon),
        !StorageModel::empty().in_combat(id),
{
    let after = s.counted(p, jobs);
    assert(after.targets.contains_key(p.target_id));
    assert(after.targets[p.target_id].actors.contains_key(p.actor_id));
    if after.in_combat(id) {
        let t = choose|t: i32|
            #[trigger] after.targets.contains_key(t) && after.targets[t].actors.contains_key(id);
        if s.targets.contains_key(t) {
            assert(s.targets[t].actors.contains_key(id) || !s.targets[t].actors.contains_key(id));
        }
    }
}

/// Dropping the combat data leaves no fights, classes, links, players or health behind.
pub proof fn law_a_flush_forgets_the_combat(s: StorageModel, id: i32)
    ensures
        ({
            let after = s.flushed();
            &&& !after.targets.contains_key(id)
            &&& !after.actor_jobs.contains_key(id)
            &&& !after.summons.contains_key(id)
            &&& !after.known_players.contains(id)
            &&& !after.confirmed_summons.contains(id)
            &&& !after.hostile_targets.contains(id)
            &&& !after.mob_hp.contains_key(id)
            &&& after.current_target == 0
        }),
{
}

/// A reset of the nicknames leaves just the permanent ones, and none that waits.
pub proof fn law_a_reset_leaves_the_permanent_nicknames(s: StorageModel, id: i32)
    ensures
        ({
            let after = s.nicknames_reset();
            &&& after.nicknames.contains_key(id) <==> s.permanent_nicknames.contains_key(id)
            &&& after.nicknames.contains_key(id) ==> after.nicknames[id]
                == s.permanent_nicknames[id]
            &&& !after.pending_nicknames.contains_key(id)
            &&& after.targets == s.targets
            &&& after.known_players == s.known_players
            &&& after.summons == s.summons
        }),
{
}

/// An event counts just where it is not that of a creature with its own skills, and the two it is
/// between are not of one side, its actor taken for a player where it shows itself to be one.
pub proof fn law_which_events_count(s: StorageModel, p: ParsedDamagePacket)
    ensures
        ({
            let is_new = shows_a_player(s, p) && !s.known_players.contains(p.actor_id);
            let players = if is_new {
                s.known_players.insert(p.actor_id)
            } else {
                s.known_players
            };
            let summons = if is_new {
                s.summons.remove(p.actor_id)
            } else {
                s.summons
            };
            s.counts(p) <==> !is_noise(s, p) && !are_on_one_side(
                p.actor_id,
                p.target_id,
                players,
                summons,
            )
        }),
{
}

/// An event of one who becomes a player by it takes out the damage that is friendly fire from then
/// on, and is counted after that where it counts.
pub proof fn law_a_new_player_is_purged_of_first(
    s: StorageModel,
    p: ParsedDamagePacket,
    jobs: JobTable,
)
    requires
        !is_noise(s, p),
        shows_a_player(s, p),
        !s.known_players.contains(p.actor_id),
        s.nicknames.contains_key(p.actor_id) || !s.pending_nicknames.contains_key(p.actor_id),
    ensures
        ({
            let met = StorageModel {
                known_players: s.known_players.insert(p.actor_id),
                summons: s.summons.remove(p.actor_id),
                ..s
            };
            &&& s.counts(p) ==> s.after_damage(p, jobs) == met.purged().counted(p, jobs)
            &&& !s.counts(p) ==> s.after_damage(p, jobs) == met.purged()
        }),
{
}

/// A nickname that is asked for is taken over in any case, also where it is two bytes and a longer
/// one is known, and makes its owner a player as one that was seen does. It is there for good, and
/// so is one that was seen and is to be kept; apart from that, the latter does what any does that
/// was seen.
pub proof fn law_what_a_nickname_for_good_does(s: StorageModel, id: i32, nickname: Seq<char>)
    ensures
        ({
            let after = s.bound_to_name(id, nickname);
            let is_new = !s.nicknames.contains_key(id) || s.nicknames[id] != nickname;
            &&& after.nicknames == s.nicknames.insert(id, nickname)
            &&& after.permanent_nicknames == s.permanent_nicknames.insert(id, nickname)
            &&& is_new && !s.confirmed_summons.contains(id) ==> after.known_players.contains(id)
                && !after.summons.contains_key(id)
            &&& s.confirmed_summons.contains(id) || !is_new ==> after.known_players
                == s.known_players && after.summons == s.summons
            &&& after.local_player_id == if s.local_character_name is Some && text::trimmed(
                s.local_character_name->0,
            ) == text::trimmed(nickname) {
                Some(id as i64)
            } else {
                s.local_player_id
            }
        }),
        s.named_for_good(id, nickname) == (StorageModel {
            permanent_nicknames: s.permanent_nicknames.insert(id, nickname),
            ..s.named(id, nickname)
        }),
{
    if s.nicknames.contains_key(id) && s.nicknames[id] == nickname {
        assert(s.nicknames.insert(id, nickname) =~= s.nicknames);
    }
    let kept = StorageModel { permanent_nicknames: s.permanent_nicknames.insert(id, nickname), ..s };
    let named = StorageModel { nicknames: kept.nicknames.insert(id, nickname), ..kept };
    let plain = StorageModel { nicknames: s.nicknames.insert(id, nickname), ..s };
    lemma_purge_by_sides(
        StorageModel {
            known_players: named.known_players.insert(id),
            summons: named.summons.remove(id),
            ..named
        },
        StorageModel {
            known_players: plain.known_players.insert(id),
            summons: plain.summons.remove(id),
            ..plain
        },
    );
}

/// What the purge leaves of the targets goes by who is on whose side, and by nothing else.
proof fn lemma_purge_by_sides(a: StorageModel, b: StorageModel)
    requires
        a.targets == b.targets,
        a.known_players == b.known_players,
        a.summons == b.summons,
    ensures
        a.purged().targets == b.purged().targets,
{
    assert forall|t: i32| #[trigger] a.friends_of(t) == b.friends_of(t) by {
        assert(a.friends_of(t) =~= b.friends_of(t));
    }
    assert forall|t: i32| #[trigger] a.purged_target(t) == b.purged_target(t) by {
        assert(a.friends_of(t) == b.friends_of(t));
    }
    assert(a.purged().targets =~= b.purged().targets) by {
        assert forall|t: i32| a.purged().targets.contains_key(t) == b.purged().targets.contains_key(
            t,
        ) by {
            assert(a.friends_of(t) == b.friends_of(t));
            assert(a.purged_target(t) == b.purged_target(t));
        }
    }
}

/// The place of a skill gives the skill away, and whether it is damage over time.
pub proof fn law_a_place_gives_the_skill_away(code: i32, is_dot: bool)
    ensures
        storage_model::skill_key(code, is_dot) as int / 2 == code,
        storage_model::skill_key(code, is_dot) as int % 2 == if is_dot {
            1int
        } else {
            0
        },
{
}

/// A storage that has seen nothing holds nothing.
pub proof fn law_a_new_storage_holds_nothing(id: i32)
    ensures
        ({
            let s = StorageModel::empty();
            &&& !s.targets.contains_key(id)
            &&& !s.nicknames.contains_key(id)
            &&& !s.permanent_nicknames.contains_key(id)
            &&& !s.pending_nicknames.contains_key(id)
            &&& !s.summons.contains_key(id)
            &&& !s.mobs.contains_key(id)
            &&& !s.mob_hp.contains_key(id)
            &&& !s.actor_jobs.contains_key(id)
            &&& !s.known_players.contains(id)
            &&& !s.confirmed_summons.contains(id)
            &&& !s.hostile_targets.contains(id)
            &&& s.local_player_id is None
            &&& s.local_character_name is None
            &&& s.current_target == 0
            &&& s.damage_generation == 0
        }),
{
}

} // verus!
