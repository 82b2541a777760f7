//! What holds of the fights that are kept.
use crate::combat::boss_fights;
use crate::combat::boss_fights::Scene;
use crate::combat::choice_laws;
use crate::combat::details_laws;
use crate::combat::dps_calculator;
use crate::combat::dps_calculator::CalcModel;
use crate::combat::game_data::GameData;
use crate::combat::meter::Naming;
use crate::combat::names;
use crate::combat::reading_laws;
use crate::combat::storage_model::StorageModel;
use crate::combat::target_details;
use crate::entity::damage_packet::ParsedDamagePacket;
use crate::entity::details_context::{ActorSummaryModel, SkillEntryModel};
use crate::entity::fight_record::RecordModel;
use crate::entity::job_class::JobTable;
use crate::entity::summon_resolver;
use crate::entity::target_info::TargetInfoModel;
use crate::entity::target_laws;
use crate::keys;
use crate::tallies;
use crate::text;
use vstd::prelude::*;

verus! {

/// Whether the target is of a kind whose fights are kept: a boss or a training dummy.
pub open spec fn is_worth_it(target: i32, mobs: Map<i32, i32>, game: GameData) -> bool {
    mobs.contains_key(target) && (game.npcs.bosses@.contains(mobs[target])
        || choice_laws::training_dummies().contains(mobs[target]))
}

/// Whether the times of the fight are in order: it began, went on, and now is later.
pub open spec fn times_are_in_order(info: TargetInfoModel, now_ms: i64) -> bool {
    0 < info.target_damage_started <= info.last_damage_time <= now_ms
}

/// A fight is kept just where it is against a boss or a training dummy, was not kept for good
/// before, has seen damage and lasted five seconds, and either nothing happened in it for ten
/// seconds, or it has lasted fifteen, or it is asked for in any case. It is kept for good where
/// nothing happened in it for ten seconds.
pub proof fn law_a_fight_is_kept_when_due(
    calc: CalcModel,
    now_ms: i64,
    force: bool,
    scene: Scene,
    t: i32,
)
    requires
        calc.infos.dom().finite(),
        calc.infos.contains_key(t) ==> times_are_in_order(calc.infos[t], now_ms),
    ensures
        ({
            let kept = calc.fights_to_keep(now_ms, force, scene);
            let after = calc.after_keeping(now_ms, force, scene.storage.mobs, scene.game);
            let info = calc.infos[t];
            let lasted = info.last_damage_time - info.target_damage_started;
            let quiet = now_ms - info.last_damage_time >= 10_000;
            let due = calc.infos.contains_key(t) && !calc.saved.contains(t) && is_worth_it(
                t,
                scene.storage.mobs,
                scene.game,
            ) && info.damaged_amount > 0 && lasted >= 5_000 && (force || quiet || lasted
                >= 15_000);
            &&& (exists|i: int| 0 <= i < kept.len() && (#[trigger] kept[i]).target_id == t) <==> due
            &&& after.saved.contains(t) <==> calc.saved.contains(t) || (due && quiet)
        }),
{
    let kept = calc.fights_to_keep(now_ms, force, scene);
    if scene.storage.mobs.contains_key(t) {
        choice_laws::lemma_train_code(scene.storage.mobs[t]);
    }
    details_laws::law_which_fights_are_kept(calc, now_ms, force, scene, t);
    let among = boss_fights::candidates(calc.infos, calc.saved, scene.storage.mobs, scene.game);
    vstd::set_lib::lemma_set_subset_finite(calc.infos.dom(), among);
    keys::lemma_ascending_exists(among);
    details_laws::lemma_records(keys::ascending(among), calc.infos, now_ms, force, scene);
    if exists|i: int| 0 <= i < kept.len() && (#[trigger] kept[i]).target_id == t {
        let i = choose|i: int| 0 <= i < kept.len() && (#[trigger] kept[i]).target_id == t;
        assert(boss_fights::is_due(calc.infos[t], now_ms, force));
    }
}

/// Whether the record tells of the given fight: its damage as a whole, which is exact where 32 bits
/// hold it, when it began, and how long it lasted.
pub open spec fn tells_of(r: RecordModel, fight: Seq<ParsedDamagePacket>) -> bool {
    let damage = tallies::damage_sum(fight);
    &&& i32::MIN <= damage <= i32::MAX ==> r.total_damage == damage
    &&& target_laws::is_earliest(r.start_time_ms, fight)
    &&& exists|last: i64|
        #![trigger target_laws::is_latest(last, fight)]
        target_laws::is_latest(last, fight) && r.duration_ms == last - r.start_time_ms
}

/// A record of a fight tells of the events since the last pause: what they did as a whole, when the
/// earliest came, and how long after it the latest. It names the target as the game does, and holds
/// the version and the details it was made with.
pub proof fn law_a_record_tells_of_the_fight(
    calc: CalcModel,
    packets: Map<i32, Seq<ParsedDamagePacket>>,
    t: i32,
    before: Seq<ParsedDamagePacket>,
    fight: Seq<ParsedDamagePacket>,
    now_ms: i64,
    force: bool,
    scene: Scene,
    i: int,
)
    requires
        packets.contains_key(t),
        packets[t] == before + fight,
        fight.len() > 0,
        target_laws::are_proper(before + fight),
        target_laws::has_no_pause(fight),
        target_laws::comes_after_a_pause(fight[0], before),
        calc.last_known_local_id != scene.storage.local_player_id || !calc.infos.contains_key(t),
        t != 0,
        ({
            let read = dps_calculator::reading(calc, packets, scene.storage, scene.game).calc;
            let kept = read.fights_to_keep(now_ms, force, scene);
            read.infos.dom().finite() && 0 <= i < kept.len() && kept[i].target_id == t
        }),
    ensures
        ({
            let read = dps_calculator::reading(calc, packets, scene.storage, scene.game).calc;
            let r = read.fights_to_keep(now_ms, force, scene)[i];
            let mobs = scene.storage.mobs;
            &&& tells_of(r, fight)
            &&& mobs.contains_key(t) && r.mob_code == mobs[t]
            &&& r.is_train <==> choice_laws::training_dummies().contains(mobs[t])
            &&& r.boss_name == if scene.game.npcs.names@.contains_key(mobs[t]) {
                scene.game.npcs.names@[mobs[t]]@
            } else {
                Seq::empty()
            }
            &&& r.app_version == scene.app_version
            &&& r.details == target_details::details_of(
                t,
                None,
                scene.packets,
                scene.storage,
                scene.game,
                scene.pings,
            )
        }),
{
    let read = dps_calculator::reading(calc, packets, scene.storage, scene.game).calc;
    let r = read.fights_to_keep(now_ms, force, scene)[i];
    reading_laws::law_a_reading_tells_of_the_present_fight(
        calc,
        packets,
        scene.storage,
        scene.game,
        t,
        before,
        fight,
    );
    let info = read.infos[t];
    let among = boss_fights::candidates(read.infos, read.saved, scene.storage.mobs, scene.game);
    vstd::set_lib::lemma_set_subset_finite(read.infos.dom(), among);
    keys::lemma_ascending_exists(among);
    let targets = keys::ascending(among);
    details_laws::lemma_records(targets, read.infos, now_ms, force, scene);
    assert(targets.contains(t));
    assert(targets.to_set().contains(t));
    assert(r == boss_fights::record_of(t, info, scene));
    choice_laws::lemma_train_code(scene.storage.mobs[t]);
    assert(target_laws::is_latest(info.last_damage_time, fight));
}

/// Whether the class of every entry is that of its skill.
pub open spec fn classes_fit(skills: Seq<SkillEntryModel>, jobs: JobTable) -> bool {
    forall|k: int|
        0 <= k < skills.len() ==> (#[trigger] skills[k]).job == jobs.job_name_of(skills[k].code)
}

proof fn lemma_classes_fit(
    ps: Seq<ParsedDamagePacket>,
    ids: Option<Seq<i32>>,
    naming: Naming,
    owners: Map<i32, i32>,
    game: GameData,
)
    ensures
        classes_fit(target_details::skill_entries(ps, ids, naming, owners, game), game.jobs),
    decreases ps.len(),
{
    if ps.len() > 0 {
        lemma_classes_fit(ps.drop_last(), ids, naming, owners, game);
        let p = ps.last();
        let before = target_details::skill_entries(ps.drop_last(), ids, naming, owners, game);
        let raw = summon_resolver::resolved(p.actor_id, naming.summons);
        let uid = target_details::shown_under(raw, naming, owners);
        let key = target_details::entry_key(game.skills.counted_as(p.skill_code), p.is_dot);
        details_laws::lemma_entry_place(before, uid, key);
        let after = target_details::with_event(before, uid, p, game);
        assert forall|k: int| 0 <= k < after.len() implies (#[trigger] after[k]).job
            == game.jobs.job_name_of(after[k].code) by {
            if k < before.len() {
                assert(after[k].job == before[k].job && after[k].code == before[k].code);
            }
        }
    }
}

/// Whether the entry is the player's first that has a class.
pub open spec fn is_first_classed(skills: Seq<SkillEntryModel>, id: i32, k: int) -> bool {
    &&& 0 <= k < skills.len()
    &&& skills[k].actor_id == id
    &&& skills[k].job.len() > 0
    &&& forall|j: int|
        0 <= j < k && (#[trigger] skills[j]).actor_id == id ==> skills[j].job.len() == 0
}

/// Whether the player has an entry.
pub open spec fn took_part(skills: Seq<SkillEntryModel>, id: i32) -> bool {
    exists|k: int| 0 <= k < skills.len() && (#[trigger] skills[k]).actor_id == id
}

/// Whether no entry of the player has a class.
pub open spec fn has_no_class(skills: Seq<SkillEntryModel>, id: i32) -> bool {
    forall|k: int|
        0 <= k < skills.len() && (#[trigger] skills[k]).actor_id == id ==> skills[k].job.len() == 0
}

proof fn lemma_participant(
    skills: Seq<SkillEntryModel>,
    storage: StorageModel,
    jobs: JobTable,
    id: i32,
)
    requires
        classes_fit(skills, jobs),
    ensures
        ({
            let table = boss_fights::participants(skills, storage, jobs);
            &&& table.contains_key(id) <==> took_part(skills, id)
            &&& has_no_class(skills, id) ==> boss_fights::classed_skill(skills, id) is None && (
            table.contains_key(id) ==> table[id].job.len() == 0)
            &&& forall|k: int| #[trigger]
                is_first_classed(skills, id, k) ==> table.contains_key(id) && table[id].job
                    == skills[k].job && boss_fights::classed_skill(skills, id) == Some(
                    skills[k].code,
                )
            &&& has_no_class(skills, id) || exists|k: int| #[trigger]
                is_first_classed(skills, id, k)
        }),
    decreases skills.len(),
{
    if skills.len() > 0 {
        let front = skills.drop_last();
        let n = skills.len() - 1;
        let table = boss_fights::participants(skills, storage, jobs);
        assert forall|k: int| 0 <= k < front.len() implies (#[trigger] front[k]).job
            == jobs.job_name_of(front[k].code) by {
            assert(skills[k] == front[k]);
        }
        lemma_participant(front, storage, jobs, id);
        assert(skills[n].job == jobs.job_name_of(skills[n].code));
        if took_part(front, id) {
            let k = choose|k: int| 0 <= k < front.len() && (#[trigger] front[k]).actor_id == id;
            assert(skills[k].actor_id == id);
        }
        if took_part(skills, id) && skills[n].actor_id != id {
            let k = choose|k: int| 0 <= k < skills.len() && (#[trigger] skills[k]).actor_id == id;
            assert(front[k].actor_id == id);
        }
        if has_no_class(skills, id) {
            assert forall|k: int|
                0 <= k < front.len() && (#[trigger] front[k]).actor_id == id implies front[k].job.len()
                == 0 by {
                assert(skills[k] == front[k]);
            }
        }
        assert forall|k: int| #[trigger] is_first_classed(skills, id, k) implies table.contains_key(
            id,
        ) && table[id].job == skills[k].job && boss_fights::classed_skill(skills, id) == Some(
            skills[k].code,
        ) by {
            if k < n {
                assert forall|j: int|
                    0 <= j < k && (#[trigger] front[j]).actor_id == id implies front[j].job.len()
                    == 0 by {
                    assert(skills[j] == front[j]);
                }
                assert(is_first_classed(front, id, k));
            } else {
                assert forall|j: int|
                    0 <= j < front.len() && (#[trigger] front[j]).actor_id
                        == id implies front[j].job.len() == 0 by {
                    assert(skills[j] == front[j]);
                }
                assert(has_no_class(front, id));
            }
        }
        if !has_no_class(skills, id) {
            if has_no_class(front, id) {
                assert forall|j: int|
                    0 <= j < n && (#[trigger] skills[j]).actor_id == id implies skills[j].job.len()
                    == 0 by {
                    assert(skills[j] == front[j]);
                }
                assert(is_first_classed(skills, id, n));
            } else {
                let k = choose|k: int| #[trigger] is_first_classed(front, id, k);
                assert forall|j: int|
                    0 <= j < k && (#[trigger] skills[j]).actor_id == id implies skills[j].job.len()
                    == 0 by {
                    assert(skills[j] == front[j]);
                }
                assert(is_first_classed(skills, id, k));
            }
        }
    }
}

/// The players in a record are those who used a skill in the fight, smallest id first, each once. A
/// player's class is that of the first of its skills that has one.
pub proof fn law_a_record_holds_who_took_part(target: i32, info: TargetInfoModel, scene: Scene)
    ensures
        ({
            let r = boss_fights::record_of(target, info, scene);
            let skills = r.details.skills;
            let jobs = scene.game.jobs;
            &&& forall|a: int, b: int|
                0 <= a < b < r.actors.len() ==> (#[trigger] r.actors[a]).actor_id < (
                #[trigger] r.actors[b]).actor_id
            &&& forall|a: int|
                0 <= a < r.actors.len() ==> took_part(skills, (#[trigger] r.actors[a]).actor_id)
            &&& forall|k: int|
                0 <= k < skills.len() ==> is_among(r.actors, (#[trigger] skills[k]).actor_id)
            &&& forall|a: int, k: int|
                0 <= a < r.actors.len() && #[trigger] is_first_classed(
                    skills,
                    (#[trigger] r.actors[a]).actor_id,
                    k,
                ) ==> r.actors[a].job == skills[k].job && r.actors[a].job_id == jobs.job_prefix_of(
                    skills[k].code,
                )
            &&& forall|a: int|
                0 <= a < r.actors.len() && has_no_class(
                    skills,
                    (#[trigger] r.actors[a]).actor_id,
                ) ==> r.actors[a].job.len() == 0 && r.actors[a].job_id == jobs.job_prefix_of(0)
        }),
{
    let r = boss_fights::record_of(target, info, scene);
    let skills = r.details.skills;
    let jobs = scene.game.jobs;
    let table = boss_fights::participants(skills, scene.storage, jobs);
    let ids = keys::ascending(table.dom());
    boss_fights::lemma_participants(skills, scene.storage, jobs);
    keys::lemma_ascending_exists(table.dom());
    lemma_record_classes_fit(target, info, scene);
    assert forall|a: int| 0 <= a < r.actors.len() implies (#[trigger] r.actors[a]).actor_id
        == ids[a] && table.contains_key(ids[a]) by {
        assert(ids.to_set().contains(ids[a]));
    }
    assert forall|a: int| 0 <= a < r.actors.len() implies took_part(
        skills,
        (#[trigger] r.actors[a]).actor_id,
    ) by {
        lemma_participant(skills, scene.storage, jobs, ids[a]);
    }
    assert forall|k: int| 0 <= k < skills.len() implies is_among(
        r.actors,
        (#[trigger] skills[k]).actor_id,
    ) by {
        let id = skills[k].actor_id;
        lemma_participant(skills, scene.storage, jobs, id);
        assert(took_part(skills, id));
        assert(ids.to_set().contains(id));
        let a = ids.index_of(id);
        assert(r.actors[a].actor_id == id);
    }
    assert forall|a: int, k: int|
        0 <= a < r.actors.len() && #[trigger] is_first_classed(
            skills,
            (#[trigger] r.actors[a]).actor_id,
            k,
        ) implies r.actors[a].job == skills[k].job && r.actors[a].job_id == jobs.job_prefix_of(
        skills[k].code,
    ) by {
        lemma_participant(skills, scene.storage, jobs, ids[a]);
    }
    assert forall|a: int|
        0 <= a < r.actors.len() && has_no_class(
            skills,
            (#[trigger] r.actors[a]).actor_id,
        ) implies r.actors[a].job.len() == 0 && r.actors[a].job_id == jobs.job_prefix_of(0) by {
        lemma_participant(skills, scene.storage, jobs, ids[a]);
    }
}

/// Whether the player is among those of a record.
pub open spec fn is_among(actors: Seq<ActorSummaryModel>, id: i32) -> bool {
    exists|a: int| 0 <= a < actors.len() && (#[trigger] actors[a]).actor_id == id
}

proof fn lemma_record_classes_fit(target: i32, info: TargetInfoModel, scene: Scene)
    ensures
        classes_fit(
            boss_fights::record_of(target, info, scene).details.skills,
            scene.game.jobs,
        ),
{
    if scene.packets.contains_key(target) {
        let ps = scene.packets[target];
        let naming = target_details::naming_in(ps, scene.storage);
        let owners = target_details::owners_by_class(
            ps,
            target_details::classes_by_player(ps, naming, scene.game.jobs),
            naming,
            scene.game.jobs,
        );
        lemma_classes_fit(ps, None, naming, owners, scene.game);
    }
}

/// Whether the list holds what stands in the other, each once, in the order in which it first
/// stands there.
pub open spec fn lists_once<T>(list: Seq<T>, from: Seq<T>, fits: spec_fn(T) -> bool) -> bool {
    &&& list.no_duplicates()
    &&& forall|x: T| #[trigger] list.contains(x) <==> from.contains(x) && fits(x)
    &&& forall|i: int| 0 <= i < list.len() ==> #[trigger] comes_next(list, from, fits, i)
}

/// Whether all that stands before the first of these in the other list stands before it in this
/// list, too.
pub open spec fn comes_next<T>(
    list: Seq<T>,
    from: Seq<T>,
    fits: spec_fn(T) -> bool,
    i: int,
) -> bool {
    exists|k: int|
        0 <= k < from.len() && #[trigger] from[k] == list[i] && forall|j: int|
            0 <= j < k && fits(#[trigger] from[j]) ==> list.take(i).contains(from[j])
}

proof fn lemma_lists_once_push<T>(list: Seq<T>, from: Seq<T>, fits: spec_fn(T) -> bool, x: T)
    requires
        lists_once(list, from, fits),
    ensures
        lists_once(
            if fits(x) && !list.contains(x) {
                list.push(x)
            } else {
                list
            },
            from.push(x),
            fits,
        ),
{
    let all = from.push(x);
    let after = if fits(x) && !list.contains(x) {
        list.push(x)
    } else {
        list
    };
    assert(all[from.len() as int] == x);
    assert forall|y: T| #[trigger] after.contains(y) <==> all.contains(y) && fits(y) by {
        if list.contains(y) {
            assert(after[list.index_of(y)] == y);
        }
        if from.contains(y) {
            assert(all[from.index_of(y)] == y);
        }
        if after.contains(y) && !list.contains(y) {
            let i = after.index_of(y);
            if i < list.len() {
                assert(list[i] == y);
            }
        }
        if all.contains(y) && !from.contains(y) {
            let i = all.index_of(y);
            if i < from.len() {
                assert(from[i] == y);
            }
        }
        if fits(x) && !list.contains(x) {
            assert(after[list.len() as int] == x);
        }
    }
    assert forall|i: int| 0 <= i < after.len() implies #[trigger] comes_next(
        after,
        all,
        fits,
        i,
    ) by {
        if i < list.len() {
            assert(comes_next(list, from, fits, i));
            let k = choose|k: int|
                0 <= k < from.len() && #[trigger] from[k] == list[i] && forall|j: int|
                    0 <= j < k && fits(#[trigger] from[j]) ==> list.take(i).contains(from[j]);
            assert(all[k] == after[i]);
            assert(after.take(i) =~= list.take(i));
            assert forall|j: int| 0 <= j < k && fits(#[trigger] all[j]) implies after.take(
                i,
            ).contains(all[j]) by {
                assert(from[j] == all[j]);
            }
        } else {
            assert(after.take(i) =~= list);
            assert(all[from.len() as int] == after[i]);
            assert forall|j: int|
                0 <= j < from.len() && fits(#[trigger] all[j]) implies after.take(i).contains(
                all[j],
            ) by {
                assert(from[j] == all[j]);
                assert(from.contains(from[j]));
            }
        }
    }
}

proof fn lemma_job_ids(actors: Seq<ActorSummaryModel>)
    ensures
        lists_once(
            boss_fights::job_ids_of(actors),
            actors.map_values(|a: ActorSummaryModel| a.job_id),
            |id: i32| id > 0,
        ),
    decreases actors.len(),
{
    let of = |a: ActorSummaryModel| a.job_id;
    if actors.len() > 0 {
        let front = actors.drop_last();
        lemma_job_ids(front);
        assert(actors.map_values(of) =~= front.map_values(of).push(actors.last().job_id));
        lemma_lists_once_push(
            boss_fights::job_ids_of(front),
            front.map_values(of),
            |id: i32| id > 0,
            actors.last().job_id,
        );
    }
}

proof fn lemma_jobs(actors: Seq<ActorSummaryModel>)
    ensures
        lists_once(
            boss_fights::jobs_of(actors),
            actors.map_values(|a: ActorSummaryModel| a.job),
            |job: Seq<char>| job.len() > 0 && job != "Unknown"@,
        ),
    decreases actors.len(),
{
    let of = |a: ActorSummaryModel| a.job;
    if actors.len() > 0 {
        let front = actors.drop_last();
        lemma_jobs(front);
        assert(actors.map_values(of) =~= front.map_values(of).push(actors.last().job));
        lemma_lists_once_push(
            boss_fights::jobs_of(front),
            front.map_values(of),
            |job: Seq<char>| job.len() > 0 && job != "Unknown"@,
            actors.last().job,
        );
    }
}

/// The classes of a record are those of its players that have one, each once, in the order of the
/// players.
pub proof fn law_a_record_holds_the_classes(target: i32, info: TargetInfoModel, scene: Scene)
    ensures
        ({
            let r = boss_fights::record_of(target, info, scene);
            &&& lists_once(
                r.job_ids,
                r.actors.map_values(|a: ActorSummaryModel| a.job_id),
                |id: i32| id > 0,
            )
            &&& lists_once(
                r.jobs,
                r.actors.map_values(|a: ActorSummaryModel| a.job),
                |job: Seq<char>| job.len() > 0 && job != "Unknown"@,
            )
        }),
{
    let r = boss_fights::record_of(target, info, scene);
    lemma_job_ids(r.actors);
    lemma_jobs(r.actors);
}

/// A record is kept under the number of its target and the time at which the fight began.
pub proof fn law_what_a_record_is_kept_under(target: i32, info: TargetInfoModel, scene: Scene)
    ensures
        ({
            let r = boss_fights::record_of(target, info, scene);
            let t = text::decimal(target as int);
            let s = text::decimal(info.target_damage_started as int);
            let n = t.len() as int;
            &&& r.id.len() == 6 + n + s.len()
            &&& r.id.take(5) == "auto_"@
            &&& r.id.subrange(5, 5 + n) == t
            &&& r.id[5 + n] == '_'
            &&& r.id.skip(6 + n) == s
            &&& r.target_id == target
        }),
{
    reveal_strlit("auto_");
    reveal_strlit("_");
    let r = boss_fights::record_of(target, info, scene);
    let t = text::decimal(target as int);
    let n = t.len() as int;
    assert(r.id.take(5) =~= "auto_"@);
    assert(r.id.subrange(5, 5 + n) =~= t);
    assert(r.id.skip(6 + n) =~= text::decimal(info.target_damage_started as int));
}

/// While the local player is not known, no player is left unveiled; once it is, only that one is.
pub proof fn law_who_is_left_unveiled(target: i32, info: TargetInfoModel, scene: Scene, a: int)
    requires
        0 <= a < boss_fights::record_of(target, info, scene).actors.len(),
        boss_fights::record_of(target, info, scene).actors[a].actor_id >= 0,
    ensures
        ({
            let actor = boss_fights::record_of(target, info, scene).actors[a];
            let name = names::nickname_for(
                actor.actor_id,
                scene.storage.nicknames,
                scene.storage.summons,
            );
            let local = scene.storage.local_player_id;
            &&& local is None ==> actor.nickname == (scene.veil)(name)
            &&& local is Some && 0 <= local->0 <= i32::MAX && local->0 != actor.actor_id
                ==> actor.nickname == (scene.veil)(name)
            &&& local == Some(actor.actor_id as i64) ==> actor.nickname == name
        }),
{
    details_laws::law_only_the_local_player_is_named(target, info, scene, a);
}

} // verus!
