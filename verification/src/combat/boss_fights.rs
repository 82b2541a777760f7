//! Which fights to keep, and what to keep of them.
use crate::combat::data_storage;
use crate::combat::data_storage::DataStorage;
use crate::combat::game_data::GameData;
use crate::combat::job_cache;
use crate::combat::names;
use crate::combat::overview;
use crate::combat::overview::{ActorMeta, MetaModel};
use crate::combat::packet_log::PacketLog;
use crate::combat::ping_tracker::PingTracker;
use crate::combat::storage_model::StorageModel;
use crate::combat::target_details;
use crate::combat::target_selection;
use crate::entity::damage_packet::ParsedDamagePacket;
use crate::entity::details_context;
use crate::entity::details_context::{
    ActorSummaryModel, DetailSkillEntry, DetailsActorSummary, PingPoint, SkillEntryModel,
};
use crate::entity::fight_record;
use crate::entity::fight_record::{FightRecord, RecordModel};
use crate::entity::job_class::JobTable;
use crate::entity::target_info::{TargetInfo, TargetInfoModel};
use crate::keys;
use crate::text;
use std::collections::{HashMap, HashSet};
use vstd::prelude::*;
use vstd::string::*;

verus! {

broadcast use vstd::std_specs::hash::group_hash_axioms;

/// A fight that has lasted less than this is not kept.
pub const MIN_BATTLE_MS: i64 = 5_000;

/// A fight without damage for this long has ended.
pub const ENDED_AFTER_MS: i64 = 10_000;

/// A fight that has lasted this long is kept while it goes on, too.
pub const PERIODIC_AFTER_MS: i64 = 15_000;

/// Whether the fight has ended.
pub open spec fn has_ended(info: TargetInfoModel, now_ms: i64) -> bool {
    now_ms.wrapping_sub(info.last_damage_time) >= ENDED_AFTER_MS
}

/// Whether the fight is to be kept now.
pub open spec fn is_due(info: TargetInfoModel, now_ms: i64, force: bool) -> bool {
    &&& info.battle_time() >= MIN_BATTLE_MS
    &&& info.damaged_amount > 0
    &&& force || has_ended(info, now_ms) || info.battle_time() >= PERIODIC_AFTER_MS
}

/// Whether fights against the target are kept at all: it is a boss or a training dummy.
pub open spec fn worth_keeping(target: i32, mobs: Map<i32, i32>, game: GameData) -> bool {
    mobs.contains_key(target) && (game.npcs.bosses@.contains(mobs[target])
        || target_selection::train_code(mobs[target]))
}

/// The targets whose fights may be kept: those worth keeping that have not been kept for good.
pub open spec fn candidates(
    infos: Map<i32, TargetInfoModel>,
    saved: Set<i32>,
    mobs: Map<i32, i32>,
    game: GameData,
) -> Set<i32> {
    infos.dom().filter(|t: i32| !saved.contains(t) && worth_keeping(t, mobs, game))
}

/// What is known of a player before one of its skills is looked at.
pub open spec fn participant_before(
    table: Map<i32, MetaModel>,
    skill: SkillEntryModel,
    storage: StorageModel,
    jobs: JobTable,
) -> MetaModel {
    if table.contains_key(skill.actor_id) {
        table[skill.actor_id]
    } else {
        MetaModel {
            nickname: names::nickname_for(
                skill.actor_id,
                storage.nicknames,
                storage.summons,
            ),
            job: jobs.job_name_of(skill.code),
        }
    }
}

/// The players that took part: a player's class is that of its first skill that has one.
pub open spec fn participants(
    skills: Seq<SkillEntryModel>,
    storage: StorageModel,
    jobs: JobTable,
) -> Map<i32, MetaModel>
    decreases skills.len(),
{
    if skills.len() == 0 {
        Map::empty()
    } else {
        let table = participants(skills.drop_last(), storage, jobs);
        let skill = skills.last();
        let before = participant_before(table, skill, storage, jobs);
        table.insert(
            skill.actor_id,
            if skill.job.len() > 0 && (before.job.len() == 0 || !table.contains_key(
                skill.actor_id,
            )) {
                MetaModel { job: skill.job, ..before }
            } else {
                before
            },
        )
    }
}

/// The players that took part go by their nicknames.
pub proof fn lemma_participants(
    skills: Seq<SkillEntryModel>,
    storage: StorageModel,
    jobs: JobTable,
)
    ensures
        ({
            let table = participants(skills, storage, jobs);
            &&& table.dom().finite()
            &&& forall|id: i32| #[trigger]
                table.contains_key(id) ==> table[id].nickname == names::nickname_for(
                    id,
                    storage.nicknames,
                    storage.summons,
                )
        }),
    decreases skills.len(),
{
    if skills.len() > 0 {
        lemma_participants(skills.drop_last(), storage, jobs);
    }
}

/// The first skill of a player that has a class.
pub open spec fn classed_skill(skills: Seq<SkillEntryModel>, id: i32) -> Option<i32>
    decreases skills.len(),
{
    if skills.len() == 0 {
        None
    } else {
        match classed_skill(skills.drop_last(), id) {
            Some(code) => Some(code),
            None => if skills.last().actor_id == id && skills.last().job.len() > 0 {
                Some(skills.last().code)
            } else {
                None
            },
        }
    }
}

/// The id of the local player; minus one while it is not known.
pub open spec fn local_id(storage: StorageModel) -> i32 {
    match storage.local_player_id {
        Some(id) => id as i32,
        None => (-1int) as i32,
    }
}

/// A player as it is kept. The nickname of anyone but the local player is veiled.
pub open spec fn recorded_actor(
    id: i32,
    meta: MetaModel,
    skills: Seq<SkillEntryModel>,
    storage: StorageModel,
    jobs: JobTable,
    veil: spec_fn(Seq<char>) -> Seq<char>,
) -> ActorSummaryModel {
    ActorSummaryModel {
        actor_id: id,
        nickname: if id == local_id(storage) {
            meta.nickname
        } else {
            veil(meta.nickname)
        },
        job: meta.job,
        job_id: jobs.job_prefix_of(
            match classed_skill(skills, id) {
                Some(code) => code,
                None => 0,
            },
        ),
    }
}

/// The players as they are kept, smallest id first.
pub open spec fn recorded(
    skills: Seq<SkillEntryModel>,
    storage: StorageModel,
    jobs: JobTable,
    veil: spec_fn(Seq<char>) -> Seq<char>,
) -> Seq<ActorSummaryModel> {
    let table = participants(skills, storage, jobs);
    keys::ascending(table.dom()).map_values(
        |id: i32| recorded_actor(id, table[id], skills, storage, jobs, veil),
    )
}

/// Whether the function made the nicknames of all but the local player what they are.
pub open spec fn are_veiled<F: Fn(&str) -> String>(
    actors: Seq<ActorSummaryModel>,
    storage: StorageModel,
    obscure: F,
) -> bool {
    forall|i: int|
        0 <= i < actors.len() && (#[trigger] actors[i]).actor_id != local_id(storage)
            ==> fight_record::turns_into(
            obscure,
            names::nickname_for(actors[i].actor_id, storage.nicknames, storage.summons),
            actors[i].nickname,
        )
}

/// Whether that holds of every fight.
pub open spec fn all_are_veiled<F: Fn(&str) -> String>(
    records: Seq<RecordModel>,
    storage: StorageModel,
    obscure: F,
) -> bool {
    forall|k: int|
        0 <= k < records.len() ==> are_veiled((#[trigger] records[k]).actors, storage, obscure)
}

/// The class prefixes of players, each once.
pub open spec fn job_ids_of(actors: Seq<ActorSummaryModel>) -> Seq<i32>
    decreases actors.len(),
{
    if actors.len() == 0 {
        Seq::empty()
    } else {
        let before = job_ids_of(actors.drop_last());
        let job_id = actors.last().job_id;
        if job_id > 0 && !before.contains(job_id) {
            before.push(job_id)
        } else {
            before
        }
    }
}

/// The class names of players, each once.
pub open spec fn jobs_of(actors: Seq<ActorSummaryModel>) -> Seq<Seq<char>>
    decreases actors.len(),
{
    if actors.len() == 0 {
        Seq::empty()
    } else {
        let before = jobs_of(actors.drop_last());
        let job = actors.last().job;
        if job_cache::is_class_name(job) && !before.contains(job) {
            before.push(job)
        } else {
            before
        }
    }
}

/// The name under which a fight is kept: that of its target and its start.
pub open spec fn record_id(target: i32, started: i64) -> Seq<char> {
    "auto_"@ + text::decimal(target as int) + "_"@ + text::decimal(started as int)
}

/// What the snapshots of fights are made from.
#[verifier::ext_equal]
pub struct Scene {
    pub packets: Map<i32, Seq<ParsedDamagePacket>>,
    pub storage: StorageModel,
    pub game: GameData,
    pub pings: Seq<PingPoint>,
    pub app_version: Seq<char>,
    /// What is made of the nicknames of players other than the local one.
    pub veil: spec_fn(Seq<char>) -> Seq<char>,
}

/// A fight as it is kept.
pub open spec fn record_of(target: i32, info: TargetInfoModel, scene: Scene) -> RecordModel {
    let details = target_details::details_of(
        target,
        None,
        scene.packets,
        scene.storage,
        scene.game,
        scene.pings,
    );
    let actors = recorded(details.skills, scene.storage, scene.game.jobs, scene.veil);
    let mob_code = names::damage_in(scene.storage.mobs, target);
    RecordModel {
        id: record_id(target, info.target_damage_started),
        boss_name: target_selection::target_name(
            target,
            scene.storage.mobs,
            scene.game.npcs,
        ),
        target_id: target,
        start_time_ms: info.target_damage_started,
        duration_ms: info.battle_time(),
        total_damage: info.damaged_amount as i32,
        jobs: jobs_of(actors),
        job_ids: job_ids_of(actors),
        details,
        actors,
        is_train: target_selection::train_code(mob_code),
        app_version: scene.app_version,
        mob_code,
    }
}

/// The fights to keep now, of the given targets.
pub open spec fn records_of(
    targets: Seq<i32>,
    infos: Map<i32, TargetInfoModel>,
    now_ms: i64,
    force: bool,
    scene: Scene,
) -> Seq<RecordModel>
    decreases targets.len(),
{
    if targets.len() == 0 {
        Seq::empty()
    } else {
        let before = records_of(targets.drop_last(), infos, now_ms, force, scene);
        let target = targets.last();
        if is_due(infos[target], now_ms, force) {
            before.push(record_of(target, infos[target], scene))
        } else {
            before
        }
    }
}

/// The targets whose fights are kept for good now: those that are kept and have ended.
pub open spec fn kept_for_good(
    among: Set<i32>,
    infos: Map<i32, TargetInfoModel>,
    now_ms: i64,
    force: bool,
) -> Set<i32> {
    among.filter(|t: i32| is_due(infos[t], now_ms, force) && has_ended(infos[t], now_ms))
}

/// The targets whose fights may be kept, smallest id first.
fn find_candidates(
    infos: &HashMap<i32, TargetInfo>,
    saved: &HashSet<i32>,
    mobs: &HashMap<i32, i32>,
    game: &GameData,
) -> (r: Vec<i32>)
    ensures
        r@ == keys::ascending(
            candidates(target_selection::info_models(infos@), saved@, mobs@, *game),
        ),
        r@.to_set() == candidates(target_selection::info_models(infos@), saved@, mobs@, *game),
        keys::is_ascending(r@),
{
    let ghost fit = |t: i32| !saved@.contains(t) && worth_keeping(t, mobs@, *game);
    let ghost models = target_selection::info_models(infos@);
    let ids = keys::sorted_keys(infos);
    let mut r: Vec<i32> = Vec::new();
    let mut i: usize = 0;
    while i < ids.len()
        invariant
            i <= ids@.len(),
            keys::is_ascending(ids@),
            fit == (|t: i32| !saved@.contains(t) && worth_keeping(t, mobs@, *game)),
            keys::is_ascending(r@),
            forall|x: i32| #[trigger] r@.contains(x) <==> ids@.take(i as int).contains(x) && fit(x),
        decreases ids@.len() - i,
    {
        let id: i32 = ids[i];
        let ghost seen = ids@.take(i as int);
        let ghost now = ids@.take(i + 1);
        let ghost before = r@;
        let fits = !saved.contains(&id) && match mobs.get(&id) {
            Some(code) => game.npcs.is_boss(*code) || target_selection::is_train_code(*code),
            None => false,
        };
        if fits {
            r.push(id);
        }
        proof {
            assert(fits == fit(id));
            keys::lemma_one_more(ids@, i as int);
            assert forall|j: int| 0 <= j < before.len() implies before[j] < id by {
                assert(before.contains(before[j]));
                assert(ids@[seen.index_of(before[j])] == before[j]);
            }
            assert forall|x: i32| #[trigger] r@.contains(x) <==> now.contains(x) && fit(x) by {
                if before.contains(x) {
                    assert(r@[before.index_of(x)] == x);
                }
                if r@.contains(x) && x != id {
                    assert(before[r@.index_of(x)] == x);
                }
                if fits {
                    assert(r@[before.len() as int] == id);
                }
            }
        }
        i += 1;
    }
    proof {
        assert(ids@.take(i as int) =~= ids@);
        let wanted = candidates(models, saved@, mobs@, *game);
        assert forall|x: i32| r@.to_set().contains(x) <==> wanted.contains(x) by {
            assert(r@.contains(x) <==> ids@.contains(x) && fit(x));
            assert(ids@.to_set().contains(x) == infos@.dom().contains(x));
        }
        assert(r@.to_set() =~= wanted);
        keys::lemma_is_ascending_of(r@);
    }
    r
}

/// The players that took part.
fn find_participants(
    skills: &Vec<DetailSkillEntry>,
    nicknames: &HashMap<i32, String>,
    summons: &HashMap<i32, i32>,
    jobs: &JobTable,
    Ghost(storage): Ghost<StorageModel>,
) -> (r: HashMap<i32, ActorMeta>)
    requires
        data_storage::texts(nicknames@) == storage.nicknames,
        summons@ == storage.summons,
    ensures
        overview::meta_models(r@) == participants(
            details_context::entry_models(skills@),
            storage,
            *jobs,
        ),
{
    let ghost all = details_context::entry_models(skills@);
    let mut r: HashMap<i32, ActorMeta> = HashMap::new();
    let mut i: usize = 0;
    assert(overview::meta_models(r@) =~= Map::empty());
    while i < skills.len()
        invariant
            i <= skills@.len(),
            all == details_context::entry_models(skills@),
            data_storage::texts(nicknames@) == storage.nicknames,
            summons@ == storage.summons,
            overview::meta_models(r@) == participants(all.take(i as int), storage, *jobs),
        decreases skills@.len() - i,
    {
        let skill = &skills[i];
        let ghost table = overview::meta_models(r@);
        assert(all.take(i + 1).drop_last() =~= all.take(i as int));
        assert(all.take(i + 1).last() == skill@);
        let known = r.contains_key(&skill.actor_id);
        let mut entry = match r.remove(&skill.actor_id) {
            Some(m) => m,
            None => ActorMeta {
                nickname: names::resolve_nickname(skill.actor_id, nicknames, summons),
                job: jobs.class_name_from_skill(skill.code),
            },
        };
        assert(entry@ =~= participant_before(table, skill@, storage, *jobs));
        if !skill.job.as_str().is_empty() && (entry.job.as_str().is_empty() || !known) {
            entry.job = skill.job.clone();
        }
        r.insert(skill.actor_id, entry);
        assert(overview::meta_models(r@) =~= participants(all.take(i + 1), storage, *jobs));
        i += 1;
    }
    assert(all.take(i as int) =~= all);
    r
}

/// The first skill of a player that has a class.
fn find_classed_skill(skills: &Vec<DetailSkillEntry>, id: i32) -> (r: Option<i32>)
    ensures
        r == classed_skill(details_context::entry_models(skills@), id),
{
    let ghost all = details_context::entry_models(skills@);
    let mut found: Option<i32> = None;
    let mut i: usize = 0;
    while i < skills.len()
        invariant
            i <= skills@.len(),
            all == details_context::entry_models(skills@),
            found == classed_skill(all.take(i as int), id),
        decreases skills@.len() - i,
    {
        assert(all.take(i + 1).drop_last() =~= all.take(i as int));
        assert(all.take(i + 1).last() == skills@[i as int]@);
        if found.is_none() && skills[i].actor_id == id && !skills[i].job.as_str().is_empty() {
            found = Some(skills[i].code);
        }
        i += 1;
    }
    assert(all.take(i as int) =~= all);
    found
}

/// The players as they are kept.
fn record_actors<F: Fn(&str) -> String>(
    skills: &Vec<DetailSkillEntry>,
    storage: &DataStorage,
    jobs: &JobTable,
    obscure: &F,
) -> (r: Vec<DetailsActorSummary>)
    requires
        fight_record::goes_by_text(*obscure),
    ensures
        details_context::actor_summaries(r@) == recorded(
            details_context::entry_models(skills@),
            storage@,
            *jobs,
            fight_record::veil_of(*obscure),
        ),
        are_veiled(details_context::actor_summaries(r@), storage@, *obscure),
{
    let ghost all = details_context::entry_models(skills@);
    let nicknames = storage.get_nicknames();
    let summons = storage.get_summon_data();
    let table = find_participants(skills, &nicknames, &summons, jobs, Ghost(storage@));
    let local: i32 = match storage.local_player_id() {
        Some(id) => id as i32,
        None => -1,
    };
    let ids = keys::sorted_keys(&table);
    let ghost models = overview::meta_models(table@);
    assert(models.dom() =~= table@.dom());
    proof {
        lemma_participants(all, storage@, *jobs);
    }
    let ghost veil = fight_record::veil_of(*obscure);
    let ghost kept = |id: i32| recorded_actor(id, models[id], all, storage@, *jobs, veil);
    let mut r: Vec<DetailsActorSummary> = Vec::new();
    let mut i: usize = 0;
    while i < ids.len()
        invariant
            i <= ids@.len(),
            ids@.to_set() == table@.dom(),
            all == details_context::entry_models(skills@),
            models == overview::meta_models(table@),
            local == local_id(storage@),
            fight_record::goes_by_text(*obscure),
            are_veiled(details_context::actor_summaries(r@), storage@, *obscure),
            models == participants(all, storage@, *jobs),
            forall|u: i32| #[trigger]
                models.contains_key(u) ==> models[u].nickname == names::nickname_for(
                    u,
                    storage@.nicknames,
                    storage@.summons,
                ),
            veil == fight_record::veil_of(*obscure),
            kept == (|id: i32| recorded_actor(id, models[id], all, storage@, *jobs, veil)),
            details_context::actor_summaries(r@) == ids@.take(i as int).map_values(kept),
        decreases ids@.len() - i,
    {
        let id: i32 = ids[i];
        let ghost before = details_context::actor_summaries(r@);
        assert(ids@.to_set().contains(id));
        match table.get(&id) {
            Some(m) => {
                let code: i32 = match find_classed_skill(skills, id) {
                    Some(code) => code,
                    None => 0,
                };
                let nickname = if id == local {
                    m.nickname.clone()
                } else {
                    fight_record::veiled(m.nickname.as_str(), obscure)
                };
                let a = DetailsActorSummary {
                    actor_id: id,
                    nickname,
                    job: m.job.clone(),
                    job_id: jobs.class_prefix_from_skill(code),
                };
                assert(m@ == models[id]);
                assert(a@ =~= kept(id));
                r.push(a);
                assert(details_context::actor_summaries(r@) =~= before.push(a@));
                assert(models.contains_key(id));
                assert(id != local ==> fight_record::turns_into(
                    *obscure,
                    names::nickname_for(id, storage@.nicknames, storage@.summons),
                    a.nickname@,
                ));
                assert(are_veiled(before.push(a@), storage@, *obscure));
                assert(ids@.take(i + 1).map_values(kept) =~= before.push(a@));
            },
            None => {},
        }
        i += 1;
    }
    assert(ids@.take(i as int) =~= ids@);
    r
}

/// The class prefixes of players, each once.
fn collect_job_ids(actors: &Vec<DetailsActorSummary>) -> (r: Vec<i32>)
    ensures
        r@ == job_ids_of(details_context::actor_summaries(actors@)),
{
    let ghost all = details_context::actor_summaries(actors@);
    let mut r: Vec<i32> = Vec::new();
    let mut i: usize = 0;
    while i < actors.len()
        invariant
            i <= actors@.len(),
            all == details_context::actor_summaries(actors@),
            r@ == job_ids_of(all.take(i as int)),
        decreases actors@.len() - i,
    {
        assert(all.take(i + 1).drop_last() =~= all.take(i as int));
        assert(all.take(i + 1).last() == actors@[i as int]@);
        let job_id: i32 = actors[i].job_id;
        if job_id > 0 && !target_details::holds_id(&r, job_id) {
            r.push(job_id);
        }
        i += 1;
    }
    assert(all.take(i as int) =~= all);
    r
}

/// Whether the text is among the given ones.
fn holds_text(texts: &Vec<String>, wanted: &str) -> (r: bool)
    ensures
        r == fight_record::text_list(texts@).contains(wanted@),
{
    let ghost all = fight_record::text_list(texts@);
    let mut i: usize = 0;
    while i < texts.len()
        invariant
            i <= texts@.len(),
            all == fight_record::text_list(texts@),
            forall|j: int| 0 <= j < i ==> all[j] != wanted@,
        decreases texts@.len() - i,
    {
        assert(all[i as int] == texts@[i as int]@);
        if text::same_text(texts[i].as_str(), wanted) {
            return true;
        }
        i += 1;
    }
    false
}

/// The class names of players, each once.
fn collect_jobs(actors: &Vec<DetailsActorSummary>) -> (r: Vec<String>)
    ensures
        fight_record::text_list(r@) == jobs_of(details_context::actor_summaries(actors@)),
{
    let ghost all = details_context::actor_summaries(actors@);
    let mut r: Vec<String> = Vec::new();
    let mut i: usize = 0;
    assert(fight_record::text_list(r@) =~= Seq::empty());
    while i < actors.len()
        invariant
            i <= actors@.len(),
            all == details_context::actor_summaries(actors@),
            fight_record::text_list(r@) == jobs_of(all.take(i as int)),
        decreases actors@.len() - i,
    {
        let ghost before = fight_record::text_list(r@);
        assert(all.take(i + 1).drop_last() =~= all.take(i as int));
        assert(all.take(i + 1).last() == actors@[i as int]@);
        let job = &actors[i].job;
        if !job.as_str().is_empty() && !text::same_text(job.as_str(), "Unknown") && !holds_text(
            &r,
            job.as_str(),
        ) {
            r.push(job.clone());
            assert(fight_record::text_list(r@) =~= before.push(job@));
        }
        i += 1;
    }
    assert(all.take(i as int) =~= all);
    r
}

/// The name under which a fight is kept.
pub fn fight_id(target: i32, started: i64) -> (r: String)
    ensures
        r@ == record_id(target, started),
{
    let mut r = "auto_".to_owned();
    r.append(text::decimal_of_i64(target as i64).as_str());
    r.append("_");
    r.append(text::decimal_of_i64(started).as_str());
    r
}

/// A fight as it is kept.
fn make_record<F: Fn(&str) -> String>(
    target: i32,
    info: &TargetInfo,
    log: &PacketLog,
    storage: &DataStorage,
    game: &GameData,
    pings: &PingTracker,
    app_version: &str,
    obscure: &F,
) -> (r: FightRecord)
    requires
        fight_record::goes_by_text(*obscure),
    ensures
        r@ == record_of(
            target,
            info@,
            (Scene {
                packets: log@,
                storage: storage@,
                game: *game,
                pings: pings.samples@,
                app_version: app_version@,
                veil: fight_record::veil_of(*obscure),
            }),
        ),
        are_veiled(r@.actors, storage@, *obscure),
{
    let details = target_details::target_details(target, None, log, storage, game, pings);
    let actors = record_actors(&details.skills, storage, &game.jobs, obscure);
    let mobs = storage.get_mob_data();
    let mob_code: i32 = match mobs.get(&target) {
        Some(code) => *code,
        None => 0,
    };
    let jobs = collect_jobs(&actors);
    let job_ids = collect_job_ids(&actors);
    FightRecord {
        id: fight_id(target, info.target_damage_started),
        boss_name: target_selection::resolve_target_name(target, &mobs, &game.npcs),
        target_id: target,
        start_time_ms: info.target_damage_started,
        duration_ms: info.battle_time(),
        total_damage: info.damaged_amount as i32,
        jobs,
        job_ids,
        details,
        actors,
        is_train: target_selection::is_train_code(mob_code),
        app_version: app_version.to_owned(),
        mob_code,
    }
}

/// Makes records of the fights to keep now, and notes those that are kept for good.
pub fn snapshot_fights<F: Fn(&str) -> String>(
    infos: &HashMap<i32, TargetInfo>,
    saved: &mut HashSet<i32>,
    now_ms: i64,
    force: bool,
    log: &PacketLog,
    storage: &DataStorage,
    game: &GameData,
    pings: &PingTracker,
    app_version: &str,
    obscure: &F,
) -> (r: Vec<FightRecord>)
    requires
        fight_record::goes_by_text(*obscure),
    ensures
        ({
            let models = target_selection::info_models(infos@);
            let among = candidates(models, old(saved)@, storage@.mobs, *game);
            let scene = Scene {
                packets: log@,
                storage: storage@,
                game: *game,
                pings: pings.samples@,
                app_version: app_version@,
                veil: fight_record::veil_of(*obscure),
            };
            &&& fight_record::record_models(r@) == records_of(
                keys::ascending(among),
                models,
                now_ms,
                force,
                scene,
            )
            &&& final(saved)@ == old(saved)@.union(kept_for_good(among, models, now_ms, force))
        }),
        all_are_veiled(fight_record::record_models(r@), storage@, *obscure),
{
    let ghost models = target_selection::info_models(infos@);
    let ghost before = saved@;
    let mobs = storage.get_mob_data();
    let ids = find_candidates(infos, saved, &mobs, game);
    let ghost among = candidates(models, before, storage@.mobs, *game);
    let ghost scene = Scene {
        packets: log@,
        storage: storage@,
        game: *game,
        pings: pings.samples@,
        app_version: app_version@,
        veil: fight_record::veil_of(*obscure),
    };
    let ghost lasting = |t: i32| is_due(models[t], now_ms, force) && has_ended(models[t], now_ms);
    let mut r: Vec<FightRecord> = Vec::new();
    let mut i: usize = 0;
    proof {
        assert(fight_record::record_models(r@) =~= Seq::empty());
    }
    while i < ids.len()
        invariant
            i <= ids@.len(),
            models == target_selection::info_models(infos@),
            among == candidates(models, before, storage@.mobs, *game),
            ids@.to_set() == among,
            fight_record::goes_by_text(*obscure),
            all_are_veiled(fight_record::record_models(r@), storage@, *obscure),
            lasting == (|t: i32|
                is_due(models[t], now_ms, force) && has_ended(models[t], now_ms)),
            scene == (Scene {
                packets: log@,
                storage: storage@,
                game: *game,
                pings: pings.samples@,
                app_version: app_version@,
                veil: fight_record::veil_of(*obscure),
            }),
            fight_record::record_models(r@) == records_of(
                ids@.take(i as int),
                models,
                now_ms,
                force,
                scene,
            ),
            forall|x: i32| #[trigger]
                saved@.contains(x) <==> before.contains(x) || (ids@.take(i as int).contains(x)
                    && lasting(x)),
        decreases ids@.len() - i,
    {
        let id: i32 = ids[i];
        let ghost done = fight_record::record_models(r@);
        let ghost seen = ids@.take(i as int);
        let ghost now = ids@.take(i + 1);
        proof {
            assert(now.drop_last() =~= seen);
            assert(now.last() == id);
            keys::lemma_one_more(ids@, i as int);
            assert(ids@.to_set().contains(id));
            assert(models.contains_key(id));
        }
        match infos.get(&id) {
            Some(info) => {
                assert(info@ == models[id]);
                let battle_time: i64 = info.battle_time();
                let ended = now_ms.wrapping_sub(info.last_damage_time()) >= ENDED_AFTER_MS;
                let due = battle_time >= MIN_BATTLE_MS && info.damaged_amount > 0 && (force || ended
                    || battle_time >= PERIODIC_AFTER_MS);
                if due {
                    let record = make_record(
                        id,
                        info,
                        log,
                        storage,
                        game,
                        pings,
                        app_version,
                        obscure,
                    );
                    if ended {
                        saved.insert(id);
                    }
                    r.push(record);
                    assert(fight_record::record_models(r@) =~= done.push(record@));
                }
                assert(lasting(id) == (due && ended));
            },
            None => {},
        }
        i += 1;
    }
    proof {
        assert(ids@.take(i as int) =~= ids@);
        let kept = kept_for_good(among, models, now_ms, force);
        assert forall|x: i32| saved@.contains(x) <==> before.union(kept).contains(x) by {
            assert(ids@.to_set().contains(x) == among.contains(x));
        }
        assert(saved@ =~= before.union(kept));
    }
    r
}

/// How many fights of a replay are kept.
pub const REPLAY_FIGHTS: usize = 10;

/// Whether fight `a` comes before fight `b`: it saw more damage, or as much and stands before it.
pub open spec fn ranks_before(records: Seq<FightRecord>, a: usize, b: usize) -> bool {
    records[a as int].total_damage > records[b as int].total_damage || (
    records[a as int].total_damage == records[b as int].total_damage && a < b)
}

/// Whether these are the places of the fights with the most damage, the one with the most first:
/// they stand in order, and every other fight comes after all of them.
pub open spec fn are_best(records: Seq<FightRecord>, best: Seq<usize>) -> bool {
    &&& best.len() == if records.len() < REPLAY_FIGHTS {
        records.len()
    } else {
        REPLAY_FIGHTS as nat
    }
    &&& forall|i: int| 0 <= i < best.len() ==> #[trigger] best[i] < records.len()
    &&& forall|i: int, j: int|
        0 <= i < j < best.len() ==> ranks_before(records, #[trigger] best[i], #[trigger] best[j])
    &&& forall|i: int, k: usize|
        0 <= i < best.len() && k < records.len() && !best.contains(k) ==> #[trigger] ranks_before(
            records,
            best[i],
            k,
        )
}

/// The fights of a replay that are kept: those with the most damage, the one with the most first.
pub fn best_fights(records: &Vec<FightRecord>) -> (r: Vec<usize>)
    ensures
        are_best(records@, r@),
{
    let n: usize = records.len();
    let mut order: Vec<usize> = Vec::new();
    let mut i: usize = 0;
    while i < n
        invariant
            i <= n,
            n == records@.len(),
            order@.len() == i,
            forall|a: int| 0 <= a < order@.len() ==> #[trigger] order@[a] < i,
            forall|a: int, b: int|
                0 <= a < b < order@.len() ==> ranks_before(
                    records@,
                    #[trigger] order@[a],
                    #[trigger] order@[b],
                ),
            forall|k: usize| k < i ==> order@.contains(k),
        decreases n - i,
    {
        let ghost before = order@;
        let mut place: usize = order.len();
        while place > 0 && records[order[place - 1]].total_damage < records[i].total_damage
            invariant
                place <= order@.len(),
                order@ == before,
                i < n,
                n == records@.len(),
                forall|a: int| 0 <= a < order@.len() ==> #[trigger] order@[a] < i,
                forall|a: int|
                    place <= a < order@.len() ==> ranks_before(
                        records@,
                        i,
                        #[trigger] order@[a],
                    ),
            decreases place,
        {
            place -= 1;
        }
        proof {
            if place > 0 {
                let last = before[place - 1];
                assert(records@[last as int].total_damage >= records@[i as int].total_damage);
                assert forall|a: int| 0 <= a < place implies ranks_before(
                    records@,
                    #[trigger] before[a],
                    i,
                ) by {
                    if a < place - 1 {
                        assert(ranks_before(records@, before[a], last));
                    }
                }
            }
        }
        order.insert(place, i);
        proof {
            let after = order@;
            assert(after == before.insert(place as int, i));
            assert forall|a: int, b: int| 0 <= a < b < after.len() implies ranks_before(
                records@,
                #[trigger] after[a],
                #[trigger] after[b],
            ) by {
                let x = if a < place {
                    before[a]
                } else if a == place {
                    i
                } else {
                    before[a - 1]
                };
                let y = if b < place {
                    before[b]
                } else if b == place {
                    i
                } else {
                    before[b - 1]
                };
                assert(after[a] == x && after[b] == y);
            }
            assert forall|k: usize| k < i + 1 implies after.contains(k) by {
                if k == i {
                    assert(after[place as int] == k);
                } else {
                    assert(before.contains(k));
                    let a = before.index_of(k);
                    if a < place {
                        assert(after[a] == k);
                    } else {
                        assert(after[a + 1] == k);
                    }
                }
            }
        }
        i += 1;
    }
    let ghost all = order@;
    if order.len() > REPLAY_FIGHTS {
        order.truncate(REPLAY_FIGHTS);
    }
    proof {
        assert(order@ =~= all.take(order@.len() as int));
        assert forall|i: int, k: usize|
            0 <= i < order@.len() && k < records@.len() && !order@.contains(
                k,
            ) implies #[trigger] ranks_before(records@, order@[i], k) by {
            assert(all.contains(k));
            let b = all.index_of(k);
            if b < order@.len() {
                assert(order@[b] == k);
            }
            assert(all[i] == order@[i]);
            assert(ranks_before(records@, all[i], all[b]));
        }
    }
    order
}

} // verus!
