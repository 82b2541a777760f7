//! What holds of the details of fights and of the fights that are kept.
use crate::combat::boss_fights;
use crate::combat::boss_fights::Scene;
use crate::combat::dps_calculator::CalcModel;
use crate::combat::game_data::GameData;
use crate::combat::meter;
use crate::combat::meter::{Naming, OrphanLink};
use crate::combat::meter_laws;
use crate::combat::names;
use crate::combat::overview;
use crate::combat::overview::{MetaModel, Tally};
use crate::combat::storage_model::StorageModel;
use crate::combat::target_details;
use crate::entity::damage_packet::ParsedDamagePacket;
use crate::entity::details_context::{PingPoint, SkillEntryModel, TargetSummaryModel};
use crate::entity::job_class::JobTable;
use crate::entity::summon_resolver;
use crate::entity::target_info::TargetInfoModel;
use crate::keys;
use crate::sums;
use crate::text;
use vstd::prelude::*;

verus! {

/// What the damage of the entries adds up to.
pub open spec fn entries_sum(entries: Seq<SkillEntryModel>) -> int
    decreases entries.len(),
{
    if entries.len() == 0 {
        0
    } else {
        entries_sum(entries.drop_last()) + entries.last().dmg
    }
}

proof fn lemma_sum_update(entries: Seq<SkillEntryModel>, i: int, e: SkillEntryModel)
    requires
        0 <= i < entries.len(),
    ensures
        entries_sum(entries.update(i, e)) == entries_sum(entries) - entries[i].dmg + e.dmg,
    decreases entries.len(),
{
    let after = entries.update(i, e);
    if i == entries.len() - 1 {
        assert(after.drop_last() =~= entries.drop_last());
    } else {
        lemma_sum_update(entries.drop_last(), i, e);
        assert(after.drop_last() =~= entries.drop_last().update(i, e));
        assert(after.last() == entries.last());
    }
}

/// Where the entry of a player's skill stands, and that it stands nowhere before.
pub proof fn lemma_entry_place(entries: Seq<SkillEntryModel>, uid: i32, key: i32)
    ensures
        0 <= target_details::entry_place(entries, uid, key) <= entries.len(),
        ({
            let place = target_details::entry_place(entries, uid, key);
            &&& place < entries.len() ==> is_entry(entries[place], uid, key)
            &&& forall|i: int|
                0 <= i < place && i < entries.len() ==> !is_entry(#[trigger] entries[i], uid, key)
        }),
    decreases entries.len(),
{
    if entries.len() > 0 {
        lemma_entry_place(entries.drop_last(), uid, key);
        let place = target_details::entry_place(entries, uid, key);
        assert forall|i: int| 0 <= i < place && i < entries.len() implies !is_entry(
            #[trigger] entries[i],
            uid,
            key,
        ) by {
            if i < entries.len() - 1 {
                assert(entries.drop_last()[i] == entries[i]);
            }
        }
        if place < entries.len() - 1 {
            assert(entries.drop_last()[place] == entries[place]);
        }
    }
}

/// Whether the entry is that of the player's skill.
pub open spec fn is_entry(e: SkillEntryModel, uid: i32, key: i32) -> bool {
    e.actor_id == uid && target_details::entry_key(e.code, e.is_dot) == key
}

/// Whether no two entries are of the same player and skill.
pub open spec fn entries_are_distinct(entries: Seq<SkillEntryModel>) -> bool {
    forall|i: int, j: int|
        0 <= i < j < entries.len() ==> !is_entry(
            #[trigger] entries[i],
            (#[trigger] entries[j]).actor_id,
            target_details::entry_key(entries[j].code, entries[j].is_dot),
        )
}

proof fn lemma_entries_add_up(
    ps: Seq<ParsedDamagePacket>,
    naming: Naming,
    owners: Map<i32, i32>,
    game: GameData,
)
    ensures
        sums::same_count32(
            entries_sum(target_details::skill_entries(ps, None, naming, owners, game)),
            target_details::span_of(ps, naming.summons).total as int,
        ),
    decreases ps.len(),
{
    if ps.len() > 0 {
        lemma_entries_add_up(ps.drop_last(), naming, owners, game);
        let p = ps.last();
        let raw = summon_resolver::resolved(p.actor_id, naming.summons);
        if raw > 0 {
            let before = target_details::skill_entries(
                ps.drop_last(),
                None,
                naming,
                owners,
                game,
            );
            let uid = target_details::shown_under(raw, naming, owners);
            let key = target_details::entry_key(game.skills.counted_as(p.skill_code), p.is_dot);
            let place = target_details::entry_place(before, uid, key);
            let after = target_details::with_event(before, uid, p, game);
            lemma_entry_place(before, uid, key);
            if place < before.len() {
                lemma_sum_update(before, place, before[place].hit(p));
            } else {
                assert(after.drop_last() =~= before);
            }
        }
    }
}

proof fn lemma_shown_sum(entries: Seq<SkillEntryModel>, start: i64)
    ensures
        entries_sum(entries.map_values(|e: SkillEntryModel| e.shown(start))) == entries_sum(
            entries,
        ),
    decreases entries.len(),
{
    let shown = entries.map_values(|e: SkillEntryModel| e.shown(start));
    if entries.len() > 0 {
        lemma_shown_sum(entries.drop_last(), start);
        assert(shown.drop_last() =~= entries.drop_last().map_values(
            |e: SkillEntryModel| e.shown(start),
        ));
        assert(shown.last() == entries.last().shown(start));
    }
}

/// The damage of all skills of all players is the damage of the fight, up to what counters drop
/// when they wrap.
pub proof fn law_skills_add_up_to_the_fight(
    target: i32,
    ps: Seq<ParsedDamagePacket>,
    storage: StorageModel,
    game: GameData,
    pings: Seq<PingPoint>,
)
    ensures
        ({
            let details = target_details::fight_details(target, ps, None, storage, game, pings);
            sums::same_count32(
                entries_sum(details.skills),
                details.total_target_damage as int,
            )
        }),
{
    let naming = target_details::naming_in(ps, storage);
    let owners = target_details::owners_by_class(
        ps,
        target_details::classes_by_player(ps, naming, game.jobs),
        naming,
        game.jobs,
    );
    let details = target_details::fight_details(target, ps, None, storage, game, pings);
    lemma_entries_add_up(ps, naming, owners, game);
    lemma_shown_sum(
        target_details::skill_entries(ps, None, naming, owners, game),
        details.start_time,
    );
}

/// What is asked for changes the skills alone: damage, duration, start and connection are those
/// of the whole fight.
pub proof fn law_picking_players_leaves_the_totals(
    target: i32,
    ps: Seq<ParsedDamagePacket>,
    ids: Seq<i32>,
    storage: StorageModel,
    game: GameData,
    pings: Seq<PingPoint>,
)
    ensures
        ({
            let all = target_details::fight_details(target, ps, None, storage, game, pings);
            let some = target_details::fight_details(target, ps, Some(ids), storage, game, pings);
            &&& some.total_target_damage == all.total_target_damage
            &&& some.battle_time == all.battle_time
            &&& some.start_time == all.start_time
            &&& some.max_hp == all.max_hp
            &&& some.ping_history == all.ping_history
        }),
{
}

/// Whether the player has a nickname, and no other id that did damage is shown under it.
pub open spec fn has_name_of_its_own(
    id: i32,
    ps: Seq<ParsedDamagePacket>,
    storage: StorageModel,
) -> bool {
    &&& storage.nicknames.contains_key(id)
    &&& forall|other: i32| #[trigger]
        names::damage_by_player(ps, storage.summons).contains_key(other) && other != id
            ==> names::nickname_for(other, storage.nicknames, storage.summons)
            != storage.nicknames[id]
}

proof fn lemma_own_name_is_shown(
    id: i32,
    ps: Seq<ParsedDamagePacket>,
    storage: StorageModel,
    owners: Map<i32, i32>,
)
    requires
        has_name_of_its_own(id, ps, storage),
        !owners.contains_key(id),
    ensures
        ({
            let naming = target_details::naming_in(ps, storage);
            &&& names::counted_under(id, naming.canonical, naming.nicknames, naming.summons) == id
            &&& target_details::shown_under(id, naming, owners) == id
        }),
{
    let naming = target_details::naming_in(ps, storage);
    let damage = names::damage_by_player(ps, storage.summons);
    let n = storage.nicknames[id];
    assert(names::nickname_for(id, naming.nicknames, naming.summons) == n);
    if naming.canonical.contains_key(n) {
        let witness = choose|w: i32|
            names::carries(w, n, damage, storage.nicknames, storage.summons);
        assert(damage.contains_key(witness));
        names::law_canonical_ids_stand_for_themselves(
            ps,
            storage.nicknames,
            storage.summons,
            id,
        );
    }
}

proof fn lemma_filter_place(
    entries: Seq<SkillEntryModel>,
    picked: spec_fn(SkillEntryModel) -> bool,
    uid: i32,
    key: i32,
    p: ParsedDamagePacket,
)
    requires
        forall|e: SkillEntryModel| #[trigger] picked(e.hit(p)) == picked(e),
        forall|e: SkillEntryModel| e.actor_id == uid ==> #[trigger] picked(e),
    ensures
        ({
            let some = entries.filter(picked);
            let place = target_details::entry_place(entries, uid, key);
            let place_in_some = target_details::entry_place(some, uid, key);
            &&& place < entries.len() <==> place_in_some < some.len()
            &&& place < entries.len() ==> entries.update(place, entries[place].hit(p)).filter(
                picked,
            ) == some.update(place_in_some, some[place_in_some].hit(p))
        }),
    decreases entries.len(),
{
    reveal(Seq::filter);
    if entries.len() > 0 {
        let front = entries.drop_last();
        lemma_filter_place(front, picked, uid, key, p);
        lemma_entry_place(front, uid, key);
        lemma_entry_place(front.filter(picked), uid, key);
        lemma_entry_place(entries, uid, key);
        let some_front = front.filter(picked);
        let some = entries.filter(picked);
        let place = target_details::entry_place(entries, uid, key);
        let place_in_some = target_details::entry_place(some, uid, key);
        if picked(entries.last()) {
            assert(some.drop_last() =~= some_front);
        }
        if place < entries.len() {
            let after = entries.update(place, entries[place].hit(p));
            if place < front.len() {
                assert(after.drop_last() =~= front.update(place, front[place].hit(p)));
                assert(after.last() == entries.last());
                if picked(entries.last()) {
                    assert(some.update(place_in_some, some[place_in_some].hit(p)) =~= some_front
                        .update(place_in_some, some_front[place_in_some].hit(p)).push(
                        entries.last(),
                    ));
                }
            } else {
                assert(after.drop_last() =~= front);
                assert(place_in_some == some_front.len());
                assert(some.update(place_in_some, some[place_in_some].hit(p)) =~= some_front.push(
                    entries.last().hit(p),
                ));
            }
        }
    }
}

proof fn lemma_filter_other(
    entries: Seq<SkillEntryModel>,
    picked: spec_fn(SkillEntryModel) -> bool,
    i: int,
    e: SkillEntryModel,
)
    requires
        0 <= i < entries.len(),
        !picked(entries[i]),
        !picked(e),
    ensures
        entries.update(i, e).filter(picked) == entries.filter(picked),
    decreases entries.len(),
{
    reveal(Seq::filter);
    let after = entries.update(i, e);
    if i == entries.len() - 1 {
        assert(after.drop_last() =~= entries.drop_last());
    } else {
        lemma_filter_other(entries.drop_last(), picked, i, e);
        assert(after.drop_last() =~= entries.drop_last().update(i, e));
        assert(after.last() == entries.last());
    }
}

proof fn lemma_filter_shown(
    entries: Seq<SkillEntryModel>,
    picked: spec_fn(SkillEntryModel) -> bool,
    start: i64,
)
    requires
        forall|e: SkillEntryModel| #[trigger] picked(e.shown(start)) == picked(e),
    ensures
        entries.map_values(|e: SkillEntryModel| e.shown(start)).filter(picked) == entries.filter(
            picked,
        ).map_values(|e: SkillEntryModel| e.shown(start)),
    decreases entries.len(),
{
    reveal(Seq::filter);
    let show = |e: SkillEntryModel| e.shown(start);
    let shown = entries.map_values(show);
    if entries.len() == 0 {
        assert(shown.filter(picked) =~= entries.filter(picked).map_values(show));
    } else {
        lemma_filter_shown(entries.drop_last(), picked, start);
        assert(shown.drop_last() =~= entries.drop_last().map_values(show));
        assert(shown.last() == entries.last().shown(start));
        let rest = entries.drop_last().filter(picked);
        assert(rest.push(entries.last()).map_values(show) =~= rest.map_values(show).push(
            entries.last().shown(start),
        ));
    }
}

proof fn lemma_picked_entries(
    ps: Seq<ParsedDamagePacket>,
    ids: Seq<i32>,
    naming: Naming,
    owners: Map<i32, i32>,
    game: GameData,
)
    requires
        forall|i: int|
            0 <= i < ids.len() ==> names::counted_under(
                #[trigger] ids[i],
                naming.canonical,
                naming.nicknames,
                naming.summons,
            ) == ids[i] && target_details::shown_under(ids[i], naming, owners) == ids[i],
    ensures
        target_details::skill_entries(ps, Some(ids), naming, owners, game)
            == target_details::skill_entries(ps, None, naming, owners, game).filter(
            |e: SkillEntryModel| ids.contains(e.actor_id),
        ),
    decreases ps.len(),
{
    reveal(Seq::filter);
    let picked = |e: SkillEntryModel| ids.contains(e.actor_id);
    let all = target_details::skill_entries(ps, None, naming, owners, game);
    if ps.len() == 0 {
        assert(all.filter(picked) =~= Seq::empty());
    } else {
        lemma_picked_entries(ps.drop_last(), ids, naming, owners, game);
        let p = ps.last();
        let raw = summon_resolver::resolved(p.actor_id, naming.summons);
        let before = target_details::skill_entries(ps.drop_last(), None, naming, owners, game);
        let some = before.filter(picked);
        let uid = target_details::shown_under(raw, naming, owners);
        let key = target_details::entry_key(game.skills.counted_as(p.skill_code), p.is_dot);
        if raw > 0 {
            lemma_entry_place(before, uid, key);
            assert(target_details::asked_for(raw, Some(ids), naming, owners) <==> ids.contains(
                uid,
            )) by {
                if ids.contains(raw) {
                    assert(ids[ids.index_of(raw)] == raw);
                }
                if ids.contains(uid) {
                    let i = ids.index_of(uid);
                    assert(names::counted_under(
                        ids[i],
                        naming.canonical,
                        naming.nicknames,
                        naming.summons,
                    ) == uid);
                }
            }
            let place = target_details::entry_place(before, uid, key);
            if ids.contains(uid) {
                lemma_filter_place(before, picked, uid, key, p);
                if place == before.len() {
                    assert(all.drop_last() =~= before);
                }
            } else if place < before.len() {
                lemma_filter_other(before, picked, place, before[place].hit(p));
            } else {
                assert(all.drop_last() =~= before);
            }
        }
    }
}

/// Where each of the players that are asked for has a name of its own, the skills are those of
/// these players in the details of the whole fight, in the same order, with all that is counted
/// under them; the rest is as in the whole fight.
pub proof fn law_picked_players_keep_their_skills(
    target: i32,
    ids: Seq<i32>,
    packets: Map<i32, Seq<ParsedDamagePacket>>,
    storage: StorageModel,
    game: GameData,
    pings: Seq<PingPoint>,
)
    requires
        packets.contains_key(target) ==> forall|i: int|
            0 <= i < ids.len() ==> has_name_of_its_own(
                #[trigger] ids[i],
                packets[target],
                storage,
            ),
    ensures
        ({
            let all = target_details::details_of(target, None, packets, storage, game, pings);
            let some = target_details::details_of(target, Some(ids), packets, storage, game, pings);
            &&& some.skills == all.skills.filter(|e: SkillEntryModel| ids.contains(e.actor_id))
            &&& some.total_target_damage == all.total_target_damage
            &&& some.battle_time == all.battle_time
            &&& some.start_time == all.start_time
            &&& some.max_hp == all.max_hp
            &&& some.ping_history == all.ping_history
        }),
{
    let picked = |e: SkillEntryModel| ids.contains(e.actor_id);
    if packets.contains_key(target) {
        let ps = packets[target];
        let naming = target_details::naming_in(ps, storage);
        let owners = target_details::owners_by_class(
            ps,
            target_details::classes_by_player(ps, naming, game.jobs),
            naming,
            game.jobs,
        );
        assert forall|i: int| 0 <= i < ids.len() implies names::counted_under(
            #[trigger] ids[i],
            naming.canonical,
            naming.nicknames,
            naming.summons,
        ) == ids[i] && target_details::shown_under(ids[i], naming, owners) == ids[i] by {
            assert(has_name_of_its_own(ids[i], ps, storage));
            lemma_own_name_is_shown(ids[i], ps, storage, owners);
        }
        lemma_picked_entries(ps, ids, naming, owners, game);
        let all = target_details::fight_details(target, ps, None, storage, game, pings);
        lemma_filter_shown(
            target_details::skill_entries(ps, None, naming, owners, game),
            picked,
            all.start_time,
        );
    } else {
        reveal(Seq::filter);
        assert(Seq::<SkillEntryModel>::empty().filter(picked) =~= Seq::empty());
    }
}

/// No two entries are of the same player and skill.
pub proof fn lemma_entries_distinct(
    ps: Seq<ParsedDamagePacket>,
    ids: Option<Seq<i32>>,
    naming: Naming,
    owners: Map<i32, i32>,
    game: GameData,
)
    ensures
        entries_are_distinct(target_details::skill_entries(ps, ids, naming, owners, game)),
    decreases ps.len(),
{
    if ps.len() > 0 {
        lemma_entries_distinct(ps.drop_last(), ids, naming, owners, game);
        let p = ps.last();
        let raw = summon_resolver::resolved(p.actor_id, naming.summons);
        let before = target_details::skill_entries(ps.drop_last(), ids, naming, owners, game);
        if raw > 0 && target_details::asked_for(raw, ids, naming, owners) {
            let uid = target_details::shown_under(raw, naming, owners);
            let code = game.skills.counted_as(p.skill_code);
            let key = target_details::entry_key(code, p.is_dot);
            let after = target_details::with_event(before, uid, p, game);
            lemma_entry_place(before, uid, key);
            assert forall|i: int, j: int| 0 <= i < j < after.len() implies !is_entry(
                #[trigger] after[i],
                (#[trigger] after[j]).actor_id,
                target_details::entry_key(after[j].code, after[j].is_dot),
            ) by {
                if j < before.len() {
                    assert(!is_entry(
                        before[i],
                        before[j].actor_id,
                        target_details::entry_key(before[j].code, before[j].is_dot),
                    ));
                } else {
                    assert(!is_entry(before[i], uid, key));
                }
            }
        }
    }
}

/// A player has one entry for a skill, and one more for its damage over time.
pub proof fn law_one_entry_per_skill(
    target: i32,
    ps: Seq<ParsedDamagePacket>,
    ids: Option<Seq<i32>>,
    storage: StorageModel,
    game: GameData,
    pings: Seq<PingPoint>,
)
    ensures
        entries_are_distinct(
            target_details::fight_details(target, ps, ids, storage, game, pings).skills,
        ),
{
    let naming = target_details::naming_in(ps, storage);
    let owners = target_details::owners_by_class(
        ps,
        target_details::classes_by_player(ps, naming, game.jobs),
        naming,
        game.jobs,
    );
    let details = target_details::fight_details(target, ps, ids, storage, game, pings);
    let entries = target_details::skill_entries(ps, ids, naming, owners, game);
    lemma_entries_distinct(ps, ids, naming, owners, game);
    assert forall|i: int, j: int| 0 <= i < j < details.skills.len() implies !is_entry(
        #[trigger] details.skills[i],
        (#[trigger] details.skills[j]).actor_id,
        target_details::entry_key(details.skills[j].code, details.skills[j].is_dot),
    ) by {
        assert(details.skills[i] == entries[i].shown(details.start_time));
        assert(details.skills[j] == entries[j].shown(details.start_time));
    }
}

/// Whether the time lies in the span.
pub open spec fn within(span: target_details::Span, ts: i64) -> bool {
    span.start is Some && span.end is Some && span.start->0 <= ts <= span.end->0
}

proof fn lemma_times_within(
    ps: Seq<ParsedDamagePacket>,
    ids: Option<Seq<i32>>,
    naming: Naming,
    owners: Map<i32, i32>,
    game: GameData,
)
    ensures
        ({
            let entries = target_details::skill_entries(ps, ids, naming, owners, game);
            let span = target_details::span_of(ps, naming.summons);
            &&& span.start is Some == span.end is Some
            &&& forall|i: int, k: int|
                0 <= i < entries.len() && 0 <= k < entries[i].hit_timestamps.len() ==> within(
                    span,
                    #[trigger] entries[i].hit_timestamps[k],
                )
        }),
    decreases ps.len(),
{
    if ps.len() > 0 {
        lemma_times_within(ps.drop_last(), ids, naming, owners, game);
        let p = ps.last();
        let raw = summon_resolver::resolved(p.actor_id, naming.summons);
        let before = target_details::skill_entries(ps.drop_last(), ids, naming, owners, game);
        let entries = target_details::skill_entries(ps, ids, naming, owners, game);
        let old_span = target_details::span_of(ps.drop_last(), naming.summons);
        let span = target_details::span_of(ps, naming.summons);
        if raw > 0 {
            let uid = target_details::shown_under(raw, naming, owners);
            let key = target_details::entry_key(game.skills.counted_as(p.skill_code), p.is_dot);
            lemma_entry_place(before, uid, key);
            assert forall|ts: i64| within(old_span, ts) implies #[trigger] within(span, ts) by {}
            assert(within(span, p.timestamp));
            assert forall|i: int, k: int|
                0 <= i < entries.len() && 0 <= k < entries[i].hit_timestamps.len() implies within(
                span,
                #[trigger] entries[i].hit_timestamps[k],
            ) by {
                if i < before.len() && k < before[i].hit_timestamps.len() {
                    assert(within(old_span, before[i].hit_timestamps[k]));
                    assert(entries[i].hit_timestamps[k] == before[i].hit_timestamps[k]);
                } else {
                    assert(entries[i].hit_timestamps[k] == p.timestamp);
                }
            }
        }
    }
}

/// The times of hits are counted from the start of the fight: none lies before it, and none after
/// the end. Left out are fights longer than the clock can tell.
pub proof fn law_hits_lie_in_the_fight(
    target: i32,
    ps: Seq<ParsedDamagePacket>,
    ids: Option<Seq<i32>>,
    storage: StorageModel,
    game: GameData,
    pings: Seq<PingPoint>,
    i: int,
    k: int,
)
    requires
        ({
            let span = target_details::span_of(ps, storage.summons);
            span.start is Some && span.end is Some ==> span.end->0 - span.start->0 <= i64::MAX
        }),
        ({
            let skills = target_details::fight_details(
                target,
                ps,
                ids,
                storage,
                game,
                pings,
            ).skills;
            0 <= i < skills.len() && 0 <= k < skills[i].hit_timestamps.len()
        }),
    ensures
        ({
            let details = target_details::fight_details(target, ps, ids, storage, game, pings);
            0 <= details.skills[i].hit_timestamps[k] <= details.battle_time
        }),
{
    let naming = target_details::naming_in(ps, storage);
    let owners = target_details::owners_by_class(
        ps,
        target_details::classes_by_player(ps, naming, game.jobs),
        naming,
        game.jobs,
    );
    let entries = target_details::skill_entries(ps, ids, naming, owners, game);
    let details = target_details::fight_details(target, ps, ids, storage, game, pings);
    lemma_times_within(ps, ids, naming, owners, game);
    assert(details.skills[i] == entries[i].shown(details.start_time));
    assert(within(target_details::span_of(ps, storage.summons), entries[i].hit_timestamps[k]));
}

/// Amounts of damage, widened.
pub open spec fn widened(damage: Map<i32, i32>) -> Map<i32, i64> {
    damage.map_values(|d: i32| d as i64)
}

/// The damage of the players of a tally adds up to its total.
pub proof fn lemma_tally_adds_up(
    meta: Map<i32, MetaModel>,
    ps: Seq<ParsedDamagePacket>,
    naming: Naming,
    jobs: JobTable,
)
    ensures
        ({
            let tally = (Tally { total: 0, damage: Map::empty(), meta }).counted_all(
                ps,
                naming,
                jobs,
            );
            &&& tally.damage.dom().finite()
            &&& tally.damage.dom().subset_of(tally.meta.dom())
            &&& sums::same_count32(sums::total(widened(tally.damage)), tally.total as int)
        }),
    decreases ps.len(),
{
    let start = Tally { total: 0, damage: Map::empty(), meta };
    if ps.len() == 0 {
        assert(widened(Map::empty()).dom() =~= Set::empty());
    } else {
        lemma_tally_adds_up(meta, ps.drop_last(), naming, jobs);
        let before = start.counted_all(ps.drop_last(), naming, jobs);
        let after = before.counted(ps.last(), naming, jobs);
        let raw = summon_resolver::resolved(ps.last().actor_id, naming.summons);
        if raw > 0 {
            let uid = names::counted_under(
                raw,
                naming.canonical,
                naming.nicknames,
                naming.summons,
            );
            let amount = after.damage[uid];
            assert(widened(before.damage).dom() =~= before.damage.dom());
            assert(widened(after.damage) =~= widened(before.damage).insert(uid, amount as i64));
            sums::lemma_total_insert(widened(before.damage), uid, amount as i64);
        }
    }
}

/// Counting summons for the players behind them changes no total.
pub proof fn lemma_adoption_keeps_total(tally: Tally, links: Seq<OrphanLink>)
    requires
        tally.damage.dom().finite(),
    ensures
        ({
            let after = tally.adopted(links);
            &&& after.damage.dom().finite()
            &&& after.total == tally.total
            &&& sums::same_count32(
                sums::total(widened(after.damage)),
                sums::total(widened(tally.damage)),
            )
        }),
    decreases links.len(),
{
    if links.len() > 0 {
        lemma_adoption_keeps_total(tally, links.drop_last());
        let before = tally.adopted(links.drop_last());
        let link = links.last();
        if before.damage.contains_key(link.orphan) {
            let rest = before.damage.remove(link.orphan);
            let amount = names::damage_in(rest, link.owner).wrapping_add(
                before.damage[link.orphan],
            );
            assert(widened(before.damage).dom() =~= before.damage.dom());
            assert(widened(rest) =~= widened(before.damage).remove(link.orphan));
            assert(widened(rest).dom() =~= rest.dom());
            assert(widened(rest.insert(link.owner, amount)) =~= widened(rest).insert(
                link.owner,
                amount as i64,
            ));
            sums::lemma_total_remove(widened(before.damage), link.orphan);
            sums::lemma_total_insert(widened(rest), link.owner, amount as i64);
        }
    }
}

/// In the list of targets, the damage of a target is that of the players that hit it, as long as
/// none of them is a stranger without class and nickname; counting unlinked summons for the
/// players behind them changes no total.
pub proof fn law_targets_add_up(
    meta: Map<i32, MetaModel>,
    ps: Seq<ParsedDamagePacket>,
    naming: Naming,
    jobs: JobTable,
)
    requires
        ({
            let counted = (Tally { total: 0, damage: Map::empty(), meta }).counted_all(
                ps,
                naming,
                jobs,
            );
            let merged = counted.adopted(
                meter::orphan_links(
                    keys::ascending(counted.classes().dom()),
                    counted.classes(),
                    naming.nicknames,
                    naming.summons,
                ),
            );
            merged.strangers(naming.nicknames) == Set::<i32>::empty()
        }),
    ensures
        ({
            let settled = (Tally { total: 0, damage: Map::empty(), meta }).counted_all(
                ps,
                naming,
                jobs,
            ).settled(naming.nicknames, naming.summons);
            sums::same_count32(sums::total(widened(settled.damage)), settled.total as int)
        }),
{
    let counted = (Tally { total: 0, damage: Map::empty(), meta }).counted_all(ps, naming, jobs);
    let links = meter::orphan_links(
        keys::ascending(counted.classes().dom()),
        counted.classes(),
        naming.nicknames,
        naming.summons,
    );
    let merged = counted.adopted(links);
    lemma_tally_adds_up(meta, ps, naming, jobs);
    lemma_adoption_keeps_total(counted, links);
    assert(merged.without(merged.strangers(naming.nicknames)).damage =~= merged.damage);
}

/// Whether no event takes damage back, and all damage of players together fits in a counter.
pub open spec fn damage_fits(ps: Seq<ParsedDamagePacket>, summons: Map<i32, i32>) -> bool {
    &&& forall|i: int| 0 <= i < ps.len() ==> (#[trigger] ps[i]).total_damage >= 0
    &&& meter_laws::player_damage(ps, summons) <= i32::MAX
}

/// Whether every player that acted has a nickname.
pub open spec fn all_are_named(ps: Seq<ParsedDamagePacket>, storage: StorageModel) -> bool {
    forall|i: int|
        0 <= i < ps.len() && summon_resolver::resolved(
            (#[trigger] ps[i]).actor_id,
            storage.summons,
        ) > 0 ==> storage.nicknames.contains_key(
            summon_resolver::resolved(ps[i].actor_id, storage.summons),
        )
}

impl Tally {
    /// Whether the tally is exact: no one did damage below zero, and the total is the sum.
    pub open spec fn is_exact(self) -> bool {
        &&& self.damage.dom().finite()
        &&& forall|u: i32| #[trigger] self.damage.contains_key(u) ==> self.damage[u] >= 0
        &&& sums::total(widened(self.damage)) == self.total
    }
}

proof fn lemma_parts_of_tally(tally: Tally)
    requires
        tally.is_exact(),
    ensures
        tally.total >= 0,
        forall|u: i32| #[trigger]
            tally.damage.contains_key(u) ==> tally.damage[u] <= tally.total,
{
    let parts = widened(tally.damage);
    assert(parts.dom() =~= tally.damage.dom());
    assert forall|u: i32| #[trigger] parts.contains_key(u) implies parts[u] >= 0 by {
        assert(tally.damage.contains_key(u));
    }
    sums::lemma_total_of_parts(parts);
    assert forall|u: i32| #[trigger] tally.damage.contains_key(u) implies tally.damage[u]
        <= tally.total by {
        assert(parts.contains_key(u));
    }
}

proof fn lemma_tally_is_exact(
    meta: Map<i32, MetaModel>,
    ps: Seq<ParsedDamagePacket>,
    naming: Naming,
    jobs: JobTable,
)
    requires
        damage_fits(ps, naming.summons),
    ensures
        ({
            let tally = (Tally { total: 0, damage: Map::empty(), meta }).counted_all(
                ps,
                naming,
                jobs,
            );
            &&& tally.is_exact()
            &&& tally.total == meter_laws::player_damage(ps, naming.summons)
        }),
    decreases ps.len(),
{
    let start = Tally { total: 0, damage: Map::empty(), meta };
    if ps.len() == 0 {
        assert(widened(Map::empty()).dom() =~= Set::empty());
    } else {
        let front = ps.drop_last();
        assert(ps[ps.len() - 1].total_damage >= 0);
        assert forall|i: int| 0 <= i < front.len() implies (#[trigger] front[i]).total_damage
            >= 0 by {
            assert(ps[i].total_damage >= 0);
        }
        lemma_tally_is_exact(meta, front, naming, jobs);
        let before = start.counted_all(front, naming, jobs);
        let after = before.counted(ps.last(), naming, jobs);
        let raw = summon_resolver::resolved(ps.last().actor_id, naming.summons);
        lemma_parts_of_tally(before);
        if raw > 0 {
            let uid = names::counted_under(
                raw,
                naming.canonical,
                naming.nicknames,
                naming.summons,
            );
            let amount = after.damage[uid];
            assert(widened(before.damage).dom() =~= before.damage.dom());
            assert(widened(after.damage) =~= widened(before.damage).insert(uid, amount as i64));
            sums::lemma_total_insert(widened(before.damage), uid, amount as i64);
        }
    }
}

proof fn lemma_adoption_is_exact(tally: Tally, links: Seq<OrphanLink>)
    requires
        tally.is_exact(),
    ensures
        tally.adopted(links).is_exact(),
        tally.adopted(links).total == tally.total,
    decreases links.len(),
{
    if links.len() > 0 {
        lemma_adoption_is_exact(tally, links.drop_last());
        let before = tally.adopted(links.drop_last());
        let link = links.last();
        if before.damage.contains_key(link.orphan) {
            let rest = before.damage.remove(link.orphan);
            let amount = names::damage_in(rest, link.owner).wrapping_add(
                before.damage[link.orphan],
            );
            assert(widened(before.damage).dom() =~= before.damage.dom());
            assert(widened(rest) =~= widened(before.damage).remove(link.orphan));
            assert(widened(rest).dom() =~= rest.dom());
            assert(widened(rest.insert(link.owner, amount)) =~= widened(rest).insert(
                link.owner,
                amount as i64,
            ));
            sums::lemma_total_remove(widened(before.damage), link.orphan);
            sums::lemma_total_insert(widened(rest), link.owner, amount as i64);
            sums::lemma_total_remove(widened(rest), link.owner);
            let others = widened(rest).remove(link.owner);
            assert forall|u: i32| #[trigger] others.contains_key(u) implies others[u] >= 0 by {
                assert(before.damage.contains_key(u));
            }
            sums::lemma_total_of_parts(others);
        }
    }
}

/// Whoever is in the table of damage has a nickname, where every player that acted has one.
pub proof fn lemma_whoever_did_damage_is_named(ps: Seq<ParsedDamagePacket>, storage: StorageModel)
    requires
        all_are_named(ps, storage),
    ensures
        forall|u: i32| #[trigger]
            names::damage_by_player(ps, storage.summons).contains_key(u)
                ==> storage.nicknames.contains_key(u),
    decreases ps.len(),
{
    if ps.len() > 0 {
        let front = ps.drop_last();
        assert(all_are_named(front, storage)) by {
            assert forall|i: int|
                0 <= i < front.len() && summon_resolver::resolved(
                    (#[trigger] front[i]).actor_id,
                    storage.summons,
                ) > 0 implies storage.nicknames.contains_key(
                summon_resolver::resolved(front[i].actor_id, storage.summons),
            ) by {
                assert(ps[i] == front[i]);
            }
        }
        lemma_whoever_did_damage_is_named(front, storage);
        let uid = summon_resolver::resolved(ps[ps.len() - 1].actor_id, storage.summons);
        assert forall|u: i32| #[trigger]
            names::damage_by_player(ps, storage.summons).contains_key(
                u,
            ) implies storage.nicknames.contains_key(u) by {
            if !names::damage_by_player(front, storage.summons).contains_key(u) {
                assert(u == uid && uid > 0);
            }
        }
    }
}

proof fn lemma_tally_is_named(
    meta: Map<i32, MetaModel>,
    ps: Seq<ParsedDamagePacket>,
    k: int,
    storage: StorageModel,
    jobs: JobTable,
)
    requires
        all_are_named(ps, storage),
        0 <= k <= ps.len(),
    ensures
        (Tally { total: 0, damage: Map::empty(), meta }).counted_all(
            ps.take(k),
            target_details::naming_in(ps, storage),
            jobs,
        ).damage.dom().subset_of(storage.nicknames.dom()),
    decreases k,
{
    let naming = target_details::naming_in(ps, storage);
    if k > 0 {
        lemma_tally_is_named(meta, ps, k - 1, storage, jobs);
        assert(ps.take(k).drop_last() =~= ps.take(k - 1));
        assert(ps.take(k).last() == ps[k - 1]);
        let raw = summon_resolver::resolved(ps[k - 1].actor_id, storage.summons);
        if raw > 0 {
            meter_laws::lemma_did_damage(ps, k - 1, storage.summons);
            names::law_canonical_ids_stand_for_themselves(
                ps,
                storage.nicknames,
                storage.summons,
                raw,
            );
            lemma_whoever_did_damage_is_named(ps, storage);
        }
    }
}

proof fn lemma_adoption_is_named(
    tally: Tally,
    links: Seq<OrphanLink>,
    nicknames: Map<i32, Seq<char>>,
)
    requires
        tally.damage.dom().subset_of(nicknames.dom()),
        forall|i: int|
            0 <= i < links.len() ==> nicknames.contains_key((#[trigger] links[i]).owner),
    ensures
        tally.adopted(links).damage.dom().subset_of(nicknames.dom()),
    decreases links.len(),
{
    if links.len() > 0 {
        let front = links.drop_last();
        assert forall|i: int| 0 <= i < front.len() implies nicknames.contains_key(
            (#[trigger] front[i]).owner,
        ) by {
            assert(links[i] == front[i]);
        }
        lemma_adoption_is_named(tally, front, nicknames);
        assert(nicknames.contains_key(links[links.len() - 1].owner));
    }
}

proof fn lemma_tally_total(
    meta: Map<i32, MetaModel>,
    ps: Seq<ParsedDamagePacket>,
    naming: Naming,
    jobs: JobTable,
)
    ensures
        (Tally { total: 0, damage: Map::empty(), meta }).counted_all(ps, naming, jobs).total
            == target_details::span_of(ps, naming.summons).total,
    decreases ps.len(),
{
    if ps.len() > 0 {
        lemma_tally_total(meta, ps.drop_last(), naming, jobs);
    }
}

/// Whether a target in the list of targets agrees with the details of its fight: total and health
/// are the same, and, where damage fits, that of the players is no more than the total, and just
/// the total where every player has a nickname.
pub open spec fn agrees_with_details(
    summary: TargetSummaryModel,
    target: i32,
    packets: Map<i32, Seq<ParsedDamagePacket>>,
    storage: StorageModel,
    game: GameData,
    pings: Seq<PingPoint>,
) -> bool {
    let details = target_details::details_of(target, None, packets, storage, game, pings);
    let of_players = sums::total(widened(summary.actor_damage));
    &&& summary.target_id == target
    &&& summary.total_damage == details.total_target_damage
    &&& summary.max_hp == details.max_hp
    &&& damage_fits(packets[target], storage.summons) ==> {
        &&& of_players <= summary.total_damage
        &&& all_are_named(packets[target], storage) ==> of_players == summary.total_damage
    }
}

proof fn lemma_summary_agrees(
    meta: Map<i32, MetaModel>,
    target: i32,
    packets: Map<i32, Seq<ParsedDamagePacket>>,
    infos: Map<i32, TargetInfoModel>,
    storage: StorageModel,
    game: GameData,
    pings: Seq<PingPoint>,
)
    requires
        packets.contains_key(target),
    ensures
        agrees_with_details(
            overview::target_summary(
                target,
                overview::target_tally(meta, packets[target], storage, game.jobs),
                infos,
                storage,
                game,
            ),
            target,
            packets,
            storage,
            game,
            pings,
        ),
{
    let ps = packets[target];
    let naming = target_details::naming_in(ps, storage);
    let counted = (Tally { total: 0, damage: Map::empty(), meta }).counted_all(
        ps,
        naming,
        game.jobs,
    );
    let links = meter::orphan_links(
        keys::ascending(counted.classes().dom()),
        counted.classes(),
        storage.nicknames,
        storage.summons,
    );
    let merged = counted.adopted(links);
    let strangers = merged.strangers(storage.nicknames);
    let settled = merged.without(strangers);
    lemma_tally_total(meta, ps, naming, game.jobs);
    lemma_tally_adds_up(meta, ps, naming, game.jobs);
    lemma_adoption_keeps_total(counted, links);
    if damage_fits(ps, storage.summons) {
        lemma_tally_is_exact(meta, ps, naming, game.jobs);
        lemma_adoption_is_exact(counted, links);
        let parts = widened(merged.damage);
        assert(parts.dom() =~= merged.damage.dom());
        assert forall|u: i32| #[trigger] parts.contains_key(u) implies parts[u] >= 0 by {
            assert(merged.damage.contains_key(u));
        }
        sums::lemma_total_without(parts, strangers);
        assert(parts.remove_keys(strangers) =~= widened(settled.damage));
        if all_are_named(ps, storage) {
            assert(ps.take(ps.len() as int) =~= ps);
            lemma_tally_is_named(meta, ps, ps.len() as int, storage, game.jobs);
            meter_laws::lemma_orphan_links(
                keys::ascending(counted.classes().dom()),
                counted.classes(),
                storage.nicknames,
                storage.summons,
            );
            lemma_adoption_is_named(counted, links, storage.nicknames);
            assert(settled.damage =~= merged.damage);
        }
    }
}

proof fn lemma_overview_agrees(
    targets: Seq<i32>,
    packets: Map<i32, Seq<ParsedDamagePacket>>,
    infos: Map<i32, TargetInfoModel>,
    storage: StorageModel,
    game: GameData,
    pings: Seq<PingPoint>,
)
    requires
        forall|i: int| 0 <= i < targets.len() ==> packets.contains_key(#[trigger] targets[i]),
    ensures
        ({
            let summaries = overview::overview_of(targets, packets, infos, storage, game).targets;
            &&& summaries.len() == targets.len()
            &&& forall|i: int|
                0 <= i < targets.len() ==> agrees_with_details(
                    #[trigger] summaries[i],
                    targets[i],
                    packets,
                    storage,
                    game,
                    pings,
                )
        }),
    decreases targets.len(),
{
    if targets.len() > 0 {
        let front = targets.drop_last();
        assert forall|i: int| 0 <= i < front.len() implies packets.contains_key(
            #[trigger] front[i],
        ) by {
            assert(targets[i] == front[i]);
        }
        lemma_overview_agrees(front, packets, infos, storage, game, pings);
        let before = overview::overview_of(front, packets, infos, storage, game);
        assert(packets.contains_key(targets[targets.len() - 1]));
        lemma_summary_agrees(before.meta, targets.last(), packets, infos, storage, game, pings);
        let summaries = overview::overview_of(targets, packets, infos, storage, game).targets;
        assert forall|i: int| 0 <= i < targets.len() implies agrees_with_details(
            #[trigger] summaries[i],
            targets[i],
            packets,
            storage,
            game,
            pings,
        ) by {
            if i < front.len() {
                assert(summaries[i] == before.targets[i]);
                assert(front[i] == targets[i]);
            }
        }
    }
}

/// The list of targets has one entry for each target that has events, and no other. Each agrees
/// with the details of its fight: its total and its health are the same, and the damage of its
/// players is no more than the total; it is just the total where every player has a nickname. The
/// last two hold where no event takes damage back and the damage fits in a counter. The target
/// that is tracked is said beside the list.
pub proof fn law_overview_agrees_with_details(
    current_target: i32,
    packets: Map<i32, Seq<ParsedDamagePacket>>,
    infos: Map<i32, TargetInfoModel>,
    storage: StorageModel,
    game: GameData,
    pings: Seq<PingPoint>,
)
    requires
        packets.dom().finite(),
    ensures
        ({
            let context = overview::context_of(current_target, packets, infos, storage, game);
            let targets = context.targets;
            &&& context.current_target_id == current_target
            &&& targets.len() == packets.dom().len()
            &&& forall|t: i32| #[trigger]
                packets.contains_key(t) <==> exists|i: int|
                    0 <= i < targets.len() && (#[trigger] targets[i]).target_id == t
            &&& forall|i: int, j: int|
                0 <= i < j < targets.len() ==> (#[trigger] targets[i]).target_id < (
                #[trigger] targets[j]).target_id
            &&& forall|i: int|
                0 <= i < targets.len() ==> agrees_with_details(
                    #[trigger] targets[i],
                    targets[i].target_id,
                    packets,
                    storage,
                    game,
                    pings,
                )
        }),
{
    let ids = keys::ascending(packets.dom());
    keys::lemma_ascending_exists(packets.dom());
    assert forall|i: int| 0 <= i < ids.len() implies packets.contains_key(#[trigger] ids[i]) by {
        assert(ids.to_set().contains(ids[i]));
    }
    lemma_overview_agrees(ids, packets, infos, storage, game, pings);
    let targets = overview::context_of(current_target, packets, infos, storage, game).targets;
    assert forall|i: int| 0 <= i < targets.len() implies (#[trigger] targets[i]).target_id
        == ids[i] by {
        assert(agrees_with_details(targets[i], ids[i], packets, storage, game, pings));
    }
    assert forall|t: i32| #[trigger] packets.contains_key(t) implies exists|i: int|
        0 <= i < targets.len() && (#[trigger] targets[i]).target_id == t by {
        assert(ids.to_set().contains(t));
        let i = ids.index_of(t);
        assert(targets[i].target_id == t);
    }
    assert(ids.no_duplicates());
    ids.unique_seq_to_set();
}

/// A fight that was kept after its end is not kept again; one that was kept while it went on can
/// be.
pub proof fn law_ended_fights_are_kept_once(
    calc: CalcModel,
    now_ms: i64,
    force: bool,
    mobs: Map<i32, i32>,
    game: GameData,
    target: i32,
)
    requires
        boss_fights::candidates(calc.infos, calc.saved, mobs, game).contains(target),
    ensures
        ({
            let after = calc.after_keeping(now_ms, force, mobs, game);
            boss_fights::candidates(after.infos, after.saved, mobs, game).contains(target) <==> !(
            boss_fights::is_due(calc.infos[target], now_ms, force) && boss_fights::has_ended(
                calc.infos[target],
                now_ms,
            ))
        }),
{
}

/// Once all targets are marked as kept, none is kept again.
pub proof fn law_marked_fights_are_not_kept(
    calc: CalcModel,
    mobs: Map<i32, i32>,
    game: GameData,
)
    ensures
        boss_fights::candidates(
            calc.infos,
            calc.saved.union(calc.infos.dom()),
            mobs,
            game,
        ) == Set::<i32>::empty(),
{
    assert(boss_fights::candidates(
        calc.infos,
        calc.saved.union(calc.infos.dom()),
        mobs,
        game,
    ) =~= Set::empty());
}

/// What is recorded: each fight that is due, as it is.
pub proof fn lemma_records(
    targets: Seq<i32>,
    infos: Map<i32, TargetInfoModel>,
    now_ms: i64,
    force: bool,
    scene: Scene,
)
    ensures
        ({
            let records = boss_fights::records_of(targets, infos, now_ms, force, scene);
            &&& forall|i: int|
                0 <= i < records.len() ==> {
                    let r = #[trigger] records[i];
                    &&& targets.contains(r.target_id)
                    &&& boss_fights::is_due(infos[r.target_id], now_ms, force)
                    &&& r == boss_fights::record_of(r.target_id, infos[r.target_id], scene)
                }
            &&& forall|k: int|
                0 <= k < targets.len() && boss_fights::is_due(
                    infos[#[trigger] targets[k]],
                    now_ms,
                    force,
                ) ==> records.contains(
                    boss_fights::record_of(targets[k], infos[targets[k]], scene),
                )
        }),
    decreases targets.len(),
{
    if targets.len() > 0 {
        let front = targets.drop_last();
        lemma_records(front, infos, now_ms, force, scene);
        let before = boss_fights::records_of(front, infos, now_ms, force, scene);
        let records = boss_fights::records_of(targets, infos, now_ms, force, scene);
        assert forall|i: int| 0 <= i < records.len() implies targets.contains(
            (#[trigger] records[i]).target_id,
        ) && boss_fights::is_due(infos[records[i].target_id], now_ms, force) && records[i]
            == boss_fights::record_of(records[i].target_id, infos[records[i].target_id], scene) by {
            if i < before.len() {
                assert(before[i] == records[i]);
                let k = front.index_of(records[i].target_id);
                assert(targets[k] == records[i].target_id);
            } else {
                assert(targets[targets.len() - 1] == records[i].target_id);
            }
        }
        assert forall|k: int|
            0 <= k < targets.len() && boss_fights::is_due(
                infos[#[trigger] targets[k]],
                now_ms,
                force,
            ) implies records.contains(
            boss_fights::record_of(targets[k], infos[targets[k]], scene),
        ) by {
            let wanted = boss_fights::record_of(targets[k], infos[targets[k]], scene);
            if k < front.len() {
                assert(front[k] == targets[k]);
                let i = before.index_of(wanted);
                assert(records[i] == wanted);
            } else {
                assert(records[before.len() as int] == wanted);
            }
        }
    }
}

proof fn lemma_one_record_each(
    targets: Seq<i32>,
    infos: Map<i32, TargetInfoModel>,
    now_ms: i64,
    force: bool,
    scene: Scene,
)
    requires
        keys::is_ascending(targets),
    ensures
        ({
            let records = boss_fights::records_of(targets, infos, now_ms, force, scene);
            forall|i: int, j: int|
                0 <= i < j < records.len() ==> (#[trigger] records[i]).target_id < (
                #[trigger] records[j]).target_id
        }),
    decreases targets.len(),
{
    if targets.len() > 0 {
        let front = targets.drop_last();
        lemma_one_record_each(front, infos, now_ms, force, scene);
        lemma_records(front, infos, now_ms, force, scene);
        let before = boss_fights::records_of(front, infos, now_ms, force, scene);
        let records = boss_fights::records_of(targets, infos, now_ms, force, scene);
        assert forall|i: int, j: int| 0 <= i < j < records.len() implies (
        #[trigger] records[i]).target_id < (#[trigger] records[j]).target_id by {
            assert(records[i] == before[i]);
            if j < before.len() {
                assert(records[j] == before[j]);
            } else {
                let k = front.index_of(before[i].target_id);
                assert(targets[k] == before[i].target_id);
                assert(targets[k] < targets[targets.len() - 1]);
            }
        }
    }
}

/// Every fight that is kept is one against a boss or a training dummy that was not kept for good
/// before, has lasted five seconds, and has seen damage; it has ended, has lasted fifteen seconds,
/// or is asked for in any case. Every such fight is kept. No target has more than one record.
pub proof fn law_which_fights_are_kept(
    calc: CalcModel,
    now_ms: i64,
    force: bool,
    scene: Scene,
    target: i32,
)
    requires
        calc.infos.dom().finite(),
    ensures
        ({
            let candidates = boss_fights::candidates(
                calc.infos,
                calc.saved,
                scene.storage.mobs,
                scene.game,
            );
            let kept = calc.fights_to_keep(now_ms, force, scene);
            &&& forall|i: int|
                0 <= i < kept.len() ==> {
                    let info = calc.infos[(#[trigger] kept[i]).target_id];
                    &&& candidates.contains(kept[i].target_id)
                    &&& kept[i].duration_ms == info.battle_time()
                    &&& kept[i].duration_ms >= 5000
                    &&& info.damaged_amount > 0
                    &&& force || boss_fights::has_ended(info, now_ms) || kept[i].duration_ms
                        >= 15_000
                }
            &&& candidates.contains(target) && boss_fights::is_due(
                calc.infos[target],
                now_ms,
                force,
            ) ==> exists|i: int| 0 <= i < kept.len() && (#[trigger] kept[i]).target_id == target
            &&& forall|i: int, j: int|
                0 <= i < j < kept.len() ==> (#[trigger] kept[i]).target_id != (
                #[trigger] kept[j]).target_id
        }),
{
    let candidates = boss_fights::candidates(
        calc.infos,
        calc.saved,
        scene.storage.mobs,
        scene.game,
    );
    vstd::set_lib::lemma_set_subset_finite(calc.infos.dom(), candidates);
    keys::lemma_ascending_exists(candidates);
    let targets = keys::ascending(candidates);
    lemma_records(targets, calc.infos, now_ms, force, scene);
    lemma_one_record_each(targets, calc.infos, now_ms, force, scene);
    let kept = calc.fights_to_keep(now_ms, force, scene);
    assert forall|i: int| 0 <= i < kept.len() implies candidates.contains(
        (#[trigger] kept[i]).target_id,
    ) by {
        assert(targets.to_set().contains(kept[i].target_id));
    }
    if candidates.contains(target) && boss_fights::is_due(calc.infos[target], now_ms, force) {
        assert(targets.to_set().contains(target));
        let k = targets.index_of(target);
        assert(targets[k] == target);
        let wanted = boss_fights::record_of(target, calc.infos[target], scene);
        let i = kept.index_of(wanted);
        assert(kept[i].target_id == target);
    }
}

/// A player in a record is one that took part, under a nickname that is veiled unless it is that of
/// the local player.
pub proof fn law_only_the_local_player_is_named(
    target: i32,
    info: TargetInfoModel,
    scene: Scene,
    i: int,
)
    requires
        0 <= i < boss_fights::record_of(target, info, scene).actors.len(),
    ensures
        ({
            let actor = boss_fights::record_of(target, info, scene).actors[i];
            actor.nickname == if actor.actor_id == boss_fights::local_id(scene.storage) {
                names::nickname_for(
                    actor.actor_id,
                    scene.storage.nicknames,
                    scene.storage.summons,
                )
            } else {
                (scene.veil)(
                    names::nickname_for(
                        actor.actor_id,
                        scene.storage.nicknames,
                        scene.storage.summons,
                    ),
                )
            }
        }),
{
    let skills = target_details::details_of(
        target,
        None,
        scene.packets,
        scene.storage,
        scene.game,
        scene.pings,
    ).skills;
    let table = boss_fights::participants(skills, scene.storage, scene.game.jobs);
    let id = keys::ascending(table.dom())[i];
    boss_fights::lemma_participants(skills, scene.storage, scene.game.jobs);
    keys::lemma_ascending_exists(table.dom());
    assert(keys::ascending(table.dom()).to_set().contains(id));
}

/// Fights against different targets, or with different starts, are kept under different names.
pub proof fn law_fights_have_names_of_their_own(a: i32, a_start: i64, b: i32, b_start: i64)
    ensures
        boss_fights::record_id(a, a_start) == boss_fights::record_id(b, b_start) <==> a == b
            && a_start == b_start,
{
    reveal_strlit("auto_");
    reveal_strlit("_");
    let ta = text::decimal(a as int);
    let tb = text::decimal(b as int);
    let sa = text::decimal(a_start as int);
    let sb = text::decimal(b_start as int);
    text::lemma_decimal_chars(a as int);
    text::lemma_decimal_chars(b as int);
    let ra = boss_fights::record_id(a, a_start);
    let rb = boss_fights::record_id(b, b_start);
    if ra == rb {
        assert(ra[5 + ta.len() as int] == '_');
        assert(rb[5 + tb.len() as int] == '_');
        if ta.len() < tb.len() {
            assert(rb[5 + ta.len() as int] == tb[ta.len() as int]);
        }
        if tb.len() < ta.len() {
            assert(ra[5 + tb.len() as int] == ta[tb.len() as int]);
        }
        let n = ta.len();
        assert(ta =~= tb) by {
            assert forall|i: int| 0 <= i < n implies ta[i] == tb[i] by {
                assert(ra[5 + i] == ta[i]);
                assert(rb[5 + i] == tb[i]);
            }
        }
        assert(ra.len() == 6 + n + sa.len());
        assert(rb.len() == 6 + n + sb.len());
        assert(sa =~= sb) by {
            assert forall|i: int| 0 <= i < sa.len() implies sa[i] == sb[i] by {
                assert(ra[6 + n + i] == sa[i]);
                assert(rb[6 + n + i] == sb[i]);
            }
        }
        text::law_decimals_differ(a as int, b as int);
        text::law_decimals_differ(a_start as int, b_start as int);
    }
}

} // verus!
