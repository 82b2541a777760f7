//! What holds of the list of targets and players, told by the events.
use crate::combat::details_laws;
use crate::combat::game_data::GameData;
use crate::combat::meter;
use crate::combat::meter::{Naming, OrphanLink};
use crate::combat::meter_laws;
use crate::combat::name_laws;
use crate::combat::names;
use crate::combat::overview;
use crate::combat::overview::{MetaModel, Tally};
use crate::combat::reading_laws;
use crate::combat::storage_model::StorageModel;
use crate::combat::target_details;
use crate::entity::damage_packet::ParsedDamagePacket;
use crate::entity::job_class::JobTable;
use crate::entity::personal_data::PersonalModel;
use crate::entity::summon_resolver;
use crate::entity::target_info::TargetInfoModel;
use crate::keys;
use crate::sums;
use crate::tallies;
use vstd::prelude::*;

verus! {

/// Whether the event is one of a player and is counted under the id.
pub open spec fn is_counted_under(p: ParsedDamagePacket, id: i32, naming: Naming) -> bool {
    let raw = summon_resolver::resolved(p.actor_id, naming.summons);
    raw > 0 && names::counted_under(raw, naming.canonical, naming.nicknames, naming.summons) == id
}

/// The events that are counted under the id.
pub open spec fn events_of(ps: Seq<ParsedDamagePacket>, id: i32, naming: Naming) -> Seq<
    ParsedDamagePacket,
> {
    ps.filter(|p: ParsedDamagePacket| is_counted_under(p, id, naming))
}

/// The events of players.
pub open spec fn players_events(ps: Seq<ParsedDamagePacket>, naming: Naming) -> Seq<
    ParsedDamagePacket,
> {
    ps.filter(
        |p: ParsedDamagePacket| summon_resolver::resolved(p.actor_id, naming.summons) > 0,
    )
}

/// A tally of a target tells of the events of players: its total is what they did as a whole, and
/// under each id stands what the events that are counted under it did. Who is known by name stays
/// so, and whoever acted is, from then on.
pub proof fn law_a_tally_tells_of_the_events(
    meta: Map<i32, MetaModel>,
    ps: Seq<ParsedDamagePacket>,
    naming: Naming,
    jobs: JobTable,
    id: i32,
)
    ensures
        ({
            let tally = (Tally { total: 0, damage: Map::empty(), meta }).counted_all(
                ps,
                naming,
                jobs,
            );
            let mine = events_of(ps, id, naming);
            &&& sums::same_count32(
                tally.total as int,
                tallies::damage_sum(players_events(ps, naming)),
            )
            &&& tally.damage.contains_key(id) <==> mine.len() > 0
            &&& tally.damage.contains_key(id) ==> sums::same_count32(
                tally.damage[id] as int,
                tallies::damage_sum(mine),
            )
            &&& tally.meta.contains_key(id) <==> meta.contains_key(id) || mine.len() > 0
            &&& meta.contains_key(id) ==> tally.meta[id].nickname == meta[id].nickname
            &&& !meta.contains_key(id) && mine.len() > 0 ==> tally.meta[id].nickname
                == names::nickname_for(id, naming.nicknames, naming.summons)
        }),
{
    lemma_tally(meta, ps, naming, jobs, id);
}

proof fn lemma_tally(
    meta: Map<i32, MetaModel>,
    ps: Seq<ParsedDamagePacket>,
    naming: Naming,
    jobs: JobTable,
    id: i32,
)
    ensures
        ({
            let tally = (Tally { total: 0, damage: Map::empty(), meta }).counted_all(
                ps,
                naming,
                jobs,
            );
            let mine = events_of(ps, id, naming);
            &&& sums::same_count32(
                tally.total as int,
                tallies::damage_sum(players_events(ps, naming)),
            )
            &&& tally.damage.contains_key(id) <==> mine.len() > 0
            &&& tally.damage.contains_key(id) ==> sums::same_count32(
                tally.damage[id] as int,
                tallies::damage_sum(mine),
            )
            &&& tally.meta.contains_key(id) <==> meta.contains_key(id) || mine.len() > 0
            &&& meta.contains_key(id) ==> tally.meta[id].nickname == meta[id].nickname
            &&& !meta.contains_key(id) && mine.len() > 0 ==> tally.meta[id].nickname
                == names::nickname_for(id, naming.nicknames, naming.summons)
        }),
    decreases ps.len(),
{
    reveal(Seq::filter);
    if ps.len() > 0 {
        let front = ps.drop_last();
        let p = ps.last();
        lemma_tally(meta, front, naming, jobs, id);
        assert(ps =~= front.push(p));
        tallies::lemma_filter_push(
            front,
            p,
            |q: ParsedDamagePacket| is_counted_under(q, id, naming),
        );
        tallies::lemma_filter_push(
            front,
            p,
            |q: ParsedDamagePacket| summon_resolver::resolved(q.actor_id, naming.summons) > 0,
        );
        let mine = events_of(front, id, naming);
        if summon_resolver::resolved(p.actor_id, naming.summons) > 0 {
            tallies::lemma_sum_push(
                players_events(front, naming),
                p,
                |q: ParsedDamagePacket| q.total_damage as int,
            );
        }
        if is_counted_under(p, id, naming) {
            tallies::lemma_sum_push(mine, p, |q: ParsedDamagePacket| q.total_damage as int);
            if mine.len() == 0 {
                assert(mine =~= Seq::empty());
            }
        }
    }
}

/// Whether the event is the first whose skill has a class with a name.
pub open spec fn shows_class_first(ps: Seq<ParsedDamagePacket>, k: int, jobs: JobTable) -> bool {
    &&& 0 <= k < ps.len()
    &&& jobs.job_name_of(ps[k].skill_code).len() > 0
    &&& forall|j: int| 0 <= j < k ==> jobs.job_name_of((#[trigger] ps[j]).skill_code).len() == 0
}

/// Whether no event's skill has a class with a name.
pub open spec fn shows_no_class(ps: Seq<ParsedDamagePacket>, jobs: JobTable) -> bool {
    forall|j: int| 0 <= j < ps.len() ==> jobs.job_name_of((#[trigger] ps[j]).skill_code).len() == 0
}

proof fn lemma_tally_class(
    meta: Map<i32, MetaModel>,
    ps: Seq<ParsedDamagePacket>,
    naming: Naming,
    jobs: JobTable,
    id: i32,
)
    ensures
        ({
            let tally = (Tally { total: 0, damage: Map::empty(), meta }).counted_all(
                ps,
                naming,
                jobs,
            );
            let mine = events_of(ps, id, naming);
            let is_known = meta.contains_key(id) && meta[id].job.len() > 0;
            &&& is_known ==> tally.meta[id].job == meta[id].job
            &&& !is_known && shows_no_class(mine, jobs) && tally.meta.contains_key(id)
                ==> tally.meta[id].job.len() == 0
            &&& forall|k: int| #[trigger]
                shows_class_first(mine, k, jobs) && !is_known ==> tally.meta[id].job
                    == jobs.job_name_of(mine[k].skill_code)
        }),
    decreases ps.len(),
{
    reveal(Seq::filter);
    if ps.len() > 0 {
        let front = ps.drop_last();
        let p = ps.last();
        lemma_tally_class(meta, front, naming, jobs, id);
        lemma_tally(meta, front, naming, jobs, id);
        assert(ps =~= front.push(p));
        tallies::lemma_filter_push(
            front,
            p,
            |q: ParsedDamagePacket| is_counted_under(q, id, naming),
        );
        let before = events_of(front, id, naming);
        let mine = events_of(ps, id, naming);
        if is_counted_under(p, id, naming) {
            let n = before.len() as int;
            assert(mine[n] == p);
            assert forall|j: int| 0 <= j < n implies #[trigger] mine[j] == before[j] by {}
            if shows_no_class(mine, jobs) {
                assert forall|j: int| 0 <= j < n implies jobs.job_name_of(
                    (#[trigger] before[j]).skill_code,
                ).len() == 0 by {
                    assert(mine[j] == before[j]);
                }
                assert(jobs.job_name_of(mine[n].skill_code).len() == 0);
            }
            assert forall|k: int| #[trigger] shows_class_first(mine, k, jobs) implies if k < n {
                shows_class_first(before, k, jobs)
            } else {
                shows_no_class(before, jobs)
            } by {
                assert forall|j: int| 0 <= j < k && j < n implies jobs.job_name_of(
                    (#[trigger] before[j]).skill_code,
                ).len() == 0 by {
                    assert(mine[j] == before[j]);
                }
                if k < n {
                    assert(mine[k] == before[k]);
                }
            }
        }
    }
}

/// The class that the list has for a player stays once it is known. Until then, it is that of the
/// first of its events whose skill has a class with a name; none where there is no such event.
pub proof fn law_a_listed_class_is_the_first_shown(
    meta: Map<i32, MetaModel>,
    ps: Seq<ParsedDamagePacket>,
    storage: StorageModel,
    jobs: JobTable,
    id: i32,
    k: int,
)
    requires
        details_laws::all_are_named(ps, storage),
        overview::target_tally(meta, ps, storage, jobs).meta.contains_key(id),
    ensures
        ({
            let known = overview::target_tally(meta, ps, storage, jobs).meta[id];
            let mine = events_of(ps, id, target_details::naming_in(ps, storage));
            let is_known = meta.contains_key(id) && meta[id].job.len() > 0;
            &&& is_known ==> known.job == meta[id].job
            &&& !is_known && shows_class_first(mine, k, jobs) ==> known.job == jobs.job_name_of(
                mine[k].skill_code,
            )
            &&& !is_known && shows_no_class(mine, jobs) ==> known.job.len() == 0
        }),
{
    lemma_settled(meta, ps, storage, jobs);
    lemma_tally_class(meta, ps, target_details::naming_in(ps, storage), jobs, id);
}

proof fn lemma_settled(
    meta: Map<i32, MetaModel>,
    ps: Seq<ParsedDamagePacket>,
    storage: StorageModel,
    jobs: JobTable,
)
    requires
        details_laws::all_are_named(ps, storage),
    ensures
        overview::target_tally(meta, ps, storage, jobs) == (Tally {
            total: 0,
            damage: Map::empty(),
            meta,
        }).counted_all(ps, target_details::naming_in(ps, storage), jobs),
{
    let naming = target_details::naming_in(ps, storage);
    let tally = (Tally { total: 0, damage: Map::empty(), meta }).counted_all(ps, naming, jobs);
    let damage = names::damage_by_player(ps, storage.summons);
    details_laws::lemma_whoever_did_damage_is_named(ps, storage);
    details_laws::lemma_tally_adds_up(meta, ps, naming, jobs);
    assert forall|u: i32| #[trigger] tally.damage.contains_key(
        u,
    ) implies storage.nicknames.contains_key(u) by {
        lemma_tally(meta, ps, naming, jobs, u);
        let mine = events_of(ps, u, naming);
        tallies::lemma_filter_holds(ps, |q: ParsedDamagePacket| is_counted_under(q, u, naming));
        assert(mine.contains(mine[0]));
        let i = ps.index_of(mine[0]);
        let raw = summon_resolver::resolved(ps[i].actor_id, storage.summons);
        meter_laws::lemma_did_damage(ps, i, storage.summons);
        names::law_canonical_ids_stand_for_themselves(
            ps,
            storage.nicknames,
            storage.summons,
            raw,
        );
        assert(damage.contains_key(u));
    }
    let cs = tally.classes();
    assert(cs.dom() =~= tally.damage.dom());
    let ids = keys::ascending(cs.dom());
    keys::lemma_ascending_exists(cs.dom());
    assert forall|i: int| 0 <= i < ids.len() implies storage.nicknames.contains_key(
        #[trigger] ids[i],
    ) by {
        assert(ids.to_set().contains(ids[i]));
        assert(tally.damage.contains_key(ids[i]));
    }
    reading_laws::lemma_no_orphans(ids, cs, storage.nicknames, storage.summons);
    assert(tally.strangers(storage.nicknames) =~= Set::empty());
    let after = tally.without(Set::empty());
    assert(after.damage =~= tally.damage);
    assert(after.meta =~= tally.meta);
}

/// Where every player that acted has a nickname, what a target took is told for each player by the
/// events that are counted under it, and by nothing else.
pub proof fn law_each_players_damage_is_that_of_its_events(
    meta: Map<i32, MetaModel>,
    ps: Seq<ParsedDamagePacket>,
    storage: StorageModel,
    jobs: JobTable,
    id: i32,
)
    requires
        details_laws::all_are_named(ps, storage),
    ensures
        ({
            let tally = overview::target_tally(meta, ps, storage, jobs);
            let naming = target_details::naming_in(ps, storage);
            let mine = events_of(ps, id, naming);
            &&& tally.damage.contains_key(id) <==> mine.len() > 0
            &&& tally.damage.contains_key(id) ==> sums::same_count32(
                tally.damage[id] as int,
                tallies::damage_sum(mine),
            )
            &&& tally.meta.contains_key(id) <==> meta.contains_key(id) || mine.len() > 0
        }),
{
    lemma_settled(meta, ps, storage, jobs);
    lemma_tally(meta, ps, target_details::naming_in(ps, storage), jobs, id);
}

proof fn lemma_overview_targets(
    ids: Seq<i32>,
    packets: Map<i32, Seq<ParsedDamagePacket>>,
    infos: Map<i32, TargetInfoModel>,
    storage: StorageModel,
    game: GameData,
    i: int,
) -> (meta: Map<i32, MetaModel>)
    requires
        0 <= i < ids.len(),
    ensures
        overview::overview_of(ids, packets, infos, storage, game).targets.len() == ids.len(),
        overview::overview_of(ids, packets, infos, storage, game).targets[i]
            == overview::target_summary(
            ids[i],
            overview::target_tally(meta, packets[ids[i]], storage, game.jobs),
            infos,
            storage,
            game,
        ),
    decreases ids.len(),
{
    let front = ids.drop_last();
    let before = overview::overview_of(front, packets, infos, storage, game);
    lemma_overview_length(front, packets, infos, storage, game);
    if i == ids.len() - 1 {
        before.meta
    } else {
        assert(front[i] == ids[i]);
        lemma_overview_targets(front, packets, infos, storage, game, i)
    }
}

proof fn lemma_overview_length(
    ids: Seq<i32>,
    packets: Map<i32, Seq<ParsedDamagePacket>>,
    infos: Map<i32, TargetInfoModel>,
    storage: StorageModel,
    game: GameData,
)
    ensures
        overview::overview_of(ids, packets, infos, storage, game).targets.len() == ids.len(),
    decreases ids.len(),
{
    if ids.len() > 0 {
        lemma_overview_length(ids.drop_last(), packets, infos, storage, game);
    }
}

/// A target in the list goes by the name that the game has for its kind; it has lasted, and was last
/// hit, as its account says; its damage is what the events of players did to it as a whole; and
/// where every player that acted has a nickname, the damage of each is that of the events that are
/// counted under it.
pub proof fn law_a_listed_target_tells_of_its_fight(
    current_target: i32,
    packets: Map<i32, Seq<ParsedDamagePacket>>,
    infos: Map<i32, TargetInfoModel>,
    storage: StorageModel,
    game: GameData,
    i: int,
    id: i32,
)
    requires
        packets.dom().finite(),
        0 <= i < overview::context_of(
            current_target,
            packets,
            infos,
            storage,
            game,
        ).targets.len(),
    ensures
        ({
            let listed = overview::context_of(
                current_target,
                packets,
                infos,
                storage,
                game,
            ).targets[i];
            let t = listed.target_id;
            let naming = target_details::naming_in(packets[t], storage);
            let mine = events_of(packets[t], id, naming);
            &&& packets.contains_key(t)
            &&& listed.target_name == if storage.mobs.contains_key(t)
                && game.npcs.names@.contains_key(storage.mobs[t]) {
                game.npcs.names@[storage.mobs[t]]@
            } else {
                Seq::empty()
            }
            &&& infos.contains_key(t) ==> listed.last_damage_time == infos[t].last_damage_time
                && sums::same_count(
                listed.battle_time as int,
                infos[t].last_damage_time - infos[t].target_damage_started,
            )
            &&& !infos.contains_key(t) ==> listed.last_damage_time == 0 && listed.battle_time == 0
            &&& sums::same_count32(
                listed.total_damage as int,
                tallies::damage_sum(players_events(packets[t], naming)),
            )
            &&& details_laws::all_are_named(packets[t], storage) ==> {
                &&& listed.actor_damage.contains_key(id) <==> mine.len() > 0
                &&& mine.len() > 0 ==> sums::same_count32(
                    listed.actor_damage[id] as int,
                    tallies::damage_sum(mine),
                )
            }
        }),
{
    let ids = keys::ascending(packets.dom());
    keys::lemma_ascending_exists(packets.dom());
    lemma_overview_length(ids, packets, infos, storage, game);
    let meta = lemma_overview_targets(ids, packets, infos, storage, game, i);
    let t = ids[i];
    assert(ids.to_set().contains(t));
    let ps = packets[t];
    let naming = target_details::naming_in(ps, storage);
    lemma_tally(meta, ps, naming, game.jobs, id);
    let counted = (Tally { total: 0, damage: Map::empty(), meta }).counted_all(
        ps,
        naming,
        game.jobs,
    );
    details_laws::lemma_tally_adds_up(meta, ps, naming, game.jobs);
    details_laws::lemma_adoption_keeps_total(
        counted,
        meter::orphan_links(
            keys::ascending(counted.classes().dom()),
            counted.classes(),
            storage.nicknames,
            storage.summons,
        ),
    );
    if details_laws::all_are_named(ps, storage) {
        law_each_players_damage_is_that_of_its_events(meta, ps, storage, game.jobs, id);
    }
    if infos.contains_key(t) {
        sums::lemma_wrapping(infos[t].last_damage_time, infos[t].target_damage_started);
    }
}

/// The players of a tally, as rows.
pub open spec fn rows_of(tally: Tally) -> Map<i32, PersonalModel> {
    Map::new(
        |u: i32| tally.damage.contains_key(u) && tally.meta.contains_key(u),
        |u: i32|
            PersonalModel {
                nickname: tally.meta[u].nickname,
                job: tally.meta[u].job,
                amount: tally.damage[u] as i64,
                hits: Seq::empty(),
            },
    )
}

proof fn lemma_tally_adopted(tally: Tally, links: Seq<OrphanLink>, id: i32)
    requires
        name_laws::are_sound(links, rows_of(tally)),
    ensures
        ({
            let after = tally.adopted(links);
            let rows = rows_of(tally);
            &&& after.damage.contains_key(id) <==> tally.damage.contains_key(id)
                && !name_laws::is_linked(links, id)
            &&& after.damage.contains_key(id) ==> sums::same_count32(
                after.damage[id] as int,
                tally.damage[id] + name_laws::adopted_amount(links, rows, id),
            )
            &&& after.meta.contains_key(id) <==> tally.meta.contains_key(id)
                && !name_laws::is_linked(links, id)
            &&& after.meta.contains_key(id) ==> after.meta[id] == tally.meta[id]
        }),
    decreases links.len(),
{
    let rows = rows_of(tally);
    if links.len() > 0 {
        let front = links.drop_last();
        let n = links.len() - 1;
        let link = links.last();
        assert(links[n] == link);
        assert forall|i: int| 0 <= i < front.len() implies #[trigger] front[i] == links[i] by {}
        assert(name_laws::are_sound(front, rows)) by {
            assert forall|i: int, j: int| 0 <= i < j < front.len() implies (
            #[trigger] front[i]).orphan != (#[trigger] front[j]).orphan by {
                assert(links[i].orphan != links[j].orphan);
            }
            assert forall|i: int, j: int|
                0 <= i < front.len() && 0 <= j < front.len() implies (#[trigger] front[i]).orphan
                != (#[trigger] front[j]).owner by {
                assert(links[i].orphan != links[j].owner);
            }
            assert forall|i: int| 0 <= i < front.len() implies rows.contains_key(
                (#[trigger] front[i]).orphan,
            ) && rows.contains_key(front[i].owner) by {
                assert(rows.contains_key(links[i].orphan));
            }
        }
        lemma_tally_adopted(tally, front, id);
        lemma_tally_adopted(tally, front, link.orphan);
        lemma_tally_adopted(tally, front, link.owner);
        assert(!name_laws::is_linked(front, link.orphan)) by {
            if name_laws::is_linked(front, link.orphan) {
                let i = choose|i: int|
                    0 <= i < front.len() && (#[trigger] front[i]).orphan == link.orphan;
                assert(links[i].orphan != links[n].orphan);
            }
        }
        assert(!name_laws::is_linked(front, link.owner)) by {
            if name_laws::is_linked(front, link.owner) {
                let i = choose|i: int|
                    0 <= i < front.len() && (#[trigger] front[i]).orphan == link.owner;
                assert(links[i].orphan != links[n].owner);
            }
        }
        assert forall|i: int| 0 <= i < front.len() implies (#[trigger] front[i]).owner
            != link.orphan by {
            assert(links[n].orphan != links[i].owner);
        }
        name_laws::lemma_adopts_nothing(front, rows, link.orphan);
        assert(links[n].orphan != links[n].owner);
        assert(rows.contains_key(links[n].orphan) && rows.contains_key(links[n].owner));
        assert(name_laws::is_linked(links, id) <==> name_laws::is_linked(front, id) || id
            == link.orphan) by {
            if name_laws::is_linked(links, id) && id != link.orphan {
                let i = choose|i: int| 0 <= i < links.len() && (#[trigger] links[i]).orphan == id;
                assert(front[i].orphan == id);
            }
            if name_laws::is_linked(front, id) {
                let i = choose|i: int| 0 <= i < front.len() && (#[trigger] front[i]).orphan == id;
                assert(links[i].orphan == id);
            }
        }
    }
}

/// Whether the id is a summon that is counted for the only player that it can belong to.
pub open spec fn is_taken_in(
    id: i32,
    tally: Tally,
    nicknames: Map<i32, Seq<char>>,
    summons: Map<i32, i32>,
) -> bool {
    name_laws::is_orphan(id, rows_of(tally), nicknames, summons) && exists|o: i32| #[trigger]
        name_laws::is_only_choice(o, id, rows_of(tally), nicknames)
}

/// Of those who hit a target, just those stay in the list that are not counted for another player
/// and have a class or a nickname; what else was known of players stays. What is listed for one
/// that has no nickname is what it did; for one with a nickname, what its summons did is added,
/// here that of the one summon that is counted for it.
pub proof fn law_who_stays_in_the_list(
    tally: Tally,
    nicknames: Map<i32, Seq<char>>,
    summons: Map<i32, i32>,
    id: i32,
    orphan: i32,
)
    requires
        tally.damage.dom().finite(),
        tally.damage.dom().subset_of(tally.meta.dom()),
    ensures
        ({
            let after = tally.settled(nicknames, summons);
            let rows = rows_of(tally);
            let stays = !is_taken_in(id, tally, nicknames, summons) && (tally.meta[id].job.len() > 0
                || nicknames.contains_key(id));
            &&& after.total == tally.total
            &&& tally.damage.contains_key(id) ==> {
                &&& after.damage.contains_key(id) <==> stays
                &&& after.meta.contains_key(id) <==> stays
            }
            &&& !tally.damage.contains_key(id) ==> !after.damage.contains_key(id)
                && after.meta.contains_key(id) == tally.meta.contains_key(id)
            &&& after.meta.contains_key(id) ==> after.meta[id] == tally.meta[id]
            &&& after.damage.contains_key(id) && !nicknames.contains_key(id) ==> after.damage[id]
                == tally.damage[id]
            &&& name_laws::is_orphan(orphan, rows, nicknames, summons) && name_laws::is_only_choice(
                id,
                orphan,
                rows,
                nicknames,
            ) && (forall|o: i32| #[trigger]
                name_laws::is_orphan(o, rows, nicknames, summons) && rows[o].job == rows[orphan].job
                    ==> o == orphan) ==> sums::same_count32(
                after.damage[id] as int,
                tally.damage[id] + tally.damage[orphan],
            )
        }),
{
    let rows = rows_of(tally);
    let cs = tally.classes();
    assert(cs =~= meter::player_classes(rows));
    assert(cs.dom() =~= tally.damage.dom());
    let ids = keys::ascending(cs.dom());
    keys::lemma_ascending_exists(cs.dom());
    assert forall|k: int| 0 <= k < ids.len() implies rows.contains_key(#[trigger] ids[k]) by {
        assert(ids.to_set().contains(ids[k]));
    }
    assert(ids.no_duplicates());
    name_laws::lemma_links(ids, rows, nicknames, summons);
    let links = meter::orphan_links(ids, cs, nicknames, summons);
    assert(name_laws::are_sound(links, rows));
    lemma_tally_adopted(tally, links, id);
    details_laws::lemma_adoption_keeps_total(tally, links);
    let merged = tally.adopted(links);
    assert(name_laws::is_linked(links, id) <==> is_taken_in(id, tally, nicknames, summons)) by {
        if name_laws::is_linked(links, id) {
            let i = choose|i: int| 0 <= i < links.len() && (#[trigger] links[i]).orphan == id;
            assert(name_laws::is_only_choice(links[i].owner, id, rows, nicknames));
        }
        if is_taken_in(id, tally, nicknames, summons) {
            let o = choose|o: i32| #[trigger] name_laws::is_only_choice(o, id, rows, nicknames);
            assert(ids.to_set().contains(id));
            let k = ids.index_of(id);
            assert(ids[k] == id);
            assert(name_laws::has_link(links, ids[k], o));
        }
    }
    if !nicknames.contains_key(id) {
        assert forall|i: int| 0 <= i < links.len() implies (#[trigger] links[i]).owner != id by {
            assert(name_laws::is_only_choice(links[i].owner, links[i].orphan, rows, nicknames));
        }
        name_laws::lemma_adopts_nothing(links, rows, id);
    }
    if name_laws::is_orphan(orphan, rows, nicknames, summons) && name_laws::is_only_choice(
        id,
        orphan,
        rows,
        nicknames,
    ) && (forall|o: i32| #[trigger]
        name_laws::is_orphan(o, rows, nicknames, summons) && rows[o].job == rows[orphan].job ==> o
            == orphan) {
        assert(ids.to_set().contains(orphan));
        let k = ids.index_of(orphan);
        assert(ids[k] == orphan);
        assert(name_laws::has_link(links, ids[k], id));
        let i = choose|i: int|
            0 <= i < links.len() && (#[trigger] links[i]).orphan == orphan && links[i].owner == id;
        assert forall|j: int| 0 <= j < links.len() && (#[trigger] links[j]).owner == id implies j
            == i by {
            assert(name_laws::is_orphan(links[j].orphan, rows, nicknames, summons));
            assert(name_laws::is_only_choice(id, links[j].orphan, rows, nicknames));
            assert(links[j].orphan == orphan);
        }
        name_laws::lemma_adopts_once(links, rows, id, i);
        assert(!name_laws::is_linked(links, id)) by {
            if name_laws::is_linked(links, id) {
                let j = choose|j: int| 0 <= j < links.len() && (#[trigger] links[j]).orphan == id;
                assert(links[j].orphan != links[i].owner);
            }
        }
    }
}

/// Whether the event is one of the player whose skill gives its class away.
pub open spec fn is_telling(
    p: ParsedDamagePacket,
    id: i32,
    summons: Map<i32, i32>,
    jobs: JobTable,
) -> bool {
    summon_resolver::resolved(p.actor_id, summons) == id && jobs.job_of(p.skill_code) is Some
}

/// Whether the event is the first such.
pub open spec fn is_first_telling(
    ps: Seq<ParsedDamagePacket>,
    k: int,
    id: i32,
    summons: Map<i32, i32>,
    jobs: JobTable,
) -> bool {
    &&& 0 <= k < ps.len()
    &&& is_telling(ps[k], id, summons, jobs)
    &&& forall|j: int| 0 <= j < k ==> !is_telling(#[trigger] ps[j], id, summons, jobs)
}

/// Whether there is none.
pub open spec fn nothing_tells(
    ps: Seq<ParsedDamagePacket>,
    id: i32,
    summons: Map<i32, i32>,
    jobs: JobTable,
) -> bool {
    forall|j: int| 0 <= j < ps.len() ==> !is_telling(#[trigger] ps[j], id, summons, jobs)
}

proof fn lemma_telling(
    ps: Seq<ParsedDamagePacket>,
    id: i32,
    summons: Map<i32, i32>,
    jobs: JobTable,
)
    ensures
        nothing_tells(ps, id, summons, jobs) <==> overview::telling_skill(
            ps,
            id,
            summons,
            jobs,
        ) is None,
        forall|k: int| #[trigger]
            is_first_telling(ps, k, id, summons, jobs) ==> overview::telling_skill(
                ps,
                id,
                summons,
                jobs,
            ) == Some(ps[k].skill_code),
    decreases ps.len(),
{
    if ps.len() > 0 {
        let front = ps.drop_last();
        let n = ps.len() - 1;
        lemma_telling(front, id, summons, jobs);
        assert(ps[n] == ps.last());
        assert forall|j: int| 0 <= j < front.len() implies #[trigger] front[j] == ps[j] by {}
        if nothing_tells(ps, id, summons, jobs) {
            assert forall|j: int| 0 <= j < front.len() implies !is_telling(
                #[trigger] front[j],
                id,
                summons,
                jobs,
            ) by {
                assert(ps[j] == front[j]);
            }
        }
        if nothing_tells(front, id, summons, jobs) {
            assert forall|j: int| 0 <= j < n implies !is_telling(
                #[trigger] ps[j],
                id,
                summons,
                jobs,
            ) by {
                assert(ps[j] == front[j]);
            }
        } else {
            let j = choose|j: int|
                0 <= j < front.len() && is_telling(#[trigger] front[j], id, summons, jobs);
            assert(is_telling(ps[j], id, summons, jobs));
        }
        assert forall|k: int| #[trigger]
            is_first_telling(ps, k, id, summons, jobs) implies overview::telling_skill(
            ps,
            id,
            summons,
            jobs,
        ) == Some(ps[k].skill_code) by {
            assert forall|j: int| 0 <= j < k && j < front.len() implies !is_telling(
                #[trigger] front[j],
                id,
                summons,
                jobs,
            ) by {
                assert(ps[j] == front[j]);
            }
            if k < n {
                assert(front[k] == ps[k]);
                assert(is_first_telling(front, k, id, summons, jobs));
            } else {
                assert(nothing_tells(front, id, summons, jobs));
            }
        }
    }
}

proof fn lemma_telling_in(
    ids: Seq<i32>,
    packets: Map<i32, Seq<ParsedDamagePacket>>,
    id: i32,
    summons: Map<i32, i32>,
    jobs: JobTable,
)
    ensures
        (forall|i: int|
            0 <= i < ids.len() ==> nothing_tells(packets[#[trigger] ids[i]], id, summons, jobs))
            ==> overview::telling_skill_in(ids, packets, id, summons, jobs) is None,
        forall|i: int, k: int|
            0 <= i < ids.len() && (forall|j: int|
                0 <= j < i ==> nothing_tells(packets[#[trigger] ids[j]], id, summons, jobs))
                && #[trigger] is_first_telling(packets[#[trigger] ids[i]], k, id, summons, jobs)
                ==> overview::telling_skill_in(ids, packets, id, summons, jobs) == Some(
                packets[ids[i]][k].skill_code,
            ),
    decreases ids.len(),
{
    if ids.len() > 0 {
        let front = ids.drop_last();
        let n = ids.len() - 1;
        assert(ids[n] == ids.last());
        lemma_telling_in(front, packets, id, summons, jobs);
        lemma_telling(packets[ids.last()], id, summons, jobs);
        if forall|i: int|
            0 <= i < ids.len() ==> nothing_tells(packets[#[trigger] ids[i]], id, summons, jobs) {
            assert forall|i: int| 0 <= i < front.len() implies nothing_tells(
                packets[#[trigger] front[i]],
                id,
                summons,
                jobs,
            ) by {
                assert(front[i] == ids[i]);
            }
        }
        assert forall|i: int, k: int|
            0 <= i < ids.len() && (forall|j: int|
                0 <= j < i ==> nothing_tells(packets[#[trigger] ids[j]], id, summons, jobs))
                && #[trigger] is_first_telling(
                packets[#[trigger] ids[i]],
                k,
                id,
                summons,
                jobs,
            ) implies overview::telling_skill_in(ids, packets, id, summons, jobs) == Some(
            packets[ids[i]][k].skill_code,
        ) by {
            assert forall|j: int| 0 <= j < i && j < front.len() implies nothing_tells(
                packets[#[trigger] front[j]],
                id,
                summons,
                jobs,
            ) by {
                assert(front[j] == ids[j]);
            }
            if i < n {
                assert(front[i] == ids[i]);
                assert(is_first_telling(packets[front[i]], k, id, summons, jobs));
            }
        }
    }
}

/// The players in the list stand by id, smallest first. The class prefix of a player is that of the
/// first of its skills that gives its class away, in the first of the targets where one does.
pub proof fn law_a_listed_player_is_of_the_class_it_shows(
    current_target: i32,
    packets: Map<i32, Seq<ParsedDamagePacket>>,
    infos: Map<i32, TargetInfoModel>,
    storage: StorageModel,
    game: GameData,
    a: int,
    i: int,
    k: int,
)
    requires
        packets.dom().finite(),
        overview::overview_of(
            keys::ascending(packets.dom()),
            packets,
            infos,
            storage,
            game,
        ).meta.dom().finite(),
        0 <= a < overview::context_of(current_target, packets, infos, storage, game).actors.len(),
    ensures
        ({
            let context = overview::context_of(current_target, packets, infos, storage, game);
            let listed = context.actors[a];
            let ids = keys::ascending(packets.dom());
            &&& forall|b: int|
                a < b < context.actors.len() ==> listed.actor_id < (
                #[trigger] context.actors[b]).actor_id
            &&& 0 <= i < ids.len() && (forall|j: int|
                0 <= j < i ==> nothing_tells(
                    packets[#[trigger] ids[j]],
                    listed.actor_id,
                    storage.summons,
                    game.jobs,
                )) && is_first_telling(
                packets[ids[i]],
                k,
                listed.actor_id,
                storage.summons,
                game.jobs,
            ) ==> listed.job_id == game.jobs.job_prefix_of(packets[ids[i]][k].skill_code)
            &&& (forall|j: int|
                0 <= j < ids.len() ==> nothing_tells(
                    packets[#[trigger] ids[j]],
                    listed.actor_id,
                    storage.summons,
                    game.jobs,
                )) ==> listed.job_id == game.jobs.job_prefix_of(0)
        }),
{
    let context = overview::context_of(current_target, packets, infos, storage, game);
    let ids = keys::ascending(packets.dom());
    let meta = overview::overview_of(ids, packets, infos, storage, game).meta;
    keys::lemma_ascending_exists(meta.dom());
    let players = keys::ascending(meta.dom());
    assert(context.actors[a].actor_id == players[a]);
    lemma_telling_in(ids, packets, players[a], storage.summons, game.jobs);
}

/// Whether every player that acted against any of the targets has a nickname.
pub open spec fn all_are_named_in(
    ids: Seq<i32>,
    packets: Map<i32, Seq<ParsedDamagePacket>>,
    storage: StorageModel,
) -> bool {
    forall|i: int|
        0 <= i < ids.len() ==> details_laws::all_are_named(packets[#[trigger] ids[i]], storage)
}

/// Whether an event against the target is counted under the id.
pub open spec fn acted_against(
    t: i32,
    packets: Map<i32, Seq<ParsedDamagePacket>>,
    storage: StorageModel,
    id: i32,
) -> bool {
    events_of(packets[t], id, target_details::naming_in(packets[t], storage)).len() > 0
}

proof fn lemma_overview_players(
    ids: Seq<i32>,
    packets: Map<i32, Seq<ParsedDamagePacket>>,
    infos: Map<i32, TargetInfoModel>,
    storage: StorageModel,
    game: GameData,
    id: i32,
)
    requires
        all_are_named_in(ids, packets, storage),
    ensures
        ({
            let meta = overview::overview_of(ids, packets, infos, storage, game).meta;
            &&& meta.contains_key(id) <==> exists|i: int|
                0 <= i < ids.len() && acted_against(#[trigger] ids[i], packets, storage, id)
            &&& meta.contains_key(id) ==> meta[id].nickname == names::nickname_for(
                id,
                storage.nicknames,
                storage.summons,
            )
        }),
    decreases ids.len(),
{
    if ids.len() > 0 {
        let front = ids.drop_last();
        let n = ids.len() - 1;
        let t = ids.last();
        assert(ids[n] == t);
        assert forall|i: int| 0 <= i < front.len() implies details_laws::all_are_named(
            packets[#[trigger] front[i]],
            storage,
        ) by {
            assert(front[i] == ids[i]);
        }
        lemma_overview_players(front, packets, infos, storage, game, id);
        let before = overview::overview_of(front, packets, infos, storage, game).meta;
        let naming = target_details::naming_in(packets[t], storage);
        assert(details_laws::all_are_named(packets[ids[n]], storage));
        lemma_settled(before, packets[t], storage, game.jobs);
        lemma_tally(before, packets[t], naming, game.jobs, id);
        if before.contains_key(id) {
            let i = choose|i: int|
                0 <= i < front.len() && acted_against(#[trigger] front[i], packets, storage, id);
            assert(ids[i] == front[i]);
        }
        if exists|i: int|
            0 <= i < ids.len() && acted_against(#[trigger] ids[i], packets, storage, id) {
            let i = choose|i: int|
                0 <= i < ids.len() && acted_against(#[trigger] ids[i], packets, storage, id);
            if i < n {
                assert(front[i] == ids[i]);
            }
        }
    }
}

/// Where every player that acted has a nickname, the players in the list are just those under whom
/// an event against a target is counted, and go by their nicknames.
pub proof fn law_the_list_holds_the_players_that_acted(
    packets: Map<i32, Seq<ParsedDamagePacket>>,
    infos: Map<i32, TargetInfoModel>,
    storage: StorageModel,
    game: GameData,
    id: i32,
)
    requires
        packets.dom().finite(),
        forall|t: i32| #[trigger]
            packets.contains_key(t) ==> details_laws::all_are_named(packets[t], storage),
    ensures
        ({
            let ids = keys::ascending(packets.dom());
            let meta = overview::overview_of(ids, packets, infos, storage, game).meta;
            &&& meta.contains_key(id) <==> exists|t: i32| #[trigger]
                packets.contains_key(t) && acted_against(t, packets, storage, id)
            &&& meta.contains_key(id) ==> meta[id].nickname == names::nickname_for(
                id,
                storage.nicknames,
                storage.summons,
            )
        }),
{
    let ids = keys::ascending(packets.dom());
    keys::lemma_ascending_exists(packets.dom());
    assert forall|i: int| 0 <= i < ids.len() implies details_laws::all_are_named(
        packets[#[trigger] ids[i]],
        storage,
    ) by {
        assert(ids.to_set().contains(ids[i]));
        assert(packets.contains_key(ids[i]));
    }
    lemma_overview_players(ids, packets, infos, storage, game, id);
    if exists|t: i32| #[trigger]
        packets.contains_key(t) && acted_against(t, packets, storage, id) {
        let t = choose|t: i32| #[trigger]
            packets.contains_key(t) && acted_against(t, packets, storage, id);
        assert(ids.to_set().contains(t));
        let i = ids.index_of(t);
        assert(acted_against(ids[i], packets, storage, id));
    }
    if exists|i: int| 0 <= i < ids.len() && acted_against(#[trigger] ids[i], packets, storage, id) {
        let i = choose|i: int|
            0 <= i < ids.len() && acted_against(#[trigger] ids[i], packets, storage, id);
        assert(ids.to_set().contains(ids[i]));
        assert(packets.contains_key(ids[i]));
    }
}

} // verus!
