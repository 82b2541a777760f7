//! What holds of what the meter shows.
use crate::combat::dps_calculator;
use crate::combat::dps_calculator::CalcModel;
use crate::combat::game_data::GameData;
use crate::combat::meter;
use crate::combat::meter::{Naming, OrphanLink, Roster};
use crate::combat::names;
use crate::combat::storage_model::StorageModel;
use crate::combat::target_selection;
use crate::combat::target_selection::TargetSelectionMode;
use crate::entity::damage_packet::ParsedDamagePacket;
use crate::entity::dps_data::DpsModel;
use crate::entity::job_class::JobTable;
use crate::entity::personal_data;
use crate::entity::personal_data::{HitModel, PersonalModel};
use crate::entity::summon_resolver;
use crate::entity::target_info;
use crate::entity::target_info::TargetInfoModel;
use crate::i18n::lookup::{NpcLookup, SkillLookup};
use crate::keys;
use crate::sums;
use vstd::prelude::*;

verus! {

/// The damage of each player.
pub open spec fn amounts(players: Map<i32, PersonalModel>) -> Map<i32, i64> {
    players.map_values(|p: PersonalModel| p.amount)
}

/// The damage of all events whose actor is a player, or a summon of one.
pub open spec fn player_damage(ps: Seq<ParsedDamagePacket>, summons: Map<i32, i32>) -> int
    decreases ps.len(),
{
    if ps.len() == 0 {
        0
    } else {
        player_damage(ps.drop_last(), summons) + if summon_resolver::resolved(
            ps.last().actor_id,
            summons,
        ) > 0 {
            ps.last().total_damage as int
        } else {
            0
        }
    }
}

/// The rows are finitely many, and what they amount to is what players did.
pub proof fn lemma_counting_loses_nothing(
    ps: Seq<ParsedDamagePacket>,
    classes: Map<Seq<char>, Seq<char>>,
    naming: Naming,
    jobs: JobTable,
    skills: SkillLookup,
)
    ensures
        ({
            let players = (Roster { players: Map::empty(), classes }).counted_all(
                ps,
                naming,
                jobs,
                skills,
            ).players;
            &&& players.dom().finite()
            &&& sums::same_count(
                sums::total(amounts(players)),
                player_damage(ps, naming.summons),
            )
        }),
    decreases ps.len(),
{
    let start = Roster { players: Map::empty(), classes };
    if ps.len() == 0 {
        assert(amounts(Map::empty()).dom() =~= Set::empty());
    } else {
        lemma_counting_loses_nothing(ps.drop_last(), classes, naming, jobs, skills);
        let before = start.counted_all(ps.drop_last(), naming, jobs, skills);
        let after = start.counted_all(ps, naming, jobs, skills);
        let p = ps.last();
        let raw = summon_resolver::resolved(p.actor_id, naming.summons);
        if raw > 0 {
            let nickname = names::nickname_for(
                raw,
                naming.nicknames,
                naming.summons,
            );
            let uid = names::canonical_or(naming.canonical, nickname, raw);
            let new = after.players[uid];
            assert(amounts(before.players).dom() =~= before.players.dom());
            assert(after.players =~= before.players.insert(uid, new));
            assert(amounts(after.players) =~= amounts(before.players).insert(uid, new.amount));
            sums::lemma_total_insert(amounts(before.players), uid, new.amount);
            sums::lemma_wrapping(
                sums::amount_in(amounts(before.players), uid),
                p.total_damage as i64,
            );
        }
    }
}

/// Unlinked summons have no nickname; the players that they belong to have one.
pub proof fn lemma_orphan_links(
    ids: Seq<i32>,
    classes: Map<i32, Seq<char>>,
    nicknames: Map<i32, Seq<char>>,
    summons: Map<i32, i32>,
)
    ensures
        forall|i: int|
            0 <= i < meter::orphan_links(ids, classes, nicknames, summons).len() ==> {
                let link = #[trigger] meter::orphan_links(ids, classes, nicknames, summons)[i];
                &&& !nicknames.contains_key(link.orphan)
                &&& nicknames.contains_key(link.owner)
                &&& classes.contains_key(link.owner)
            },
    decreases ids.len(),
{
    if ids.len() > 0 {
        lemma_orphan_links(ids.drop_last(), classes, nicknames, summons);
        let before = meter::orphan_links(ids.drop_last(), classes, nicknames, summons);
        let links = meter::orphan_links(ids, classes, nicknames, summons);
        let uid = ids.last();
        match meter::orphan_owner(uid, classes, nicknames, summons) {
            Some(owner) => {
                assert(meter::is_sole_owner(owner, uid, classes[uid], classes, nicknames));
                assert(classes.contains_key(owner));
            },
            None => {},
        }
        assert forall|i: int| 0 <= i < links.len() implies !nicknames.contains_key(
            (#[trigger] links[i]).orphan,
        ) && nicknames.contains_key(links[i].owner) && classes.contains_key(links[i].owner) by {
            if i < before.len() {
                assert(before[i] == links[i]);
            }
        }
    }
}

proof fn lemma_adoption_loses_nothing(
    players: Map<i32, PersonalModel>,
    links: Seq<OrphanLink>,
    nicknames: Map<i32, Seq<char>>,
)
    requires
        players.dom().finite(),
        forall|i: int|
            0 <= i < links.len() ==> !nicknames.contains_key((#[trigger] links[i]).orphan)
                && nicknames.contains_key(links[i].owner) && players.contains_key(links[i].owner),
    ensures
        meter::adopted(players, links).dom().finite(),
        sums::same_count(
            sums::total(amounts(meter::adopted(players, links))),
            sums::total(amounts(players)),
        ),
        forall|u: i32| #[trigger]
            players.contains_key(u) && nicknames.contains_key(u) ==> meter::adopted(
                players,
                links,
            ).contains_key(u),
    decreases links.len(),
{
    if links.len() > 0 {
        let front = links.drop_last();
        assert forall|i: int| 0 <= i < front.len() implies !nicknames.contains_key(
            (#[trigger] front[i]).orphan,
        ) && nicknames.contains_key(front[i].owner) && players.contains_key(front[i].owner) by {
            assert(front[i] == links[i]);
        }
        lemma_adoption_loses_nothing(players, front, nicknames);
        let before = meter::adopted(players, front);
        let link = links.last();
        assert(links[links.len() - 1] == link);
        if before.contains_key(link.orphan) {
            let rest = before.remove(link.orphan);
            assert(before.contains_key(link.owner));
            assert(rest.contains_key(link.owner));
            let merged = rest[link.owner].merged(before[link.orphan]);
            assert(amounts(before).dom() =~= before.dom());
            assert(amounts(rest) =~= amounts(before).remove(link.orphan));
            assert(amounts(rest.insert(link.owner, merged)) =~= amounts(rest).insert(
                link.owner,
                merged.amount,
            ));
            sums::lemma_total_remove(amounts(before), link.orphan);
            assert(amounts(rest).dom() =~= rest.dom());
            sums::lemma_total_insert(amounts(rest), link.owner, merged.amount);
            sums::lemma_wrapping(rest[link.owner].amount, before[link.orphan].amount);
        }
    }
}

/// No damage is lost or counted twice: the damage of the players, unlinked summons counted for
/// the players behind them, is the damage of the events, up to what counters drop when they wrap.
pub proof fn law_no_damage_is_lost(
    ps: Seq<ParsedDamagePacket>,
    classes: Map<Seq<char>, Seq<char>>,
    naming: Naming,
    jobs: JobTable,
    skills: SkillLookup,
)
    ensures
        ({
            let players = (Roster { players: Map::empty(), classes }).counted_all(
                ps,
                naming,
                jobs,
                skills,
            ).players;
            let settled = meter::without_orphans(players, naming.nicknames, naming.summons);
            sums::same_count(sums::total(amounts(settled)), player_damage(ps, naming.summons))
        }),
{
    let players = (Roster { players: Map::empty(), classes }).counted_all(
        ps,
        naming,
        jobs,
        skills,
    ).players;
    lemma_counting_loses_nothing(ps, classes, naming, jobs, skills);
    let cs = meter::player_classes(players);
    let ids = keys::ascending(players.dom());
    lemma_orphan_links(ids, cs, naming.nicknames, naming.summons);
    let links = meter::orphan_links(ids, cs, naming.nicknames, naming.summons);
    assert forall|i: int| 0 <= i < links.len() implies !naming.nicknames.contains_key(
        (#[trigger] links[i]).orphan,
    ) && naming.nicknames.contains_key(links[i].owner) && players.contains_key(links[i].owner) by {
        assert(cs.contains_key(links[i].owner));
    }
    lemma_adoption_loses_nothing(players, links, naming.nicknames);
}

/// Whether each player's nickname is one that the player stands for.
pub open spec fn stand_for_nicknames(
    players: Map<i32, PersonalModel>,
    canonical: Map<Seq<char>, i32>,
) -> bool {
    forall|u: i32| #[trigger]
        players.contains_key(u) ==> canonical.contains_key(players[u].nickname)
            && canonical[players[u].nickname] == u
}

/// Whoever did damage is in the table of damage.
pub proof fn lemma_did_damage(ps: Seq<ParsedDamagePacket>, i: int, summons: Map<i32, i32>)
    requires
        0 <= i < ps.len(),
        summon_resolver::resolved(ps[i].actor_id, summons) > 0,
    ensures
        names::damage_by_player(ps, summons).contains_key(
            summon_resolver::resolved(ps[i].actor_id, summons),
        ),
    decreases ps.len(),
{
    if i < ps.len() - 1 {
        assert(ps.drop_last()[i] == ps[i]);
        lemma_did_damage(ps.drop_last(), i, summons);
    }
}

proof fn lemma_players_stand_for_nicknames(
    ps: Seq<ParsedDamagePacket>,
    k: int,
    classes: Map<Seq<char>, Seq<char>>,
    naming: Naming,
    jobs: JobTable,
    skills: SkillLookup,
)
    requires
        0 <= k <= ps.len(),
        naming.canonical == names::canonical_ids(ps, naming.nicknames, naming.summons),
    ensures
        stand_for_nicknames(
            (Roster { players: Map::empty(), classes }).counted_all(
                ps.take(k),
                naming,
                jobs,
                skills,
            ).players,
            naming.canonical,
        ),
    decreases k,
{
    if k > 0 {
        lemma_players_stand_for_nicknames(ps, k - 1, classes, naming, jobs, skills);
        assert(ps.take(k).drop_last() =~= ps.take(k - 1));
        let p = ps[k - 1];
        assert(ps.take(k).last() == p);
        let raw = summon_resolver::resolved(p.actor_id, naming.summons);
        if raw > 0 {
            let nickname = names::nickname_for(raw, naming.nicknames, naming.summons);
            lemma_did_damage(ps, k - 1, naming.summons);
            assert(names::carries(
                raw,
                nickname,
                names::damage_by_player(ps, naming.summons),
                naming.nicknames,
                naming.summons,
            ));
            assert(naming.canonical.contains_key(nickname));
        }
    }
}

proof fn lemma_adoption_keeps_nicknames(
    players: Map<i32, PersonalModel>,
    links: Seq<OrphanLink>,
    canonical: Map<Seq<char>, i32>,
)
    requires
        stand_for_nicknames(players, canonical),
    ensures
        stand_for_nicknames(meter::adopted(players, links), canonical),
    decreases links.len(),
{
    if links.len() > 0 {
        lemma_adoption_keeps_nicknames(players, links.drop_last(), canonical);
    }
}

/// A nickname is shown in one row: no two players that are shown share one.
pub proof fn law_one_row_per_nickname(
    ps: Seq<ParsedDamagePacket>,
    nicknames: Map<i32, Seq<char>>,
    summons: Map<i32, i32>,
    local: Option<Set<i32>>,
    classes: Map<Seq<char>, Seq<char>>,
    jobs: JobTable,
    skills: SkillLookup,
    a: i32,
    b: i32,
)
    requires
        a != b,
        meter::metered(ps, nicknames, summons, local, classes, jobs, skills).players.contains_key(
            a,
        ),
        meter::metered(ps, nicknames, summons, local, classes, jobs, skills).players.contains_key(
            b,
        ),
    ensures
        ({
            let shown = meter::metered(
                ps,
                nicknames,
                summons,
                local,
                classes,
                jobs,
                skills,
            ).players;
            shown[a].nickname != shown[b].nickname
        }),
{
    let naming = Naming {
        nicknames,
        summons,
        canonical: names::canonical_ids(ps, nicknames, summons),
    };
    assert(ps.take(ps.len() as int) =~= ps);
    lemma_players_stand_for_nicknames(ps, ps.len() as int, classes, naming, jobs, skills);
    let players = (Roster { players: Map::empty(), classes }).counted_all(
        ps,
        naming,
        jobs,
        skills,
    ).players;
    let links = meter::orphan_links(
        keys::ascending(players.dom()),
        meter::player_classes(players),
        nicknames,
        summons,
    );
    lemma_adoption_keeps_nicknames(players, links, naming.canonical);
    let settled = meter::without_orphans(players, nicknames, summons);
    assert(settled.contains_key(a) && settled.contains_key(b));
}

/// The local player is shown in any case, and so is everyone of a known class; no one else is.
pub proof fn law_who_is_shown(players: Map<i32, PersonalModel>, local: Option<Set<i32>>, id: i32)
    ensures
        meter::shown_players(players, local).contains_key(id) <==> players.contains_key(id) && (
        players[id].job.len() > 0 || (local matches Some(ids) && ids.contains(id))),
        meter::shown_players(players, local).contains_key(id) ==> meter::shown_players(
            players,
            local,
        )[id].amount == players[id].amount && meter::shown_players(players, local)[id].hits
            == players[id].hits,
{
}

impl PersonalModel {
    /// Whether the damage of a player is that of its hits.
    pub open spec fn adds_up(self) -> bool {
        self.amount == personal_data::amount_with(0, self.hits)
    }
}

proof fn lemma_amount_of_joined(a: Seq<HitModel>, b: Seq<HitModel>)
    ensures
        personal_data::amount_with(0, a + b) == personal_data::amount_with(0, a).wrapping_add(
            personal_data::amount_with(0, b),
        ),
    decreases b.len(),
{
    if b.len() == 0 {
        assert(a + b =~= a);
    } else {
        lemma_amount_of_joined(a, b.drop_last());
        assert((a + b).drop_last() =~= a + b.drop_last());
    }
}

/// The damage of a player is that of its hits: counting a hit and taking over what another did
/// keep it so.
pub proof fn law_hits_add_up(
    player: PersonalModel,
    other: PersonalModel,
    p: ParsedDamagePacket,
    nickname: Seq<char>,
    job: Seq<char>,
    skill_name: Seq<char>,
)
    requires
        player.adds_up(),
        other.adds_up(),
    ensures
        PersonalModel::idle(nickname, job).adds_up(),
        player.hit(p, skill_name).adds_up(),
        player.merged(other).adds_up(),
{
    assert(player.hit(p, skill_name).hits.drop_last() =~= player.hits);
    lemma_amount_of_joined(player.hits, other.hits);
}

proof fn lemma_top_exists(among: Set<i32>, score: spec_fn(i32) -> i64)
    requires
        among.finite(),
        among != Set::<i32>::empty(),
    ensures
        exists|id: i32| target_selection::is_top(id, among, score),
    decreases among.len(),
{
    let a = among.choose();
    assert(among.contains(a)) by {
        if forall|x: i32| !among.contains(x) {
            assert(among =~= Set::empty());
        }
    }
    let rest = among.remove(a);
    if rest == Set::<i32>::empty() {
        assert forall|x: i32| #[trigger] among.contains(x) && x != a implies false by {
            assert(rest.contains(x));
        }
        assert(target_selection::is_top(a, among, score));
    } else {
        lemma_top_exists(rest, score);
        let b = choose|id: i32| target_selection::is_top(id, rest, score);
        if score(a) > score(b) || (score(a) == score(b) && a > b) {
            assert forall|x: i32| #[trigger] among.contains(x) && x != a implies score(x) < score(
                a,
            ) || (score(x) == score(a) && x < a) by {
                assert(rest.contains(x));
            }
            assert(target_selection::is_top(a, among, score));
        } else {
            assert forall|x: i32| #[trigger] among.contains(x) && x != b implies score(x) < score(
                b,
            ) || (score(x) == score(b) && x < b) by {
                if x != a {
                    assert(rest.contains(x));
                }
            }
            assert(target_selection::is_top(b, among, score));
        }
    }
}

/// Of targets that were hit, one is always chosen, and none has a higher score than it.
pub proof fn law_the_highest_is_chosen(among: Set<i32>, score: spec_fn(i32) -> i64)
    requires
        among.finite(),
    ensures
        target_selection::top(among, score) is Some <==> among != Set::<i32>::empty(),
        match target_selection::top(among, score) {
            Some(id) => target_selection::is_top(id, among, score),
            None => true,
        },
{
    if among != Set::<i32>::empty() {
        lemma_top_exists(among, score);
    }
}

/// With the most damaged target chosen, no target has taken more damage than the one shown; with
/// the most recent one chosen, none was hit later.
pub proof fn law_single_target_choices(
    infos: Map<i32, TargetInfoModel>,
    packets: Map<i32, Seq<ParsedDamagePacket>>,
    summons: Map<i32, i32>,
    mobs: Map<i32, i32>,
    local_player: Option<i64>,
    npcs: NpcLookup,
    other: i32,
)
    requires
        infos.dom().finite(),
        infos.contains_key(other),
    ensures
        ({
            let choice = target_selection::chosen(
                TargetSelectionMode::MostDamage,
                infos,
                packets,
                summons,
                mobs,
                local_player,
                npcs,
            );
            &&& infos.contains_key(choice.tracking)
            &&& infos[other].damaged_amount <= infos[choice.tracking].damaged_amount
        }),
        ({
            let choice = target_selection::chosen(
                TargetSelectionMode::MostRecent,
                infos,
                packets,
                summons,
                mobs,
                local_player,
                npcs,
            );
            &&& infos.contains_key(choice.tracking)
            &&& infos[other].last_damage_time <= infos[choice.tracking].last_damage_time
        }),
{
    assert(infos.dom().contains(other));
    law_the_highest_is_chosen(infos.dom(), |t: i32| infos[t].damaged_amount);
    law_the_highest_is_chosen(infos.dom(), |t: i32| infos[t].last_damage_time);
}

/// With bosses chosen, a boss is shown as soon as one was hit, and no other boss has taken more
/// damage.
pub proof fn law_bosses_come_first(
    infos: Map<i32, TargetInfoModel>,
    packets: Map<i32, Seq<ParsedDamagePacket>>,
    summons: Map<i32, i32>,
    mobs: Map<i32, i32>,
    local_player: Option<i64>,
    npcs: NpcLookup,
    boss: i32,
)
    requires
        infos.dom().finite(),
        target_selection::boss_targets(infos, mobs, npcs).contains(boss),
    ensures
        ({
            let choice = target_selection::chosen(
                TargetSelectionMode::BossTargets,
                infos,
                packets,
                summons,
                mobs,
                local_player,
                npcs,
            );
            &&& target_selection::boss_targets(infos, mobs, npcs).contains(choice.tracking)
            &&& infos[boss].damaged_amount <= infos[choice.tracking].damaged_amount
        }),
{
    let bosses = target_selection::boss_targets(infos, mobs, npcs);
    vstd::set_lib::lemma_set_subset_finite(infos.dom(), bosses);
    law_the_highest_is_chosen(bosses, |t: i32| infos[t].damaged_amount);
}

/// With the local player's last target chosen, the target shown is one that the local player or
/// one of its summons hit, and none was hit later, as soon as there is such a target.
pub proof fn law_last_hit_by_me(
    infos: Map<i32, TargetInfoModel>,
    packets: Map<i32, Seq<ParsedDamagePacket>>,
    summons: Map<i32, i32>,
    mobs: Map<i32, i32>,
    local_player: i64,
    npcs: NpcLookup,
    hit: i32,
)
    requires
        packets.dom().finite(),
        packets.contains_key(hit),
        target_selection::last_act(
            packets[hit],
            target_selection::local_ids(Some(local_player), summons)->0,
            summons,
        ) is Some,
    ensures
        ({
            let ids = target_selection::local_ids(Some(local_player), summons)->0;
            let shown = target_selection::chosen(
                TargetSelectionMode::LastHitByMe,
                infos,
                packets,
                summons,
                mobs,
                Some(local_player),
                npcs,
            ).tracking;
            &&& packets.contains_key(shown)
            &&& target_selection::last_act(packets[shown], ids, summons) is Some
            &&& target_selection::last_act(packets[hit], ids, summons)->0
                <= target_selection::last_act(packets[shown], ids, summons)->0
        }),
{
    let ids = target_selection::local_ids(Some(local_player), summons)->0;
    let acted = packets.dom().filter(
        |t: i32| target_selection::last_act(packets[t], ids, summons) is Some,
    );
    vstd::set_lib::lemma_set_subset_finite(packets.dom(), acted);
    assert(acted.contains(hit));
    law_the_highest_is_chosen(
        acted,
        |t: i32| target_selection::last_act(packets[t], ids, summons)->0,
    );
}

/// Reading the same events again changes nothing in the account of any target.
pub proof fn law_events_are_read_once(
    infos: Map<i32, TargetInfoModel>,
    packets: Map<i32, Seq<ParsedDamagePacket>>,
)
    ensures
        ({
            let once = dps_calculator::infos_after(infos, packets);
            dps_calculator::infos_after(once, packets) == once
        }),
{
    let once = dps_calculator::infos_after(infos, packets);
    let twice = dps_calculator::infos_after(once, packets);
    assert forall|t: i32| once.contains_key(t) implies twice[t] == once[t] by {
        if packets.contains_key(t) {
            let ps = packets[t];
            let first = dps_calculator::info_before(infos, t, ps);
            target_info::lemma_counted_events_change_nothing(first, ps);
        }
    }
    assert(twice =~= once);
}

/// After a restart that drops the damage, nothing is shown until the next event: no players, no
/// target, no damage.
pub proof fn law_restart_shows_nothing(calc: CalcModel, storage: StorageModel, game: GameData)
    ensures
        ({
            let shown = dps_calculator::reading(
                calc.restarted(),
                Map::empty(),
                storage.flushed(),
                game,
            ).shown;
            &&& shown.players == Map::<i32, PersonalModel>::empty()
            &&& shown.target_id == 0
            &&& shown.target_total_damage == 0
            &&& shown.battle_time == 0
        }),
{
    let packets = Map::<i32, Seq<ParsedDamagePacket>>::empty();
    let known = calc.restarted().for_local(storage.local_player_id);
    let infos = dps_calculator::infos_after(known.infos, packets);
    assert(infos =~= Map::empty());
    let flushed = storage.flushed();
    let choice = dps_calculator::choice_of(known, infos, packets, flushed, game);
    assert(infos.dom() =~= Set::empty());
    assert(target_selection::boss_targets(infos, flushed.mobs, game.npcs) =~= Set::empty());
    assert(target_selection::train_targets(infos, flushed.mobs) =~= Set::empty());
    match target_selection::local_ids(flushed.local_player_id, flushed.summons) {
        Some(ids) => {
            assert(packets.dom().filter(
                |t: i32| target_selection::last_act(packets[t], ids, flushed.summons) is Some,
            ) =~= Set::empty());
        },
        None => {},
    }
    assert(choice.ids =~= Set::empty());
    let none = Seq::<i32>::empty();
    assert(none.to_set() =~= Set::empty());
    keys::lemma_is_ascending_of(none);
    assert(dps_calculator::events_against(packets, none) =~= Seq::empty());
}

/// Whatever a calculator does, what it keeps of the last reading was shown for the local player
/// that it knows. So every reading is one for the local player of the storage, under the heading
/// of the target and the choice of targets of that reading, also where what was shown last is
/// shown again.
pub proof fn law_readings_are_for_the_local_player(
    calc: CalcModel,
    packets: Map<i32, Seq<ParsedDamagePacket>>,
    storage: StorageModel,
    game: GameData,
    mode: TargetSelectionMode,
    window_ms: i64,
    now_ms: i64,
    force: bool,
    saved: Set<i32>,
)
    requires
        calc.keeps_its_player(),
    ensures
        CalcModel::fresh().keeps_its_player(),
        calc.restarted().keeps_its_player(),
        (CalcModel { mode, ..calc }).keeps_its_player(),
        (CalcModel { all_targets_window_ms: window_ms, ..calc }).keeps_its_player(),
        (CalcModel { saved, ..calc }).keeps_its_player(),
        calc.after_keeping(now_ms, force, storage.mobs, game).keeps_its_player(),
        ({
            let reading = dps_calculator::reading(calc, packets, storage, game);
            &&& reading.calc.keeps_its_player()
            &&& reading.calc.last_known_local_id == storage.local_player_id
            &&& reading.shown.local_player_id == storage.local_player_id
            &&& reading.shown.target_id == reading.calc.current_target
            &&& reading.shown.target_mode == calc.mode.name()
        }),
{
}

/// What was shown for one local player is never shown for another, nor again for the first once
/// another was there in between: a reading for another player is the same as if nothing had been
/// kept, and what is kept from then on is that player's.
pub proof fn law_another_players_reading_never_returns(
    calc: CalcModel,
    packets: Map<i32, Seq<ParsedDamagePacket>>,
    storage: StorageModel,
    game: GameData,
    kept: Option<DpsModel>,
)
    requires
        calc.last_known_local_id != storage.local_player_id,
    ensures
        ({
            let reading = dps_calculator::reading(calc, packets, storage, game);
            &&& dps_calculator::reading(
                CalcModel { last_snapshot: kept, ..calc },
                packets,
                storage,
                game,
            ) == reading
            &&& reading.calc.last_known_local_id == storage.local_player_id
            &&& reading.calc.keeps_its_player()
        }),
{
    let forgotten = CalcModel { last_snapshot: kept, ..calc };
    assert(forgotten.for_local(storage.local_player_id) =~= calc.for_local(
        storage.local_player_id,
    ));
}

/// Events that are dropped because a pause ended their fight are those of the fight that ended:
/// what is not older than the pause's end stays, in its order.
pub proof fn law_a_pause_drops_only_older_events(
    infos: Map<i32, TargetInfoModel>,
    packets: Map<i32, Seq<ParsedDamagePacket>>,
    target: i32,
    p: ParsedDamagePacket,
)
    requires
        packets.contains_key(target),
        packets[target].contains(p),
    ensures
        ({
            let after = dps_calculator::packets_after(infos, packets);
            &&& after.contains_key(target)
            &&& after[target].contains(p) <==> (dps_calculator::reset_of(
                infos,
                packets,
                target,
            ) matches Some(ts) ==> p.timestamp >= ts)
        }),
{
    match dps_calculator::reset_of(infos, packets, target) {
        Some(ts) => {
            packets[target].filter_lemma(|q: ParsedDamagePacket| q.timestamp >= ts);
            let i = packets[target].index_of(p);
            assert(packets[target][i] == p);
        },
        None => {},
    }
}

} // verus!
