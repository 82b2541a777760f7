//! What holds of a reading of the meter, told by the events that it shows.
use crate::combat::details_laws;
use crate::combat::dps_calculator;
use crate::combat::dps_calculator::CalcModel;
use crate::combat::game_data::GameData;
use crate::combat::job_cache;
use crate::combat::meter;
use crate::combat::meter::{Naming, OrphanLink, Roster};
use crate::combat::meter_laws;
use crate::combat::names;
use crate::combat::packet_log;
use crate::combat::storage_model::StorageModel;
use crate::combat::target_selection;
use crate::combat::target_selection::TargetSelectionMode;
use crate::entity::damage_packet::ParsedDamagePacket;
use crate::entity::job_class::JobTable;
use crate::entity::personal_data::{HitModel, PersonalModel};
use crate::entity::summon_resolver;
use crate::entity::target_laws;
use crate::i18n::lookup::SkillLookup;
use crate::keys;
use crate::sums;
use crate::tallies;
use vstd::prelude::*;

verus! {

proof fn lemma_damage_of_all(ps: Seq<ParsedDamagePacket>)
    ensures
        sums::same_count(meter::damage_of_all(ps) as int, tallies::damage_sum(ps)),
    decreases ps.len(),
{
    if ps.len() > 0 {
        lemma_damage_of_all(ps.drop_last());
        sums::lemma_wrapping(
            meter::damage_of_all(ps.drop_last()),
            ps.last().total_damage as i64,
        );
    }
}

proof fn lemma_one_id(t: i32)
    ensures
        keys::ascending(Set::empty().insert(t)) == seq![t],
{
    let one = seq![t];
    assert(one[0] == t);
    assert(one.to_set() =~= Set::empty().insert(t));
    keys::lemma_is_ascending_of(one);
}

/// The events of one target are what is shown where one target is followed.
proof fn lemma_events_shown(
    calc: CalcModel,
    packets: Map<i32, Seq<ParsedDamagePacket>>,
    storage: StorageModel,
    game: GameData,
)
    ensures
        ({
            let infos = dps_calculator::infos_after(calc.infos, packets);
            let choice = dps_calculator::choice_of(calc, infos, packets, storage, game);
            choice.tracking != 0 ==> dps_calculator::events_against(
                packets,
                keys::ascending(choice.ids),
            ) == packet_log::events_of(packets, choice.tracking)
        }),
{
    let infos = dps_calculator::infos_after(calc.infos, packets);
    let choice = dps_calculator::choice_of(calc, infos, packets, storage, game);
    let t = choice.tracking;
    if t != 0 {
        assert(choice.ids == Set::<i32>::empty().insert(t));
        lemma_one_id(t);
        reveal_with_fuel(dps_calculator::events_against, 2);
        assert(seq![t].drop_last() =~= Seq::empty());
        assert(seq![t].last() == t);
        assert(dps_calculator::events_against(packets, seq![t]) =~= packet_log::events_of(
            packets,
            t,
        ));
    }
}

/// The damage that is shown of the target, and that the shares of players are shares of, is what
/// the events of the target did as a whole, where one target is shown that has events.
pub proof fn law_shown_damage_is_that_of_the_target(
    calc: CalcModel,
    packets: Map<i32, Seq<ParsedDamagePacket>>,
    storage: StorageModel,
    game: GameData,
)
    ensures
        ({
            let shown = dps_calculator::reading(calc, packets, storage, game).shown;
            let t = shown.target_id;
            t != 0 && packets.contains_key(t) && packets[t].len() > 0 ==> sums::same_count(
                shown.target_total_damage as int,
                tallies::damage_sum(packets[t]),
            ) && sums::same_count(shown.counted_damage as int, tallies::damage_sum(packets[t]))
        }),
{
    let known = calc.for_local(storage.local_player_id);
    lemma_events_shown(known, packets, storage, game);
    let shown = dps_calculator::reading(calc, packets, storage, game).shown;
    if packets.contains_key(shown.target_id) {
        lemma_damage_of_all(packets[shown.target_id]);
    }
}

proof fn lemma_events_against(packets: Map<i32, Seq<ParsedDamagePacket>>, targets: Seq<i32>)
    ensures
        tallies::damage_sum(dps_calculator::events_against(packets, targets)) == tallies::sum_by(
            targets,
            |t: i32| damage_done_to(packets, t),
        ),
        dps_calculator::events_against(packets, targets).len() == 0 <==> forall|i: int|
            0 <= i < targets.len() ==> packet_log::events_of(packets, #[trigger] targets[i]).len()
                == 0,
    decreases targets.len(),
{
    if targets.len() > 0 {
        let front = targets.drop_last();
        lemma_events_against(packets, front);
        let last = packet_log::events_of(packets, targets.last());
        tallies::lemma_sum_joined(
            dps_calculator::events_against(packets, front),
            last,
            |p: ParsedDamagePacket| p.total_damage as int,
        );
        assert(targets[targets.len() - 1] == targets.last());
        if forall|i: int|
            0 <= i < front.len() ==> packet_log::events_of(packets, #[trigger] front[i]).len()
                == 0 {
            assert forall|i: int| 0 <= i < targets.len() && last.len() == 0 implies packet_log::events_of(
                packets,
                #[trigger] targets[i],
            ).len() == 0 by {
                if i < front.len() {
                    assert(front[i] == targets[i]);
                }
            }
        } else {
            let i = choose|i: int|
                0 <= i < front.len() && packet_log::events_of(packets, #[trigger] front[i]).len()
                    != 0;
            assert(targets[i] == front[i]);
        }
    }
}

/// What the events of a target did as a whole; nothing where it has none.
pub open spec fn damage_done_to(packets: Map<i32, Seq<ParsedDamagePacket>>, target: i32) -> int {
    if packets.contains_key(target) {
        tallies::damage_sum(packets[target])
    } else {
        0
    }
}

/// Where all targets are shown together, or all training dummies, the damage that is shown is what
/// was done to all of them: each that has events is in the sum, once.
pub proof fn law_shown_damage_is_that_of_all_targets(
    calc: CalcModel,
    packets: Map<i32, Seq<ParsedDamagePacket>>,
    storage: StorageModel,
    game: GameData,
    t: i32,
)
    requires
        calc.infos.dom().finite(),
        packets.dom().finite(),
        calc.mode == TargetSelectionMode::AllTargets,
        packets.contains_key(t),
        packets[t].len() > 0,
    ensures
        ({
            let shown = dps_calculator::reading(calc, packets, storage, game).shown;
            exists|ids: Seq<i32>|
                #![trigger keys::is_ascending(ids)]
                keys::is_ascending(ids) && (forall|u: i32|
                    packets.contains_key(u) && packets[u].len() > 0 ==> #[trigger] ids.contains(u))
                    && sums::same_count(
                    shown.counted_damage as int,
                    tallies::sum_by(ids, |u: i32| damage_done_to(packets, u)),
                ) && shown.target_total_damage == shown.counted_damage
        }),
{
    let known = calc.for_local(storage.local_player_id);
    let infos = dps_calculator::infos_after(known.infos, packets);
    assert(infos.dom().subset_of(known.infos.dom().union(packets.dom())));
    vstd::set_lib::lemma_set_subset_finite(known.infos.dom().union(packets.dom()), infos.dom());
    let choice = dps_calculator::choice_of(known, infos, packets, storage, game);
    keys::lemma_ascending_exists(choice.ids);
    let ids = keys::ascending(choice.ids);
    lemma_events_against(packets, ids);
    let ps = dps_calculator::events_against(packets, ids);
    lemma_damage_of_all(ps);
    assert forall|u: i32| packets.contains_key(u) && packets[u].len() > 0 implies
        #[trigger] ids.contains(u) by {
        assert(infos.contains_key(u));
        assert(ids.to_set().contains(u));
    }
    assert(ids.contains(t));
    let i = ids.index_of(t);
    assert(packet_log::events_of(packets, ids[i]).len() != 0);
    assert(keys::is_ascending(ids));
}

/// The events of several targets are those of each, one target after the other.
pub proof fn law_events_stand_target_by_target(
    packets: Map<i32, Seq<ParsedDamagePacket>>,
    a: Seq<i32>,
    b: Seq<i32>,
    t: i32,
)
    ensures
        dps_calculator::events_against(packets, a + b) == dps_calculator::events_against(packets, a)
            + dps_calculator::events_against(packets, b),
        dps_calculator::events_against(packets, seq![t]) == if packets.contains_key(t) {
            packets[t]
        } else {
            Seq::empty()
        },
    decreases b.len(),
{
    reveal_with_fuel(dps_calculator::events_against, 2);
    let none = Seq::<i32>::empty();
    assert(seq![t].drop_last() =~= none);
    assert(dps_calculator::events_against(packets, seq![t]) =~= packet_log::events_of(packets, t));
    if b.len() == 0 {
        assert(a + b =~= a);
        assert(dps_calculator::events_against(packets, a) + dps_calculator::events_against(
            packets,
            b,
        ) =~= dps_calculator::events_against(packets, a));
    } else {
        law_events_stand_target_by_target(packets, a, b.drop_last(), t);
        assert((a + b).drop_last() =~= a + b.drop_last());
        assert((a + b).last() == b.last());
        assert(dps_calculator::events_against(packets, a + b) =~= dps_calculator::events_against(
            packets,
            a,
        ) + dps_calculator::events_against(packets, b));
    }
}

/// Whether the event is one of a player that is shown under the nickname.
pub open spec fn goes_by(p: ParsedDamagePacket, nickname: Seq<char>, naming: Naming) -> bool {
    let raw = summon_resolver::resolved(p.actor_id, naming.summons);
    raw > 0 && names::nickname_for(raw, naming.nicknames, naming.summons) == nickname
}

/// The events of players that are shown under the nickname, in their order.
pub open spec fn events_under(
    ps: Seq<ParsedDamagePacket>,
    nickname: Seq<char>,
    naming: Naming,
) -> Seq<ParsedDamagePacket> {
    ps.filter(|p: ParsedDamagePacket| goes_by(p, nickname, naming))
}

/// Whether the hit is the event: its number, its skill, the name to show for the skill, and its
/// damage as a whole.
pub open spec fn is_hit_of(h: HitModel, p: ParsedDamagePacket, skills: SkillLookup) -> bool {
    &&& h.packet_id == p.id
    &&& h.skill_code == p.skill_code
    &&& h.damage == p.total_damage
    &&& h.skill_name == skills.shown_name_of(skills.counted_as(p.skill_code))
}

/// Whether a player's row tells of just the given events: its hits are these, in their order, and
/// its damage is what they did as a whole.
pub open spec fn row_tells_of(
    row: PersonalModel,
    mine: Seq<ParsedDamagePacket>,
    skills: SkillLookup,
) -> bool {
    &&& sums::same_count(row.amount as int, tallies::damage_sum(mine))
    &&& row.hits.len() == mine.len()
    &&& forall|i: int|
        0 <= i < mine.len() ==> is_hit_of(#[trigger] row.hits[i], mine[i], skills)
}

/// Whether the rows are those of the events: each goes by the nickname of its id and tells of the
/// events under that nickname, and every player that acted is in one.
pub open spec fn rows_are_right(
    players: Map<i32, PersonalModel>,
    ps: Seq<ParsedDamagePacket>,
    naming: Naming,
    jobs: JobTable,
    skills: SkillLookup,
) -> bool {
    &&& forall|u: i32| #[trigger]
        players.contains_key(u) ==> {
            &&& players[u].nickname == names::nickname_for(u, naming.nicknames, naming.summons)
            &&& naming.canonical.contains_key(players[u].nickname)
            &&& naming.canonical[players[u].nickname] == u
            &&& events_under(ps, players[u].nickname, naming).len() > 0
            &&& row_tells_of(
                players[u],
                events_under(ps, players[u].nickname, naming),
                skills,
            )
        }
    &&& forall|i: int|
        0 <= i < ps.len() && summon_resolver::resolved(
            (#[trigger] ps[i]).actor_id,
            naming.summons,
        ) > 0 ==> {
            let n = names::nickname_for(
                summon_resolver::resolved(ps[i].actor_id, naming.summons),
                naming.nicknames,
                naming.summons,
            );
            &&& players.contains_key(naming.canonical[n])
            &&& jobs.job_name_of(ps[i].skill_code).len() > 0 ==> players[naming.canonical[n]].job.len()
                > 0
        }
}

proof fn lemma_rows(
    ps: Seq<ParsedDamagePacket>,
    k: int,
    classes: Map<Seq<char>, Seq<char>>,
    naming: Naming,
    jobs: JobTable,
    skills: SkillLookup,
)
    requires
        0 <= k <= ps.len(),
        naming.canonical == names::canonical_ids(ps, naming.nicknames, naming.summons),
    ensures
        rows_are_right(
            (Roster { players: Map::empty(), classes }).counted_all(
                ps.take(k),
                naming,
                jobs,
                skills,
            ).players,
            ps.take(k),
            naming,
            jobs,
            skills,
        ),
    decreases k,
{
    let start = Roster { players: Map::empty(), classes };
    if k > 0 {
        lemma_rows(ps, k - 1, classes, naming, jobs, skills);
        let seen = ps.take(k - 1);
        let now = ps.take(k);
        let p = ps[k - 1];
        assert(now.drop_last() =~= seen);
        assert(now =~= seen.push(p));
        let raw = summon_resolver::resolved(p.actor_id, naming.summons);
        if raw > 0 {
            meter_laws::lemma_did_damage(ps, k - 1, naming.summons);
            let n = names::nickname_for(raw, naming.nicknames, naming.summons);
            assert(names::carries(
                raw,
                n,
                names::damage_by_player(ps, naming.summons),
                naming.nicknames,
                naming.summons,
            ));
            names::law_canonical_ids_stand_for_themselves(
                ps,
                naming.nicknames,
                naming.summons,
                raw,
            );
        }
        lemma_next_row(
            start.counted_all(seen, naming, jobs, skills),
            seen,
            p,
            naming,
            jobs,
            skills,
        );
    }
}

proof fn lemma_next_row(
    before: Roster,
    seen: Seq<ParsedDamagePacket>,
    p: ParsedDamagePacket,
    naming: Naming,
    jobs: JobTable,
    skills: SkillLookup,
)
    requires
        rows_are_right(before.players, seen, naming, jobs, skills),
        ({
            let raw = summon_resolver::resolved(p.actor_id, naming.summons);
            let n = names::nickname_for(raw, naming.nicknames, naming.summons);
            raw > 0 ==> naming.canonical.contains_key(n) && names::nickname_for(
                naming.canonical[n],
                naming.nicknames,
                naming.summons,
            ) == n
        }),
    ensures
        rows_are_right(
            before.counted(p, naming, jobs, skills).players,
            seen.push(p),
            naming,
            jobs,
            skills,
        ),
{
    let now = seen.push(p);
    let raw = summon_resolver::resolved(p.actor_id, naming.summons);
    let after = before.counted(p, naming, jobs, skills).players;
    let n = names::nickname_for(raw, naming.nicknames, naming.summons);
    let uid = naming.canonical[n];
    if raw > 0 {
        let mine = events_under(seen, n, naming);
        let old_row = before.player_before(uid, n);
        if !before.players.contains_key(uid) {
            tallies::lemma_filter_holds(seen, |q: ParsedDamagePacket| goes_by(q, n, naming));
            assert(mine.len() == 0) by {
                if mine.len() > 0 {
                    assert(mine.contains(mine[0]));
                    let i = seen.index_of(mine[0]);
                    assert(goes_by(seen[i], n, naming));
                }
            }
        }
        assert(row_tells_of(old_row, mine, skills));
        tallies::lemma_filter_push(seen, p, |q: ParsedDamagePacket| goes_by(q, n, naming));
        assert(events_under(now, n, naming) == mine.push(p));
        lemma_row_hit(old_row, after[uid], mine, p, skills);
    }
    assert forall|u: i32| #[trigger] after.contains_key(u) implies after[u].nickname
        == names::nickname_for(u, naming.nicknames, naming.summons)
        && naming.canonical.contains_key(after[u].nickname)
        && naming.canonical[after[u].nickname] == u && events_under(
        now,
        after[u].nickname,
        naming,
    ).len() > 0 && row_tells_of(
        after[u],
        events_under(now, after[u].nickname, naming),
        skills,
    ) by {
        if raw <= 0 || u != uid {
            assert(before.players.contains_key(u));
            let m = before.players[u].nickname;
            tallies::lemma_filter_push(seen, p, |q: ParsedDamagePacket| goes_by(q, m, naming));
            assert(events_under(now, m, naming) == events_under(seen, m, naming));
        }
    }
    assert forall|i: int|
        0 <= i < now.len() && summon_resolver::resolved(
            (#[trigger] now[i]).actor_id,
            naming.summons,
        ) > 0 implies ({
        let m = names::nickname_for(
            summon_resolver::resolved(now[i].actor_id, naming.summons),
            naming.nicknames,
            naming.summons,
        );
        &&& after.contains_key(naming.canonical[m])
        &&& jobs.job_name_of(now[i].skill_code).len() > 0 ==> after[naming.canonical[m]].job.len()
            > 0
    }) by {
        if i < seen.len() {
            assert(seen[i] == now[i]);
        }
    }
}

proof fn lemma_row_hit(
    row: PersonalModel,
    hit: PersonalModel,
    mine: Seq<ParsedDamagePacket>,
    p: ParsedDamagePacket,
    skills: SkillLookup,
)
    requires
        row_tells_of(row, mine, skills),
        ({
            let wanted = row.hit(p, skills.shown_name_of(skills.counted_as(p.skill_code)));
            hit.amount == wanted.amount && hit.hits == wanted.hits
        }),
    ensures
        row_tells_of(hit, mine.push(p), skills),
{
    tallies::lemma_sum_push(mine, p, |q: ParsedDamagePacket| q.total_damage as int);
    sums::lemma_wrapping(row.amount, p.total_damage as i64);
    assert forall|i: int| 0 <= i < mine.push(p).len() implies is_hit_of(
        #[trigger] hit.hits[i],
        mine.push(p)[i],
        skills,
    ) by {
        if i < mine.len() {
            assert(hit.hits[i] == row.hits[i]);
        }
    }
}

/// Who has a nickname is no summon that is to be taken in.
pub proof fn lemma_no_orphans(
    ids: Seq<i32>,
    classes: Map<i32, Seq<char>>,
    nicknames: Map<i32, Seq<char>>,
    summons: Map<i32, i32>,
)
    requires
        forall|i: int| 0 <= i < ids.len() ==> nicknames.contains_key(#[trigger] ids[i]),
    ensures
        meter::orphan_links(ids, classes, nicknames, summons).len() == 0,
    decreases ids.len(),
{
    if ids.len() > 0 {
        assert(nicknames.contains_key(ids[ids.len() - 1]));
        assert forall|i: int| 0 <= i < ids.drop_last().len() implies nicknames.contains_key(
            #[trigger] ids.drop_last()[i],
        ) by {
            assert(ids[i] == ids.drop_last()[i]);
        }
        lemma_no_orphans(ids.drop_last(), classes, nicknames, summons);
    }
}

/// The naming that goes with the events.
pub open spec fn naming_of(ps: Seq<ParsedDamagePacket>, storage: StorageModel) -> Naming {
    Naming {
        nicknames: storage.nicknames,
        summons: storage.summons,
        canonical: names::canonical_ids(ps, storage.nicknames, storage.summons),
    }
}

proof fn lemma_roster(
    ps: Seq<ParsedDamagePacket>,
    storage: StorageModel,
    classes: Map<Seq<char>, Seq<char>>,
    jobs: JobTable,
    skills: SkillLookup,
)
    ensures
        ({
            let players = (Roster { players: Map::empty(), classes }).counted_all(
                ps,
                naming_of(ps, storage),
                jobs,
                skills,
            ).players;
            &&& players.dom().finite()
            &&& rows_are_right(players, ps, naming_of(ps, storage), jobs, skills)
            &&& forall|u: i32| #[trigger]
                players.contains_key(u) ==> names::damage_by_player(
                    ps,
                    storage.summons,
                ).contains_key(u)
        }),
{
    let naming = naming_of(ps, storage);
    let players = (Roster { players: Map::empty(), classes }).counted_all(
        ps,
        naming,
        jobs,
        skills,
    ).players;
    assert(ps.take(ps.len() as int) =~= ps);
    lemma_rows(ps, ps.len() as int, classes, naming, jobs, skills);
    meter_laws::lemma_counting_loses_nothing(ps, classes, naming, jobs, skills);
    assert forall|u: i32| #[trigger] players.contains_key(u) implies names::damage_by_player(
        ps,
        storage.summons,
    ).contains_key(u) by {
        let n = players[u].nickname;
        let damage = names::damage_by_player(ps, storage.summons);
        let w = choose|w: i32|
            names::carries(w, n, damage, storage.nicknames, storage.summons);
        names::law_canonical_ids_stand_for_themselves(
            ps,
            storage.nicknames,
            storage.summons,
            w,
        );
    }
}

/// Each row, before unlinked summons are counted for the players behind them, goes by the nickname
/// of its id and tells of just the events under that nickname: its hits are these, and its damage
/// is what they did as a whole. Every player that acted is in the row of its nickname.
pub proof fn law_rows_tell_of_the_events_under_their_nicknames(
    ps: Seq<ParsedDamagePacket>,
    storage: StorageModel,
    classes: Map<Seq<char>, Seq<char>>,
    jobs: JobTable,
    skills: SkillLookup,
)
    ensures
        rows_are_right(
            (Roster { players: Map::empty(), classes }).counted_all(
                ps,
                naming_of(ps, storage),
                jobs,
                skills,
            ).players,
            ps,
            naming_of(ps, storage),
            jobs,
            skills,
        ),
{
    lemma_roster(ps, storage, classes, jobs, skills);
}

/// A row goes by the nickname of the event that was counted last in it.
pub proof fn law_a_row_goes_by_the_nickname_of_its_events(
    roster: Roster,
    p: ParsedDamagePacket,
    naming: Naming,
    jobs: JobTable,
    skills: SkillLookup,
)
    ensures
        ({
            let raw = summon_resolver::resolved(p.actor_id, naming.summons);
            let n = names::nickname_for(raw, naming.nicknames, naming.summons);
            let u = names::canonical_or(naming.canonical, n, raw);
            let after = roster.counted(p, naming, jobs, skills);
            raw > 0 ==> after.players.contains_key(u) && after.players[u].nickname == n
        }),
        summon_resolver::resolved(p.actor_id, naming.summons) <= 0 ==> roster.counted(
            p,
            naming,
            jobs,
            skills,
        ) == roster,
{
}

/// A row that is shown is of the class that is known of it; the local player's, where none is, says
/// so. Nothing else of a row is changed by showing it.
pub proof fn law_a_row_without_a_class_says_so(
    players: Map<i32, PersonalModel>,
    local: Option<Set<i32>>,
    u: i32,
)
    ensures
        ({
            let shown = meter::shown_players(players, local);
            &&& shown.contains_key(u) <==> players.contains_key(u) && (players[u].job.len() > 0 || (
            local is Some && local->0.contains(u)))
            &&& shown.contains_key(u) ==> {
                &&& shown[u].job == if players[u].job.len() > 0 {
                    players[u].job
                } else {
                    "Unknown"@
                }
                &&& shown[u].nickname == players[u].nickname
                &&& shown[u].amount == players[u].amount
                &&& shown[u].hits == players[u].hits
            }
        }),
{
}

/// Where every player that acted has a nickname, each row of the meter tells of just the events
/// under its nickname: its hits are these, and its damage is what they did as a whole. Every player
/// whose class is given away by a skill has a row.
pub proof fn law_a_row_tells_of_its_players_events(
    ps: Seq<ParsedDamagePacket>,
    storage: StorageModel,
    local: Option<Set<i32>>,
    classes: Map<Seq<char>, Seq<char>>,
    jobs: JobTable,
    skills: SkillLookup,
)
    requires
        details_laws::all_are_named(ps, storage),
    ensures
        ({
            let rows = meter::metered(
                ps,
                storage.nicknames,
                storage.summons,
                local,
                classes,
                jobs,
                skills,
            ).players;
            &&& forall|u: i32| #[trigger]
                rows.contains_key(u) ==> storage.nicknames.contains_key(u) && rows[u].nickname
                    == storage.nicknames[u] && row_tells_of(
                    rows[u],
                    events_under(ps, rows[u].nickname, naming_of(ps, storage)),
                    skills,
                )
            &&& forall|i: int|
                0 <= i < ps.len() && summon_resolver::resolved(
                    (#[trigger] ps[i]).actor_id,
                    storage.summons,
                ) > 0 && jobs.job_name_of(ps[i].skill_code).len() > 0 ==> exists|u: i32| #[trigger]
                    rows.contains_key(u) && rows[u].nickname == storage.nicknames[
                        summon_resolver::resolved(ps[i].actor_id, storage.summons)
                    ]
        }),
{
    let naming = naming_of(ps, storage);
    let players = (Roster { players: Map::empty(), classes }).counted_all(
        ps,
        naming,
        jobs,
        skills,
    ).players;
    lemma_roster(ps, storage, classes, jobs, skills);
    details_laws::lemma_whoever_did_damage_is_named(ps, storage);
    let ids = keys::ascending(players.dom());
    keys::lemma_ascending_exists(players.dom());
    assert forall|i: int| 0 <= i < ids.len() implies storage.nicknames.contains_key(
        #[trigger] ids[i],
    ) by {
        assert(ids.to_set().contains(ids[i]));
        assert(players.contains_key(ids[i]));
    }
    lemma_no_orphans(ids, meter::player_classes(players), storage.nicknames, storage.summons);
    let rows = meter::metered(
        ps,
        storage.nicknames,
        storage.summons,
        local,
        classes,
        jobs,
        skills,
    ).players;
    assert forall|i: int|
        0 <= i < ps.len() && summon_resolver::resolved(
            (#[trigger] ps[i]).actor_id,
            storage.summons,
        ) > 0 && jobs.job_name_of(ps[i].skill_code).len() > 0 implies exists|u: i32| #[trigger]
        rows.contains_key(u) && rows[u].nickname == storage.nicknames[
            summon_resolver::resolved(ps[i].actor_id, storage.summons)
        ] by {
        let raw = summon_resolver::resolved(ps[i].actor_id, storage.summons);
        let n = names::nickname_for(raw, storage.nicknames, storage.summons);
        let u = naming.canonical[n];
        assert(players.contains_key(u) && players[u].job.len() > 0);
        meter_laws::lemma_did_damage(ps, i, storage.summons);
        assert(names::carries(
            raw,
            n,
            names::damage_by_player(ps, storage.summons),
            storage.nicknames,
            storage.summons,
        ));
        names::law_canonical_ids_stand_for_themselves(
            ps,
            storage.nicknames,
            storage.summons,
            raw,
        );
        assert(rows.contains_key(u));
        assert(rows[u].nickname == n);
    }
}

/// Whether every event is a player's, and its skill gives a class away.
pub open spec fn all_are_shown(
    ps: Seq<ParsedDamagePacket>,
    storage: StorageModel,
    jobs: JobTable,
) -> bool {
    forall|i: int|
        0 <= i < ps.len() ==> summon_resolver::resolved(
            (#[trigger] ps[i]).actor_id,
            storage.summons,
        ) > 0 && jobs.job_name_of(ps[i].skill_code).len() > 0
}

proof fn lemma_all_by_players(ps: Seq<ParsedDamagePacket>, storage: StorageModel, jobs: JobTable)
    requires
        all_are_shown(ps, storage, jobs),
    ensures
        meter_laws::player_damage(ps, storage.summons) == tallies::damage_sum(ps),
    decreases ps.len(),
{
    if ps.len() > 0 {
        let front = ps.drop_last();
        assert forall|i: int| 0 <= i < front.len() implies summon_resolver::resolved(
            (#[trigger] front[i]).actor_id,
            storage.summons,
        ) > 0 && jobs.job_name_of(front[i].skill_code).len() > 0 by {
            assert(ps[i] == front[i]);
        }
        lemma_all_by_players(front, storage, jobs);
        assert(ps[ps.len() - 1] == ps.last());
    }
}

proof fn lemma_adopted_rows(players: Map<i32, PersonalModel>, links: Seq<OrphanLink>)
    ensures
        forall|u: i32| #[trigger]
            meter::adopted(players, links).contains_key(u) ==> players.contains_key(u)
                && meter::adopted(players, links)[u].job == players[u].job
                && meter::adopted(players, links)[u].nickname == players[u].nickname,
    decreases links.len(),
{
    if links.len() > 0 {
        lemma_adopted_rows(players, links.drop_last());
        let before = meter::adopted(players, links.drop_last());
        let after = meter::adopted(players, links);
        assert forall|u: i32| #[trigger] after.contains_key(u) implies players.contains_key(u)
            && after[u].job == players[u].job && after[u].nickname == players[u].nickname by {
            assert(before.contains_key(u));
        }
    }
}

/// Where every event is a player's and gives its class away, the damage of the players that are
/// shown adds up to the damage that their shares are shares of, so the shares add up to the whole.
pub proof fn law_shares_add_up(
    calc: CalcModel,
    packets: Map<i32, Seq<ParsedDamagePacket>>,
    storage: StorageModel,
    game: GameData,
)
    ensures
        ({
            let shown = dps_calculator::reading(calc, packets, storage, game).shown;
            let t = shown.target_id;
            t != 0 && packets.contains_key(t) && packets[t].len() > 0 && all_are_shown(
                packets[t],
                storage,
                game.jobs,
            ) ==> sums::same_count(
                sums::total(meter_laws::amounts(shown.players)),
                shown.counted_damage as int,
            )
        }),
{
    let known = calc.for_local(storage.local_player_id);
    let shown = dps_calculator::reading(calc, packets, storage, game).shown;
    let t = shown.target_id;
    lemma_events_shown(known, packets, storage, game);
    if t != 0 && packets.contains_key(t) && packets[t].len() > 0 && all_are_shown(
        packets[t],
        storage,
        game.jobs,
    ) {
        let ps = packets[t];
        let naming = naming_of(ps, storage);
        lemma_damage_of_all(ps);
        lemma_all_by_players(ps, storage, game.jobs);
        meter_laws::law_no_damage_is_lost(ps, known.classes, naming, game.jobs, game.skills);
        lemma_roster(ps, storage, known.classes, game.jobs, game.skills);
        let players = (Roster { players: Map::empty(), classes: known.classes }).counted_all(
            ps,
            naming,
            game.jobs,
            game.skills,
        ).players;
        let settled = meter::without_orphans(players, storage.nicknames, storage.summons);
        lemma_adopted_rows(
            players,
            meter::orphan_links(
                keys::ascending(players.dom()),
                meter::player_classes(players),
                storage.nicknames,
                storage.summons,
            ),
        );
        assert forall|u: i32| #[trigger] settled.contains_key(u) implies settled[u].job.len()
            > 0 by {
            assert(players.contains_key(u));
            let n = players[u].nickname;
            let mine = events_under(ps, n, naming);
            tallies::lemma_filter_holds(ps, |q: ParsedDamagePacket| goes_by(q, n, naming));
            assert(mine.contains(mine[0]));
            let i = ps.index_of(mine[0]);
            assert(goes_by(ps[i], n, naming));
        }
        assert(shown.players =~= settled);
    }
}

/// The rows that are shown where one target is shown are those of its events, where every player
/// that acted has a nickname.
pub proof fn law_shown_rows_tell_of_the_target(
    calc: CalcModel,
    packets: Map<i32, Seq<ParsedDamagePacket>>,
    storage: StorageModel,
    game: GameData,
    u: i32,
)
    ensures
        ({
            let shown = dps_calculator::reading(calc, packets, storage, game).shown;
            let t = shown.target_id;
            t != 0 && packets.contains_key(t) && packets[t].len() > 0
                && details_laws::all_are_named(packets[t], storage) && shown.players.contains_key(u)
                ==> storage.nicknames.contains_key(u) && shown.players[u].nickname
                == storage.nicknames[u] && row_tells_of(
                shown.players[u],
                events_under(packets[t], storage.nicknames[u], naming_of(packets[t], storage)),
                game.skills,
            )
        }),
{
    let known = calc.for_local(storage.local_player_id);
    let shown = dps_calculator::reading(calc, packets, storage, game).shown;
    let t = shown.target_id;
    lemma_events_shown(known, packets, storage, game);
    if t != 0 && packets.contains_key(t) && packets[t].len() > 0 && details_laws::all_are_named(
        packets[t],
        storage,
    ) {
        law_a_row_tells_of_its_players_events(
            packets[t],
            storage,
            target_selection::local_ids(storage.local_player_id, storage.summons),
            known.classes,
            game.jobs,
            game.skills,
        );
    }
}

/// What is shown of a target that was not known before: it has lasted from the earliest to the
/// latest event of the fight that goes on, or a second where that is no time; what is known of it
/// from then on tells of that fight; and what stays in the log are the events of that fight, or,
/// where no pause ended an earlier one, all events.
pub proof fn law_a_reading_tells_of_the_present_fight(
    calc: CalcModel,
    packets: Map<i32, Seq<ParsedDamagePacket>>,
    storage: StorageModel,
    game: GameData,
    t: i32,
    before: Seq<ParsedDamagePacket>,
    fight: Seq<ParsedDamagePacket>,
)
    requires
        t != 0,
        packets.contains_key(t),
        packets[t] == before + fight,
        fight.len() > 0,
        target_laws::are_proper(before + fight),
        target_laws::has_no_pause(fight),
        target_laws::comes_after_a_pause(fight[0], before),
        calc.last_known_local_id != storage.local_player_id || !calc.infos.contains_key(t),
    ensures
        ({
            let reading = dps_calculator::reading(calc, packets, storage, game);
            let known = calc.for_local(storage.local_player_id);
            let info = reading.calc.infos[t];
            let log = dps_calculator::packets_after(known.infos, packets);
            &&& reading.calc.infos.contains_key(t)
            &&& target_laws::tells_of(info, fight)
            &&& reading.shown.target_id == t ==> reading.shown.battle_time
                == if info.last_damage_time == info.target_damage_started {
                1000
            } else {
                info.last_damage_time - info.target_damage_started
            }
            &&& log.contains_key(t)
            &&& before.len() == 0 ==> log[t] == packets[t]
            &&& before.len() > 0 ==> forall|p: ParsedDamagePacket| #[trigger]
                log[t].contains(p) <==> packets[t].contains(p) && p.timestamp
                    >= fight[0].timestamp
        }),
{
    let known = calc.for_local(storage.local_player_id);
    let ps = packets[t];
    target_laws::law_a_target_tells_of_the_present_fight(t, before, fight);
    lemma_events_shown(known, packets, storage, game);
    let after = dps_calculator::info_after(known.infos, packets, t);
    assert(dps_calculator::reset_of(known.infos, packets, t) == after.idle_reset);
    if before.len() > 0 {
        let ts = fight[0].timestamp;
        tallies::lemma_filter_holds(ps, |p: ParsedDamagePacket| p.timestamp >= ts);
    }
}

/// What is said of the target beside its damage: the name that the game has for its kind, how the
/// target was chosen, and the health of a boss, where it is known.
pub proof fn law_the_heading_is_that_of_the_target(
    calc: CalcModel,
    packets: Map<i32, Seq<ParsedDamagePacket>>,
    storage: StorageModel,
    game: GameData,
)
    ensures
        ({
            let reading = dps_calculator::reading(calc, packets, storage, game);
            let shown = reading.shown;
            let t = shown.target_id;
            &&& shown.target_mode == calc.mode.name()
            &&& shown.target_current_hp == -1 || calc.last_snapshot is Some
            &&& t == reading.calc.current_target
            &&& t != 0 ==> shown.target_name == if storage.mobs.contains_key(t)
                && game.npcs.names@.contains_key(storage.mobs[t]) {
                game.npcs.names@[storage.mobs[t]]@
            } else {
                Seq::empty()
            }
            &&& shown.target_max_hp == if t != 0 && storage.mobs.contains_key(t)
                && game.npcs.bosses@.contains(storage.mobs[t]) && storage.mob_hp.contains_key(t) {
                storage.mob_hp[t] as int
            } else {
                0
            }
        }),
{
}

/// What is remembered of classes after a reading of one target is what was remembered before, and
/// what counting the target's events adds to it.
pub proof fn law_a_reading_remembers_the_classes_it_meets(
    calc: CalcModel,
    packets: Map<i32, Seq<ParsedDamagePacket>>,
    storage: StorageModel,
    game: GameData,
)
    ensures
        ({
            let reading = dps_calculator::reading(calc, packets, storage, game);
            let t = reading.shown.target_id;
            t != 0 && packets.contains_key(t) && packets[t].len() > 0 ==> reading.calc.classes == (
            Roster { players: Map::empty(), classes: calc.classes }).counted_all(
                packets[t],
                naming_of(packets[t], storage),
                game.jobs,
                game.skills,
            ).classes
        }),
{
    let known = calc.for_local(storage.local_player_id);
    lemma_events_shown(known, packets, storage, game);
}

/// Where there are no events to show, the players, the duration and the damage that was shown last
/// stay.
pub proof fn law_what_was_shown_last_stays(
    calc: CalcModel,
    packets: Map<i32, Seq<ParsedDamagePacket>>,
    storage: StorageModel,
    game: GameData,
)
    ensures
        ({
            let shown = dps_calculator::reading(calc, packets, storage, game).shown;
            let t = shown.target_id;
            calc.last_known_local_id == storage.local_player_id && t != 0
                && !packets.contains_key(t) ==> match calc.last_snapshot {
                Some(last) => shown.players == last.players && shown.battle_time
                    == last.battle_time && shown.counted_damage == last.counted_damage
                    && shown.target_total_damage == 0,
                None => shown.players == Map::<i32, PersonalModel>::empty() && shown.battle_time
                    == 0 && shown.counted_damage == 0 && shown.target_total_damage == 0,
            }
        }),
{
    let known = calc.for_local(storage.local_player_id);
    lemma_events_shown(known, packets, storage, game);
}

/// What is known of a player's class stays: no later event changes it.
pub proof fn law_a_class_once_known_stays(
    roster: Roster,
    p: ParsedDamagePacket,
    naming: Naming,
    jobs: JobTable,
    skills: SkillLookup,
    u: i32,
)
    requires
        roster.players.contains_key(u),
        roster.players[u].job.len() > 0,
    ensures
        roster.counted(p, naming, jobs, skills).players.contains_key(u),
        roster.counted(p, naming, jobs, skills).players[u].job == roster.players[u].job,
{
}

/// A new row of a nickname whose class is remembered is of that class; otherwise of the class that
/// the event's skill gives away, which is remembered from then on.
pub proof fn law_a_new_row_has_the_remembered_class(
    roster: Roster,
    p: ParsedDamagePacket,
    naming: Naming,
    jobs: JobTable,
    skills: SkillLookup,
)
    ensures
        ({
            let raw = summon_resolver::resolved(p.actor_id, naming.summons);
            let n = names::nickname_for(raw, naming.nicknames, naming.summons);
            let u = names::canonical_or(naming.canonical, n, raw);
            let after = roster.counted(p, naming, jobs, skills);
            let key = job_cache::job_key(n);
            let remembered = job_cache::job_under(roster.classes, key);
            raw > 0 && !roster.players.contains_key(u) ==> {
                &&& after.players.contains_key(u)
                &&& remembered.len() > 0 ==> after.players[u].job == remembered && after.classes
                    == roster.classes
                &&& remembered.len() == 0 ==> after.players[u].job == jobs.job_name_of(p.skill_code)
                &&& remembered.len() == 0 && job_cache::is_class_name(
                    jobs.job_name_of(p.skill_code),
                ) && job_cache::is_player_key(key) ==> job_cache::job_under(after.classes, key)
                    == jobs.job_name_of(p.skill_code)
            }
        }),
{
}

} // verus!
