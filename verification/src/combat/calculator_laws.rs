//! What holds of what the calculator remembers, and of the choice among records.
use crate::combat::boss_fights;
use crate::combat::dps_calculator;
use crate::combat::dps_calculator::CalcModel;
use crate::combat::game_data::GameData;
use crate::combat::storage_model::StorageModel;
use crate::combat::target_selection;
use crate::combat::target_selection::TargetSelectionMode;
use crate::entity::damage_packet::ParsedDamagePacket;
use crate::entity::dps_data::DpsModel;
use crate::entity::fight_record::FightRecord;
use crate::entity::personal_data::PersonalModel;
use crate::entity::target_info;
use crate::entity::target_info::TargetInfoModel;
use vstd::prelude::*;

verus! {

/// The window is the one that was asked for, where that is from ten seconds to a quarter of an hour,
/// and otherwise the nearest that is.
pub proof fn law_the_window_stays_in_its_bounds(ms: i64, other: i64)
    ensures
        ({
            let window = dps_calculator::clamped_window(ms);
            &&& 10_000 <= window && window <= 900_000
            &&& 10_000 <= ms && ms <= 900_000 ==> window == ms
            &&& ms < 10_000 ==> window == 10_000
            &&& ms > 900_000 ==> window == 900_000
            &&& ms <= other ==> window <= dps_calculator::clamped_window(other)
        }),
{
}

/// A new calculator follows the local player's target, over two minutes, and knows nothing else.
pub proof fn law_a_new_calculator_knows_nothing(t: i32, key: Seq<char>)
    ensures
        ({
            let calc = CalcModel::fresh();
            &&& calc.mode == TargetSelectionMode::LastHitByMe
            &&& calc.all_targets_window_ms == 120_000
            &&& !calc.infos.contains_key(t)
            &&& !calc.saved.contains(t)
            &&& !calc.classes.contains_key(key)
            &&& calc.current_target == 0
            &&& calc.last_snapshot is None
            &&& calc.last_known_local_id is None
        }),
{
}

/// A meter with nothing to show has no players, no target, no damage and no health.
pub proof fn law_a_blank_meter_shows_nothing(u: i32)
    ensures
        ({
            let m = DpsModel::blank();
            &&& !m.players.contains_key(u)
            &&& m.target_id == 0 && m.target_name.len() == 0
            &&& m.battle_time == 0 && m.counted_damage == 0 && m.target_total_damage == 0
            &&& m.target_max_hp == 0 && m.target_current_hp == -1
            &&& m.local_player_id is None
            &&& m.target_mode == TargetSelectionMode::BossTargets.name()
        }),
{
}

/// Starting all over forgets the targets, what was shown and what was kept; how targets are chosen,
/// the window, the classes and the local player stay.
pub proof fn law_what_a_restart_forgets(calc: CalcModel, t: i32)
    ensures
        ({
            let after = calc.restarted();
            &&& !after.infos.contains_key(t)
            &&& !after.saved.contains(t)
            &&& after.current_target == 0
            &&& after.last_snapshot is None
            &&& after.mode == calc.mode
            &&& after.all_targets_window_ms == calc.all_targets_window_ms
            &&& after.classes == calc.classes
            &&& after.last_known_local_id == calc.last_known_local_id
        }),
{
}

/// The calculator starts all over when the local player is another one than before, and only then.
pub proof fn law_another_local_player_starts_all_over(calc: CalcModel, local: Option<i64>, t: i32)
    ensures
        calc.for_local(local).last_known_local_id == local,
        calc.last_known_local_id == local ==> calc.for_local(local) == calc,
        calc.last_known_local_id != local ==> {
            let after = calc.for_local(local);
            !after.infos.contains_key(t) && !after.saved.contains(t) && after.last_snapshot is None
                && after.mode == calc.mode && after.classes == calc.classes
        },
{
}

/// A target is known once it was hit, and stays so; what is known of one that has no events in the
/// log stays as it is.
pub proof fn law_what_is_known_of_targets_stays(
    infos: Map<i32, TargetInfoModel>,
    packets: Map<i32, Seq<ParsedDamagePacket>>,
    t: i32,
)
    ensures
        ({
            let after = dps_calculator::infos_after(infos, packets);
            &&& after.contains_key(t) <==> infos.contains_key(t) || (packets.contains_key(t)
                && packets[t].len() > 0)
            &&& infos.contains_key(t) && !packets.contains_key(t) ==> after[t] == infos[t]
            &&& infos.contains_key(t) && packets.contains_key(t) && packets[t].len() == 0
                ==> after[t].damaged_amount == infos[t].damaged_amount
                && after[t].target_damage_started == infos[t].target_damage_started
                && after[t].last_damage_time == infos[t].last_damage_time
        }),
{
}

proof fn lemma_pause_notes_aside(a: TargetInfoModel, b: TargetInfoModel, ps: Seq<ParsedDamagePacket>)
    requires
        a == (TargetInfoModel { idle_reset: a.idle_reset, ..b }),
    ensures
        a.hit_all(ps) == (TargetInfoModel {
            idle_reset: a.hit_all(ps).idle_reset,
            ..b.hit_all(ps)
        }),
    decreases ps.len(),
{
    if ps.len() > 0 {
        lemma_pause_notes_aside(a, b, ps.drop_last());
    }
}

proof fn lemma_hit_on(t: TargetInfoModel, a: Seq<ParsedDamagePacket>, b: Seq<ParsedDamagePacket>)
    ensures
        t.hit_all(a + b) == t.hit_all(a).hit_all(b),
    decreases b.len(),
{
    if b.len() == 0 {
        assert(a + b =~= a);
    } else {
        assert((a + b).drop_last() =~= a + b.drop_last());
        assert((a + b).last() == b.last());
        lemma_hit_on(t, a, b.drop_last());
    }
}

/// It makes no difference whether the events of a target are read all at once, or some before and
/// all of them later.
pub proof fn law_reading_in_between_makes_no_difference(
    t: i32,
    some: Seq<ParsedDamagePacket>,
    more: Seq<ParsedDamagePacket>,
    infos: Map<i32, TargetInfoModel>,
)
    requires
        some.len() > 0,
        !infos.contains_key(t),
    ensures
        ({
            let early = Map::empty().insert(t, some);
            let late = Map::empty().insert(t, some + more);
            dps_calculator::infos_after(dps_calculator::infos_after(infos, early), late)[t]
                == dps_calculator::infos_after(infos, late)[t]
        }),
{
    let early = Map::<i32, Seq<ParsedDamagePacket>>::empty().insert(t, some);
    let first = TargetInfoModel::begun(t, some[0].timestamp);
    let known = TargetInfoModel { idle_reset: None, ..first.hit_all(some) };
    assert((some + more)[0] == some[0]);
    lemma_hit_on(first, some, more);
    lemma_hit_on(known, some, more);
    target_info::lemma_counted_events_change_nothing(first, some);
    lemma_pause_notes_aside(known, first.hit_all(some), more);
}

/// The time that is shown is how long the target's fight has lasted; a second where that is no time,
/// or where no one target is followed.
pub proof fn law_which_time_is_shown(infos: Map<i32, TargetInfoModel>, t: i32)
    ensures
        infos.contains_key(t) && infos[t].target_damage_started < infos[t].last_damage_time
            && infos[t].target_damage_started >= 0 ==> dps_calculator::shown_time(infos, t)
            == infos[t].last_damage_time - infos[t].target_damage_started,
        infos.contains_key(t) && infos[t].target_damage_started == infos[t].last_damage_time
            ==> dps_calculator::shown_time(infos, t) == 1_000,
        !infos.contains_key(t) ==> dps_calculator::shown_time(infos, t) == 1_000,
{
}

/// A reading that has players to show is kept, to be shown where there is nothing else; one that has
/// none leaves what was kept. How targets are chosen, the window and what was kept for good stay.
pub proof fn law_what_a_reading_keeps(
    calc: CalcModel,
    packets: Map<i32, Seq<ParsedDamagePacket>>,
    storage: StorageModel,
    game: GameData,
    u: i32,
)
    requires
        calc.last_known_local_id == storage.local_player_id,
    ensures
        ({
            let reading = dps_calculator::reading(calc, packets, storage, game);
            &&& reading.shown.players.contains_key(u) ==> reading.calc.last_snapshot == Some(
                reading.shown,
            )
            &&& reading.shown.players == Map::<i32, PersonalModel>::empty() ==> {
                &&& reading.calc.last_snapshot is None <==> calc.last_snapshot is None
                &&& calc.last_snapshot is Some ==> reading.calc.last_snapshot->0.players
                    == calc.last_snapshot->0.players
            }
            &&& reading.calc.mode == calc.mode
            &&& reading.calc.all_targets_window_ms == calc.all_targets_window_ms
            &&& reading.calc.saved == calc.saved
        }),
{
    let reading = dps_calculator::reading(calc, packets, storage, game);
    if reading.shown.players.contains_key(u) {
        assert(reading.shown.players.dom().contains(u));
        assert(DpsModel::blank().players.dom() =~= Set::<i32>::empty());
    }
}

/// Of the fights of a replay, the ten with the most damage are kept, or all where there are fewer:
/// no fight that is left out saw more damage than one that is kept. The one with the most comes
/// first, and no fight is kept twice.
pub proof fn law_the_best_fights_are_kept(
    records: Seq<FightRecord>,
    best: Seq<usize>,
    i: int,
    j: int,
    k: usize,
)
    requires
        boss_fights::are_best(records, best),
        0 <= i < best.len(),
        k < records.len(),
    ensures
        records.len() >= 10 ==> best.len() == 10,
        records.len() < 10 ==> best.len() == records.len(),
        best[i] < records.len(),
        i < j < best.len() ==> best[i] != best[j] && records[best[i] as int].total_damage
            >= records[best[j] as int].total_damage,
        i < j < best.len() && records[best[i] as int].total_damage == records[best[j] as int].total_damage
            ==> best[i] < best[j],
        !best.contains(k) ==> records[k as int].total_damage
            <= records[best[i] as int].total_damage,
{
    if i < j < best.len() {
        assert(boss_fights::ranks_before(records, best[i], best[j]));
    }
    if !best.contains(k) {
        assert(boss_fights::ranks_before(records, best[i], k));
    }
}

/// Each way to choose targets goes by its name, and a text that is the name of none means that the
/// local player's target is followed.
pub proof fn law_ways_to_choose_go_by_their_names(name: Seq<char>)
    ensures
        ({
            let mode = TargetSelectionMode::named(name);
            &&& name == "bossTargets"@ ==> mode == TargetSelectionMode::BossTargets
            &&& name == "mostDamage"@ ==> mode == TargetSelectionMode::MostDamage
            &&& name == "mostRecent"@ ==> mode == TargetSelectionMode::MostRecent
            &&& name == "allTargets"@ ==> mode == TargetSelectionMode::AllTargets
            &&& name == "trainTargets"@ ==> mode == TargetSelectionMode::TrainTargets
            &&& name != "bossTargets"@ && name != "mostDamage"@ && name != "mostRecent"@ && name
                != "allTargets"@ && name != "trainTargets"@ ==> mode
                == TargetSelectionMode::LastHitByMe
            &&& TargetSelectionMode::LastHitByMe.name() == "lastHitByMe"@
        }),
{
    target_selection::law_mode_is_read_back_from_its_name(TargetSelectionMode::MostDamage);
    target_selection::law_mode_is_read_back_from_its_name(TargetSelectionMode::MostRecent);
    target_selection::law_mode_is_read_back_from_its_name(TargetSelectionMode::AllTargets);
    target_selection::law_mode_is_read_back_from_its_name(TargetSelectionMode::TrainTargets);
    target_selection::law_mode_is_read_back_from_its_name(TargetSelectionMode::BossTargets);
}

} // verus!
