//! From damage events to what the meter shows.
use crate::combat::boss_fights;
use crate::combat::boss_fights::Scene;
use crate::combat::data_storage::DataStorage;
use crate::combat::game_data::GameData;
use crate::combat::job_cache::JobCache;
use crate::combat::meter;
use crate::combat::names;
use crate::combat::overview;
use crate::combat::packet_log;
use crate::combat::packet_log::PacketLog;
use crate::combat::ping_tracker::PingTracker;
use crate::combat::storage_model::StorageModel;
use crate::combat::target_details;
use crate::combat::target_selection;
use crate::combat::target_selection::TargetSelectionMode;
use crate::entity::damage_packet::ParsedDamagePacket;
use crate::entity::details_context::{DetailsContext, TargetDetailsResponse};
use crate::entity::dps_data;
use crate::entity::dps_data::{DpsData, DpsModel};
use crate::entity::fight_record;
use crate::entity::fight_record::{FightRecord, RecordModel};
use crate::entity::target_info::{TargetInfo, TargetInfoModel};
use crate::keys;
use std::collections::{HashMap, HashSet};
use vstd::prelude::*;

verus! {

broadcast use vstd::std_specs::hash::group_hash_axioms;

/// The shortest window over which all targets are shown.
pub const MIN_WINDOW_MS: i64 = 10_000;

/// The longest window over which all targets are shown.
pub const MAX_WINDOW_MS: i64 = 900_000;

/// What the calculator remembers between two readings.
#[verifier::ext_equal]
pub struct CalcModel {
    pub infos: Map<i32, TargetInfoModel>,
    pub current_target: i32,
    pub last_snapshot: Option<DpsModel>,
    pub mode: TargetSelectionMode,
    pub last_local_hit_time: i64,
    pub last_known_local_id: Option<i64>,
    pub all_targets_window_ms: i64,
    pub classes: Map<Seq<char>, Seq<char>>,
    pub saved: Set<i32>,
}

impl CalcModel {
    /// A calculator that has seen nothing.
    pub open spec fn fresh() -> Self {
        CalcModel {
            infos: Map::empty(),
            current_target: 0,
            last_snapshot: None,
            mode: TargetSelectionMode::LastHitByMe,
            last_local_hit_time: (-1int) as i64,
            last_known_local_id: None,
            all_targets_window_ms: 120_000,
            classes: Map::empty(),
            saved: Set::empty(),
        }
    }

    /// The calculator without what it knew of targets; settings and classes stay.
    pub open spec fn restarted(self) -> Self {
        CalcModel {
            infos: Map::empty(),
            current_target: 0,
            last_snapshot: None,
            last_local_hit_time: (-1int) as i64,
            saved: Set::empty(),
            ..self
        }
    }

    /// The calculator once it is known who the local player is: another local player starts all
    /// over.
    pub open spec fn for_local(self, local: Option<i64>) -> Self {
        if self.last_known_local_id == local {
            self
        } else {
            CalcModel { last_known_local_id: local, ..self.restarted() }
        }
    }

    /// Whether what was shown last, if it is kept, was shown for the local player that is known.
    pub open spec fn keeps_its_player(self) -> bool {
        self.last_snapshot matches Some(shown) ==> shown.local_player_id
            == self.last_known_local_id
    }

    /// The fights to keep now, that of the smallest target first.
    pub open spec fn fights_to_keep(self, now_ms: i64, force: bool, scene: Scene) -> Seq<
        RecordModel,
    > {
        boss_fights::records_of(
            keys::ascending(
                boss_fights::candidates(
                    self.infos,
                    self.saved,
                    scene.storage.mobs,
                    scene.game,
                ),
            ),
            self.infos,
            now_ms,
            force,
            scene,
        )
    }

    /// The calculator once those fights are kept.
    pub open spec fn after_keeping(
        self,
        now_ms: i64,
        force: bool,
        mobs: Map<i32, i32>,
        game: GameData,
    ) -> Self {
        CalcModel {
            saved: self.saved.union(
                boss_fights::kept_for_good(
                    boss_fights::candidates(self.infos, self.saved, mobs, game),
                    self.infos,
                    now_ms,
                    force,
                ),
            ),
            ..self
        }
    }
}

/// A window brought into its bounds.
pub open spec fn clamped_window(ms: i64) -> i64 {
    if ms < MIN_WINDOW_MS {
        MIN_WINDOW_MS
    } else if ms > MAX_WINDOW_MS {
        MAX_WINDOW_MS
    } else {
        ms
    }
}

/// What is known of a target before the given events of it.
pub open spec fn info_before(
    infos: Map<i32, TargetInfoModel>,
    target: i32,
    ps: Seq<ParsedDamagePacket>,
) -> TargetInfoModel {
    if infos.contains_key(target) {
        infos[target]
    } else {
        TargetInfoModel::begun(target, ps[0].timestamp)
    }
}

/// Whether there is anything to know of a target.
pub open spec fn is_known(
    infos: Map<i32, TargetInfoModel>,
    packets: Map<i32, Seq<ParsedDamagePacket>>,
    target: i32,
) -> bool {
    infos.contains_key(target) || packet_log::events_of(packets, target).len() > 0
}

/// What is known of a target once its events are counted.
pub open spec fn info_after(
    infos: Map<i32, TargetInfoModel>,
    packets: Map<i32, Seq<ParsedDamagePacket>>,
    target: i32,
) -> TargetInfoModel {
    let ps = packet_log::events_of(packets, target);
    info_before(infos, target, ps).hit_all(ps)
}

/// What is known of the targets once all events are counted.
pub open spec fn infos_after(
    infos: Map<i32, TargetInfoModel>,
    packets: Map<i32, Seq<ParsedDamagePacket>>,
) -> Map<i32, TargetInfoModel> {
    Map::new(
        |t: i32| is_known(infos, packets, t),
        |t: i32|
            if packets.contains_key(t) {
                TargetInfoModel { idle_reset: None, ..info_after(infos, packets, t) }
            } else {
                infos[t]
            },
    )
}

/// When a pause ended the fight that a target's older events belong to.
pub open spec fn reset_of(
    infos: Map<i32, TargetInfoModel>,
    packets: Map<i32, Seq<ParsedDamagePacket>>,
    target: i32,
) -> Option<i64> {
    if packets.contains_key(target) && is_known(infos, packets, target) {
        info_after(infos, packets, target).idle_reset
    } else {
        None
    }
}

/// The events without those of fights that a pause ended.
pub open spec fn packets_after(
    infos: Map<i32, TargetInfoModel>,
    packets: Map<i32, Seq<ParsedDamagePacket>>,
) -> Map<i32, Seq<ParsedDamagePacket>> {
    Map::new(
        |t: i32| packets.contains_key(t),
        |t: i32|
            match reset_of(infos, packets, t) {
                Some(ts) => packet_log::not_before(packets[t], ts),
                None => packets[t],
            },
    )
}

/// The events of the given targets, one target after the other.
pub open spec fn events_against(
    packets: Map<i32, Seq<ParsedDamagePacket>>,
    targets: Seq<i32>,
) -> Seq<ParsedDamagePacket>
    decreases targets.len(),
{
    if targets.len() == 0 {
        Seq::empty()
    } else {
        events_against(packets, targets.drop_last()) + packet_log::events_of(
            packets,
            targets.last(),
        )
    }
}

/// How long the fight that is shown has lasted. A fight that is shown has lasted at least some
/// time.
pub open spec fn shown_time(infos: Map<i32, TargetInfoModel>, tracking: i32) -> i64 {
    if infos.contains_key(tracking) && infos[tracking].battle_time() != 0 {
        infos[tracking].battle_time()
    } else {
        1000
    }
}

/// A calculator after a reading, and what it shows.
#[verifier::ext_equal]
pub struct Reading {
    pub calc: CalcModel,
    pub shown: DpsModel,
}

/// The health of the one boss that is shown, when full; zero where it is not known, where another
/// target is shown, or several are.
pub open spec fn boss_health(tracking: i32, storage: StorageModel, game: GameData) -> i64 {
    if tracking != 0 && storage.mobs.contains_key(tracking) && game.npcs.bosses@.contains(
        storage.mobs[tracking],
    ) {
        names::damage_in(storage.mob_hp, tracking) as i64
    } else {
        0
    }
}

/// What is shown of the target itself.
pub open spec fn headed(
    base: DpsModel,
    choice: target_selection::Choice,
    mode: TargetSelectionMode,
    ps: Seq<ParsedDamagePacket>,
    storage: StorageModel,
    game: GameData,
) -> DpsModel {
    DpsModel {
        target_name: choice.name,
        target_mode: mode.name(),
        target_id: choice.tracking,
        target_max_hp: boss_health(choice.tracking, storage, game),
        target_total_damage: meter::damage_of_all(ps),
        ..base
    }
}

/// The targets that a calculator shows.
pub open spec fn choice_of(
    calc: CalcModel,
    infos: Map<i32, TargetInfoModel>,
    packets: Map<i32, Seq<ParsedDamagePacket>>,
    storage: StorageModel,
    game: GameData,
) -> target_selection::Choice {
    target_selection::chosen(
        calc.mode,
        infos,
        packets,
        storage.summons,
        storage.mobs,
        storage.local_player_id,
        game.npcs,
    )
}

/// A reading of a calculator that knows who the local player is. Where there are no events to
/// show, what was shown last stays, under the heading of the present target.
pub open spec fn reading_for_local(
    calc: CalcModel,
    packets: Map<i32, Seq<ParsedDamagePacket>>,
    storage: StorageModel,
    game: GameData,
) -> Reading {
    let infos = infos_after(calc.infos, packets);
    let choice = choice_of(calc, infos, packets, storage, game);
    let ps = events_against(packets, keys::ascending(choice.ids));
    let followed = CalcModel { infos, current_target: choice.tracking, ..calc };
    if ps.len() == 0 {
        match calc.last_snapshot {
            Some(last) => {
                let shown = headed(last, choice, calc.mode, ps, storage, game);
                Reading { calc: CalcModel { last_snapshot: Some(shown), ..followed }, shown }
            },
            None => Reading {
                calc: followed,
                shown: DpsModel {
                    local_player_id: storage.local_player_id,
                    ..headed(DpsModel::blank(), choice, calc.mode, ps, storage, game)
                },
            },
        }
    } else {
        let metered = meter::metered(
            ps,
            storage.nicknames,
            storage.summons,
            target_selection::local_ids(storage.local_player_id, storage.summons),
            calc.classes,
            game.jobs,
            game.skills,
        );
        let shown = DpsModel {
            players: metered.players,
            battle_time: shown_time(infos, choice.tracking),
            counted_damage: meter::damage_of_all(ps),
            local_player_id: storage.local_player_id,
            ..headed(DpsModel::blank(), choice, calc.mode, ps, storage, game)
        };
        Reading {
            calc: CalcModel {
                classes: metered.classes,
                last_snapshot: if metered.players.dom() == Set::<i32>::empty() {
                    calc.last_snapshot
                } else {
                    Some(shown)
                },
                ..followed
            },
            shown,
        }
    }
}

/// A reading of a calculator.
pub open spec fn reading(
    calc: CalcModel,
    packets: Map<i32, Seq<ParsedDamagePacket>>,
    storage: StorageModel,
    game: GameData,
) -> Reading {
    reading_for_local(calc.for_local(storage.local_player_id), packets, storage, game)
}

/// A target and when a pause ended its last fight.
struct IdleReset {
    target: i32,
    timestamp: i64,
}

/// Counts the events of one target.
fn count_events(info: &mut TargetInfo, ps: &Vec<ParsedDamagePacket>)
    ensures
        final(info)@ == old(info)@.hit_all(ps@),
{
    let ghost start = info@;
    let mut i: usize = 0;
    while i < ps.len()
        invariant
            i <= ps@.len(),
            info@ == start.hit_all(ps@.take(i as int)),
        decreases ps@.len() - i,
    {
        assert(ps@.take(i + 1).drop_last() =~= ps@.take(i as int));
        assert(ps@.take(i + 1).last() == ps@[i as int]);
        info.process_pdp(&ps[i]);
        i += 1;
    }
    assert(ps@.take(i as int) =~= ps@);
}

/// Counts all events, and finds the targets whose last fight a pause ended.
fn update_infos(infos: &mut HashMap<i32, TargetInfo>, log: &PacketLog) -> (r: Vec<IdleReset>)
    ensures
        target_selection::info_models(final(infos)@) == infos_after(
            target_selection::info_models(old(infos)@),
            log@,
        ),
        forall|j: int|
            0 <= j < r@.len() ==> reset_of(
                target_selection::info_models(old(infos)@),
                log@,
                (#[trigger] r@[j]).target,
            ) == Some(r@[j].timestamp),
        forall|t: i32|
            (#[trigger] reset_of(target_selection::info_models(old(infos)@), log@, t)) is Some
                ==> exists|j: int| 0 <= j < r@.len() && (#[trigger] r@[j]).target == t,
        forall|j: int, k: int|
            0 <= j < k < r@.len() ==> (#[trigger] r@[j]).target != (#[trigger] r@[k]).target,
{
    let ghost start = target_selection::info_models(infos@);
    let ghost packets = log@;
    let ids = keys::sorted_keys(&log.by_target);
    assert(log.by_target@.dom() =~= log@.dom());
    let mut r: Vec<IdleReset> = Vec::new();
    let mut i: usize = 0;
    while i < ids.len()
        invariant
            i <= ids@.len(),
            packets == log@,
            keys::is_ascending(ids@),
            ids@.to_set() == packets.dom(),
            forall|t: i32| #[trigger]
                target_selection::info_models(infos@).contains_key(t) <==> if ids@.take(
                    i as int,
                ).contains(t) {
                    is_known(start, packets, t)
                } else {
                    start.contains_key(t)
                },
            forall|t: i32| #[trigger]
                target_selection::info_models(infos@).contains_key(t)
                    ==> target_selection::info_models(infos@)[t] == if ids@.take(
                    i as int,
                ).contains(t) {
                    infos_after(start, packets)[t]
                } else {
                    start[t]
                },
            forall|j: int|
                0 <= j < r@.len() ==> ids@.take(i as int).contains((#[trigger] r@[j]).target)
                    && reset_of(start, packets, r@[j].target) == Some(r@[j].timestamp),
            forall|t: i32|
                (#[trigger] reset_of(start, packets, t)) is Some && ids@.take(i as int).contains(t)
                    ==> exists|j: int| 0 <= j < r@.len() && (#[trigger] r@[j]).target == t,
            forall|j: int, k: int|
                0 <= j < k < r@.len() ==> (#[trigger] r@[j]).target != (#[trigger] r@[k]).target,
        decreases ids@.len() - i,
    {
        let id: i32 = ids[i];
        let ghost held = target_selection::info_models(infos@);
        let ghost now = ids@.take(i + 1);
        let ghost resets = r@;
        proof {
            keys::lemma_one_more(ids@, i as int);
            assert(ids@.to_set().contains(id));
            assert(held.contains_key(id) == start.contains_key(id));
        }
        match log.by_target.get(&id) {
            Some(ps) => {
                assert(ps@ == packet_log::events_of(packets, id));
                let taken = match infos.remove(&id) {
                    Some(info) => {
                        assert(info@ == held[id]);
                        Some(info)
                    },
                    None => if ps.len() > 0 {
                        Some(TargetInfo::new(id, ps[0].timestamp))
                    } else {
                        None
                    },
                };
                assert(target_selection::info_models(infos@) =~= held.remove(id));
                match taken {
                    Some(mut info) => {
                        assert(info@ == info_before(start, id, ps@));
                        count_events(&mut info, ps);
                        assert(info@ == info_after(start, packets, id));
                        match info.take_idle_reset() {
                            Some(timestamp) => {
                                r.push(IdleReset { target: id, timestamp });
                                assert(r@[resets.len() as int].target == id);
                            },
                            None => {},
                        }
                        assert(info@ == infos_after(start, packets)[id]);
                        infos.insert(id, info);
                        assert(target_selection::info_models(infos@) =~= held.insert(id, info@));
                    },
                    None => {},
                }
            },
            None => {},
        }
        proof {
            assert forall|t: i32|
                (#[trigger] reset_of(start, packets, t)) is Some && now.contains(t) implies exists|
                j: int,
            |
                0 <= j < r@.len() && (#[trigger] r@[j]).target == t by {
                if t != id {
                    let j = choose|j: int|
                        0 <= j < resets.len() && (#[trigger] resets[j]).target == t;
                    assert(r@[j].target == t);
                }
            }
            assert forall|j: int| 0 <= j < r@.len() implies now.contains(
                (#[trigger] r@[j]).target,
            ) && reset_of(start, packets, r@[j].target) == Some(r@[j].timestamp) by {
                if j < resets.len() {
                    assert(resets[j] == r@[j]);
                }
            }
            assert forall|j: int, k: int| 0 <= j < k < r@.len() implies (#[trigger] r@[j]).target
                != (#[trigger] r@[k]).target by {
                assert(resets[j] == r@[j]);
                if k < resets.len() {
                    assert(resets[k] == r@[k]);
                }
            }
        }
        i += 1;
    }
    proof {
        assert(ids@.take(i as int) =~= ids@);
        let wanted = infos_after(start, packets);
        let got = target_selection::info_models(infos@);
        assert forall|t: i32| #[trigger]
            got.contains_key(t) == wanted.contains_key(t) && (got.contains_key(t) ==> got[t]
                == wanted[t]) by {
            assert(ids@.to_set().contains(t) == packets.dom().contains(t));
        }
        assert(got =~= wanted);
        assert forall|t: i32|
            (#[trigger] reset_of(start, packets, t)) is Some implies exists|j: int|
            0 <= j < r@.len() && (#[trigger] r@[j]).target == t by {
            assert(ids@.to_set().contains(t));
        }
    }
    r
}

/// Drops the events of fights that a pause ended.
fn prune_ended(
    log: &mut PacketLog,
    resets: &Vec<IdleReset>,
    Ghost(infos): Ghost<Map<i32, TargetInfoModel>>,
)
    requires
        forall|j: int|
            0 <= j < resets@.len() ==> reset_of(infos, old(log)@, (#[trigger] resets@[j]).target)
                == Some(resets@[j].timestamp),
        forall|t: i32|
            (#[trigger] reset_of(infos, old(log)@, t)) is Some ==> exists|j: int|
                0 <= j < resets@.len() && (#[trigger] resets@[j]).target == t,
        forall|j: int, k: int|
            0 <= j < k < resets@.len() ==> (#[trigger] resets@[j]).target != (
            #[trigger] resets@[k]).target,
    ensures
        final(log)@ == packets_after(infos, old(log)@),
{
    let ghost start = log@;
    let ghost wanted = packets_after(infos, start);
    let mut i: usize = 0;
    while i < resets.len()
        invariant
            i <= resets@.len(),
            wanted == packets_after(infos, start),
            forall|j: int|
                0 <= j < resets@.len() ==> reset_of(infos, start, (#[trigger] resets@[j]).target)
                    == Some(resets@[j].timestamp),
            forall|j: int, k: int|
                0 <= j < k < resets@.len() ==> (#[trigger] resets@[j]).target != (
                #[trigger] resets@[k]).target,
            log@.dom() == start.dom(),
            forall|t: i32| #[trigger]
                log@.contains_key(t) ==> log@[t] == wanted[t] || (log@[t] == start[t] && forall|
                    j: int,
                |
                    0 <= j < i ==> (#[trigger] resets@[j]).target != t),
        decreases resets@.len() - i,
    {
        let ghost held = log@;
        let ghost reset = resets@[i as int];
        assert(reset_of(infos, start, reset.target) == Some(reset.timestamp));
        assert(held.contains_key(reset.target));
        log.prune_target_before(resets[i].target, resets[i].timestamp);
        proof {
            assert(log@.dom() =~= start.dom());
            let t = reset.target;
            assert(wanted[t] == packet_log::not_before(start[t], reset.timestamp));
            if held[t] != start[t] {
                assert(held[t] == wanted[t]);
                lemma_not_before_twice(start[t], reset.timestamp);
            }
            assert(log@[t] == wanted[t]);
        }
        i += 1;
    }
    proof {
        assert forall|t: i32| #[trigger] log@.contains_key(t) implies log@[t] == wanted[t] by {
            if log@[t] != wanted[t] {
                assert(reset_of(infos, start, t) is Some);
                let j = choose|j: int| 0 <= j < resets@.len() && (#[trigger] resets@[j]).target == t;
                assert(resets@[j].target != t);
            }
        }
        assert(log@ =~= wanted);
    }
}

proof fn lemma_not_before_twice(ps: Seq<ParsedDamagePacket>, timestamp: i64)
    ensures
        packet_log::not_before(packet_log::not_before(ps, timestamp), timestamp)
            == packet_log::not_before(ps, timestamp),
    decreases ps.len(),
{
    reveal(Seq::filter);
    if ps.len() > 0 {
        lemma_not_before_twice(ps.drop_last(), timestamp);
        let rest = packet_log::not_before(ps.drop_last(), timestamp);
        if ps.last().timestamp >= timestamp {
            assert(rest.push(ps.last()).drop_last() =~= rest);
        }
    }
}

/// The events of the given targets, one target after the other.
fn collect_events<'a>(log: &'a PacketLog, targets: &Vec<i32>) -> (r: Vec<&'a ParsedDamagePacket>)
    ensures
        names::events(r@) == events_against(log@, targets@),
{
    let mut r: Vec<&'a ParsedDamagePacket> = Vec::new();
    let mut i: usize = 0;
    assert(names::events(r@) =~= Seq::empty());
    while i < targets.len()
        invariant
            i <= targets@.len(),
            names::events(r@) == events_against(log@, targets@.take(i as int)),
        decreases targets@.len() - i,
    {
        let ghost before = names::events(r@);
        let ghost of_target = packet_log::events_of(log@, targets@[i as int]);
        assert(targets@.take(i + 1).drop_last() =~= targets@.take(i as int));
        assert(targets@.take(i + 1).last() == targets@[i as int]);
        match log.by_target.get(&targets[i]) {
            Some(ps) => {
                assert(ps@ == of_target);
                let mut k: usize = 0;
                assert(before + of_target.take(0) =~= before);
                while k < ps.len()
                    invariant
                        k <= ps@.len(),
                        ps@ == of_target,
                        names::events(r@) == before + of_target.take(k as int),
                    decreases ps@.len() - k,
                {
                    let ghost held = names::events(r@);
                    r.push(&ps[k]);
                    assert(names::events(r@) =~= held.push(ps@[k as int]));
                    assert(of_target.take(k + 1) =~= of_target.take(k as int).push(
                        of_target[k as int],
                    ));
                    assert(held.push(ps@[k as int]) =~= before + of_target.take(k + 1));
                    k += 1;
                }
                assert(of_target.take(k as int) =~= of_target);
            },
            None => {
                assert(before + of_target =~= before);
            },
        }
        i += 1;
    }
    assert(targets@.take(i as int) =~= targets@);
    r
}

/// The fights of a replay, and the places of those to keep, the one with the most damage first.
#[derive(Debug)]
pub struct ReplayFights {
    pub records: Vec<FightRecord>,
    pub best: Vec<usize>,
}

/// Turns damage events into what the meter shows.
pub struct DpsCalculator {
    target_info_map: HashMap<i32, TargetInfo>,
    current_target: i32,
    last_dps_snapshot: Option<DpsData>,
    target_selection_mode: TargetSelectionMode,
    last_local_hit_time: i64,
    last_known_local_id: Option<i64>,
    all_targets_window_ms: i64,
    nickname_job_cache: JobCache,
    /// The targets whose fights have been kept for good.
    saved_boss_targets: HashSet<i32>,
}

impl View for DpsCalculator {
    type V = CalcModel;

    closed spec fn view(&self) -> CalcModel {
        CalcModel {
            infos: target_selection::info_models(self.target_info_map@),
            current_target: self.current_target,
            last_snapshot: match self.last_dps_snapshot {
                Some(s) => Some(s@),
                None => None,
            },
            mode: self.target_selection_mode,
            last_local_hit_time: self.last_local_hit_time,
            last_known_local_id: self.last_known_local_id,
            all_targets_window_ms: self.all_targets_window_ms,
            classes: self.nickname_job_cache@,
            saved: self.saved_boss_targets@,
        }
    }
}

impl DpsCalculator {
    /// A calculator that has seen nothing.
    pub fn new() -> (r: Self)
        ensures
            r@ == CalcModel::fresh(),
    {
        let r = DpsCalculator {
            target_info_map: HashMap::new(),
            current_target: 0,
            last_dps_snapshot: None,
            target_selection_mode: TargetSelectionMode::LastHitByMe,
            last_local_hit_time: -1,
            last_known_local_id: None,
            all_targets_window_ms: 120_000,
            nickname_job_cache: JobCache::new(),
            saved_boss_targets: HashSet::new(),
        };
        assert(r@ =~= CalcModel::fresh());
        r
    }

    /// Sets how the targets to show are chosen.
    pub fn set_target_selection_mode(&mut self, id: &str)
        ensures
            final(self)@ == (CalcModel { mode: TargetSelectionMode::named(id@), ..old(self)@ }),
    {
        self.target_selection_mode = TargetSelectionMode::from_id(id);
    }

    /// Sets the window over which all targets are shown.
    pub fn set_all_targets_window_ms(&mut self, ms: i64)
        ensures
            final(self)@ == (CalcModel {
                all_targets_window_ms: clamped_window(ms),
                ..old(self)@
            }),
    {
        self.all_targets_window_ms = if ms < MIN_WINDOW_MS {
            MIN_WINDOW_MS
        } else if ms > MAX_WINDOW_MS {
            MAX_WINDOW_MS
        } else {
            ms
        };
    }

    /// Forgets what was known of targets.
    fn forget_targets(&mut self)
        ensures
            final(self)@ == old(self)@.restarted(),
    {
        self.last_local_hit_time = -1;
        self.current_target = 0;
        self.target_info_map.clear();
        self.last_dps_snapshot = None;
        self.saved_boss_targets.clear();
        assert(self@ =~= old(self)@.restarted());
    }

    /// Starts all over, without the damage so far where `clear_damage` is set.
    pub fn restart_target_selection(
        &mut self,
        storage: &mut DataStorage,
        log: &mut PacketLog,
        clear_damage: bool,
    )
        ensures
            final(self)@ == old(self)@.restarted(),
            final(storage)@ == (StorageModel {
                current_target: 0,
                ..if clear_damage {
                    old(storage)@.flushed()
                } else {
                    old(storage)@
                }
            }),
            final(log)@ == (if clear_damage {
                Map::<i32, Seq<ParsedDamagePacket>>::empty()
            } else {
                old(log)@
            }),
    {
        self.forget_targets();
        if clear_damage {
            storage.flush();
            log.clear();
        }
        storage.set_current_target(0);
    }

    /// What is shown of the given events, which have been counted already.
    fn show(
        &mut self,
        log: &PacketLog,
        storage: &mut DataStorage,
        game: &GameData,
        Ghost(before): Ghost<CalcModel>,
    ) -> (r: DpsData)
        requires
            old(self)@ == (CalcModel { infos: infos_after(before.infos, log@), ..before }),
        ensures
            ({
                let wanted = reading_for_local(before, log@, old(storage)@, *game);
                &&& final(self)@ == wanted.calc
                &&& r@ == wanted.shown
                &&& final(storage)@ == (StorageModel {
                    current_target: wanted.calc.current_target,
                    ..old(storage)@
                })
            }),
    {
        let ghost held = storage@;
        let ghost infos = infos_after(before.infos, log@);
        let ghost wanted = reading_for_local(before, log@, held, *game);
        let local_player = storage.local_player_id();
        let nicknames = storage.get_nicknames();
        let summons = storage.get_summon_data();
        let mobs = storage.get_mob_data();
        let mob_hp = storage.get_mob_hp_data();
        let choice = target_selection::decide_target(
            self.target_selection_mode,
            &self.target_info_map,
            &log.by_target,
            &summons,
            &mobs,
            local_player,
            &game.npcs,
        );
        assert(choice@ == choice_of(before, infos, log@, held, *game));
        let tracking: i32 = choice.tracking;
        self.current_target = tracking;
        storage.set_current_target(tracking);
        let target_ids = keys::sorted_elements(&choice.ids);
        let pdps = collect_events(log, &target_ids);
        let ghost ps = names::events(pdps@);
        assert(ps == events_against(log@, keys::ascending(choice@.ids)));
        let mut dps_data = DpsData::new();
        dps_data.local_player_id = local_player;
        dps_data.target_name = choice.name;
        dps_data.target_mode = self.target_selection_mode.id().to_owned();
        dps_data.target_id = tracking;
        let is_boss = match mobs.get(&tracking) {
            Some(code) => tracking != 0 && game.npcs.is_boss(*code),
            None => false,
        };
        dps_data.target_max_hp = if is_boss {
            match mob_hp.get(&tracking) {
                Some(hp) => *hp as i64,
                None => 0,
            }
        } else {
            0
        };
        dps_data.target_total_damage = meter::total_damage(&pdps);
        let ghost heading = DpsModel {
            local_player_id: held.local_player_id,
            ..headed(DpsModel::blank(), choice@, before.mode, ps, held, *game)
        };
        assert(dps_data@ =~= heading);
        if pdps.len() == 0 {
            let last = self.last_dps_snapshot.take();
            match last {
                Some(mut snapshot) => {
                    let ghost kept = snapshot@;
                    snapshot.target_name = dps_data.target_name;
                    snapshot.target_mode = dps_data.target_mode;
                    snapshot.target_id = dps_data.target_id;
                    snapshot.target_max_hp = dps_data.target_max_hp;
                    snapshot.target_total_damage = dps_data.target_total_damage;
                    assert(snapshot@ =~= headed(kept, choice@, before.mode, ps, held, *game));
                    let shown = snapshot.clone();
                    self.last_dps_snapshot = Some(snapshot);
                    assert(self@ =~= wanted.calc);
                    return shown;
                },
                None => {
                    assert(self@ =~= wanted.calc);
                    return dps_data;
                },
            }
        }
        let battle_time: i64 = match self.target_info_map.get(&tracking) {
            Some(info) => {
                assert(info@ == infos[tracking]);
                let lasted: i64 = info.battle_time();
                if lasted == 0 {
                    1000
                } else {
                    lasted
                }
            },
            None => 1000,
        };
        assert(battle_time == shown_time(infos, tracking));
        let local_ids = target_selection::resolve_local_ids(local_player, &summons);
        assert(meter::id_set(local_ids) == target_selection::local_ids(
            held.local_player_id,
            held.summons,
        ));
        let players = meter::meter_events(
            &pdps,
            &nicknames,
            &summons,
            &local_ids,
            &game.jobs,
            &game.skills,
            &mut self.nickname_job_cache,
        );
        let is_empty = players.is_empty();
        let ghost shown = dps_data::personal_models(players@);
        assert(shown.dom() =~= players@.dom());
        dps_data.map = players;
        dps_data.battle_time = battle_time;
        dps_data.counted_damage = dps_data.target_total_damage;
        assert(dps_data@ =~= wanted.shown);
        if !is_empty {
            self.last_dps_snapshot = Some(dps_data.clone());
        }
        assert(self@ =~= wanted.calc);
        dps_data
    }

    /// Takes a reading. The events of fights that a pause ended are dropped from the log.
    pub fn get_dps(
        &mut self,
        storage: &mut DataStorage,
        log: &mut PacketLog,
        game: &GameData,
    ) -> (r: DpsData)
        ensures
            ({
                let known = old(self)@.for_local(old(storage)@.local_player_id);
                let wanted = reading(old(self)@, old(log)@, old(storage)@, *game);
                &&& final(self)@ == wanted.calc
                &&& r@ == wanted.shown
                &&& final(storage)@ == (StorageModel {
                    current_target: wanted.calc.current_target,
                    ..old(storage)@
                })
                &&& final(log)@ == packets_after(known.infos, old(log)@)
            }),
            old(self)@.keeps_its_player() ==> final(self)@.keeps_its_player()
                && r@.local_player_id == old(storage)@.local_player_id,
    {
        let ghost start = self@;
        let ghost held = storage@;
        let local = storage.local_player_id();
        let same_local = match (local, self.last_known_local_id) {
            (Some(a), Some(b)) => a == b,
            (None, None) => true,
            _ => false,
        };
        if !same_local {
            self.last_known_local_id = local;
            self.restart_target_selection(storage, log, false);
        }
        let ghost known = self@;
        assert(known =~= start.for_local(held.local_player_id));
        let resets = update_infos(&mut self.target_info_map, log);
        assert(self@ =~= (CalcModel { infos: infos_after(known.infos, log@), ..known }));
        let shown = self.show(log, storage, game, Ghost(known));
        prune_ended(log, &resets, Ghost(known.infos));
        proof {
            let same = StorageModel { current_target: 0, ..held };
            assert(reading_for_local(known, old(log)@, same, *game) == reading_for_local(
                known,
                old(log)@,
                held,
                *game,
            ));
        }
        shown
    }

    /// Makes records of the boss fights to keep now: those that have ended, and those that have
    /// gone on for long. The nicknames of all but the local player go through `obscure`.
    pub fn snapshot_boss_fights<F: Fn(&str) -> String>(
        &mut self,
        now_ms: i64,
        log: &PacketLog,
        storage: &DataStorage,
        game: &GameData,
        pings: &PingTracker,
        app_version: &str,
        obscure: &F,
    ) -> (r: Vec<FightRecord>)
        requires
            fight_record::goes_by_text(*obscure),
        ensures
            fight_record::record_models(r@) == old(self)@.fights_to_keep(
                now_ms,
                false,
                (Scene {
                    packets: log@,
                    storage: storage@,
                    game: *game,
                    pings: pings.samples@,
                    app_version: app_version@,
                    veil: fight_record::veil_of(*obscure),
                }),
            ),
            boss_fights::all_are_veiled(fight_record::record_models(r@), storage@, *obscure),
            final(self)@ == old(self)@.after_keeping(now_ms, false, storage@.mobs, *game),
    {
        self.snapshot_boss_fights_inner(
            now_ms,
            false,
            log,
            storage,
            game,
            pings,
            app_version,
            obscure,
        )
    }

    /// Makes records of the boss fights to keep, whether or not they have ended. The nicknames of
    /// all but the local player go through `obscure`.
    pub fn snapshot_boss_fights_force<F: Fn(&str) -> String>(
        &mut self,
        now_ms: i64,
        log: &PacketLog,
        storage: &DataStorage,
        game: &GameData,
        pings: &PingTracker,
        app_version: &str,
        obscure: &F,
    ) -> (r: Vec<FightRecord>)
        requires
            fight_record::goes_by_text(*obscure),
        ensures
            fight_record::record_models(r@) == old(self)@.fights_to_keep(
                now_ms,
                true,
                (Scene {
                    packets: log@,
                    storage: storage@,
                    game: *game,
                    pings: pings.samples@,
                    app_version: app_version@,
                    veil: fight_record::veil_of(*obscure),
                }),
            ),
            boss_fights::all_are_veiled(fight_record::record_models(r@), storage@, *obscure),
            final(self)@ == old(self)@.after_keeping(now_ms, true, storage@.mobs, *game),
    {
        self.snapshot_boss_fights_inner(
            now_ms,
            true,
            log,
            storage,
            game,
            pings,
            app_version,
            obscure,
        )
    }

    fn snapshot_boss_fights_inner<F: Fn(&str) -> String>(
        &mut self,
        now_ms: i64,
        force: bool,
        log: &PacketLog,
        storage: &DataStorage,
        game: &GameData,
        pings: &PingTracker,
        app_version: &str,
        obscure: &F,
    ) -> (r: Vec<FightRecord>)
        requires
            fight_record::goes_by_text(*obscure),
        ensures
            fight_record::record_models(r@) == old(self)@.fights_to_keep(
                now_ms,
                force,
                (Scene {
                    packets: log@,
                    storage: storage@,
                    game: *game,
                    pings: pings.samples@,
                    app_version: app_version@,
                    veil: fight_record::veil_of(*obscure),
                }),
            ),
            boss_fights::all_are_veiled(fight_record::record_models(r@), storage@, *obscure),
            final(self)@ == old(self)@.after_keeping(now_ms, force, storage@.mobs, *game),
    {
        boss_fights::snapshot_fights(
            &self.target_info_map,
            &mut self.saved_boss_targets,
            now_ms,
            force,
            log,
            storage,
            game,
            pings,
            app_version,
            obscure,
        )
    }

    /// Notes that the fights against all targets known so far have been kept for good.
    pub fn mark_all_targets_saved(&mut self)
        ensures
            final(self)@ == (CalcModel {
                saved: old(self)@.saved.union(old(self)@.infos.dom()),
                ..old(self)@
            }),
    {
        let ghost before = self@;
        let ids = keys::sorted_keys(&self.target_info_map);
        let mut i: usize = 0;
        while i < ids.len()
            invariant
                i <= ids@.len(),
                self@ == (CalcModel { saved: self@.saved, ..before }),
                forall|x: i32| #[trigger]
                    self@.saved.contains(x) <==> before.saved.contains(x) || ids@.take(
                        i as int,
                    ).contains(x),
            decreases ids@.len() - i,
        {
            self.saved_boss_targets.insert(ids[i]);
            proof {
                keys::lemma_one_more(ids@, i as int);
            }
            i += 1;
        }
        proof {
            assert(ids@.take(i as int) =~= ids@);
            let wanted = before.saved.union(before.infos.dom());
            assert forall|x: i32| self@.saved.contains(x) <==> wanted.contains(x) by {
                assert(ids@.to_set().contains(x) == before.infos.dom().contains(x));
            }
            assert(self@.saved =~= wanted);
        }
    }

    /// Makes records of the fights of a replay, picks those to keep, and notes that none of them is
    /// to be kept again. The nicknames of all but the local player go through `obscure`.
    pub fn replay_fights<F: Fn(&str) -> String>(
        &mut self,
        now_ms: i64,
        log: &PacketLog,
        storage: &DataStorage,
        game: &GameData,
        pings: &PingTracker,
        app_version: &str,
        obscure: &F,
    ) -> (r: ReplayFights)
        requires
            fight_record::goes_by_text(*obscure),
        ensures
            fight_record::record_models(r.records@) == old(self)@.fights_to_keep(
                now_ms,
                true,
                (Scene {
                    packets: log@,
                    storage: storage@,
                    game: *game,
                    pings: pings.samples@,
                    app_version: app_version@,
                    veil: fight_record::veil_of(*obscure),
                }),
            ),
            boss_fights::all_are_veiled(
                fight_record::record_models(r.records@),
                storage@,
                *obscure,
            ),
            boss_fights::are_best(r.records@, r.best@),
            final(self)@ == (CalcModel {
                saved: old(self)@.saved.union(old(self)@.infos.dom()),
                ..old(self)@
            }),
    {
        let ghost before = self@;
        let records = self.snapshot_boss_fights_force(
            now_ms,
            log,
            storage,
            game,
            pings,
            app_version,
            obscure,
        );
        let best = boss_fights::best_fights(&records);
        self.mark_all_targets_saved();
        assert(self@.saved =~= before.saved.union(before.infos.dom()));
        ReplayFights { records, best }
    }

    /// The targets and the players to choose from.
    pub fn get_details_context(
        &self,
        log: &PacketLog,
        storage: &DataStorage,
        game: &GameData,
    ) -> (r: DetailsContext)
        ensures
            r@ == overview::context_of(
                self@.current_target,
                log@,
                self@.infos,
                storage@,
                *game,
            ),
    {
        overview::details_context(
            self.current_target,
            log,
            &self.target_info_map,
            storage,
            game,
        )
    }

    /// A fight in detail, of all players or of the given ones.
    pub fn get_target_details(
        &self,
        target_id: i32,
        actor_ids: Option<&Vec<i32>>,
        log: &PacketLog,
        storage: &DataStorage,
        game: &GameData,
        pings: &PingTracker,
    ) -> (r: TargetDetailsResponse)
        ensures
            r@ == target_details::details_of(
                target_id,
                target_details::id_list(actor_ids),
                log@,
                storage@,
                *game,
                pings.samples@,
            ),
    {
        target_details::target_details(target_id, actor_ids, log, storage, game, pings)
    }
}

} // verus!
