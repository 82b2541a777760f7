use dps_meter::combat::data_storage::DataStorage;
use dps_meter::combat::dps_calculator::DpsCalculator;
use dps_meter::combat::game_data::GameData;
use dps_meter::combat::job_cache::JobCache;
use dps_meter::combat::names::{build_nickname_canonical_map, resolve_nickname};
use dps_meter::combat::packet_log::{record_damage, PacketLog};
use dps_meter::combat::target_selection::{is_train_code, TargetSelectionMode};
use dps_meter::entity::damage_packet::ParsedDamagePacket;
use dps_meter::entity::dps_data::DpsData;
use dps_meter::entity::job_class::{JobClass, JobEntry, JobTable, SkillRange};
use dps_meter::entity::personal_data::PersonalData;
use dps_meter::entity::target_info::TargetInfo;
use dps_meter::i18n::lookup::{family_code, NpcLookup, SkillLookup};
use std::collections::{HashMap, HashSet};

fn game() -> GameData {
    let entry = |prefix: i32, name: &str, loose: i32| JobEntry {
        job: JobClass { prefix },
        name: name.to_string(),
        skills: vec![SkillRange { first: prefix * 1_000_000, last: prefix * 1_000_000 + 999_999 }],
        loose_skills: vec![
            SkillRange { first: prefix * 1_000_000, last: prefix * 1_000_000 + 999_999 },
            SkillRange { first: loose, last: loose },
        ],
    };
    let mut names = HashMap::new();
    names.insert(11_010_000, "Cleave".to_string());
    names.insert(11_010_007, "Cleave".to_string());
    names.insert(11_020_003, "Stomp".to_string());
    let mut shown_names = HashMap::new();
    shown_names.insert(11_020_003, "Mighty Stomp".to_string());
    let mut npc_names = HashMap::new();
    npc_names.insert(501, "Old Dragon".to_string());
    npc_names.insert(502, "Rat".to_string());
    GameData {
        jobs: JobTable {
            entries: vec![entry(11, "Gladiator", 900), entry(15, "Spiritmaster", 901)],
        },
        skills: SkillLookup { names, shown_names },
        npcs: NpcLookup { names: npc_names, bosses: HashSet::from([501]) },
    }
}

fn event(id: i64, timestamp: i64, actor_id: i32, target_id: i32, skill_code: i32, damage: i32) -> ParsedDamagePacket {
    ParsedDamagePacket {
        id,
        timestamp,
        actor_id,
        target_id,
        skill_code,
        damage,
        total_damage: damage,
        is_dot: false,
        is_crit: false,
        specials: Vec::new(),
        multi_hit_count: 0,
        multi_hit_damage: 0,
        heal_amount: 0,
        spec_flags: [false; 5],
    }
}

struct World {
    calc: DpsCalculator,
    storage: DataStorage,
    log: PacketLog,
    game: GameData,
}

impl World {
    fn new() -> Self {
        World {
            calc: DpsCalculator::new(),
            storage: DataStorage::new(),
            log: PacketLog::new(),
            game: game(),
        }
    }

    fn hit(&mut self, p: ParsedDamagePacket) {
        record_damage(&mut self.storage, &mut self.log, p, &self.game.jobs);
    }

    fn read(&mut self) -> DpsData {
        self.calc.get_dps(&mut self.storage, &mut self.log, &self.game)
    }
}

#[test]
fn modes_are_read_back_from_their_names() {
    let names = ["bossTargets", "mostDamage", "mostRecent", "lastHitByMe", "allTargets", "trainTargets"];
    for name in names {
        assert_eq!(TargetSelectionMode::from_id(name).id(), name);
    }
    assert_eq!(TargetSelectionMode::from_id("nonsense"), TargetSelectionMode::LastHitByMe);
    assert!(is_train_code(2_300_229));
    assert!(is_train_code(2_701_376));
    assert!(!is_train_code(2_300_230));
}

#[test]
fn a_new_meter_is_blank() {
    let d = DpsData::new();
    assert!(d.map.is_empty());
    assert_eq!(d.target_name, "");
    assert_eq!(d.target_mode, "bossTargets");
    assert_eq!((d.target_id, d.battle_time, d.local_player_id), (0, 0, None));
    assert_eq!((d.target_max_hp, d.target_total_damage, d.target_current_hp), (0, 0, -1));
}

#[test]
fn a_reading_adds_up_players() {
    let mut w = World::new();
    w.storage.append_mob(100, 501);
    w.storage.append_mob_hp(100, 9_000);
    w.storage.append_nickname(5, "Tolan");
    w.hit(event(1, 1_000, 5, 100, 11_010_007, 70));
    w.hit(event(2, 3_500, 5, 100, 11_020_003, 30));
    w.hit(event(3, 3_000, 6, 100, 15_000_001, 50));
    let d = w.read();
    assert_eq!(d.target_id, 100);
    assert_eq!(d.target_name, "Old Dragon");
    assert_eq!(d.target_mode, "lastHitByMe");
    assert_eq!(d.battle_time, 2_500);
    assert_eq!((d.target_max_hp, d.target_total_damage, d.target_current_hp), (9_000, 150, -1));
    assert_eq!(d.counted_damage, 150);
    assert_eq!(d.map.len(), 2);
    let tolan = &d.map[&5];
    assert_eq!((tolan.nickname.as_str(), tolan.job.as_str(), tolan.amount), ("Tolan", "Gladiator", 100));
    let hits: Vec<(&str, i32)> =
        tolan.hits.iter().map(|h| (h.skill_name.as_str(), h.damage)).collect();
    assert_eq!(hits, vec![("Cleave", 70), ("Mighty Stomp", 30)]);
    assert_eq!(d.map[&6].nickname, "6");
    assert_eq!(w.storage.current_target(), 100);
}

#[test]
fn reading_twice_shows_the_same() {
    let mut w = World::new();
    w.hit(event(1, 1_000, 5, 100, 11_010_007, 70));
    w.hit(event(2, 3_500, 5, 100, 11_010_007, 30));
    let a = w.read();
    let b = w.read();
    assert_eq!(a.battle_time, b.battle_time);
    assert_eq!(a.map[&5].amount, b.map[&5].amount);
    assert_eq!(a.target_total_damage, b.target_total_damage);
    assert_eq!(w.log.by_target[&100].len(), 2);
}

#[test]
fn a_single_event_lasts_a_second() {
    let mut w = World::new();
    w.hit(event(1, 1_000, 5, 100, 11_010_007, 70));
    assert_eq!(w.read().battle_time, 1_000);
}

#[test]
fn unlinked_summons_are_counted_for_the_player_behind_them() {
    let mut w = World::new();
    w.storage.append_nickname(5, "Tolan");
    w.storage.append_nickname(6, "Mira");
    w.hit(event(1, 1_000, 5, 100, 11_010_007, 70));
    w.hit(event(2, 1_100, 6, 100, 15_000_001, 20));
    w.hit(event(3, 1_200, 77, 100, 15_000_009, 5));
    let d = w.read();
    assert_eq!(d.map.len(), 2);
    assert_eq!(d.map[&6].amount, 25);
    assert_eq!(d.map[&6].hits.len(), 2);
    w.storage.append_nickname(8, "Quell");
    w.hit(event(4, 1_300, 8, 100, 15_000_001, 1));
    let d = w.read();
    assert_eq!(d.map.len(), 4);
    assert_eq!(d.map[&77].amount, 5);
    assert_eq!(d.map.values().map(|p| p.amount).sum::<i64>(), d.counted_damage);
}

#[test]
fn linked_summons_are_counted_for_their_owner() {
    let mut w = World::new();
    w.storage.append_nickname(6, "Mira");
    w.storage.register_confirmed_summon_by_id(60, 6);
    w.hit(event(1, 1_100, 6, 100, 15_000_001, 20));
    w.hit(event(2, 1_200, 60, 100, 901, 5));
    let d = w.read();
    assert_eq!(d.map.len(), 1);
    assert_eq!(d.map[&6].amount, 25);
}

#[test]
fn only_the_local_player_is_shown_without_a_class() {
    let mut w = World::new();
    w.hit(event(1, 1_000, 5, 100, 55, 70));
    w.hit(event(2, 1_000, 6, 100, 55, 70));
    w.storage.set_local_player_id(Some(6));
    let d = w.read();
    assert_eq!(d.map.len(), 1);
    assert_eq!(d.map[&6].job, "Unknown");
    assert_eq!(d.local_player_id, Some(6));
    assert_eq!(d.counted_damage, 140);
}

#[test]
fn a_class_is_remembered_by_nickname() {
    let mut w = World::new();
    w.storage.append_nickname(5, "Tolan");
    w.hit(event(1, 1_000, 5, 100, 11_010_007, 70));
    assert_eq!(w.read().map[&5].job, "Gladiator");
    w.calc.restart_target_selection(&mut w.storage, &mut w.log, true);
    w.storage.append_nickname(9, " TOLAN ");
    w.hit(event(2, 2_000, 9, 101, 55, 70));
    assert_eq!(w.read().map[&9].job, "Gladiator");
}

#[test]
fn the_class_memory_ignores_case_and_refuses_numbers() {
    let mut cache = JobCache::new();
    cache.cache_job("  ToLaN ", "Gladiator");
    assert_eq!(cache.cached_job("tolan"), Some("Gladiator".to_string()));
    assert_eq!(cache.cached_job("Mira"), None);
    cache.cache_job("1234", "Gladiator");
    assert_eq!(cache.cached_job("1234"), None);
    cache.cache_job("", "Gladiator");
    assert_eq!(cache.cached_job(""), None);
    cache.cache_job("Mira", "Unknown");
    assert_eq!(cache.cached_job("Mira"), None);
    cache.cache_job("Mira", "");
    assert_eq!(cache.cached_job("Mira"), None);
    cache.remember_under_key("quell".to_string(), "Cleric");
    assert_eq!(cache.job_under_key("quell"), Some("Cleric".to_string()));
    assert_eq!(cache.cached_job("QUELL"), Some("Cleric".to_string()));
    assert_eq!(cache.job_under_key("QUELL"), None);
    cache.cache_job("ÄRA", "Cleric");
    assert_eq!(cache.cached_job("ära"), Some("Cleric".to_string()));
}

#[test]
fn the_most_damaged_target_is_chosen() {
    let mut w = World::new();
    w.calc.set_target_selection_mode("mostDamage");
    w.hit(event(1, 1_000, 5, 100, 11_010_007, 70));
    w.hit(event(2, 2_000, 5, 101, 11_010_007, 60));
    assert_eq!(w.read().target_id, 100);
    w.calc.set_target_selection_mode("mostRecent");
    assert_eq!(w.read().target_id, 101);
}

#[test]
fn bosses_come_first() {
    let mut w = World::new();
    w.calc.set_target_selection_mode("bossTargets");
    w.storage.append_mob(100, 502);
    w.hit(event(1, 1_000, 5, 100, 11_010_007, 70));
    assert_eq!(w.read().target_id, 100);
    w.storage.append_mob(101, 501);
    w.hit(event(2, 1_000, 5, 101, 11_010_007, 1));
    let d = w.read();
    assert_eq!((d.target_id, d.target_name.as_str()), (101, "Old Dragon"));
}

#[test]
fn all_targets_and_training_dummies_are_shown_together() {
    let mut w = World::new();
    w.storage.append_mob(101, 2_400_032);
    w.storage.append_mob_hp(101, 10);
    w.hit(event(1, 1_000, 5, 100, 11_010_007, 70));
    w.hit(event(2, 1_000, 5, 101, 11_010_007, 1));
    w.calc.set_target_selection_mode("allTargets");
    let d = w.read();
    assert_eq!((d.target_id, d.target_name.as_str(), d.target_max_hp), (0, "All Targets", 0));
    assert_eq!(d.map[&5].amount, 71);
    assert_eq!(d.battle_time, 1_000);
    w.calc.set_target_selection_mode("trainTargets");
    let d = w.read();
    assert_eq!((d.target_id, d.target_name.as_str()), (0, "Train"));
    assert_eq!(d.map[&5].amount, 1);
}

#[test]
fn the_local_players_last_target_is_chosen() {
    let mut w = World::new();
    w.storage.set_local_player_id(Some(5));
    w.hit(event(1, 1_000, 6, 100, 11_010_007, 70));
    assert_eq!(w.read().target_id, 100);
    w.storage.register_confirmed_summon_by_id(50, 5);
    w.hit(event(2, 2_000, 50, 101, 901, 1));
    w.hit(event(3, 3_000, 6, 100, 11_010_007, 70));
    assert_eq!(w.read().target_id, 101);
    w.hit(event(4, 4_000, 5, 102, 11_010_007, 1));
    assert_eq!(w.read().target_id, 102);
}

#[test]
fn another_local_player_starts_all_over() {
    let mut w = World::new();
    w.hit(event(1, 1_000, 5, 100, 11_010_007, 70));
    assert_eq!(w.read().map.len(), 1);
    w.log.clear();
    assert_eq!(w.read().map.len(), 1);
    w.storage.set_local_player_id(Some(9));
    assert!(w.read().map.is_empty());
}

#[test]
fn what_was_shown_last_stays_until_there_is_more() {
    let mut w = World::new();
    w.storage.append_mob(100, 501);
    w.hit(event(1, 1_000, 5, 100, 11_010_007, 70));
    w.read();
    w.log.clear();
    w.calc.set_target_selection_mode("trainTargets");
    let d = w.read();
    assert_eq!(d.map[&5].amount, 70);
    assert_eq!((d.target_id, d.target_name.as_str(), d.target_mode.as_str()), (0, "Train", "trainTargets"));
    assert_eq!(d.target_total_damage, 0);
    assert_eq!(d.counted_damage, 70);
}

#[test]
fn a_restart_without_the_damage_shows_nothing() {
    let mut w = World::new();
    w.hit(event(1, 1_000, 5, 100, 11_010_007, 70));
    w.read();
    w.calc.restart_target_selection(&mut w.storage, &mut w.log, true);
    let d = w.read();
    assert!(d.map.is_empty());
    assert_eq!((d.target_id, d.target_total_damage, d.battle_time), (0, 0, 0));
    w.hit(event(2, 1_000, 5, 100, 11_010_007, 70));
    w.calc.restart_target_selection(&mut w.storage, &mut w.log, false);
    assert_eq!(w.read().map[&5].amount, 70);
}

#[test]
fn a_pause_drops_the_events_before_it() {
    let mut w = World::new();
    w.hit(event(1, 1_000, 5, 100, 11_010_007, 70));
    w.hit(event(2, 40_000, 5, 100, 11_010_007, 7));
    w.hit(event(3, 41_000, 5, 100, 11_010_007, 3));
    let d = w.read();
    assert_eq!(d.battle_time, 1_000);
    assert_eq!(d.map[&5].amount, 80);
    let d = w.read();
    assert_eq!(d.map[&5].amount, 10);
    assert_eq!(w.log.by_target[&100].len(), 2);
}

#[test]
fn a_target_counts_each_event_once() {
    let mut info = TargetInfo::new(100, 1_000);
    let p = event(1, 1_000, 5, 100, 1, 70);
    info.process_pdp(&p);
    info.process_pdp(&p);
    assert_eq!(info.damaged_amount, 70);
    info.process_pdp(&event(2, 31_000, 5, 100, 1, 5));
    assert_eq!((info.damaged_amount, info.battle_time(), info.take_idle_reset()), (75, 30_000, None));
    info.process_pdp(&event(3, 61_001, 5, 100, 1, 5));
    assert_eq!((info.damaged_amount, info.battle_time()), (5, 0));
    assert_eq!(info.last_damage_time(), 61_001);
    assert_eq!(info.take_idle_reset(), Some(61_001));
    assert_eq!(info.take_idle_reset(), None);
}

#[test]
fn a_players_damage_is_that_of_its_hits() {
    let mut a = PersonalData::new("Tolan".to_string());
    a.process_pdp(&event(1, 1, 5, 100, 1, 70), "x");
    let mut b = PersonalData::with_job("Mira".to_string(), "Cleric".to_string());
    b.process_pdp(&event(2, 1, 5, 100, 1, 30), "y");
    a.merge_from(&b);
    assert_eq!((a.amount, a.nickname.as_str(), a.job.as_str()), (100, "Tolan", ""));
    assert_eq!(a.hits.iter().map(|h| h.damage as i64).sum::<i64>(), a.amount);
}

#[test]
fn the_id_that_has_the_nickname_itself_stands_for_it() {
    let mut nicknames = HashMap::new();
    let mut summons = HashMap::new();
    nicknames.insert(6, "Mira".to_string());
    summons.insert(60, 6);
    assert_eq!(resolve_nickname(6, &nicknames, &summons), "Mira");
    assert_eq!(resolve_nickname(60, &nicknames, &summons), "Mira");
    assert_eq!(resolve_nickname(7, &nicknames, &summons), "7");
    assert_eq!(resolve_nickname(-7, &nicknames, &summons), "-7");
    nicknames.insert(8, "Mira".to_string());
    let a = event(1, 1, 60, 100, 1, 5);
    let b = event(2, 1, 8, 100, 1, 50);
    let c = event(3, 1, 9, 100, 1, 50);
    let d = event(4, 1, -3, 100, 1, 50);
    let map = build_nickname_canonical_map(&vec![&a, &b, &c, &d], &summons, &nicknames);
    assert_eq!(map.get("Mira"), Some(&8));
    assert_eq!(map.get("9"), Some(&9));
    assert_eq!(map.get("-3"), None);
}

#[test]
fn skills_without_a_name_of_their_own_count_with_their_family() {
    let g = game();
    assert_eq!(family_code(11_010_007), 11_010_000);
    assert_eq!(family_code(-11_010_007), -11_010_000);
    assert_eq!(g.skills.counted_code(11_010_007), 11_010_000);
    assert_eq!(g.skills.counted_code(11_010_009), 11_010_000);
    assert_eq!(g.skills.counted_code(11_020_003), 11_020_003);
    assert_eq!(g.skills.lookup_skill_name(11_020_003), "Mighty Stomp");
    assert_eq!(g.skills.get_skill_name(11_020_003), "Stomp");
    assert_eq!(g.skills.get_skill_name(5), "");
    assert_eq!(g.npcs.get_npc_name(502), "Rat");
    assert!(g.npcs.is_boss(501) && !g.npcs.is_boss(502));
    assert_eq!(g.jobs.convert_from_skill(900), None);
    assert_eq!(g.jobs.convert_from_skill_loose(900), Some(JobClass { prefix: 11 }));
    assert_eq!(g.jobs.class_prefix_from_skill(15_000_000), 15);
    assert_eq!(g.jobs.class_name_from_skill(3), "");
}

#[test]
fn a_nickname_is_shown_in_one_row() {
    let mut w = World::new();
    w.storage.append_nickname(5, "Tolan");
    w.hit(event(1, 1_000, 5, 100, 11_010_007, 70));
    w.storage.append_nickname(8, "Tolan");
    w.hit(event(2, 1_100, 8, 100, 11_010_007, 5));
    w.hit(event(3, 1_200, 9, 100, 15_000_001, 5));
    let d = w.read();
    assert_eq!(d.map.len(), 2);
    assert_eq!(d.map[&8].amount, 75);
    let mut names: Vec<&str> = d.map.values().map(|p| p.nickname.as_str()).collect();
    names.sort();
    assert_eq!(names, vec!["9", "Tolan"]);
}

#[test]
fn only_the_health_of_a_boss_is_shown() {
    let mut w = World::new();
    w.storage.append_mob(100, 502);
    w.storage.append_mob_hp(100, 9_000);
    w.storage.append_mob_hp(101, 8_000);
    w.hit(event(1, 1_000, 5, 100, 11_010_007, 70));
    assert_eq!((w.read().target_id, w.read().target_max_hp), (100, 0));
    w.hit(event(2, 2_000, 5, 101, 11_010_007, 70));
    assert_eq!((w.read().target_id, w.read().target_max_hp), (101, 0));
    w.storage.append_mob(101, 501);
    assert_eq!((w.read().target_id, w.read().target_max_hp), (101, 8_000));
}

#[test]
fn every_reading_is_for_the_local_player() {
    let mut w = World::new();
    w.storage.set_local_player_id(Some(5));
    w.hit(event(1, 1_000, 5, 100, 11_010_007, 70));
    assert_eq!(w.read().local_player_id, Some(5));
    w.log.clear();
    let kept = w.read();
    assert_eq!((kept.local_player_id, kept.map.len()), (Some(5), 1));
    assert_eq!((kept.target_id, w.storage.current_target()), (100, 100));
    w.storage.set_local_player_id(Some(6));
    let d = w.read();
    assert_eq!((d.local_player_id, d.map.len()), (Some(6), 0));
    w.storage.set_local_player_id(Some(5));
    let d = w.read();
    assert_eq!((d.local_player_id, d.map.len()), (Some(5), 0));
}
