use dps_meter::combat::boss_fights::{best_fights, fight_id};
use dps_meter::combat::data_storage::DataStorage;
use dps_meter::combat::dps_calculator::DpsCalculator;
use dps_meter::combat::game_data::GameData;
use dps_meter::combat::packet_log::{record_damage, PacketLog};
use dps_meter::combat::ping_tracker::PingTracker;
use dps_meter::entity::damage_packet::ParsedDamagePacket;
use dps_meter::entity::details_context::{PingPoint, TargetDetailsResponse};
use dps_meter::entity::fight_record::FightRecord;
use dps_meter::entity::job_class::{JobClass, JobEntry, JobTable, SkillRange};
use dps_meter::entity::special_damage::SpecialDamage;
use dps_meter::i18n::lookup::{NpcLookup, SkillLookup};
use std::collections::{HashMap, HashSet};

fn event(id: i64, timestamp: i64, actor_id: i32, target_id: i32, skill_code: i32, damage: i32) -> ParsedDamagePacket {
    ParsedDamagePacket {
        id,
        timestamp,
        actor_id,
        target_id,
        skill_code,
        damage,
        total_damage: damage,
        is_dot: false,
        is_crit: false,
        specials: Vec::new(),
        multi_hit_count: 0,
        multi_hit_damage: 0,
        heal_amount: 0,
        spec_flags: [false; 5],
    }
}

fn veil(nickname: &str) -> String {
    format!("<{}>", nickname)
}

struct World {
    calc: DpsCalculator,
    storage: DataStorage,
    log: PacketLog,
    game: GameData,
    pings: PingTracker,
}

impl World {
    fn new() -> Self {
        let entry = |prefix: i32, name: &str, loose: i32| JobEntry {
            job: JobClass { prefix },
            name: name.to_string(),
            skills: vec![SkillRange {
                first: prefix * 1_000_000,
                last: prefix * 1_000_000 + 999_999,
            }],
            loose_skills: vec![
                SkillRange { first: prefix * 1_000_000, last: prefix * 1_000_000 + 999_999 },
                SkillRange { first: loose, last: loose },
            ],
        };
        let mut names = HashMap::new();
        names.insert(11_010_000, "Cleave".to_string());
        names.insert(15_010_000, "Curse".to_string());
        World {
            calc: DpsCalculator::new(),
            storage: DataStorage::new(),
            log: PacketLog::new(),
            game: GameData {
                jobs: JobTable {
                    entries: vec![entry(11, "Gladiator", 900), entry(15, "Spiritmaster", 901)],
                },
                skills: SkillLookup { names, shown_names: HashMap::new() },
                npcs: NpcLookup {
                    names: HashMap::from([(501, "Old Dragon".to_string())]),
                    bosses: HashSet::from([501]),
                },
            },
            pings: PingTracker::new(),
        }
    }

    fn hit(&mut self, p: ParsedDamagePacket) {
        record_damage(&mut self.storage, &mut self.log, p, &self.game.jobs);
    }

    fn details(&self, target: i32, ids: Option<&Vec<i32>>) -> TargetDetailsResponse {
        self.calc.get_target_details(target, ids, &self.log, &self.storage, &self.game, &self.pings)
    }

    fn snapshot(&mut self, now: i64, force: bool) -> Vec<FightRecord> {
        self.calc.get_dps(&mut self.storage, &mut self.log, &self.game);
        if force {
            self.calc.snapshot_boss_fights_force(
                now, &self.log, &self.storage, &self.game, &self.pings, "1.2.3", &veil,
            )
        } else {
            self.calc.snapshot_boss_fights(
                now, &self.log, &self.storage, &self.game, &self.pings, "1.2.3", &veil,
            )
        }
    }
}

#[test]
fn a_fight_that_was_not_seen_has_no_details() {
    let d = World::new().details(100, None);
    assert_eq!((d.target_id, d.max_hp, d.total_target_damage), (100, 0, 0));
    assert_eq!((d.battle_time, d.start_time), (0, 0));
    assert!(d.skills.is_empty() && d.ping_history.is_empty());
}

#[test]
fn a_fight_is_told_skill_by_skill() {
    let mut w = World::new();
    w.storage.append_mob_hp(100, 5_000);
    w.storage.append_nickname(5, "Tolan");
    let mut first = event(1, 10_000, 5, 100, 11_010_003, 70);
    first.total_damage = 90;
    first.is_crit = true;
    first.specials = vec![SpecialDamage::Back, SpecialDamage::Perfect];
    first.multi_hit_count = 2;
    first.multi_hit_damage = 20;
    first.heal_amount = 3;
    first.spec_flags = [true, false, true, false, false];
    w.hit(first);
    let mut second = event(2, 12_000, 5, 100, 11_010_000, 50);
    second.specials = vec![SpecialDamage::Parry, SpecialDamage::Double];
    w.hit(second);
    let mut dot = event(3, 13_000, 5, 100, 11_010_000, 10);
    dot.is_dot = true;
    w.hit(dot);
    w.hit(event(4, 15_000, 6, 100, 15_000_003, 40));
    w.pings.record(9_999, 1);
    w.pings.record(10_000, 20);
    w.pings.record(15_000, 30);
    w.pings.record(15_001, 40);
    let d = w.details(100, None);
    assert_eq!((d.max_hp, d.total_target_damage, d.battle_time, d.start_time), (5_000, 190, 5_000, 10_000));
    assert_eq!(d.skills.len(), 3);
    let e = &d.skills[0];
    assert_eq!((e.actor_id, e.code, e.name.as_str(), e.job.as_str()), (5, 11_010_000, "Cleave", "Gladiator"));
    assert_eq!((e.time, e.dmg, e.min_dmg, e.max_dmg, e.is_dot), (2, 140, 50, 70, false));
    assert_eq!((e.crit, e.parry, e.back, e.perfect, e.double), (1, 1, 1, 1, 1));
    assert_eq!((e.multi_hit_count, e.multi_hit_damage, e.multi_hit_hits, e.heal), (1, 20, 2, 3));
    assert_eq!(e.hit_timestamps, vec![0, 2_000]);
    assert_eq!(e.specs, vec![true, false, true, false, false]);
    let e = &d.skills[1];
    assert_eq!((e.name.as_str(), e.is_dot, e.dmg, e.code), ("Cleave - DOT", true, 10, 11_010_000));
    let e = &d.skills[2];
    assert_eq!((e.name.as_str(), e.actor_id, e.hit_timestamps.clone()), ("", 6, vec![5_000]));
    assert_eq!(
        d.ping_history,
        vec![PingPoint { ts_ms: 0, ping_ms: 20 }, PingPoint { ts_ms: 5_000, ping_ms: 30 }]
    );
    assert_eq!(d.skills.iter().map(|e| e.dmg).sum::<i32>(), d.total_target_damage);
}

#[test]
fn a_skill_that_never_hit_less_than_the_most_shows_zero() {
    let mut w = World::new();
    w.hit(event(1, 1, 5, 100, 11_010_000, i32::MAX));
    assert_eq!(w.details(100, None).skills[0].min_dmg, 0);
}

#[test]
fn picking_players_leaves_the_totals() {
    let mut w = World::new();
    w.storage.append_nickname(5, "Tolan");
    w.storage.append_nickname(6, "Mira");
    w.storage.register_confirmed_summon_by_id(60, 6);
    w.hit(event(1, 1_000, 5, 100, 11_010_000, 70));
    w.hit(event(2, 2_000, 6, 100, 15_010_000, 20));
    w.hit(event(3, 3_000, 60, 100, 55, 7));
    w.hit(event(4, 4_000, 77, 100, 901, 3));
    let d = w.details(100, Some(&vec![6]));
    assert_eq!((d.total_target_damage, d.battle_time, d.start_time), (100, 3_000, 1_000));
    assert!(d.skills.iter().all(|e| e.actor_id == 6));
    assert_eq!(d.skills.iter().map(|e| e.dmg).sum::<i32>(), 30);
    assert_eq!(w.details(100, Some(&vec![])).skills.len(), 0);
    assert_eq!(w.details(100, Some(&vec![77])).skills.len(), 1);
    assert_eq!(w.details(100, Some(&vec![77])).skills[0].actor_id, 6);
}

#[test]
fn actors_that_are_no_players_are_left_out() {
    let mut w = World::new();
    w.log.append(event(1, 1_000, 0, 100, 11_010_000, 70));
    let d = w.details(100, None);
    assert_eq!((d.total_target_damage, d.start_time, d.battle_time), (0, 0, 0));
    assert!(d.skills.is_empty() && d.ping_history.is_empty());
}

#[test]
fn the_overview_lists_targets_and_players() {
    let mut w = World::new();
    w.storage.append_mob(100, 501);
    w.storage.append_mob_hp(100, 5_000);
    w.storage.append_nickname(5, "Tolan");
    w.storage.append_nickname(6, "Mira");
    w.hit(event(1, 1_000, 5, 100, 11_010_000, 70));
    w.hit(event(2, 4_000, 6, 100, 15_010_000, 20));
    w.hit(event(3, 3_000, 77, 100, 15_010_001, 3));
    w.hit(event(4, 3_000, 88, 100, 55, 4));
    w.hit(event(5, 9_000, 5, 99, 11_010_000, 1));
    w.calc.get_dps(&mut w.storage, &mut w.log, &w.game);
    let c = w.calc.get_details_context(&w.log, &w.storage, &w.game);
    assert_eq!(c.current_target_id, 100);
    let ids: Vec<i32> = c.targets.iter().map(|t| t.target_id).collect();
    assert_eq!(ids, vec![99, 100]);
    let t = &c.targets[1];
    assert_eq!((t.target_name.as_str(), t.max_hp, t.battle_time, t.last_damage_time), ("Old Dragon", 5_000, 3_000, 4_000));
    assert_eq!(t.total_damage, 97);
    assert_eq!(t.actor_damage, HashMap::from([(5, 70), (6, 23)]));
    assert_eq!((c.targets[0].target_name.as_str(), c.targets[0].max_hp), ("", 0));
    let actors: Vec<(i32, &str, &str, i32)> =
        c.actors.iter().map(|a| (a.actor_id, a.nickname.as_str(), a.job.as_str(), a.job_id)).collect();
    assert_eq!(actors, vec![(5, "Tolan", "Gladiator", 11), (6, "Mira", "Spiritmaster", 15)]);
}

fn boss_world() -> World {
    let mut w = World::new();
    w.storage.append_mob(100, 501);
    w.storage.append_nickname(5, "Tolan");
    w.storage.append_nickname(6, "Mira");
    w.storage.set_local_player_id(Some(5));
    w.hit(event(1, 1_000, 5, 100, 11_010_000, 70));
    w.hit(event(2, 7_000, 6, 100, 15_010_000, 20));
    w
}

#[test]
fn an_ended_boss_fight_is_kept_once() {
    let mut w = boss_world();
    assert!(w.snapshot(16_999, false).is_empty());
    let records = w.snapshot(17_000, false);
    assert_eq!(records.len(), 1);
    let r = &records[0];
    assert_eq!(r.id, "auto_100_1000");
    assert_eq!((r.boss_name.as_str(), r.target_id, r.mob_code, r.is_train), ("Old Dragon", 100, 501, false));
    assert_eq!((r.start_time_ms, r.duration_ms, r.total_damage), (1_000, 6_000, 90));
    assert_eq!(r.jobs, vec!["Gladiator", "Spiritmaster"]);
    assert_eq!(r.job_ids, vec![11, 15]);
    assert_eq!(r.app_version, "1.2.3");
    let actors: Vec<(i32, &str)> =
        r.actors.iter().map(|a| (a.actor_id, a.nickname.as_str())).collect();
    assert_eq!(actors, vec![(5, "Tolan"), (6, "<Mira>")]);
    assert_eq!(r.details.total_target_damage, 90);
    assert!(w.snapshot(18_000, false).is_empty());
    assert!(w.snapshot(18_000, true).is_empty());
}

#[test]
fn a_long_fight_is_kept_again_while_it_goes_on() {
    let mut w = boss_world();
    w.hit(event(3, 16_000, 5, 100, 11_010_000, 1));
    assert_eq!(w.snapshot(16_500, false).len(), 1);
    assert_eq!(w.snapshot(17_000, false).len(), 1);
    assert_eq!(w.snapshot(26_000, false).len(), 1);
    assert!(w.snapshot(27_000, false).is_empty());
}

#[test]
fn any_fight_can_be_kept_on_demand() {
    let mut w = boss_world();
    assert_eq!(w.snapshot(8_000, true).len(), 1);
    assert_eq!(w.snapshot(8_000, true).len(), 1);
    w.calc.mark_all_targets_saved();
    assert!(w.snapshot(8_000, true).is_empty());
}

#[test]
fn short_harmless_and_ordinary_fights_are_not_kept() {
    let mut w = World::new();
    w.storage.append_mob(100, 501);
    w.hit(event(1, 1_000, 5, 100, 11_010_000, 70));
    w.hit(event(2, 5_999, 5, 100, 11_010_000, 20));
    w.storage.append_mob(101, 777);
    w.hit(event(3, 1_000, 5, 101, 11_010_000, 70));
    w.hit(event(4, 9_000, 5, 101, 11_010_000, 20));
    w.hit(event(5, 1_000, 5, 102, 11_010_000, 70));
    w.hit(event(6, 9_000, 5, 102, 11_010_000, 20));
    w.storage.append_mob(103, 501);
    w.hit(event(7, 1_000, 5, 103, 11_010_000, 0));
    w.hit(event(8, 9_000, 5, 103, 11_010_000, 0));
    assert!(w.snapshot(100_000, true).is_empty());
    w.storage.append_mob(101, 2_310_919);
    let records = w.snapshot(100_000, true);
    assert_eq!(records.len(), 1);
    assert!(records[0].is_train);
    assert_eq!(records[0].boss_name, "");
}

#[test]
fn the_ten_hardest_fights_of_a_replay_are_kept() {
    let mut w = World::new();
    for i in 0..12 {
        w.storage.append_mob(200 + i, 501);
        let damage = if i < 2 { 5 } else { 10 * (i % 4) + 1 };
        w.hit(event(2 * i as i64, 1_000, 5, 200 + i, 11_010_000, damage));
        w.hit(event(2 * i as i64 + 1, 9_000, 5, 200 + i, 11_010_000, 0));
    }
    let records = w.snapshot(9_000, true);
    assert_eq!(records.len(), 12);
    let best: Vec<i32> = best_fights(&records).into_iter().map(|i| records[i].target_id).collect();
    assert_eq!(best, vec![203, 207, 211, 202, 206, 210, 205, 209, 200, 201]);
    let few = best_fights(&Vec::new());
    assert!(few.is_empty());
}

#[test]
fn fights_have_names_of_their_own() {
    assert_eq!(fight_id(7, -3), "auto_7_-3");
    assert_ne!(fight_id(71, 2), fight_id(7, 12));
}

#[test]
fn the_connection_is_sampled() {
    let mut p = PingTracker::new();
    assert_eq!(p.current_ping_ms(), None);
    p.record(5, 20);
    p.record(6, 21);
    assert_eq!(p.current_ping_ms(), Some(21));
    assert_eq!(p.get_ping_history(6, 9), vec![PingPoint { ts_ms: 6, ping_ms: 21 }]);
    p.reset();
    assert_eq!(p.current_ping_ms(), None);
}

#[test]
fn a_listed_targets_damage_is_that_of_its_players() {
    let mut w = World::new();
    w.storage.append_nickname(5, "Tolan");
    w.storage.append_nickname(6, "Mira");
    w.hit(event(1, 1_000, 5, 100, 11_010_000, 70));
    w.hit(event(2, 4_000, 6, 100, 15_010_000, 20));
    w.hit(event(3, 3_000, 77, 100, 15_010_001, 3));
    let c = w.calc.get_details_context(&w.log, &w.storage, &w.game);
    let t = &c.targets[0];
    assert_eq!(t.total_damage, 93);
    assert_eq!(t.actor_damage.values().sum::<i32>(), 93);
    assert_eq!((t.battle_time, t.last_damage_time), (0, 0));
}

#[test]
fn the_fights_of_a_replay_are_kept_once() {
    let mut w = boss_world();
    w.calc.get_dps(&mut w.storage, &mut w.log, &w.game);
    let fights = w.calc.replay_fights(8_000, &w.log, &w.storage, &w.game, &w.pings, "1.2.3", &veil);
    assert_eq!(fights.records.len(), 1);
    assert_eq!(fights.best, vec![0]);
    assert!(w.snapshot(100_000, true).is_empty());
}

#[test]
fn picked_players_keep_their_skills() {
    let mut w = World::new();
    w.storage.append_nickname(5, "Tolan");
    w.storage.append_nickname(6, "Mira");
    w.storage.register_confirmed_summon_by_id(60, 6);
    w.hit(event(1, 1_000, 6, 100, 15_010_000, 20));
    w.hit(event(2, 2_000, 5, 100, 11_010_000, 70));
    w.hit(event(3, 3_000, 60, 100, 55, 7));
    w.hit(event(4, 4_000, 77, 100, 901, 3));
    let told = |d: &TargetDetailsResponse, ids: &[i32]| -> Vec<(i32, i32, i32, Vec<i64>)> {
        d.skills
            .iter()
            .filter(|e| ids.contains(&e.actor_id))
            .map(|e| (e.actor_id, e.code, e.dmg, e.hit_timestamps.clone()))
            .collect()
    };
    let all = w.details(100, None);
    for ids in [vec![5], vec![6], vec![5, 6]] {
        let some = w.details(100, Some(&ids));
        assert_eq!(told(&some, &ids).len(), some.skills.len());
        assert_eq!(told(&some, &ids), told(&all, &ids));
    }
    assert_eq!(told(&all, &[6]).len(), 3);
}

#[test]
fn the_overview_agrees_with_the_details() {
    let mut w = World::new();
    w.storage.append_mob_hp(100, 5_000);
    w.storage.append_nickname(5, "Tolan");
    w.hit(event(1, 1_000, 5, 100, 11_010_000, 70));
    w.hit(event(2, 3_000, 88, 100, 55, 4));
    w.hit(event(3, 9_000, 5, 99, 11_010_000, 1));
    w.calc.get_dps(&mut w.storage, &mut w.log, &w.game);
    let c = w.calc.get_details_context(&w.log, &w.storage, &w.game);
    assert_eq!(c.targets.len(), 2);
    for t in &c.targets {
        let d = w.details(t.target_id, None);
        assert_eq!((t.total_damage, t.max_hp), (d.total_target_damage, d.max_hp));
    }
    assert_eq!(c.targets[0].actor_damage.values().sum::<i32>(), 1);
    assert_eq!((c.targets[1].total_damage, c.targets[1].max_hp), (74, 5_000));
    assert_eq!(c.targets[1].actor_damage.values().sum::<i32>(), 70);
}

#[test]
fn only_the_local_player_is_named_in_a_record() {
    let mut w = boss_world();
    w.hit(event(3, 8_000, 77, 100, 55, 1));
    let names = |records: &Vec<FightRecord>| -> Vec<String> {
        records[0].actors.iter().map(|a| a.nickname.clone()).collect()
    };
    assert_eq!(names(&w.snapshot(8_000, true)), vec!["Tolan", "<Mira>", "<77>"]);
    w.storage.set_local_player_id(None);
    assert_eq!(names(&w.snapshot(8_000, true)), vec!["<Tolan>", "<Mira>", "<77>"]);
    w.storage.set_local_player_id(Some(6));
    assert_eq!(names(&w.snapshot(8_000, true)), vec!["<Tolan>", "Mira", "<77>"]);
}
