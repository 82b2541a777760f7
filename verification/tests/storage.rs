use dps_meter::combat::data_storage::{
    is_friendly_action, is_player_skill, skill_table_key, DataStorage, TargetCombatData,
};
use dps_meter::combat::packet_log::{record_damage, PacketLog};
use dps_meter::entity::damage_packet::ParsedDamagePacket;
use dps_meter::entity::job_class::{JobClass, JobEntry, JobTable, SkillRange};
use dps_meter::entity::special_damage::SpecialDamage;
use dps_meter::entity::summon_resolver::resolve;
use std::collections::HashMap;

const GLADIATOR: i32 = 11;
const CLERIC: i32 = 17;

fn jobs() -> JobTable {
    let entry = |prefix: i32, name: &str| JobEntry {
        job: JobClass { prefix },
        name: name.to_string(),
        skills: vec![SkillRange { first: prefix * 1_000_000, last: prefix * 1_000_000 + 999_999 }],
        loose_skills: vec![SkillRange {
            first: prefix * 1_000_000,
            last: prefix * 1_000_000 + 999_999,
        }],
    };
    JobTable { entries: vec![entry(GLADIATOR, "Gladiator"), entry(CLERIC, "Cleric")] }
}

fn event(id: i64, timestamp: i64, actor_id: i32, target_id: i32, skill_code: i32, damage: i32) -> ParsedDamagePacket {
    ParsedDamagePacket {
        id,
        timestamp,
        actor_id,
        target_id,
        skill_code,
        damage,
        total_damage: damage,
        is_dot: false,
        is_crit: false,
        specials: Vec::new(),
        multi_hit_count: 0,
        multi_hit_damage: 0,
        heal_amount: 0,
        spec_flags: [false; 5],
    }
}

fn target(s: &DataStorage, id: i32) -> TargetCombatData {
    s.get_combat_snapshot().get(&id).expect("target").clone()
}

#[test]
fn player_skills_have_codes_from_ten_to_thirty_one_million() {
    assert!(!is_player_skill(9_999_999));
    assert!(is_player_skill(10_000_000));
    assert!(is_player_skill(29_999_999));
    assert!(is_player_skill(30_000_000));
    assert!(is_player_skill(30_999_999));
    assert!(!is_player_skill(31_000_000));
    let s = DataStorage::new();
    assert_eq!(s.damage_generation(), 0);
}

#[test]
fn damage_is_counted_by_target_actor_and_skill() {
    let mut s = DataStorage::new();
    let mut first = event(1, 1_000, 5, 100, 11_000_010, 70);
    first.total_damage = 100;
    first.is_crit = true;
    first.specials = vec![SpecialDamage::Back, SpecialDamage::Double];
    first.multi_hit_count = 2;
    first.multi_hit_damage = 30;
    first.heal_amount = 4;
    first.spec_flags = [true, false, false, false, false];
    s.append_damage(first, &jobs());
    let mut second = event(2, 1_500, 5, 100, 11_000_010, 50);
    second.specials = vec![SpecialDamage::Parry, SpecialDamage::Perfect];
    second.spec_flags = [false, false, true, false, false];
    s.append_damage(second, &jobs());
    let t = target(&s, 100);
    assert_eq!(t.target_id, 100);
    assert_eq!(t.total_damage, 150);
    assert_eq!((t.first_damage_time, t.last_damage_time, t.last_packet_id), (1_000, 1_500, 2));
    let actor = &t.actors[&5];
    assert_eq!(actor.total_damage, 150);
    assert_eq!(actor.job, Some(JobClass { prefix: GLADIATOR }));
    let skill = &actor.skills[&skill_table_key(11_000_010, false)];
    assert_eq!(skill.hit_count, 2);
    assert_eq!(skill.total_damage, 150);
    assert_eq!((skill.min_damage, skill.max_damage), (50, 70));
    assert_eq!((skill.crit_count, skill.back_count, skill.parry_count), (1, 1, 1));
    assert_eq!((skill.perfect_count, skill.double_count), (1, 1));
    assert_eq!((skill.multi_hit_count, skill.multi_hit_damage, skill.multi_hit_hits), (1, 30, 2));
    assert_eq!(skill.heal_amount, 4);
    assert_eq!(skill.hit_timestamps, vec![1_000, 1_500]);
    assert_eq!(skill.spec_flags, [true, false, true, false, false]);
    assert_eq!(s.damage_generation(), 2);
}

#[test]
fn plain_hits_and_damage_over_time_are_kept_apart() {
    let mut s = DataStorage::new();
    s.append_damage(event(1, 1, 5, 100, 11_000_010, 70), &jobs());
    let mut dot = event(2, 2, 5, 100, 11_000_010, 30);
    dot.is_dot = true;
    s.append_damage(dot, &jobs());
    let t = target(&s, 100);
    assert_eq!(t.actors[&5].skills.len(), 2);
    assert_eq!(t.actors[&5].skills[&skill_table_key(11_000_010, true)].total_damage, 30);
    assert_ne!(skill_table_key(7, true), skill_table_key(7, false));
    assert_ne!(skill_table_key(7, true), skill_table_key(8, false));
    assert_eq!(skill_table_key(i32::MIN, false), -4_294_967_296);
}

#[test]
fn creatures_using_their_own_skills_are_ignored() {
    let mut s = DataStorage::new();
    s.append_mob(9, 2_300_229);
    s.append_damage(event(1, 1, 9, 100, 1_000_000, 70), &jobs());
    assert_eq!(s.damage_generation(), 0);
    s.append_damage(event(2, 1, 9, 100, 999_999, 70), &jobs());
    assert_eq!(s.damage_generation(), 1);
    s.register_confirmed_summon_by_id(9, 5);
    s.append_damage(event(3, 1, 9, 100, 9_999_999, 70), &jobs());
    assert_eq!(s.damage_generation(), 2);
}

#[test]
fn a_long_pause_starts_a_new_fight() {
    let mut s = DataStorage::new();
    s.append_damage(event(1, 1_000, 5, 100, 11_000_010, 70), &jobs());
    s.append_damage(event(2, 31_000, 5, 100, 11_000_010, 10), &jobs());
    assert_eq!(target(&s, 100).total_damage, 80);
    s.append_damage(event(3, 61_001, 6, 100, 17_000_010, 5), &jobs());
    let t = target(&s, 100);
    assert_eq!(t.total_damage, 5);
    assert_eq!((t.first_damage_time, t.last_damage_time), (61_001, 61_001));
    assert_eq!(t.actors.len(), 1);
    assert_eq!(t.actors[&6].total_damage, 5);
}

#[test]
fn friendly_fire_is_not_counted_and_is_purged_once_known() {
    let mut s = DataStorage::new();
    s.append_damage(event(1, 1, 5, 6, 100, 70), &jobs());
    s.append_damage(event(2, 1, 7, 6, 100, 30), &jobs());
    assert_eq!(target(&s, 6).total_damage, 100);
    s.append_nickname(6, "Mira");
    assert_eq!(target(&s, 6).total_damage, 100);
    s.append_nickname(5, "Tolan");
    let t = target(&s, 6);
    assert_eq!(t.total_damage, 30);
    assert_eq!(t.actors.len(), 1);
    assert!(is_friendly_action(&s, 5, 6));
    assert!(!is_friendly_action(&s, 7, 6));
    s.append_damage(event(3, 1, 5, 6, 11_000_010, 70), &jobs());
    assert_eq!(target(&s, 6).total_damage, 30);
    assert_eq!(s.damage_generation(), 2);
    s.append_nickname(7, "Quell");
    assert!(!s.is_damage_target(6));
}

#[test]
fn players_are_not_summons_and_confirmed_summons_stay_summons() {
    let mut s = DataStorage::new();
    s.append_summon(5, 50);
    assert!(s.is_summon(50));
    s.append_damage(event(1, 1, 50, 100, 11_000_010, 1), &jobs());
    assert!(!s.is_summon(50));
    s.register_confirmed_summon_by_id(60, 5);
    s.append_damage(event(2, 1, 60, 100, 11_000_010, 1), &jobs());
    s.append_nickname(60, "Spirit");
    assert!(s.is_summon(60));
    assert!(s.is_confirmed_summon(60));
    assert_eq!(s.get_summon_data()[&60], 5);
}

#[test]
fn summons_are_linked_only_where_nothing_speaks_against_it() {
    let mut s = DataStorage::new();
    s.append_nickname(1, "Mira");
    s.append_summon(5, 1);
    assert!(!s.is_summon(1));
    s.append_damage(event(1, 1, 2, 100, 11_000_010, 1), &jobs());
    s.append_summon(5, 2);
    assert!(!s.is_summon(2));
    s.append_summon(5, 100);
    assert!(!s.is_summon(100));
    s.append_mob(8, 1);
    s.append_summon(8, 3);
    assert!(!s.is_summon(3));
    s.append_summon(2, 4);
    assert!(s.is_summon(4));
    s.append_summon(4, 6);
    assert!(!s.is_summon(6));
    s.append_damage(event(2, 1, 70, 100, 17_000_010, 1), &jobs());
    s.register_confirmed_summon_by_id(70, 9);
    s.append_summon(2, 70);
    assert_eq!(s.get_summon_data()[&70], 9);
    s.append_summon(5, 70);
    assert_eq!(s.get_summon_data()[&70], 5);
}

#[test]
fn a_known_class_keeps_a_summon_from_an_owner_of_another_class() {
    let mut s = DataStorage::new();
    s.register_confirmed_summon_by_id(70, 9);
    s.append_damage(event(1, 1, 70, 100, 17_000_010, 1), &jobs());
    s.append_damage(event(2, 1, 2, 100, 11_000_010, 1), &jobs());
    s.append_summon(2, 70);
    assert_eq!(s.get_summon_data()[&70], 9);
    s.append_damage(event(3, 1, 3, 100, 17_000_010, 1), &jobs());
    s.append_summon(3, 70);
    assert_eq!(s.get_summon_data()[&70], 3);
}

#[test]
fn nicknames_are_taken_in_and_fragments_are_not() {
    let mut s = DataStorage::new();
    assert!(!s.has_nickname(5));
    s.append_nickname(5, "Tolan");
    assert_eq!(s.get_nickname(5), Some("Tolan".to_string()));
    s.append_nickname(5, "To");
    assert_eq!(s.get_nickname(5), Some("Tolan".to_string()));
    s.append_nickname(5, "Tol");
    assert_eq!(s.get_nickname(5), Some("Tol".to_string()));
    s.append_nickname(6, "Ab");
    s.append_nickname(6, "Cd");
    assert_eq!(s.get_nickname(6), Some("Cd".to_string()));
    assert_eq!(s.get_nickname(7), None);
    assert_eq!(s.get_nicknames().len(), 2);
}

#[test]
fn pending_nicknames_wait_for_their_owner_to_act() {
    let mut s = DataStorage::new();
    s.cache_pending_nickname(5, "Tolan");
    assert!(!s.has_nickname(5));
    s.append_damage(event(1, 1, 5, 100, 100, 1), &jobs());
    assert_eq!(s.get_nickname(5), Some("Tolan".to_string()));
    s.cache_pending_nickname(5, "Other");
    s.append_damage(event(2, 1, 5, 100, 100, 1), &jobs());
    assert_eq!(s.get_nickname(5), Some("Tolan".to_string()));
}

#[test]
fn permanent_nicknames_outlive_a_reset() {
    let mut s = DataStorage::new();
    s.append_nickname(5, "Tolan");
    s.set_permanent_nickname(6, "Mira");
    s.cache_pending_nickname(7, "Quell");
    s.append_nickname(6, "Changed");
    s.flush();
    s.reset_nicknames();
    assert_eq!(s.get_nickname(5), None);
    assert_eq!(s.get_nickname(6), Some("Mira".to_string()));
    s.append_damage(event(1, 1, 7, 100, 100, 1), &jobs());
    assert_eq!(s.get_nickname(7), None);
}

#[test]
fn the_local_player_is_found_by_name() {
    let mut s = DataStorage::new();
    assert_eq!(s.local_player_id(), None);
    s.set_local_character_name(Some(" Mira ".to_string()));
    s.append_nickname(5, "Tolan");
    assert_eq!(s.local_player_id(), None);
    s.append_nickname(6, "Mira");
    assert_eq!(s.local_player_id(), Some(6));
    s.set_local_player_id(None);
    s.append_nickname(6, "Mira");
    assert_eq!(s.local_player_id(), Some(6));
    assert_eq!(s.local_character_name(), Some(" Mira ".to_string()));
}

#[test]
fn creatures_and_their_health_are_noted() {
    let mut s = DataStorage::new();
    s.append_mob(100, 2_300_229);
    s.append_mob_hp(100, 5_000);
    s.append_mob_hp(100, 0);
    s.append_mob_hp(101, -4);
    assert!(s.is_mob(100));
    assert!(!s.is_mob(101));
    assert_eq!(s.get_mob_data()[&100], 2_300_229);
    assert_eq!(s.get_mob_hp_data()[&100], 5_000);
    assert_eq!(s.get_mob_hp_data().len(), 1);
}

#[test]
fn flush_drops_combat_and_keeps_names() {
    let mut s = DataStorage::new();
    s.append_mob(100, 1);
    s.append_mob_hp(100, 5_000);
    s.append_nickname(5, "Tolan");
    s.append_summon(5, 50);
    s.append_damage(event(1, 1, 5, 100, 11_000_010, 1), &jobs());
    s.set_current_target(100);
    assert_eq!(s.current_target(), 100);
    assert!(s.actor_appears_in_combat(5));
    assert!(s.actor_appears_in_combat(100));
    assert!(s.actor_appears_in_combat(50));
    assert!(!s.actor_appears_in_combat(51));
    s.flush();
    assert!(!s.actor_appears_in_combat(5));
    assert!(!s.actor_appears_in_combat(50));
    assert_eq!(s.current_target(), 0);
    assert!(s.get_mob_hp_data().is_empty());
    assert!(s.get_combat_snapshot().is_empty());
    assert!(s.has_nickname(5));
    assert!(s.is_mob(100));
    assert_eq!(s.damage_generation(), 1);
}

#[test]
fn a_targets_damage_is_that_of_its_actors() {
    let mut s = DataStorage::new();
    for i in 0..20 {
        s.append_damage(event(i, i, 5 + (i % 3) as i32, 100, 100, 7 + i as i32), &jobs());
    }
    let t = target(&s, 100);
    assert_eq!(t.total_damage, t.actors.values().map(|a| a.total_damage).sum::<i64>());
    s.append_nickname(5, "Tolan");
    s.append_nickname(100, "Mira");
    let t = target(&s, 100);
    assert_eq!(t.actors.len(), 2);
    assert_eq!(t.total_damage, t.actors.values().map(|a| a.total_damage).sum::<i64>());
}

#[test]
fn events_that_count_are_logged() {
    let mut s = DataStorage::new();
    let mut log = PacketLog::new();
    record_damage(&mut s, &mut log, event(1, 1, 5, 100, 11_000_010, 70), &jobs());
    s.append_nickname(6, "Mira");
    record_damage(&mut s, &mut log, event(2, 1, 5, 6, 11_000_010, 70), &jobs());
    assert_eq!(log.by_target.len(), 1);
    assert_eq!(log.by_target[&100].len(), 1);
    assert_eq!(s.damage_generation(), 1);
    log.append(event(3, 50, 5, 100, 1, 1));
    log.append(event(4, 40, 5, 100, 1, 1));
    log.prune_target_before(100, 40);
    let kept: Vec<i64> = log.by_target[&100].iter().map(|p| p.id).collect();
    assert_eq!(kept, vec![3, 4]);
    log.prune_target_before(7, 40);
    log.clear();
    assert!(log.by_target.is_empty());
}

#[test]
fn owner_links_are_followed_to_their_end() {
    let mut links = HashMap::new();
    assert_eq!(resolve(7, &links), 7);
    links.insert(7, 8);
    links.insert(8, 9);
    assert_eq!(resolve(7, &links), 9);
    assert_eq!(resolve(9, &links), 9);
    links.insert(9, 7);
    assert_eq!(resolve(7, &links), 7);
}

#[test]
fn an_actors_damage_is_that_of_its_skills() {
    let mut s = DataStorage::new();
    for i in 0..20 {
        let mut p = event(i, 5_000 - i, 5 + (i % 2) as i32, 100, 100 + (i % 3) as i32, 7 + i as i32);
        p.is_dot = i % 5 == 0;
        s.append_damage(p, &jobs());
    }
    let t = target(&s, 100);
    assert_eq!((t.first_damage_time, t.last_damage_time), (4_981, 5_000));
    for actor in t.actors.values() {
        let of_skills: i64 = actor.skills.values().map(|k| k.total_damage as i64).sum();
        assert_eq!(actor.total_damage, of_skills);
        for (place, skill) in &actor.skills {
            assert_eq!(*place, skill_table_key(skill.skill_code, skill.is_dot));
            assert_eq!(skill.hit_count as usize, skill.hit_timestamps.len());
            assert!(skill
                .hit_timestamps
                .iter()
                .all(|ts| t.first_damage_time <= *ts && *ts <= t.last_damage_time));
        }
    }
}
