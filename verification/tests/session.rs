use dps_meter::combat::data_storage::DataStorage;
use dps_meter::combat::dps_calculator::DpsCalculator;
use dps_meter::combat::packet_log::PacketLog;
use dps_meter::keys::id_set;
use dps_meter::session::{
    bind_local_actor_id, bind_local_nickname, capture_status, dot_skill_ids, preferred_device,
    reset_combat, set_character_name,
};
use std::collections::HashSet;

#[test]
fn a_new_character_name_reaches_the_bound_player() {
    let mut s = DataStorage::new();
    set_character_name(&mut s, " Mira ".to_string());
    assert_eq!(s.local_character_name(), Some(" Mira ".to_string()));
    assert_eq!(s.local_player_id(), None);
    s.set_local_player_id(Some(6));
    set_character_name(&mut s, " Tolan ".to_string());
    assert_eq!(s.get_nickname(6), Some("Tolan".to_string()));
    set_character_name(&mut s, "  ".to_string());
    assert_eq!(s.get_nickname(6), Some("Tolan".to_string()));
    s.reset_nicknames();
    assert_eq!(s.get_nickname(6), Some("Tolan".to_string()));
}

#[test]
fn binding_an_id_names_it_after_the_character() {
    let mut s = DataStorage::new();
    bind_local_actor_id(&mut s, 6);
    assert_eq!(s.local_player_id(), Some(6));
    assert_eq!(s.get_nickname(6), None);
    s.set_local_character_name(Some(" Mira ".to_string()));
    bind_local_actor_id(&mut s, 6);
    assert_eq!(s.get_nickname(6), Some("Mira".to_string()));
    bind_local_actor_id(&mut s, 0);
    assert_eq!(s.local_player_id(), None);
    s.append_nickname(7, "Mira");
    bind_local_actor_id(&mut s, 7);
    s.reset_nicknames();
    assert_eq!(s.get_nickname(7), Some("Mira".to_string()));
    assert_eq!(s.get_nickname(6), Some("Mira".to_string()));
    assert_eq!(s.local_player_id(), Some(7));
}

#[test]
fn a_name_that_an_id_has_already_is_made_permanent() {
    let mut s = DataStorage::new();
    s.set_local_character_name(Some("Bob".to_string()));
    s.append_nickname(7, "Bob");
    bind_local_actor_id(&mut s, 7);
    assert_eq!(s.local_player_id(), Some(7));
    s.reset_nicknames();
    assert_eq!(s.get_nickname(7), Some("Bob".to_string()));
    let mut s = DataStorage::new();
    s.set_local_player_id(Some(7));
    s.append_nickname(7, "Bob");
    bind_local_nickname(&mut s, 7, "Bob");
    s.reset_nicknames();
    assert_eq!(s.get_nickname(7), Some("Bob".to_string()));
}

#[test]
fn a_short_name_that_is_asked_for_replaces_a_longer_one() {
    let mut s = DataStorage::new();
    s.append_nickname(7, "Alice");
    s.append_nickname(7, "Al");
    assert_eq!(s.get_nickname(7), Some("Alice".to_string()));
    bind_local_nickname(&mut s, 7, "Al");
    assert_eq!(s.local_player_id(), Some(7));
    assert_eq!(s.get_nickname(7), Some("Al".to_string()));
    s.append_nickname(7, "Alice");
    set_character_name(&mut s, "Bo".to_string());
    assert_eq!(s.get_nickname(7), Some("Bo".to_string()));
    s.append_nickname(7, "Alice");
    bind_local_actor_id(&mut s, 7);
    assert_eq!(s.get_nickname(7), Some("Bo".to_string()));
    s.append_nickname(7, "Alice");
    s.set_permanent_nickname(7, "Cy");
    assert_eq!(s.get_nickname(7), Some("Alice".to_string()));
    s.reset_nicknames();
    assert_eq!(s.get_nickname(7), Some("Cy".to_string()));
}

#[test]
fn a_bound_nickname_outlives_a_reset() {
    let mut s = DataStorage::new();
    s.append_nickname(6, "Stale");
    bind_local_nickname(&mut s, 6, "Mira");
    assert_eq!(s.local_player_id(), Some(6));
    let mut calc = DpsCalculator::new();
    let mut log = PacketLog::new();
    reset_combat(&mut calc, &mut s, &mut log);
    assert_eq!(s.get_nickname(6), Some("Mira".to_string()));
    assert_eq!(s.local_player_id(), Some(6));
    bind_local_nickname(&mut s, 6, "Mira");
    bind_local_nickname(&mut s, 8, "Mira");
    assert_eq!(s.local_player_id(), Some(8));
}

#[test]
fn the_capture_tells_what_it_is_on() {
    let mut s = DataStorage::new();
    let status = capture_status(None, None, &s);
    assert!(!status.locked);
    assert_eq!((status.port, status.device.as_str(), status.ip.as_str()), (None, "", "127.0.0.1"));
    s.set_local_player_id(Some(6));
    s.set_local_character_name(Some("Mira".to_string()));
    let status = capture_status(Some(13328), Some("eth0".to_string()), &s);
    assert!(status.locked);
    assert_eq!((status.port, status.device.as_str(), status.ip.as_str()), (Some(13328), "eth0", "eth0"));
    assert_eq!(status.local_player_id, Some(6));
    assert_eq!(status.character_name, Some("Mira".to_string()));
}

#[test]
fn a_blank_device_is_none() {
    assert_eq!(preferred_device(" \t\u{3000}".to_string()), None);
    assert_eq!(preferred_device(" eth0 ".to_string()), Some(" eth0 ".to_string()));
}

#[test]
fn the_list_of_skills_over_time_is_read() {
    assert_eq!(dot_skill_ids("[3, -1, 3]"), HashSet::from([3, -1]));
    assert_eq!(dot_skill_ids("[]"), HashSet::new());
    assert_eq!(dot_skill_ids("[3000000000]"), HashSet::new());
    assert_eq!(dot_skill_ids("{}"), HashSet::new());
    assert_eq!(dot_skill_ids("[1, 2"), HashSet::new());
    assert_eq!(id_set(&vec![7, 7, 8]), HashSet::from([7, 8]));
}
