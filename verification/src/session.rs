//! Who plays, and on what the packets are captured.
use crate::combat::data_storage;
use crate::combat::data_storage::DataStorage;
use crate::combat::dps_calculator::DpsCalculator;
use crate::combat::packet_log::PacketLog;
use crate::combat::storage_model::StorageModel;
use crate::entity::damage_packet::ParsedDamagePacket;
use crate::keys;
use crate::text;
use std::collections::HashSet;
use vstd::prelude::*;

verus! {

broadcast use vstd::std_specs::hash::group_hash_axioms;

/// The storage once the local character's name is set. A local player that is known already is
/// given the name at once.
pub open spec fn with_character_name(s: StorageModel, name: Seq<char>) -> StorageModel {
    let named = StorageModel { local_character_name: Some(name), ..s };
    match s.local_player_id {
        Some(id) if text::trimmed(name).len() > 0 => named.bound_to_name(
            id as i32,
            text::trimmed(name),
        ),
        _ => named,
    }
}

/// Sets the local character's name.
pub fn set_character_name(storage: &mut DataStorage, name: String)
    ensures
        final(storage)@ == with_character_name(old(storage)@, name@),
{
    let trimmed = text::trim(name.as_str()).to_owned();
    storage.set_local_character_name(Some(name));
    if !trimmed.as_str().is_empty() {
        match storage.local_player_id() {
            Some(id) => {
                storage.bind_nickname(id as i32, trimmed.as_str());
            },
            None => {},
        }
    }
}

/// The storage once an id is bound to the local player. An id that is not positive clears the
/// binding; any other is given the local character's name for good.
pub open spec fn with_local_actor(s: StorageModel, actor_id: i64) -> StorageModel {
    if actor_id <= 0 {
        StorageModel { local_player_id: None, ..s }
    } else {
        let bound = StorageModel { local_player_id: Some(actor_id), ..s };
        match s.local_character_name {
            Some(name) if text::trimmed(name).len() > 0 => bound.bound_to_name(
                actor_id as i32,
                text::trimmed(name),
            ),
            _ => bound,
        }
    }
}

/// Binds an id to the local player.
pub fn bind_local_actor_id(storage: &mut DataStorage, actor_id: i64)
    ensures
        final(storage)@ == with_local_actor(old(storage)@, actor_id),
{
    if actor_id <= 0 {
        storage.set_local_player_id(None);
        return;
    }
    storage.set_local_player_id(Some(actor_id));
    match storage.local_character_name() {
        Some(name) => {
            let trimmed = text::trim(name.as_str());
            if !trimmed.is_empty() {
                storage.bind_nickname(actor_id as i32, trimmed);
            }
        },
        None => {},
    }
}

/// The storage once an id is bound to the local player under a nickname.
pub open spec fn with_local_nickname(
    s: StorageModel,
    actor_id: i64,
    nickname: Seq<char>,
) -> StorageModel {
    (StorageModel { local_player_id: Some(actor_id), ..s }).bound_to_name(
        actor_id as i32,
        nickname,
    )
}

/// Binds an id to the local player under a nickname, whatever nickname the id had.
pub fn bind_local_nickname(storage: &mut DataStorage, actor_id: i64, nickname: &str)
    ensures
        final(storage)@ == with_local_nickname(old(storage)@, actor_id, nickname@),
{
    storage.set_local_player_id(Some(actor_id));
    storage.bind_nickname(actor_id as i32, nickname);
}

/// Drops the combat so far; nicknames are learned anew, but for the permanent ones.
pub fn reset_combat(calc: &mut DpsCalculator, storage: &mut DataStorage, log: &mut PacketLog)
    ensures
        final(calc)@ == old(calc)@.restarted(),
        final(storage)@ == old(storage)@.flushed().nicknames_reset(),
        final(log)@ == Map::<i32, Seq<ParsedDamagePacket>>::empty(),
{
    calc.restart_target_selection(storage, log, true);
    storage.reset_nicknames();
    assert(final(storage)@ =~= old(storage)@.flushed().nicknames_reset());
}

/// Whether the id goes by the nickname.
pub open spec fn is_called(s: StorageModel, id: i32, nickname: Seq<char>) -> bool {
    s.nicknames.contains_key(id) && s.nicknames[id] == nickname
}

/// A nickname that is bound to the local player is there at once, and still after a reset. The
/// binding stays too, where the id fits in 32 bits.
pub proof fn law_local_nickname_outlives_a_reset(
    s: StorageModel,
    actor_id: i64,
    nickname: Seq<char>,
)
    ensures
        ({
            let bound = with_local_nickname(s, actor_id, nickname);
            let id = actor_id as i32;
            &&& is_called(bound, id, nickname)
            &&& is_called(bound.nicknames_reset(), id, nickname)
            &&& is_called(bound.flushed().nicknames_reset(), id, nickname)
            &&& i32::MIN <= actor_id <= i32::MAX ==> bound.local_player_id == Some(actor_id)
                && bound.flushed().nicknames_reset().local_player_id == Some(actor_id)
        }),
{
}

/// An id that is bound to the local player goes by the local character's name at once, and still
/// after a reset, whatever it went by before. The binding stays too, where the id fits in 32 bits.
pub proof fn law_local_actor_is_named_for_good(s: StorageModel, actor_id: i64, name: Seq<char>)
    requires
        actor_id > 0,
        s.local_character_name == Some(name),
        text::trimmed(name).len() > 0,
    ensures
        ({
            let bound = with_local_actor(s, actor_id);
            let id = actor_id as i32;
            &&& is_called(bound, id, text::trimmed(name))
            &&& is_called(bound.nicknames_reset(), id, text::trimmed(name))
            &&& is_called(bound.flushed().nicknames_reset(), id, text::trimmed(name))
            &&& actor_id <= i32::MAX ==> bound.local_player_id == Some(actor_id)
                && bound.flushed().nicknames_reset().local_player_id == Some(actor_id)
        }),
{
}

/// A local player that is known goes by a new character name at once, and still after a reset.
pub proof fn law_new_character_name_reaches_the_player(
    s: StorageModel,
    local: i64,
    name: Seq<char>,
)
    requires
        s.local_player_id == Some(local),
        text::trimmed(name).len() > 0,
    ensures
        ({
            let named = with_character_name(s, name);
            &&& is_called(named, local as i32, text::trimmed(name))
            &&& is_called(named.nicknames_reset(), local as i32, text::trimmed(name))
            &&& is_called(named.flushed().nicknames_reset(), local as i32, text::trimmed(name))
        }),
{
}

/// An id that is not positive takes the binding away and changes nothing else; without a character
/// name, or with one of white space alone, any other is bound and changes nothing else.
pub proof fn law_a_binding_without_a_name(s: StorageModel, actor_id: i64)
    ensures
        actor_id <= 0 ==> with_local_actor(s, actor_id) == (StorageModel {
            local_player_id: None,
            ..s
        }),
        actor_id > 0 && (s.local_character_name is None || text::trimmed(
            s.local_character_name->0,
        ).len() == 0) ==> with_local_actor(s, actor_id) == (StorageModel {
            local_player_id: Some(actor_id),
            ..s
        }),
{
}

/// A character name is kept as it is given. While the local player is not known, or where the name
/// is white space alone, nothing else changes.
pub proof fn law_a_character_name_is_kept(s: StorageModel, name: Seq<char>)
    ensures
        with_character_name(s, name).local_character_name == Some(name),
        s.local_player_id is None || text::trimmed(name).len() == 0 ==> with_character_name(
            s,
            name,
        ) == (StorageModel { local_character_name: Some(name), ..s }),
{
}

/// What is known of the capture.
#[derive(Debug)]
pub struct CaptureStatus {
    /// Whether the port of the game is known.
    pub locked: bool,
    pub port: Option<u16>,
    pub device: String,
    pub ip: String,
    pub local_player_id: Option<i64>,
    pub character_name: Option<String>,
}

/// What is known of the capture: without a device, the capture is on this machine.
pub fn capture_status(
    port: Option<u16>,
    device: Option<String>,
    storage: &DataStorage,
) -> (r: CaptureStatus)
    ensures
        r.locked == port is Some,
        r.port == port,
        r.device@ == (match device {
            Some(d) => d@,
            None => Seq::empty(),
        }),
        r.ip@ == (match device {
            Some(d) => d@,
            None => "127.0.0.1"@,
        }),
        r.local_player_id == storage@.local_player_id,
        data_storage::text_of(r.character_name) == storage@.local_character_name,
{
    let local_player_id = storage.local_player_id();
    let character_name = storage.local_character_name();
    let locked = port.is_some();
    match device {
        Some(d) => CaptureStatus {
            locked,
            port,
            device: d.clone(),
            ip: d,
            local_player_id,
            character_name,
        },
        None => CaptureStatus {
            locked,
            port,
            device: String::new(),
            ip: "127.0.0.1".to_owned(),
            local_player_id,
            character_name,
        },
    }
}

/// The device to prefer: none where nothing but white space is given.
pub fn preferred_device(device: String) -> (r: Option<String>)
    ensures
        r == (if text::trimmed(device@).len() == 0 {
            None
        } else {
            Some(device)
        }),
{
    if text::trim(device.as_str()).is_empty() {
        None
    } else {
        Some(device)
    }
}

/// The list of integers that a text in JSON spells; none where it spells no such list.
pub uninterp spec fn json_i32_list(s: Seq<char>) -> Option<Seq<i32>>;

/// Calls `serde_json::from_str` for a list of integers of 32 bits. What it returns depends on the
/// text alone: the list, or nothing where it reports an error. Beyond that nothing is claimed of
/// it.
#[verifier::external_body]
fn read_i32_list(s: &str) -> (r: Option<Vec<i32>>)
    ensures
        (match r {
            Some(v) => Some(v@),
            None => None,
        }) == json_i32_list(s@),
{
    serde_json::from_str::<Vec<i32>>(s).ok()
}

/// The skills that do damage over time, from the text of the list; none where it cannot be read.
pub fn dot_skill_ids(json: &str) -> (r: HashSet<i32>)
    ensures
        r@ == (match json_i32_list(json@) {
            Some(ids) => ids.to_set(),
            None => Set::empty(),
        }),
{
    match read_i32_list(json) {
        Some(ids) => keys::id_set(&ids),
        None => HashSet::new(),
    }
}

} // verus!
