//! What the meter shows.
use crate::entity::personal_data::{PersonalData, PersonalModel};
use std::collections::HashMap;
use vstd::prelude::*;

verus! {

broadcast use vstd::std_specs::hash::group_hash_axioms;

/// What the meter shows.
#[verifier::ext_equal]
pub struct DpsModel {
    pub players: Map<i32, PersonalModel>,
    pub target_name: Seq<char>,
    pub target_mode: Seq<char>,
    pub target_id: i32,
    pub battle_time: i64,
    pub counted_damage: i64,
    pub local_player_id: Option<i64>,
    pub target_max_hp: i64,
    pub target_total_damage: i64,
    pub target_current_hp: i64,
}

impl DpsModel {
    /// A meter with nothing to show.
    pub open spec fn blank() -> Self {
        DpsModel {
            players: Map::empty(),
            target_name: Seq::empty(),
            target_mode: "bossTargets"@,
            target_id: 0,
            battle_time: 0,
            counted_damage: 0,
            local_player_id: None,
            target_max_hp: 0,
            target_total_damage: 0,
            target_current_hp: (-1int) as i64,
        }
    }
}

/// The models of a table of players.
pub open spec fn personal_models(m: Map<i32, PersonalData>) -> Map<i32, PersonalModel> {
    m.map_values(|d: PersonalData| d@)
}

/// What the meter shows.
#[derive(Debug)]
pub struct DpsData {
    pub map: HashMap<i32, PersonalData>,
    pub target_name: String,
    pub target_mode: String,
    pub target_id: i32,
    pub battle_time: i64,
    /// Damage of all the events that the players were counted from; a player's share is a share
    /// of this.
    pub counted_damage: i64,
    pub local_player_id: Option<i64>,
    /// Health of the one boss that is shown, when full; zero where it is not known, where another
    /// target is shown, or several are.
    pub target_max_hp: i64,
    /// Damage done so far to what is shown.
    pub target_total_damage: i64,
    /// Health of the target now; minus one where it was not observed.
    pub target_current_hp: i64,
}

impl View for DpsData {
    type V = DpsModel;

    open spec fn view(&self) -> DpsModel {
        DpsModel {
            players: personal_models(self.map@),
            target_name: self.target_name@,
            target_mode: self.target_mode@,
            target_id: self.target_id,
            battle_time: self.battle_time,
            counted_damage: self.counted_damage,
            local_player_id: self.local_player_id,
            target_max_hp: self.target_max_hp,
            target_total_damage: self.target_total_damage,
            target_current_hp: self.target_current_hp,
        }
    }
}

impl DpsData {
    /// A meter with nothing to show.
    pub fn new() -> (r: Self)
        ensures
            r@ == DpsModel::blank(),
    {
        let r = DpsData {
            map: HashMap::new(),
            target_name: String::new(),
            target_mode: "bossTargets".to_owned(),
            target_id: 0,
            battle_time: 0,
            counted_damage: 0,
            local_player_id: None,
            target_max_hp: 0,
            target_total_damage: 0,
            target_current_hp: -1,
        };
        assert(r@ =~= DpsModel::blank());
        r
    }
}

impl Clone for DpsData {
    fn clone(&self) -> (r: Self)
        ensures
            r@ == self@,
    {
        DpsData {
            map: self.map.clone(),
            target_name: self.target_name.clone(),
            target_mode: self.target_mode.clone(),
            target_id: self.target_id,
            battle_time: self.battle_time,
            counted_damage: self.counted_damage,
            local_player_id: self.local_player_id,
            target_max_hp: self.target_max_hp,
            target_total_damage: self.target_total_damage,
            target_current_hp: self.target_current_hp,
        }
    }
}

} // verus!
