//! One damage event as it comes off the wire.
use crate::entity::special_damage::SpecialDamage;
use vstd::prelude::*;

verus! {

/// A decoded damage event.
#[derive(Debug, Clone)]
pub struct ParsedDamagePacket {
    /// Number of the event; no two events share one.
    pub id: i64,
    /// When it was seen, in milliseconds.
    pub timestamp: i64,
    pub actor_id: i32,
    pub target_id: i32,
    pub skill_code: i32,
    /// Damage of the main hit.
    pub damage: i32,
    /// Damage of the event as a whole.
    pub total_damage: i32,
    pub is_dot: bool,
    pub is_crit: bool,
    pub specials: Vec<SpecialDamage>,
    pub multi_hit_count: i32,
    pub multi_hit_damage: i32,
    pub heal_amount: i32,
    pub spec_flags: [bool; 5],
}

impl ParsedDamagePacket {
    /// Whether the event carries the mark.
    pub open spec fn marked(self, mark: SpecialDamage) -> bool {
        self.specials@.contains(mark)
    }

    /// Whether the event carries the mark.
    pub fn has_special(&self, mark: SpecialDamage) -> (r: bool)
        ensures
            r == self.marked(mark),
    {
        let mut i: usize = 0;
        while i < self.specials.len()
            invariant
                i <= self.specials@.len(),
                forall|j: int| 0 <= j < i ==> self.specials@[j] != mark,
            decreases self.specials@.len() - i,
        {
            if self.specials[i] == mark {
                return true;
            }
            i += 1;
        }
        false
    }
}

} // verus!
