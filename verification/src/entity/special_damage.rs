//! Marks that a hit can carry.
use vstd::prelude::*;

verus! {

/// How a hit landed, beyond its damage.
#[derive(Debug, Clone, Copy, PartialEq, Eq, Hash, Structural)]
pub enum SpecialDamage {
    Back,
    Critical,
    Parry,
    Perfect,
    Double,
    Frontal,
    Endure,
    Unknown4,
    PowerShard,
    Smite,
}

} // verus!
