//! What is known of the game itself.
use crate::entity::job_class::JobTable;
use crate::i18n::lookup::{NpcLookup, SkillLookup};
use vstd::prelude::*;

verus! {

/// Classes, skills and creatures of the game.
#[derive(Debug)]
pub struct GameData {
    pub jobs: JobTable,
    pub skills: SkillLookup,
    pub npcs: NpcLookup,
}

} // verus!
