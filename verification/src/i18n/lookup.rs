//! Names of skills and creatures in the player's language.
use std::collections::{HashMap, HashSet};
use vstd::prelude::*;

verus! {

broadcast use vstd::std_specs::hash::group_hash_axioms;

/// The text that a table holds for the code; empty if it holds none.
pub open spec fn text_for(table: Map<i32, String>, code: i32) -> Seq<char> {
    if table.contains_key(code) {
        table[code]@
    } else {
        Seq::empty()
    }
}

fn lookup_text(table: &HashMap<i32, String>, code: i32) -> (r: String)
    ensures
        r@ == text_for(table@, code),
{
    match table.get(&code) {
        Some(name) => name.clone(),
        None => String::new(),
    }
}

/// The code of the skill family: the code with its last four digits cleared.
pub open spec fn skill_family(code: i32) -> i32 {
    if code >= 0 {
        (code - code % 10000) as i32
    } else {
        -((-code) - (-code) % 10000) as i32
    }
}

/// The code of the skill family.
pub fn family_code(code: i32) -> (r: i32)
    ensures
        r == skill_family(code),
{
    if code >= 0 {
        code - code % 10000
    } else {
        let positive: i64 = -(code as i64);
        (-(positive - positive % 10000)) as i32
    }
}

/// Skill names, by code.
#[derive(Debug)]
pub struct SkillLookup {
    /// The names as the game data has them.
    pub names: HashMap<i32, String>,
    /// Names to show in place of those of the game data.
    pub shown_names: HashMap<i32, String>,
}

impl SkillLookup {
    /// The name that the game data has for the skill.
    pub open spec fn name_of(self, code: i32) -> Seq<char> {
        text_for(self.names@, code)
    }

    /// The name to show for the skill.
    pub open spec fn shown_name_of(self, code: i32) -> Seq<char> {
        if self.shown_names@.contains_key(code) {
            self.shown_names@[code]@
        } else {
            self.name_of(code)
        }
    }

    /// The code under which uses of the skill are counted: that of its family, where the family
    /// has a name and the skill has none of its own or the same one.
    pub open spec fn counted_as(self, code: i32) -> i32 {
        let family = skill_family(code);
        if self.name_of(family).len() > 0 && (self.name_of(code).len() == 0 || self.name_of(code)
            == self.name_of(family)) {
            family
        } else {
            code
        }
    }

    /// The name that the game data has for the skill; empty if it has none.
    pub fn get_skill_name(&self, code: i32) -> (r: String)
        ensures
            r@ == self.name_of(code),
    {
        lookup_text(&self.names, code)
    }

    /// The name to show for the skill.
    pub fn lookup_skill_name(&self, code: i32) -> (r: String)
        ensures
            r@ == self.shown_name_of(code),
    {
        match self.shown_names.get(&code) {
            Some(name) => name.clone(),
            None => self.get_skill_name(code),
        }
    }

    /// The code under which uses of the skill are counted.
    pub fn counted_code(&self, code: i32) -> (r: i32)
        ensures
            r == self.counted_as(code),
    {
        let family: i32 = family_code(code);
        let family_name = self.get_skill_name(family);
        if family_name.as_str().is_empty() {
            return code;
        }
        let own_name = self.get_skill_name(code);
        if own_name.as_str().is_empty() || own_name == family_name {
            family
        } else {
            code
        }
    }
}

/// Names of creatures by kind, and which kinds are bosses.
#[derive(Debug)]
pub struct NpcLookup {
    pub names: HashMap<i32, String>,
    pub bosses: HashSet<i32>,
}

impl NpcLookup {
    /// The name of the kind; empty if it has none.
    pub open spec fn name_of(self, code: i32) -> Seq<char> {
        text_for(self.names@, code)
    }

    /// The name of the kind; empty if it has none.
    pub fn get_npc_name(&self, code: i32) -> (r: String)
        ensures
            r@ == self.name_of(code),
    {
        lookup_text(&self.names, code)
    }

    /// Whether the kind is a boss.
    pub fn is_boss(&self, code: i32) -> (r: bool)
        ensures
            r == self.bosses@.contains(code),
    {
        self.bosses.contains(&code)
    }
}

/// The family code keeps all but the last four digits, so taking it twice changes nothing.
pub proof fn law_family_of_a_family_is_itself(code: i32)
    ensures
        skill_family(skill_family(code)) == skill_family(code),
{
}

} // verus!
