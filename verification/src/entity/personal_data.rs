//! What one player did in the fight that is shown.
use crate::entity::damage_packet::ParsedDamagePacket;
use vstd::prelude::*;

verus! {

/// One hit of a player.
#[verifier::ext_equal]
pub struct HitModel {
    pub packet_id: i64,
    pub skill_code: i32,
    pub skill_name: Seq<char>,
    pub damage: i32,
}

/// What one player did.
#[verifier::ext_equal]
pub struct PersonalModel {
    pub nickname: Seq<char>,
    pub job: Seq<char>,
    pub amount: i64,
    pub hits: Seq<HitModel>,
}

/// An amount with the damage of the hits added.
pub open spec fn amount_with(amount: i64, hits: Seq<HitModel>) -> i64
    decreases hits.len(),
{
    if hits.len() == 0 {
        amount
    } else {
        amount_with(amount, hits.drop_last()).wrapping_add(hits.last().damage as i64)
    }
}

impl PersonalModel {
    /// A player that has done nothing.
    pub open spec fn idle(nickname: Seq<char>, job: Seq<char>) -> Self {
        PersonalModel { nickname, job, amount: 0, hits: Seq::empty() }
    }

    /// The player with the event counted.
    pub open spec fn hit(self, p: ParsedDamagePacket, skill_name: Seq<char>) -> Self {
        PersonalModel {
            amount: self.amount.wrapping_add(p.total_damage as i64),
            hits: self.hits.push(
                HitModel {
                    packet_id: p.id,
                    skill_code: p.skill_code,
                    skill_name,
                    damage: p.total_damage,
                },
            ),
            ..self
        }
    }

    /// The player with what another did added.
    pub open spec fn merged(self, other: PersonalModel) -> Self {
        PersonalModel {
            amount: self.amount.wrapping_add(other.amount),
            hits: self.hits + other.hits,
            ..self
        }
    }
}

/// One hit of a player.
#[derive(Debug, Clone)]
pub struct SkillHit {
    pub packet_id: i64,
    pub skill_code: i32,
    pub skill_name: String,
    pub damage: i32,
}

impl View for SkillHit {
    type V = HitModel;

    open spec fn view(&self) -> HitModel {
        HitModel {
            packet_id: self.packet_id,
            skill_code: self.skill_code,
            skill_name: self.skill_name@,
            damage: self.damage,
        }
    }
}

/// The models of a sequence of hits.
pub open spec fn hit_models(hits: Seq<SkillHit>) -> Seq<HitModel> {
    hits.map_values(|h: SkillHit| h@)
}

/// What one player did in the fight that is shown.
#[derive(Debug, Clone)]
pub struct PersonalData {
    pub nickname: String,
    /// Name of the class; empty while it is not known.
    pub job: String,
    /// Damage done.
    pub amount: i64,
    /// The hits that make up the damage.
    pub hits: Vec<SkillHit>,
}

impl View for PersonalData {
    type V = PersonalModel;

    open spec fn view(&self) -> PersonalModel {
        PersonalModel {
            nickname: self.nickname@,
            job: self.job@,
            amount: self.amount,
            hits: hit_models(self.hits@),
        }
    }
}

impl PersonalData {
    /// A player of a class that is not known yet.
    pub fn new(nickname: String) -> (r: Self)
        ensures
            r@ == PersonalModel::idle(nickname@, Seq::empty()),
    {
        let r = PersonalData { nickname, job: String::new(), amount: 0, hits: Vec::new() };
        assert(r@.hits =~= Seq::empty());
        r
    }

    /// A player of a known class.
    pub fn with_job(nickname: String, job: String) -> (r: Self)
        ensures
            r@ == PersonalModel::idle(nickname@, job@),
    {
        let r = PersonalData { nickname, job, amount: 0, hits: Vec::new() };
        assert(r@.hits =~= Seq::empty());
        r
    }

    /// Counts the event.
    pub fn process_pdp(&mut self, p: &ParsedDamagePacket, skill_name: &str)
        ensures
            final(self)@ == old(self)@.hit(*p, skill_name@),
    {
        let ghost before = self@;
        self.amount = self.amount.wrapping_add(p.total_damage as i64);
        self.hits.push(
            SkillHit {
                packet_id: p.id,
                skill_code: p.skill_code,
                skill_name: skill_name.to_owned(),
                damage: p.total_damage,
            },
        );
        assert(self@.hits =~= before.hit(*p, skill_name@).hits);
    }

    /// Adds what another did.
    pub fn merge_from(&mut self, other: &PersonalData)
        ensures
            final(self)@ == old(self)@.merged(other@),
    {
        let ghost before = self@;
        self.amount = self.amount.wrapping_add(other.amount);
        let mut i: usize = 0;
        assert(before.hits + other@.hits.take(0) =~= before.hits);
        while i < other.hits.len()
            invariant
                i <= other.hits@.len(),
                self@.nickname == before.nickname,
                self@.job == before.job,
                self@.amount == before.amount.wrapping_add(other.amount),
                self@.hits == before.hits + other@.hits.take(i as int),
            decreases other.hits@.len() - i,
        {
            let ghost held = self@;
            let h = &other.hits[i];
            self.hits.push(
                SkillHit {
                    packet_id: h.packet_id,
                    skill_code: h.skill_code,
                    skill_name: h.skill_name.clone(),
                    damage: h.damage,
                },
            );
            assert(self@.hits =~= held.hits.push(h@));
            assert(other@.hits.take(i + 1) =~= other@.hits.take(i as int).push(h@));
            i += 1;
        }
        assert(other@.hits.take(i as int) =~= other@.hits);
        assert(self@ =~= before.merged(other@));
    }
}

} // verus!
