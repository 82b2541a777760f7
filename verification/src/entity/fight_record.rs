//! A fight to keep.
use crate::entity::details_context;
use crate::entity::details_context::{
    ActorSummaryModel, DetailsActorSummary, DetailsModel, TargetDetailsResponse,
};
use vstd::prelude::*;

verus! {

/// Whether the function turns one text into the other.
pub open spec fn turns_into<F: Fn(&str) -> String>(f: F, from: Seq<char>, to: Seq<char>) -> bool {
    exists|s: &str, r: String| #[trigger] call_ensures(f, (s,), r) && s@ == from && r@ == to
}

/// Whether the function takes every text, and what it returns depends on the text alone.
pub open spec fn goes_by_text<F: Fn(&str) -> String>(f: F) -> bool {
    &&& forall|s: &str| call_requires(f, (s,))
    &&& forall|s: &str, r: String, t: &str, q: String|
        #[trigger] call_ensures(f, (s,), r) && #[trigger] call_ensures(f, (t,), q) && s@ == t@
            ==> r@ == q@
}

/// What the function makes of texts.
pub open spec fn veil_of<F: Fn(&str) -> String>(f: F) -> spec_fn(Seq<char>) -> Seq<char> {
    |from: Seq<char>| choose|to: Seq<char>| turns_into(f, from, to)
}

/// The unreadable form of a nickname, by the given function.
pub(crate) fn veiled<F: Fn(&str) -> String>(nickname: &str, obscure: &F) -> (r: String)
    requires
        goes_by_text(*obscure),
    ensures
        r@ == veil_of(*obscure)(nickname@),
        turns_into(*obscure, nickname@, r@),
{
    let r = obscure(nickname);
    proof {
        assert(turns_into(*obscure, nickname@, r@));
        let to = choose|to: Seq<char>| turns_into(*obscure, nickname@, to);
        assert(turns_into(*obscure, nickname@, to));
    }
    r
}

/// A fight to keep.
#[verifier::ext_equal]
pub struct RecordModel {
    pub id: Seq<char>,
    pub boss_name: Seq<char>,
    pub target_id: i32,
    pub start_time_ms: i64,
    pub duration_ms: i64,
    pub total_damage: i32,
    pub jobs: Seq<Seq<char>>,
    pub job_ids: Seq<i32>,
    pub details: DetailsModel,
    pub actors: Seq<ActorSummaryModel>,
    pub is_train: bool,
    pub app_version: Seq<char>,
    pub mob_code: i32,
}

/// A fight to keep.
#[derive(Debug)]
pub struct FightRecord {
    pub id: String,
    pub boss_name: String,
    pub target_id: i32,
    pub start_time_ms: i64,
    pub duration_ms: i64,
    pub total_damage: i32,
    /// The classes that took part, by name.
    pub jobs: Vec<String>,
    /// The classes that took part, by prefix, whatever the language.
    pub job_ids: Vec<i32>,
    pub details: TargetDetailsResponse,
    /// The players that took part; the nicknames of all but the local player are unreadable.
    pub actors: Vec<DetailsActorSummary>,
    pub is_train: bool,
    pub app_version: String,
    /// The kind of the target, so that its name can be shown in any language.
    pub mob_code: i32,
}

/// The texts of a list of strings.
pub open spec fn text_list(s: Seq<String>) -> Seq<Seq<char>> {
    s.map_values(|t: String| t@)
}

impl View for FightRecord {
    type V = RecordModel;

    open spec fn view(&self) -> RecordModel {
        RecordModel {
            id: self.id@,
            boss_name: self.boss_name@,
            target_id: self.target_id,
            start_time_ms: self.start_time_ms,
            duration_ms: self.duration_ms,
            total_damage: self.total_damage,
            jobs: text_list(self.jobs@),
            job_ids: self.job_ids@,
            details: self.details@,
            actors: details_context::actor_summaries(self.actors@),
            is_train: self.is_train,
            app_version: self.app_version@,
            mob_code: self.mob_code,
        }
    }
}

/// The models of a list of fights.
pub open spec fn record_models(s: Seq<FightRecord>) -> Seq<RecordModel> {
    s.map_values(|r: FightRecord| r@)
}

} // verus!
