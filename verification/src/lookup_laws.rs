//! What holds of names, skill families and classes.
use crate::entity::job_class;
use crate::entity::job_class::{JobClass, JobEntry, JobTable, SkillRange};
use crate::i18n::lookup;
use crate::i18n::lookup::{NpcLookup, SkillLookup};
use vstd::prelude::*;

verus! {

/// The family of a skill is its code with zeros for the last four digits.
pub proof fn law_a_family_ends_in_zeros(code: i32)
    ensures
        code >= 0 ==> {
            let family = lookup::skill_family(code);
            family % 10_000 == 0 && family <= code && code < family + 10_000
        },
        code < 0 ==> {
            let family = lookup::skill_family(code);
            (-family) % 10_000 == 0 && family >= code && code > family - 10_000
        },
{
}

/// A skill is counted under its own code or that of its family, and under the latter just where
/// the family has a name and the skill has none of its own, or the same. So what it is counted as
/// goes by its name, where it has one.
pub proof fn law_a_skill_is_counted_under_its_name(skills: SkillLookup, code: i32)
    ensures
        ({
            let family = lookup::skill_family(code);
            let name = |c: i32|
                if skills.names@.contains_key(c) {
                    skills.names@[c]@
                } else {
                    Seq::<char>::empty()
                };
            let counted = skills.counted_as(code);
            &&& counted == code || counted == family
            &&& name(code).len() > 0 ==> name(counted) == name(code)
            &&& name(code).len() == 0 && name(family).len() > 0 ==> counted == family
            &&& name(family).len() == 0 ==> counted == code
            &&& name(code) == name(family) && name(family).len() > 0 ==> counted == family
        }),
{
}

/// A skill is shown under the name that was set for it, and otherwise under that of the game data;
/// one that neither knows has none. A creature goes by the name of the game data.
pub proof fn law_which_name_is_shown(skills: SkillLookup, npcs: NpcLookup, code: i32)
    ensures
        skills.shown_names@.contains_key(code) ==> skills.shown_name_of(code)
            == skills.shown_names@[code]@,
        !skills.shown_names@.contains_key(code) && skills.names@.contains_key(code)
            ==> skills.shown_name_of(code) == skills.names@[code]@,
        !skills.shown_names@.contains_key(code) && !skills.names@.contains_key(code)
            ==> skills.shown_name_of(code).len() == 0,
        skills.names@.contains_key(code) ==> skills.name_of(code) == skills.names@[code]@,
        !skills.names@.contains_key(code) ==> skills.name_of(code).len() == 0,
        npcs.names@.contains_key(code) ==> npcs.name_of(code) == npcs.names@[code]@,
        !npcs.names@.contains_key(code) ==> npcs.name_of(code).len() == 0,
{
}

/// Whether the code lies in one of the ranges, their first and last codes included.
pub open spec fn lies_in(code: i32, ranges: Seq<SkillRange>) -> bool {
    exists|i: int| 0 <= i < ranges.len() && #[trigger] is_between(code, ranges[i])
}

/// Whether the code lies in the range.
pub open spec fn is_between(code: i32, range: SkillRange) -> bool {
    range.first <= code && code <= range.last
}

/// Whether the entry is the first whose skills, or whose hints, hold the code.
pub open spec fn is_first_to_claim(
    entries: Seq<JobEntry>,
    code: i32,
    loose: bool,
    k: int,
) -> bool {
    &&& 0 <= k < entries.len()
    &&& lies_in(code, if loose { entries[k].loose_skills@ } else { entries[k].skills@ })
    &&& forall|j: int|
        0 <= j < k ==> !lies_in(
            code,
            if loose { (#[trigger] entries[j]).loose_skills@ } else { entries[j].skills@ },
        )
}

proof fn lemma_covers(ranges: Seq<SkillRange>, code: i32)
    ensures
        job_class::covers(ranges, code) == lies_in(code, ranges),
{
    if job_class::covers(ranges, code) {
        let i = choose|i: int|
            0 <= i < ranges.len() && (#[trigger] ranges[i]).first <= code && code
                <= ranges[i].last;
        assert(is_between(code, ranges[i]));
    }
    if lies_in(code, ranges) {
        let i = choose|i: int| 0 <= i < ranges.len() && #[trigger] is_between(code, ranges[i]);
        assert(ranges[i].first <= code);
    }
}

proof fn lemma_claim(entries: Seq<JobEntry>, code: i32, loose: bool)
    ensures
        match job_class::first_claim(entries, code, loose) {
            Some(e) => exists|k: int| #[trigger]
                is_first_to_claim(entries, code, loose, k) && entries[k] == e,
            None => forall|k: int|
                0 <= k < entries.len() ==> !lies_in(
                    code,
                    if loose {
                        (#[trigger] entries[k]).loose_skills@
                    } else {
                        entries[k].skills@
                    },
                ),
        },
    decreases entries.len(),
{
    if entries.len() > 0 {
        lemma_covers(entries[0].loose_skills@, code);
        lemma_covers(entries[0].skills@, code);
        if entries[0].claims(code, loose) {
            assert(is_first_to_claim(entries, code, loose, 0));
        } else {
            let rest = entries.skip(1);
            lemma_claim(rest, code, loose);
            assert forall|k: int| 0 < k < entries.len() implies #[trigger] entries[k] == rest[k
                - 1] by {}
            match job_class::first_claim(rest, code, loose) {
                Some(e) => {
                    let k = choose|k: int| #[trigger]
                        is_first_to_claim(rest, code, loose, k) && rest[k] == e;
                    assert(entries[k + 1] == rest[k]);
                    assert forall|j: int| 0 <= j < k + 1 implies !lies_in(
                        code,
                        if loose {
                            (#[trigger] entries[j]).loose_skills@
                        } else {
                            entries[j].skills@
                        },
                    ) by {
                        if j > 0 {
                            assert(entries[j] == rest[j - 1]);
                        }
                    }
                    assert(is_first_to_claim(entries, code, loose, k + 1));
                },
                None => {
                    assert forall|k: int| 0 <= k < entries.len() implies !lies_in(
                        code,
                        if loose {
                            (#[trigger] entries[k]).loose_skills@
                        } else {
                            entries[k].skills@
                        },
                    ) by {
                        if k > 0 {
                            assert(entries[k] == rest[k - 1]);
                        }
                    }
                },
            }
        }
    }
}

/// The class that owns a skill is that of the first entry one of whose ranges holds the code; the
/// class that it hints at is that of the first entry one of whose looser ranges does. Where no entry
/// claims the code, there is none.
pub proof fn law_the_first_to_claim_a_skill_owns_it(jobs: JobTable, code: i32, k: int)
    ensures
        is_first_to_claim(jobs.entries@, code, false, k) ==> jobs.job_of(code) == Some(
            jobs.entries@[k].job,
        ) && jobs.job_prefix_of(code) == jobs.entries@[k].job.prefix,
        is_first_to_claim(jobs.entries@, code, true, k) ==> jobs.loose_job_of(code) == Some(
            jobs.entries@[k].job,
        ),
        jobs.job_of(code) is Some ==> exists|i: int| #[trigger]
            is_first_to_claim(jobs.entries@, code, false, i),
        jobs.loose_job_of(code) is Some ==> exists|i: int| #[trigger]
            is_first_to_claim(jobs.entries@, code, true, i),
        jobs.job_of(code) is None ==> jobs.job_prefix_of(code) == 0 && jobs.job_name_of(code).len()
            == 0,
{
    lemma_claim(jobs.entries@, code, false);
    lemma_claim(jobs.entries@, code, true);
    if is_first_to_claim(jobs.entries@, code, false, k) {
        lemma_one_claim(jobs.entries@, code, false, k);
    }
    if is_first_to_claim(jobs.entries@, code, true, k) {
        lemma_one_claim(jobs.entries@, code, true, k);
    }
}

proof fn lemma_one_claim(entries: Seq<JobEntry>, code: i32, loose: bool, k: int)
    requires
        is_first_to_claim(entries, code, loose, k),
    ensures
        job_class::first_claim(entries, code, loose) == Some(entries[k]),
{
    lemma_claim(entries, code, loose);
    match job_class::first_claim(entries, code, loose) {
        Some(e) => {
            let i = choose|i: int| #[trigger]
                is_first_to_claim(entries, code, loose, i) && entries[i] == e;
            if i < k {
                assert(!lies_in(
                    code,
                    if loose { entries[i].loose_skills@ } else { entries[i].skills@ },
                ));
            }
            if k < i {
                assert(!lies_in(
                    code,
                    if loose { entries[k].loose_skills@ } else { entries[k].skills@ },
                ));
            }
        },
        None => {
            assert(!lies_in(
                code,
                if loose { entries[k].loose_skills@ } else { entries[k].skills@ },
            ));
        },
    }
}

/// The name of a class is that of its first entry; one without an entry has none. The name of the
/// class that owns a skill is the name of that class.
pub proof fn law_a_class_goes_by_the_name_of_its_entry(jobs: JobTable, job: JobClass, k: int, code: i32)
    requires
        0 <= k < jobs.entries@.len(),
        jobs.entries@[k].job == job,
        forall|j: int| 0 <= j < k ==> (#[trigger] jobs.entries@[j]).job != job,
    ensures
        jobs.name_of(job) == jobs.entries@[k].name@,
        jobs.job_of(code) == Some(job) ==> jobs.job_name_of(code) == jobs.entries@[k].name@,
{
    lemma_first_of_job(jobs.entries@, job, k);
}

proof fn lemma_first_of_job(entries: Seq<JobEntry>, job: JobClass, k: int)
    requires
        0 <= k < entries.len(),
        entries[k].job == job,
        forall|j: int| 0 <= j < k ==> (#[trigger] entries[j]).job != job,
    ensures
        job_class::first_of_job(entries, job) == Some(entries[k]),
    decreases entries.len(),
{
    if k > 0 {
        let rest = entries.skip(1);
        assert(entries[0].job != job);
        assert forall|j: int| 0 <= j < k - 1 implies (#[trigger] rest[j]).job != job by {
            assert(rest[j] == entries[j + 1]);
        }
        lemma_first_of_job(rest, job, k - 1);
    }
}

} // verus!
