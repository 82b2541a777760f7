//! Character classes and the skills that give them away.
use vstd::prelude::*;

verus! {

/// A character class, known by the prefix of its skill codes.
#[derive(Debug, Clone, Copy, PartialEq, Eq, Structural)]
pub struct JobClass {
    pub prefix: i32,
}

impl JobClass {
    /// The prefix of the class's skill codes.
    pub fn class_prefix(&self) -> (r: i32)
        ensures
            r == self.prefix,
    {
        self.prefix
    }
}

/// The skill codes from `first` to `last`, both included.
#[derive(Debug, Clone, Copy)]
pub struct SkillRange {
    pub first: i32,
    pub last: i32,
}

/// A class, its name, and the skill codes that belong to it.
#[derive(Debug)]
pub struct JobEntry {
    pub job: JobClass,
    pub name: String,
    /// Skills that only this class uses.
    pub skills: Vec<SkillRange>,
    /// Skills that hint at this class, those of its summons among them.
    pub loose_skills: Vec<SkillRange>,
}

/// Whether one of the ranges holds the code.
pub open spec fn covers(ranges: Seq<SkillRange>, code: i32) -> bool {
    exists|i: int|
        0 <= i < ranges.len() && (#[trigger] ranges[i]).first <= code && code <= ranges[i].last
}

fn any_covers(ranges: &Vec<SkillRange>, code: i32) -> (r: bool)
    ensures
        r == covers(ranges@, code),
{
    let mut i: usize = 0;
    while i < ranges.len()
        invariant
            i <= ranges@.len(),
            forall|j: int|
                0 <= j < i ==> !((#[trigger] ranges@[j]).first <= code && code <= ranges@[j].last),
        decreases ranges@.len() - i,
    {
        if ranges[i].first <= code && code <= ranges[i].last {
            assert(ranges@[i as int].first <= code);
            return true;
        }
        i += 1;
    }
    false
}

impl JobEntry {
    /// Whether the code belongs to the class, or hints at it where `loose` is set.
    pub open spec fn claims(self, code: i32, loose: bool) -> bool {
        covers(
            if loose {
                self.loose_skills@
            } else {
                self.skills@
            },
            code,
        )
    }
}

/// The first entry that claims the code.
pub open spec fn first_claim(entries: Seq<JobEntry>, code: i32, loose: bool) -> Option<JobEntry>
    decreases entries.len(),
{
    if entries.len() == 0 {
        None
    } else if entries[0].claims(code, loose) {
        Some(entries[0])
    } else {
        first_claim(entries.skip(1), code, loose)
    }
}

/// The first entry of the class.
pub open spec fn first_of_job(entries: Seq<JobEntry>, job: JobClass) -> Option<JobEntry>
    decreases entries.len(),
{
    if entries.len() == 0 {
        None
    } else if entries[0].job == job {
        Some(entries[0])
    } else {
        first_of_job(entries.skip(1), job)
    }
}

/// Every class the meter knows.
#[derive(Debug)]
pub struct JobTable {
    pub entries: Vec<JobEntry>,
}

impl JobTable {
    /// The class that owns the skill.
    pub open spec fn job_of(self, code: i32) -> Option<JobClass> {
        match first_claim(self.entries@, code, false) {
            Some(e) => Some(e.job),
            None => None,
        }
    }

    /// The class that the skill hints at.
    pub open spec fn loose_job_of(self, code: i32) -> Option<JobClass> {
        match first_claim(self.entries@, code, true) {
            Some(e) => Some(e.job),
            None => None,
        }
    }

    /// The name of the class; empty for one that is not in the table.
    pub open spec fn name_of(self, job: JobClass) -> Seq<char> {
        match first_of_job(self.entries@, job) {
            Some(e) => e.name@,
            None => Seq::empty(),
        }
    }

    /// The name of the class that owns the skill; empty if none does.
    pub open spec fn job_name_of(self, code: i32) -> Seq<char> {
        match self.job_of(code) {
            Some(job) => self.name_of(job),
            None => Seq::empty(),
        }
    }

    /// The prefix of the class that owns the skill; zero if none does.
    pub open spec fn job_prefix_of(self, code: i32) -> i32 {
        match self.job_of(code) {
            Some(job) => job.prefix,
            None => 0,
        }
    }

    fn find_claim(&self, code: i32, loose: bool) -> (r: Option<JobClass>)
        ensures
            r == (match first_claim(self.entries@, code, loose) {
                Some(e) => Some(e.job),
                None => None,
            }),
    {
        let mut i: usize = 0;
        assert(self.entries@.skip(0) =~= self.entries@);
        while i < self.entries.len()
            invariant
                i <= self.entries@.len(),
                first_claim(self.entries@, code, loose) == first_claim(
                    self.entries@.skip(i as int),
                    code,
                    loose,
                ),
            decreases self.entries@.len() - i,
        {
            let ghost rest = self.entries@.skip(i as int);
            assert(rest[0] == self.entries@[i as int]);
            assert(rest.skip(1) =~= self.entries@.skip(i + 1));
            let claimed = if loose {
                any_covers(&self.entries[i].loose_skills, code)
            } else {
                any_covers(&self.entries[i].skills, code)
            };
            if claimed {
                return Some(self.entries[i].job);
            }
            i += 1;
        }
        None
    }

    /// The class that owns the skill.
    pub fn convert_from_skill(&self, code: i32) -> (r: Option<JobClass>)
        ensures
            r == self.job_of(code),
    {
        self.find_claim(code, false)
    }

    /// The class that the skill hints at.
    pub fn convert_from_skill_loose(&self, code: i32) -> (r: Option<JobClass>)
        ensures
            r == self.loose_job_of(code),
    {
        self.find_claim(code, true)
    }

    /// The name of the class.
    pub fn class_name(&self, job: JobClass) -> (r: String)
        ensures
            r@ == self.name_of(job),
    {
        let mut i: usize = 0;
        assert(self.entries@.skip(0) =~= self.entries@);
        while i < self.entries.len()
            invariant
                i <= self.entries@.len(),
                first_of_job(self.entries@, job) == first_of_job(self.entries@.skip(i as int), job),
            decreases self.entries@.len() - i,
        {
            let ghost rest = self.entries@.skip(i as int);
            assert(rest[0] == self.entries@[i as int]);
            assert(rest.skip(1) =~= self.entries@.skip(i + 1));
            if self.entries[i].job == job {
                return self.entries[i].name.clone();
            }
            i += 1;
        }
        String::new()
    }

    /// The name of the class that owns the skill.
    pub fn class_name_from_skill(&self, code: i32) -> (r: String)
        ensures
            r@ == self.job_name_of(code),
    {
        match self.convert_from_skill(code) {
            Some(job) => self.class_name(job),
            None => String::new(),
        }
    }

    /// The prefix of the class that owns the skill.
    pub fn class_prefix_from_skill(&self, code: i32) -> (r: i32)
        ensures
            r == self.job_prefix_of(code),
    {
        match self.convert_from_skill(code) {
            Some(job) => job.class_prefix(),
            None => 0,
        }
    }
}

} // verus!
