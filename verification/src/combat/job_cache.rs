//! Classes remembered by nickname.
use crate::text;
use vstd::hash_map::StringHashMap;
use vstd::prelude::*;

verus! {

/// The lower case of a text, as `str::to_lowercase` makes it.
pub uninterp spec fn lowercased(s: Seq<char>) -> Seq<char>;

/// Calls `str::to_lowercase`. What it returns depends on the text alone; beyond that nothing is
/// claimed of it.
#[verifier::external_body]
fn to_lowercase(s: &str) -> (r: String)
    ensures
        r@ == lowercased(s@),
{
    s.to_lowercase()
}

/// The key under which the class of a nickname is remembered.
pub open spec fn job_key(nickname: Seq<char>) -> Seq<char> {
    lowercased(text::trimmed(nickname))
}

/// Whether a key can stand for a player: it is not empty and not a bare number.
pub open spec fn is_player_key(key: Seq<char>) -> bool {
    exists|i: int| 0 <= i < key.len() && !('0' <= #[trigger] key[i] && key[i] <= '9')
}

/// Whether the text names a class: it is neither empty nor "Unknown".
pub open spec fn is_class_name(job: Seq<char>) -> bool {
    job.len() > 0 && job != "Unknown"@
}

/// The class remembered under a key; empty if there is none.
pub open spec fn job_under(cache: Map<Seq<char>, Seq<char>>, key: Seq<char>) -> Seq<char> {
    if is_player_key(key) && cache.contains_key(key) && is_class_name(cache[key]) {
        cache[key]
    } else {
        Seq::empty()
    }
}

/// The memory with a class put under a key, where both are fit to be remembered.
pub open spec fn remembered(
    cache: Map<Seq<char>, Seq<char>>,
    key: Seq<char>,
    job: Seq<char>,
) -> Map<Seq<char>, Seq<char>> {
    if is_class_name(job) && is_player_key(key) {
        cache.insert(key, job)
    } else {
        cache
    }
}

fn player_key(key: &str) -> (r: bool)
    ensures
        r == is_player_key(key@),
{
    let cs = text::chars_of(key);
    let mut i: usize = 0;
    while i < cs.len()
        invariant
            i <= cs@.len(),
            cs@ == key@,
            forall|j: int| 0 <= j < i ==> '0' <= #[trigger] cs@[j] && cs@[j] <= '9',
        decreases cs@.len() - i,
    {
        if !('0' <= cs[i] && cs[i] <= '9') {
            assert(!('0' <= key@[i as int] && key@[i as int] <= '9'));
            return true;
        }
        i += 1;
    }
    false
}

fn class_name(job: &str) -> (r: bool)
    ensures
        r == is_class_name(job@),
{
    !job.is_empty() && !text::same_text(job, "Unknown")
}

/// Classes remembered by nickname, so that a player's class is known before its first telling
/// skill.
pub struct JobCache {
    jobs: StringHashMap<String>,
}

impl View for JobCache {
    type V = Map<Seq<char>, Seq<char>>;

    closed spec fn view(&self) -> Map<Seq<char>, Seq<char>> {
        self.jobs@.map_values(|s: String| s@)
    }
}

impl JobCache {
    /// A memory of nothing.
    pub fn new() -> (r: Self)
        ensures
            r@ == Map::<Seq<char>, Seq<char>>::empty(),
    {
        let r = JobCache { jobs: StringHashMap::new() };
        assert(r@ =~= Map::empty());
        r
    }

    /// The class remembered under a key.
    pub fn job_under_key(&self, key: &str) -> (r: Option<String>)
        ensures
            match r {
                Some(job) => is_class_name(job@) && job@ == job_under(self@, key@),
                None => job_under(self@, key@) == Seq::<char>::empty(),
            },
    {
        if !player_key(key) {
            return None;
        }
        match self.jobs.get(key) {
            Some(job) => {
                if class_name(job.as_str()) {
                    Some(job.clone())
                } else {
                    None
                }
            },
            None => None,
        }
    }

    /// Remembers a class under a key.
    pub fn remember_under_key(&mut self, key: String, job: &str)
        ensures
            final(self)@ == remembered(old(self)@, key@, job@),
    {
        let ghost before = self@;
        if class_name(job) && player_key(key.as_str()) {
            self.jobs.insert(key, job.to_owned());
        }
        assert(self@ =~= remembered(before, key@, job@));
    }

    /// The class remembered for a nickname.
    pub fn cached_job(&self, nickname: &str) -> (r: Option<String>)
        ensures
            match r {
                Some(job) => is_class_name(job@) && job@ == job_under(self@, job_key(nickname@)),
                None => job_under(self@, job_key(nickname@)) == Seq::<char>::empty(),
            },
    {
        let key = to_lowercase(text::trim(nickname));
        self.job_under_key(key.as_str())
    }

    /// Remembers a class for a nickname.
    pub fn cache_job(&mut self, nickname: &str, job: &str)
        ensures
            final(self)@ == remembered(old(self)@, job_key(nickname@), job@),
    {
        if !class_name(job) {
            return;
        }
        let key = to_lowercase(text::trim(nickname));
        self.remember_under_key(key, job);
    }
}

/// A class that was remembered is found again under the same key, whatever was remembered before.
pub proof fn law_remembered_class_is_found(
    cache: Map<Seq<char>, Seq<char>>,
    key: Seq<char>,
    job: Seq<char>,
)
    requires
        is_class_name(job),
        is_player_key(key),
    ensures
        job_under(remembered(cache, key, job), key) == job,
{
}

} // verus!
