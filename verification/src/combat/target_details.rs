//! One fight, skill by skill.
use crate::combat::data_storage;
use crate::combat::data_storage::DataStorage;
use crate::combat::game_data::GameData;
use crate::combat::meter;
use crate::combat::meter::Naming;
use crate::combat::names;
use crate::combat::packet_log::PacketLog;
use crate::combat::ping_tracker;
use crate::combat::ping_tracker::PingTracker;
use crate::combat::storage_model::StorageModel;
use crate::entity::damage_packet::ParsedDamagePacket;
use crate::entity::details_context;
use crate::entity::details_context::{
    DetailSkillEntry, DetailsModel, PingPoint, SkillEntryModel, TargetDetailsResponse,
};
use crate::entity::job_class::JobTable;
use crate::entity::summon_resolver;
use std::collections::{HashMap, HashSet};
use vstd::hash_map::StringHashMap;
use vstd::prelude::*;
use vstd::string::*;

verus! {

broadcast use vstd::std_specs::hash::group_hash_axioms;

/// What is added to the code of damage over time, so that it is not counted with plain hits.
pub const DOT_OFFSET: i32 = 1_000_000_000;

/// The class of each player, by the first of its events whose skill gives one away.
pub open spec fn classes_by_player(
    ps: Seq<ParsedDamagePacket>,
    naming: Naming,
    jobs: JobTable,
) -> Map<i32, Seq<char>>
    decreases ps.len(),
{
    if ps.len() == 0 {
        Map::empty()
    } else {
        let table = classes_by_player(ps.drop_last(), naming, jobs);
        let raw = summon_resolver::resolved(ps.last().actor_id, naming.summons);
        let uid = names::counted_under(raw, naming.canonical, naming.nicknames, naming.summons);
        if raw <= 0 || table.contains_key(uid) || jobs.job_of(ps.last().skill_code) is None {
            table
        } else {
            table.insert(uid, jobs.job_name_of(ps.last().skill_code))
        }
    }
}

/// The skill that a player used first.
pub open spec fn first_skill(
    ps: Seq<ParsedDamagePacket>,
    raw: i32,
    summons: Map<i32, i32>,
) -> Option<i32>
    decreases ps.len(),
{
    if ps.len() == 0 {
        None
    } else {
        match first_skill(ps.drop_last(), raw, summons) {
            Some(code) => Some(code),
            None => if summon_resolver::resolved(ps.last().actor_id, summons) == raw {
                Some(ps.last().skill_code)
            } else {
                None
            },
        }
    }
}

/// The player behind an id that is neither linked nor nicknamed: the one nicknamed player of the
/// class that the id's first skill hints at.
pub open spec fn owner_by_class(
    raw: i32,
    ps: Seq<ParsedDamagePacket>,
    classes: Map<i32, Seq<char>>,
    naming: Naming,
    jobs: JobTable,
) -> Option<i32> {
    match first_skill(ps, raw, naming.summons) {
        Some(code) => match jobs.loose_job_of(code) {
            Some(job) if raw > 0 && !naming.summons.contains_key(raw)
                && !naming.nicknames.contains_key(raw) => meter::sole_owner(
                raw,
                jobs.name_of(job),
                classes,
                naming.nicknames,
            ),
            _ => None,
        },
        None => None,
    }
}

/// The ids that belong to another player, with that player.
pub open spec fn owners_by_class(
    ps: Seq<ParsedDamagePacket>,
    classes: Map<i32, Seq<char>>,
    naming: Naming,
    jobs: JobTable,
) -> Map<i32, i32> {
    Map::new(
        |raw: i32| owner_by_class(raw, ps, classes, naming, jobs) is Some,
        |raw: i32| owner_by_class(raw, ps, classes, naming, jobs)->0,
    )
}

/// The id under which the damage of `raw` is shown.
pub open spec fn shown_under(raw: i32, naming: Naming, owners: Map<i32, i32>) -> i32 {
    names::counted_under(
        if owners.contains_key(raw) {
            owners[raw]
        } else {
            raw
        },
        naming.canonical,
        naming.nicknames,
        naming.summons,
    )
}

/// Whether the damage of `raw` was asked for: it is one of the given ids, or is shown under the
/// same id as one of them. Everything is asked for where no ids are given.
pub open spec fn asked_for(
    raw: i32,
    ids: Option<Seq<i32>>,
    naming: Naming,
    owners: Map<i32, i32>,
) -> bool {
    match ids {
        Some(ids) => ids.contains(raw) || exists|i: int|
            0 <= i < ids.len() && names::counted_under(
                #[trigger] ids[i],
                naming.canonical,
                naming.nicknames,
                naming.summons,
            ) == shown_under(raw, naming, owners),
        None => true,
    }
}

/// The damage of all players together, and when the first and the last of it was done.
#[verifier::ext_equal]
pub struct Span {
    pub total: i32,
    pub start: Option<i64>,
    pub end: Option<i64>,
}

/// The damage of all players together, and when the first and the last of it was done.
pub open spec fn span_of(ps: Seq<ParsedDamagePacket>, summons: Map<i32, i32>) -> Span
    decreases ps.len(),
{
    if ps.len() == 0 {
        Span { total: 0, start: None, end: None }
    } else {
        let before = span_of(ps.drop_last(), summons);
        let p = ps.last();
        if summon_resolver::resolved(p.actor_id, summons) <= 0 {
            before
        } else {
            Span {
                total: before.total.wrapping_add(p.total_damage),
                start: match before.start {
                    Some(s) if s <= p.timestamp => Some(s),
                    _ => Some(p.timestamp),
                },
                end: match before.end {
                    Some(e) if e >= p.timestamp => Some(e),
                    _ => Some(p.timestamp),
                },
            }
        }
    }
}

/// The key of a skill: damage over time is kept apart from plain hits.
pub open spec fn entry_key(code: i32, is_dot: bool) -> i32 {
    if is_dot {
        code.wrapping_add(DOT_OFFSET)
    } else {
        code
    }
}

/// Where the entry of a player's skill stands; the number of entries if there is none.
pub open spec fn entry_place(entries: Seq<SkillEntryModel>, uid: i32, key: i32) -> int
    decreases entries.len(),
{
    if entries.len() == 0 {
        0
    } else {
        let place = entry_place(entries.drop_last(), uid, key);
        if place < entries.len() - 1 {
            place
        } else if entries.last().actor_id == uid && entry_key(
            entries.last().code,
            entries.last().is_dot,
        ) == key {
            entries.len() - 1
        } else {
            entries.len() as int
        }
    }
}

/// The name to show for a skill; that of damage over time says so.
pub open spec fn entry_name(code: i32, is_dot: bool, game: GameData) -> Seq<char> {
    let name = game.skills.shown_name_of(code);
    if is_dot && name.len() > 0 {
        name + " - DOT"@
    } else {
        name
    }
}

/// The entries with one more event counted.
pub open spec fn with_event(
    entries: Seq<SkillEntryModel>,
    uid: i32,
    p: ParsedDamagePacket,
    game: GameData,
) -> Seq<SkillEntryModel> {
    let code = game.skills.counted_as(p.skill_code);
    let place = entry_place(entries, uid, entry_key(code, p.is_dot));
    if place < entries.len() {
        entries.update(place, entries[place].hit(p))
    } else {
        entries.push(
            SkillEntryModel::unused(
                uid,
                code,
                entry_name(code, p.is_dot, game),
                game.jobs.job_name_of(code),
                p.is_dot,
                p.spec_flags@,
            ).hit(p),
        )
    }
}

/// What each player did with each skill, of those that were asked for, in the order of first use.
pub open spec fn skill_entries(
    ps: Seq<ParsedDamagePacket>,
    ids: Option<Seq<i32>>,
    naming: Naming,
    owners: Map<i32, i32>,
    game: GameData,
) -> Seq<SkillEntryModel>
    decreases ps.len(),
{
    if ps.len() == 0 {
        Seq::empty()
    } else {
        let before = skill_entries(ps.drop_last(), ids, naming, owners, game);
        let raw = summon_resolver::resolved(ps.last().actor_id, naming.summons);
        if raw <= 0 || !asked_for(raw, ids, naming, owners) {
            before
        } else {
            with_event(before, shown_under(raw, naming, owners), ps.last(), game)
        }
    }
}

/// The samples with their times counted from `origin`.
pub open spec fn pings_from(samples: Seq<PingPoint>, origin: i64) -> Seq<PingPoint> {
    samples.map_values(
        |s: PingPoint|
            PingPoint { ts_ms: s.ts_ms.wrapping_sub(origin), ping_ms: s.ping_ms },
    )
}

/// What is known of names in a fight.
pub open spec fn naming_in(ps: Seq<ParsedDamagePacket>, storage: StorageModel) -> Naming {
    Naming {
        nicknames: storage.nicknames,
        summons: storage.summons,
        canonical: names::canonical_ids(ps, storage.nicknames, storage.summons),
    }
}

/// A fight in detail, from its events.
pub open spec fn fight_details(
    target: i32,
    ps: Seq<ParsedDamagePacket>,
    ids: Option<Seq<i32>>,
    storage: StorageModel,
    game: GameData,
    pings: Seq<PingPoint>,
) -> DetailsModel {
    let naming = naming_in(ps, storage);
    let owners = owners_by_class(ps, classes_by_player(ps, naming, game.jobs), naming, game.jobs);
    let span = span_of(ps, storage.summons);
    let start = match span.start {
        Some(s) => s,
        None => 0,
    };
    DetailsModel {
        target_id: target,
        max_hp: names::damage_in(storage.mob_hp, target),
        total_target_damage: span.total,
        battle_time: match span.end {
            Some(e) if e.wrapping_sub(start) >= 0 => e.wrapping_sub(start),
            _ => 0,
        },
        start_time: start,
        skills: skill_entries(ps, ids, naming, owners, game).map_values(
            |e: SkillEntryModel| e.shown(start),
        ),
        ping_history: match span.end {
            Some(e) => pings_from(ping_tracker::pings_between(pings, start, e), start),
            None => Seq::empty(),
        },
    }
}

/// A fight in detail; nothing of one that was not seen.
pub open spec fn details_of(
    target: i32,
    ids: Option<Seq<i32>>,
    packets: Map<i32, Seq<ParsedDamagePacket>>,
    storage: StorageModel,
    game: GameData,
    pings: Seq<PingPoint>,
) -> DetailsModel {
    if packets.contains_key(target) {
        fight_details(target, packets[target], ids, storage, game, pings)
    } else {
        DetailsModel {
            target_id: target,
            max_hp: 0,
            total_target_damage: 0,
            battle_time: 0,
            start_time: 0,
            skills: Seq::empty(),
            ping_history: Seq::empty(),
        }
    }
}

/// References to events.
pub fn event_refs(ps: &Vec<ParsedDamagePacket>) -> (r: Vec<&ParsedDamagePacket>)
    ensures
        names::events(r@) == ps@,
{
    let mut r: Vec<&ParsedDamagePacket> = Vec::new();
    let mut i: usize = 0;
    while i < ps.len()
        invariant
            i <= ps@.len(),
            names::events(r@) == ps@.take(i as int),
        decreases ps@.len() - i,
    {
        let ghost before = names::events(r@);
        r.push(&ps[i]);
        assert(names::events(r@) =~= before.push(ps@[i as int]));
        assert(ps@.take(i + 1) =~= ps@.take(i as int).push(ps@[i as int]));
        i += 1;
    }
    assert(ps@.take(i as int) =~= ps@);
    r
}

/// Who is who in a fight.
struct NameTables {
    nicknames: HashMap<i32, String>,
    summons: HashMap<i32, i32>,
    canonical: StringHashMap<i32>,
}

impl View for NameTables {
    type V = Naming;

    closed spec fn view(&self) -> Naming {
        Naming {
            nicknames: data_storage::texts(self.nicknames@),
            summons: self.summons@,
            canonical: self.canonical@,
        }
    }
}

impl NameTables {
    /// The player behind an id.
    fn player(&self, id: i32) -> (r: i32)
        ensures
            r == summon_resolver::resolved(id, self@.summons),
    {
        summon_resolver::resolve(id, &self.summons)
    }

    /// The id under which the damage of `id` is counted.
    fn counted_under(&self, id: i32) -> (r: i32)
        ensures
            r == names::counted_under(
                id,
                self@.canonical,
                self@.nicknames,
                self@.summons,
            ),
    {
        let nickname = names::resolve_nickname(id, &self.nicknames, &self.summons);
        names::canonical_id(&self.canonical, nickname.as_str(), id)
    }

    /// The id under which the damage of `raw` is shown.
    fn shown_under(&self, raw: i32, owners: &HashMap<i32, i32>) -> (r: i32)
        ensures
            r == shown_under(raw, self@, owners@),
    {
        let shown: i32 = match owners.get(&raw) {
            Some(owner) => *owner,
            None => raw,
        };
        self.counted_under(shown)
    }
}

/// The class of each player.
fn tally_classes(
    ps: &Vec<ParsedDamagePacket>,
    tables: &NameTables,
    jobs: &JobTable,
) -> (r: HashMap<i32, String>)
    ensures
        data_storage::texts(r@) == classes_by_player(ps@, tables@, *jobs),
{
    let mut r: HashMap<i32, String> = HashMap::new();
    assert(data_storage::texts(r@) =~= Map::empty());
    let mut i: usize = 0;
    while i < ps.len()
        invariant
            i <= ps@.len(),
            data_storage::texts(r@) == classes_by_player(ps@.take(i as int), tables@, *jobs),
        decreases ps@.len() - i,
    {
        let ghost before = data_storage::texts(r@);
        assert(ps@.take(i + 1).drop_last() =~= ps@.take(i as int));
        assert(ps@.take(i + 1).last() == ps@[i as int]);
        let raw = tables.player(ps[i].actor_id);
        if raw > 0 {
            let uid = tables.counted_under(raw);
            if !r.contains_key(&uid) {
                match jobs.convert_from_skill(ps[i].skill_code) {
                    Some(job) => {
                        let name = jobs.class_name(job);
                        r.insert(uid, name);
                        assert(data_storage::texts(r@) =~= before.insert(uid, name@));
                    },
                    None => {},
                }
            }
        }
        i += 1;
    }
    assert(ps@.take(i as int) =~= ps@);
    r
}

/// The ids that belong to another player, with that player.
fn find_owners(
    ps: &Vec<ParsedDamagePacket>,
    classes: &HashMap<i32, String>,
    tables: &NameTables,
    jobs: &JobTable,
) -> (r: HashMap<i32, i32>)
    ensures
        r@ == owners_by_class(ps@, data_storage::texts(classes@), tables@, *jobs),
{
    let ghost cs = data_storage::texts(classes@);
    let ghost naming = tables@;
    let mut r: HashMap<i32, i32> = HashMap::new();
    let mut seen: HashSet<i32> = HashSet::new();
    let mut i: usize = 0;
    assert(r@ =~= owners_by_class(ps@.take(0), cs, naming, *jobs));
    while i < ps.len()
        invariant
            i <= ps@.len(),
            cs == data_storage::texts(classes@),
            naming == tables@,
            forall|u: i32| #[trigger]
                seen@.contains(u) ==> first_skill(ps@.take(i as int), u, naming.summons) is Some,
            forall|u: i32|
                first_skill(ps@.take(i as int), u, naming.summons) is Some && u > 0
                    && !naming.summons.contains_key(u) && !naming.nicknames.contains_key(u)
                    ==> #[trigger] seen@.contains(u),
            r@ == owners_by_class(ps@.take(i as int), cs, naming, *jobs),
        decreases ps@.len() - i,
    {
        let ghost done = ps@.take(i as int);
        let ghost now = ps@.take(i + 1);
        let ghost before = r@;
        let ghost known = seen@;
        let ghost p = ps@[i as int];
        assert(now.drop_last() =~= done);
        assert(now.last() == p);
        let raw = tables.player(ps[i].actor_id);
        if raw > 0 && !tables.summons.contains_key(&raw) && !tables.nicknames.contains_key(&raw) {
            if seen.insert(raw) {
                assert(!known.contains(raw));
                assert(first_skill(now, raw, naming.summons) == Some(p.skill_code));
                match jobs.convert_from_skill_loose(ps[i].skill_code) {
                    Some(job) => {
                        let class = jobs.class_name(job);
                        match meter::find_sole_owner(
                            raw,
                            class.as_str(),
                            classes,
                            &tables.nicknames,
                        ) {
                            Some(owner) => {
                                r.insert(raw, owner);
                            },
                            None => {},
                        }
                    },
                    None => {},
                }
            } else {
                assert(known.contains(raw));
            }
        }
        proof {
            assert forall|u: i32|
                u != raw implies #[trigger] first_skill(now, u, naming.summons) == first_skill(
                done,
                u,
                naming.summons,
            ) by {}
            assert forall|u: i32|
                owner_by_class(u, now, cs, naming, *jobs) == #[trigger] owner_by_class(
                    u,
                    done,
                    cs,
                    naming,
                    *jobs,
                ) || u == raw by {
                if u != raw {
                    assert(first_skill(now, u, naming.summons) == first_skill(
                        done,
                        u,
                        naming.summons,
                    ));
                }
            }
            let wanted = owners_by_class(now, cs, naming, *jobs);
            assert forall|u: i32| r@.contains_key(u) == wanted.contains_key(u) && (
            wanted.contains_key(u) ==> r@[u] == wanted[u]) by {
                assert(before.contains_key(u) == (owner_by_class(u, done, cs, naming, *jobs)
                    is Some));
            }
            assert(r@ =~= wanted);
        }
        i += 1;
    }
    assert(ps@.take(i as int) =~= ps@);
    r
}

/// The ids under which the damage of the given ids is counted.
fn counted_ids(ids: &Vec<i32>, tables: &NameTables) -> (r: HashSet<i32>)
    ensures
        forall|x: i32| #[trigger]
            r@.contains(x) <==> exists|i: int|
                0 <= i < ids@.len() && names::counted_under(
                    #[trigger] ids@[i],
                    tables@.canonical,
                    tables@.nicknames,
                    tables@.summons,
                ) == x,
{
    let mut r: HashSet<i32> = HashSet::new();
    let mut i: usize = 0;
    while i < ids.len()
        invariant
            i <= ids@.len(),
            forall|x: i32| #[trigger]
                r@.contains(x) <==> exists|j: int|
                    0 <= j < i && names::counted_under(
                        #[trigger] ids@[j],
                        tables@.canonical,
                        tables@.nicknames,
                        tables@.summons,
                    ) == x,
        decreases ids@.len() - i,
    {
        let ghost before = r@;
        let uid = tables.counted_under(ids[i]);
        r.insert(uid);
        proof {
            assert forall|x: i32| #[trigger] r@.contains(x) <==> exists|j: int|
                0 <= j < i + 1 && names::counted_under(
                    #[trigger] ids@[j],
                    tables@.canonical,
                    tables@.nicknames,
                    tables@.summons,
                ) == x by {
                if x == uid {
                    assert(names::counted_under(
                        ids@[i as int],
                        tables@.canonical,
                        tables@.nicknames,
                        tables@.summons,
                    ) == x);
                }
                assert(before.contains(x) ==> r@.contains(x));
            }
        }
        i += 1;
    }
    r
}

/// Whether the id is among the given ones.
pub(crate) fn holds_id(ids: &Vec<i32>, id: i32) -> (r: bool)
    ensures
        r == ids@.contains(id),
{
    let mut i: usize = 0;
    while i < ids.len()
        invariant
            i <= ids@.len(),
            forall|j: int| 0 <= j < i ==> ids@[j] != id,
        decreases ids@.len() - i,
    {
        if ids[i] == id {
            return true;
        }
        i += 1;
    }
    false
}

/// The ids of an optional list.
pub open spec fn id_list(ids: Option<&Vec<i32>>) -> Option<Seq<i32>> {
    match ids {
        Some(v) => Some(v@),
        None => None,
    }
}

/// The damage of all players together, and when the first and the last of it was done.
struct SpanTally {
    total: i32,
    start: Option<i64>,
    end: Option<i64>,
}

fn tally_span(ps: &Vec<ParsedDamagePacket>, tables: &NameTables) -> (r: SpanTally)
    ensures
        (Span { total: r.total, start: r.start, end: r.end }) == span_of(ps@, tables@.summons),
{
    let mut r = SpanTally { total: 0, start: None, end: None };
    let mut i: usize = 0;
    while i < ps.len()
        invariant
            i <= ps@.len(),
            (Span { total: r.total, start: r.start, end: r.end }) == span_of(
                ps@.take(i as int),
                tables@.summons,
            ),
        decreases ps@.len() - i,
    {
        assert(ps@.take(i + 1).drop_last() =~= ps@.take(i as int));
        assert(ps@.take(i + 1).last() == ps@[i as int]);
        let raw = tables.player(ps[i].actor_id);
        if raw > 0 {
            let ts: i64 = ps[i].timestamp;
            r.total = r.total.wrapping_add(ps[i].total_damage);
            r.start = match r.start {
                Some(s) => if s <= ts {
                    Some(s)
                } else {
                    Some(ts)
                },
                None => Some(ts),
            };
            r.end = match r.end {
                Some(e) => if e >= ts {
                    Some(e)
                } else {
                    Some(ts)
                },
                None => Some(ts),
            };
        }
        i += 1;
    }
    assert(ps@.take(i as int) =~= ps@);
    r
}

/// Where the entry of a player's skill stands.
fn find_entry(entries: &Vec<DetailSkillEntry>, uid: i32, key: i32) -> (r: usize)
    ensures
        r == entry_place(details_context::entry_models(entries@), uid, key),
{
    let ghost models = details_context::entry_models(entries@);
    let mut i: usize = 0;
    let mut found: Option<usize> = None;
    while i < entries.len()
        invariant
            i <= entries@.len(),
            models == details_context::entry_models(entries@),
            entry_place(models.take(i as int), uid, key) == (match found {
                Some(k) => k as int,
                None => i as int,
            }),
            found matches Some(k) ==> k < i,
        decreases entries@.len() - i,
    {
        assert(models.take(i + 1).drop_last() =~= models.take(i as int));
        assert(models.take(i + 1).last() == models[i as int]);
        assert(models[i as int] == entries@[i as int]@);
        if found.is_none() {
            let own: i32 = if entries[i].is_dot {
                entries[i].code.wrapping_add(DOT_OFFSET)
            } else {
                entries[i].code
            };
            if entries[i].actor_id == uid && own == key {
                found = Some(i);
            }
        }
        i += 1;
    }
    assert(models.take(i as int) =~= models);
    match found {
        Some(k) => k,
        None => entries.len(),
    }
}

/// The name to show for a skill.
fn name_entry(code: i32, is_dot: bool, game: &GameData) -> (r: String)
    ensures
        r@ == entry_name(code, is_dot, *game),
{
    let mut name = game.skills.lookup_skill_name(code);
    if is_dot && !name.as_str().is_empty() {
        name.append(" - DOT");
    }
    name
}

/// Counts one more event.
fn count_event(
    entries: &mut Vec<DetailSkillEntry>,
    uid: i32,
    p: &ParsedDamagePacket,
    game: &GameData,
)
    ensures
        details_context::entry_models(final(entries)@) == with_event(
            details_context::entry_models(old(entries)@),
            uid,
            *p,
            *game,
        ),
{
    let ghost before = details_context::entry_models(entries@);
    let code: i32 = game.skills.counted_code(p.skill_code);
    let key: i32 = if p.is_dot {
        code.wrapping_add(DOT_OFFSET)
    } else {
        code
    };
    let place = find_entry(entries, uid, key);
    if place < entries.len() {
        let entry = &mut entries[place];
        entry.hit(p);
    } else {
        let mut entry = DetailSkillEntry::new(
            uid,
            code,
            name_entry(code, p.is_dot, game),
            game.jobs.class_name_from_skill(code),
            p,
        );
        entry.hit(p);
        entries.push(entry);
    }
    assert(details_context::entry_models(entries@) =~= with_event(before, uid, *p, *game));
}

/// What each player did with each skill.
fn collect_entries(
    ps: &Vec<ParsedDamagePacket>,
    ids: Option<&Vec<i32>>,
    tables: &NameTables,
    owners: &HashMap<i32, i32>,
    game: &GameData,
) -> (r: Vec<DetailSkillEntry>)
    ensures
        details_context::entry_models(r@) == skill_entries(
            ps@,
            id_list(ids),
            tables@,
            owners@,
            *game,
        ),
{
    let selected: HashSet<i32> = match ids {
        Some(v) => counted_ids(v, tables),
        None => HashSet::new(),
    };
    let mut r: Vec<DetailSkillEntry> = Vec::new();
    let mut i: usize = 0;
    assert(details_context::entry_models(r@) =~= Seq::empty());
    while i < ps.len()
        invariant
            i <= ps@.len(),
            ids matches Some(v) ==> forall|x: i32| #[trigger]
                selected@.contains(x) <==> exists|k: int|
                    0 <= k < v@.len() && names::counted_under(
                        #[trigger] v@[k],
                        tables@.canonical,
                        tables@.nicknames,
                        tables@.summons,
                    ) == x,
            details_context::entry_models(r@) == skill_entries(
                ps@.take(i as int),
                id_list(ids),
                tables@,
                owners@,
                *game,
            ),
        decreases ps@.len() - i,
    {
        assert(ps@.take(i + 1).drop_last() =~= ps@.take(i as int));
        assert(ps@.take(i + 1).last() == ps@[i as int]);
        let p = &ps[i];
        let raw = tables.player(p.actor_id);
        if raw > 0 {
            let uid = tables.shown_under(raw, owners);
            let wanted = match ids {
                Some(v) => holds_id(v, raw) || selected.contains(&uid),
                None => true,
            };
            assert(wanted == asked_for(raw, id_list(ids), tables@, owners@));
            if wanted {
                count_event(&mut r, uid, p, game);
            }
        }
        i += 1;
    }
    assert(ps@.take(i as int) =~= ps@);
    r
}

/// Turns the entries into what is shown.
fn finish_entries(entries: &mut Vec<DetailSkillEntry>, fight_start: i64)
    ensures
        details_context::entry_models(final(entries)@) == details_context::entry_models(
            old(entries)@,
        ).map_values(|e: SkillEntryModel| e.shown(fight_start)),
{
    let ghost before = details_context::entry_models(entries@);
    let mut i: usize = 0;
    while i < entries.len()
        invariant
            i <= entries@.len(),
            entries@.len() == before.len(),
            forall|j: int|
                0 <= j < before.len() ==> (#[trigger] entries@[j])@ == if j < i {
                    before[j].shown(fight_start)
                } else {
                    before[j]
                },
        decreases entries@.len() - i,
    {
        let entry = &mut entries[i];
        entry.finish(fight_start);
        i += 1;
    }
    assert(details_context::entry_models(entries@) =~= before.map_values(
        |e: SkillEntryModel| e.shown(fight_start),
    ));
}

/// Counts the times of samples from `origin`.
fn shift_pings(samples: &Vec<PingPoint>, origin: i64) -> (r: Vec<PingPoint>)
    ensures
        r@ == pings_from(samples@, origin),
{
    let mut r: Vec<PingPoint> = Vec::new();
    let mut i: usize = 0;
    while i < samples.len()
        invariant
            i <= samples@.len(),
            r@ == pings_from(samples@.take(i as int), origin),
        decreases samples@.len() - i,
    {
        let s: PingPoint = samples[i];
        r.push(PingPoint { ts_ms: s.ts_ms.wrapping_sub(origin), ping_ms: s.ping_ms });
        i += 1;
        assert(r@ =~= pings_from(samples@.take(i as int), origin));
    }
    assert(samples@.take(i as int) =~= samples@);
    r
}

/// A fight in detail.
pub fn target_details(
    target_id: i32,
    actor_ids: Option<&Vec<i32>>,
    log: &PacketLog,
    storage: &DataStorage,
    game: &GameData,
    pings: &PingTracker,
) -> (r: TargetDetailsResponse)
    ensures
        r@ == details_of(
            target_id,
            id_list(actor_ids),
            log@,
            storage@,
            *game,
            pings.samples@,
        ),
{
    let ps = match log.by_target.get(&target_id) {
        Some(ps) => ps,
        None => {
            let r = TargetDetailsResponse {
                target_id,
                max_hp: 0,
                total_target_damage: 0,
                battle_time: 0,
                start_time: 0,
                skills: Vec::new(),
                ping_history: Vec::new(),
            };
            assert(r@.skills =~= Seq::empty());
            return r;
        },
    };
    assert(ps@ == log@[target_id]);
    let nicknames = storage.get_nicknames();
    let summons = storage.get_summon_data();
    let mob_hp = storage.get_mob_hp_data();
    let refs = event_refs(ps);
    let canonical = names::build_nickname_canonical_map(&refs, &summons, &nicknames);
    let tables = NameTables { nicknames, summons, canonical };
    assert(tables@ == naming_in(ps@, storage@));
    let classes = tally_classes(ps, &tables, &game.jobs);
    let owners = find_owners(ps, &classes, &tables, &game.jobs);
    let span = tally_span(ps, &tables);
    let mut skills = collect_entries(ps, actor_ids, &tables, &owners, game);
    let fight_start: i64 = match span.start {
        Some(s) => s,
        None => 0,
    };
    finish_entries(&mut skills, fight_start);
    let battle_time: i64 = match span.end {
        Some(e) => {
            let lasted: i64 = e.wrapping_sub(fight_start);
            if lasted >= 0 {
                lasted
            } else {
                0
            }
        },
        None => 0,
    };
    let ping_history: Vec<PingPoint> = match span.end {
        Some(e) => shift_pings(&pings.get_ping_history(fight_start, e), fight_start),
        None => Vec::new(),
    };
    let max_hp: i32 = match mob_hp.get(&target_id) {
        Some(hp) => *hp,
        None => 0,
    };
    TargetDetailsResponse {
        target_id,
        max_hp,
        total_target_damage: span.total,
        battle_time,
        start_time: fight_start,
        skills,
        ping_history,
    }
}

} // verus!
