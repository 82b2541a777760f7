//! Adding up what each player did.
use crate::combat::data_storage;
use crate::combat::job_cache;
use crate::combat::job_cache::JobCache;
use crate::combat::names;
use crate::entity::damage_packet::ParsedDamagePacket;
use crate::entity::dps_data;
use crate::entity::job_class::JobTable;
use crate::entity::personal_data::{PersonalData, PersonalModel};
use crate::entity::summon_resolver;
use crate::i18n::lookup::SkillLookup;
use crate::keys;
use crate::text;
use std::collections::{HashMap, HashSet};
use vstd::hash_map::StringHashMap;
use vstd::prelude::*;

verus! {

broadcast use vstd::std_specs::hash::group_hash_axioms;

/// Who is who while events are counted.
#[verifier::ext_equal]
pub struct Naming {
    pub nicknames: Map<i32, Seq<char>>,
    pub summons: Map<i32, i32>,
    pub canonical: Map<Seq<char>, i32>,
}

/// The players that have been met, and the classes remembered by nickname.
#[verifier::ext_equal]
pub struct Roster {
    pub players: Map<i32, PersonalModel>,
    pub classes: Map<Seq<char>, Seq<char>>,
}

impl Roster {
    /// What is known of a player before an event of it: what was counted so far, or a new player
    /// of the class that is remembered for its nickname.
    pub open spec fn player_before(self, uid: i32, nickname: Seq<char>) -> PersonalModel {
        if self.players.contains_key(uid) {
            self.players[uid]
        } else {
            PersonalModel::idle(
                nickname,
                job_cache::job_under(self.classes, job_cache::job_key(nickname)),
            )
        }
    }

    /// The roster with an event counted. Events whose actor is no player are left out.
    pub open spec fn counted(
        self,
        p: ParsedDamagePacket,
        naming: Naming,
        jobs: JobTable,
        skills: SkillLookup,
    ) -> Self {
        let raw = summon_resolver::resolved(p.actor_id, naming.summons);
        if raw <= 0 {
            self
        } else {
            let nickname = names::nickname_for(raw, naming.nicknames, naming.summons);
            let uid = names::canonical_or(naming.canonical, nickname, raw);
            let skill_name = skills.shown_name_of(skills.counted_as(p.skill_code));
            let before = self.player_before(uid, nickname);
            let hit = (PersonalModel { nickname, ..before }).hit(p, skill_name);
            if hit.job.len() == 0 && jobs.job_of(p.skill_code) is Some {
                let job = jobs.job_name_of(p.skill_code);
                Roster {
                    players: self.players.insert(uid, PersonalModel { job, ..hit }),
                    classes: job_cache::remembered(
                        self.classes,
                        job_cache::job_key(nickname),
                        job,
                    ),
                }
            } else {
                Roster { players: self.players.insert(uid, hit), ..self }
            }
        }
    }

    /// The roster with all of the events counted, in their order.
    pub open spec fn counted_all(
        self,
        ps: Seq<ParsedDamagePacket>,
        naming: Naming,
        jobs: JobTable,
        skills: SkillLookup,
    ) -> Self
        decreases ps.len(),
    {
        if ps.len() == 0 {
            self
        } else {
            self.counted_all(ps.drop_last(), naming, jobs, skills).counted(
                ps.last(),
                naming,
                jobs,
                skills,
            )
        }
    }
}

/// The damage of all events together.
pub open spec fn damage_of_all(ps: Seq<ParsedDamagePacket>) -> i64
    decreases ps.len(),
{
    if ps.len() == 0 {
        0
    } else {
        damage_of_all(ps.drop_last()).wrapping_add(ps.last().total_damage as i64)
    }
}

/// Whether `owner` is the one id, other than `uid`, that has a nickname and is of the class.
pub open spec fn is_sole_owner(
    owner: i32,
    uid: i32,
    class: Seq<char>,
    classes: Map<i32, Seq<char>>,
    nicknames: Map<i32, Seq<char>>,
) -> bool {
    forall|o: i32| #[trigger]
        classes.contains_key(o) && o != uid && classes[o] == class && nicknames.contains_key(o)
            <==> o == owner
}

/// The one id, other than `uid`, that has a nickname and is of the class.
pub open spec fn sole_owner(
    uid: i32,
    class: Seq<char>,
    classes: Map<i32, Seq<char>>,
    nicknames: Map<i32, Seq<char>>,
) -> Option<i32> {
    if exists|o: i32| is_sole_owner(o, uid, class, classes, nicknames) {
        Some(choose|o: i32| is_sole_owner(o, uid, class, classes, nicknames))
    } else {
        None
    }
}

/// The player that an unlinked summon belongs to: an id that is neither linked to an owner nor
/// nicknamed, but of a class, belongs to the one nicknamed player of that class.
pub open spec fn orphan_owner(
    uid: i32,
    classes: Map<i32, Seq<char>>,
    nicknames: Map<i32, Seq<char>>,
    summons: Map<i32, i32>,
) -> Option<i32> {
    if !summons.contains_key(uid) && !nicknames.contains_key(uid) && classes[uid].len() > 0 {
        sole_owner(uid, classes[uid], classes, nicknames)
    } else {
        None
    }
}

/// A summon and the player that it belongs to.
#[derive(Debug, Clone, Copy)]
pub struct OrphanLink {
    pub orphan: i32,
    pub owner: i32,
}

/// The unlinked summons among the given ids, with their owners.
pub open spec fn orphan_links(
    ids: Seq<i32>,
    classes: Map<i32, Seq<char>>,
    nicknames: Map<i32, Seq<char>>,
    summons: Map<i32, i32>,
) -> Seq<OrphanLink>
    decreases ids.len(),
{
    if ids.len() == 0 {
        Seq::empty()
    } else {
        let before = orphan_links(ids.drop_last(), classes, nicknames, summons);
        match orphan_owner(ids.last(), classes, nicknames, summons) {
            Some(owner) => before.push(OrphanLink { orphan: ids.last(), owner }),
            None => before,
        }
    }
}

/// The players with each orphan's damage moved to its owner.
pub open spec fn adopted(
    players: Map<i32, PersonalModel>,
    links: Seq<OrphanLink>,
) -> Map<i32, PersonalModel>
    decreases links.len(),
{
    if links.len() == 0 {
        players
    } else {
        let before = adopted(players, links.drop_last());
        let link = links.last();
        if before.contains_key(link.orphan) {
            let rest = before.remove(link.orphan);
            if rest.contains_key(link.owner) {
                rest.insert(link.owner, rest[link.owner].merged(before[link.orphan]))
            } else {
                rest
            }
        } else {
            before
        }
    }
}

/// The classes of players.
pub open spec fn player_classes(players: Map<i32, PersonalModel>) -> Map<i32, Seq<char>> {
    players.map_values(|p: PersonalModel| p.job)
}

/// The players with every unlinked summon's damage moved to the player behind it.
pub open spec fn without_orphans(
    players: Map<i32, PersonalModel>,
    nicknames: Map<i32, Seq<char>>,
    summons: Map<i32, i32>,
) -> Map<i32, PersonalModel> {
    adopted(
        players,
        orphan_links(keys::ascending(players.dom()), player_classes(players), nicknames, summons),
    )
}

/// The players to show: those of a known class, and the local player in any case.
pub open spec fn shown_players(
    players: Map<i32, PersonalModel>,
    local: Option<Set<i32>>,
) -> Map<i32, PersonalModel> {
    Map::new(
        |u: i32|
            players.contains_key(u) && (players[u].job.len() > 0 || (local is Some
                && local->0.contains(u))),
        |u: i32|
            if players[u].job.len() > 0 {
                players[u]
            } else {
                PersonalModel { job: "Unknown"@, ..players[u] }
            },
    )
}

/// The ids of the local player, where they are known.
pub open spec fn id_set(local: Option<HashSet<i32>>) -> Option<Set<i32>> {
    match local {
        Some(ids) => Some(ids@),
        None => None,
    }
}

/// The one id, other than `uid`, that has a nickname and is of the class.
pub(crate) fn find_sole_owner(
    uid: i32,
    class: &str,
    classes: &HashMap<i32, String>,
    nickname_data: &HashMap<i32, String>,
) -> (r: Option<i32>)
    ensures
        r == sole_owner(
            uid,
            class@,
            data_storage::texts(classes@),
            data_storage::texts(nickname_data@),
        ),
{
    let ghost cs = data_storage::texts(classes@);
    let ghost ns = data_storage::texts(nickname_data@);
    let ghost fits = |o: i32|
        cs.contains_key(o) && o != uid && cs[o] == class@ && ns.contains_key(o);
    let ids = keys::sorted_keys(classes);
    let mut found: Option<i32> = None;
    let mut i: usize = 0;
    while i < ids.len()
        invariant
            i <= ids@.len(),
            cs == data_storage::texts(classes@),
            ns == data_storage::texts(nickname_data@),
            ids@.to_set() == classes@.dom(),
            keys::is_ascending(ids@),
            fits == (|o: i32|
                cs.contains_key(o) && o != uid && cs[o] == class@ && ns.contains_key(o)),
            match found {
                Some(o) => fits(o) && ids@.take(i as int).contains(o),
                None => true,
            },
            forall|x: i32|
                ids@.take(i as int).contains(x) && #[trigger] fits(x) ==> found == Some(x),
        decreases ids@.len() - i,
    {
        let id: i32 = ids[i];
        proof {
            keys::lemma_one_more(ids@, i as int);
            assert(ids@.to_set().contains(id));
        }
        let same = match classes.get(&id) {
            Some(c) => text::same_text(c.as_str(), class),
            None => false,
        };
        if id != uid && same && nickname_data.contains_key(&id) {
            assert(fits(id));
            match found {
                Some(first) => {
                    proof {
                        assert(first != id);
                        assert forall|o: i32| !is_sole_owner(o, uid, class@, cs, ns) by {
                            if is_sole_owner(o, uid, class@, cs, ns) {
                                assert(fits(first) && fits(id));
                                assert(cs.contains_key(first));
                                assert(cs.contains_key(id));
                            }
                        }
                    }
                    return None;
                },
                None => {
                    found = Some(id);
                },
            }
        } else {
            assert(!fits(id));
        }
        i += 1;
    }
    proof {
        assert(ids@.take(i as int) =~= ids@);
        assert forall|x: i32| fits(x) implies found == Some(x) by {
            assert(ids@.to_set().contains(x));
        }
        match found {
            Some(o) => {
                assert(is_sole_owner(o, uid, class@, cs, ns)) by {
                    assert forall|x: i32| #[trigger]
                        cs.contains_key(x) && x != uid && cs[x] == class@ && ns.contains_key(x)
                            <==> x == o by {
                        assert(fits(o));
                        if cs.contains_key(x) && x != uid && cs[x] == class@ && ns.contains_key(
                            x,
                        ) {
                            assert(fits(x));
                        }
                    }
                }
                let w = choose|w: i32| is_sole_owner(w, uid, class@, cs, ns);
                assert(is_sole_owner(w, uid, class@, cs, ns));
                assert(fits(o));
                assert(cs.contains_key(o));
                assert(w == o);
            },
            None => {
                assert forall|o: i32| !is_sole_owner(o, uid, class@, cs, ns) by {
                    if is_sole_owner(o, uid, class@, cs, ns) {
                        let c = cs.contains_key(o);
                        assert(fits(o));
                    }
                }
            },
        }
    }
    found
}

/// The unlinked summons among the given ids, with their owners.
pub(crate) fn find_orphans(
    ids: &Vec<i32>,
    classes: &HashMap<i32, String>,
    nickname_data: &HashMap<i32, String>,
    summon_data: &HashMap<i32, i32>,
) -> (r: Vec<OrphanLink>)
    requires
        ids@.to_set().subset_of(classes@.dom()),
    ensures
        r@ == orphan_links(
            ids@,
            data_storage::texts(classes@),
            data_storage::texts(nickname_data@),
            summon_data@,
        ),
{
    let ghost cs = data_storage::texts(classes@);
    let ghost ns = data_storage::texts(nickname_data@);
    let mut r: Vec<OrphanLink> = Vec::new();
    let mut i: usize = 0;
    while i < ids.len()
        invariant
            i <= ids@.len(),
            cs == data_storage::texts(classes@),
            ns == data_storage::texts(nickname_data@),
            ids@.to_set().subset_of(classes@.dom()),
            r@ == orphan_links(ids@.take(i as int), cs, ns, summon_data@),
        decreases ids@.len() - i,
    {
        let id: i32 = ids[i];
        assert(ids@.take(i + 1).drop_last() =~= ids@.take(i as int));
        assert(ids@.take(i + 1).last() == id);
        assert(ids@.to_set().contains(id));
        if !summon_data.contains_key(&id) && !nickname_data.contains_key(&id) {
            match classes.get(&id) {
                Some(class) => {
                    if !class.as_str().is_empty() {
                        match find_sole_owner(id, class.as_str(), classes, nickname_data) {
                            Some(owner) => {
                                r.push(OrphanLink { orphan: id, owner });
                            },
                            None => {},
                        }
                    }
                },
                None => {},
            }
        }
        i += 1;
    }
    assert(ids@.take(i as int) =~= ids@);
    r
}

/// Adds up what each player did.
fn count_players(
    ps: &Vec<&ParsedDamagePacket>,
    canonical: &StringHashMap<i32>,
    nickname_data: &HashMap<i32, String>,
    summon_data: &HashMap<i32, i32>,
    jobs: &JobTable,
    skills: &SkillLookup,
    cache: &mut JobCache,
) -> (r: HashMap<i32, PersonalData>)
    ensures
        ({
            let naming = Naming {
                nicknames: data_storage::texts(nickname_data@),
                summons: summon_data@,
                canonical: canonical@,
            };
            let start = Roster { players: Map::empty(), classes: old(cache)@ };
            let end = start.counted_all(names::events(ps@), naming, *jobs, *skills);
            &&& dps_data::personal_models(r@) == end.players
            &&& final(cache)@ == end.classes
        }),
{
    let ghost naming = Naming {
        nicknames: data_storage::texts(nickname_data@),
        summons: summon_data@,
        canonical: canonical@,
    };
    let ghost start = Roster { players: Map::empty(), classes: cache@ };
    let ghost all = names::events(ps@);
    let mut r: HashMap<i32, PersonalData> = HashMap::new();
    assert(dps_data::personal_models(r@) =~= Map::empty());
    let mut i: usize = 0;
    while i < ps.len()
        invariant
            i <= ps@.len(),
            all == names::events(ps@),
            naming == (Naming {
                nicknames: data_storage::texts(nickname_data@),
                summons: summon_data@,
                canonical: canonical@,
            }),
            (Roster { players: dps_data::personal_models(r@), classes: cache@ })
                == start.counted_all(all.take(i as int), naming, *jobs, *skills),
        decreases ps@.len() - i,
    {
        let p: &ParsedDamagePacket = ps[i];
        let ghost before = Roster { players: dps_data::personal_models(r@), classes: cache@ };
        assert(all.take(i + 1).drop_last() =~= all.take(i as int));
        assert(all.take(i + 1).last() == *p);
        let raw = summon_resolver::resolve(p.actor_id, summon_data);
        if raw > 0 {
            let nickname = names::resolve_nickname(raw, nickname_data, summon_data);
            let uid = names::canonical_id(canonical, nickname.as_str(), raw);
            let skill_name = skills.lookup_skill_name(skills.counted_code(p.skill_code));
            let mut entry = match r.remove(&uid) {
                Some(d) => d,
                None => match cache.cached_job(nickname.as_str()) {
                    Some(job) => PersonalData::with_job(nickname.clone(), job),
                    None => PersonalData::new(nickname.clone()),
                },
            };
            assert(entry@ == before.player_before(uid, nickname@));
            entry.nickname = nickname.clone();
            entry.process_pdp(p, skill_name.as_str());
            if entry.job.as_str().is_empty() {
                match jobs.convert_from_skill(p.skill_code) {
                    Some(job) => {
                        let name = jobs.class_name(job);
                        cache.cache_job(nickname.as_str(), name.as_str());
                        entry.job = name;
                    },
                    None => {},
                }
            }
            r.insert(uid, entry);
            assert(dps_data::personal_models(r@) =~= before.players.insert(uid, entry@));
        }
        i += 1;
    }
    assert(all.take(i as int) =~= all);
    r
}

/// The classes of players.
fn classes_of(players: &HashMap<i32, PersonalData>, ids: &Vec<i32>) -> (r: HashMap<i32, String>)
    requires
        ids@.to_set() == players@.dom(),
    ensures
        data_storage::texts(r@) == player_classes(dps_data::personal_models(players@)),
{
    let mut r: HashMap<i32, String> = HashMap::new();
    let mut i: usize = 0;
    while i < ids.len()
        invariant
            i <= ids@.len(),
            ids@.to_set() == players@.dom(),
            forall|x: i32| #[trigger] r@.contains_key(x) <==> ids@.take(i as int).contains(x),
            forall|x: i32| #[trigger]
                r@.contains_key(x) ==> players@.contains_key(x) && r@[x]@ == players@[x].job@,
        decreases ids@.len() - i,
    {
        let id: i32 = ids[i];
        proof {
            keys::lemma_one_more(ids@, i as int);
            assert(ids@.to_set().contains(id));
        }
        match players.get(&id) {
            Some(d) => {
                r.insert(id, d.job.clone());
            },
            None => {},
        }
        i += 1;
    }
    proof {
        assert(ids@.take(i as int) =~= ids@);
        let wanted = player_classes(dps_data::personal_models(players@));
        assert forall|x: i32| #[trigger]
            data_storage::texts(r@).contains_key(x) <==> wanted.contains_key(x) by {
            assert(ids@.to_set().contains(x) == players@.dom().contains(x));
        }
        assert(data_storage::texts(r@) =~= wanted);
    }
    r
}

/// Moves each orphan's damage to its owner.
fn adopt_orphans(players: &mut HashMap<i32, PersonalData>, links: &Vec<OrphanLink>)
    ensures
        dps_data::personal_models(final(players)@) == adopted(
            dps_data::personal_models(old(players)@),
            links@,
        ),
{
    let ghost start = dps_data::personal_models(players@);
    let mut i: usize = 0;
    assert(links@.take(0) =~= Seq::empty());
    while i < links.len()
        invariant
            i <= links@.len(),
            dps_data::personal_models(players@) == adopted(start, links@.take(i as int)),
        decreases links@.len() - i,
    {
        let link: OrphanLink = links[i];
        let ghost before = dps_data::personal_models(players@);
        assert(links@.take(i + 1).drop_last() =~= links@.take(i as int));
        assert(links@.take(i + 1).last() == link);
        match players.remove(&link.orphan) {
            Some(orphan) => {
                assert(orphan@ == before[link.orphan]);
                assert(dps_data::personal_models(players@) =~= before.remove(link.orphan));
                let ghost rest = dps_data::personal_models(players@);
                match players.remove(&link.owner) {
                    Some(mut owner) => {
                        owner.merge_from(&orphan);
                        players.insert(link.owner, owner);
                        assert(dps_data::personal_models(players@) =~= rest.insert(
                            link.owner,
                            rest[link.owner].merged(orphan@),
                        ));
                    },
                    None => {
                        assert(dps_data::personal_models(players@) =~= rest);
                    },
                }
            },
            None => {
                assert(dps_data::personal_models(players@) =~= before);
            },
        }
        i += 1;
    }
    assert(links@.take(i as int) =~= links@);
}

/// Keeps the players to show.
fn keep_shown(players: &mut HashMap<i32, PersonalData>, local: &Option<HashSet<i32>>)
    ensures
        dps_data::personal_models(final(players)@) == shown_players(
            dps_data::personal_models(old(players)@),
            id_set(*local),
        ),
{
    let ghost start = dps_data::personal_models(players@);
    let ghost mine = id_set(*local);
    let ghost wanted = shown_players(start, mine);
    let ids = keys::sorted_keys(players);
    let mut i: usize = 0;
    while i < ids.len()
        invariant
            i <= ids@.len(),
            ids@.to_set() == start.dom(),
            keys::is_ascending(ids@),
            wanted == shown_players(start, mine),
            mine == id_set(*local),
            forall|x: i32| #[trigger]
                dps_data::personal_models(players@).contains_key(x) <==> if ids@.take(
                    i as int,
                ).contains(x) {
                    wanted.contains_key(x)
                } else {
                    start.contains_key(x)
                },
            forall|x: i32| #[trigger]
                dps_data::personal_models(players@).contains_key(x)
                    ==> dps_data::personal_models(players@)[x] == if ids@.take(i as int).contains(
                    x,
                ) {
                    wanted[x]
                } else {
                    start[x]
                },
        decreases ids@.len() - i,
    {
        let id: i32 = ids[i];
        let ghost before = dps_data::personal_models(players@);
        proof {
            keys::lemma_one_more(ids@, i as int);
            assert(ids@.to_set().contains(id));
            assert(before.contains_key(id));
        }
        match players.remove(&id) {
            Some(mut d) => {
                assert(d@ == start[id]);
                assert(dps_data::personal_models(players@) =~= before.remove(id));
                let is_local = match local {
                    Some(set) => set.contains(&id),
                    None => false,
                };
                if !d.job.as_str().is_empty() {
                    players.insert(id, d);
                    assert(dps_data::personal_models(players@) =~= before.insert(id, wanted[id]));
                } else if is_local {
                    d.job = "Unknown".to_owned();
                    players.insert(id, d);
                    assert(dps_data::personal_models(players@) =~= before.insert(id, wanted[id]));
                }
            },
            None => {},
        }
        i += 1;
    }
    proof {
        assert(ids@.take(i as int) =~= ids@);
        assert forall|x: i32| #[trigger]
            dps_data::personal_models(players@).contains_key(x) <==> wanted.contains_key(x) by {
            assert(ids@.to_set().contains(x) == start.dom().contains(x));
        }
        assert forall|x: i32| wanted.contains_key(x) implies dps_data::personal_models(players@)[x]
            == wanted[x] by {
            assert(ids@.to_set().contains(x));
            assert(dps_data::personal_models(players@).contains_key(x));
        }
        assert(dps_data::personal_models(players@) =~= wanted);
    }
}

/// What each player did in the given events, as it is shown, and the classes that are remembered
/// afterwards.
pub open spec fn metered(
    ps: Seq<ParsedDamagePacket>,
    nicknames: Map<i32, Seq<char>>,
    summons: Map<i32, i32>,
    local: Option<Set<i32>>,
    classes: Map<Seq<char>, Seq<char>>,
    jobs: JobTable,
    skills: SkillLookup,
) -> Roster {
    let naming = Naming {
        nicknames,
        summons,
        canonical: names::canonical_ids(ps, nicknames, summons),
    };
    let roster = (Roster { players: Map::empty(), classes }).counted_all(ps, naming, jobs, skills);
    Roster {
        players: shown_players(without_orphans(roster.players, nicknames, summons), local),
        classes: roster.classes,
    }
}

/// Adds up what each player did in the given events, as it is shown.
pub fn meter_events(
    ps: &Vec<&ParsedDamagePacket>,
    nickname_data: &HashMap<i32, String>,
    summon_data: &HashMap<i32, i32>,
    local: &Option<HashSet<i32>>,
    jobs: &JobTable,
    skills: &SkillLookup,
    cache: &mut JobCache,
) -> (r: HashMap<i32, PersonalData>)
    ensures
        (Roster { players: dps_data::personal_models(r@), classes: final(cache)@ }) == metered(
            names::events(ps@),
            data_storage::texts(nickname_data@),
            summon_data@,
            id_set(*local),
            old(cache)@,
            *jobs,
            *skills,
        ),
{
    let canonical = names::build_nickname_canonical_map(ps, summon_data, nickname_data);
    let mut players = count_players(
        ps,
        &canonical,
        nickname_data,
        summon_data,
        jobs,
        skills,
        cache,
    );
    let ids = keys::sorted_keys(&players);
    let classes = classes_of(&players, &ids);
    proof {
        assert(dps_data::personal_models(players@).dom() =~= players@.dom());
        assert(data_storage::texts(classes@).dom() =~= classes@.dom());
        assert(player_classes(dps_data::personal_models(players@)).dom() =~= players@.dom());
    }
    let links = find_orphans(&ids, &classes, nickname_data, summon_data);
    adopt_orphans(&mut players, &links);
    keep_shown(&mut players, local);
    players
}

/// The damage of all events together.
pub fn total_damage(ps: &Vec<&ParsedDamagePacket>) -> (r: i64)
    ensures
        r == damage_of_all(names::events(ps@)),
{
    let ghost all = names::events(ps@);
    let mut r: i64 = 0;
    let mut i: usize = 0;
    while i < ps.len()
        invariant
            i <= ps@.len(),
            all == names::events(ps@),
            r == damage_of_all(all.take(i as int)),
        decreases ps@.len() - i,
    {
        assert(all.take(i + 1).drop_last() =~= all.take(i as int));
        assert(all.take(i + 1).last() == *ps@[i as int]);
        r = r.wrapping_add(ps[i].total_damage as i64);
        i += 1;
    }
    assert(all.take(i as int) =~= all);
    r
}

} // verus!
