//! All fights at a glance: the targets and the players to choose from.
use crate::combat::data_storage;
use crate::combat::data_storage::DataStorage;
use crate::combat::game_data::GameData;
use crate::combat::meter;
use crate::combat::meter::{Naming, OrphanLink};
use crate::combat::names;
use crate::combat::packet_log::PacketLog;
use crate::combat::storage_model::StorageModel;
use crate::combat::target_details;
use crate::combat::target_selection;
use crate::entity::damage_packet::ParsedDamagePacket;
use crate::entity::details_context;
use crate::entity::details_context::{
    ActorSummaryModel, ContextModel, DetailsActorSummary, DetailsContext, DetailsTargetSummary,
    TargetSummaryModel,
};
use crate::entity::job_class::JobTable;
use crate::entity::summon_resolver;
use crate::entity::target_info::{TargetInfo, TargetInfoModel};
use crate::keys;
use std::collections::HashMap;
use vstd::hash_map::StringHashMap;
use vstd::prelude::*;

verus! {

broadcast use vstd::std_specs::hash::group_hash_axioms;

/// The nickname and the class of a player.
#[verifier::ext_equal]
pub struct MetaModel {
    pub nickname: Seq<char>,
    pub job: Seq<char>,
}

/// The damage done to one target, by player, and what is known of players so far.
#[verifier::ext_equal]
pub struct Tally {
    pub total: i32,
    pub damage: Map<i32, i32>,
    pub meta: Map<i32, MetaModel>,
}

impl Tally {
    /// What is known of a player before an event of it.
    pub open spec fn meta_before(self, uid: i32, naming: Naming) -> MetaModel {
        if self.meta.contains_key(uid) {
            self.meta[uid]
        } else {
            MetaModel {
                nickname: names::nickname_for(uid, naming.nicknames, naming.summons),
                job: Seq::empty(),
            }
        }
    }

    /// The tally with an event counted. Events whose actor is no player are left out.
    pub open spec fn counted(self, p: ParsedDamagePacket, naming: Naming, jobs: JobTable) -> Self {
        let raw = summon_resolver::resolved(p.actor_id, naming.summons);
        if raw <= 0 {
            self
        } else {
            let uid = names::counted_under(
                raw,
                naming.canonical,
                naming.nicknames,
                naming.summons,
            );
            let before = self.meta_before(uid, naming);
            Tally {
                total: self.total.wrapping_add(p.total_damage),
                damage: self.damage.insert(
                    uid,
                    names::damage_in(self.damage, uid).wrapping_add(p.total_damage),
                ),
                meta: self.meta.insert(
                    uid,
                    if before.job.len() == 0 && jobs.job_of(p.skill_code) is Some {
                        MetaModel { job: jobs.job_name_of(p.skill_code), ..before }
                    } else {
                        before
                    },
                ),
            }
        }
    }

    /// The tally with all of the events counted, in their order.
    pub open spec fn counted_all(
        self,
        ps: Seq<ParsedDamagePacket>,
        naming: Naming,
        jobs: JobTable,
    ) -> Self
        decreases ps.len(),
    {
        if ps.len() == 0 {
            self
        } else {
            self.counted_all(ps.drop_last(), naming, jobs).counted(ps.last(), naming, jobs)
        }
    }

    /// The classes of the players that hit the target.
    pub open spec fn classes(self) -> Map<i32, Seq<char>> {
        Map::new(
            |u: i32| self.damage.contains_key(u) && self.meta.contains_key(u),
            |u: i32| self.meta[u].job,
        )
    }

    /// The tally with each orphan's damage moved to its owner.
    pub open spec fn adopted(self, links: Seq<OrphanLink>) -> Self
        decreases links.len(),
    {
        if links.len() == 0 {
            self
        } else {
            let before = self.adopted(links.drop_last());
            let link = links.last();
            Tally {
                damage: if before.damage.contains_key(link.orphan) {
                    let rest = before.damage.remove(link.orphan);
                    rest.insert(
                        link.owner,
                        names::damage_in(rest, link.owner).wrapping_add(
                            before.damage[link.orphan],
                        ),
                    )
                } else {
                    before.damage
                },
                meta: before.meta.remove(link.orphan),
                ..before
            }
        }
    }

    /// The ids that hit the target and have neither a class nor a nickname.
    pub open spec fn strangers(self, nicknames: Map<i32, Seq<char>>) -> Set<i32> {
        self.damage.dom().filter(
            |u: i32|
                self.meta.contains_key(u) && self.meta[u].job.len() == 0
                    && !nicknames.contains_key(u),
        )
    }

    /// The tally without the given ids.
    pub open spec fn without(self, ids: Set<i32>) -> Self {
        Tally { damage: self.damage.remove_keys(ids), meta: self.meta.remove_keys(ids), ..self }
    }

    /// The tally with unlinked summons counted for the players behind them, and without ids that
    /// have neither a class nor a nickname.
    pub open spec fn settled(
        self,
        nicknames: Map<i32, Seq<char>>,
        summons: Map<i32, i32>,
    ) -> Self {
        let merged = self.adopted(
            meter::orphan_links(
                keys::ascending(self.classes().dom()),
                self.classes(),
                nicknames,
                summons,
            ),
        );
        merged.without(merged.strangers(nicknames))
    }
}

/// The fights so far, and what is known of players.
#[verifier::ext_equal]
pub struct OverviewModel {
    pub targets: Seq<TargetSummaryModel>,
    pub meta: Map<i32, MetaModel>,
}

/// What was done to one target.
pub open spec fn target_tally(
    meta: Map<i32, MetaModel>,
    ps: Seq<ParsedDamagePacket>,
    storage: StorageModel,
    jobs: JobTable,
) -> Tally {
    (Tally { total: 0, damage: Map::empty(), meta }).counted_all(
        ps,
        target_details::naming_in(ps, storage),
        jobs,
    ).settled(storage.nicknames, storage.summons)
}

/// A target in the list of targets.
pub open spec fn target_summary(
    target: i32,
    tally: Tally,
    infos: Map<i32, TargetInfoModel>,
    storage: StorageModel,
    game: GameData,
) -> TargetSummaryModel {
    TargetSummaryModel {
        target_id: target,
        target_name: target_selection::target_name(target, storage.mobs, game.npcs),
        max_hp: names::damage_in(storage.mob_hp, target),
        battle_time: if infos.contains_key(target) {
            infos[target].battle_time()
        } else {
            0
        },
        last_damage_time: if infos.contains_key(target) {
            infos[target].last_damage_time
        } else {
            0
        },
        total_damage: tally.total,
        actor_damage: tally.damage,
    }
}

/// The given targets, one after the other.
pub open spec fn overview_of(
    targets: Seq<i32>,
    packets: Map<i32, Seq<ParsedDamagePacket>>,
    infos: Map<i32, TargetInfoModel>,
    storage: StorageModel,
    game: GameData,
) -> OverviewModel
    decreases targets.len(),
{
    if targets.len() == 0 {
        OverviewModel { targets: Seq::empty(), meta: Map::empty() }
    } else {
        let before = overview_of(targets.drop_last(), packets, infos, storage, game);
        let tally = target_tally(before.meta, packets[targets.last()], storage, game.jobs);
        OverviewModel {
            targets: before.targets.push(
                target_summary(targets.last(), tally, infos, storage, game),
            ),
            meta: tally.meta,
        }
    }
}

/// The first skill of a player that gives its class away.
pub open spec fn telling_skill(
    ps: Seq<ParsedDamagePacket>,
    id: i32,
    summons: Map<i32, i32>,
    jobs: JobTable,
) -> Option<i32>
    decreases ps.len(),
{
    if ps.len() == 0 {
        None
    } else {
        match telling_skill(ps.drop_last(), id, summons, jobs) {
            Some(code) => Some(code),
            None => if summon_resolver::resolved(ps.last().actor_id, summons) == id && jobs.job_of(
                ps.last().skill_code,
            ) is Some {
                Some(ps.last().skill_code)
            } else {
                None
            },
        }
    }
}

/// The first skill of a player that gives its class away, over the given targets.
pub open spec fn telling_skill_in(
    targets: Seq<i32>,
    packets: Map<i32, Seq<ParsedDamagePacket>>,
    id: i32,
    summons: Map<i32, i32>,
    jobs: JobTable,
) -> Option<i32>
    decreases targets.len(),
{
    if targets.len() == 0 {
        None
    } else {
        match telling_skill_in(targets.drop_last(), packets, id, summons, jobs) {
            Some(code) => Some(code),
            None => telling_skill(packets[targets.last()], id, summons, jobs),
        }
    }
}

/// A player in the list of players.
pub open spec fn actor_summary(
    id: i32,
    meta: MetaModel,
    targets: Seq<i32>,
    packets: Map<i32, Seq<ParsedDamagePacket>>,
    summons: Map<i32, i32>,
    jobs: JobTable,
) -> ActorSummaryModel {
    ActorSummaryModel {
        actor_id: id,
        nickname: meta.nickname,
        job: meta.job,
        job_id: jobs.job_prefix_of(
            match telling_skill_in(targets, packets, id, summons, jobs) {
                Some(code) => code,
                None => 0,
            },
        ),
    }
}

/// The targets, smallest id first, and the players that hit them, smallest id first.
pub open spec fn context_of(
    current_target: i32,
    packets: Map<i32, Seq<ParsedDamagePacket>>,
    infos: Map<i32, TargetInfoModel>,
    storage: StorageModel,
    game: GameData,
) -> ContextModel {
    let targets = keys::ascending(packets.dom());
    let overview = overview_of(targets, packets, infos, storage, game);
    ContextModel {
        current_target_id: current_target,
        targets: overview.targets,
        actors: keys::ascending(overview.meta.dom()).map_values(
            |id: i32|
                actor_summary(
                    id,
                    overview.meta[id],
                    targets,
                    packets,
                    storage.summons,
                    game.jobs,
                ),
        ),
    }
}

/// The nickname and the class of a player.
pub struct ActorMeta {
    pub nickname: String,
    pub job: String,
}

impl View for ActorMeta {
    type V = MetaModel;

    open spec fn view(&self) -> MetaModel {
        MetaModel { nickname: self.nickname@, job: self.job@ }
    }
}

/// The models of what is known of players.
pub open spec fn meta_models(m: Map<i32, ActorMeta>) -> Map<i32, MetaModel> {
    m.map_values(|a: ActorMeta| a@)
}

/// The damage done to one target, by player, and what is known of players so far.
struct TargetTally {
    total: i32,
    damage: HashMap<i32, i32>,
    meta: HashMap<i32, ActorMeta>,
}

impl View for TargetTally {
    type V = Tally;

    closed spec fn view(&self) -> Tally {
        Tally { total: self.total, damage: self.damage@, meta: meta_models(self.meta@) }
    }
}

impl TargetTally {
    /// Counts an event.
    fn count(
        &mut self,
        p: &ParsedDamagePacket,
        nicknames: &HashMap<i32, String>,
        summons: &HashMap<i32, i32>,
        canonical: &StringHashMap<i32>,
        jobs: &JobTable,
    )
        ensures
            final(self)@ == old(self)@.counted(
                *p,
                (Naming {
                    nicknames: data_storage::texts(nicknames@),
                    summons: summons@,
                    canonical: canonical@,
                }),
                *jobs,
            ),
    {
        let ghost before = self@;
        let ghost naming = Naming {
            nicknames: data_storage::texts(nicknames@),
            summons: summons@,
            canonical: canonical@,
        };
        let raw = summon_resolver::resolve(p.actor_id, summons);
        if raw <= 0 {
            return;
        }
        let nickname = names::resolve_nickname(raw, nicknames, summons);
        let uid = names::canonical_id(canonical, nickname.as_str(), raw);
        self.total = self.total.wrapping_add(p.total_damage);
        let so_far: i32 = match self.damage.get(&uid) {
            Some(d) => *d,
            None => 0,
        };
        self.damage.insert(uid, so_far.wrapping_add(p.total_damage));
        let mut entry = match self.meta.remove(&uid) {
            Some(m) => m,
            None => ActorMeta {
                nickname: names::resolve_nickname(uid, nicknames, summons),
                job: String::new(),
            },
        };
        assert(entry@ =~= before.meta_before(uid, naming));
        if entry.job.as_str().is_empty() {
            match jobs.convert_from_skill(p.skill_code) {
                Some(job) => {
                    entry.job = jobs.class_name(job);
                },
                None => {},
            }
        }
        self.meta.insert(uid, entry);
        assert(self@.meta =~= before.counted(*p, naming, *jobs).meta);
    }

    /// The classes of the players that hit the target.
    fn classes(&self) -> (r: HashMap<i32, String>)
        ensures
            data_storage::texts(r@) == self@.classes(),
    {
        let ids = keys::sorted_keys(&self.damage);
        let mut r: HashMap<i32, String> = HashMap::new();
        let mut i: usize = 0;
        while i < ids.len()
            invariant
                i <= ids@.len(),
                ids@.to_set() == self@.damage.dom(),
                forall|x: i32| #[trigger]
                    r@.contains_key(x) <==> ids@.take(i as int).contains(x)
                        && self@.meta.contains_key(x),
                forall|x: i32| #[trigger] r@.contains_key(x) ==> r@[x]@ == self@.meta[x].job,
            decreases ids@.len() - i,
        {
            let id: i32 = ids[i];
            proof {
                keys::lemma_one_more(ids@, i as int);
            }
            match self.meta.get(&id) {
                Some(m) => {
                    r.insert(id, m.job.clone());
                },
                None => {},
            }
            i += 1;
        }
        proof {
            assert(ids@.take(i as int) =~= ids@);
            let wanted = self@.classes();
            assert forall|x: i32| #[trigger]
                data_storage::texts(r@).contains_key(x) <==> wanted.contains_key(x) by {
                assert(ids@.to_set().contains(x) == self@.damage.dom().contains(x));
                assert(r@.contains_key(x) <==> ids@.contains(x) && self@.meta.contains_key(x));
            }
            assert(data_storage::texts(r@) =~= wanted);
        }
        r
    }

    /// Moves each orphan's damage to its owner.
    fn adopt(&mut self, links: &Vec<OrphanLink>)
        ensures
            final(self)@ == old(self)@.adopted(links@),
    {
        let ghost start = self@;
        let mut i: usize = 0;
        assert(links@.take(0) =~= Seq::empty());
        while i < links.len()
            invariant
                i <= links@.len(),
                self@ == start.adopted(links@.take(i as int)),
            decreases links@.len() - i,
        {
            let link: OrphanLink = links[i];
            let ghost before = self@;
            assert(links@.take(i + 1).drop_last() =~= links@.take(i as int));
            assert(links@.take(i + 1).last() == link);
            match self.damage.remove(&link.orphan) {
                Some(dmg) => {
                    let so_far: i32 = match self.damage.get(&link.owner) {
                        Some(d) => *d,
                        None => 0,
                    };
                    self.damage.insert(link.owner, so_far.wrapping_add(dmg));
                },
                None => {},
            }
            self.meta.remove(&link.orphan);
            proof {
                assert(self@.meta =~= before.meta.remove(link.orphan));
                assert(self@ =~= start.adopted(links@.take(i + 1)));
            }
            i += 1;
        }
        assert(links@.take(i as int) =~= links@);
    }

    /// Drops the ids that have neither a class nor a nickname.
    fn drop_strangers(&mut self, nicknames: &HashMap<i32, String>)
        ensures
            final(self)@ == old(self)@.without(
                old(self)@.strangers(data_storage::texts(nicknames@)),
            ),
    {
        let ghost start = self@;
        let ghost named = data_storage::texts(nicknames@);
        let ghost out = start.strangers(named);
        let ids = keys::sorted_keys(&self.damage);
        let mut i: usize = 0;
        proof {
            assert(start.without(out.intersect(ids@.take(0).to_set())) =~= start);
        }
        while i < ids.len()
            invariant
                i <= ids@.len(),
                keys::is_ascending(ids@),
                ids@.to_set() == start.damage.dom(),
                named == data_storage::texts(nicknames@),
                out == start.strangers(named),
                self@ == start.without(out.intersect(ids@.take(i as int).to_set())),
            decreases ids@.len() - i,
        {
            let id: i32 = ids[i];
            let ghost before = self@;
            let ghost seen = ids@.take(i as int);
            let ghost now = ids@.take(i + 1);
            proof {
                keys::lemma_one_more(ids@, i as int);
                assert(ids@.to_set().contains(id));
                assert(!out.intersect(seen.to_set()).contains(id));
                assert(before.meta.contains_key(id) == start.meta.contains_key(id));
                assert(before.meta.contains_key(id) ==> before.meta[id] == start.meta[id]);
            }
            let stranger = match self.meta.get(&id) {
                Some(m) => {
                    assert(m@ == before.meta[id]);
                    m.job.as_str().is_empty() && !nicknames.contains_key(&id)
                },
                None => false,
            };
            assert(stranger == out.contains(id));
            if stranger {
                self.damage.remove(&id);
                self.meta.remove(&id);
                assert(self@.meta =~= before.meta.remove(id));
            }
            proof {
                let gone = out.intersect(now.to_set());
                assert(self@.damage =~= start.damage.remove_keys(gone));
                assert(self@.meta =~= start.meta.remove_keys(gone));
                assert(self@ =~= start.without(gone));
            }
            i += 1;
        }
        proof {
            assert(ids@.take(i as int) =~= ids@);
            assert(out.intersect(ids@.to_set()) =~= out);
        }
    }

    /// Counts unlinked summons for the players behind them, and drops ids that have neither a
    /// class nor a nickname.
    fn settle(&mut self, nicknames: &HashMap<i32, String>, summons: &HashMap<i32, i32>)
        ensures
            final(self)@ == old(self)@.settled(data_storage::texts(nicknames@), summons@),
    {
        let classes = self.classes();
        assert(data_storage::texts(classes@).dom() =~= classes@.dom());
        let ids = keys::sorted_keys(&classes);
        let links = meter::find_orphans(&ids, &classes, nicknames, summons);
        self.adopt(&links);
        self.drop_strangers(nicknames);
    }
}

/// What was done to one target.
fn tally_target(
    meta: HashMap<i32, ActorMeta>,
    ps: &Vec<ParsedDamagePacket>,
    storage: &DataStorage,
    nicknames: &HashMap<i32, String>,
    summons: &HashMap<i32, i32>,
    jobs: &JobTable,
) -> (r: TargetTally)
    requires
        data_storage::texts(nicknames@) == storage@.nicknames,
        summons@ == storage@.summons,
    ensures
        r@ == target_tally(meta_models(meta@), ps@, storage@, *jobs),
{
    let refs = target_details::event_refs(ps);
    let canonical = names::build_nickname_canonical_map(&refs, summons, nicknames);
    let ghost naming = target_details::naming_in(ps@, storage@);
    let mut r = TargetTally { total: 0, damage: HashMap::new(), meta };
    let ghost start = Tally { total: 0, damage: Map::empty(), meta: meta_models(meta@) };
    assert(r@ =~= start);
    let mut i: usize = 0;
    while i < ps.len()
        invariant
            i <= ps@.len(),
            naming == (Naming {
                nicknames: data_storage::texts(nicknames@),
                summons: summons@,
                canonical: canonical@,
            }),
            r@ == start.counted_all(ps@.take(i as int), naming, *jobs),
        decreases ps@.len() - i,
    {
        assert(ps@.take(i + 1).drop_last() =~= ps@.take(i as int));
        assert(ps@.take(i + 1).last() == ps@[i as int]);
        r.count(&ps[i], nicknames, summons, &canonical, jobs);
        i += 1;
    }
    assert(ps@.take(i as int) =~= ps@);
    r.settle(nicknames, summons);
    r
}

/// The first skill of a player that gives its class away.
fn find_telling_skill(
    ps: &Vec<ParsedDamagePacket>,
    id: i32,
    summons: &HashMap<i32, i32>,
    jobs: &JobTable,
) -> (r: Option<i32>)
    ensures
        r == telling_skill(ps@, id, summons@, *jobs),
{
    let mut found: Option<i32> = None;
    let mut i: usize = 0;
    while i < ps.len()
        invariant
            i <= ps@.len(),
            found == telling_skill(ps@.take(i as int), id, summons@, *jobs),
        decreases ps@.len() - i,
    {
        assert(ps@.take(i + 1).drop_last() =~= ps@.take(i as int));
        assert(ps@.take(i + 1).last() == ps@[i as int]);
        if found.is_none() {
            let resolved = summon_resolver::resolve(ps[i].actor_id, summons);
            if resolved == id && jobs.convert_from_skill(ps[i].skill_code).is_some() {
                found = Some(ps[i].skill_code);
            }
        }
        i += 1;
    }
    assert(ps@.take(i as int) =~= ps@);
    found
}

/// The first skill of a player that gives its class away, over the given targets.
fn find_telling_skill_in(
    targets: &Vec<i32>,
    log: &PacketLog,
    id: i32,
    summons: &HashMap<i32, i32>,
    jobs: &JobTable,
) -> (r: Option<i32>)
    requires
        targets@.to_set().subset_of(log@.dom()),
    ensures
        r == telling_skill_in(targets@, log@, id, summons@, *jobs),
{
    let mut found: Option<i32> = None;
    let mut i: usize = 0;
    while i < targets.len()
        invariant
            i <= targets@.len(),
            targets@.to_set().subset_of(log@.dom()),
            found == telling_skill_in(targets@.take(i as int), log@, id, summons@, *jobs),
        decreases targets@.len() - i,
    {
        assert(targets@.take(i + 1).drop_last() =~= targets@.take(i as int));
        assert(targets@.take(i + 1).last() == targets@[i as int]);
        assert(targets@.to_set().contains(targets@[i as int]));
        if found.is_none() {
            match log.by_target.get(&targets[i]) {
                Some(ps) => {
                    found = find_telling_skill(ps, id, summons, jobs);
                },
                None => {},
            }
        }
        i += 1;
    }
    assert(targets@.take(i as int) =~= targets@);
    found
}

/// The targets and the players to choose from.
pub fn details_context(
    current_target: i32,
    log: &PacketLog,
    infos: &HashMap<i32, TargetInfo>,
    storage: &DataStorage,
    game: &GameData,
) -> (r: DetailsContext)
    ensures
        r@ == context_of(
            current_target,
            log@,
            target_selection::info_models(infos@),
            storage@,
            *game,
        ),
{
    let nicknames = storage.get_nicknames();
    let summons = storage.get_summon_data();
    let mob_hp = storage.get_mob_hp_data();
    let mobs = storage.get_mob_data();
    let ghost models = target_selection::info_models(infos@);
    let ids = keys::sorted_keys(&log.by_target);
    assert(log@.dom() =~= log.by_target@.dom());
    let mut meta: HashMap<i32, ActorMeta> = HashMap::new();
    let mut targets: Vec<DetailsTargetSummary> = Vec::new();
    proof {
        assert(meta_models(meta@) =~= Map::empty());
        assert(details_context::target_summaries(targets@) =~= Seq::empty());
    }
    let mut i: usize = 0;
    while i < ids.len()
        invariant
            i <= ids@.len(),
            ids@.to_set() == log@.dom(),
            models == target_selection::info_models(infos@),
            data_storage::texts(nicknames@) == storage@.nicknames,
            summons@ == storage@.summons,
            mob_hp@ == storage@.mob_hp,
            mobs@ == storage@.mobs,
            (OverviewModel {
                targets: details_context::target_summaries(targets@),
                meta: meta_models(meta@),
            }) == overview_of(ids@.take(i as int), log@, models, storage@, *game),
        decreases ids@.len() - i,
    {
        let id: i32 = ids[i];
        let ghost before = details_context::target_summaries(targets@);
        assert(ids@.take(i + 1).drop_last() =~= ids@.take(i as int));
        assert(ids@.take(i + 1).last() == id);
        assert(ids@.to_set().contains(id));
        match log.by_target.get(&id) {
            Some(ps) => {
                assert(ps@ == log@[id]);
                let tally = tally_target(meta, ps, storage, &nicknames, &summons, &game.jobs);
                let ghost wanted = target_summary(id, tally@, models, storage@, *game);
                let (battle_time, last_damage_time) = match infos.get(&id) {
                    Some(info) => (info.battle_time(), info.last_damage_time()),
                    None => (0, 0),
                };
                let max_hp: i32 = match mob_hp.get(&id) {
                    Some(hp) => *hp,
                    None => 0,
                };
                let summary = DetailsTargetSummary {
                    target_id: id,
                    target_name: target_selection::resolve_target_name(id, &mobs, &game.npcs),
                    max_hp,
                    battle_time,
                    last_damage_time,
                    total_damage: tally.total,
                    actor_damage: tally.damage,
                };
                assert(summary@ =~= wanted);
                targets.push(summary);
                meta = tally.meta;
                assert(details_context::target_summaries(targets@) =~= before.push(wanted));
            },
            None => {
                meta = HashMap::new();
            },
        }
        i += 1;
    }
    assert(ids@.take(i as int) =~= ids@);
    let ghost overview = overview_of(ids@, log@, models, storage@, *game);
    let players = keys::sorted_keys(&meta);
    assert(meta_models(meta@).dom() =~= meta@.dom());
    let ghost summarised = |id: i32|
        actor_summary(id, overview.meta[id], ids@, log@, storage@.summons, game.jobs);
    let mut actors: Vec<DetailsActorSummary> = Vec::new();
    let mut k: usize = 0;
    while k < players.len()
        invariant
            k <= players@.len(),
            ids@.to_set() == log@.dom(),
            players@.to_set() == meta@.dom(),
            summons@ == storage@.summons,
            meta_models(meta@) == overview.meta,
            summarised == (|id: i32|
                actor_summary(id, overview.meta[id], ids@, log@, storage@.summons, game.jobs)),
            details_context::actor_summaries(actors@) == players@.take(k as int).map_values(
                summarised,
            ),
        decreases players@.len() - k,
    {
        let id: i32 = players[k];
        let ghost before = details_context::actor_summaries(actors@);
        assert(players@.to_set().contains(id));
        match meta.get(&id) {
            Some(m) => {
                let code: i32 = match find_telling_skill_in(
                    &ids,
                    log,
                    id,
                    &summons,
                    &game.jobs,
                ) {
                    Some(code) => code,
                    None => 0,
                };
                let a = DetailsActorSummary {
                    actor_id: id,
                    nickname: m.nickname.clone(),
                    job: m.job.clone(),
                    job_id: game.jobs.class_prefix_from_skill(code),
                };
                assert(m@ == overview.meta[id]);
                assert(a@ == summarised(id));
                actors.push(a);
                assert(details_context::actor_summaries(actors@) =~= before.push(a@));
                assert(players@.take(k + 1).map_values(summarised) =~= before.push(a@));
            },
            None => {},
        }
        k += 1;
    }
    assert(players@.take(k as int) =~= players@);
    DetailsContext { current_target_id: current_target, targets, actors }
}

} // verus!
