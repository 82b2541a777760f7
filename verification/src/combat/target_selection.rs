//! Which targets the meter shows.
use crate::combat::packet_log;
use crate::entity::damage_packet::ParsedDamagePacket;
use crate::entity::summon_resolver;
use crate::entity::target_info::{TargetInfo, TargetInfoModel};
use crate::i18n::lookup::NpcLookup;
use crate::keys;
use crate::text;
use std::collections::{HashMap, HashSet};
use vstd::prelude::*;

verus! {

broadcast use vstd::std_specs::hash::group_hash_axioms;

/// How the targets to show are chosen.
#[derive(Debug, Clone, Copy, PartialEq, Eq, Structural)]
pub enum TargetSelectionMode {
    BossTargets,
    MostDamage,
    MostRecent,
    LastHitByMe,
    AllTargets,
    TrainTargets,
}

impl TargetSelectionMode {
    /// The name of the mode.
    pub open spec fn name(self) -> Seq<char> {
        match self {
            TargetSelectionMode::BossTargets => "bossTargets"@,
            TargetSelectionMode::MostDamage => "mostDamage"@,
            TargetSelectionMode::MostRecent => "mostRecent"@,
            TargetSelectionMode::LastHitByMe => "lastHitByMe"@,
            TargetSelectionMode::AllTargets => "allTargets"@,
            TargetSelectionMode::TrainTargets => "trainTargets"@,
        }
    }

    /// The mode of the given name; `LastHitByMe` for a name that no mode has.
    pub open spec fn named(id: Seq<char>) -> Self {
        if id == "bossTargets"@ {
            TargetSelectionMode::BossTargets
        } else if id == "mostDamage"@ {
            TargetSelectionMode::MostDamage
        } else if id == "mostRecent"@ {
            TargetSelectionMode::MostRecent
        } else if id == "allTargets"@ {
            TargetSelectionMode::AllTargets
        } else if id == "trainTargets"@ {
            TargetSelectionMode::TrainTargets
        } else {
            TargetSelectionMode::LastHitByMe
        }
    }

    /// The mode of the given name; `LastHitByMe` for a name that no mode has.
    pub fn from_id(id: &str) -> (r: Self)
        ensures
            r == Self::named(id@),
    {
        if text::same_text(id, "bossTargets") {
            TargetSelectionMode::BossTargets
        } else if text::same_text(id, "mostDamage") {
            TargetSelectionMode::MostDamage
        } else if text::same_text(id, "mostRecent") {
            TargetSelectionMode::MostRecent
        } else if text::same_text(id, "allTargets") {
            TargetSelectionMode::AllTargets
        } else if text::same_text(id, "trainTargets") {
            TargetSelectionMode::TrainTargets
        } else {
            TargetSelectionMode::LastHitByMe
        }
    }

    /// The name of the mode.
    pub fn id(&self) -> (r: &'static str)
        ensures
            r@ == self.name(),
    {
        match self {
            TargetSelectionMode::BossTargets => "bossTargets",
            TargetSelectionMode::MostDamage => "mostDamage",
            TargetSelectionMode::MostRecent => "mostRecent",
            TargetSelectionMode::LastHitByMe => "lastHitByMe",
            TargetSelectionMode::AllTargets => "allTargets",
            TargetSelectionMode::TrainTargets => "trainTargets",
        }
    }
}

/// The mode that is read back from a mode's name is that mode.
pub proof fn law_mode_is_read_back_from_its_name(mode: TargetSelectionMode)
    ensures
        TargetSelectionMode::named(mode.name()) == mode,
{
    reveal_strlit("bossTargets");
    reveal_strlit("mostDamage");
    reveal_strlit("mostRecent");
    reveal_strlit("lastHitByMe");
    reveal_strlit("allTargets");
    reveal_strlit("trainTargets");
    assert("mostDamage"@[4] != "mostRecent"@[4]);
    assert("mostDamage"@.len() != "bossTargets"@.len());
    assert("allTargets"@[0] != "mostDamage"@[0]);
    assert("allTargets"@[0] != "mostRecent"@[0]);
    assert("lastHitByMe"@[0] != "bossTargets"@[0]);
}

/// Whether the kind of creature is a training dummy.
pub open spec fn train_code(code: i32) -> bool {
    ||| code == 2300229
    ||| code == 2300919
    ||| code == 2310229
    ||| code == 2310919
    ||| code == 2320229
    ||| code == 2320919
    ||| code == 2400032
    ||| code == 2400392
    ||| code == 2500075
    ||| code == 2500076
    ||| code == 2701376
}

/// Whether the kind of creature is a training dummy.
pub fn is_train_code(code: i32) -> (r: bool)
    ensures
        r == train_code(code),
{
    code == 2300229 || code == 2300919 || code == 2310229 || code == 2310919 || code == 2320229
        || code == 2320919 || code == 2400032 || code == 2400392 || code == 2500075 || code
        == 2500076 || code == 2701376
}

/// What is known of the targets in a table.
pub open spec fn info_models(m: Map<i32, TargetInfo>) -> Map<i32, TargetInfoModel> {
    m.map_values(|i: TargetInfo| i@)
}

/// The targets to show, the name to show for them, and the one target that is followed (zero
/// where several are).
#[verifier::ext_equal]
pub struct Choice {
    pub ids: Set<i32>,
    pub name: Seq<char>,
    pub tracking: i32,
}

/// Whether the id has the highest score; of equal ones, the largest id.
pub open spec fn is_top(id: i32, among: Set<i32>, score: spec_fn(i32) -> i64) -> bool {
    &&& among.contains(id)
    &&& forall|other: i32| #[trigger]
        among.contains(other) && other != id ==> score(other) < score(id) || (score(other)
            == score(id) && other < id)
}

/// The id with the highest score.
pub open spec fn top(among: Set<i32>, score: spec_fn(i32) -> i64) -> Option<i32> {
    if among == Set::<i32>::empty() {
        None
    } else {
        Some(choose|id: i32| is_top(id, among, score))
    }
}

/// The target that took the most damage.
pub open spec fn most_damaged(infos: Map<i32, TargetInfoModel>, among: Set<i32>) -> Option<i32> {
    top(among, |t: i32| infos[t].damaged_amount)
}

/// The target that was hit last.
pub open spec fn most_recent(infos: Map<i32, TargetInfoModel>) -> Option<i32> {
    top(infos.dom(), |t: i32| infos[t].last_damage_time)
}

/// The targets whose kind is a boss.
pub open spec fn boss_targets(
    infos: Map<i32, TargetInfoModel>,
    mobs: Map<i32, i32>,
    npcs: NpcLookup,
) -> Set<i32> {
    infos.dom().filter(|t: i32| mobs.contains_key(t) && npcs.bosses@.contains(mobs[t]))
}

/// The targets that are training dummies.
pub open spec fn train_targets(
    infos: Map<i32, TargetInfoModel>,
    mobs: Map<i32, i32>,
) -> Set<i32> {
    infos.dom().filter(|t: i32| mobs.contains_key(t) && train_code(mobs[t]))
}

/// When one of the given ids, or a summon of one, last acted.
pub open spec fn last_act(
    ps: Seq<ParsedDamagePacket>,
    ids: Set<i32>,
    summons: Map<i32, i32>,
) -> Option<i64>
    decreases ps.len(),
{
    if ps.len() == 0 {
        None
    } else if ids.contains(summon_resolver::resolved(ps.last().actor_id, summons)) {
        Some(ps.last().timestamp)
    } else {
        last_act(ps.drop_last(), ids, summons)
    }
}

/// The target that one of the given ids hit last.
pub open spec fn last_hit_by(
    packets: Map<i32, Seq<ParsedDamagePacket>>,
    ids: Set<i32>,
    summons: Map<i32, i32>,
) -> Option<i32> {
    top(
        packets.dom().filter(|t: i32| last_act(packets[t], ids, summons) is Some),
        |t: i32| last_act(packets[t], ids, summons)->0,
    )
}

/// The ids of the local player: its own and those of its summons. None while the local player is
/// not known.
pub open spec fn local_ids(local_player: Option<i64>, summons: Map<i32, i32>) -> Option<Set<i32>> {
    match local_player {
        Some(id) => Some(
            summons.dom().filter(
                |s: i32| summon_resolver::resolved(summons[s], summons) == id as i32,
            ).insert(id as i32),
        ),
        None => None,
    }
}

/// The name of a target; empty where its kind is not known.
pub open spec fn target_name(target: i32, mobs: Map<i32, i32>, npcs: NpcLookup) -> Seq<char> {
    if mobs.contains_key(target) {
        npcs.name_of(mobs[target])
    } else {
        Seq::empty()
    }
}

/// The choice of one target, or of none.
pub open spec fn single(target: Option<i32>, mobs: Map<i32, i32>, npcs: NpcLookup) -> Choice {
    match target {
        Some(id) => Choice {
            ids: Set::empty().insert(id),
            name: target_name(id, mobs, npcs),
            tracking: id,
        },
        None => Choice { ids: Set::empty(), name: Seq::empty(), tracking: 0 },
    }
}

/// The targets to show.
pub open spec fn chosen(
    mode: TargetSelectionMode,
    infos: Map<i32, TargetInfoModel>,
    packets: Map<i32, Seq<ParsedDamagePacket>>,
    summons: Map<i32, i32>,
    mobs: Map<i32, i32>,
    local_player: Option<i64>,
    npcs: NpcLookup,
) -> Choice {
    let damaged = most_damaged(infos, infos.dom());
    match mode {
        TargetSelectionMode::MostDamage => single(damaged, mobs, npcs),
        TargetSelectionMode::MostRecent => single(most_recent(infos), mobs, npcs),
        TargetSelectionMode::BossTargets => {
            let boss = most_damaged(infos, boss_targets(infos, mobs, npcs));
            single(
                if boss is Some {
                    boss
                } else {
                    damaged
                },
                mobs,
                npcs,
            )
        },
        TargetSelectionMode::AllTargets => Choice {
            ids: infos.dom(),
            name: "All Targets"@,
            tracking: 0,
        },
        TargetSelectionMode::TrainTargets => Choice {
            ids: train_targets(infos, mobs),
            name: "Train"@,
            tracking: 0,
        },
        TargetSelectionMode::LastHitByMe => match local_ids(local_player, summons) {
            Some(ids) => {
                let hit = last_hit_by(packets, ids, summons);
                single(
                    if hit is Some {
                        hit
                    } else {
                        most_recent(infos)
                    },
                    mobs,
                    npcs,
                )
            },
            None => single(damaged, mobs, npcs),
        },
    }
}

/// An id and its score.
#[derive(Debug, Clone, Copy)]
struct Scored {
    id: i32,
    score: i64,
}

/// The ids of scored candidates.
spec fn candidate_ids(cs: Seq<Scored>) -> Set<i32> {
    cs.map_values(|c: Scored| c.id).to_set()
}

/// The candidate with the highest score; of equal ones, that with the largest id.
fn pick_top(cs: &Vec<Scored>, Ghost(score): Ghost<spec_fn(i32) -> i64>) -> (r: Option<i32>)
    requires
        forall|i: int| 0 <= i < cs@.len() ==> (#[trigger] cs@[i]).score == score(cs@[i].id),
    ensures
        r == top(candidate_ids(cs@), score),
{
    let ghost ids = cs@.map_values(|c: Scored| c.id);
    if cs.len() == 0 {
        assert(candidate_ids(cs@) =~= Set::empty());
        return None;
    }
    let mut best: Scored = cs[0];
    let mut i: usize = 1;
    while i < cs.len()
        invariant
            1 <= i <= cs@.len(),
            ids == cs@.map_values(|c: Scored| c.id),
            forall|j: int| 0 <= j < cs@.len() ==> (#[trigger] cs@[j]).score == score(cs@[j].id),
            best.score == score(best.id),
            exists|j: int| 0 <= j < i && (#[trigger] cs@[j]).id == best.id,
            forall|j: int|
                0 <= j < i && (#[trigger] cs@[j]).id != best.id ==> cs@[j].score < best.score || (
                cs@[j].score == best.score && cs@[j].id < best.id),
        decreases cs@.len() - i,
    {
        let c: Scored = cs[i];
        assert(cs@[i as int] == c);
        if c.score > best.score || (c.score == best.score && c.id > best.id) {
            best = c;
        }
        i += 1;
    }
    proof {
        let among = candidate_ids(cs@);
        let k = choose|j: int| 0 <= j < cs@.len() && (#[trigger] cs@[j]).id == best.id;
        assert(ids[k] == best.id);
        assert(among.contains(best.id));
        assert forall|other: i32| #[trigger] among.contains(other) && other != best.id implies score(
            other,
        ) < score(best.id) || (score(other) == score(best.id) && other < best.id) by {
            let j = ids.index_of(other);
            assert(cs@[j].id == other);
        }
        assert(is_top(best.id, among, score));
        let w = choose|id: i32| is_top(id, among, score);
        assert(is_top(w, among, score));
        assert(w == best.id);
    }
    Some(best.id)
}

/// The ids of the local player.
pub fn resolve_local_ids(
    local_player: Option<i64>,
    summon_data: &HashMap<i32, i32>,
) -> (r: Option<HashSet<i32>>)
    ensures
        (match r {
            Some(ids) => Some(ids@),
            None => None,
        }) == local_ids(local_player, summon_data@),
{
    let local: i32 = match local_player {
        Some(id) => id as i32,
        None => {
            return None;
        },
    };
    let ghost links = summon_data@;
    let ghost mine = |s: i32| summon_resolver::resolved(links[s], links) == local;
    let summons = keys::sorted_keys(summon_data);
    let mut ids: HashSet<i32> = HashSet::new();
    ids.insert(local);
    let mut i: usize = 0;
    while i < summons.len()
        invariant
            i <= summons@.len(),
            links == summon_data@,
            summons@.to_set() == links.dom(),
            mine == (|s: i32| summon_resolver::resolved(links[s], links) == local),
            forall|x: i32| #[trigger]
                ids@.contains(x) <==> x == local || (summons@.take(i as int).contains(x) && mine(
                    x,
                )),
        decreases summons@.len() - i,
    {
        let s: i32 = summons[i];
        proof {
            keys::lemma_one_more(summons@, i as int);
            assert(summons@.to_set().contains(s));
        }
        match summon_data.get(&s) {
            Some(owner) => {
                if summon_resolver::resolve(*owner, summon_data) == local {
                    ids.insert(s);
                }
            },
            None => {},
        }
        i += 1;
    }
    proof {
        assert(summons@.take(i as int) =~= summons@);
        assert forall|x: i32| ids@.contains(x) <==> links.dom().filter(mine).insert(
            local,
        ).contains(x) by {
            assert(summons@.to_set().contains(x) == links.dom().contains(x));
        }
        assert(ids@ =~= links.dom().filter(mine).insert(local));
    }
    Some(ids)
}

/// The name of a target.
pub fn resolve_target_name(
    target_id: i32,
    mob_data: &HashMap<i32, i32>,
    npcs: &NpcLookup,
) -> (r: String)
    ensures
        r@ == target_name(target_id, mob_data@, *npcs),
{
    match mob_data.get(&target_id) {
        Some(code) => npcs.get_npc_name(*code),
        None => String::new(),
    }
}

/// What candidates for showing are scored by.
#[derive(Debug, Clone, Copy, PartialEq, Eq, Structural)]
enum ScoreBy {
    Damage,
    Recency,
}

/// The score of a target.
spec fn score_of(infos: Map<i32, TargetInfoModel>, by: ScoreBy) -> spec_fn(i32) -> i64 {
    match by {
        ScoreBy::Damage => |t: i32| infos[t].damaged_amount,
        ScoreBy::Recency => |t: i32| infos[t].last_damage_time,
    }
}

/// The best of the given targets.
fn best_target(infos: &HashMap<i32, TargetInfo>, ids: &Vec<i32>, by: ScoreBy) -> (r: Option<i32>)
    requires
        ids@.to_set().subset_of(infos@.dom()),
    ensures
        r == top(ids@.to_set(), score_of(info_models(infos@), by)),
{
    let ghost models = info_models(infos@);
    let mut cs: Vec<Scored> = Vec::new();
    let mut i: usize = 0;
    while i < ids.len()
        invariant
            i <= ids@.len(),
            models == info_models(infos@),
            ids@.to_set().subset_of(infos@.dom()),
            cs@.len() == i,
            forall|j: int|
                0 <= j < i ==> (#[trigger] cs@[j]).id == ids@[j] && cs@[j].score == score_of(
                    models,
                    by,
                )(ids@[j]),
        decreases ids@.len() - i,
    {
        let id: i32 = ids[i];
        assert(ids@.to_set().contains(id));
        let score: i64 = match infos.get(&id) {
            Some(info) => match by {
                ScoreBy::Damage => info.damaged_amount,
                ScoreBy::Recency => info.last_damage_time,
            },
            None => 0,
        };
        cs.push(Scored { id, score });
        i += 1;
    }
    proof {
        assert(cs@.map_values(|c: Scored| c.id) =~= ids@);
    }
    pick_top(&cs, Ghost(score_of(models, by)))
}

/// The best of all targets.
fn best_of_all(infos: &HashMap<i32, TargetInfo>, by: ScoreBy) -> (r: Option<i32>)
    ensures
        r == top(infos@.dom(), score_of(info_models(infos@), by)),
{
    let ids = keys::sorted_keys(infos);
    best_target(infos, &ids, by)
}

/// What kind of creature is looked for.
#[derive(Debug, Clone, Copy, PartialEq, Eq, Structural)]
enum CreatureKind {
    Boss,
    Train,
}

/// Whether a target is of the kind.
spec fn is_kind(kind: CreatureKind, mobs: Map<i32, i32>, npcs: NpcLookup) -> spec_fn(i32) -> bool {
    match kind {
        CreatureKind::Boss => |t: i32| mobs.contains_key(t) && npcs.bosses@.contains(mobs[t]),
        CreatureKind::Train => |t: i32| mobs.contains_key(t) && train_code(mobs[t]),
    }
}

/// The targets of a kind.
fn targets_of_kind(
    infos: &HashMap<i32, TargetInfo>,
    mob_data: &HashMap<i32, i32>,
    npcs: &NpcLookup,
    kind: CreatureKind,
) -> (r: Vec<i32>)
    ensures
        r@.to_set() == infos@.dom().filter(is_kind(kind, mob_data@, *npcs)),
{
    let ids = keys::sorted_keys(infos);
    let ghost wanted = is_kind(kind, mob_data@, *npcs);
    let mut r: Vec<i32> = Vec::new();
    let mut i: usize = 0;
    while i < ids.len()
        invariant
            i <= ids@.len(),
            wanted == is_kind(kind, mob_data@, *npcs),
            forall|x: i32| #[trigger]
                r@.contains(x) <==> ids@.take(i as int).contains(x) && wanted(x),
        decreases ids@.len() - i,
    {
        let id: i32 = ids[i];
        let ghost now = ids@.take(i + 1);
        let ghost before = r@;
        let matches = match mob_data.get(&id) {
            Some(code) => match kind {
                CreatureKind::Boss => npcs.is_boss(*code),
                CreatureKind::Train => is_train_code(*code),
            },
            None => false,
        };
        if matches {
            r.push(id);
        }
        proof {
            keys::lemma_one_more(ids@, i as int);
            assert(matches == wanted(id));
            assert forall|x: i32| #[trigger] r@.contains(x) <==> now.contains(x) && wanted(x) by {
                if before.contains(x) {
                    assert(r@[before.index_of(x)] == x);
                }
                if r@.contains(x) && x != id {
                    assert(before[r@.index_of(x)] == x);
                }
                if matches {
                    assert(r@[before.len() as int] == id);
                }
            }
        }
        i += 1;
    }
    proof {
        assert(ids@.take(i as int) =~= ids@);
        assert forall|x: i32| r@.to_set().contains(x) <==> infos@.dom().filter(wanted).contains(
            x,
        ) by {
            assert(r@.contains(x) <==> ids@.contains(x) && wanted(x));
            assert(ids@.to_set().contains(x) == infos@.dom().contains(x));
        }
        assert(r@.to_set() =~= infos@.dom().filter(wanted));
    }
    r
}

/// When one of the given ids last acted.
fn find_last_act(
    ps: &Vec<ParsedDamagePacket>,
    ids: &HashSet<i32>,
    summon_data: &HashMap<i32, i32>,
) -> (r: Option<i64>)
    ensures
        r == last_act(ps@, ids@, summon_data@),
{
    let mut i: usize = ps.len();
    assert(ps@.take(i as int) =~= ps@);
    while i > 0
        invariant
            i <= ps@.len(),
            last_act(ps@, ids@, summon_data@) == last_act(ps@.take(i as int), ids@, summon_data@),
        decreases i,
    {
        assert(ps@.take(i as int).drop_last() =~= ps@.take(i - 1));
        assert(ps@.take(i as int).last() == ps@[i - 1]);
        let resolved = summon_resolver::resolve(ps[i - 1].actor_id, summon_data);
        if ids.contains(&resolved) {
            return Some(ps[i - 1].timestamp);
        }
        i -= 1;
    }
    None
}

/// The target that one of the given ids hit last.
fn find_last_hit(
    packets: &HashMap<i32, Vec<ParsedDamagePacket>>,
    ids: &HashSet<i32>,
    summon_data: &HashMap<i32, i32>,
) -> (r: Option<i32>)
    ensures
        r == last_hit_by(packet_log::packet_seqs(packets@), ids@, summon_data@),
{
    let ghost seqs = packet_log::packet_seqs(packets@);
    let ghost links = summon_data@;
    let ghost acted = |t: i32| last_act(seqs[t], ids@, links) is Some;
    let ghost act_time = |t: i32| last_act(seqs[t], ids@, links)->0;
    let targets = keys::sorted_keys(packets);
    let mut cs: Vec<Scored> = Vec::new();
    let mut i: usize = 0;
    while i < targets.len()
        invariant
            i <= targets@.len(),
            seqs == packet_log::packet_seqs(packets@),
            links == summon_data@,
            targets@.to_set() == packets@.dom(),
            acted == (|t: i32| last_act(seqs[t], ids@, links) is Some),
            act_time == (|t: i32| last_act(seqs[t], ids@, links)->0),
            forall|j: int|
                0 <= j < cs@.len() ==> targets@.take(i as int).contains((#[trigger] cs@[j]).id)
                    && acted(cs@[j].id) && cs@[j].score == act_time(cs@[j].id),
            forall|x: i32|
                #![trigger acted(x)]
                targets@.take(i as int).contains(x) && acted(x) ==> exists|j: int|
                    0 <= j < cs@.len() && (#[trigger] cs@[j]).id == x,
        decreases targets@.len() - i,
    {
        let t: i32 = targets[i];
        let ghost seen = targets@.take(i as int);
        let ghost now = targets@.take(i + 1);
        let ghost before = cs@;
        proof {
            keys::lemma_one_more(targets@, i as int);
            assert(targets@.to_set().contains(t));
        }
        match packets.get(&t) {
            Some(ps) => {
                match find_last_act(ps, ids, summon_data) {
                    Some(ts) => {
                        cs.push(Scored { id: t, score: ts });
                        assert(acted(t));
                    },
                    None => {
                        assert(!acted(t));
                    },
                }
            },
            None => {},
        }
        proof {
            assert forall|x: i32|
                #![trigger acted(x)]
                now.contains(x) && acted(x) implies exists|j: int|
                0 <= j < cs@.len() && (#[trigger] cs@[j]).id == x by {
                if seen.contains(x) {
                    let j = choose|j: int| 0 <= j < before.len() && (#[trigger] before[j]).id == x;
                    assert(cs@[j].id == x);
                } else {
                    assert(cs@[before.len() as int].id == x);
                }
            }
        }
        i += 1;
    }
    proof {
        assert(targets@.take(i as int) =~= targets@);
        let ids_of = cs@.map_values(|c: Scored| c.id);
        assert forall|x: i32| candidate_ids(cs@).contains(x) <==> seqs.dom().filter(
            acted,
        ).contains(x) by {
            if ids_of.contains(x) {
                let j = ids_of.index_of(x);
                assert(cs@[j].id == x);
                assert(targets@.to_set().contains(x));
            }
            if seqs.dom().filter(acted).contains(x) {
                assert(targets@.to_set().contains(x));
                assert(acted(x));
                let j = choose|j: int| 0 <= j < cs@.len() && (#[trigger] cs@[j]).id == x;
                assert(ids_of[j] == x);
            }
        }
        assert(candidate_ids(cs@) =~= seqs.dom().filter(acted));
    }
    pick_top(&cs, Ghost(act_time))
}

/// The targets to show.
#[derive(Debug)]
pub struct TargetChoice {
    pub ids: HashSet<i32>,
    pub name: String,
    pub tracking: i32,
}

impl View for TargetChoice {
    type V = Choice;

    open spec fn view(&self) -> Choice {
        Choice { ids: self.ids@, name: self.name@, tracking: self.tracking }
    }
}

/// The choice of one target, or of none.
fn choose_single(
    target: Option<i32>,
    mob_data: &HashMap<i32, i32>,
    npcs: &NpcLookup,
) -> (r: TargetChoice)
    ensures
        r@ == single(target, mob_data@, *npcs),
{
    let mut ids: HashSet<i32> = HashSet::new();
    match target {
        Some(id) => {
            ids.insert(id);
            TargetChoice { ids, name: resolve_target_name(id, mob_data, npcs), tracking: id }
        },
        None => TargetChoice { ids, name: String::new(), tracking: 0 },
    }
}

/// Chooses the targets to show.
pub fn decide_target(
    mode: TargetSelectionMode,
    infos: &HashMap<i32, TargetInfo>,
    packets: &HashMap<i32, Vec<ParsedDamagePacket>>,
    summon_data: &HashMap<i32, i32>,
    mob_data: &HashMap<i32, i32>,
    local_player: Option<i64>,
    npcs: &NpcLookup,
) -> (r: TargetChoice)
    ensures
        r@ == chosen(
            mode,
            info_models(infos@),
            packet_log::packet_seqs(packets@),
            summon_data@,
            mob_data@,
            local_player,
            *npcs,
        ),
{
    proof {
        assert(info_models(infos@).dom() =~= infos@.dom());
    }
    match mode {
        TargetSelectionMode::MostDamage => choose_single(
            best_of_all(infos, ScoreBy::Damage),
            mob_data,
            npcs,
        ),
        TargetSelectionMode::MostRecent => choose_single(
            best_of_all(infos, ScoreBy::Recency),
            mob_data,
            npcs,
        ),
        TargetSelectionMode::BossTargets => {
            let bosses = targets_of_kind(infos, mob_data, npcs, CreatureKind::Boss);
            assert(bosses@.to_set() =~= boss_targets(info_models(infos@), mob_data@, *npcs));
            match best_target(infos, &bosses, ScoreBy::Damage) {
                Some(best) => choose_single(Some(best), mob_data, npcs),
                None => choose_single(best_of_all(infos, ScoreBy::Damage), mob_data, npcs),
            }
        },
        TargetSelectionMode::AllTargets => {
            let all = keys::sorted_keys(infos);
            TargetChoice { ids: keys::id_set(&all), name: "All Targets".to_owned(), tracking: 0 }
        },
        TargetSelectionMode::TrainTargets => {
            let trains = targets_of_kind(infos, mob_data, npcs, CreatureKind::Train);
            assert(trains@.to_set() =~= train_targets(info_models(infos@), mob_data@));
            TargetChoice { ids: keys::id_set(&trains), name: "Train".to_owned(), tracking: 0 }
        },
        TargetSelectionMode::LastHitByMe => {
            match resolve_local_ids(local_player, summon_data) {
                Some(ids) => match find_last_hit(packets, &ids, summon_data) {
                    Some(id) => choose_single(Some(id), mob_data, npcs),
                    None => choose_single(best_of_all(infos, ScoreBy::Recency), mob_data, npcs),
                },
                None => choose_single(best_of_all(infos, ScoreBy::Damage), mob_data, npcs),
            }
        },
    }
}

} // verus!
