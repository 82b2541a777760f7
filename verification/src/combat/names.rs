//! Who is who: nicknames, and which id stands for a nickname.
use crate::combat::data_storage;
use crate::entity::damage_packet::ParsedDamagePacket;
use crate::entity::summon_resolver;
use crate::keys;
use crate::text;
use std::collections::HashMap;
use vstd::hash_map::StringHashMap;
use vstd::prelude::*;

verus! {

broadcast use vstd::std_specs::hash::group_hash_axioms;

/// The nickname to show for an id: its own, its owner's, or the id itself.
pub open spec fn nickname_for(
    uid: i32,
    nicknames: Map<i32, Seq<char>>,
    summons: Map<i32, i32>,
) -> Seq<char> {
    let owner = summon_resolver::resolved(uid, summons);
    if nicknames.contains_key(uid) {
        nicknames[uid]
    } else if nicknames.contains_key(owner) {
        nicknames[owner]
    } else {
        text::decimal(uid as int)
    }
}

/// The nickname to show for an id.
pub fn resolve_nickname(
    uid: i32,
    nicknames: &HashMap<i32, String>,
    summon_data: &HashMap<i32, i32>,
) -> (r: String)
    ensures
        r@ == nickname_for(uid, data_storage::texts(nicknames@), summon_data@),
{
    match nicknames.get(&uid) {
        Some(name) => {
            return name.clone();
        },
        None => {},
    }
    let owner = summon_resolver::resolve(uid, summon_data);
    match nicknames.get(&owner) {
        Some(name) => {
            return name.clone();
        },
        None => {},
    }
    text::decimal_of_i64(uid as i64)
}

/// An amount of damage in a table; zero for an id that is not in it.
pub open spec fn damage_in(table: Map<i32, i32>, id: i32) -> i32 {
    if table.contains_key(id) {
        table[id]
    } else {
        0
    }
}

/// The damage that each player did, the damage of summons included. Ids that are not positive
/// are no players.
pub open spec fn damage_by_player(
    ps: Seq<ParsedDamagePacket>,
    summons: Map<i32, i32>,
) -> Map<i32, i32>
    decreases ps.len(),
{
    if ps.len() == 0 {
        Map::empty()
    } else {
        let table = damage_by_player(ps.drop_last(), summons);
        let uid = summon_resolver::resolved(ps.last().actor_id, summons);
        if uid <= 0 {
            table
        } else {
            table.insert(uid, damage_in(table, uid).wrapping_add(ps.last().total_damage))
        }
    }
}

/// The events that references stand for.
pub open spec fn events(ps: Seq<&ParsedDamagePacket>) -> Seq<ParsedDamagePacket> {
    ps.map_values(|p: &ParsedDamagePacket| *p)
}

/// Whether the id was given the nickname itself, not through an owner.
pub open spec fn directly_named(
    id: i32,
    nickname: Seq<char>,
    nicknames: Map<i32, Seq<char>>,
) -> bool {
    nicknames.contains_key(id) && nicknames[id] == nickname
}

/// Whether `a` rather than `b` is to stand for the nickname: an id that was given the nickname
/// itself comes first, then the one that did more damage, then the larger id.
pub open spec fn stands_before(
    a: i32,
    b: i32,
    nickname: Seq<char>,
    damage: Map<i32, i32>,
    nicknames: Map<i32, Seq<char>>,
) -> bool {
    let a_direct = directly_named(a, nickname, nicknames);
    let b_direct = directly_named(b, nickname, nicknames);
    if a_direct != b_direct {
        a_direct
    } else if !a_direct && damage[a] != damage[b] {
        damage[a] > damage[b]
    } else {
        a > b
    }
}

/// Whether the id did damage and is shown under the nickname.
pub open spec fn carries(
    id: i32,
    nickname: Seq<char>,
    damage: Map<i32, i32>,
    nicknames: Map<i32, Seq<char>>,
    summons: Map<i32, i32>,
) -> bool {
    damage.contains_key(id) && nickname_for(id, nicknames, summons) == nickname
}

/// Whether the id, of those in `among`, is the one that stands for the nickname.
pub open spec fn is_canonical(
    id: i32,
    nickname: Seq<char>,
    damage: Map<i32, i32>,
    nicknames: Map<i32, Seq<char>>,
    summons: Map<i32, i32>,
    among: Set<i32>,
) -> bool {
    &&& among.contains(id)
    &&& carries(id, nickname, damage, nicknames, summons)
    &&& forall|other: i32|
        among.contains(other) && #[trigger] carries(other, nickname, damage, nicknames, summons)
            && other != id ==> stands_before(id, other, nickname, damage, nicknames)
}

/// For each nickname under which damage was done, the id that stands for it.
pub open spec fn canonical_ids(
    ps: Seq<ParsedDamagePacket>,
    nicknames: Map<i32, Seq<char>>,
    summons: Map<i32, i32>,
) -> Map<Seq<char>, i32> {
    let damage = damage_by_player(ps, summons);
    Map::new(
        |n: Seq<char>| exists|id: i32| carries(id, n, damage, nicknames, summons),
        |n: Seq<char>|
            choose|id: i32| is_canonical(id, n, damage, nicknames, summons, damage.dom()),
    )
}

/// The id that stands for a nickname, or another where none does.
pub open spec fn canonical_or(canonical: Map<Seq<char>, i32>, nickname: Seq<char>, id: i32) -> i32 {
    if canonical.contains_key(nickname) {
        canonical[nickname]
    } else {
        id
    }
}

/// The id under which the damage of `id` is counted: the one that stands for its nickname.
pub open spec fn counted_under(
    id: i32,
    canonical: Map<Seq<char>, i32>,
    nicknames: Map<i32, Seq<char>>,
    summons: Map<i32, i32>,
) -> i32 {
    canonical_or(canonical, nickname_for(id, nicknames, summons), id)
}

/// The id that stands for a nickname, or another where none does.
pub fn canonical_id(canonical: &StringHashMap<i32>, nickname: &str, id: i32) -> (r: i32)
    ensures
        r == canonical_or(canonical@, nickname@, id),
{
    match canonical.get(nickname) {
        Some(c) => *c,
        None => id,
    }
}

/// The damage that each player did.
fn tally_damage(ps: &Vec<&ParsedDamagePacket>, summon_data: &HashMap<i32, i32>) -> (r: HashMap<
    i32,
    i32,
>)
    ensures
        r@ == damage_by_player(events(ps@), summon_data@),
{
    let mut r: HashMap<i32, i32> = HashMap::new();
    let mut i: usize = 0;
    let ghost all = events(ps@);
    while i < ps.len()
        invariant
            i <= ps@.len(),
            all == events(ps@),
            r@ == damage_by_player(all.take(i as int), summon_data@),
        decreases ps@.len() - i,
    {
        let p: &ParsedDamagePacket = ps[i];
        assert(all.take(i + 1).drop_last() =~= all.take(i as int));
        assert(all.take(i + 1).last() == *p);
        let uid = summon_resolver::resolve(p.actor_id, summon_data);
        if uid > 0 {
            let so_far: i32 = match r.get(&uid) {
                Some(d) => *d,
                None => 0,
            };
            r.insert(uid, so_far.wrapping_add(p.total_damage));
        }
        i += 1;
    }
    assert(all.take(i as int) =~= all);
    r
}

/// Which id stands for each nickname under which damage was done.
pub fn build_nickname_canonical_map(
    pdps: &Vec<&ParsedDamagePacket>,
    summon_data: &HashMap<i32, i32>,
    nickname_data: &HashMap<i32, String>,
) -> (r: StringHashMap<i32>)
    ensures
        r@ == canonical_ids(events(pdps@), data_storage::texts(nickname_data@), summon_data@),
{
    let tally = tally_damage(pdps, summon_data);
    let ghost damage = tally@;
    let ghost names = data_storage::texts(nickname_data@);
    let ghost links = summon_data@;
    let ids = keys::sorted_keys(&tally);
    let mut r: StringHashMap<i32> = StringHashMap::new();
    let mut i: usize = 0;
    while i < ids.len()
        invariant
            i <= ids@.len(),
            ids@.to_set() == damage.dom(),
            damage == tally@,
            names == data_storage::texts(nickname_data@),
            links == summon_data@,
            forall|n: Seq<char>| #[trigger]
                r@.contains_key(n) ==> is_canonical(
                    r@[n],
                    n,
                    damage,
                    names,
                    links,
                    ids@.take(i as int).to_set(),
                ),
            forall|id: i32, n: Seq<char>|
                ids@.take(i as int).contains(id) && #[trigger] carries(id, n, damage, names, links)
                    ==> r@.contains_key(n),
        decreases ids@.len() - i,
    {
        let id: i32 = ids[i];
        let ghost before = r@;
        let ghost seen = ids@.take(i as int);
        let ghost now = ids@.take(i + 1);
        proof {
            keys::lemma_one_more(ids@, i as int);
            assert(ids@.to_set().contains(id));
        }
        let nickname = resolve_nickname(id, nickname_data, summon_data);
        let ghost n = nickname@;
        assert(carries(id, n, damage, names, links));
        let own: i32 = match tally.get(&id) {
            Some(d) => *d,
            None => 0,
        };
        let own_direct = match nickname_data.get(&id) {
            Some(name) => text::same_text(name.as_str(), nickname.as_str()),
            None => false,
        };
        assert(own_direct == directly_named(id, n, names));
        let takes_over = match r.get(nickname.as_str()) {
            Some(holder) => {
                let held: i32 = match tally.get(holder) {
                    Some(d) => *d,
                    None => 0,
                };
                let held_direct = match nickname_data.get(holder) {
                    Some(name) => text::same_text(name.as_str(), nickname.as_str()),
                    None => false,
                };
                assert(held_direct == directly_named(*holder, n, names));
                assert(carries(*holder, n, damage, names, links));
                if own_direct != held_direct {
                    own_direct
                } else if !own_direct && own != held {
                    own > held
                } else {
                    id > *holder
                }
            },
            None => true,
        };
        if takes_over {
            r.insert(nickname, id);
        }
        proof {
            assert forall|m: Seq<char>| #[trigger] r@.contains_key(m) implies is_canonical(
                r@[m],
                m,
                damage,
                names,
                links,
                now.to_set(),
            ) by {
                if m == n {
                    if takes_over && before.contains_key(n) {
                        assert(is_canonical(before[n], n, damage, names, links, seen.to_set()));
                    }
                    if !takes_over {
                        assert(is_canonical(before[n], n, damage, names, links, seen.to_set()));
                        assert(before[n] != id ==> stands_before(
                            before[n],
                            id,
                            n,
                            damage,
                            names,
                        ));
                    }
                } else {
                    assert(is_canonical(before[m], m, damage, names, links, seen.to_set()));
                }
            }
        }
        i += 1;
    }
    proof {
        assert(ids@.take(i as int) =~= ids@);
        let wanted = canonical_ids(
            events(pdps@),
            data_storage::texts(nickname_data@),
            summon_data@,
        );
        assert forall|n: Seq<char>| #[trigger]
            r@.contains_key(n) == wanted.contains_key(n) && (r@.contains_key(n) ==> r@[n]
                == wanted[n]) by {
            if exists|id: i32| carries(id, n, damage, names, links) {
                let id = choose|id: i32| carries(id, n, damage, names, links);
                assert(ids@.to_set().contains(id));
                assert(r@.contains_key(n));
            }
            if r@.contains_key(n) {
                assert(is_canonical(r@[n], n, damage, names, links, damage.dom()));
                let w = choose|id: i32| is_canonical(id, n, damage, names, links, damage.dom());
                assert(is_canonical(w, n, damage, names, links, damage.dom()));
                if w != r@[n] {
                    assert(stands_before(w, r@[n], n, damage, names));
                    assert(stands_before(r@[n], w, n, damage, names));
                }
            }
        }
        assert(r@ =~= wanted);
    }
    r
}

/// The id that stands for a nickname did damage and is shown under that nickname, so counting
/// under it changes no names: what is counted under an id is counted under the same id the second
/// time.
pub proof fn law_canonical_ids_stand_for_themselves(
    ps: Seq<ParsedDamagePacket>,
    nicknames: Map<i32, Seq<char>>,
    summons: Map<i32, i32>,
    id: i32,
)
    requires
        damage_by_player(ps, summons).contains_key(id),
    ensures
        ({
            let canonical = canonical_ids(ps, nicknames, summons);
            let once = counted_under(id, canonical, nicknames, summons);
            &&& damage_by_player(ps, summons).contains_key(once)
            &&& nickname_for(once, nicknames, summons) == nickname_for(id, nicknames, summons)
            &&& counted_under(once, canonical, nicknames, summons) == once
        }),
{
    let damage = damage_by_player(ps, summons);
    let n = nickname_for(id, nicknames, summons);
    assert(carries(id, n, damage, nicknames, summons));
    lemma_damage_finite(ps, summons);
    lemma_canonical_exists(n, damage, nicknames, summons, damage.dom(), id);
}

/// Finitely many did damage.
pub proof fn lemma_damage_finite(ps: Seq<ParsedDamagePacket>, summons: Map<i32, i32>)
    ensures
        damage_by_player(ps, summons).dom().finite(),
    decreases ps.len(),
{
    if ps.len() > 0 {
        lemma_damage_finite(ps.drop_last(), summons);
    }
}

/// Where someone carries the nickname, one stands for it.
pub proof fn lemma_canonical_exists(
    n: Seq<char>,
    damage: Map<i32, i32>,
    nicknames: Map<i32, Seq<char>>,
    summons: Map<i32, i32>,
    among: Set<i32>,
    witness: i32,
)
    requires
        among.finite(),
        among.contains(witness),
        carries(witness, n, damage, nicknames, summons),
    ensures
        exists|id: i32| is_canonical(id, n, damage, nicknames, summons, among),
    decreases among.len(),
{
    let rest = among.remove(witness);
    if exists|o: i32| rest.contains(o) && carries(o, n, damage, nicknames, summons) {
        let o = choose|o: i32| rest.contains(o) && carries(o, n, damage, nicknames, summons);
        lemma_canonical_exists(n, damage, nicknames, summons, rest, o);
        let b = choose|id: i32| is_canonical(id, n, damage, nicknames, summons, rest);
        if stands_before(witness, b, n, damage, nicknames) {
            assert(is_canonical(witness, n, damage, nicknames, summons, among));
        } else {
            assert(is_canonical(b, n, damage, nicknames, summons, among));
        }
    } else {
        assert(is_canonical(witness, n, damage, nicknames, summons, among));
    }
}

} // verus!
