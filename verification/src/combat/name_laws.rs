//! What holds of the names and ids under which damage is counted.
use crate::combat::job_cache;
use crate::combat::meter;
use crate::combat::meter::OrphanLink;
use crate::combat::names;
use crate::entity::damage_packet::ParsedDamagePacket;
use crate::entity::personal_data::{HitModel, PersonalModel};
use crate::entity::summon_resolver;
use crate::keys;
use crate::sums;
use crate::tallies;
use crate::text;
use crate::text_laws;
use vstd::prelude::*;

verus! {

/// Whether each stands for the owner of the one before it.
pub open spec fn is_chain(chain: Seq<i32>, links: Map<i32, i32>) -> bool {
    forall|i: int|
        0 <= i < chain.len() - 1 ==> links.contains_key(#[trigger] chain[i]) && links[chain[i]]
            == chain[i + 1]
}

proof fn lemma_chain(chain: Seq<i32>, links: Map<i32, i32>)
    requires
        chain.len() > 0,
        is_chain(chain, links),
    ensures
        summon_resolver::owner_after(chain[0], links, (chain.len() - 1) as nat) == chain.last(),
    decreases chain.len(),
{
    if chain.len() > 1 {
        let rest = chain.skip(1);
        assert(links.contains_key(chain[0]));
        assert forall|i: int| 0 <= i < rest.len() - 1 implies links.contains_key(
            #[trigger] rest[i],
        ) && links[rest[i]] == rest[i + 1] by {
            assert(links.contains_key(chain[i + 1]));
        }
        lemma_chain(rest, links);
        assert(rest[0] == chain[1]);
        assert(rest.last() == chain.last());
    }
}

/// Whoever has no owner at the end of a chain of owners is who the first of the chain stands for.
pub proof fn law_the_last_owner_is_found(chain: Seq<i32>, links: Map<i32, i32>)
    requires
        links.dom().finite(),
        chain.len() > 0,
        is_chain(chain, links),
        !links.contains_key(chain.last()),
    ensures
        summon_resolver::resolved(chain[0], links) == chain.last(),
{
    lemma_chain(chain, links);
    summon_resolver::law_walk_leads_to_the_last_owner(
        chain[0],
        links,
        (chain.len() - 1) as nat,
    );
}

/// Whoever an id stands for is the id itself, or the owner of someone.
pub proof fn law_who_is_found_is_an_owner(id: i32, links: Map<i32, i32>)
    ensures
        summon_resolver::resolved(id, links) == id || exists|k: i32| #[trigger]
            links.contains_key(k) && links[k] == summon_resolver::resolved(id, links),
{
    lemma_walk_stays_among_owners(id, links, links.dom().len());
}

proof fn lemma_walk_stays_among_owners(id: i32, links: Map<i32, i32>, n: nat)
    ensures
        summon_resolver::owner_after(id, links, n) == id || exists|k: i32| #[trigger]
            links.contains_key(k) && links[k] == summon_resolver::owner_after(id, links, n),
    decreases n,
{
    if n > 0 && links.contains_key(id) {
        lemma_walk_stays_among_owners(links[id], links, (n - 1) as nat);
    }
}

/// Who has a nickname is shown under it; a summon without one is shown under its owner's; who has
/// neither is shown by the id.
pub proof fn law_which_nickname_is_shown(
    id: i32,
    owner: i32,
    nicknames: Map<i32, Seq<char>>,
    summons: Map<i32, i32>,
)
    requires
        summons.dom().finite(),
    ensures
        nicknames.contains_key(id) ==> names::nickname_for(id, nicknames, summons)
            == nicknames[id],
        !nicknames.contains_key(id) && summons.contains_key(id) && summons[id] == owner
            && !summons.contains_key(owner) && nicknames.contains_key(owner)
            ==> names::nickname_for(id, nicknames, summons) == nicknames[owner],
        !nicknames.contains_key(id) && !summons.contains_key(id) ==> names::nickname_for(
            id,
            nicknames,
            summons,
        ) == text::decimal(id as int),
        !nicknames.contains_key(id) && summons.contains_key(id) && summons[id] == owner
            && !summons.contains_key(owner) && !nicknames.contains_key(owner)
            ==> names::nickname_for(id, nicknames, summons) == text::decimal(id as int),
{
    if summons.contains_key(id) && summons[id] == owner && !summons.contains_key(owner) {
        law_the_last_owner_is_found(seq![id, owner], summons);
    }
}

/// The events of a player, those of its summons included.
pub open spec fn deeds_of(ps: Seq<ParsedDamagePacket>, id: i32, summons: Map<i32, i32>) -> Seq<
    ParsedDamagePacket,
> {
    ps.filter(|p: ParsedDamagePacket| summon_resolver::resolved(p.actor_id, summons) == id)
}

/// In the table of damage stands just who did some and has a positive id, with what its events, and
/// those of its summons, did as a whole, up to what 32 bits drop.
pub proof fn law_the_table_holds_what_each_did(
    ps: Seq<ParsedDamagePacket>,
    summons: Map<i32, i32>,
    id: i32,
)
    ensures
        ({
            let table = names::damage_by_player(ps, summons);
            let mine = deeds_of(ps, id, summons);
            &&& table.contains_key(id) <==> id > 0 && mine.len() > 0
            &&& table.contains_key(id) ==> sums::same_count32(
                table[id] as int,
                tallies::damage_sum(mine),
            )
        }),
    decreases ps.len(),
{
    reveal(Seq::filter);
    if ps.len() > 0 {
        let front = ps.drop_last();
        let p = ps.last();
        law_the_table_holds_what_each_did(front, summons, id);
        assert(ps =~= front.push(p));
        tallies::lemma_filter_push(
            front,
            p,
            |q: ParsedDamagePacket| summon_resolver::resolved(q.actor_id, summons) == id,
        );
        let before = deeds_of(front, id, summons);
        if summon_resolver::resolved(p.actor_id, summons) == id {
            tallies::lemma_sum_push(before, p, |q: ParsedDamagePacket| q.total_damage as int);
            if before.len() == 0 {
                assert(before =~= Seq::empty());
            }
        }
    }
}

/// The id that stands for a nickname did damage and is shown under it. One that was given the
/// nickname itself comes before one that was not; of those that were not, the one with more damage
/// comes first; where neither tells them apart, the larger id does.
pub proof fn law_who_stands_for_a_nickname(
    ps: Seq<ParsedDamagePacket>,
    nicknames: Map<i32, Seq<char>>,
    summons: Map<i32, i32>,
    id: i32,
)
    requires
        names::damage_by_player(ps, summons).contains_key(id),
    ensures
        ({
            let damage = names::damage_by_player(ps, summons);
            let n = names::nickname_for(id, nicknames, summons);
            let one = names::canonical_ids(ps, nicknames, summons)[n];
            let id_has_it = nicknames.contains_key(id) && nicknames[id] == n;
            let one_has_it = nicknames.contains_key(one) && nicknames[one] == n;
            &&& names::canonical_ids(ps, nicknames, summons).contains_key(n)
            &&& damage.contains_key(one)
            &&& names::nickname_for(one, nicknames, summons) == n
            &&& id_has_it ==> one_has_it && one >= id
            &&& !one_has_it ==> damage[one] >= damage[id]
            &&& !one_has_it && damage[one] == damage[id] ==> one >= id
            &&& names::counted_under(
                id,
                names::canonical_ids(ps, nicknames, summons),
                nicknames,
                summons,
            ) == one
        }),
{
    let damage = names::damage_by_player(ps, summons);
    let n = names::nickname_for(id, nicknames, summons);
    assert(names::carries(id, n, damage, nicknames, summons));
    names::lemma_damage_finite(ps, summons);
    names::lemma_canonical_exists(n, damage, nicknames, summons, damage.dom(), id);
}

/// Whether the id is a summon whose owner has to be found by its class: it is linked to no one, has
/// no nickname, and is of a class.
pub open spec fn is_orphan(
    id: i32,
    players: Map<i32, PersonalModel>,
    nicknames: Map<i32, Seq<char>>,
    summons: Map<i32, i32>,
) -> bool {
    players.contains_key(id) && !summons.contains_key(id) && !nicknames.contains_key(id)
        && players[id].job.len() > 0
}

/// Whether the owner is the only player with a nickname that is of the summon's class.
pub open spec fn is_only_choice(
    owner: i32,
    orphan: i32,
    players: Map<i32, PersonalModel>,
    nicknames: Map<i32, Seq<char>>,
) -> bool {
    &&& players.contains_key(owner) && nicknames.contains_key(owner) && players[owner].job
        == players[orphan].job
    &&& forall|o: i32| #[trigger]
        players.contains_key(o) && o != owner && o != orphan && nicknames.contains_key(o)
            ==> players[o].job != players[orphan].job
}

/// Whether each of the links is that of a summon to the only player it can belong to, and each
/// such summon among the ids has one.
pub open spec fn links_are_right(
    links: Seq<OrphanLink>,
    ids: Seq<i32>,
    players: Map<i32, PersonalModel>,
    nicknames: Map<i32, Seq<char>>,
    summons: Map<i32, i32>,
) -> bool {
    &&& forall|i: int|
        0 <= i < links.len() ==> {
            let link = #[trigger] links[i];
            &&& ids.contains(link.orphan)
            &&& is_orphan(link.orphan, players, nicknames, summons)
            &&& is_only_choice(link.owner, link.orphan, players, nicknames)
        }
    &&& forall|k: int, owner: i32|
        0 <= k < ids.len() && is_orphan(#[trigger] ids[k], players, nicknames, summons)
            && #[trigger] is_only_choice(owner, ids[k], players, nicknames) ==> has_link(
            links,
            ids[k],
            owner,
        )
    &&& forall|i: int, j: int|
        0 <= i < j < links.len() ==> (#[trigger] links[i]).orphan != (#[trigger] links[j]).orphan
}

/// Whether the summon is linked to the owner.
pub open spec fn has_link(links: Seq<OrphanLink>, orphan: i32, owner: i32) -> bool {
    exists|i: int|
        0 <= i < links.len() && (#[trigger] links[i]).orphan == orphan && links[i].owner == owner
}

proof fn lemma_sole_owner(
    orphan: i32,
    players: Map<i32, PersonalModel>,
    nicknames: Map<i32, Seq<char>>,
    owner: i32,
)
    requires
        players.contains_key(orphan),
        !nicknames.contains_key(orphan),
    ensures
        ({
            let cs = meter::player_classes(players);
            meter::sole_owner(orphan, cs[orphan], cs, nicknames) == Some(owner)
                <==> is_only_choice(owner, orphan, players, nicknames)
        }),
{
    let cs = meter::player_classes(players);
    let class = cs[orphan];
    if is_only_choice(owner, orphan, players, nicknames) {
        assert(meter::is_sole_owner(owner, orphan, class, cs, nicknames)) by {
            assert forall|o: i32| #[trigger]
                cs.contains_key(o) && o != orphan && cs[o] == class && nicknames.contains_key(o)
                    <==> o == owner by {
                assert(cs.contains_key(o) == players.contains_key(o));
                assert(cs.contains_key(owner));
            }
        }
        let w = choose|o: i32| meter::is_sole_owner(o, orphan, class, cs, nicknames);
        assert(meter::is_sole_owner(w, orphan, class, cs, nicknames));
        assert(cs.contains_key(owner));
    }
    if meter::sole_owner(orphan, class, cs, nicknames) == Some(owner) {
        assert(meter::is_sole_owner(owner, orphan, class, cs, nicknames));
        assert(cs.contains_key(owner));
        assert forall|o: i32| #[trigger]
            players.contains_key(o) && o != owner && o != orphan && nicknames.contains_key(
                o,
            ) implies players[o].job != players[orphan].job by {
            assert(cs.contains_key(o));
        }
    }
}

/// The links lead from each such summon to the one player that it can belong to.
pub proof fn lemma_links(
    ids: Seq<i32>,
    players: Map<i32, PersonalModel>,
    nicknames: Map<i32, Seq<char>>,
    summons: Map<i32, i32>,
)
    requires
        ids.no_duplicates(),
        forall|k: int| 0 <= k < ids.len() ==> players.contains_key(#[trigger] ids[k]),
    ensures
        links_are_right(
            meter::orphan_links(ids, meter::player_classes(players), nicknames, summons),
            ids,
            players,
            nicknames,
            summons,
        ),
    decreases ids.len(),
{
    let cs = meter::player_classes(players);
    if ids.len() > 0 {
        let front = ids.drop_last();
        let n = ids.len() - 1;
        let id = ids.last();
        assert(ids[n] == id);
        assert forall|k: int| 0 <= k < front.len() implies players.contains_key(
            #[trigger] front[k],
        ) by {
            assert(front[k] == ids[k]);
        }
        assert(front.no_duplicates()) by {
            assert forall|i: int, j: int| 0 <= i < j < front.len() implies front[i] != front[j] by {
                assert(ids[i] != ids[j]);
            }
        }
        lemma_links(front, players, nicknames, summons);
        let before = meter::orphan_links(front, cs, nicknames, summons);
        let links = meter::orphan_links(ids, cs, nicknames, summons);
        assert forall|i: int| 0 <= i < before.len() implies #[trigger] links[i] == before[i] by {}
        assert(!front.contains(id)) by {
            if front.contains(id) {
                let k = front.index_of(id);
                assert(ids[k] == ids[n]);
            }
        }
        if links.len() > before.len() {
            lemma_sole_owner(id, players, nicknames, links.last().owner);
        }
        assert forall|i: int| 0 <= i < links.len() implies ({
            let link = #[trigger] links[i];
            &&& ids.contains(link.orphan)
            &&& is_orphan(link.orphan, players, nicknames, summons)
            &&& is_only_choice(link.owner, link.orphan, players, nicknames)
        }) by {
            if i < before.len() {
                assert(links[i] == before[i]);
                let k = front.index_of(before[i].orphan);
                assert(ids[k] == before[i].orphan);
            } else {
                assert(ids.contains(ids[n]));
            }
        }
        assert forall|i: int, j: int| 0 <= i < j < links.len() implies (
        #[trigger] links[i]).orphan != (#[trigger] links[j]).orphan by {
            assert(links[i] == before[i]);
            if j < before.len() {
                assert(links[j] == before[j]);
            }
        }
        assert forall|k: int, owner: i32|
            0 <= k < ids.len() && is_orphan(#[trigger] ids[k], players, nicknames, summons)
                && #[trigger] is_only_choice(owner, ids[k], players, nicknames) implies has_link(
            links,
            ids[k],
            owner,
        ) by {
            if k < n {
                assert(front[k] == ids[k]);
                assert(has_link(before, front[k], owner));
                let i = choose|i: int|
                    0 <= i < before.len() && (#[trigger] before[i]).orphan == ids[k]
                        && before[i].owner == owner;
                assert(links[i] == before[i]);
            } else {
                lemma_sole_owner(id, players, nicknames, owner);
                assert(links[before.len() as int].orphan == id);
            }
        }
    }
}

/// The hits of the summons that are linked to the owner, one summon after the other.
pub open spec fn adopted_hits(
    links: Seq<OrphanLink>,
    players: Map<i32, PersonalModel>,
    owner: i32,
) -> Seq<HitModel>
    decreases links.len(),
{
    if links.len() == 0 {
        Seq::empty()
    } else {
        let before = adopted_hits(links.drop_last(), players, owner);
        if links.last().owner == owner {
            before + players[links.last().orphan].hits
        } else {
            before
        }
    }
}

/// What the summons that are linked to the owner did.
pub open spec fn adopted_amount(
    links: Seq<OrphanLink>,
    players: Map<i32, PersonalModel>,
    owner: i32,
) -> int
    decreases links.len(),
{
    if links.len() == 0 {
        0
    } else {
        adopted_amount(links.drop_last(), players, owner) + if links.last().owner == owner {
            players[links.last().orphan].amount as int
        } else {
            0
        }
    }
}

/// Whether the links are of players, each summon once, and no summon is an owner.
pub open spec fn are_sound(links: Seq<OrphanLink>, players: Map<i32, PersonalModel>) -> bool {
    &&& forall|i: int|
        0 <= i < links.len() ==> players.contains_key((#[trigger] links[i]).orphan)
            && players.contains_key(links[i].owner)
    &&& forall|i: int, j: int|
        0 <= i < j < links.len() ==> (#[trigger] links[i]).orphan != (#[trigger] links[j]).orphan
    &&& forall|i: int, j: int|
        0 <= i < links.len() && 0 <= j < links.len() ==> (#[trigger] links[i]).orphan != (
        #[trigger] links[j]).owner
}

/// Whether the id is a summon in one of the links.
pub open spec fn is_linked(links: Seq<OrphanLink>, id: i32) -> bool {
    exists|i: int| 0 <= i < links.len() && (#[trigger] links[i]).orphan == id
}

proof fn lemma_adopted(
    players: Map<i32, PersonalModel>,
    links: Seq<OrphanLink>,
    id: i32,
)
    requires
        are_sound(links, players),
    ensures
        ({
            let after = meter::adopted(players, links);
            &&& after.contains_key(id) <==> players.contains_key(id) && !is_linked(links, id)
            &&& after.contains_key(id) ==> {
                &&& after[id].hits == players[id].hits + adopted_hits(links, players, id)
                &&& sums::same_count(
                    after[id].amount as int,
                    players[id].amount + adopted_amount(links, players, id),
                )
                &&& after[id].nickname == players[id].nickname
                &&& after[id].job == players[id].job
            }
        }),
    decreases links.len(),
{
    if links.len() == 0 {
        assert(players[id].hits + Seq::<HitModel>::empty() =~= players[id].hits);
    } else {
        let front = links.drop_last();
        let n = links.len() - 1;
        let link = links.last();
        assert(links[n] == link);
        assert forall|i: int| 0 <= i < front.len() implies #[trigger] front[i] == links[i] by {}
        assert(are_sound(front, players)) by {
            assert forall|i: int, j: int| 0 <= i < j < front.len() implies (
            #[trigger] front[i]).orphan != (#[trigger] front[j]).orphan by {
                assert(links[i].orphan != links[j].orphan);
            }
            assert forall|i: int, j: int|
                0 <= i < front.len() && 0 <= j < front.len() implies (#[trigger] front[i]).orphan
                != (#[trigger] front[j]).owner by {
                assert(links[i].orphan != links[j].owner);
            }
            assert forall|i: int| 0 <= i < front.len() implies players.contains_key(
                (#[trigger] front[i]).orphan,
            ) && players.contains_key(front[i].owner) by {
                assert(players.contains_key(links[i].orphan));
            }
        }
        lemma_adopted(players, front, id);
        lemma_adopted(players, front, link.orphan);
        lemma_adopted(players, front, link.owner);
        assert(!is_linked(front, link.orphan)) by {
            if is_linked(front, link.orphan) {
                let i = choose|i: int|
                    0 <= i < front.len() && (#[trigger] front[i]).orphan == link.orphan;
                assert(links[i].orphan != links[n].orphan);
            }
        }
        assert(!is_linked(front, link.owner)) by {
            if is_linked(front, link.owner) {
                let i = choose|i: int|
                    0 <= i < front.len() && (#[trigger] front[i]).orphan == link.owner;
                assert(links[i].orphan != links[n].owner);
            }
        }
        lemma_adopts_nothing(front, players, link.orphan);
        assert(links[n].orphan != links[n].owner);
        assert(is_linked(links, id) <==> is_linked(front, id) || id == link.orphan) by {
            if is_linked(links, id) && id != link.orphan {
                let i = choose|i: int| 0 <= i < links.len() && (#[trigger] links[i]).orphan == id;
                assert(front[i].orphan == id);
            }
            if is_linked(front, id) {
                let i = choose|i: int| 0 <= i < front.len() && (#[trigger] front[i]).orphan == id;
                assert(links[i].orphan == id);
            }
        }
        let before = meter::adopted(players, front);
        if id == link.owner {
            assert(players[link.orphan].hits + Seq::<HitModel>::empty()
                =~= players[link.orphan].hits);
            assert((players[id].hits + adopted_hits(front, players, id))
                + players[link.orphan].hits =~= players[id].hits + adopted_hits(
                links,
                players,
                id,
            ));
            sums::lemma_wrapping(before[id].amount, before[link.orphan].amount);
        }
    }
}

/// One who is no owner is given nothing.
pub proof fn lemma_adopts_nothing(links: Seq<OrphanLink>, players: Map<i32, PersonalModel>, id: i32)
    requires
        forall|i: int| 0 <= i < links.len() ==> (#[trigger] links[i]).owner != id,
    ensures
        adopted_hits(links, players, id) == Seq::<HitModel>::empty(),
        adopted_amount(links, players, id) == 0,
    decreases links.len(),
{
    if links.len() > 0 {
        let front = links.drop_last();
        assert(links[links.len() - 1].owner != id);
        assert forall|i: int| 0 <= i < front.len() implies (#[trigger] front[i]).owner != id by {
            assert(front[i] == links[i]);
        }
        lemma_adopts_nothing(front, players, id);
    }
}

/// A summon that is linked to no one, has no nickname and shares its class with one player that has
/// a nickname has no row of its own; where there is no such player, or more than one, it has. Every
/// other row stays, and one that nothing was added to stays as it is.
pub proof fn law_which_summons_are_taken_in(
    players: Map<i32, PersonalModel>,
    nicknames: Map<i32, Seq<char>>,
    summons: Map<i32, i32>,
    id: i32,
)
    requires
        players.dom().finite(),
        players.contains_key(id),
    ensures
        ({
            let after = meter::without_orphans(players, nicknames, summons);
            let has_owner = is_orphan(id, players, nicknames, summons) && exists|o: i32| #[trigger]
                is_only_choice(o, id, players, nicknames);
            &&& after.contains_key(id) <==> !has_owner
            &&& !nicknames.contains_key(id) && !has_owner ==> after[id] == players[id]
            &&& forall|u: i32| #[trigger]
                after.contains_key(u) ==> players.contains_key(u) && after[u].nickname
                    == players[u].nickname && after[u].job == players[u].job
        }),
{
    let cs = meter::player_classes(players);
    let ids = keys::ascending(players.dom());
    keys::lemma_ascending_exists(players.dom());
    assert forall|k: int| 0 <= k < ids.len() implies players.contains_key(#[trigger] ids[k]) by {
        assert(ids.to_set().contains(ids[k]));
    }
    assert(ids.no_duplicates());
    lemma_links(ids, players, nicknames, summons);
    let links = meter::orphan_links(ids, cs, nicknames, summons);
    assert(are_sound(links, players));
    lemma_adopted(players, links, id);
    assert(ids.to_set().contains(id));
    let k = ids.index_of(id);
    assert(ids[k] == id);
    if is_orphan(id, players, nicknames, summons) && exists|o: i32| #[trigger]
        is_only_choice(o, id, players, nicknames) {
        let o = choose|o: i32| #[trigger] is_only_choice(o, id, players, nicknames);
        assert(has_link(links, ids[k], o));
    }
    if !nicknames.contains_key(id) {
        assert forall|i: int| 0 <= i < links.len() implies (#[trigger] links[i]).owner != id by {
            assert(nicknames.contains_key(links[i].owner));
        }
        lemma_adopts_nothing(links, players, id);
        assert(players[id].hits + Seq::<HitModel>::empty() =~= players[id].hits);
        if meter::without_orphans(players, nicknames, summons).contains_key(id) {
            let after = meter::without_orphans(players, nicknames, summons);
            assert(after[id].amount == players[id].amount);
            assert(after[id] =~= players[id]);
        }
    }
    assert forall|u: i32| #[trigger]
        meter::without_orphans(players, nicknames, summons).contains_key(
            u,
        ) implies players.contains_key(u) && meter::without_orphans(
        players,
        nicknames,
        summons,
    )[u].nickname == players[u].nickname && meter::without_orphans(
        players,
        nicknames,
        summons,
    )[u].job == players[u].job by {
        lemma_adopted(players, links, u);
    }
}

/// Where there is one such summon, all of its hits, and what they did, go to the one player that it
/// can belong to, behind that player's own.
pub proof fn law_a_summon_is_taken_in_by_its_player(
    players: Map<i32, PersonalModel>,
    nicknames: Map<i32, Seq<char>>,
    summons: Map<i32, i32>,
    orphan: i32,
    owner: i32,
)
    requires
        players.dom().finite(),
        is_orphan(orphan, players, nicknames, summons),
        is_only_choice(owner, orphan, players, nicknames),
        forall|o: i32| #[trigger]
            is_orphan(o, players, nicknames, summons) && players[o].job == players[orphan].job
                ==> o == orphan,
    ensures
        ({
            let after = meter::without_orphans(players, nicknames, summons);
            &&& !after.contains_key(orphan)
            &&& after.contains_key(owner)
            &&& after[owner].hits == players[owner].hits + players[orphan].hits
            &&& sums::same_count(
                after[owner].amount as int,
                players[owner].amount + players[orphan].amount,
            )
        }),
{
    let cs = meter::player_classes(players);
    let ids = keys::ascending(players.dom());
    keys::lemma_ascending_exists(players.dom());
    assert forall|k: int| 0 <= k < ids.len() implies players.contains_key(#[trigger] ids[k]) by {
        assert(ids.to_set().contains(ids[k]));
    }
    assert(ids.no_duplicates());
    lemma_links(ids, players, nicknames, summons);
    let links = meter::orphan_links(ids, cs, nicknames, summons);
    assert(are_sound(links, players));
    lemma_adopted(players, links, orphan);
    lemma_adopted(players, links, owner);
    assert(ids.to_set().contains(orphan));
    let k = ids.index_of(orphan);
    assert(ids[k] == orphan);
    assert(has_link(links, ids[k], owner));
    let i = choose|i: int|
        0 <= i < links.len() && (#[trigger] links[i]).orphan == orphan && links[i].owner == owner;
    assert forall|j: int| 0 <= j < links.len() && (#[trigger] links[j]).owner == owner implies j
        == i by {
        assert(is_orphan(links[j].orphan, players, nicknames, summons));
        assert(is_only_choice(owner, links[j].orphan, players, nicknames));
        assert(links[j].orphan == orphan);
    }
    lemma_adopts_once(links, players, owner, i);
    assert(!is_linked(links, owner)) by {
        if is_linked(links, owner) {
            let j = choose|j: int| 0 <= j < links.len() && (#[trigger] links[j]).orphan == owner;
            assert(links[j].orphan != links[i].owner);
        }
    }
}

/// One who is the owner of one summon is given what that did.
pub proof fn lemma_adopts_once(
    links: Seq<OrphanLink>,
    players: Map<i32, PersonalModel>,
    owner: i32,
    i: int,
)
    requires
        0 <= i < links.len(),
        links[i].owner == owner,
        forall|j: int|
            0 <= j < links.len() && (#[trigger] links[j]).owner == owner ==> j == i,
    ensures
        adopted_hits(links, players, owner) == players[links[i].orphan].hits,
        adopted_amount(links, players, owner) == players[links[i].orphan].amount,
    decreases links.len(),
{
    let front = links.drop_last();
    if i == links.len() - 1 {
        assert forall|j: int| 0 <= j < front.len() implies (#[trigger] front[j]).owner != owner by {
            assert(front[j] == links[j]);
        }
        lemma_adopts_nothing(front, players, owner);
        assert(Seq::<HitModel>::empty() + players[links[i].orphan].hits
            =~= players[links[i].orphan].hits);
    } else {
        assert(front[i] == links[i]);
        assert forall|j: int| 0 <= j < front.len() && (#[trigger] front[j]).owner == owner implies j
            == i by {
            assert(front[j] == links[j]);
        }
        assert(links[links.len() - 1].owner != owner);
        lemma_adopts_once(front, players, owner, i);
    }
}

/// A class that was remembered for a key is given back for it, where the key is more than digits
/// and the class is known by name; no one else's changes. Nothing else is remembered, and nothing
/// is given back for a bare number.
pub proof fn law_classes_are_remembered(
    cache: Map<Seq<char>, Seq<char>>,
    key: Seq<char>,
    job: Seq<char>,
    other: Seq<char>,
)
    requires
        other != key,
    ensures
        ({
            let after = job_cache::remembered(cache, key, job);
            let is_name = exists|i: int|
                0 <= i < key.len() && ((#[trigger] key[i]) < '0' || key[i] > '9');
            let is_class = job.len() > 0 && job != "Unknown"@;
            &&& is_name && is_class ==> job_cache::job_under(after, key) == job
            &&& !is_name || !is_class ==> after == cache
            &&& !is_name ==> job_cache::job_under(cache, key).len() == 0
            &&& job_cache::job_under(after, other) == job_cache::job_under(cache, other)
            &&& !cache.contains_key(key) ==> job_cache::job_under(cache, key).len() == 0
            &&& cache.contains_key(key) && cache[key] == "Unknown"@ ==> job_cache::job_under(
                cache,
                key,
            ).len() == 0
        }),
{
    let is_name = exists|i: int|
        0 <= i < key.len() && ((#[trigger] key[i]) < '0' || key[i] > '9');
    if is_name {
        let i = choose|i: int| 0 <= i < key.len() && ((#[trigger] key[i]) < '0' || key[i] > '9');
        assert(!('0' <= key[i] && key[i] <= '9'));
        assert(job_cache::is_player_key(key));
    }
}

/// White space at the ends of a nickname makes no difference to what is remembered for it.
pub proof fn law_white_space_around_a_nickname_does_not_count(nickname: Seq<char>)
    ensures
        text::trimmed(text::trimmed(nickname)) == text::trimmed(nickname),
        job_cache::job_key(text::trimmed(nickname)) == job_cache::job_key(nickname),
{
    text_laws::lemma_trimmed_twice(nickname);
}

} // verus!
