//! What holds of the targets that are shown.
use crate::combat::meter_laws;
use crate::combat::target_selection;
use crate::combat::target_selection::{Choice, TargetSelectionMode};
use crate::entity::damage_packet::ParsedDamagePacket;
use crate::entity::summon_resolver;
use crate::entity::target_info::TargetInfoModel;
use crate::i18n::lookup::NpcLookup;
use vstd::prelude::*;

verus! {

/// Whether just the target is shown, under the name of its kind; without one where the kind or its
/// name is not known.
pub open spec fn shows_just(
    choice: Choice,
    target: i32,
    mobs: Map<i32, i32>,
    npcs: NpcLookup,
) -> bool {
    &&& choice.tracking == target
    &&& forall|t: i32| #[trigger] choice.ids.contains(t) <==> t == target
    &&& choice.name == if mobs.contains_key(target) && npcs.names@.contains_key(mobs[target]) {
        npcs.names@[mobs[target]]@
    } else {
        Seq::empty()
    }
}

/// Whether nothing is shown.
pub open spec fn shows_nothing(choice: Choice) -> bool {
    choice.ids == Set::<i32>::empty() && choice.tracking == 0 && choice.name.len() == 0
}

/// Whether no target that was hit has taken more damage.
pub open spec fn took_the_most(infos: Map<i32, TargetInfoModel>, target: i32) -> bool {
    &&& infos.contains_key(target)
    &&& forall|t: i32| #[trigger]
        infos.contains_key(t) ==> infos[t].damaged_amount <= infos[target].damaged_amount
}

/// Whether no target was hit later.
pub open spec fn was_hit_last(infos: Map<i32, TargetInfoModel>, target: i32) -> bool {
    &&& infos.contains_key(target)
    &&& forall|t: i32| #[trigger]
        infos.contains_key(t) ==> infos[t].last_damage_time <= infos[target].last_damage_time
}

/// Whether the target was hit and is a boss.
pub open spec fn is_boss_hit(
    infos: Map<i32, TargetInfoModel>,
    mobs: Map<i32, i32>,
    npcs: NpcLookup,
    target: i32,
) -> bool {
    infos.contains_key(target) && mobs.contains_key(target) && npcs.bosses@.contains(mobs[target])
}

/// The most damaged target is shown, and the most recently hit one, where these are asked for. Of
/// nothing that was hit, nothing is shown.
pub proof fn law_the_asked_for_target_is_shown(
    infos: Map<i32, TargetInfoModel>,
    packets: Map<i32, Seq<ParsedDamagePacket>>,
    summons: Map<i32, i32>,
    mobs: Map<i32, i32>,
    local_player: Option<i64>,
    npcs: NpcLookup,
)
    requires
        infos.dom().finite(),
    ensures
        ({
            let by_damage = target_selection::chosen(
                TargetSelectionMode::MostDamage,
                infos,
                packets,
                summons,
                mobs,
                local_player,
                npcs,
            );
            let by_time = target_selection::chosen(
                TargetSelectionMode::MostRecent,
                infos,
                packets,
                summons,
                mobs,
                local_player,
                npcs,
            );
            if infos.dom() == Set::<i32>::empty() {
                shows_nothing(by_damage) && shows_nothing(by_time)
            } else {
                &&& took_the_most(infos, by_damage.tracking)
                &&& shows_just(by_damage, by_damage.tracking, mobs, npcs)
                &&& was_hit_last(infos, by_time.tracking)
                &&& shows_just(by_time, by_time.tracking, mobs, npcs)
            }
        }),
{
    lemma_most_damaged(infos);
    lemma_most_recent(infos);
}

proof fn lemma_most_damaged(infos: Map<i32, TargetInfoModel>)
    requires
        infos.dom().finite(),
    ensures
        match target_selection::most_damaged(infos, infos.dom()) {
            Some(t) => took_the_most(infos, t),
            None => infos.dom() == Set::<i32>::empty(),
        },
        infos.dom() == Set::<i32>::empty() ==> target_selection::most_damaged(
            infos,
            infos.dom(),
        ) is None,
{
    let score = |t: i32| infos[t].damaged_amount;
    meter_laws::law_the_highest_is_chosen(infos.dom(), score);
    match target_selection::top(infos.dom(), score) {
        Some(id) => {
            assert(target_selection::is_top(id, infos.dom(), score));
            assert forall|t: i32| #[trigger] infos.contains_key(t) implies infos[t].damaged_amount
                <= infos[id].damaged_amount by {
                assert(infos.dom().contains(t));
            }
        },
        None => {},
    }
}

proof fn lemma_most_recent(infos: Map<i32, TargetInfoModel>)
    requires
        infos.dom().finite(),
    ensures
        match target_selection::most_recent(infos) {
            Some(t) => was_hit_last(infos, t),
            None => infos.dom() == Set::<i32>::empty(),
        },
        infos.dom() == Set::<i32>::empty() ==> target_selection::most_recent(infos) is None,
{
    let score = |t: i32| infos[t].last_damage_time;
    meter_laws::law_the_highest_is_chosen(infos.dom(), score);
    match target_selection::top(infos.dom(), score) {
        Some(id) => {
            assert(target_selection::is_top(id, infos.dom(), score));
            assert forall|t: i32| #[trigger] infos.contains_key(t) implies infos[t].last_damage_time
                <= infos[id].last_damage_time by {
                assert(infos.dom().contains(t));
            }
        },
        None => {},
    }
}

/// Where bosses are asked for, the boss that took the most damage is shown; where no boss was hit,
/// the target that took the most.
pub proof fn law_a_boss_or_the_most_damaged_is_shown(
    infos: Map<i32, TargetInfoModel>,
    packets: Map<i32, Seq<ParsedDamagePacket>>,
    summons: Map<i32, i32>,
    mobs: Map<i32, i32>,
    local_player: Option<i64>,
    npcs: NpcLookup,
)
    requires
        infos.dom().finite(),
    ensures
        ({
            let choice = target_selection::chosen(
                TargetSelectionMode::BossTargets,
                infos,
                packets,
                summons,
                mobs,
                local_player,
                npcs,
            );
            let shown = choice.tracking;
            &&& infos.dom() == Set::<i32>::empty() ==> shows_nothing(choice)
            &&& infos.dom() != Set::<i32>::empty() ==> shows_just(choice, shown, mobs, npcs)
            &&& (exists|b: i32| #[trigger] is_boss_hit(infos, mobs, npcs, b)) ==> is_boss_hit(
                infos,
                mobs,
                npcs,
                shown,
            )
            &&& forall|b: i32| #[trigger]
                is_boss_hit(infos, mobs, npcs, b) ==> infos[b].damaged_amount
                    <= infos[shown].damaged_amount
            &&& infos.dom() != Set::<i32>::empty() && !(exists|b: i32| #[trigger]
                is_boss_hit(infos, mobs, npcs, b)) ==> took_the_most(infos, shown)
        }),
{
    lemma_most_damaged(infos);
    let bosses = target_selection::boss_targets(infos, mobs, npcs);
    vstd::set_lib::lemma_set_subset_finite(infos.dom(), bosses);
    let score = |t: i32| infos[t].damaged_amount;
    meter_laws::law_the_highest_is_chosen(bosses, score);
    assert forall|b: i32| #[trigger] is_boss_hit(infos, mobs, npcs, b) <==> bosses.contains(b) by {}
    if bosses == Set::<i32>::empty() {
        assert forall|b: i32| !(#[trigger] is_boss_hit(infos, mobs, npcs, b)) by {
            assert(!bosses.contains(b));
        }
    } else {
        let id = target_selection::top(bosses, score)->0;
        assert(target_selection::is_top(id, bosses, score));
        assert(is_boss_hit(infos, mobs, npcs, id));
        if infos.dom() == Set::<i32>::empty() {
            assert(!infos.dom().contains(id));
        }
    }
}

/// The kinds of creatures that are training dummies.
pub open spec fn training_dummies() -> Seq<i32> {
    seq![
        2_300_229,
        2_300_919,
        2_310_229,
        2_310_919,
        2_320_229,
        2_320_919,
        2_400_032,
        2_400_392,
        2_500_075,
        2_500_076,
        2_701_376,
    ]
}

/// Where all targets are asked for, all that were hit are shown together; where training dummies
/// are, all of these. No one of them is followed.
pub proof fn law_many_targets_are_shown_together(
    infos: Map<i32, TargetInfoModel>,
    packets: Map<i32, Seq<ParsedDamagePacket>>,
    summons: Map<i32, i32>,
    mobs: Map<i32, i32>,
    local_player: Option<i64>,
    npcs: NpcLookup,
    t: i32,
)
    ensures
        ({
            let all = target_selection::chosen(
                TargetSelectionMode::AllTargets,
                infos,
                packets,
                summons,
                mobs,
                local_player,
                npcs,
            );
            let dummies = target_selection::chosen(
                TargetSelectionMode::TrainTargets,
                infos,
                packets,
                summons,
                mobs,
                local_player,
                npcs,
            );
            &&& all.ids.contains(t) <==> infos.contains_key(t)
            &&& all.tracking == 0
            &&& all.name == "All Targets"@
            &&& dummies.ids.contains(t) <==> infos.contains_key(t) && mobs.contains_key(t)
                && training_dummies().contains(mobs[t])
            &&& dummies.tracking == 0
            &&& dummies.name == "Train"@
        }),
{
    if mobs.contains_key(t) {
        lemma_train_code(mobs[t]);
    }
}

/// Just the kinds in the list are training dummies.
pub proof fn lemma_train_code(code: i32)
    ensures
        target_selection::train_code(code) <==> training_dummies().contains(code),
{
    let list = training_dummies();
    if target_selection::train_code(code) {
        assert(list[0] == code || list[1] == code || list[2] == code || list[3] == code || list[4]
            == code || list[5] == code || list[6] == code || list[7] == code || list[8] == code
            || list[9] == code || list[10] == code);
    }
    if list.contains(code) {
        let i = list.index_of(code);
        assert(0 <= i < 11);
    }
}

/// Whether the event is the local player's: its own, or that of a summon of its own.
pub open spec fn is_own(p: ParsedDamagePacket, local: i64, summons: Map<i32, i32>) -> bool {
    let actor = summon_resolver::resolved(p.actor_id, summons);
    actor == local as i32 || (summons.contains_key(actor) && summon_resolver::resolved(
        summons[actor],
        summons,
    ) == local as i32)
}

/// Whether the event at the place is the last of the local player's.
pub open spec fn is_last_own(
    ps: Seq<ParsedDamagePacket>,
    i: int,
    local: i64,
    summons: Map<i32, i32>,
) -> bool {
    &&& 0 <= i < ps.len()
    &&& is_own(ps[i], local, summons)
    &&& forall|k: int| i < k < ps.len() ==> !is_own(#[trigger] ps[k], local, summons)
}

/// Whether the local player hit the target.
pub open spec fn has_own(ps: Seq<ParsedDamagePacket>, local: i64, summons: Map<i32, i32>) -> bool {
    exists|i: int| 0 <= i < ps.len() && is_own(#[trigger] ps[i], local, summons)
}

proof fn lemma_last_act(ps: Seq<ParsedDamagePacket>, local: i64, summons: Map<i32, i32>)
    ensures
        ({
            let ids = target_selection::local_ids(Some(local), summons)->0;
            let last = target_selection::last_act(ps, ids, summons);
            &&& last is Some <==> has_own(ps, local, summons)
            &&& forall|i: int| #[trigger]
                is_last_own(ps, i, local, summons) ==> last == Some(ps[i].timestamp)
            &&& has_own(ps, local, summons) ==> exists|i: int| #[trigger]
                is_last_own(ps, i, local, summons)
        }),
    decreases ps.len(),
{
    let ids = target_selection::local_ids(Some(local), summons)->0;
    if ps.len() > 0 {
        let front = ps.drop_last();
        let n = ps.len() - 1;
        lemma_last_act(front, local, summons);
        assert(ps[n] == ps.last());
        if is_own(ps.last(), local, summons) {
            assert(is_last_own(ps, n, local, summons));
            assert forall|i: int| #[trigger] is_last_own(ps, i, local, summons) implies i == n by {
                if i < n {
                    assert(is_own(ps[n], local, summons));
                }
            }
        } else {
            assert forall|i: int| #[trigger] is_last_own(ps, i, local, summons) <==> is_last_own(
                front,
                i,
                local,
                summons,
            ) by {
                if is_last_own(ps, i, local, summons) {
                    assert(front[i] == ps[i]);
                    assert forall|k: int| i < k < front.len() implies !is_own(
                        #[trigger] front[k],
                        local,
                        summons,
                    ) by {
                        assert(front[k] == ps[k]);
                    }
                }
                if is_last_own(front, i, local, summons) {
                    assert forall|k: int| i < k < ps.len() implies !is_own(
                        #[trigger] ps[k],
                        local,
                        summons,
                    ) by {
                        if k < n {
                            assert(front[k] == ps[k]);
                        }
                    }
                }
            }
            if has_own(front, local, summons) {
                let i = choose|i: int| is_last_own(front, i, local, summons);
                assert(is_last_own(ps, i, local, summons));
            }
            if has_own(ps, local, summons) {
                let i = choose|i: int| 0 <= i < ps.len() && is_own(#[trigger] ps[i], local, summons);
                assert(front[i] == ps[i]);
            }
        }
    }
}

/// Where the local player's target is asked for: the one that the local player, or a summon of its
/// own, acted on last is shown. Where it has hit nothing, the most recently hit target is shown;
/// where it is not known, the most damaged one.
pub proof fn law_the_local_players_target_is_shown(
    infos: Map<i32, TargetInfoModel>,
    packets: Map<i32, Seq<ParsedDamagePacket>>,
    summons: Map<i32, i32>,
    mobs: Map<i32, i32>,
    local: i64,
    npcs: NpcLookup,
)
    requires
        infos.dom().finite(),
        packets.dom().finite(),
    ensures
        ({
            let choice = target_selection::chosen(
                TargetSelectionMode::LastHitByMe,
                infos,
                packets,
                summons,
                mobs,
                Some(local),
                npcs,
            );
            let shown = choice.tracking;
            if exists|t: i32| #[trigger]
                packets.contains_key(t) && has_own(packets[t], local, summons) {
                &&& shows_just(choice, shown, mobs, npcs)
                &&& packets.contains_key(shown)
                &&& has_own(packets[shown], local, summons)
                &&& forall|t: i32, i: int, k: int|
                    packets.contains_key(t) && #[trigger] is_last_own(packets[t], i, local, summons)
                        && #[trigger] is_last_own(packets[shown], k, local, summons)
                        ==> packets[t][i].timestamp <= packets[shown][k].timestamp
            } else if infos.dom() == Set::<i32>::empty() {
                shows_nothing(choice)
            } else {
                was_hit_last(infos, shown) && shows_just(choice, shown, mobs, npcs)
            }
        }),
        ({
            let choice = target_selection::chosen(
                TargetSelectionMode::LastHitByMe,
                infos,
                packets,
                summons,
                mobs,
                None,
                npcs,
            );
            if infos.dom() == Set::<i32>::empty() {
                shows_nothing(choice)
            } else {
                took_the_most(infos, choice.tracking) && shows_just(
                    choice,
                    choice.tracking,
                    mobs,
                    npcs,
                )
            }
        }),
{
    lemma_most_damaged(infos);
    lemma_most_recent(infos);
    let ids = target_selection::local_ids(Some(local), summons)->0;
    let acted = packets.dom().filter(
        |t: i32| target_selection::last_act(packets[t], ids, summons) is Some,
    );
    let score = |t: i32| target_selection::last_act(packets[t], ids, summons)->0;
    vstd::set_lib::lemma_set_subset_finite(packets.dom(), acted);
    meter_laws::law_the_highest_is_chosen(acted, score);
    assert forall|t: i32| #[trigger] packets.contains_key(t) implies (has_own(
        packets[t],
        local,
        summons,
    ) <==> acted.contains(t)) by {
        lemma_last_act(packets[t], local, summons);
    }
    if acted == Set::<i32>::empty() {
        assert forall|t: i32| #[trigger] packets.contains_key(t) implies !has_own(
            packets[t],
            local,
            summons,
        ) by {
            assert(!acted.contains(t));
        }
    } else {
        let shown = target_selection::top(acted, score)->0;
        assert(target_selection::is_top(shown, acted, score));
        assert(packets.contains_key(shown));
        assert forall|t: i32, i: int, k: int|
            packets.contains_key(t) && #[trigger] is_last_own(packets[t], i, local, summons)
                && #[trigger] is_last_own(packets[shown], k, local, summons) implies packets[t][i].timestamp
            <= packets[shown][k].timestamp by {
            lemma_last_act(packets[t], local, summons);
            lemma_last_act(packets[shown], local, summons);
            assert(has_own(packets[t], local, summons));
            assert(acted.contains(t));
        }
    }
}

} // verus!
