//! What holds of the running account of a target.
use crate::entity::damage_packet::ParsedDamagePacket;
use crate::entity::target_info::TargetInfoModel;
use crate::sums;
use crate::tallies;
use vstd::prelude::*;

verus! {

/// Whether the events have times after the start of the clock, and a number each of its own.
pub open spec fn are_proper(ps: Seq<ParsedDamagePacket>) -> bool {
    &&& forall|i: int| 0 <= i < ps.len() ==> (#[trigger] ps[i]).timestamp > 0
    &&& forall|i: int, j: int|
        0 <= i < j < ps.len() ==> (#[trigger] ps[i]).id != (#[trigger] ps[j]).id
}

/// Whether the event at the place comes within half a minute of one before it.
pub open spec fn follows_closely(ps: Seq<ParsedDamagePacket>, i: int) -> bool {
    exists|j: int| 0 <= j < i && ps[i].timestamp - (#[trigger] ps[j]).timestamp <= 30_000
}

/// Whether every event but the first comes within half a minute of one before it.
pub open spec fn has_no_pause(ps: Seq<ParsedDamagePacket>) -> bool {
    forall|i: int| 0 < i < ps.len() ==> #[trigger] follows_closely(ps, i)
}

/// Whether the event comes more than half a minute after all the others.
pub open spec fn comes_after_a_pause(p: ParsedDamagePacket, ps: Seq<ParsedDamagePacket>) -> bool {
    forall|i: int| 0 <= i < ps.len() ==> p.timestamp - (#[trigger] ps[i]).timestamp > 30_000
}

/// Whether the time is that of the earliest of the events.
pub open spec fn is_earliest(time: i64, ps: Seq<ParsedDamagePacket>) -> bool {
    &&& exists|i: int| 0 <= i < ps.len() && (#[trigger] ps[i]).timestamp == time
    &&& forall|i: int| 0 <= i < ps.len() ==> time <= (#[trigger] ps[i]).timestamp
}

/// Whether the time is that of the latest of the events.
pub open spec fn is_latest(time: i64, ps: Seq<ParsedDamagePacket>) -> bool {
    &&& exists|i: int| 0 <= i < ps.len() && (#[trigger] ps[i]).timestamp == time
    &&& forall|i: int| 0 <= i < ps.len() ==> (#[trigger] ps[i]).timestamp <= time
}

/// Whether the account of the target tells of the given fight: its damage, its start and its end
/// are those of its events.
pub open spec fn tells_of(t: TargetInfoModel, fight: Seq<ParsedDamagePacket>) -> bool {
    &&& sums::same_count(t.damaged_amount as int, tallies::damage_sum(fight))
    &&& is_earliest(t.target_damage_started, fight)
    &&& is_latest(t.last_damage_time, fight)
    &&& t.battle_time() == t.last_damage_time - t.target_damage_started
}

proof fn lemma_proper_front(ps: Seq<ParsedDamagePacket>)
    requires
        are_proper(ps),
        ps.len() > 0,
    ensures
        are_proper(ps.drop_last()),
        ps.last().timestamp > 0,
        forall|i: int|
            0 <= i < ps.drop_last().len() ==> (#[trigger] ps.drop_last()[i]).id != ps.last().id,
{
    let front = ps.drop_last();
    assert forall|i: int, j: int| 0 <= i < j < front.len() implies (#[trigger] front[i]).id != (
    #[trigger] front[j]).id by {
        assert(ps[i].id != ps[j].id);
    }
    assert forall|i: int| 0 <= i < front.len() implies (#[trigger] front[i]).timestamp > 0 by {
        assert(ps[i].timestamp > 0);
    }
    assert(ps[ps.len() - 1].timestamp > 0);
    assert forall|i: int| 0 <= i < front.len() implies (#[trigger] front[i]).id
        != ps.last().id by {
        assert(ps[i].id != ps[ps.len() - 1].id);
    }
}

/// The latest time stays the latest when one more event comes.
pub proof fn lemma_latest_push(time: i64, ps: Seq<ParsedDamagePacket>, p: ParsedDamagePacket)
    requires
        is_latest(time, ps),
    ensures
        is_latest(
            if p.timestamp > time {
                p.timestamp
            } else {
                time
            },
            ps.push(p),
        ),
{
    let all = ps.push(p);
    let i = choose|i: int| 0 <= i < ps.len() && (#[trigger] ps[i]).timestamp == time;
    assert(all[i].timestamp == time);
    assert(all[ps.len() as int].timestamp == p.timestamp);
    assert forall|k: int| 0 <= k < all.len() implies (#[trigger] all[k]).timestamp
        <= if p.timestamp > time {
        p.timestamp
    } else {
        time
    } by {
        if k < ps.len() {
            assert(all[k] == ps[k]);
        }
    }
}

/// The earliest time stays the earliest when one more event comes.
pub proof fn lemma_earliest_push(time: i64, ps: Seq<ParsedDamagePacket>, p: ParsedDamagePacket)
    requires
        is_earliest(time, ps),
    ensures
        is_earliest(
            if p.timestamp < time {
                p.timestamp
            } else {
                time
            },
            ps.push(p),
        ),
{
    let all = ps.push(p);
    let i = choose|i: int| 0 <= i < ps.len() && (#[trigger] ps[i]).timestamp == time;
    assert(all[i].timestamp == time);
    assert(all[ps.len() as int].timestamp == p.timestamp);
    assert forall|k: int| 0 <= k < all.len() implies if p.timestamp < time {
        p.timestamp
    } else {
        time
    } <= (#[trigger] all[k]).timestamp by {
        if k < ps.len() {
            assert(all[k] == ps[k]);
        }
    }
}

proof fn lemma_one_event(p: ParsedDamagePacket)
    ensures
        is_earliest(p.timestamp, seq![p]),
        is_latest(p.timestamp, seq![p]),
        tallies::damage_sum(seq![p]) == p.total_damage,
{
    assert(seq![p][0].timestamp == p.timestamp);
    let none = Seq::<ParsedDamagePacket>::empty();
    assert(none.push(p) =~= seq![p]);
    tallies::lemma_sum_push(none, p, |q: ParsedDamagePacket| q.total_damage as int);
}

proof fn lemma_latest_is_known(target: i32, ps: Seq<ParsedDamagePacket>)
    requires
        ps.len() > 0,
        are_proper(ps),
    ensures
        ({
            let t = TargetInfoModel::begun(target, ps[0].timestamp).hit_all(ps);
            &&& is_latest(t.last_damage_time, ps)
            &&& t.target_id == target
            &&& forall|id: i64| #[trigger]
                t.processed.contains(id) ==> exists|i: int|
                    0 <= i < ps.len() && (#[trigger] ps[i]).id == id
        }),
    decreases ps.len(),
{
    let start = TargetInfoModel::begun(target, ps[0].timestamp);
    let front = ps.drop_last();
    let p = ps.last();
    lemma_proper_front(ps);
    assert(ps =~= front.push(p));
    if front.len() == 0 {
        assert(front =~= Seq::empty());
        assert(start.hit_all(front) == start);
        assert(ps =~= seq![p]);
        lemma_one_event(p);
        assert(ps[0].id == p.id);
    } else {
        assert(front[0] == ps[0]);
        lemma_latest_is_known(target, front);
        let before = start.hit_all(front);
        assert(!before.processed.contains(p.id));
        lemma_latest_push(before.last_damage_time, front, p);
        let t = before.hit(p);
        let i = choose|i: int|
            0 <= i < front.len() && (#[trigger] front[i]).timestamp == before.last_damage_time;
        assert(before.last_damage_time > 0);
        assert forall|id: i64| #[trigger] t.processed.contains(id) implies exists|i: int|
            0 <= i < ps.len() && (#[trigger] ps[i]).id == id by {
            if id == p.id {
                assert(ps[ps.len() - 1].id == id);
            } else {
                assert(before.processed.contains(id));
                let i = choose|i: int| 0 <= i < front.len() && (#[trigger] front[i]).id == id;
                assert(ps[i].id == id);
            }
        }
    }
}

proof fn lemma_next_event(target: i32, ps: Seq<ParsedDamagePacket>, p: ParsedDamagePacket)
    requires
        ps.len() > 0,
        are_proper(ps.push(p)),
    ensures
        ({
            let t = TargetInfoModel::begun(target, ps[0].timestamp).hit_all(ps);
            &&& is_latest(t.last_damage_time, ps)
            &&& t.last_damage_time > 0
            &&& p.timestamp > 0
            &&& !t.processed.contains(p.id)
            &&& TargetInfoModel::begun(target, ps.push(p)[0].timestamp).hit_all(ps.push(p))
                == t.hit(p)
        }),
{
    let all = ps.push(p);
    lemma_proper_front(all);
    assert(all.drop_last() =~= ps);
    assert(all[0] == ps[0]);
    lemma_latest_is_known(target, ps);
    let t = TargetInfoModel::begun(target, ps[0].timestamp).hit_all(ps);
    let k = choose|k: int|
        0 <= k < ps.len() && (#[trigger] ps[k]).timestamp == t.last_damage_time;
    assert(ps[k].timestamp > 0);
    if t.processed.contains(p.id) {
        let i = choose|i: int| 0 <= i < ps.len() && (#[trigger] ps[i]).id == p.id;
        assert(all.drop_last()[i].id == p.id);
    }
}

proof fn lemma_first_event(target: i32, before: Seq<ParsedDamagePacket>, p: ParsedDamagePacket)
    requires
        are_proper(before.push(p)),
        comes_after_a_pause(p, before),
    ensures
        tells_of(
            TargetInfoModel::begun(target, before.push(p)[0].timestamp).hit_all(before.push(p)),
            seq![p],
        ),
        TargetInfoModel::begun(target, before.push(p)[0].timestamp).hit_all(
            before.push(p),
        ).idle_reset == if before.len() == 0 {
            None
        } else {
            Some(p.timestamp)
        },
{
    lemma_one_event(p);
    let all = before.push(p);
    if before.len() == 0 {
        let start = TargetInfoModel::begun(target, all[0].timestamp);
        assert(all.drop_last() =~= Seq::empty());
        assert(start.hit_all(all.drop_last()) == start);
    } else {
        lemma_next_event(target, before, p);
        let t = TargetInfoModel::begun(target, before[0].timestamp).hit_all(before);
        let k = choose|k: int|
            0 <= k < before.len() && (#[trigger] before[k]).timestamp == t.last_damage_time;
        assert(p.timestamp - before[k].timestamp > 30_000);
        assert(t.idle_before(p));
    }
}

proof fn lemma_fight_told(target: i32, before: Seq<ParsedDamagePacket>, fight: Seq<ParsedDamagePacket>)
    requires
        fight.len() > 0,
        are_proper(before + fight),
        has_no_pause(fight),
        comes_after_a_pause(fight[0], before),
    ensures
        tells_of(
            TargetInfoModel::begun(target, (before + fight)[0].timestamp).hit_all(before + fight),
            fight,
        ),
        TargetInfoModel::begun(target, (before + fight)[0].timestamp).hit_all(
            before + fight,
        ).idle_reset == if before.len() == 0 {
            None
        } else {
            Some(fight[0].timestamp)
        },
    decreases fight.len(),
{
    let p = fight.last();
    let front = fight.drop_last();
    assert(fight =~= front.push(p));
    if front.len() == 0 {
        assert(fight =~= seq![p]);
        assert(before + fight =~= before.push(p));
        assert(fight[0] == p);
        lemma_first_event(target, before, p);
    } else {
        let so_far = before + front;
        assert(before + fight =~= so_far.push(p));
        lemma_proper_front(before + fight);
        assert((before + fight).drop_last() =~= so_far);
        assert(front[0] == fight[0]);
        assert forall|i: int| 0 < i < front.len() implies #[trigger] follows_closely(front, i) by {
            assert(follows_closely(fight, i));
            let j = choose|j: int|
                0 <= j < i && fight[i].timestamp - (#[trigger] fight[j]).timestamp <= 30_000;
            assert(front[j] == fight[j] && front[i] == fight[i]);
        }
        lemma_fight_told(target, before, front);
        lemma_next_event(target, so_far, p);
        let t = TargetInfoModel::begun(target, so_far[0].timestamp).hit_all(so_far);
        let last = fight.len() - 1;
        assert(follows_closely(fight, last));
        let j = choose|j: int|
            0 <= j < last && fight[last].timestamp - (#[trigger] fight[j]).timestamp <= 30_000;
        assert(front[j] == fight[j]);
        assert(front[j].timestamp <= t.last_damage_time);
        let a = choose|a: int|
            0 <= a < front.len() && (#[trigger] front[a]).timestamp == t.target_damage_started;
        assert(so_far[before.len() + a] == front[a]);
        lemma_told_further(t, front, p);
    }
}

proof fn lemma_told_further(t: TargetInfoModel, fight: Seq<ParsedDamagePacket>, p: ParsedDamagePacket)
    requires
        tells_of(t, fight),
        !t.processed.contains(p.id),
        p.timestamp > 0,
        t.target_damage_started > 0,
        p.timestamp - t.last_damage_time <= 30_000,
    ensures
        tells_of(t.hit(p), fight.push(p)),
        t.hit(p).idle_reset == t.idle_reset,
{
    assert(t.last_damage_time >= t.target_damage_started);
    lemma_latest_push(t.last_damage_time, fight, p);
    lemma_earliest_push(t.target_damage_started, fight, p);
    tallies::lemma_sum_push(fight, p, |q: ParsedDamagePacket| q.total_damage as int);
    sums::lemma_wrapping(t.damaged_amount, p.total_damage as i64);
}

/// The account of a target tells of the fight that goes on: the events since the last pause of more
/// than half a minute. Its damage is what these events did as a whole, it began with the earliest
/// of them and lasts until the latest. A pause that ended before it is told of by the time of its
/// first event.
pub proof fn law_a_target_tells_of_the_present_fight(
    target: i32,
    before: Seq<ParsedDamagePacket>,
    fight: Seq<ParsedDamagePacket>,
)
    requires
        fight.len() > 0,
        are_proper(before + fight),
        has_no_pause(fight),
        comes_after_a_pause(fight[0], before),
    ensures
        ({
            let ps = before + fight;
            let t = TargetInfoModel::begun(target, ps[0].timestamp).hit_all(ps);
            &&& t.target_id == target
            &&& tells_of(t, fight)
            &&& t.idle_reset == if before.len() == 0 {
                None
            } else {
                Some(fight[0].timestamp)
            }
        }),
{
    lemma_fight_told(target, before, fight);
    lemma_latest_is_known(target, before + fight);
}

/// A pause is told of by the time of the event that ended it, and by nothing where there was none.
pub proof fn law_a_pause_is_noted(t: TargetInfoModel, p: ParsedDamagePacket)
    requires
        !t.processed.contains(p.id),
        t.last_damage_time > 0,
        p.timestamp > 0,
    ensures
        t.hit(p).idle_reset == if p.timestamp - t.last_damage_time > 30_000 {
            Some(p.timestamp)
        } else {
            t.idle_reset
        },
        p.timestamp - t.last_damage_time <= 30_000 ==> sums::same_count(
            t.hit(p).damaged_amount as int,
            t.damaged_amount + p.total_damage,
        ),
        t.hit(p).processed.contains(p.id),
        t.hit(p).hit(p) == t.hit(p),
{
    sums::lemma_wrapping(t.damaged_amount, p.total_damage as i64);
}

} // verus!
