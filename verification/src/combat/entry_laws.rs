//! What holds of the entries in the details of a fight, told by the events that they count.
use crate::combat::details_laws;
use crate::combat::game_data::GameData;
use crate::combat::meter;
use crate::combat::meter::Naming;
use crate::combat::names;
use crate::combat::ping_tracker;
use crate::combat::storage_model::StorageModel;
use crate::combat::target_details;
use crate::entity::damage_packet::ParsedDamagePacket;
use crate::entity::details_context::{PingPoint, SkillEntryModel};
use crate::entity::job_class::JobTable;
use crate::entity::special_damage::SpecialDamage;
use crate::entity::summon_resolver;
use crate::entity::target_laws;
use crate::sums;
use crate::tallies;
use vstd::prelude::*;

verus! {

/// Whose events are looked at, and how they are named.
#[verifier::ext_equal]
pub struct Lens {
    pub ids: Option<Seq<i32>>,
    pub naming: Naming,
    pub owners: Map<i32, i32>,
    pub game: GameData,
}

impl Lens {
    /// Whether the event is one of a player that was asked for.
    pub open spec fn sees(self, p: ParsedDamagePacket) -> bool {
        let raw = summon_resolver::resolved(p.actor_id, self.naming.summons);
        raw > 0 && target_details::asked_for(raw, self.ids, self.naming, self.owners)
    }

    /// The player under which the event is shown.
    pub open spec fn player_of(self, p: ParsedDamagePacket) -> i32 {
        target_details::shown_under(
            summon_resolver::resolved(p.actor_id, self.naming.summons),
            self.naming,
            self.owners,
        )
    }

    /// The skill as which the event is counted.
    pub open spec fn skill_of(self, p: ParsedDamagePacket) -> i32 {
        self.game.skills.counted_as(p.skill_code)
    }

    /// Whether the event is the player's use of the skill: both plain, or both over time.
    pub open spec fn is_use(
        self,
        p: ParsedDamagePacket,
        player: i32,
        code: i32,
        is_dot: bool,
    ) -> bool {
        self.sees(p) && self.player_of(p) == player && self.skill_of(p) == code && p.is_dot
            == is_dot
    }

    /// The player's uses of the skill, in their order.
    pub open spec fn uses(
        self,
        ps: Seq<ParsedDamagePacket>,
        player: i32,
        code: i32,
        is_dot: bool,
    ) -> Seq<ParsedDamagePacket> {
        ps.filter(|p: ParsedDamagePacket| self.is_use(p, player, code, is_dot))
    }

    /// Whether the codes of skills are such that adding to those of damage over time keeps them
    /// apart from the others.
    pub open spec fn codes_are_plain(self, ps: Seq<ParsedDamagePacket>) -> bool {
        forall|i: int|
            0 <= i < ps.len() ==> 0 <= self.skill_of(#[trigger] ps[i]) < 1_000_000_000
    }
}

/// Whether no hit is larger, and one is as large; zero where none does more than nothing.
pub open spec fn is_largest_hit(n: i32, ps: Seq<ParsedDamagePacket>) -> bool {
    &&& n >= 0
    &&& forall|i: int| 0 <= i < ps.len() ==> (#[trigger] ps[i]).damage <= n
    &&& n == 0 || exists|i: int| 0 <= i < ps.len() && (#[trigger] ps[i]).damage == n
}

/// Whether no hit is smaller, and one is as small.
pub open spec fn is_smallest_hit(n: i32, ps: Seq<ParsedDamagePacket>) -> bool {
    &&& forall|i: int| 0 <= i < ps.len() ==> n <= (#[trigger] ps[i]).damage
    &&& exists|i: int| 0 <= i < ps.len() && (#[trigger] ps[i]).damage == n
}

/// How many events carry the mark.
pub open spec fn marks(ps: Seq<ParsedDamagePacket>, mark: SpecialDamage) -> int {
    tallies::count(ps, |p: ParsedDamagePacket| p.specials@.contains(mark))
}

/// Whether an entry counts just the given uses: how many there are, their damage as a whole, how
/// many were critical or carried a mark, how many hit more than once, with how many hits and how
/// much damage, and what they healed. Counters are equal up to what they drop when they wrap.
pub open spec fn counts(e: SkillEntryModel, uses: Seq<ParsedDamagePacket>) -> bool {
    &&& sums::same_count32(e.time as int, uses.len() as int)
    &&& sums::same_count32(e.dmg as int, tallies::damage_sum(uses))
    &&& sums::same_count32(
        e.crit as int,
        tallies::count(uses, |p: ParsedDamagePacket| p.is_crit),
    )
    &&& sums::same_count32(e.back as int, marks(uses, SpecialDamage::Back))
    &&& sums::same_count32(e.parry as int, marks(uses, SpecialDamage::Parry))
    &&& sums::same_count32(e.perfect as int, marks(uses, SpecialDamage::Perfect))
    &&& sums::same_count32(e.double as int, marks(uses, SpecialDamage::Double))
    &&& sums::same_count32(
        e.multi_hit_count as int,
        tallies::count(uses, |p: ParsedDamagePacket| p.multi_hit_count > 0),
    )
    &&& sums::same_count32(
        e.multi_hit_hits as int,
        tallies::sum_by(uses, |p: ParsedDamagePacket| more_hits(p)),
    )
    &&& sums::same_count32(
        e.multi_hit_damage as int,
        tallies::sum_by(uses, |p: ParsedDamagePacket| more_damage(p)),
    )
    &&& sums::same_count32(
        e.heal as int,
        tallies::sum_by(uses, |p: ParsedDamagePacket| p.heal_amount as int),
    )
}

/// The further hits of an event.
pub open spec fn more_hits(p: ParsedDamagePacket) -> int {
    if p.multi_hit_count > 0 {
        p.multi_hit_count as int
    } else {
        0
    }
}

/// The damage of the further hits of an event.
pub open spec fn more_damage(p: ParsedDamagePacket) -> int {
    if p.multi_hit_count > 0 {
        p.multi_hit_damage as int
    } else {
        0
    }
}

/// Whether an entry tells of just the given uses: it counts them, its largest and its smallest hit
/// are the largest and the smallest of them, its times are theirs in their order, and its flags are
/// those of the first.
pub open spec fn tells_of(e: SkillEntryModel, uses: Seq<ParsedDamagePacket>) -> bool {
    &&& uses.len() > 0
    &&& counts(e, uses)
    &&& is_largest_hit(e.max_dmg, uses)
    &&& is_smallest_hit(e.min_dmg, uses)
    &&& e.hit_timestamps.len() == uses.len()
    &&& forall|i: int|
        0 <= i < uses.len() ==> #[trigger] e.hit_timestamps[i] == uses[i].timestamp
    &&& e.specs == uses[0].spec_flags@
}

proof fn lemma_no_counts(e: SkillEntryModel)
    requires
        e.time == 0,
        e.dmg == 0,
        e.crit == 0,
        e.back == 0,
        e.parry == 0,
        e.perfect == 0,
        e.double == 0,
        e.multi_hit_count == 0,
        e.multi_hit_hits == 0,
        e.multi_hit_damage == 0,
        e.heal == 0,
    ensures
        counts(e, Seq::empty()),
{
    reveal(Seq::filter);
}

proof fn lemma_counts_further(
    e: SkillEntryModel,
    uses: Seq<ParsedDamagePacket>,
    p: ParsedDamagePacket,
)
    requires
        counts(e, uses),
    ensures
        counts(e.hit(p), uses.push(p)),
{
    tallies::lemma_sum_push(uses, p, |q: ParsedDamagePacket| q.total_damage as int);
    tallies::lemma_sum_push(uses, p, |q: ParsedDamagePacket| more_hits(q));
    tallies::lemma_sum_push(uses, p, |q: ParsedDamagePacket| more_damage(q));
    tallies::lemma_sum_push(uses, p, |q: ParsedDamagePacket| q.heal_amount as int);
    tallies::lemma_filter_push(uses, p, |q: ParsedDamagePacket| q.is_crit);
    tallies::lemma_filter_push(uses, p, |q: ParsedDamagePacket| q.multi_hit_count > 0);
    tallies::lemma_filter_push(
        uses,
        p,
        |q: ParsedDamagePacket| q.specials@.contains(SpecialDamage::Back),
    );
    tallies::lemma_filter_push(
        uses,
        p,
        |q: ParsedDamagePacket| q.specials@.contains(SpecialDamage::Parry),
    );
    tallies::lemma_filter_push(
        uses,
        p,
        |q: ParsedDamagePacket| q.specials@.contains(SpecialDamage::Perfect),
    );
    tallies::lemma_filter_push(
        uses,
        p,
        |q: ParsedDamagePacket| q.specials@.contains(SpecialDamage::Double),
    );
}

proof fn lemma_first_use(e: SkillEntryModel, p: ParsedDamagePacket)
    requires
        counts(e, Seq::empty()),
        e.min_dmg == i32::MAX,
        e.max_dmg == 0,
        e.hit_timestamps.len() == 0,
        e.specs == p.spec_flags@,
    ensures
        tells_of(e.hit(p), seq![p]),
{
    lemma_counts_further(e, Seq::empty(), p);
    assert(Seq::<ParsedDamagePacket>::empty().push(p) =~= seq![p]);
    assert(seq![p][0].damage == p.damage);
}

proof fn lemma_next_use(e: SkillEntryModel, uses: Seq<ParsedDamagePacket>, p: ParsedDamagePacket)
    requires
        tells_of(e, uses),
    ensures
        tells_of(e.hit(p), uses.push(p)),
{
    lemma_counts_further(e, uses, p);
    let all = uses.push(p);
    let after = e.hit(p);
    assert(all[uses.len() as int] == p);
    assert forall|i: int| 0 <= i < all.len() implies (#[trigger] all[i]).damage <= after.max_dmg
        && after.min_dmg <= all[i].damage by {
        if i < uses.len() {
            assert(all[i] == uses[i]);
        }
    }
    if after.max_dmg != 0 && after.max_dmg != p.damage {
        let i = choose|i: int| 0 <= i < uses.len() && (#[trigger] uses[i]).damage == e.max_dmg;
        assert(all[i].damage == after.max_dmg);
    }
    if after.min_dmg != p.damage {
        let i = choose|i: int| 0 <= i < uses.len() && (#[trigger] uses[i]).damage == e.min_dmg;
        assert(all[i].damage == after.min_dmg);
    }
    assert forall|i: int| 0 <= i < all.len() implies #[trigger] after.hit_timestamps[i]
        == all[i].timestamp by {
        if i < uses.len() {
            assert(after.hit_timestamps[i] == e.hit_timestamps[i]);
            assert(all[i] == uses[i]);
        }
    }
    assert(all[0] == uses[0]);
}

/// Whether the entries are those of the events: each tells of its player's uses of its skill, and
/// every event that is looked at has an entry.
spec fn entries_are_right(
    entries: Seq<SkillEntryModel>,
    ps: Seq<ParsedDamagePacket>,
    lens: Lens,
) -> bool {
    &&& forall|i: int|
        0 <= i < entries.len() ==> {
            let e = #[trigger] entries[i];
            &&& 0 <= e.code < 1_000_000_000
            &&& tells_of(e, lens.uses(ps, e.actor_id, e.code, e.is_dot))
            &&& e.name == skill_label(e.code, e.is_dot, lens.game)
            &&& e.job == lens.game.jobs.job_name_of(e.code)
        }
    &&& forall|k: int|
        0 <= k < ps.len() && lens.sees(#[trigger] ps[k]) ==> has_entry(
            entries,
            lens.player_of(ps[k]),
            lens.skill_of(ps[k]),
            ps[k].is_dot,
        )
}

/// Whether there is an entry for the player's skill.
pub open spec fn has_entry(
    entries: Seq<SkillEntryModel>,
    player: i32,
    code: i32,
    is_dot: bool,
) -> bool {
    exists|i: int|
        0 <= i < entries.len() && (#[trigger] entries[i]).actor_id == player && entries[i].code
            == code && entries[i].is_dot == is_dot
}

/// The name to show for a skill: that of damage over time says so.
pub open spec fn skill_label(code: i32, is_dot: bool, game: GameData) -> Seq<char> {
    let name = game.skills.shown_name_of(code);
    if is_dot && name.len() > 0 {
        name + " - DOT"@
    } else {
        name
    }
}

proof fn lemma_keys_apart(a: i32, a_dot: bool, b: i32, b_dot: bool)
    requires
        0 <= a < 1_000_000_000,
        0 <= b < 1_000_000_000,
    ensures
        target_details::entry_key(a, a_dot) == target_details::entry_key(b, b_dot) <==> a == b
            && a_dot == b_dot,
{
}

proof fn lemma_other_use(
    ps: Seq<ParsedDamagePacket>,
    p: ParsedDamagePacket,
    lens: Lens,
    player: i32,
    code: i32,
    is_dot: bool,
)
    ensures
        lens.uses(ps.push(p), player, code, is_dot) == if lens.is_use(p, player, code, is_dot) {
            lens.uses(ps, player, code, is_dot).push(p)
        } else {
            lens.uses(ps, player, code, is_dot)
        },
{
    tallies::lemma_filter_push(
        ps,
        p,
        |q: ParsedDamagePacket| lens.is_use(q, player, code, is_dot),
    );
}

proof fn lemma_no_use_without_entry(
    entries: Seq<SkillEntryModel>,
    ps: Seq<ParsedDamagePacket>,
    lens: Lens,
    player: i32,
    code: i32,
    is_dot: bool,
)
    requires
        entries_are_right(entries, ps, lens),
        !has_entry(entries, player, code, is_dot),
    ensures
        lens.uses(ps, player, code, is_dot).len() == 0,
{
    let fits = |q: ParsedDamagePacket| lens.is_use(q, player, code, is_dot);
    tallies::lemma_filter_holds(ps, fits);
    let uses = lens.uses(ps, player, code, is_dot);
    if uses.len() > 0 {
        assert(uses.contains(uses[0]));
        let k = ps.index_of(uses[0]);
        assert(lens.sees(ps[k]));
    }
}

proof fn lemma_event_entered(
    before: Seq<SkillEntryModel>,
    ps: Seq<ParsedDamagePacket>,
    p: ParsedDamagePacket,
    lens: Lens,
)
    requires
        entries_are_right(before, ps, lens),
        details_laws::entries_are_distinct(before),
        lens.sees(p),
        0 <= lens.skill_of(p) < 1_000_000_000,
    ensures
        entries_are_right(
            target_details::with_event(before, lens.player_of(p), p, lens.game),
            ps.push(p),
            lens,
        ),
{
    let uid = lens.player_of(p);
    let code = lens.skill_of(p);
    let key = target_details::entry_key(code, p.is_dot);
    let place = target_details::entry_place(before, uid, key);
    let after = target_details::with_event(before, uid, p, lens.game);
    let all = ps.push(p);
    details_laws::lemma_entry_place(before, uid, key);
    assert forall|i: int| 0 <= i < before.len() implies (details_laws::is_entry(
        #[trigger] before[i],
        uid,
        key,
    ) <==> lens.is_use(p, before[i].actor_id, before[i].code, before[i].is_dot)) by {
        lemma_keys_apart(before[i].code, before[i].is_dot, code, p.is_dot);
    }
    assert forall|i: int| 0 <= i < before.len() && i != place implies !details_laws::is_entry(
        #[trigger] before[i],
        uid,
        key,
    ) by {
        if place < i {
            assert(!details_laws::is_entry(
                before[place],
                before[i].actor_id,
                target_details::entry_key(before[i].code, before[i].is_dot),
            ));
        }
    }
    if place == before.len() {
        if has_entry(before, uid, code, p.is_dot) {
            let i = choose|i: int|
                0 <= i < before.len() && (#[trigger] before[i]).actor_id == uid && before[i].code
                    == code && before[i].is_dot == p.is_dot;
            assert(details_laws::is_entry(before[i], uid, key));
        }
        lemma_no_use_without_entry(before, ps, lens, uid, code, p.is_dot);
        lemma_other_use(ps, p, lens, uid, code, p.is_dot);
        assert(lens.uses(ps, uid, code, p.is_dot) =~= Seq::empty());
        assert(lens.uses(all, uid, code, p.is_dot) =~= seq![p]);
        let fresh = SkillEntryModel::unused(
            uid,
            code,
            target_details::entry_name(code, p.is_dot, lens.game),
            lens.game.jobs.job_name_of(code),
            p.is_dot,
            p.spec_flags@,
        );
        lemma_no_counts(fresh);
        lemma_first_use(fresh, p);
        assert(after[place] == fresh.hit(p));
    } else {
        let e = before[place];
        assert(lens.is_use(p, e.actor_id, e.code, e.is_dot));
        lemma_other_use(ps, p, lens, e.actor_id, e.code, e.is_dot);
        lemma_next_use(e, lens.uses(ps, e.actor_id, e.code, e.is_dot), p);
    }
    assert forall|i: int| 0 <= i < after.len() implies ({
        let e = #[trigger] after[i];
        &&& 0 <= e.code < 1_000_000_000
        &&& tells_of(e, lens.uses(all, e.actor_id, e.code, e.is_dot))
        &&& e.name == skill_label(e.code, e.is_dot, lens.game)
        &&& e.job == lens.game.jobs.job_name_of(e.code)
    }) by {
        if i != place {
            assert(after[i] == before[i]);
            lemma_other_use(ps, p, lens, before[i].actor_id, before[i].code, before[i].is_dot);
        }
    }
    assert forall|k: int| 0 <= k < all.len() && lens.sees(#[trigger] all[k]) implies has_entry(
        after,
        lens.player_of(all[k]),
        lens.skill_of(all[k]),
        all[k].is_dot,
    ) by {
        if k < ps.len() {
            assert(all[k] == ps[k]);
            let i = choose|i: int|
                0 <= i < before.len() && (#[trigger] before[i]).actor_id == lens.player_of(ps[k])
                    && before[i].code == lens.skill_of(ps[k]) && before[i].is_dot == ps[k].is_dot;
            assert(after[i].actor_id == before[i].actor_id);
        } else {
            assert(after[place].actor_id == uid);
            if place < before.len() {
                lemma_keys_apart(before[place].code, before[place].is_dot, code, p.is_dot);
            }
        }
    }
}

proof fn lemma_entries(ps: Seq<ParsedDamagePacket>, lens: Lens)
    requires
        lens.codes_are_plain(ps),
    ensures
        entries_are_right(
            target_details::skill_entries(ps, lens.ids, lens.naming, lens.owners, lens.game),
            ps,
            lens,
        ),
    decreases ps.len(),
{
    if ps.len() > 0 {
        let front = ps.drop_last();
        let p = ps.last();
        assert(ps =~= front.push(p));
        assert(ps[ps.len() - 1] == p);
        assert forall|i: int| 0 <= i < front.len() implies 0 <= lens.skill_of(#[trigger] front[i])
            < 1_000_000_000 by {
            assert(ps[i] == front[i]);
        }
        lemma_entries(front, lens);
        details_laws::lemma_entries_distinct(
            front,
            lens.ids,
            lens.naming,
            lens.owners,
            lens.game,
        );
        let before = target_details::skill_entries(
            front,
            lens.ids,
            lens.naming,
            lens.owners,
            lens.game,
        );
        if lens.sees(p) {
            lemma_event_entered(before, front, p, lens);
        } else {
            assert forall|i: int| 0 <= i < before.len() implies lens.uses(
                ps,
                (#[trigger] before[i]).actor_id,
                before[i].code,
                before[i].is_dot,
            ) == lens.uses(front, before[i].actor_id, before[i].code, before[i].is_dot) by {
                lemma_other_use(front, p, lens, before[i].actor_id, before[i].code, before[i].is_dot);
            }
            assert forall|k: int| 0 <= k < ps.len() && lens.sees(#[trigger] ps[k]) implies has_entry(
                before,
                lens.player_of(ps[k]),
                lens.skill_of(ps[k]),
                ps[k].is_dot,
            ) by {
                assert(front[k] == ps[k]);
            }
        }
    }
}

/// The lens through which the details of a fight look at its events.
pub open spec fn lens_of(
    ps: Seq<ParsedDamagePacket>,
    ids: Option<Seq<i32>>,
    storage: StorageModel,
    game: GameData,
) -> Lens {
    let naming = target_details::naming_in(ps, storage);
    Lens {
        ids,
        naming,
        owners: target_details::owners_by_class(
            ps,
            target_details::classes_by_player(ps, naming, game.jobs),
            naming,
            game.jobs,
        ),
        game,
    }
}

/// Each entry in the details of a fight tells of its player's uses of its skill, and of nothing
/// else: how many there are, their damage as a whole, how many were critical or carried each mark,
/// how many hit more than once and how, what they healed, the largest and the smallest hit, and
/// when each came after the start of the fight. Every use that is looked at has an entry. A
/// smallest hit as large as can be is shown as none.
pub proof fn law_an_entry_tells_of_its_uses(
    target: i32,
    ps: Seq<ParsedDamagePacket>,
    ids: Option<Seq<i32>>,
    storage: StorageModel,
    game: GameData,
    pings: Seq<PingPoint>,
    i: int,
)
    requires
        lens_of(ps, ids, storage, game).codes_are_plain(ps),
        0 <= i < target_details::fight_details(target, ps, ids, storage, game, pings).skills.len(),
    ensures
        ({
            let details = target_details::fight_details(target, ps, ids, storage, game, pings);
            let lens = lens_of(ps, ids, storage, game);
            let e = details.skills[i];
            let uses = lens.uses(ps, e.actor_id, e.code, e.is_dot);
            &&& uses.len() > 0
            &&& counts(e, uses)
            &&& is_largest_hit(e.max_dmg, uses)
            &&& is_smallest_hit(e.min_dmg, uses) || (e.min_dmg == 0 && is_smallest_hit(
                i32::MAX,
                uses,
            ))
            &&& e.hit_timestamps.len() == uses.len()
            &&& forall|k: int|
                0 <= k < uses.len() ==> #[trigger] e.hit_timestamps[k]
                    == uses[k].timestamp.wrapping_sub(details.start_time)
            &&& e.specs == uses[0].spec_flags@
            &&& e.name == skill_label(e.code, e.is_dot, game)
            &&& e.job == game.jobs.job_name_of(e.code)
        }),
        ({
            let details = target_details::fight_details(target, ps, ids, storage, game, pings);
            let lens = lens_of(ps, ids, storage, game);
            forall|k: int|
                0 <= k < ps.len() && lens.sees(#[trigger] ps[k]) ==> has_entry(
                    details.skills,
                    lens.player_of(ps[k]),
                    lens.skill_of(ps[k]),
                    ps[k].is_dot,
                )
        }),
{
    let lens = lens_of(ps, ids, storage, game);
    let details = target_details::fight_details(target, ps, ids, storage, game, pings);
    let entries = target_details::skill_entries(ps, ids, lens.naming, lens.owners, game);
    lemma_entries(ps, lens);
    assert(details.skills[i] == entries[i].shown(details.start_time));
    assert forall|k: int| 0 <= k < ps.len() && lens.sees(#[trigger] ps[k]) implies has_entry(
        details.skills,
        lens.player_of(ps[k]),
        lens.skill_of(ps[k]),
        ps[k].is_dot,
    ) by {
        let j = choose|j: int|
            0 <= j < entries.len() && (#[trigger] entries[j]).actor_id == lens.player_of(ps[k])
                && entries[j].code == lens.skill_of(ps[k]) && entries[j].is_dot == ps[k].is_dot;
        assert(details.skills[j] == entries[j].shown(details.start_time));
    }
}

/// Whether the event is that of a player.
pub open spec fn is_players(p: ParsedDamagePacket, summons: Map<i32, i32>) -> bool {
    summon_resolver::resolved(p.actor_id, summons) > 0
}

/// Whether the span is that of the events: their damage as a whole, the time of the earliest and
/// that of the latest.
spec fn spans(span: target_details::Span, ps: Seq<ParsedDamagePacket>) -> bool {
    &&& sums::same_count32(span.total as int, tallies::damage_sum(ps))
    &&& span.start is Some <==> ps.len() > 0
    &&& span.end is Some <==> ps.len() > 0
    &&& ps.len() > 0 ==> target_laws::is_earliest(span.start->0, ps) && target_laws::is_latest(
        span.end->0,
        ps,
    )
}

proof fn lemma_span(ps: Seq<ParsedDamagePacket>, summons: Map<i32, i32>)
    ensures
        spans(
            target_details::span_of(ps, summons),
            ps.filter(|p: ParsedDamagePacket| is_players(p, summons)),
        ),
    decreases ps.len(),
{
    let fits = |p: ParsedDamagePacket| is_players(p, summons);
    reveal(Seq::filter);
    if ps.len() > 0 {
        let front = ps.drop_last();
        let p = ps.last();
        lemma_span(front, summons);
        assert(ps =~= front.push(p));
        tallies::lemma_filter_push(front, p, fits);
        let before = front.filter(fits);
        let span = target_details::span_of(front, summons);
        if fits(p) {
            tallies::lemma_sum_push(before, p, |q: ParsedDamagePacket| q.total_damage as int);
            if before.len() > 0 {
                target_laws::lemma_latest_push(span.end->0, before, p);
                target_laws::lemma_earliest_push(span.start->0, before, p);
            } else {
                assert(before.push(p)[0].timestamp == p.timestamp);
            }
        }
    }
}

/// The details of a fight tell of the events of players: their damage as a whole, when the earliest
/// came, and how long after it the latest. The pings are those taken in that time, and are told by
/// the time since its start.
pub proof fn law_the_details_tell_of_the_fight(
    target: i32,
    ps: Seq<ParsedDamagePacket>,
    ids: Option<Seq<i32>>,
    storage: StorageModel,
    game: GameData,
    pings: Seq<PingPoint>,
    end: i64,
)
    requires
        forall|i: int| 0 <= i < ps.len() ==> (#[trigger] ps[i]).timestamp >= 0,
        ({
            let all = ps.filter(|p: ParsedDamagePacket| is_players(p, storage.summons));
            all.len() > 0 ==> target_laws::is_latest(end, all)
        }),
    ensures
        ({
            let details = target_details::fight_details(target, ps, ids, storage, game, pings);
            let all = ps.filter(|p: ParsedDamagePacket| is_players(p, storage.summons));
            let start = details.start_time;
            let taken = pings.filter(|s: PingPoint| start <= s.ts_ms <= end);
            &&& details.target_id == target
            &&& details.max_hp == if storage.mob_hp.contains_key(target) {
                storage.mob_hp[target]
            } else {
                0
            }
            &&& sums::same_count32(details.total_target_damage as int, tallies::damage_sum(all))
            &&& all.len() > 0 ==> {
                &&& target_laws::is_earliest(start, all)
                &&& details.battle_time == end - start
                &&& details.ping_history.len() == taken.len()
                &&& forall|k: int|
                    0 <= k < taken.len() ==> (#[trigger] details.ping_history[k]).ping_ms
                        == taken[k].ping_ms && details.ping_history[k].ts_ms == taken[k].ts_ms
                        - start
            }
            &&& all.len() == 0 ==> start == 0 && details.battle_time == 0
                && details.ping_history.len() == 0
        }),
{
    lemma_span(ps, storage.summons);
    let details = target_details::fight_details(target, ps, ids, storage, game, pings);
    let all = ps.filter(|p: ParsedDamagePacket| is_players(p, storage.summons));
    let start = details.start_time;
    let taken = pings.filter(|s: PingPoint| start <= s.ts_ms <= end);
    tallies::lemma_filter_holds(ps, |p: ParsedDamagePacket| is_players(p, storage.summons));
    if all.len() > 0 {
        let i = choose|i: int| 0 <= i < all.len() && (#[trigger] all[i]).timestamp == start;
        assert(all.contains(all[i]));
        assert(ps[ps.index_of(all[i])].timestamp >= 0);
        let j = choose|j: int| 0 <= j < all.len() && (#[trigger] all[j]).timestamp == end;
        assert(start <= all[j].timestamp);
        tallies::lemma_filter_holds(pings, |s: PingPoint| start <= s.ts_ms <= end);
        assert forall|k: int| 0 <= k < taken.len() implies (
        #[trigger] details.ping_history[k]).ping_ms == taken[k].ping_ms
            && details.ping_history[k].ts_ms == taken[k].ts_ms - start by {
            assert(taken.contains(taken[k]));
        }
    }
}

/// A sample stands among those of a stretch of time just where it was taken in it, its first and
/// its last moment included.
pub proof fn law_pings_are_those_in_between(
    samples: Seq<PingPoint>,
    start: i64,
    end: i64,
    s: PingPoint,
)
    ensures
        ping_tracker::pings_between(samples, start, end).contains(s) <==> samples.contains(s)
            && start <= s.ts_ms && s.ts_ms <= end,
{
    tallies::lemma_filter_holds(samples, |p: PingPoint| start <= p.ts_ms <= end);
}

/// Whether the event is the first of the one who did it.
pub open spec fn is_first_deed(
    ps: Seq<ParsedDamagePacket>,
    k: int,
    id: i32,
    summons: Map<i32, i32>,
) -> bool {
    &&& 0 <= k < ps.len()
    &&& summon_resolver::resolved(ps[k].actor_id, summons) == id
    &&& forall|j: int|
        0 <= j < k ==> summon_resolver::resolved((#[trigger] ps[j]).actor_id, summons) != id
}

proof fn lemma_first_skill(
    ps: Seq<ParsedDamagePacket>,
    k: int,
    id: i32,
    summons: Map<i32, i32>,
)
    requires
        is_first_deed(ps, k, id, summons),
    ensures
        target_details::first_skill(ps, id, summons) == Some(ps[k].skill_code),
    decreases ps.len(),
{
    let front = ps.drop_last();
    if k < front.len() {
        assert(front[k] == ps[k]);
        assert forall|j: int| 0 <= j < k implies summon_resolver::resolved(
            (#[trigger] front[j]).actor_id,
            summons,
        ) != id by {
            assert(front[j] == ps[j]);
        }
        lemma_first_skill(front, k, id, summons);
    } else {
        assert forall|j: int| 0 <= j < front.len() implies summon_resolver::resolved(
            (#[trigger] front[j]).actor_id,
            summons,
        ) != id by {
            assert(front[j] == ps[j]);
        }
        lemma_no_first_skill(front, id, summons);
    }
}

proof fn lemma_no_first_skill(ps: Seq<ParsedDamagePacket>, id: i32, summons: Map<i32, i32>)
    requires
        forall|j: int|
            0 <= j < ps.len() ==> summon_resolver::resolved((#[trigger] ps[j]).actor_id, summons)
                != id,
    ensures
        target_details::first_skill(ps, id, summons) is None,
    decreases ps.len(),
{
    if ps.len() > 0 {
        let front = ps.drop_last();
        assert(summon_resolver::resolved(ps[ps.len() - 1].actor_id, summons) != id);
        assert forall|j: int| 0 <= j < front.len() implies summon_resolver::resolved(
            (#[trigger] front[j]).actor_id,
            summons,
        ) != id by {
            assert(front[j] == ps[j]);
        }
        lemma_no_first_skill(front, id, summons);
    }
}

/// Whether the owner is the only one with a nickname that is of the class, but for the id itself.
pub open spec fn is_only_one_of(
    owner: i32,
    id: i32,
    class: Seq<char>,
    classes: Map<i32, Seq<char>>,
    nicknames: Map<i32, Seq<char>>,
) -> bool {
    &&& owner != id && classes.contains_key(owner) && classes[owner] == class
        && nicknames.contains_key(owner)
    &&& forall|o: i32| #[trigger]
        classes.contains_key(o) && o != id && o != owner && nicknames.contains_key(o)
            ==> classes[o] != class
}

/// The uses of one that is linked to no one and has no nickname are shown under the only player
/// with a nickname of the class that its first skill hints at. One that is linked, has a nickname,
/// or whose first skill hints at no class is shown under its own name.
pub proof fn law_whose_uses_are_shown_under_another(
    ps: Seq<ParsedDamagePacket>,
    naming: Naming,
    jobs: JobTable,
    id: i32,
    k: int,
    owner: i32,
)
    requires
        id > 0,
        is_first_deed(ps, k, id, naming.summons),
    ensures
        ({
            let classes = target_details::classes_by_player(ps, naming, jobs);
            let owners = target_details::owners_by_class(ps, classes, naming, jobs);
            let hint = jobs.loose_job_of(ps[k].skill_code);
            let own = names::counted_under(
                id,
                naming.canonical,
                naming.nicknames,
                naming.summons,
            );
            &&& naming.summons.contains_key(id) || naming.nicknames.contains_key(id) || hint is None
                ==> target_details::shown_under(id, naming, owners) == own
            &&& !naming.summons.contains_key(id) && !naming.nicknames.contains_key(id)
                && hint is Some && is_only_one_of(
                owner,
                id,
                jobs.name_of(hint->0),
                classes,
                naming.nicknames,
            ) ==> target_details::shown_under(id, naming, owners) == names::counted_under(
                owner,
                naming.canonical,
                naming.nicknames,
                naming.summons,
            )
            &&& (forall|o: i32|
                !(#[trigger] is_only_one_of(
                    o,
                    id,
                    jobs.name_of(hint->0),
                    classes,
                    naming.nicknames,
                ))) ==> target_details::shown_under(id, naming, owners) == own
        }),
{
    lemma_first_skill(ps, k, id, naming.summons);
    let classes = target_details::classes_by_player(ps, naming, jobs);
    let class = jobs.name_of(jobs.loose_job_of(ps[k].skill_code)->0);
    let ns = naming.nicknames;
    if is_only_one_of(owner, id, class, classes, ns) {
        assert(meter::is_sole_owner(owner, id, class, classes, ns)) by {
            assert forall|o: i32| #[trigger]
                classes.contains_key(o) && o != id && classes[o] == class && ns.contains_key(o)
                    <==> o == owner by {
                assert(classes.contains_key(owner));
            }
        }
        let w = choose|o: i32| meter::is_sole_owner(o, id, class, classes, ns);
        assert(meter::is_sole_owner(w, id, class, classes, ns));
        assert(classes.contains_key(owner));
    }
    if meter::sole_owner(id, class, classes, ns) is Some {
        let w = meter::sole_owner(id, class, classes, ns)->0;
        assert(meter::is_sole_owner(w, id, class, classes, ns));
        assert(classes.contains_key(w));
        assert(is_only_one_of(w, id, class, classes, ns)) by {
            assert forall|o: i32| #[trigger]
                classes.contains_key(o) && o != id && o != w && ns.contains_key(o) implies classes[o]
                != class by {}
        }
    }
}

/// Whether the event is the first of a player's, by the id it is counted under, whose skill gives
/// its class away.
pub open spec fn shows_class_first(
    ps: Seq<ParsedDamagePacket>,
    k: int,
    uid: i32,
    naming: Naming,
    jobs: JobTable,
) -> bool {
    &&& 0 <= k < ps.len()
    &&& shows_class_of(ps[k], uid, naming, jobs)
    &&& forall|j: int| 0 <= j < k ==> !shows_class_of(#[trigger] ps[j], uid, naming, jobs)
}

/// Whether the event is a player's that is counted under the id, and its skill gives its class away.
pub open spec fn shows_class_of(
    p: ParsedDamagePacket,
    uid: i32,
    naming: Naming,
    jobs: JobTable,
) -> bool {
    let raw = summon_resolver::resolved(p.actor_id, naming.summons);
    raw > 0 && names::counted_under(raw, naming.canonical, naming.nicknames, naming.summons) == uid
        && jobs.job_of(p.skill_code) is Some
}

/// The class of a player in a fight is that of the first of its events whose skill gives it away;
/// one without such an event has none.
pub proof fn law_the_first_telling_skill_gives_the_class(
    ps: Seq<ParsedDamagePacket>,
    naming: Naming,
    jobs: JobTable,
    uid: i32,
)
    ensures
        ({
            let classes = target_details::classes_by_player(ps, naming, jobs);
            &&& forall|k: int| #[trigger]
                shows_class_first(ps, k, uid, naming, jobs) ==> classes.contains_key(uid)
                    && classes[uid] == jobs.job_name_of(ps[k].skill_code)
            &&& (forall|k: int|
                0 <= k < ps.len() ==> !shows_class_of(#[trigger] ps[k], uid, naming, jobs))
                ==> !classes.contains_key(uid)
        }),
    decreases ps.len(),
{
    if ps.len() > 0 {
        let front = ps.drop_last();
        let n = ps.len() - 1;
        law_the_first_telling_skill_gives_the_class(front, naming, jobs, uid);
        assert(ps[n] == ps.last());
        let classes = target_details::classes_by_player(ps, naming, jobs);
        if forall|k: int|
            0 <= k < ps.len() ==> !shows_class_of(#[trigger] ps[k], uid, naming, jobs) {
            assert forall|k: int| 0 <= k < front.len() implies !shows_class_of(
                #[trigger] front[k],
                uid,
                naming,
                jobs,
            ) by {
                assert(front[k] == ps[k]);
            }
            assert(!shows_class_of(ps[n], uid, naming, jobs));
        }
        assert forall|k: int| #[trigger]
            shows_class_first(ps, k, uid, naming, jobs) implies classes.contains_key(uid)
            && classes[uid] == jobs.job_name_of(ps[k].skill_code) by {
            assert forall|j: int| 0 <= j < k && j < front.len() implies !shows_class_of(
                #[trigger] front[j],
                uid,
                naming,
                jobs,
            ) by {
                assert(front[j] == ps[j]);
            }
            if k < n {
                assert(front[k] == ps[k]);
                assert(shows_class_first(front, k, uid, naming, jobs));
            }
        }
    }
}

/// Where no one is picked, everyone is looked at; where some are, just those, and those that are
/// shown under the same id as one of them.
pub proof fn law_who_is_looked_at(
    raw: i32,
    picked: Seq<i32>,
    naming: Naming,
    owners: Map<i32, i32>,
    i: int,
)
    ensures
        target_details::asked_for(raw, None, naming, owners),
        picked.contains(raw) ==> target_details::asked_for(raw, Some(picked), naming, owners),
        0 <= i < picked.len() && names::counted_under(
            picked[i],
            naming.canonical,
            naming.nicknames,
            naming.summons,
        ) == target_details::shown_under(raw, naming, owners) ==> target_details::asked_for(
            raw,
            Some(picked),
            naming,
            owners,
        ),
        picked.len() == 0 ==> !target_details::asked_for(raw, Some(picked), naming, owners),
        picked.len() == 1 && picked[0] != raw && names::counted_under(
            picked[0],
            naming.canonical,
            naming.nicknames,
            naming.summons,
        ) != target_details::shown_under(raw, naming, owners) ==> !target_details::asked_for(
            raw,
            Some(picked),
            naming,
            owners,
        ),
{
}

} // verus!
