//! Counting things, and adding up what they amount to.
use crate::entity::damage_packet::ParsedDamagePacket;
use vstd::prelude::*;

verus! {

/// What the elements of a sequence amount to together.
pub open spec fn sum_by<T>(s: Seq<T>, amount: spec_fn(T) -> int) -> int
    decreases s.len(),
{
    if s.len() == 0 {
        0
    } else {
        sum_by(s.drop_last(), amount) + amount(s.last())
    }
}

/// The damage of the events as a whole.
pub open spec fn damage_sum(ps: Seq<ParsedDamagePacket>) -> int {
    sum_by(ps, |p: ParsedDamagePacket| p.total_damage as int)
}

/// How many elements fit.
pub open spec fn count<T>(s: Seq<T>, fits: spec_fn(T) -> bool) -> int {
    s.filter(fits).len() as int
}

/// One more element adds what it amounts to.
pub proof fn lemma_sum_push<T>(s: Seq<T>, e: T, amount: spec_fn(T) -> int)
    ensures
        sum_by(s.push(e), amount) == sum_by(s, amount) + amount(e),
{
    assert(s.push(e).drop_last() =~= s);
}

/// What two sequences amount to together is what each amounts to.
pub proof fn lemma_sum_joined<T>(a: Seq<T>, b: Seq<T>, amount: spec_fn(T) -> int)
    ensures
        sum_by(a + b, amount) == sum_by(a, amount) + sum_by(b, amount),
    decreases b.len(),
{
    if b.len() == 0 {
        assert(a + b =~= a);
    } else {
        lemma_sum_joined(a, b.drop_last(), amount);
        assert((a + b).drop_last() =~= a + b.drop_last());
    }
}

/// One more element is counted where it fits, and kept by the filter.
pub proof fn lemma_filter_push<T>(s: Seq<T>, e: T, fits: spec_fn(T) -> bool)
    ensures
        s.push(e).filter(fits) == if fits(e) {
            s.filter(fits).push(e)
        } else {
            s.filter(fits)
        },
        count(s.push(e), fits) == count(s, fits) + if fits(e) {
            1int
        } else {
            0
        },
{
    reveal(Seq::filter);
    assert(s.push(e).drop_last() =~= s);
}

/// A filter that lets nothing else through keeps elements that are there, and fit.
pub proof fn lemma_filter_holds<T>(s: Seq<T>, fits: spec_fn(T) -> bool)
    ensures
        forall|x: T| #[trigger] s.filter(fits).contains(x) <==> s.contains(x) && fits(x),
        s.filter(fits).len() <= s.len(),
    decreases s.len(),
{
    reveal(Seq::filter);
    if s.len() > 0 {
        let front = s.drop_last();
        lemma_filter_holds(front, fits);
        let kept = front.filter(fits);
        assert(s =~= front.push(s.last()));
        assert forall|x: T| #[trigger] s.filter(fits).contains(x) <==> s.contains(x) && fits(x) by {
            assert(kept.contains(x) <==> front.contains(x) && fits(x));
            if front.contains(x) {
                assert(s[front.index_of(x)] == x);
            }
            if s.contains(x) && x != s.last() {
                assert(front[s.index_of(x)] == x);
            }
            assert(s[s.len() - 1] == s.last());
            if fits(s.last()) {
                let all = kept.push(s.last());
                if kept.contains(x) {
                    assert(all[kept.index_of(x)] == x);
                }
                assert(all[kept.len() as int] == s.last());
                if all.contains(x) && x != s.last() {
                    assert(kept[all.index_of(x)] == x);
                }
            }
        }
    }
}

} // verus!
