//! How long the connection takes to answer.
use crate::entity::details_context::PingPoint;
use vstd::prelude::*;

verus! {

/// The samples taken from `start` to `end`, both included.
pub open spec fn pings_between(samples: Seq<PingPoint>, start: i64, end: i64) -> Seq<PingPoint> {
    samples.filter(|s: PingPoint| start <= s.ts_ms <= end)
}

/// The samples of a connection, oldest first.
#[derive(Debug)]
pub struct PingTracker {
    pub samples: Vec<PingPoint>,
}

impl PingTracker {
    /// A connection without samples.
    pub fn new() -> (r: Self)
        ensures
            r.samples@ == Seq::<PingPoint>::empty(),
    {
        PingTracker { samples: Vec::new() }
    }

    /// Takes in a sample.
    pub fn record(&mut self, ts_ms: i64, ping_ms: i32)
        ensures
            final(self).samples@ == old(self).samples@.push(PingPoint { ts_ms, ping_ms }),
    {
        self.samples.push(PingPoint { ts_ms, ping_ms });
    }

    /// Forgets all samples.
    pub fn reset(&mut self)
        ensures
            final(self).samples@ == Seq::<PingPoint>::empty(),
    {
        self.samples.clear();
    }

    /// How long the last answer took.
    pub fn current_ping_ms(&self) -> (r: Option<i32>)
        ensures
            r == (if self.samples@.len() == 0 {
                None
            } else {
                Some(self.samples@.last().ping_ms)
            }),
    {
        if self.samples.len() == 0 {
            None
        } else {
            Some(self.samples[self.samples.len() - 1].ping_ms)
        }
    }

    /// The samples taken from `start` to `end`, both included.
    pub fn get_ping_history(&self, start: i64, end: i64) -> (r: Vec<PingPoint>)
        ensures
            r@ == pings_between(self.samples@, start, end),
    {
        let ghost within = |s: PingPoint| start <= s.ts_ms <= end;
        let mut r: Vec<PingPoint> = Vec::new();
        let mut i: usize = 0;
        reveal(Seq::filter);
        while i < self.samples.len()
            invariant
                i <= self.samples@.len(),
                within == (|s: PingPoint| start <= s.ts_ms <= end),
                r@ == self.samples@.take(i as int).filter(within),
            decreases self.samples@.len() - i,
        {
            reveal(Seq::filter);
            assert(self.samples@.take(i + 1).drop_last() =~= self.samples@.take(i as int));
            assert(self.samples@.take(i + 1).last() == self.samples@[i as int]);
            let s: PingPoint = self.samples[i];
            if start <= s.ts_ms && s.ts_ms <= end {
                r.push(s);
            }
            i += 1;
        }
        assert(self.samples@.take(i as int) =~= self.samples@);
        r
    }
}

} // verus!
