//! Finding and splitting in stretches of bytes and of characters.
use vstd::prelude::*;

verus! {

/// Where the element first stands.
pub open spec fn first_at<T>(b: Seq<T>, c: T) -> Option<int>
    decreases b.len(),
{
    if b.len() == 0 {
        None
    } else {
        match first_at(b.drop_last(), c) {
            Some(i) => Some(i),
            None => if b.last() == c {
                Some(b.len() - 1)
            } else {
                None
            },
        }
    }
}

/// Where the element last stands.
pub open spec fn last_at<T>(b: Seq<T>, c: T) -> Option<int>
    decreases b.len(),
{
    if b.len() == 0 {
        None
    } else if b.last() == c {
        Some(b.len() - 1)
    } else {
        last_at(b.drop_last(), c)
    }
}

/// The pieces between the separators; one more than there are separators.
pub open spec fn pieces<T>(b: Seq<T>, separator: T) -> Seq<Seq<T>>
    decreases b.len(),
{
    if b.len() == 0 {
        seq![Seq::empty()]
    } else {
        let before = pieces(b.drop_last(), separator);
        if b.last() == separator {
            before.push(Seq::empty())
        } else {
            before.update(before.len() - 1, before.last().push(b.last()))
        }
    }
}

/// A stretch of a sequence, from `lo` up to but not including `hi`.
#[derive(Debug, Clone, Copy)]
pub struct Stretch {
    pub lo: usize,
    pub hi: usize,
}

impl Stretch {
    /// Whether the stretch lies in a sequence of the given length.
    pub open spec fn fits(self, len: nat) -> bool {
        self.lo <= self.hi <= len
    }

    /// What stands in the stretch.
    pub open spec fn of<T>(self, b: Seq<T>) -> Seq<T> {
        b.subrange(self.lo as int, self.hi as int)
    }
}

/// Where the byte first stands in the stretch.
pub fn find_first(b: &[u8], s: Stretch, c: u8) -> (r: Option<usize>)
    requires
        s.fits(b@.len()),
    ensures
        match r {
            Some(i) => s.lo <= i < s.hi && first_at(s.of(b@), c) == Some(i - s.lo),
            None => first_at(s.of(b@), c) is None,
        },
{
    let ghost t = s.of(b@);
    let mut found: Option<usize> = None;
    let mut i: usize = s.lo;
    while i < s.hi
        invariant
            s.fits(b@.len()),
            t == s.of(b@),
            s.lo <= i <= s.hi,
            match found {
                Some(k) => s.lo <= k < i && first_at(t.take(i - s.lo), c) == Some(k - s.lo),
                None => first_at(t.take(i - s.lo), c) is None,
            },
        decreases s.hi - i,
    {
        assert(t.take(i - s.lo + 1).drop_last() =~= t.take(i - s.lo));
        assert(t.take(i - s.lo + 1).last() == b@[i as int]);
        if found.is_none() && b[i] == c {
            found = Some(i);
        }
        i += 1;
    }
    assert(t.take(s.hi - s.lo) =~= t);
    found
}

/// Where the byte last stands in the stretch.
pub fn find_last(b: &[u8], s: Stretch, c: u8) -> (r: Option<usize>)
    requires
        s.fits(b@.len()),
    ensures
        match r {
            Some(i) => s.lo <= i < s.hi && last_at(s.of(b@), c) == Some(i - s.lo),
            None => last_at(s.of(b@), c) is None,
        },
{
    let ghost t = s.of(b@);
    let mut i: usize = s.hi;
    assert(t.take(s.hi - s.lo) =~= t);
    while i > s.lo
        invariant
            s.fits(b@.len()),
            t == s.of(b@),
            s.lo <= i <= s.hi,
            last_at(t, c) == last_at(t.take(i - s.lo), c),
        decreases i,
    {
        assert(t.take(i - s.lo).drop_last() =~= t.take(i - s.lo - 1));
        assert(t.take(i - s.lo).last() == b@[i - 1]);
        if b[i - 1] == c {
            return Some(i - 1);
        }
        i -= 1;
    }
    None
}

/// The pieces of the stretch between the separators.
pub fn split(b: &[u8], s: Stretch, separator: u8) -> (r: Vec<Stretch>)
    requires
        s.fits(b@.len()),
    ensures
        r@.len() == pieces(s.of(b@), separator).len(),
        r@.len() > 0,
        forall|i: int|
            0 <= i < r@.len() ==> (#[trigger] r@[i]).fits(b@.len()) && r@[i].of(b@) == pieces(
                s.of(b@),
                separator,
            )[i],
{
    let ghost t = s.of(b@);
    let mut r: Vec<Stretch> = Vec::new();
    r.push(Stretch { lo: s.lo, hi: s.lo });
    let mut i: usize = s.lo;
    proof {
        assert(t.take(0) =~= Seq::empty());
        assert(r@[0].of(b@) =~= Seq::empty());
    }
    while i < s.hi
        invariant
            s.fits(b@.len()),
            t == s.of(b@),
            s.lo <= i <= s.hi,
            r@.len() == pieces(t.take(i - s.lo), separator).len(),
            r@.len() > 0,
            r@.last().hi == i,
            forall|k: int|
                0 <= k < r@.len() ==> (#[trigger] r@[k]).lo <= r@[k].hi <= i && r@[k].of(b@)
                    == pieces(t.take(i - s.lo), separator)[k],
        decreases s.hi - i,
    {
        let ghost before = r@;
        let ghost old_pieces = pieces(t.take(i - s.lo), separator);
        let ghost new_pieces = pieces(t.take(i - s.lo + 1), separator);
        assert(t.take(i - s.lo + 1).drop_last() =~= t.take(i - s.lo));
        assert(t.take(i - s.lo + 1).last() == b@[i as int]);
        if b[i] == separator {
            r.push(Stretch { lo: i + 1, hi: i + 1 });
            assert(r@.last().of(b@) =~= Seq::empty());
        } else {
            let last: usize = r.len() - 1;
            let lo: usize = r[last].lo;
            r.set(last, Stretch { lo, hi: i + 1 });
            assert(before.last().of(b@) == old_pieces[last as int]);
            assert(r@[last as int].of(b@) =~= old_pieces[last as int].push(b@[i as int]));
        }
        assert forall|k: int| 0 <= k < r@.len() implies (#[trigger] r@[k]).lo <= r@[k].hi <= i + 1
            && r@[k].of(b@) == new_pieces[k] by {
            if k < before.len() - 1 || (k < before.len() && b@[i as int] == separator) {
                assert(r@[k] == before[k]);
            }
        }
        i += 1;
    }
    assert(t.take(s.hi - s.lo) =~= t);
    r
}

/// Where the character first stands in the stretch.
pub fn find_first_char(b: &Vec<char>, s: Stretch, c: char) -> (r: Option<usize>)
    requires
        s.fits(b@.len()),
    ensures
        match r {
            Some(i) => s.lo <= i < s.hi && first_at(s.of(b@), c) == Some(i - s.lo),
            None => first_at(s.of(b@), c) is None,
        },
{
    let ghost t = s.of(b@);
    let mut found: Option<usize> = None;
    let mut i: usize = s.lo;
    while i < s.hi
        invariant
            s.fits(b@.len()),
            t == s.of(b@),
            s.lo <= i <= s.hi,
            match found {
                Some(k) => s.lo <= k < i && first_at(t.take(i - s.lo), c) == Some(k - s.lo),
                None => first_at(t.take(i - s.lo), c) is None,
            },
        decreases s.hi - i,
    {
        assert(t.take(i - s.lo + 1).drop_last() =~= t.take(i - s.lo));
        assert(t.take(i - s.lo + 1).last() == b@[i as int]);
        if found.is_none() && b[i] == c {
            found = Some(i);
        }
        i += 1;
    }
    assert(t.take(s.hi - s.lo) =~= t);
    found
}

/// The pieces of the characters between the separators.
pub fn split_chars(b: &Vec<char>, s: Stretch, separator: char) -> (r: Vec<Stretch>)
    requires
        s.fits(b@.len()),
    ensures
        r@.len() == pieces(s.of(b@), separator).len(),
        r@.len() > 0,
        forall|i: int|
            0 <= i < r@.len() ==> (#[trigger] r@[i]).fits(b@.len()) && r@[i].of(b@) == pieces(
                s.of(b@),
                separator,
            )[i],
{
    let ghost t = s.of(b@);
    let mut r: Vec<Stretch> = Vec::new();
    r.push(Stretch { lo: s.lo, hi: s.lo });
    let mut i: usize = s.lo;
    proof {
        assert(t.take(0) =~= Seq::empty());
        assert(r@[0].of(b@) =~= Seq::empty());
    }
    while i < s.hi
        invariant
            s.fits(b@.len()),
            t == s.of(b@),
            s.lo <= i <= s.hi,
            r@.len() == pieces(t.take(i - s.lo), separator).len(),
            r@.len() > 0,
            r@.last().hi == i,
            forall|k: int|
                0 <= k < r@.len() ==> (#[trigger] r@[k]).lo <= r@[k].hi <= i && r@[k].of(b@)
                    == pieces(t.take(i - s.lo), separator)[k],
        decreases s.hi - i,
    {
        let ghost before = r@;
        let ghost old_pieces = pieces(t.take(i - s.lo), separator);
        let ghost new_pieces = pieces(t.take(i - s.lo + 1), separator);
        assert(t.take(i - s.lo + 1).drop_last() =~= t.take(i - s.lo));
        assert(t.take(i - s.lo + 1).last() == b@[i as int]);
        if b[i] == separator {
            r.push(Stretch { lo: i + 1, hi: i + 1 });
            assert(r@.last().of(b@) =~= Seq::empty());
        } else {
            let last: usize = r.len() - 1;
            let lo: usize = r[last].lo;
            r.set(last, Stretch { lo, hi: i + 1 });
            assert(before.last().of(b@) == old_pieces[last as int]);
            assert(r@[last as int].of(b@) =~= old_pieces[last as int].push(b@[i as int]));
        }
        assert forall|k: int| 0 <= k < r@.len() implies (#[trigger] r@[k]).lo <= r@[k].hi <= i + 1
            && r@[k].of(b@) == new_pieces[k] by {
            if k < before.len() - 1 || (k < before.len() && b@[i as int] == separator) {
                assert(r@[k] == before[k]);
            }
        }
        i += 1;
    }
    assert(t.take(s.hi - s.lo) =~= t);
    r
}

/// An element first stands behind what does not hold it.
pub proof fn lemma_first_at<T>(x: Seq<T>, c: T, y: Seq<T>)
    requires
        !x.contains(c),
    ensures
        first_at(x.push(c) + y, c) == Some(x.len() as int),
    decreases x.len() + y.len(),
{
    let b = x.push(c) + y;
    if y.len() > 0 {
        lemma_first_at(x, c, y.drop_last());
        assert(b.drop_last() =~= x.push(c) + y.drop_last());
    } else {
        assert(b.drop_last() =~= x);
        lemma_absent(x, c);
    }
}

/// An element that a sequence does not hold stands nowhere in it.
pub proof fn lemma_absent<T>(x: Seq<T>, c: T)
    requires
        !x.contains(c),
    ensures
        first_at(x, c) is None,
        last_at(x, c) is None,
        pieces(x, c) == seq![x],
    decreases x.len(),
{
    if x.len() > 0 {
        let front = x.drop_last();
        if front.contains(c) {
            assert(x[front.index_of(c)] == c);
        }
        lemma_absent(front, c);
        assert(x[x.len() - 1] != c);
        assert(front.push(x.last()) =~= x);
        assert(seq![front].update(0, x) =~= seq![x]);
    } else {
        assert(x =~= Seq::empty());
    }
}

/// An element last stands before what does not hold it, and parts that from the rest.
pub proof fn lemma_last_at<T>(x: Seq<T>, c: T, y: Seq<T>)
    requires
        !y.contains(c),
    ensures
        last_at(x.push(c) + y, c) == Some(x.len() as int),
        pieces(x.push(c) + y, c) == pieces(x, c).push(y),
    decreases y.len(),
{
    let b = x.push(c) + y;
    if y.len() > 0 {
        let front = y.drop_last();
        if front.contains(c) {
            assert(y[front.index_of(c)] == c);
        }
        lemma_last_at(x, c, front);
        assert(b.drop_last() =~= x.push(c) + front);
        assert(b.last() == y[y.len() - 1]);
        assert(front.push(y.last()) =~= y);
        assert(pieces(x, c).push(front).update(pieces(x, c).len() as int, y) =~= pieces(
            x,
            c,
        ).push(y));
    } else {
        assert(b.drop_last() =~= x);
        assert(y =~= Seq::empty());
    }
}

} // verus!
