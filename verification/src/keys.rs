//! Walking hash maps and hash sets in ascending key order.
use std::collections::{HashMap, HashSet};
use vstd::prelude::*;

verus! {

broadcast use vstd::std_specs::hash::group_hash_axioms;

/// Each element is smaller than every later one.
pub open spec fn is_ascending(s: Seq<i32>) -> bool {
    forall|i: int, j: int| 0 <= i < j < s.len() ==> s[i] < s[j]
}

/// The elements of a finite set of ids, smallest first.
pub open spec fn ascending(d: Set<i32>) -> Seq<i32> {
    choose|s: Seq<i32>| is_ascending(s) && #[trigger] s.to_set() == d
}

/// An ascending sequence is the only one with its elements.
pub proof fn lemma_ascending_unique(s: Seq<i32>, t: Seq<i32>)
    requires
        is_ascending(s),
        is_ascending(t),
        s.to_set() == t.to_set(),
    ensures
        s == t,
    decreases s.len(),
{
    if s.len() == 0 {
        if t.len() > 0 {
            assert(t.to_set().contains(t[0]));
            assert(s.to_set().contains(t[0]));
        }
        assert(s =~= t);
    } else {
        assert(s.to_set().contains(s[0]));
        assert(t.to_set().contains(s[0]));
        assert(t.len() > 0);
        let a = s.last();
        let b = t.last();
        assert(s.to_set().contains(a) && t.to_set().contains(b));
        assert(t.to_set().contains(a) && s.to_set().contains(b));
        let i = t.index_of(a);
        let j = s.index_of(b);
        assert(t[i] == a && s[j] == b);
        assert(a <= b && b <= a);
        let s1 = s.drop_last();
        let t1 = t.drop_last();
        assert forall|x: i32| s1.to_set().contains(x) <==> t1.to_set().contains(x) by {
            if s1.contains(x) {
                let k = s1.index_of(x);
                assert(s[k] == x && x < a);
                assert(s.to_set().contains(x));
                assert(t.to_set().contains(x));
                let l = t.index_of(x);
                assert(t1[l] == x);
            }
            if t1.contains(x) {
                let k = t1.index_of(x);
                assert(t[k] == x && x < b);
                assert(t.to_set().contains(x));
                assert(s.to_set().contains(x));
                let l = s.index_of(x);
                assert(s1[l] == x);
            }
        }
        assert(s1.to_set() =~= t1.to_set());
        lemma_ascending_unique(s1, t1);
        assert(s =~= s1.push(a));
        assert(t =~= t1.push(b));
    }
}

/// A sequence is the ascending one of its own elements, if it is ascending at all.
pub proof fn lemma_is_ascending_of(s: Seq<i32>)
    requires
        is_ascending(s),
    ensures
        ascending(s.to_set()) == s,
{
    let t = ascending(s.to_set());
    assert(is_ascending(t) && t.to_set() == s.to_set());
    lemma_ascending_unique(s, t);
}

/// One more element of a sequence adds that element to those taken so far; in ascending order it was
/// not among them.
pub proof fn lemma_one_more(s: Seq<i32>, i: int)
    requires
        0 <= i < s.len(),
    ensures
        forall|x: i32|
            #![trigger s.take(i + 1).contains(x)]
            #![trigger s.take(i).contains(x)]
            s.take(i + 1).contains(x) <==> s.take(i).contains(x) || x == s[i],
        is_ascending(s) ==> !s.take(i).contains(s[i]),
        s.contains(s[i]),
{
    let seen = s.take(i);
    let now = s.take(i + 1);
    assert(now[i] == s[i]);
    assert forall|x: i32| now.contains(x) <==> seen.contains(x) || x == s[i] by {
        if seen.contains(x) {
            assert(now[seen.index_of(x)] == x);
        }
        if now.contains(x) && x != s[i] {
            assert(seen[now.index_of(x)] == x);
        }
    }
    if is_ascending(s) && seen.contains(s[i]) {
        assert(s[seen.index_of(s[i])] < s[i]);
    }
}

/// The elements of a finite set can be put in ascending order.
pub proof fn lemma_ascending_exists(d: Set<i32>)
    requires
        d.finite(),
    ensures
        is_ascending(ascending(d)),
        ascending(d).to_set() == d,
    decreases d.len(),
{
    if d.len() == 0 {
        let s = Seq::<i32>::empty();
        assert(d =~= Set::empty());
        assert(s.to_set() =~= d);
    } else {
        let m = max_of(d);
        lemma_max_of(d);
        lemma_ascending_exists(d.remove(m));
        let t = ascending(d.remove(m));
        let s = t.push(m);
        assert forall|i: int| 0 <= i < t.len() implies t[i] < m by {
            assert(t.to_set().contains(t[i]));
        }
        assert forall|x: i32| s.to_set().contains(x) <==> d.contains(x) by {
            assert(s[t.len() as int] == m);
            if d.contains(x) && x != m {
                assert(t.to_set().contains(x));
                assert(s[t.index_of(x)] == x);
            }
            if s.contains(x) && x != m {
                assert(t[s.index_of(x)] == x);
                assert(t.to_set().contains(x));
            }
        }
        assert(s.to_set() =~= d);
    }
}

/// The largest element of a set.
spec fn max_of(d: Set<i32>) -> i32 {
    choose|m: i32| d.contains(m) && forall|x: i32| #[trigger] d.contains(x) ==> x <= m
}

proof fn lemma_max_of(d: Set<i32>)
    requires
        d.finite(),
        d.len() > 0,
    ensures
        d.contains(max_of(d)),
        forall|x: i32| #[trigger] d.contains(x) ==> x <= max_of(d),
    decreases d.len(),
{
    let a = d.choose();
    let rest = d.remove(a);
    if rest.len() == 0 {
        assert forall|x: i32| #[trigger] d.contains(x) implies x <= a by {
            if x != a {
                assert(rest.contains(x));
            }
        }
        assert(d.contains(a) && forall|x: i32| #[trigger] d.contains(x) ==> x <= a);
    } else {
        lemma_max_of(rest);
        let b = max_of(rest);
        let m = if a > b {
            a
        } else {
            b
        };
        assert forall|x: i32| #[trigger] d.contains(x) implies x <= m by {
            if x != a {
                assert(rest.contains(x));
            }
        }
        assert(d.contains(m) && forall|x: i32| #[trigger] d.contains(x) ==> x <= m);
    }
}

/// Puts `k` in its place.
fn insert_ascending(v: &mut Vec<i32>, k: i32)
    requires
        is_ascending(old(v)@),
        !old(v)@.contains(k),
    ensures
        is_ascending(final(v)@),
        final(v)@.to_set() == old(v)@.to_set().insert(k),
{
    let ghost before = v@;
    let mut i: usize = v.len();
    while i > 0 && v[i - 1] > k
        invariant
            i <= v@.len(),
            v@ == before,
            is_ascending(before),
            forall|j: int| i <= j < v@.len() ==> v@[j] > k,
        decreases i,
    {
        i -= 1;
    }
    assert(i > 0 ==> before[i - 1] != k);
    v.insert(i, k);
    proof {
        let after = v@;
        assert(after == before.insert(i as int, k));
        assert forall|x: i32| after.contains(x) <==> before.contains(x) || x == k by {
            if before.contains(x) {
                let j = before.index_of(x);
                if j < i {
                    assert(after[j] == x);
                } else {
                    assert(after[j + 1] == x);
                }
            }
            assert(after[i as int] == k);
            if after.contains(x) {
                let j = after.index_of(x);
                if j < i {
                    assert(before[j] == x);
                } else if j > i {
                    assert(before[j - 1] == x);
                }
            }
        }
        assert(after.to_set() =~= before.to_set().insert(k));
    }
}

/// The keys of a map, smallest first.
pub fn sorted_keys<V>(m: &HashMap<i32, V>) -> (r: Vec<i32>)
    ensures
        is_ascending(r@),
        r@.to_set() == m@.dom(),
        r@ == ascending(m@.dom()),
{
    let mut r: Vec<i32> = Vec::new();
    let ghost all = vstd::std_specs::iter::IteratorSpec::remaining(&m.keys()).unref();
    for k in it: m.keys()
        invariant
            it.seq().unref() == all,
            it.seq().unref().to_set() == m@.dom(),
            it.seq().no_duplicates(),
            is_ascending(r@),
            r@.to_set() =~= it.seq().unref().take(it.index()).to_set(),
    {
        let ghost s = it.seq().unref();
        let ghost i = it.index();
        proof {
            assert(s.take(i + 1) =~= s.take(i).push(*k));
            assert(r@.to_set().contains(*k) == s.take(i).to_set().contains(*k));
            if s.take(i).contains(*k) {
                let j = s.take(i).index_of(*k);
                assert(*it.seq()[j] == *it.seq()[i]);
                assert(false);
            }
            assert(!r@.contains(*k));
            assert(s.take(i).push(*k).to_set() =~= s.take(i).to_set().insert(*k)) by {
                assert(s.take(i).push(*k)[i] == *k);
                assert forall|x: i32| s.take(i).contains(x) implies s.take(i).push(*k).contains(
                    x,
                ) by {
                    assert(s.take(i).push(*k)[s.take(i).index_of(x)] == x);
                }
            }
        }
        insert_ascending(&mut r, *k);
    }
    proof {
        assert(all.take(all.len() as int) =~= all);
        lemma_is_ascending_of(r@);
    }
    r
}

/// The elements of a set, smallest first.
pub fn sorted_elements(m: &HashSet<i32>) -> (r: Vec<i32>)
    ensures
        is_ascending(r@),
        r@.to_set() == m@,
        r@ == ascending(m@),
{
    let mut r: Vec<i32> = Vec::new();
    let ghost all = vstd::std_specs::iter::IteratorSpec::remaining(&m.iter()).unref();
    for k in it: m.iter()
        invariant
            it.seq().unref() == all,
            it.seq().unref().to_set() == m@,
            it.seq().no_duplicates(),
            is_ascending(r@),
            r@.to_set() =~= it.seq().unref().take(it.index()).to_set(),
    {
        let ghost s = it.seq().unref();
        let ghost i = it.index();
        proof {
            assert(s.take(i + 1) =~= s.take(i).push(*k));
            assert(r@.to_set().contains(*k) == s.take(i).to_set().contains(*k));
            if s.take(i).contains(*k) {
                let j = s.take(i).index_of(*k);
                assert(*it.seq()[j] == *it.seq()[i]);
                assert(false);
            }
            assert(!r@.contains(*k));
            assert(s.take(i).push(*k).to_set() =~= s.take(i).to_set().insert(*k)) by {
                assert(s.take(i).push(*k)[i] == *k);
                assert forall|x: i32| s.take(i).contains(x) implies s.take(i).push(*k).contains(
                    x,
                ) by {
                    assert(s.take(i).push(*k)[s.take(i).index_of(x)] == x);
                }
            }
        }
        insert_ascending(&mut r, *k);
    }
    proof {
        assert(all.take(all.len() as int) =~= all);
        lemma_is_ascending_of(r@);
    }
    r
}

/// The ids of a list, each once.
pub fn id_set(ids: &Vec<i32>) -> (r: HashSet<i32>)
    ensures
        r@ == ids@.to_set(),
{
    let mut r: HashSet<i32> = HashSet::new();
    let mut i: usize = 0;
    assert(ids@.take(0).to_set() =~= Set::<i32>::empty());
    while i < ids.len()
        invariant
            i <= ids@.len(),
            r@ == ids@.take(i as int).to_set(),
        decreases ids@.len() - i,
    {
        r.insert(ids[i]);
        proof {
            let now = ids@.take(i + 1);
            let id = ids@[i as int];
            assert(now[i as int] == id);
            lemma_one_more(ids@, i as int);
            assert(r@ =~= now.to_set());
        }
        i += 1;
    }
    assert(ids@.take(i as int) =~= ids@);
    r
}

} // verus!
