//! From a summon to the player behind it.
use std::collections::HashMap;
use vstd::prelude::*;

verus! {

broadcast use vstd::std_specs::hash::group_hash_axioms;

/// Where `steps` owner links lead from `id`; the walk ends early at an id without an owner.
pub open spec fn owner_after(id: i32, links: Map<i32, i32>, steps: nat) -> i32
    decreases steps,
{
    if steps == 0 || !links.contains_key(id) {
        id
    } else {
        owner_after(links[id], links, (steps - 1) as nat)
    }
}

/// The id at the end of the owner links that start at `id`. No walk takes more steps than there
/// are links, so one that runs in a circle ends too.
pub open spec fn resolved(id: i32, links: Map<i32, i32>) -> i32 {
    owner_after(id, links, links.dom().len())
}

/// Follows the owner links from `id` to their end.
pub fn resolve(id: i32, links: &HashMap<i32, i32>) -> (r: i32)
    ensures
        r == resolved(id, links@),
{
    let mut left: usize = links.len();
    let mut current: i32 = id;
    while left > 0
        invariant
            resolved(id, links@) == owner_after(current, links@, left as nat),
        decreases left,
    {
        match links.get(&current) {
            Some(owner) => {
                current = *owner;
                left -= 1;
            },
            None => {
                return current;
            },
        }
    }
    current
}

/// An id without an owner stands for itself.
pub proof fn law_unowned_id_is_its_own_owner(id: i32, links: Map<i32, i32>)
    requires
        !links.contains_key(id),
    ensures
        resolved(id, links) == id,
{
}

proof fn lemma_walk_on(id: i32, links: Map<i32, i32>, a: nat, b: nat)
    ensures
        owner_after(id, links, a + b) == owner_after(owner_after(id, links, a), links, b),
    decreases a,
{
    if a > 0 && links.contains_key(id) {
        lemma_walk_on(links[id], links, (a - 1) as nat, b);
    } else if a > 0 {
        assert(owner_after(id, links, b) == id);
    }
}

proof fn lemma_circle_has_no_end(id: i32, links: Map<i32, i32>, i: nat, j: nat, m: nat)
    requires
        i < j,
        owner_after(id, links, i) == owner_after(id, links, j),
        forall|k: nat| k < j ==> links.contains_key(#[trigger] owner_after(id, links, k)),
    ensures
        links.contains_key(owner_after(id, links, m)),
    decreases m,
{
    if m >= j {
        let rest = (m - j) as nat;
        lemma_walk_on(id, links, j, rest);
        lemma_walk_on(id, links, i, rest);
        lemma_circle_has_no_end(id, links, i, j, i + rest);
    }
}

proof fn lemma_walk_ends_in_time(id: i32, links: Map<i32, i32>, n: nat)
    requires
        links.dom().finite(),
        !links.contains_key(owner_after(id, links, n)),
    ensures
        exists|k: nat|
            k <= links.dom().len() && !links.contains_key(#[trigger] owner_after(id, links, k)),
{
    let len = links.dom().len();
    if forall|k: nat| k <= len ==> links.contains_key(#[trigger] owner_after(id, links, k)) {
        let walk = Seq::new(len + 1, |k: int| owner_after(id, links, k as nat));
        if walk.no_duplicates() {
            walk.unique_seq_to_set();
            assert(walk.to_set().subset_of(links.dom()));
            vstd::set_lib::lemma_len_subset(walk.to_set(), links.dom());
        } else {
            let (i, j) = choose|i: int, j: int|
                0 <= i < walk.len() && 0 <= j < walk.len() && i != j && walk[i] == walk[j];
            if i < j {
                lemma_circle_has_no_end(id, links, i as nat, j as nat, n);
            } else {
                lemma_circle_has_no_end(id, links, j as nat, i as nat, n);
            }
        }
    }
}

/// The walk leads to the id that has no owner, whenever there is one to be reached.
pub proof fn law_walk_leads_to_the_last_owner(id: i32, links: Map<i32, i32>, n: nat)
    requires
        links.dom().finite(),
        !links.contains_key(owner_after(id, links, n)),
    ensures
        resolved(id, links) == owner_after(id, links, n),
        resolved(resolved(id, links), links) == resolved(id, links),
{
    lemma_walk_ends_in_time(id, links, n);
    let len = links.dom().len();
    let k = choose|k: nat| k <= len && !links.contains_key(#[trigger] owner_after(id, links, k));
    let end = owner_after(id, links, k);
    lemma_walk_on(id, links, k, (len - k) as nat);
    assert(owner_after(end, links, (len - k) as nat) == end);
    assert(resolved(id, links) == end);
    if k <= n {
        lemma_walk_on(id, links, k, (n - k) as nat);
        assert(owner_after(end, links, (n - k) as nat) == end);
    } else {
        let last = owner_after(id, links, n);
        lemma_walk_on(id, links, n, (k - n) as nat);
        assert(owner_after(last, links, (k - n) as nat) == last);
    }
}

} // verus!
