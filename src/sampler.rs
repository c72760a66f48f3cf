//! Choosing a uniform sample of row ordinals without replacement.
use rand::seq::SliceRandom;
use std::collections::HashSet;
use vstd::prelude::*;

verus! {

broadcast use vstd::std_specs::hash::group_hash_axioms;

/// How many ordinals a sample of `k` out of a population of `n` holds.
pub open spec fn sample_len(k: nat, n: nat) -> nat {
    if k <= n {
        k
    } else {
        n
    }
}

/// The ordinals `0, 1, ..., n - 1`, ascending.
pub open spec fn ordinals(n: nat) -> Seq<usize> {
    Seq::new(n, |i: int| i as usize)
}

/// `s` is a possible outcome of sampling `k` ordinals out of `n`: it holds
/// exactly `min(k, n)` distinct ordinals, each below `n`.
pub open spec fn is_sample_of(s: Set<usize>, k: nat, n: nat) -> bool {
    &&& s.finite()
    &&& s.len() == sample_len(k, n)
    &&& forall|i: usize| #[trigger] s.contains(i) ==> i < n
}

/// Relies on `rand::seq::SliceRandom::shuffle` (rand 0.8), driven by the
/// thread-local generator of `rand::thread_rng`: it reorders the slice by
/// swapping elements only, so what comes back is a permutation of what went in.
#[verifier::external_body]
fn shuffle_in_place(v: &mut Vec<usize>)
    ensures
        final(v)@.to_multiset() == old(v)@.to_multiset(),
{
    v.shuffle(&mut rand::thread_rng());
}

/// A permutation of the ordinals below `n` holds each of them exactly once.
proof fn lemma_permutation_of_ordinals(v: Seq<usize>, n: nat)
    requires
        n <= usize::MAX + 1,
        v.to_multiset() == ordinals(n).to_multiset(),
    ensures
        v.len() == n,
        v.no_duplicates(),
        forall|j: int| 0 <= j < v.len() ==> v[j] < n,
        forall|i: usize| i < n ==> v.contains(i),
{
    broadcast use vstd::seq_lib::group_to_multiset_ensures;

    let o = ordinals(n);
    assert(v.len() == v.to_multiset().len());
    assert(o.len() == o.to_multiset().len());
    assert(o.no_duplicates());
    o.lemma_multiset_has_no_duplicates();
    v.lemma_multiset_has_no_duplicates_conv();
    assert forall|j: int| 0 <= j < v.len() implies v[j] < n by {
        assert(v.contains(v[j]));
        assert(o.to_multiset().count(v[j]) > 0);
        let k = choose|k: int| 0 <= k < o.len() && o[k] == v[j];
        assert(o[k] == k as usize);
    }
    assert forall|i: usize| i < n implies v.contains(i) by {
        assert(o[i as int] == i);
        assert(o.contains(i));
        assert(v.to_multiset().count(i) > 0);
    }
}

/// Chooses `min(sample, size)` distinct row ordinals below `size`, each
/// subset of that size being equally likely. When `sample >= size` every
/// ordinal below `size` is chosen.
pub fn sample_indexes(sample: usize, size: usize) -> (r: HashSet<usize>)
    ensures
        is_sample_of(r@, sample as nat, size as nat),
        sample >= size ==> forall|i: usize| i < size ==> #[trigger] r@.contains(i),
{
    let mut order: Vec<usize> = Vec::new();
    let mut i: usize = 0;
    while i < size
        invariant
            i <= size,
            order@ == ordinals(i as nat),
        decreases size - i,
    {
        order.push(i);
        i = i + 1;
        assert(order@ =~= ordinals(i as nat));
    }
    shuffle_in_place(&mut order);
    proof {
        lemma_permutation_of_ordinals(order@, size as nat);
    }
    let take: usize = if sample <= size {
        sample
    } else {
        size
    };
    let chosen = first_of(&order, take);
    proof {
        let prefix = order@.subrange(0, take as int);
        assert forall|v: usize| #[trigger] chosen@.contains(v) implies v < size by {
            let k = choose|k: int| 0 <= k < prefix.len() && prefix[k] == v;
            assert(order@[k] == v);
        }
        if sample >= size {
            assert(prefix =~= order@);
        }
    }
    chosen
}

/// The first `take` ordinals of `order`, as a set. When `order` holds no
/// ordinal twice the set has `take` members.
pub fn first_of(order: &Vec<usize>, take: usize) -> (r: HashSet<usize>)
    requires
        take <= order.len(),
    ensures
        r@ == order@.subrange(0, take as int).to_set(),
        r@.finite(),
        order@.no_duplicates() ==> r@.len() == take,
{
    let mut chosen: HashSet<usize> = HashSet::new();
    let mut j: usize = 0;
    while j < take
        invariant
            take <= order.len(),
            j <= take,
            chosen@ == order@.subrange(0, j as int).to_set(),
            chosen@.finite(),
            order@.no_duplicates() ==> chosen@.len() == j,
        decreases take - j,
    {
        let x = order[j];
        proof {
            if order@.no_duplicates() {
                assert(!order@.subrange(0, j as int).contains(x));
            }
            assert(order@.subrange(0, j as int + 1) =~= order@.subrange(0, j as int).push(x));
            order@.subrange(0, j as int).lemma_push_to_set_commute(x);
        }
        chosen.insert(x);
        j = j + 1;
    }
    chosen
}

} // verus!
