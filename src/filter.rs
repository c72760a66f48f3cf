//! The streaming filter: it walks the rows of a file in scan order, one at a
//! time, and passes on those whose ordinal was sampled.
use crate::sampler::{is_sample_of, sample_len};
use std::collections::HashSet;
use vstd::prelude::*;

verus! {

broadcast use vstd::std_specs::hash::group_hash_axioms;

/// The ordinals below `n` that `keep` holds, ascending: the rows that a walk
/// over `n` rows keeps.
pub open spec fn kept_ordinals(keep: Set<usize>, n: nat) -> Seq<usize>
    decreases n,
{
    if n == 0 {
        Seq::empty()
    } else {
        let before = kept_ordinals(keep, (n - 1) as nat);
        if keep.contains((n - 1) as usize) {
            before.push((n - 1) as usize)
        } else {
            before
        }
    }
}

/// Keeps, row by row, the rows whose ordinal lies in a set of sampled
/// ordinals. It holds one ordinal of state and never any row.
pub struct RowFilter {
    indexes: HashSet<usize>,
    position: usize,
}

impl RowFilter {
    /// The ordinals to keep.
    pub closed spec fn keep(&self) -> Set<usize> {
        self.indexes@
    }

    /// The ordinal of the next row offered, which is the number of rows seen.
    pub closed spec fn position(&self) -> nat {
        self.position as nat
    }

    /// The ordinals kept so far, in the order they were kept.
    pub open spec fn kept_so_far(&self) -> Seq<usize> {
        kept_ordinals(self.keep(), self.position())
    }

    /// A filter that keeps the rows whose ordinal `indexes` holds, before any
    /// row was offered.
    pub fn new(indexes: HashSet<usize>) -> (r: RowFilter)
        ensures
            r.keep() == indexes@,
            r.position() == 0,
            r.kept_so_far() == Seq::<usize>::empty(),
    {
        RowFilter { indexes, position: 0 }
    }

    /// Offers the next row in scan order; says whether it is to be kept.
    /// Rows past the largest ordinal that `usize` holds are never kept.
    pub fn next_kept(&mut self) -> (keep: bool)
        ensures
            final(self).keep() == old(self).keep(),
            old(self).position() < usize::MAX ==> {
                &&& keep == old(self).keep().contains(old(self).position() as usize)
                &&& final(self).position() == old(self).position() + 1
            },
            old(self).position() == usize::MAX ==> {
                &&& !keep
                &&& final(self).position() == old(self).position()
            },
            final(self).kept_so_far() == if keep {
                old(self).kept_so_far().push(old(self).position() as usize)
            } else {
                old(self).kept_so_far()
            },
    {
        if self.position == usize::MAX {
            return false;
        }
        let keep = self.indexes.contains(&self.position);
        self.position = self.position + 1;
        keep
    }
}

/// The kept ordinals lie below `n`, are members of `keep`, and ascend strictly.
proof fn lemma_kept_ascending(keep: Set<usize>, n: nat)
    requires
        n <= usize::MAX + 1,
    ensures
        forall|a: int|
            0 <= a < kept_ordinals(keep, n).len() ==> {
                &&& #[trigger] kept_ordinals(keep, n)[a] < n
                &&& keep.contains(kept_ordinals(keep, n)[a])
            },
        forall|a: int, b: int|
            0 <= a < b < kept_ordinals(keep, n).len() ==> #[trigger] kept_ordinals(keep, n)[a]
                < #[trigger] kept_ordinals(keep, n)[b],
    decreases n,
{
    if n > 0 {
        let before = kept_ordinals(keep, (n - 1) as nat);
        let kept = kept_ordinals(keep, n);
        lemma_kept_ascending(keep, (n - 1) as nat);
        if keep.contains((n - 1) as usize) {
            assert forall|a: int| 0 <= a < before.len() implies #[trigger] kept[a] == before[a]
                && kept[a] < n - 1 by {}
            assert(kept[kept.len() - 1] == n - 1);
        }
    }
}

/// The kept ordinals below `n`, as a set, are the members of `keep` below `n`.
proof fn lemma_kept_members(keep: Set<usize>, n: nat)
    requires
        n <= usize::MAX + 1,
    ensures
        kept_ordinals(keep, n).to_set() == keep.filter(|i: usize| i < n),
        kept_ordinals(keep, n).no_duplicates(),
    decreases n,
{
    let kept = kept_ordinals(keep, n);
    lemma_kept_ascending(keep, n);
    assert(kept.no_duplicates()) by {
        assert forall|a: int, b: int| 0 <= a < kept.len() && 0 <= b < kept.len() && a != b implies
            kept[a] != kept[b] by {
            if a < b {
                assert(kept[a] < kept[b]);
            } else {
                assert(kept[b] < kept[a]);
            }
        }
    }
    assert forall|x: usize| kept.to_set().contains(x) <==> keep.filter(|i: usize| i < n).contains(x) by {
        if keep.contains(x) && x < n {
            if n > 0 {
                lemma_kept_members(keep, (n - 1) as nat);
                let before = kept_ordinals(keep, (n - 1) as nat);
                if x < n - 1 {
                    assert(before.to_set().contains(x));
                    let k = choose|k: int| 0 <= k < before.len() && before[k] == x;
                    assert(kept.contains(x)) by {
                        assert(kept[k] == x);
                    }
                } else {
                    assert(kept[kept.len() - 1] == x);
                }
            }
        }
        if kept.to_set().contains(x) {
            assert(kept.contains(x));
        }
    }
    assert(kept.to_set() =~= keep.filter(|i: usize| i < n));
}

/// A walk over all `n` rows of a file keeps as many rows as the sample holds:
/// `min(k, n)` for a sample of `k` out of `n`.
pub proof fn law_pipeline_cardinality(keep: Set<usize>, k: nat, n: usize)
    requires
        is_sample_of(keep, k, n as nat),
    ensures
        kept_ordinals(keep, n as nat).len() == sample_len(k, n as nat),
{
    let kept = kept_ordinals(keep, n as nat);
    lemma_kept_members(keep, n as nat);
    kept.unique_seq_to_set();
    assert(keep.filter(|i: usize| i < n) =~= keep);
}

/// A walk keeps rows in ascending original order: each kept ordinal is a
/// sampled ordinal below the number of rows walked, and each is greater than
/// the one kept before it.
pub proof fn law_rows_ascend(keep: Set<usize>, n: usize)
    ensures
        forall|a: int|
            0 <= a < kept_ordinals(keep, n as nat).len() ==> {
                &&& #[trigger] kept_ordinals(keep, n as nat)[a] < n
                &&& keep.contains(kept_ordinals(keep, n as nat)[a])
            },
        forall|a: int, b: int|
            0 <= a < b < kept_ordinals(keep, n as nat).len() ==> #[trigger] kept_ordinals(
                keep,
                n as nat,
            )[a] < #[trigger] kept_ordinals(keep, n as nat)[b],
{
    lemma_kept_ascending(keep, n as nat);
}

} // verus!
