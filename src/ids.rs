use vstd::prelude::*;

verus! {

/// Identifier of a person; unique within the person allocator.
#[derive(Debug, Clone, Copy, PartialEq, Eq, Hash, Structural)]
pub struct PersonId(pub u64);

/// Identifier of a happiness modifier; unique within the modifier allocator.
#[derive(Debug, Clone, Copy, PartialEq, Eq, Hash, Structural)]
pub struct HappinessModifierId(pub u64);

/// A counter that hands out strictly increasing identifiers, starting at 1.
///
/// The value `u64::MAX` is never handed out: once the counter reaches it the
/// allocator is exhausted and every further request fails instead of wrapping.
#[derive(Debug)]
pub struct IdAllocator {
    next: u64,
}

/// One request to an allocator: the counter stood at `before`, `value` was
/// handed out, and the counter then stood at `after`.
pub open spec fn issues(before: u64, value: u64, after: u64) -> bool {
    value == before && after == before + 1
}

impl IdAllocator {
    /// The value that the next successful request hands out.
    pub closed spec fn upcoming(&self) -> u64 {
        self.next
    }

    pub fn new() -> (r: IdAllocator)
        ensures
            r.upcoming() == 1,
    {
        IdAllocator { next: 1 }
    }

    /// An allocator whose first identifier is `first`.
    pub fn starting_at(first: u64) -> (r: IdAllocator)
        ensures
            r.upcoming() == first,
    {
        IdAllocator { next: first }
    }

    /// The value that the next successful request hands out.
    pub fn peek(&self) -> (r: u64)
        ensures
            r == self.upcoming(),
    {
        self.next
    }

    /// Hands out a fresh identifier, or `None` once the counter is exhausted.
    pub fn next(&mut self) -> (r: Option<u64>)
        ensures
            old(self).upcoming() < u64::MAX ==> (r matches Some(v) && issues(
                old(self).upcoming(),
                v,
                final(self).upcoming(),
            )),
            old(self).upcoming() == u64::MAX ==> r is None && final(self).upcoming()
                == old(self).upcoming(),
    {
        if self.next == u64::MAX {
            None
        } else {
            let v = self.next;
            self.next = v + 1;
            Some(v)
        }
    }
}

proof fn lemma_counters_grow(counters: Seq<u64>, ids: Seq<u64>, i: int, j: int)
    requires
        counters.len() == ids.len() + 1,
        forall|k: int| 0 <= k < ids.len() ==> issues(counters[k], #[trigger] ids[k], counters[k + 1]),
        0 <= i <= j < counters.len(),
    ensures
        counters[i] + (j - i) == counters[j],
    decreases j - i,
{
    if i < j {
        lemma_counters_grow(counters, ids, i, j - 1);
        assert(issues(counters[j - 1], ids[j - 1], counters[j]));
    }
}

/// Identifiers handed out by successive requests to one allocator are
/// pairwise distinct and strictly increasing.
///
/// `counters[k]` is the allocator's counter before the `k`-th successful
/// request and `ids[k]` the identifier that request returned.
pub proof fn lemma_issued_ids_increase(counters: Seq<u64>, ids: Seq<u64>)
    requires
        counters.len() == ids.len() + 1,
        forall|k: int| 0 <= k < ids.len() ==> issues(counters[k], #[trigger] ids[k], counters[k + 1]),
    ensures
        forall|i: int, j: int| 0 <= i < j < ids.len() ==> ids[i] < ids[j],
{
    assert forall|i: int, j: int| 0 <= i < j < ids.len() implies ids[i] < ids[j] by {
        lemma_counters_grow(counters, ids, i, j);
        assert(issues(counters[i], ids[i], counters[i + 1]));
        assert(issues(counters[j], ids[j], counters[j + 1]));
    }
}

} // verus!
