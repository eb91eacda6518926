//! The change tracker: counts the distinct rows one statement modifies.
//!
//! Each mutating operation that touches a row emits its identity here.
//! The tracker keeps, for the lifetime of one operation over a row set,
//! the identities already counted, so a row the execution revisits — for
//! instance under a new identity after its own key was rewritten — is
//! counted at most once. The counter saturates instead of wrapping.

use vstd::prelude::*;

verus! {

/// `n` clamped into the range of `u64`.
pub open spec fn sat64(n: int) -> u64 {
    if n > u64::MAX {
        u64::MAX
    } else if n < 0 {
        0 as u64
    } else {
        n as u64
    }
}

pub struct ChangeTracker {
    count: u64,
    counted: Vec<i64>,
}

impl ChangeTracker {
    /// The number of distinct rows counted so far.
    pub closed spec fn count_of(self) -> u64 {
        self.count
    }

    /// The row identities that may not be counted again within the
    /// current operation.
    pub closed spec fn counted_of(self) -> Seq<i64> {
        self.counted@
    }

    pub fn new() -> (t: ChangeTracker)
        ensures
            t.count_of() == 0,
            t.counted_of() == Seq::<i64>::empty(),
    {
        ChangeTracker { count: 0, counted: Vec::new() }
    }

    /// Forget the identities of the finished operation; the count stays.
    pub fn begin_op(&mut self)
        ensures
            final(self).count_of() == old(self).count_of(),
            final(self).counted_of() == Seq::<i64>::empty(),
    {
        self.counted.clear();
    }

    /// One ChangeEvent: the row with identity `id` was touched by the
    /// current operation. Counts it only if it was not counted before.
    pub fn record(&mut self, id: i64)
        ensures
            old(self).counted_of().contains(id) ==> *final(self) == *old(self),
            !old(self).counted_of().contains(id) ==> {
                &&& final(self).count_of() == sat64(old(self).count_of() + 1)
                &&& final(self).counted_of() == old(self).counted_of().push(id)
            },
    {
        let mut seen = false;
        let mut i: usize = 0;
        while i < self.counted.len()
            invariant
                i <= self.counted@.len(),
                seen == exists|j: int| 0 <= j < i && self.counted@[j] == id,
                *self == *old(self),
            decreases self.counted@.len() - i,
        {
            if self.counted[i] == id {
                seen = true;
            }
            i = i + 1;
        }
        if !seen {
            self.counted.push(id);
            self.count = self.count.saturating_add(1);
        }
    }

    /// The current operation gave an already counted row the new
    /// identity `id`: suppress any further count under it.
    pub fn alias(&mut self, id: i64)
        ensures
            final(self).count_of() == old(self).count_of(),
            final(self).counted_of() == old(self).counted_of().push(id),
    {
        self.counted.push(id);
    }

    /// The count, as the caller-facing accessor reports it.
    pub fn count(&self) -> (n: u64)
        ensures
            n == self.count_of(),
    {
        self.count
    }
}

/// Saturating addition collapses a chain of saturating increments into
/// one clamp: adding `b` one by one equals clamping `a + b` once.
pub proof fn lemma_sat64_chain(a: int, b: int)
    requires
        0 <= a,
        0 <= b,
    ensures
        sat64(sat64(a) + b) == sat64(a + b),
{
}

} // verus!
