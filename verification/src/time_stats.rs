//! A rolling account of durations: how many there were, their sum and the
//! longest of them.

use crate::duration::Duration;
use vstd::prelude::*;

verus! {

/// The account of the durations seen so far.
#[derive(Clone, Copy, Debug, PartialEq, Eq, Structural)]
pub struct TimeStats {
    /// How many durations there were; it wraps round at the end of its range.
    pub count: u32,
    /// The sum of the durations in nanoseconds; it wraps round at the end of
    /// its range.
    pub sum_ns: u64,
    /// The longest of the durations in nanoseconds.
    pub max_ns: u64,
}

/// The nanoseconds of a duration as the account takes them: the low 64 bits.
pub open spec fn nanos_of(total_nanos: nat) -> u64 {
    (total_nanos % 0x1_0000_0000_0000_0000) as u64
}

/// The sum of the numbers.
pub open spec fn total(nanos: Seq<u64>) -> nat
    decreases nanos.len(),
{
    if nanos.len() == 0 {
        0
    } else {
        total(nanos.drop_last()) + nanos.last() as nat
    }
}

/// The largest of the numbers, and zero where there is none.
pub open spec fn largest(nanos: Seq<u64>) -> nat
    decreases nanos.len(),
{
    if nanos.len() == 0 {
        0
    } else if largest(nanos.drop_last()) < nanos.last() {
        nanos.last() as nat
    } else {
        largest(nanos.drop_last())
    }
}

impl TimeStats {
    /// What replaces the maximum `seen` when a duration of `nanos` comes in:
    /// the duration, but only where it is strictly longer.
    pub open spec fn raised(seen: u64, nanos: u64) -> Option<u64> {
        if seen < nanos {
            Some(nanos)
        } else {
            None
        }
    }

    /// The account after one more duration.
    pub open spec fn updated(self, nanos: u64) -> TimeStats {
        TimeStats {
            count: ((self.count + 1) % 0x1_0000_0000) as u32,
            sum_ns: ((self.sum_ns + nanos) % 0x1_0000_0000_0000_0000) as u64,
            max_ns: match TimeStats::raised(self.max_ns, nanos) {
                Some(longer) => longer,
                None => self.max_ns,
            },
        }
    }

    /// The account after the durations, taken in their order.
    pub open spec fn updated_all(self, nanos: Seq<u64>) -> TimeStats
        decreases nanos.len(),
    {
        if nanos.len() == 0 {
            self
        } else {
            self.updated_all(nanos.drop_last()).updated(nanos.last())
        }
    }

    /// An account of no durations.
    pub fn new() -> (stats: TimeStats)
        ensures
            stats == (TimeStats { count: 0, sum_ns: 0, max_ns: 0 }),
    {
        TimeStats { count: 0, sum_ns: 0, max_ns: 0 }
    }

    /// What replaces the maximum `seen` when a duration of `nanos` comes in.
    pub fn raise(seen: u64, nanos: u64) -> (replacement: Option<u64>)
        ensures
            replacement == TimeStats::raised(seen, nanos),
    {
        if seen < nanos {
            Some(nanos)
        } else {
            None
        }
    }

    /// The nanoseconds of a duration as the account takes them.
    pub fn nanos(duration: Duration) -> (nanos: u64)
        ensures
            nanos == nanos_of(duration.total_nanos()),
    {
        let whole: u128 = duration.as_nanos();
        (whole % 0x1_0000_0000_0000_0000) as u64
    }

    /// Takes one more duration into the account.
    pub fn update(&mut self, duration: Duration)
        ensures
            *final(self) == old(self).updated(nanos_of(duration.total_nanos())),
    {
        let nanos: u64 = TimeStats::nanos(duration);
        self.count = self.count.wrapping_add(1);
        self.sum_ns = self.sum_ns.wrapping_add(nanos);
        match TimeStats::raise(self.max_ns, nanos) {
            Some(longer) => {
                self.max_ns = longer;
            },
            None => {},
        }
    }
}

/// Two durations taken into an account in either order give the same account.
pub proof fn lemma_update_commutes(stats: TimeStats, a: u64, b: u64)
    ensures
        stats.updated(a).updated(b) == stats.updated(b).updated(a),
{
}

/// After any durations the account holds their number, their sum and the
/// longest of them: the number and the sum within the range of their
/// counters, the longest beside the maximum that the account started with.
pub proof fn lemma_updated_all(stats: TimeStats, nanos: Seq<u64>)
    ensures
        stats.updated_all(nanos).count == (stats.count + nanos.len()) % 0x1_0000_0000,
        stats.updated_all(nanos).sum_ns == (stats.sum_ns + total(nanos)) % 0x1_0000_0000_0000_0000,
        stats.updated_all(nanos).max_ns == if largest(nanos) > stats.max_ns {
            largest(nanos)
        } else {
            stats.max_ns as nat
        },
        largest(nanos) <= u64::MAX,
    decreases nanos.len(),
{
    if nanos.len() > 0 {
        lemma_updated_all(stats, nanos.drop_last());
    }
}

/// From an empty account, durations that overflow neither counter leave
/// their number, their sum and the longest of them.
pub proof fn lemma_account(nanos: Seq<u64>)
    requires
        nanos.len() <= u32::MAX,
        total(nanos) <= u64::MAX,
    ensures
        (TimeStats { count: 0, sum_ns: 0, max_ns: 0 }).updated_all(nanos) == (TimeStats {
            count: nanos.len() as u32,
            sum_ns: total(nanos) as u64,
            max_ns: largest(nanos) as u64,
        }),
{
    lemma_updated_all(TimeStats { count: 0, sum_ns: 0, max_ns: 0 }, nanos);
}

/// Taking one of the numbers out lowers the sum by it, and leaves a largest
/// that is not above the one before; the largest is the number taken out or
/// the largest of the rest.
pub proof fn lemma_remove(nanos: Seq<u64>, i: int)
    requires
        0 <= i < nanos.len(),
    ensures
        total(nanos) == total(nanos.remove(i)) + nanos[i],
        largest(nanos) == if largest(nanos.remove(i)) < nanos[i] {
            nanos[i] as nat
        } else {
            largest(nanos.remove(i))
        },
    decreases nanos.len(),
{
    if i < nanos.len() - 1 {
        lemma_remove(nanos.drop_last(), i);
        assert(nanos.remove(i).drop_last() =~= nanos.drop_last().remove(i));
    }
}

/// The sum and the largest of some numbers do not depend on their order.
pub proof fn lemma_order_free(a: Seq<u64>, b: Seq<u64>)
    requires
        a.to_multiset() == b.to_multiset(),
    ensures
        a.len() == b.len(),
        total(a) == total(b),
        largest(a) == largest(b),
    decreases a.len(),
{
    a.to_multiset_ensures();
    b.to_multiset_ensures();
    if a.len() > 0 {
        let x = a.last();
        assert(a.to_multiset().count(x) > 0);
        let j = choose|j: int| 0 <= j < b.len() && b[j] == x;
        let rest_a = a.drop_last();
        let rest_b = b.remove(j);
        assert(rest_a =~= a.remove(a.len() - 1));
        lemma_order_free(rest_a, rest_b);
        lemma_remove(b, j);
    }
}

/// Whatever the order in which durations are taken into an account, the
/// account is the same in the end.
pub proof fn lemma_any_order(stats: TimeStats, a: Seq<u64>, b: Seq<u64>)
    requires
        a.to_multiset() == b.to_multiset(),
    ensures
        stats.updated_all(a) == stats.updated_all(b),
{
    lemma_order_free(a, b);
    lemma_updated_all(stats, a);
    lemma_updated_all(stats, b);
}

} // verus!
