//! The rolling account of durations for many threads at once: every counter
//! is atomic, and an update takes no lock. The module `interleaving` holds
//! the model of such updates and the proof that their order does not matter.

use crate::duration::Duration;
use crate::time_stats::TimeStats;
use std::sync::atomic::AtomicU32;
use std::sync::atomic::AtomicU64;
use std::sync::atomic::Ordering;
use vstd::prelude::*;

verus! {

/// The account of the durations seen so far, shared between threads.
pub struct AtomicTimeStats {
    /// How many durations there were.
    pub count: AtomicU32,
    /// The sum of the durations in nanoseconds.
    pub sum_ns: AtomicU64,
    /// The longest of the durations in nanoseconds.
    pub max_ns: AtomicU64,
}

/// Raises the maximum in `cell` to `nanos` with `AtomicU64::fetch_update`:
/// the value found is replaced by what `TimeStats::raise` gives for it, and
/// the attempt is made again where another thread has changed the value in
/// between. Nothing is claimed of the value: other threads may change it at
/// any time.
#[verifier::external_body]
fn fetch_raise(cell: &AtomicU64, nanos: u64) {
    let _ = cell.fetch_update(
        Ordering::Relaxed,
        Ordering::Relaxed,
        |seen| TimeStats::raise(seen, nanos),
    );
}

impl Default for AtomicTimeStats {
    fn default() -> (stats: AtomicTimeStats) {
        AtomicTimeStats {
            count: AtomicU32::new(0),
            sum_ns: AtomicU64::new(0),
            max_ns: AtomicU64::new(0),
        }
    }
}

impl AtomicTimeStats {
    /// Takes one more duration into the account: the count goes up by one,
    /// the sum by the duration, and the maximum is replaced where the
    /// duration is strictly longer. It waits for no other thread.
    pub fn update(&self, duration: Duration) {
        let nanos: u64 = TimeStats::nanos(duration);
        let _ = self.sum_ns.fetch_add(nanos, Ordering::Relaxed);
        let _ = self.count.fetch_add(1, Ordering::Relaxed);
        fetch_raise(&self.max_ns, nanos);
    }

    /// The account as it stands, counter by counter.
    pub fn snapshot(&self) -> (stats: TimeStats) {
        TimeStats {
            count: self.count.load(Ordering::Relaxed),
            sum_ns: self.sum_ns.load(Ordering::Relaxed),
            max_ns: self.max_ns.load(Ordering::Relaxed),
        }
    }
}

} // verus!
