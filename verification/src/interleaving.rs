//! Many callers updating one account at once, as a model: an update is a few
//! atomic steps, and the steps of different callers come in any order.
//! Whatever the order, the account ends as if the callers had come one
//! after the other.

use crate::time_stats::{lemma_updated_all, largest, total, TimeStats};
use vstd::prelude::*;

verus! {

/// How far a caller has come with its update.
pub enum Phase {
    /// It is about to add its duration to the sum.
    AddSum,
    /// It is about to add one to the count.
    AddCount,
    /// It is about to read the maximum.
    Load,
    /// It has read a maximum below its duration and is about to replace it,
    /// provided that the maximum is still what it has read.
    Swap,
    /// It has returned.
    Done,
}

/// A caller of the update.
pub struct Caller {
    /// The duration that it brings, in nanoseconds.
    pub nanos: u64,
    /// How far it has come.
    pub phase: Phase,
    /// The maximum that it has read last.
    pub seen: u64,
}

/// One atomic step.
pub struct Step {
    /// The caller that makes it.
    pub who: int,
    /// Whether a replacement of the maximum fails though the maximum is what
    /// the caller has read.
    pub fails: bool,
}

/// The account and the callers that are updating it.
pub struct Shared {
    pub stats: TimeStats,
    pub callers: Seq<Caller>,
}

/// Whether a caller has added its duration to the sum.
pub open spec fn has_added(caller: Caller) -> bool {
    !(caller.phase is AddSum)
}

/// Whether a caller has added one to the count.
pub open spec fn has_counted(caller: Caller) -> bool {
    !(caller.phase is AddSum) && !(caller.phase is AddCount)
}

/// The sum of the durations of the callers that have added theirs.
pub open spec fn added(callers: Seq<Caller>) -> nat
    decreases callers.len(),
{
    if callers.len() == 0 {
        0
    } else {
        added(callers.drop_last()) + if has_added(callers.last()) {
            callers.last().nanos as nat
        } else {
            0
        }
    }
}

/// How many callers have added one to the count.
pub open spec fn counted(callers: Seq<Caller>) -> nat
    decreases callers.len(),
{
    if callers.len() == 0 {
        0
    } else {
        counted(callers.drop_last()) + if has_counted(callers.last()) {
            1nat
        } else {
            0
        }
    }
}

/// The phase of a caller that has read the maximum `seen`: it goes on to
/// replace it where `TimeStats::raised` gives a replacement, else it returns.
pub open spec fn after_read(caller: Caller, seen: u64) -> Caller {
    Caller {
        seen,
        phase: if TimeStats::raised(seen, caller.nanos) is Some {
            Phase::Swap
        } else {
            Phase::Done
        },
        ..caller
    }
}

impl Shared {
    /// An account with one caller for each duration, none of which has begun.
    pub open spec fn started(stats: TimeStats, nanos: Seq<u64>) -> Shared {
        Shared {
            stats,
            callers: Seq::new(
                nanos.len(),
                |i: int| Caller { nanos: nanos[i], phase: Phase::AddSum, seen: 0 },
            ),
        }
    }

    /// Whether every caller has returned.
    pub open spec fn finished(self) -> bool {
        forall|i: int| 0 <= i < self.callers.len() ==> (#[trigger] self.callers[i]).phase is Done
    }

    /// The account and the callers after one step.
    pub open spec fn step(self, step: Step) -> Shared {
        if 0 <= step.who < self.callers.len() {
            let caller = self.callers[step.who];
            match caller.phase {
                Phase::AddSum => Shared {
                    stats: TimeStats {
                        sum_ns: ((self.stats.sum_ns + caller.nanos) % 0x1_0000_0000_0000_0000) as u64,
                        ..self.stats
                    },
                    callers: self.callers.update(
                        step.who,
                        Caller { phase: Phase::AddCount, ..caller },
                    ),
                },
                Phase::AddCount => Shared {
                    stats: TimeStats {
                        count: ((self.stats.count + 1) % 0x1_0000_0000) as u32,
                        ..self.stats
                    },
                    callers: self.callers.update(step.who, Caller { phase: Phase::Load, ..caller }),
                },
                Phase::Load => Shared {
                    callers: self.callers.update(
                        step.who,
                        after_read(caller, self.stats.max_ns),
                    ),
                    ..self
                },
                Phase::Swap => if self.stats.max_ns == caller.seen && !step.fails {
                    Shared {
                        stats: TimeStats { max_ns: caller.nanos, ..self.stats },
                        callers: self.callers.update(
                            step.who,
                            Caller { phase: Phase::Done, ..caller },
                        ),
                    }
                } else {
                    Shared {
                        callers: self.callers.update(
                            step.who,
                            after_read(caller, self.stats.max_ns),
                        ),
                        ..self
                    }
                },
                Phase::Done => self,
            }
        } else {
            self
        }
    }

    /// The account and the callers after the steps, taken in their order.
    pub open spec fn run(self, steps: Seq<Step>) -> Shared
        decreases steps.len(),
    {
        if steps.len() == 0 {
            self
        } else {
            self.run(steps.drop_last()).step(steps.last())
        }
    }

    /// What holds at every moment of a run that began with `start` and the
    /// durations `nanos`: the count and the sum hold what the callers have
    /// added so far; the maximum has not fallen, is the one at the start or
    /// the duration of a caller, and is not below the duration of any caller
    /// that has returned.
    pub open spec fn consistent(self, start: TimeStats, nanos: Seq<u64>) -> bool {
        &&& self.callers.len() == nanos.len()
        &&& forall|i: int| 0 <= i < nanos.len() ==> (#[trigger] self.callers[i]).nanos == nanos[i]
        &&& self.stats.count == (start.count + counted(self.callers)) % 0x1_0000_0000
        &&& self.stats.sum_ns == (start.sum_ns + added(self.callers)) % 0x1_0000_0000_0000_0000
        &&& start.max_ns <= self.stats.max_ns
        &&& (self.stats.max_ns == start.max_ns || exists|i: int|
            0 <= i < nanos.len() && self.stats.max_ns == #[trigger] nanos[i])
        &&& forall|i: int|
            0 <= i < nanos.len() && (#[trigger] self.callers[i]).phase is Done ==> nanos[i]
                <= self.stats.max_ns
        &&& forall|i: int|
            0 <= i < nanos.len() && (#[trigger] self.callers[i]).phase is Swap
                ==> self.callers[i].seen < nanos[i]
    }
}

/// When one caller moves on, the sum of what was added and the number of
/// those who counted change by that caller's part alone.
pub proof fn lemma_one_caller_moves(callers: Seq<Caller>, who: int, moved: Caller)
    requires
        0 <= who < callers.len(),
    ensures
        added(callers.update(who, moved)) + (if has_added(callers[who]) {
            callers[who].nanos as nat
        } else {
            0
        }) == added(callers) + (if has_added(moved) {
            moved.nanos as nat
        } else {
            0
        }),
        counted(callers.update(who, moved)) + (if has_counted(callers[who]) {
            1nat
        } else {
            0
        }) == counted(callers) + (if has_counted(moved) {
            1nat
        } else {
            0
        }),
    decreases callers.len(),
{
    let after = callers.update(who, moved);
    if who == callers.len() - 1 {
        assert(after.drop_last() =~= callers.drop_last());
    } else {
        lemma_one_caller_moves(callers.drop_last(), who, moved);
        assert(after.drop_last() =~= callers.drop_last().update(who, moved));
    }
}

/// Before any caller has begun nothing is added; when all have returned,
/// every duration is added and every caller has counted.
pub proof fn lemma_first_and_last(callers: Seq<Caller>, nanos: Seq<u64>)
    requires
        callers.len() == nanos.len(),
        forall|i: int| 0 <= i < nanos.len() ==> (#[trigger] callers[i]).nanos == nanos[i],
    ensures
        (forall|i: int| 0 <= i < callers.len() ==> (#[trigger] callers[i]).phase is AddSum) ==> added(
            callers,
        ) == 0 && counted(callers) == 0,
        (forall|i: int| 0 <= i < callers.len() ==> (#[trigger] callers[i]).phase is Done) ==> added(
            callers,
        ) == total(nanos) && counted(callers) == nanos.len(),
    decreases callers.len(),
{
    if callers.len() > 0 {
        let head = callers.drop_last();
        lemma_first_and_last(head, nanos.drop_last());
    }
}

/// The largest of some numbers is not below any of them, and is one of them
/// where there is any.
pub proof fn lemma_largest(nanos: Seq<u64>)
    ensures
        forall|i: int| 0 <= i < nanos.len() ==> #[trigger] nanos[i] <= largest(nanos),
        nanos.len() > 0 ==> exists|i: int| 0 <= i < nanos.len() && largest(nanos) == #[trigger] nanos[i],
        nanos.len() == 0 ==> largest(nanos) == 0,
    decreases nanos.len(),
{
    if nanos.len() > 0 {
        let head = nanos.drop_last();
        lemma_largest(head);
        assert forall|i: int| 0 <= i < nanos.len() implies #[trigger] nanos[i] <= largest(nanos) by {
            if i < head.len() {
                assert(head[i] == nanos[i]);
            }
        }
    }
}

/// A step keeps a run consistent.
pub proof fn lemma_step_consistent(shared: Shared, start: TimeStats, nanos: Seq<u64>, step: Step)
    requires
        shared.consistent(start, nanos),
    ensures
        shared.step(step).consistent(start, nanos),
{
    let next = shared.step(step);
    if 0 <= step.who < shared.callers.len() {
        let who = step.who;
        lemma_one_caller_moves(shared.callers, who, next.callers[who]);
        assert forall|i: int|
            0 <= i < nanos.len() && (#[trigger] next.callers[i]).phase is Done implies nanos[i]
            <= next.stats.max_ns by {}
    }
}

/// A run is consistent at its end.
pub proof fn lemma_run_consistent(start: TimeStats, nanos: Seq<u64>, steps: Seq<Step>)
    ensures
        Shared::started(start, nanos).run(steps).consistent(start, nanos),
    decreases steps.len(),
{
    let first = Shared::started(start, nanos);
    if steps.len() == 0 {
        lemma_first_and_last(first.callers, nanos);
    } else {
        lemma_run_consistent(start, nanos, steps.drop_last());
        lemma_step_consistent(first.run(steps.drop_last()), start, nanos, steps.last());
    }
}

/// However the steps of the callers fall among each other, once every
/// caller has returned the account holds what it would hold had the callers
/// come one after the other: the count has gone up by their number, the sum
/// by the total of their durations, and the maximum is the longest duration,
/// or the maximum at the start where that was longer.
pub proof fn lemma_any_interleaving(start: TimeStats, nanos: Seq<u64>, steps: Seq<Step>)
    requires
        Shared::started(start, nanos).run(steps).finished(),
    ensures
        Shared::started(start, nanos).run(steps).stats == start.updated_all(nanos),
        Shared::started(start, nanos).run(steps).stats.count == (start.count + nanos.len())
            % 0x1_0000_0000,
        Shared::started(start, nanos).run(steps).stats.sum_ns == (start.sum_ns + total(nanos))
            % 0x1_0000_0000_0000_0000,
        Shared::started(start, nanos).run(steps).stats.max_ns == if largest(nanos)
            > start.max_ns {
            largest(nanos)
        } else {
            start.max_ns as nat
        },
{
    let end = Shared::started(start, nanos).run(steps);
    lemma_run_consistent(start, nanos, steps);
    lemma_first_and_last(end.callers, nanos);
    lemma_largest(nanos);
    lemma_updated_all(start, nanos);
    assert forall|i: int| 0 <= i < nanos.len() implies #[trigger] nanos[i] <= end.stats.max_ns by {
        assert(end.callers[i].phase is Done);
    }
}

} // verus!
