//! The arithmetic of the sampling schedule: how a requested interval becomes
//! an effective one, and how a source counts eligible ticks down to its next
//! sample.

use crate::duration::{Duration, NANOS_PER_SEC};
use vstd::prelude::*;

verus! {

/// The period at which the scheduling loop wakes, in seconds.
pub const TICK_CYCLE_SECS: u64 = 1;

/// The minimum sampling interval of a collector made without one, in seconds.
pub const STATS_MIN_INTERVAL_SECS: u64 = 10;

/// The tick cadence in nanoseconds.
pub open spec fn tick_nanos() -> nat {
    (TICK_CYCLE_SECS as nat) * (NANOS_PER_SEC as nat)
}

/// The least multiple of `unit` that is not below `value`.
pub open spec fn round_up(value: nat, unit: nat) -> nat
    recommends
        unit > 0,
{
    (((value + unit - 1) / (unit as int)) * unit) as nat
}

/// The greatest multiple of `unit` that is not above `value`.
pub open spec fn round_down(value: nat, unit: nat) -> nat
    recommends
        unit > 0,
{
    ((value / unit) * unit) as nat
}

/// The effective minimum interval for a requested one, both in nanoseconds:
/// one tick where the request is not above one tick, else the request rounded
/// up to a whole number of ticks.
pub open spec fn min_interval_nanos(requested: nat) -> nat {
    if requested <= tick_nanos() {
        tick_nanos()
    } else {
        round_up(requested, tick_nanos())
    }
}

/// Whether an interval override is accepted under a minimum interval given in
/// seconds: it is, unless it is shorter than the minimum.
pub open spec fn override_accepted(requested: nat, min_secs: nat) -> bool {
    requested >= min_secs * (NANOS_PER_SEC as nat)
}

/// The countdown that a newly registered source starts with.
pub open spec fn initial_skip(interval: nat, min: nat) -> nat
    recommends
        min > 0,
{
    if interval > min {
        interval / min
    } else {
        0
    }
}

/// The countdown that a source restarts with when it is sampled.
pub open spec fn reload_skip(interval: nat, min: nat) -> nat
    recommends
        min > 0,
{
    if interval > min {
        interval / min
    } else {
        1
    }
}

/// Whether a source with countdown `skip` is sampled on the next eligible
/// tick: it is when the countdown, decremented, is no longer positive.
pub open spec fn due(skip: nat) -> bool {
    skip - 1 <= 0
}

/// The countdown of a source after one eligible tick.
pub open spec fn skip_after_tick(skip: nat, interval: nat, min: nat) -> nat
    recommends
        min > 0,
{
    if due(skip) {
        reload_skip(interval, min)
    } else {
        (skip - 1) as nat
    }
}

/// The countdown of a source after `n` eligible ticks.
pub open spec fn skip_after_ticks(skip: nat, interval: nat, min: nat, n: nat) -> nat
    recommends
        min > 0,
    decreases n,
{
    if n == 0 {
        skip
    } else {
        skip_after_tick(skip_after_ticks(skip, interval, min, (n - 1) as nat), interval, min)
    }
}

/// Whether a source that starts with countdown `skip` is sampled on the
/// `n`-th eligible tick, counted from one.
pub open spec fn sampled_on_tick(skip: nat, interval: nat, min: nat, n: nat) -> bool
    recommends
        min > 0,
        n >= 1,
{
    n >= 1 && due(skip_after_ticks(skip, interval, min, (n - 1) as nat))
}

/// Whether a wake at time `now` is an eligible tick, given the time of the
/// last eligible tick: it is when the two fall into different periods of the
/// minimum interval.
pub open spec fn eligible(now: nat, last_run: nat, min: nat) -> bool
    recommends
        min > 0,
{
    now / min != last_run / min
}

/// `round_up` gives a multiple of the unit, not below the value and less than
/// one unit above it; no smaller multiple of the unit reaches the value.
pub proof fn lemma_round_up(value: nat, unit: nat)
    requires
        unit > 0,
    ensures
        round_up(value, unit) % unit == 0,
        value <= round_up(value, unit) < value + unit,
        forall|k: nat| k * unit >= value ==> #[trigger] (k * unit) >= round_up(value, unit),
{
    let q = (value + unit - 1) / (unit as int);
    assert(q * unit <= value + unit - 1 < q * unit + unit && q >= 0 && (q * unit) % (unit as int)
        == 0) by (nonlinear_arith)
        requires
            q == (value + unit - 1) / (unit as int),
            unit > 0,
    ;
    assert forall|k: nat| k * unit >= value implies #[trigger] (k * unit) >= round_up(
        value,
        unit,
    ) by {
        assert(k >= q) by (nonlinear_arith)
            requires
                k * unit >= value,
                q * unit < value + unit,
                unit > 0,
        ;
        assert(k * unit >= q * unit) by (nonlinear_arith)
            requires
                k >= q,
                unit > 0,
        ;
    }
}

/// `round_down` gives a multiple of the unit, not above the value and less
/// than one unit below it.
pub proof fn lemma_round_down(value: nat, unit: nat)
    requires
        unit > 0,
    ensures
        round_down(value, unit) % unit == 0,
        round_down(value, unit) <= value < round_down(value, unit) + unit,
{
    let q = (value as int) / (unit as int);
    assert(q * unit <= value < q * unit + unit && q >= 0 && (q * unit) % (unit as int) == 0)
        by (nonlinear_arith)
        requires
            q == (value as int) / (unit as int),
            value >= 0,
            unit > 0,
    ;
}

/// A requested minimum interval that is not above the tick cadence becomes
/// one tick; a longer one becomes the next whole number of ticks: a multiple
/// of the tick cadence, not below the request and less than one tick above
/// it.
pub proof fn lemma_min_interval_rounding(requested: nat)
    ensures
        requested <= tick_nanos() ==> min_interval_nanos(requested) == tick_nanos(),
        min_interval_nanos(requested) % tick_nanos() == 0,
        min_interval_nanos(requested) >= tick_nanos(),
        requested > tick_nanos() ==> requested <= min_interval_nanos(requested) < requested
            + tick_nanos(),
        requested % tick_nanos() == 0 && requested > 0 ==> min_interval_nanos(requested)
            == requested,
{
    lemma_round_up(requested, tick_nanos());
    let unit = tick_nanos() as int;
    assert(unit % unit == 0) by (nonlinear_arith)
        requires
            unit > 0,
    ;
    if requested % tick_nanos() == 0 && requested > 0 {
        let r = round_up(requested, tick_nanos()) as int;
        assert(r == requested) by (nonlinear_arith)
            requires
                r % unit == 0,
                (requested as int) % unit == 0,
                requested <= r < requested + unit,
                unit > 0,
        ;
        assert(requested >= unit) by (nonlinear_arith)
            requires
                (requested as int) % unit == 0,
                requested > 0,
                unit > 0,
        ;
    }
}

/// A source that starts with a countdown of `skip` is first sampled on
/// eligible tick number `skip`, or on the first one where `skip` is zero, and
/// on none before.
pub proof fn lemma_first_sample(skip: nat, interval: nat, min: nat, n: nat)
    requires
        min > 0,
        n >= 1,
    ensures
        n < skip ==> !sampled_on_tick(skip, interval, min, n),
        n < skip ==> skip_after_ticks(skip, interval, min, n) == skip - n,
        n == skip || (skip == 0 && n == 1) ==> sampled_on_tick(skip, interval, min, n),
    decreases n,
{
    if n > 1 {
        lemma_first_sample(skip, interval, min, (n - 1) as nat);
    }
}

/// A newly registered source with the interval `interval` is first sampled
/// on the eligible tick whose number is how many minimum intervals fit into
/// `interval`, or on the first one where that is less than two; it is sampled
/// on none before.
pub proof fn lemma_first_sample_of_new_source(interval: nat, min: nat, n: nat)
    requires
        min > 0,
        n >= 1,
    ensures
        n < reload_skip(interval, min) ==> !sampled_on_tick(
            initial_skip(interval, min),
            interval,
            min,
            n,
        ),
        n == reload_skip(interval, min) ==> sampled_on_tick(
            initial_skip(interval, min),
            interval,
            min,
            n,
        ),
{
    lemma_reload_positive(interval, min);
    lemma_first_sample(initial_skip(interval, min), interval, min, n);
}

/// Once sampled, a source is sampled again exactly `reload_skip` eligible
/// ticks later and on none in between.
pub proof fn lemma_sample_period(skip: nat, interval: nat, min: nat, n: nat, k: nat)
    requires
        min > 0,
        n >= 1,
        k >= 1,
        sampled_on_tick(skip, interval, min, n),
    ensures
        k < reload_skip(interval, min) ==> !sampled_on_tick(skip, interval, min, n + k),
        k == reload_skip(interval, min) ==> sampled_on_tick(skip, interval, min, n + k),
{
    let reload = reload_skip(interval, min);
    lemma_reload_positive(interval, min);
    lemma_ticks_compose(skip, interval, min, n, (k - 1) as nat);
    lemma_first_sample(reload, interval, min, k);
    if k > 1 {
        lemma_first_sample(reload, interval, min, (k - 1) as nat);
    }
}

/// The countdown that a sampled source restarts with is at least one, and is
/// the number of minimum intervals that fit into its own interval.
pub proof fn lemma_reload_positive(interval: nat, min: nat)
    requires
        min > 0,
    ensures
        reload_skip(interval, min) >= 1,
        reload_skip(interval, min) * min <= if interval > min {
            interval
        } else {
            min
        },
{
    if interval > min {
        let q = interval / min;
        assert(q >= 1 && q * min <= interval) by (nonlinear_arith)
            requires
                q == interval / min,
                interval > min,
                min > 0,
        ;
    }
}

/// Counting down `a` ticks and then `b` more is counting down `a + b`.
pub proof fn lemma_ticks_compose(skip: nat, interval: nat, min: nat, a: nat, b: nat)
    ensures
        skip_after_ticks(skip_after_ticks(skip, interval, min, a), interval, min, b)
            == skip_after_ticks(skip, interval, min, a + b),
    decreases b,
{
    if b > 0 {
        lemma_ticks_compose(skip, interval, min, a, (b - 1) as nat);
    }
}

/// The effective minimum interval, in seconds, for a requested one.
pub fn min_interval_secs(requested: Duration) -> (secs: u64)
    requires
        requested.secs() < u64::MAX || requested.subsec() == 0,
    ensures
        secs * NANOS_PER_SEC == min_interval_nanos(requested.total_nanos()),
        secs >= TICK_CYCLE_SECS,
        secs % TICK_CYCLE_SECS == 0,
{
    let whole: u64 = requested.as_secs();
    let rest: u32 = requested.subsec_nanos();
    let ceil: u64 = if rest > 0 {
        whole + 1
    } else {
        whole
    };
    proof {
        let unit = NANOS_PER_SEC as int;
        let total = requested.total_nanos() as int;
        lemma_round_up(requested.total_nanos(), tick_nanos());
        if total > unit {
            let r = round_up(requested.total_nanos(), tick_nanos()) as int;
            assert(r == ceil * unit) by (nonlinear_arith)
                requires
                    r % unit == 0,
                    total <= r < total + unit,
                    total == whole * unit + rest,
                    0 <= rest < unit,
                    ceil == if rest > 0 {
                        whole + 1
                    } else {
                        whole as int
                    },
                    unit > 0,
            ;
            assert(ceil >= 1) by (nonlinear_arith)
                requires
                    ceil * unit == r,
                    r > unit,
                    unit > 0,
            ;
        } else {
            assert(ceil <= 1) by (nonlinear_arith)
                requires
                    whole * unit + rest <= unit,
                    0 <= rest < unit,
                    ceil == if rest > 0 {
                        whole + 1
                    } else {
                        whole as int
                    },
                    unit > 0,
                    whole >= 0,
            ;
        }
    }
    let over: u64 = ceil % TICK_CYCLE_SECS;
    if ceil <= TICK_CYCLE_SECS {
        TICK_CYCLE_SECS
    } else if over == 0 {
        ceil
    } else {
        ceil - over + TICK_CYCLE_SECS
    }
}

/// The interval, in seconds, that an override gives a source: the override
/// rounded down to a whole number of ticks where it is accepted, and nothing
/// where it is shorter than the minimum interval.
pub fn override_interval(requested: Duration, min_secs: u64) -> (accepted: Option<u64>)
    ensures
        accepted is Some <==> override_accepted(requested.total_nanos(), min_secs as nat),
        accepted matches Some(secs) ==> secs * NANOS_PER_SEC == round_down(
            requested.total_nanos(),
            tick_nanos(),
        ),
{
    let whole: u64 = requested.as_secs();
    proof {
        let unit = NANOS_PER_SEC as int;
        let total = requested.total_nanos() as int;
        let rest = requested.subsec() as int;
        requested.lemma_bounds();
        lemma_round_down(requested.total_nanos(), tick_nanos());
        let r = round_down(requested.total_nanos(), tick_nanos()) as int;
        assert(r == whole * unit) by (nonlinear_arith)
            requires
                r % unit == 0,
                r <= total < r + unit,
                total == whole * unit + rest,
                0 <= rest < unit,
                unit > 0,
        ;
        assert(total >= min_secs * unit <==> whole >= min_secs) by (nonlinear_arith)
            requires
                total == whole * unit + rest,
                0 <= rest < unit,
                unit > 0,
        ;
    }
    if whole >= min_secs {
        Some(whole / TICK_CYCLE_SECS * TICK_CYCLE_SECS)
    } else {
        None
    }
}

/// The countdown that a newly registered source starts with.
pub fn first_skip(interval: u64, min: u64) -> (skip: u64)
    requires
        min > 0,
    ensures
        skip == initial_skip(interval as nat, min as nat),
{
    if interval > min {
        interval / min
    } else {
        0
    }
}

/// One eligible tick for a source: whether it is sampled, and its countdown
/// afterwards.
pub fn count_down(skip: u64, interval: u64, min: u64) -> (next: (bool, u64))
    requires
        min > 0,
    ensures
        next.0 == due(skip as nat),
        next.1 == skip_after_tick(skip as nat, interval as nat, min as nat),
{
    if skip > 1 {
        (false, skip - 1)
    } else if interval > min {
        (true, interval / min)
    } else {
        (true, 1)
    }
}

/// Whether a wake at `now` is an eligible tick.
pub fn is_eligible(now: u64, last_run: u64, min: u64) -> (yes: bool)
    requires
        min > 0,
    ensures
        yes == eligible(now as nat, last_run as nat, min as nat),
{
    now / min != last_run / min
}

} // verus!
