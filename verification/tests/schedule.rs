use stats_collector::schedule::{
    count_down, first_skip, is_eligible, min_interval_secs, override_interval,
    STATS_MIN_INTERVAL_SECS, TICK_CYCLE_SECS,
};
use stats_collector::{
    Collector, Countable, Counter, CounterType, CounterValue, Duration, Module, OwnedCountable,
    StatsOption, Tick,
};

struct Errors(u64);

impl OwnedCountable for Errors {
    fn get_counters(&self) -> Vec<Counter> {
        vec![("errors", CounterType::Counted, CounterValue::Unsigned(self.0))]
    }

    fn closed(&self) -> bool {
        false
    }
}

struct Slow {
    intervals: Vec<Duration>,
}

impl Module for Slow {
    fn name(&self) -> &'static str {
        "slow"
    }

    fn tags(&self) -> Vec<StatsOption> {
        vec![]
    }

    fn options(&self) -> Vec<StatsOption> {
        self.intervals.iter().map(|d| StatsOption::Interval(*d)).collect()
    }
}

fn batches_of(collector: &mut Collector, module: &str) -> usize {
    let mut found = 0;
    while let Some(batch) = collector.receive() {
        if batch.batch().module == module {
            found += 1;
        }
    }
    found
}

#[test]
fn constants_are_one_second_and_ten_seconds() {
    assert_eq!(TICK_CYCLE_SECS, 1);
    assert_eq!(STATS_MIN_INTERVAL_SECS, 10);
}

#[test]
fn min_interval_below_one_tick_becomes_one_tick() {
    assert_eq!(min_interval_secs(Duration::from_millis(0)), 1);
    assert_eq!(min_interval_secs(Duration::from_millis(500)), 1);
    assert_eq!(min_interval_secs(Duration::from_nanos(999_999_999)), 1);
    assert_eq!(min_interval_secs(Duration::from_secs(1)), 1);
}

#[test]
fn min_interval_rounds_up_to_whole_ticks() {
    assert_eq!(min_interval_secs(Duration::new(1, 1)), 2);
    assert_eq!(min_interval_secs(Duration::from_millis(2500)), 3);
    assert_eq!(min_interval_secs(Duration::from_millis(9001)), 10);
    assert_eq!(min_interval_secs(Duration::from_secs(10)), 10);
    assert_eq!(min_interval_secs(Duration::from_secs(u64::MAX)), u64::MAX);
    assert_eq!(min_interval_secs(Duration::new(u64::MAX - 1, 1)), u64::MAX);
}

#[test]
fn collector_takes_the_effective_minimum() {
    assert_eq!(Collector::new("host").min_interval(), 10);
    assert_eq!(Collector::with_min_interval("host", Duration::from_millis(300)).min_interval(), 1);
    assert_eq!(Collector::with_min_interval("host", Duration::from_millis(4200)).min_interval(), 5);
    let mut collector = Collector::new("host");
    collector.set_min_interval(Duration::from_millis(1));
    assert_eq!(collector.min_interval(), 1);
    collector.set_min_interval(Duration::from_millis(61_500));
    assert_eq!(collector.min_interval(), 62);
}

#[test]
fn set_min_interval_leaves_countdowns_alone() {
    let mut collector = Collector::new("host");
    let slow = Slow { intervals: vec![Duration::from_secs(30)] };
    collector.register_countable(&slow, Countable::Owned(Box::new(Errors(1))));
    assert_eq!(collector.sources()[1].skip, 3);
    collector.set_min_interval(Duration::from_secs(1));
    assert_eq!(collector.sources()[1].skip, 3);
    assert_eq!(collector.sources()[1].interval, 30);
}

#[test]
fn override_is_floored_or_ignored() {
    assert_eq!(override_interval(Duration::from_secs(30), 10), Some(30));
    assert_eq!(override_interval(Duration::from_millis(30_999), 10), Some(30));
    assert_eq!(override_interval(Duration::from_secs(10), 10), Some(10));
    assert_eq!(override_interval(Duration::from_millis(9_999), 10), None);
    assert_eq!(override_interval(Duration::from_secs(0), 1), None);
}

#[test]
fn first_skip_counts_minimum_intervals() {
    assert_eq!(first_skip(30, 10), 3);
    assert_eq!(first_skip(35, 10), 3);
    assert_eq!(first_skip(10, 10), 0);
    assert_eq!(first_skip(5, 10), 0);
    assert_eq!(first_skip(11, 10), 1);
}

#[test]
fn count_down_samples_at_one_and_reloads() {
    assert_eq!(count_down(3, 30, 10), (false, 2));
    assert_eq!(count_down(2, 30, 10), (false, 1));
    assert_eq!(count_down(1, 30, 10), (true, 3));
    assert_eq!(count_down(0, 30, 10), (true, 3));
    assert_eq!(count_down(0, 10, 10), (true, 1));
    assert_eq!(count_down(1, 5, 10), (true, 1));
}

#[test]
fn eligibility_goes_by_periods_of_the_minimum() {
    assert!(is_eligible(10, 0, 10));
    assert!(!is_eligible(9, 0, 10));
    assert!(!is_eligible(19, 10, 10));
    assert!(is_eligible(20, 19, 10));
    assert!(!is_eligible(0, 0, 1));
    assert!(is_eligible(1, 0, 1));
}

#[test]
fn override_of_thirty_seconds_is_first_sampled_on_the_third_tick() {
    let mut collector = Collector::with_min_interval("host", Duration::from_secs(10));
    let slow = Slow { intervals: vec![Duration::from_secs(30)] };
    let report = collector.register_countable(&slow, Countable::Owned(Box::new(Errors(7))));
    assert_eq!(report.ignored_options, 0);
    assert_eq!(collector.sources()[1].interval, 30);
    assert_eq!(collector.sources()[1].skip, 3);
    assert!(collector.start());

    assert!(matches!(collector.tick(1000), Tick::Sampled { .. }));
    assert_eq!(batches_of(&mut collector, "slow"), 0);
    assert!(matches!(collector.tick(1010), Tick::Sampled { .. }));
    assert_eq!(batches_of(&mut collector, "slow"), 0);
    assert!(matches!(collector.tick(1020), Tick::Sampled { .. }));
    assert_eq!(batches_of(&mut collector, "slow"), 1);
    assert_eq!(collector.sources()[1].skip, 3);

    assert!(matches!(collector.tick(1030), Tick::Sampled { .. }));
    assert!(matches!(collector.tick(1040), Tick::Sampled { .. }));
    assert_eq!(batches_of(&mut collector, "slow"), 0);
    assert!(matches!(collector.tick(1050), Tick::Sampled { .. }));
    assert_eq!(batches_of(&mut collector, "slow"), 1);
}

#[test]
fn short_override_is_ignored_and_reported() {
    let mut collector = Collector::with_min_interval("host", Duration::from_secs(10));
    let slow = Slow { intervals: vec![Duration::from_secs(5)] };
    let report = collector.register_countable(&slow, Countable::Owned(Box::new(Errors(7))));
    assert_eq!(report.ignored_options, 1);
    assert_eq!(collector.sources()[1].interval, 10);
    assert_eq!(collector.sources()[1].skip, 0);
}

#[test]
fn last_accepted_override_wins() {
    let mut collector = Collector::with_min_interval("host", Duration::from_secs(10));
    let slow = Slow {
        intervals: vec![
            Duration::from_secs(20),
            Duration::from_secs(3),
            Duration::from_millis(45_500),
            Duration::from_secs(9),
        ],
    };
    let report = collector.register_countable(&slow, Countable::Owned(Box::new(Errors(7))));
    assert_eq!(report.ignored_options, 2);
    assert_eq!(collector.sources()[1].interval, 45);
    assert_eq!(collector.sources()[1].skip, 4);
}

#[test]
fn source_without_override_is_sampled_on_every_eligible_tick() {
    let mut collector = Collector::with_min_interval("host", Duration::from_secs(10));
    let slow = Slow { intervals: vec![] };
    collector.register_countable(&slow, Countable::Owned(Box::new(Errors(7))));
    collector.start();
    assert!(matches!(collector.tick(100), Tick::Sampled { .. }));
    assert_eq!(batches_of(&mut collector, "slow"), 1);
    assert_eq!(collector.tick(105), Tick::Idle);
    assert_eq!(batches_of(&mut collector, "slow"), 0);
    assert!(matches!(collector.tick(110), Tick::Sampled { .. }));
    assert_eq!(batches_of(&mut collector, "slow"), 1);
}
