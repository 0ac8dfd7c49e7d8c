use stats_collector::{
    ArcBatch, Batch, Collector, Countable, Counter, CounterType, CounterValue, Delivery, Duration,
    Module, NoTagModule, OwnedCountable, PreHook, QueueStats, SendError, SingleTagModule,
    StatsOption, Tick,
};
use std::sync::atomic::{AtomicBool, AtomicUsize, Ordering};
use std::sync::Arc;

struct Producer {
    points: Vec<Counter>,
    closed: Arc<AtomicBool>,
}

impl Producer {
    fn new(points: Vec<Counter>) -> (Producer, Arc<AtomicBool>) {
        let closed = Arc::new(AtomicBool::new(false));
        (Producer { points, closed: closed.clone() }, closed)
    }
}

impl OwnedCountable for Producer {
    fn get_counters(&self) -> Vec<Counter> {
        self.points.clone()
    }

    fn closed(&self) -> bool {
        self.closed.load(Ordering::Relaxed)
    }
}

struct Tagged {
    name: &'static str,
    tags: Vec<(&'static str, &'static str)>,
}

impl Module for Tagged {
    fn name(&self) -> &'static str {
        self.name
    }

    fn tags(&self) -> Vec<StatsOption> {
        self.tags.iter().map(|(k, v)| StatsOption::Tag(k, v.to_string())).collect()
    }

    fn options(&self) -> Vec<StatsOption> {
        vec![]
    }
}

struct Count(Arc<AtomicUsize>, usize);

impl PreHook for Count {
    fn run(&mut self) {
        self.1 += 1;
        self.0.store(self.0.load(Ordering::Relaxed) * 10 + self.1, Ordering::Relaxed);
    }
}

fn errors(n: u64) -> Vec<Counter> {
    vec![("errors", CounterType::Counted, CounterValue::Unsigned(n))]
}

fn owned(points: Vec<Counter>) -> Countable {
    Countable::Owned(Box::new(Producer::new(points).0))
}

fn drain(collector: &mut Collector) -> Vec<ArcBatch> {
    let mut out = vec![];
    while let Some(batch) = collector.receive() {
        out.push(batch);
    }
    out
}

fn as_float(value: CounterValue) -> f64 {
    match value {
        CounterValue::Signed(i) => i as f64,
        CounterValue::Unsigned(u) => u as f64,
        CounterValue::Float(bits) => f64::from_bits(bits),
    }
}

#[test]
fn new_collector_holds_its_queue_as_the_one_source() {
    let collector = Collector::new("node-1");
    assert_eq!(collector.hostname(), "node-1");
    assert_eq!(collector.min_interval(), 10);
    assert!(!collector.is_running());
    assert_eq!(collector.last_run(), 0);
    assert_eq!(collector.get_receiver().len(), 0);
    assert_eq!(collector.get_receiver().capacity(), 4096);
    assert!(!collector.get_receiver().terminated());
    let sources = collector.sources();
    assert_eq!(sources.len(), 1);
    assert_eq!(sources[0].module, "queue");
    assert_eq!(
        sources[0].tags,
        vec![("index", "0".to_string()), ("module", "0-stats-to-sender".to_string())]
    );
    assert_eq!(sources[0].interval, 10);
    assert_eq!(sources[0].skip, 0);
    assert!(matches!(sources[0].countable, Countable::Outbound));
}

#[test]
fn registering_an_identity_twice_leaves_one_entry() {
    let mut collector = Collector::new("host");
    let module = SingleTagModule("queue", "index", "0".to_string());
    let first = collector.register_countable(&module, owned(errors(1)));
    assert!(!first.replaced);
    assert_eq!(collector.sources().len(), 2);
    let second = collector.register_countable(&module, owned(errors(2)));
    assert!(second.replaced);
    assert_eq!(collector.sources().len(), 2);
    let same: Vec<_> = collector
        .sources()
        .iter()
        .filter(|s| s.module == "queue" && s.tags == vec![("index", "0".to_string())])
        .collect();
    assert_eq!(same.len(), 1);
    collector.start();
    collector.tick(50);
    let batches = drain(&mut collector);
    let ours: Vec<_> = batches.iter().filter(|b| b.batch().tags.len() == 1).collect();
    assert_eq!(ours.len(), 1);
    assert_eq!(ours[0].batch().points, errors(2));
}

#[test]
fn replacing_a_closed_source_is_no_replacement() {
    let mut collector = Collector::new("host");
    let module = NoTagModule("worker");
    let (producer, closed) = Producer::new(errors(1));
    collector.register_countable(&module, Countable::Owned(Box::new(producer)));
    closed.store(true, Ordering::Relaxed);
    let report = collector.register_countable(&module, owned(errors(2)));
    assert!(!report.replaced);
    assert_eq!(collector.sources().len(), 2);
}

#[test]
fn registration_prunes_closed_sources_of_other_identities() {
    let mut collector = Collector::new("host");
    let (producer, closed) = Producer::new(errors(1));
    collector.register_countable(&NoTagModule("a"), Countable::Owned(Box::new(producer)));
    collector.register_countable(&NoTagModule("b"), owned(errors(2)));
    assert_eq!(collector.sources().len(), 3);
    closed.store(true, Ordering::Relaxed);
    collector.register_countable(&NoTagModule("c"), owned(errors(3)));
    let names: Vec<_> = collector.sources().iter().map(|s| s.module).collect();
    assert_eq!(names, vec!["queue", "b", "c"]);
}

#[test]
fn same_name_with_other_tags_is_another_identity() {
    let mut collector = Collector::new("host");
    collector.register_countable(&SingleTagModule("w", "id", "1".to_string()), owned(errors(1)));
    let report =
        collector.register_countable(&SingleTagModule("w", "id", "2".to_string()), owned(errors(1)));
    assert!(!report.replaced);
    assert_eq!(collector.sources().len(), 3);
}

#[test]
fn duplicate_tag_keys_are_ignored_and_reported() {
    let mut collector = Collector::new("host");
    let module = Tagged { name: "m", tags: vec![("a", "1"), ("b", "2"), ("a", "3"), ("b", "4")] };
    let report = collector.register_countable(&module, owned(errors(1)));
    assert_eq!(report.ignored_tags, 2);
    assert_eq!(report.ignored_options, 0);
    assert_eq!(
        collector.sources()[1].tags,
        vec![("a", "1".to_string()), ("b", "2".to_string())]
    );
}

#[test]
fn closed_source_is_pruned_without_a_batch() {
    let mut collector = Collector::new("host");
    let (producer, closed) = Producer::new(errors(3));
    collector.register_countable(&NoTagModule("dying"), Countable::Owned(Box::new(producer)));
    collector.register_countable(&NoTagModule("living"), owned(errors(4)));
    collector.start();
    collector.tick(100);
    let names: Vec<_> = drain(&mut collector).iter().map(|b| b.batch().module).collect();
    assert_eq!(names, vec!["queue", "dying", "living"]);

    closed.store(true, Ordering::Relaxed);
    let outcome = collector.tick(110);
    assert_eq!(outcome, Tick::Sampled { batches: 2, dropped: 0 });
    let names: Vec<_> = drain(&mut collector).iter().map(|b| b.batch().module).collect();
    assert_eq!(names, vec!["queue", "living"]);
    let left: Vec<_> = collector.sources().iter().map(|s| s.module).collect();
    assert_eq!(left, vec!["queue", "living"]);
}

#[test]
fn deregister_removes_by_name_and_normalized_tags() {
    let mut collector = Collector::new("host");
    collector.register_countable(&SingleTagModule("w", "id", "1".to_string()), owned(errors(1)));
    collector.register_countable(&SingleTagModule("w", "id", "2".to_string()), owned(errors(1)));
    collector.register_countable(&NoTagModule("w"), owned(errors(1)));
    assert_eq!(collector.sources().len(), 4);

    let twice = Tagged { name: "w", tags: vec![("id", "2"), ("id", "9")] };
    let gone = NoTagModule("absent");
    let modules: Vec<&dyn Module> = vec![&twice, &gone];
    collector.deregister_countables(&modules);
    let left: Vec<_> = collector.sources().iter().map(|s| (s.module, s.tags.len())).collect();
    assert_eq!(left, vec![("queue", 2), ("w", 1), ("w", 0)]);
    assert_eq!(collector.sources()[1].tags, vec![("id", "1".to_string())]);

    collector.deregister("w", &vec![]);
    assert_eq!(collector.sources().len(), 2);
    let own = QueueStats { id: 0, module: "0-stats-to-sender" };
    let modules: Vec<&dyn Module> = vec![&own];
    collector.deregister_countables(&modules);
    assert_eq!(collector.sources().len(), 1);
    assert_eq!(collector.sources()[0].module, "w");
}

#[test]
fn hostname_is_replaced_unless_empty() {
    let mut collector = Collector::new("first");
    assert!(!collector.set_hostname(String::new()));
    assert_eq!(collector.hostname(), "first");
    assert!(!collector.set_hostname("first".to_string()));
    assert!(collector.set_hostname("second".to_string()));
    assert_eq!(collector.hostname(), "second");
}

#[test]
fn start_is_idempotent_and_stop_ends_the_loop() {
    let mut collector = Collector::new("host");
    assert_eq!(collector.tick(100), Tick::Stopped);
    assert!(!collector.notify_stop());
    assert!(collector.start());
    assert!(!collector.start());
    assert!(collector.is_running());
    assert!(matches!(collector.tick(100), Tick::Sampled { .. }));
    assert_eq!(collector.last_run(), 100);
    assert!(!collector.start());
    assert_eq!(collector.last_run(), 100);
    assert!(collector.notify_stop());
    assert!(!collector.is_running());
    assert_eq!(collector.tick(200), Tick::Stopped);
    assert_eq!(collector.last_run(), 100);
    assert!(collector.start());
    assert_eq!(collector.last_run(), 0);
}

#[test]
fn tick_within_the_same_period_is_idle() {
    let mut collector = Collector::new("host");
    collector.start();
    assert_eq!(collector.tick(5), Tick::Idle);
    assert_eq!(collector.get_receiver().len(), 0);
    assert_eq!(collector.tick(10), Tick::Sampled { batches: 1, dropped: 0 });
    assert_eq!(collector.tick(19), Tick::Idle);
    assert_eq!(collector.get_receiver().len(), 1);
    assert_eq!(collector.tick(20), Tick::Sampled { batches: 1, dropped: 0 });
    assert_eq!(collector.get_receiver().len(), 2);
}

#[test]
fn hooks_run_in_order_once_per_eligible_tick() {
    let mut collector = Collector::new("host");
    let trace = Arc::new(AtomicUsize::new(0));
    collector.register_pre_hook(Box::new(Count(trace.clone(), 0)));
    collector.register_pre_hook(Box::new(Count(trace.clone(), 4)));
    collector.start();
    collector.tick(3);
    assert_eq!(trace.load(Ordering::Relaxed), 0);
    collector.tick(10);
    assert_eq!(trace.load(Ordering::Relaxed), 15);
    collector.tick(20);
    assert_eq!(trace.load(Ordering::Relaxed), 1526);
}

#[test]
fn source_without_counters_makes_no_batch() {
    let mut collector = Collector::new("host");
    collector.register_countable(&NoTagModule("silent"), owned(vec![]));
    collector.start();
    assert_eq!(collector.tick(10), Tick::Sampled { batches: 1, dropped: 0 });
    let names: Vec<_> = drain(&mut collector).iter().map(|b| b.batch().module).collect();
    assert_eq!(names, vec!["queue"]);
}

#[test]
fn queue_source_reports_the_backlog_at_its_turn() {
    let mut collector = Collector::new("host");
    collector.start();
    collector.tick(10);
    collector.tick(20);
    collector.tick(30);
    let batches = drain(&mut collector);
    let backlog: Vec<_> = batches.iter().map(|b| b.batch().points.clone()).collect();
    assert_eq!(
        backlog,
        vec![
            vec![("pending", CounterType::Gauged, CounterValue::Unsigned(0))],
            vec![("pending", CounterType::Gauged, CounterValue::Unsigned(1))],
            vec![("pending", CounterType::Gauged, CounterValue::Unsigned(2))],
        ]
    );
}

#[test]
fn end_to_end_one_batch_and_its_record() {
    let mut collector = Collector::with_min_interval("node-7", Duration::from_secs(10));
    let module = SingleTagModule("flow-map", "severity", "high".to_string());
    let report = collector.register_countable(&module, owned(errors(5)));
    assert_eq!(report.ignored_tags, 0);
    assert_eq!(report.ignored_options, 0);
    assert!(!report.replaced);
    assert_eq!(collector.sources()[1].interval, 10);
    assert_eq!(collector.sources()[1].skip, 0);
    collector.start();
    let now: u64 = 1_700_000_000;
    assert_eq!(collector.tick(now), Tick::Sampled { batches: 2, dropped: 0 });
    let batches = drain(&mut collector);
    let ours: Vec<_> = batches.iter().filter(|b| b.batch().module == "flow-map").collect();
    assert_eq!(ours.len(), 1);
    let batch = ours[0].batch();
    assert_eq!(batch.hostname, "node-7");
    assert_eq!(batch.tags, vec![("severity", "high".to_string())]);
    assert_eq!(batch.points, errors(5));
    assert_eq!(batch.timestamp, 1_700_000_000);

    let record = ours[0].to_stats();
    assert_eq!(record.name, "deepflow_agent_flow_map");
    assert_eq!(record.timestamp, 1_700_000_000);
    assert_eq!(record.tag_names, vec!["severity", "host"]);
    assert_eq!(record.tag_values, vec!["high", "node-7"]);
    assert_eq!(record.metrics_float_names, vec!["errors"]);
    let values: Vec<f64> = record.metrics_float_values.iter().map(|v| as_float(*v)).collect();
    assert_eq!(values, vec![5.0]);
    assert_eq!(record.org_id, 0);
    assert_eq!(record.team_id, 0);
}

#[test]
fn timestamp_keeps_the_low_32_bits() {
    let mut collector = Collector::with_min_interval("h", Duration::from_secs(1));
    collector.start();
    collector.tick(0x1_0000_0005);
    let batches = drain(&mut collector);
    assert_eq!(batches[0].batch().timestamp, 5);
}

#[test]
fn hostname_is_taken_at_the_tick() {
    let mut collector = Collector::new("before");
    collector.start();
    collector.tick(10);
    collector.set_hostname("after".to_string());
    collector.tick(20);
    let hosts: Vec<_> = drain(&mut collector).iter().map(|b| b.batch().hostname.clone()).collect();
    assert_eq!(hosts, vec!["before", "after"]);
}

#[test]
fn full_queue_drops_the_batch_and_the_tick_goes_on() {
    let mut collector = Collector::new("host");
    collector.register_countable(&NoTagModule("w"), owned(errors(1)));
    for _ in 0..4096 {
        assert_eq!(collector.hand_off(1, errors(9), "host", 1), Delivery::Queued);
    }
    assert_eq!(collector.get_receiver().len(), 4096);
    assert_eq!(collector.hand_off(1, errors(9), "host", 1), Delivery::Dropped(SendError::Full));
    assert_eq!(collector.get_receiver().len(), 4096);
    collector.start();
    assert_eq!(collector.tick(10), Tick::Sampled { batches: 2, dropped: 2 });
    assert_eq!(collector.get_receiver().len(), 4096);
    assert_eq!(collector.sources().len(), 2);
    assert!(collector.receive().is_some());
    assert_eq!(collector.tick(20), Tick::Sampled { batches: 2, dropped: 1 });
    let last = drain(&mut collector).pop().unwrap();
    assert_eq!(last.batch().module, "queue");
    assert_eq!(
        last.batch().points,
        vec![("pending", CounterType::Gauged, CounterValue::Unsigned(4095))]
    );
}

#[test]
fn closed_receiver_drops_every_batch_and_prunes_the_queue_source() {
    let mut collector = Collector::new("host");
    collector.register_countable(&NoTagModule("w"), owned(errors(1)));
    collector.close_receiver();
    assert_eq!(
        collector.hand_off(1, errors(9), "host", 1),
        Delivery::Dropped(SendError::Terminated)
    );
    collector.start();
    assert_eq!(collector.tick(10), Tick::Sampled { batches: 1, dropped: 1 });
    assert_eq!(collector.get_receiver().len(), 0);
    let left: Vec<_> = collector.sources().iter().map(|s| s.module).collect();
    assert_eq!(left, vec!["w"]);
}

#[test]
fn phases_of_a_tick_by_hand() {
    let mut collector = Collector::new("host");
    collector.register_countable(&NoTagModule("a"), owned(errors(1)));
    collector.register_countable(&NoTagModule("b"), owned(errors(2)));
    assert_eq!(collector.probe(), vec![false, false, false]);
    collector.prune(&vec![false, true, false]);
    let left: Vec<_> = collector.sources().iter().map(|s| s.module).collect();
    assert_eq!(left, vec!["queue", "b"]);
    assert!(collector.count_down(1));
    assert_eq!(collector.sources()[1].skip, 1);
    assert_eq!(collector.sample(1), errors(2));
    assert_eq!(
        collector.sample(0),
        vec![("pending", CounterType::Gauged, CounterValue::Unsigned(0))]
    );
    assert_eq!(collector.hand_off(1, vec![], "host", 7), Delivery::Empty);
    assert_eq!(collector.hand_off(1, errors(2), "host", 7), Delivery::Queued);
    let batch = collector.receive().unwrap();
    assert_eq!(batch.batch().module, "b");
    assert_eq!(batch.batch().timestamp, 7);
}

#[test]
fn batch_can_be_built_and_shared() {
    let batch = Batch {
        module: "m",
        hostname: "h".to_string(),
        tags: vec![],
        points: errors(1),
        timestamp: 9,
    };
    let shared = ArcBatch::new(batch);
    assert_eq!(shared.batch().timestamp, 9);
    assert_eq!(shared.message_type(), stats_collector::SendMessageType::DeepflowStats);
}

#[test]
fn eligibility_can_be_asked_before_the_tick() {
    let mut collector = Collector::new("host");
    assert!(!collector.eligible_at(100));
    collector.start();
    assert!(!collector.eligible_at(9));
    assert!(collector.eligible_at(10));
    collector.tick(10);
    assert!(!collector.eligible_at(19));
    assert!(collector.eligible_at(20));
    collector.notify_stop();
    assert!(!collector.eligible_at(20));
}

#[test]
fn what_a_module_registered_it_can_deregister() {
    let mut collector = Collector::new("host");
    let zero = SingleTagModule("queue", "index", "0".to_string());
    let one = SingleTagModule("queue", "index", "1".to_string());
    collector.register_countable(&zero, owned(errors(1)));
    assert_eq!(collector.sources().len(), 2);
    collector.deregister_countables(&vec![&one]);
    assert_eq!(collector.sources().len(), 2);
    collector.deregister_countables::<SingleTagModule>(&vec![]);
    assert_eq!(collector.sources().len(), 2);
    collector.deregister_countables(&vec![&zero]);
    assert_eq!(collector.sources().len(), 1);
    assert_eq!(collector.sources()[0].tags.len(), 2);
}

#[test]
fn sources_can_be_sampled_without_the_hooks() {
    let mut collector = Collector::new("host");
    let trace = Arc::new(AtomicUsize::new(0));
    collector.register_pre_hook(Box::new(Count(trace.clone(), 0)));
    let (producer, closed) = Producer::new(errors(3));
    collector.register_countable(&NoTagModule("dying"), Countable::Owned(Box::new(producer)));
    collector.register_countable(&NoTagModule("living"), owned(errors(4)));
    assert_eq!(collector.sample_all(70), (3, 0));
    assert_eq!(collector.last_run(), 70);
    assert_eq!(trace.load(Ordering::Relaxed), 0);
    let batches = drain(&mut collector);
    let names: Vec<_> = batches.iter().map(|b| b.batch().module).collect();
    assert_eq!(names, vec!["queue", "dying", "living"]);
    assert_eq!(batches[1].batch().points, errors(3));
    assert_eq!(batches[1].batch().timestamp, 70);
    closed.store(true, Ordering::Relaxed);
    assert_eq!(collector.probe(), vec![false, true, false]);
    assert_eq!(collector.sample_all(71), (2, 0));
    let left: Vec<_> = collector.sources().iter().map(|s| s.module).collect();
    assert_eq!(left, vec!["queue", "living"]);
}

#[test]
fn producers_are_asked_directly() {
    let (producer, closed) = Producer::new(errors(8));
    assert_eq!(stats_collector::counter::ask_counters(&producer), errors(8));
    assert!(!stats_collector::counter::ask_closed(&producer));
    closed.store(true, Ordering::Relaxed);
    assert!(stats_collector::counter::ask_closed(&producer));
}
