use stats_collector::registry::retain_unflagged;
use stats_collector::tags::{collect_interval, collect_tags, contains_key, tags_eq};
use stats_collector::{
    Collector, Countable, Counter, Duration, OwnedCountable, Source, StatsOption, Tag,
};

struct Nothing;

impl OwnedCountable for Nothing {
    fn get_counters(&self) -> Vec<Counter> {
        vec![]
    }

    fn closed(&self) -> bool {
        false
    }
}

fn tag(key: &'static str, value: &str) -> StatsOption {
    StatsOption::Tag(key, value.to_string())
}

fn tags(pairs: &[(&'static str, &str)]) -> Vec<Tag> {
    pairs.iter().map(|(k, v)| (*k, v.to_string())).collect()
}

fn source(module: &'static str, pairs: &[(&'static str, &str)]) -> Source {
    Source {
        module,
        interval: 10,
        countable: Countable::Owned(Box::new(Nothing)),
        tags: tags(pairs),
        skip: 0,
    }
}

#[test]
fn first_tag_of_a_key_is_kept() {
    let declared = vec![
        tag("a", "1"),
        StatsOption::Interval(Duration::from_secs(60)),
        tag("b", "2"),
        tag("a", "3"),
    ];
    let (kept, ignored) = collect_tags(&declared);
    assert_eq!(kept, tags(&[("a", "1"), ("b", "2")]));
    assert_eq!(ignored, 2);
    assert_eq!(collect_tags(&vec![]), (vec![], 0));
}

#[test]
fn interval_is_the_last_accepted_override() {
    let declared = vec![
        StatsOption::Interval(Duration::from_millis(20_700)),
        tag("a", "1"),
        StatsOption::Interval(Duration::from_secs(9)),
    ];
    assert_eq!(collect_interval(&declared, 10, 10), (20, 2));
    assert_eq!(collect_interval(&declared, 30, 30), (30, 3));
    assert_eq!(collect_interval(&declared, 5, 5), (9, 1));
    assert_eq!(collect_interval(&vec![], 10, 10), (10, 0));
}

#[test]
fn keys_are_found_by_their_characters() {
    let set = tags(&[("host", "x"), ("index", "0")]);
    assert!(contains_key(&set, "host"));
    assert!(contains_key(&set, "index"));
    assert!(!contains_key(&set, "hos"));
    assert!(!contains_key(&set, "x"));
    assert!(!contains_key(&vec![], "host"));
}

#[test]
fn tag_sets_are_equal_in_order_only() {
    assert!(tags_eq(&tags(&[("a", "1"), ("b", "2")]), &tags(&[("a", "1"), ("b", "2")])));
    assert!(!tags_eq(&tags(&[("a", "1"), ("b", "2")]), &tags(&[("b", "2"), ("a", "1")])));
    assert!(!tags_eq(&tags(&[("a", "1")]), &tags(&[("a", "2")])));
    assert!(!tags_eq(&tags(&[("a", "1")]), &tags(&[("a", "1"), ("b", "2")])));
    assert!(tags_eq(&vec![], &vec![]));
}

#[test]
fn identity_is_name_and_tags() {
    let one = source("w", &[("id", "1")]);
    assert!(one.has_identity("w", &tags(&[("id", "1")])));
    assert!(!one.has_identity("v", &tags(&[("id", "1")])));
    assert!(!one.has_identity("w", &tags(&[("id", "2")])));
    assert!(!one.has_identity("w", &vec![]));
}

#[test]
fn declared_source_counts_down_from_its_interval() {
    let (declared, ignored_tags, ignored_options) = Source::declare(
        "w",
        &vec![tag("a", "1"), tag("a", "2")],
        &vec![StatsOption::Interval(Duration::from_secs(50)), tag("b", "1")],
        Countable::Outbound,
        20,
    );
    assert_eq!(declared.module, "w");
    assert_eq!(declared.tags, tags(&[("a", "1")]));
    assert_eq!(declared.interval, 50);
    assert_eq!(declared.skip, 2);
    assert_eq!(ignored_tags, 1);
    assert_eq!(ignored_options, 1);
    assert!(matches!(declared.countable, Countable::Outbound));
}

#[test]
fn flagged_items_leave_and_the_rest_keep_their_order() {
    let mut items = vec![10, 20, 30, 40, 50];
    retain_unflagged(&mut items, &vec![false, true, false, true, false]);
    assert_eq!(items, vec![10, 30, 50]);
    retain_unflagged(&mut items, &vec![true, true, true]);
    assert_eq!(items, Vec::<i32>::new());
    retain_unflagged(&mut items, &vec![]);
    assert_eq!(items, Vec::<i32>::new());
    let mut all = vec!["a", "b"];
    retain_unflagged(&mut all, &vec![false, false]);
    assert_eq!(all, vec!["a", "b"]);
}

#[test]
fn install_prunes_replaces_and_appends() {
    let mut collector = Collector::new("host");
    assert!(!collector.install(source("a", &[]), &vec![false]));
    assert!(!collector.install(source("b", &[]), &vec![false, false]));
    assert!(!collector.install(source("c", &[]), &vec![false, false, false]));
    let replaced = collector.install(source("b", &[]), &vec![false, true, false, false]);
    assert!(replaced);
    let names: Vec<_> = collector.sources().iter().map(|s| s.module).collect();
    assert_eq!(names, vec!["queue", "c", "b"]);
    let replaced = collector.install(source("c", &[]), &vec![false, true, false]);
    assert!(!replaced);
    let names: Vec<_> = collector.sources().iter().map(|s| s.module).collect();
    assert_eq!(names, vec!["queue", "b", "c"]);
}

#[test]
fn register_takes_plain_declarations() {
    let mut collector = Collector::with_min_interval("host", Duration::from_secs(2));
    let report = collector.register(
        "plain",
        vec![tag("k", "v"), tag("k", "w"), StatsOption::Interval(Duration::from_secs(9))],
        vec![StatsOption::Interval(Duration::from_secs(7)), StatsOption::Interval(Duration::from_secs(1))],
        Countable::Owned(Box::new(Nothing)),
    );
    assert_eq!(report.ignored_tags, 2);
    assert_eq!(report.ignored_options, 1);
    assert!(!report.replaced);
    let last = &collector.sources()[1];
    assert_eq!(last.module, "plain");
    assert_eq!(last.tags, tags(&[("k", "v")]));
    assert_eq!(last.interval, 7);
    assert_eq!(last.skip, 3);
}
