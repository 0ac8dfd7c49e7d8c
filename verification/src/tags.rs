//! Tag and interval declarations, and the tag set that a sequence of
//! declarations comes to.

use crate::duration::{Duration, NANOS_PER_SEC};
use crate::schedule::{override_accepted, override_interval, round_down, tick_nanos};
use crate::text::str_eq;
use vstd::prelude::*;

verus! {

/// A tag: its key and its value.
pub type Tag = (&'static str, String);

/// A tag as two sequences of characters.
pub type TagView = (Seq<char>, Seq<char>);

/// The key of the tag that names the host.
pub open spec fn host_key() -> Seq<char> {
    "host"@
}

/// A declaration that a module makes about itself.
#[derive(Debug)]
pub enum StatsOption {
    /// A tag, by key and value.
    Tag(&'static str, String),
    /// An override of the sampling interval.
    Interval(Duration),
}

/// A declaration with its strings as sequences of characters.
pub enum StatsOptionView {
    /// A tag, by key and value.
    Tag(Seq<char>, Seq<char>),
    /// An override of the sampling interval.
    Interval(Duration),
}

impl DeepView for StatsOption {
    type V = StatsOptionView;

    open spec fn deep_view(&self) -> StatsOptionView {
        match *self {
            StatsOption::Tag(k, v) => StatsOptionView::Tag(k@, v@),
            StatsOption::Interval(d) => StatsOptionView::Interval(d),
        }
    }
}

/// Whether one of the tags has the key.
pub open spec fn has_key(tags: Seq<TagView>, key: Seq<char>) -> bool {
    exists|i: int| 0 <= i < tags.len() && (#[trigger] tags[i]).0 == key
}

/// Whether no two of the tags share a key.
pub open spec fn unique_keys(tags: Seq<TagView>) -> bool {
    forall|i: int, j: int| 0 <= i < j < tags.len() ==> (#[trigger] tags[i]).0 != (#[trigger] tags[j]).0
}

/// The tag set that a sequence of declarations comes to: each tag in the
/// order declared, but for one whose key an earlier tag has; overrides of the
/// interval do not count.
pub open spec fn declared_tags(options: Seq<StatsOptionView>) -> Seq<TagView>
    decreases options.len(),
{
    if options.len() == 0 {
        Seq::empty()
    } else {
        let before = declared_tags(options.drop_last());
        match options.last() {
            StatsOptionView::Tag(k, v) => if has_key(before, k) {
                before
            } else {
                before.push((k, v))
            },
            StatsOptionView::Interval(_) => before,
        }
    }
}

/// The whole seconds that an accepted override of the interval comes to: the
/// override rounded down to a whole number of ticks.
pub open spec fn override_secs(requested: Duration) -> nat {
    round_down(requested.total_nanos(), tick_nanos()) / (NANOS_PER_SEC as nat)
}

/// The interval in seconds that a sequence of declarations comes to, starting
/// from `start`: that of the last override that is accepted under the minimum
/// interval `min`; tags do not count.
pub open spec fn declared_interval(options: Seq<StatsOptionView>, min: nat, start: nat) -> nat
    decreases options.len(),
{
    if options.len() == 0 {
        start
    } else {
        let before = declared_interval(options.drop_last(), min, start);
        match options.last() {
            StatsOptionView::Interval(d) => if override_accepted(d.total_nanos(), min) {
                override_secs(d)
            } else {
                before
            },
            StatsOptionView::Tag(_, _) => before,
        }
    }
}

/// How many of the declarations are overrides of the interval that are
/// accepted under the minimum interval `min`.
pub open spec fn accepted_overrides(options: Seq<StatsOptionView>, min: nat) -> nat
    decreases options.len(),
{
    if options.len() == 0 {
        0
    } else {
        let before = accepted_overrides(options.drop_last(), min);
        match options.last() {
            StatsOptionView::Interval(d) => if override_accepted(d.total_nanos(), min) {
                before + 1
            } else {
                before
            },
            StatsOptionView::Tag(_, _) => before,
        }
    }
}

/// The tag set of any sequence of declarations has no key twice, holds no
/// more tags than there are declarations, and holds a key exactly when a tag
/// with that key is declared.
pub proof fn lemma_declared_tags(options: Seq<StatsOptionView>)
    ensures
        unique_keys(declared_tags(options)),
        declared_tags(options).len() <= options.len(),
        forall|key: Seq<char>|
            has_key(declared_tags(options), key) <==> exists|i: int|
                0 <= i < options.len() && (#[trigger] options[i] matches StatsOptionView::Tag(k, _)
                    && k == key),
    decreases options.len(),
{
    if options.len() > 0 {
        let head = options.drop_last();
        let before = declared_tags(head);
        let after = declared_tags(options);
        lemma_declared_tags(head);
        assert forall|key: Seq<char>|
            has_key(after, key) <==> exists|i: int|
                0 <= i < options.len() && (#[trigger] options[i] matches StatsOptionView::Tag(k, _)
                    && k == key) by {
            if has_key(after, key) {
                let j = choose|j: int| 0 <= j < after.len() && (#[trigger] after[j]).0 == key;
                if j < before.len() {
                    assert(has_key(before, key));
                    let i = choose|i: int|
                        0 <= i < head.len() && (#[trigger] head[i] matches StatsOptionView::Tag(k, _)
                            && k == key);
                } else {
                    assert(options[options.len() - 1] matches StatsOptionView::Tag(k, _) && k
                        == key);
                }
            }
            if exists|i: int|
                0 <= i < options.len() && (#[trigger] options[i] matches StatsOptionView::Tag(k, _)
                    && k == key) {
                let i = choose|i: int|
                    0 <= i < options.len() && (#[trigger] options[i] matches StatsOptionView::Tag(
                        k,
                        _,
                    ) && k == key);
                if i < head.len() {
                    assert(head[i] == options[i]);
                    assert(has_key(before, key));
                    let j = choose|j: int| 0 <= j < before.len() && (#[trigger] before[j]).0 == key;
                    assert(after[j] == before[j]);
                } else {
                    if !has_key(before, key) {
                        assert(after[after.len() - 1].0 == key);
                    }
                }
            }
        }
    }
}

/// Whether one of the tags has the key.
pub fn contains_key(tags: &Vec<Tag>, key: &str) -> (found: bool)
    ensures
        found == has_key(tags.deep_view(), key@),
{
    let mut i: usize = 0;
    while i < tags.len()
        invariant
            i <= tags.len(),
            forall|j: int| 0 <= j < i ==> (#[trigger] tags.deep_view()[j]).0 != key@,
        decreases tags.len() - i,
    {
        if str_eq(tags[i].0, key) {
            assert(tags.deep_view()[i as int].0 == key@);
            return true;
        }
        i = i + 1;
    }
    false
}

/// Whether two tag sets hold the same tags in the same order.
pub fn tags_eq(a: &Vec<Tag>, b: &Vec<Tag>) -> (same: bool)
    ensures
        same == (a.deep_view() == b.deep_view()),
{
    if a.len() != b.len() {
        assert(a.deep_view().len() != b.deep_view().len());
        return false;
    }
    let mut i: usize = 0;
    while i < a.len()
        invariant
            i <= a.len(),
            a.len() == b.len(),
            forall|j: int| 0 <= j < i ==> a.deep_view()[j] == b.deep_view()[j],
        decreases a.len() - i,
    {
        if !str_eq(a[i].0, b[i].0) || !str_eq(a[i].1.as_str(), b[i].1.as_str()) {
            assert(a.deep_view()[i as int] != b.deep_view()[i as int]);
            return false;
        }
        i = i + 1;
    }
    assert(a.deep_view() =~= b.deep_view());
    true
}

/// The tag set that the declarations come to, and how many of them were
/// passed over: tags whose key was already there, and overrides of the
/// interval.
pub fn collect_tags(options: &Vec<StatsOption>) -> (collected: (Vec<Tag>, usize))
    ensures
        collected.0.deep_view() == declared_tags(options.deep_view()),
        collected.1 == options.len() - collected.0.len(),
        unique_keys(collected.0.deep_view()),
{
    let mut tags: Vec<Tag> = Vec::new();
    let mut ignored: usize = 0;
    let mut i: usize = 0;
    while i < options.len()
        invariant
            i <= options.len(),
            tags.deep_view() == declared_tags(options.deep_view().take(i as int)),
            tags.len() + ignored == i,
        decreases options.len() - i,
    {
        let ghost seen = options.deep_view().take(i as int);
        proof {
            let next = options.deep_view().take(i + 1);
            assert(next.drop_last() =~= seen);
        }
        match &options[i] {
            StatsOption::Tag(k, v) => {
                if contains_key(&tags, k) {
                    ignored = ignored + 1;
                } else {
                    tags.push((*k, v.clone()));
                }
            },
            StatsOption::Interval(_) => {
                ignored = ignored + 1;
            },
        }
        i = i + 1;
    }
    proof {
        assert(options.deep_view().take(options.len() as int) =~= options.deep_view());
        lemma_declared_tags(options.deep_view());
    }
    (tags, ignored)
}

/// The interval in seconds that the declarations come to under the minimum
/// interval `min`, starting from `start`, and how many of them were passed
/// over: overrides shorter than the minimum, and tags.
pub fn collect_interval(options: &Vec<StatsOption>, min: u64, start: u64) -> (collected: (
    u64,
    usize,
))
    ensures
        collected.0 == declared_interval(options.deep_view(), min as nat, start as nat),
        collected.1 == options.len() - accepted_overrides(options.deep_view(), min as nat),
{
    let mut interval: u64 = start;
    let mut ignored: usize = 0;
    let mut i: usize = 0;
    while i < options.len()
        invariant
            i <= options.len(),
            interval == declared_interval(
                options.deep_view().take(i as int),
                min as nat,
                start as nat,
            ),
            ignored == i - accepted_overrides(options.deep_view().take(i as int), min as nat),
            accepted_overrides(options.deep_view().take(i as int), min as nat) <= i,
        decreases options.len() - i,
    {
        proof {
            let seen = options.deep_view().take(i as int);
            let next = options.deep_view().take(i + 1);
            assert(next.drop_last() =~= seen);
        }
        match &options[i] {
            StatsOption::Interval(d) => {
                match override_interval(*d, min) {
                    Some(secs) => {
                        proof {
                            let unit = NANOS_PER_SEC as int;
                            let r = round_down(d.total_nanos(), tick_nanos()) as int;
                            assert(r / unit == secs) by (nonlinear_arith)
                                requires
                                    secs * unit == r,
                                    unit > 0,
                            ;
                        }
                        interval = secs;
                    },
                    None => {
                        ignored = ignored + 1;
                    },
                }
            },
            StatsOption::Tag(_, _) => {
                ignored = ignored + 1;
            },
        }
        i = i + 1;
    }
    proof {
        assert(options.deep_view().take(options.len() as int) =~= options.deep_view());
    }
    (interval, ignored)
}

} // verus!
