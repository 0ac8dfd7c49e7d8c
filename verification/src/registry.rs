//! The registry of sources: what a source is, when two sources are the same,
//! and what stays when sources are pruned or removed by identity.

use crate::counter::Countable;
use crate::schedule::{first_skip, initial_skip, skip_after_tick};
use crate::tags::{
    accepted_overrides, collect_interval, collect_tags, declared_interval, declared_tags, tags_eq,
    unique_keys, StatsOption, StatsOptionView, Tag, TagView,
};
use crate::text::str_eq;
use vstd::prelude::*;

verus! {

/// What tells one source from another: the name of its module and its tags.
pub type Identity = (Seq<char>, Seq<TagView>);

/// A registered producer with its identity and its place in the schedule.
pub struct Source {
    /// The name of the module.
    pub module: &'static str,
    /// The sampling interval in seconds.
    pub interval: u64,
    /// What the source is sampled from.
    pub countable: Countable,
    /// The tags, no key twice.
    pub tags: Vec<Tag>,
    /// The eligible ticks left until the next sample.
    pub skip: u64,
}

impl Source {
    /// The identity of the source; interval and countdown are no part of it.
    pub open spec fn identity(&self) -> Identity {
        (self.module@, self.tags.deep_view())
    }

    /// The tags of a source hold no key twice.
    pub open spec fn wf(&self) -> bool {
        unique_keys(self.tags.deep_view())
    }

    /// The source after one eligible tick under the minimum interval `min`:
    /// only its countdown has changed.
    pub open spec fn ticked(self, min: nat) -> Source {
        Source {
            skip: skip_after_tick(self.skip as nat, self.interval as nat, min) as u64,
            ..self
        }
    }

    /// The source that a module's declarations come to under the minimum
    /// interval `min`, and how many of the tag declarations and of the
    /// interval declarations were passed over.
    ///
    /// The source has each declared tag but those whose key an earlier one
    /// has. Its interval is that of the last override that is not shorter than
    /// the minimum, rounded down to whole ticks, or the minimum where there is
    /// none. Its countdown starts at the number of minimum intervals that fit
    /// into its interval, or at zero where that is one.
    pub fn declare(
        name: &'static str,
        tags: &Vec<StatsOption>,
        options: &Vec<StatsOption>,
        countable: Countable,
        min: u64,
    ) -> (declared: (Source, usize, usize))
        requires
            min > 0,
        ensures
            declared_source(
                declared.0,
                name@,
                tags.deep_view(),
                options.deep_view(),
                countable,
                min as nat,
            ),
            declared.0.wf(),
            declared.1 == tags.len() - declared_tags(tags.deep_view()).len(),
            declared.2 == options.len() - accepted_overrides(options.deep_view(), min as nat),
    {
        let collected = collect_tags(tags);
        let resolved = collect_interval(options, min, min);
        let skip = first_skip(resolved.0, min);
        let source = Source {
            module: name,
            interval: resolved.0,
            countable,
            tags: collected.0,
            skip,
        };
        (source, collected.1, resolved.1)
    }

    /// Whether the source has the identity given by a module name and tags.
    pub fn has_identity(&self, module: &str, tags: &Vec<Tag>) -> (same: bool)
        ensures
            same == (self.identity() == (module@, tags.deep_view())),
    {
        str_eq(self.module, module) && tags_eq(&self.tags, tags)
    }
}

/// Whether `source` is what the declarations of a module come to under the
/// minimum interval `min`, for the producer `countable`.
pub open spec fn declared_source(
    source: Source,
    name: Seq<char>,
    tags: Seq<StatsOptionView>,
    options: Seq<StatsOptionView>,
    countable: Countable,
    min: nat,
) -> bool {
    &&& source.module@ == name
    &&& source.tags.deep_view() == declared_tags(tags)
    &&& source.interval == declared_interval(options, min, min)
    &&& source.skip == initial_skip(source.interval as nat, min)
    &&& source.countable == countable
}

/// What stays of a sequence when the items flagged in `dropped` leave: the
/// others, in their order.
pub open spec fn pruned<T>(items: Seq<T>, dropped: Seq<bool>) -> Seq<T>
    recommends
        items.len() == dropped.len(),
    decreases items.len(),
{
    if items.len() == 0 {
        Seq::empty()
    } else {
        let before = pruned(items.drop_last(), dropped.drop_last());
        if dropped.last() {
            before
        } else {
            before.push(items.last())
        }
    }
}

/// What stays of the sources when those with an identity in `ids` leave: the
/// others, in their order.
pub open spec fn without(sources: Seq<Source>, ids: Set<Identity>) -> Seq<Source>
    decreases sources.len(),
{
    if sources.len() == 0 {
        Seq::empty()
    } else {
        let before = without(sources.drop_last(), ids);
        if ids.contains(sources.last().identity()) {
            before
        } else {
            before.push(sources.last())
        }
    }
}

/// Whether no two of the sources have the same identity.
pub open spec fn distinct(sources: Seq<Source>) -> bool {
    forall|i: int, j: int|
        0 <= i < j < sources.len() ==> (#[trigger] sources[i]).identity() != (
        #[trigger] sources[j]).identity()
}

/// Whether one of the sources has the identity.
pub open spec fn holds(sources: Seq<Source>, id: Identity) -> bool {
    exists|i: int| 0 <= i < sources.len() && (#[trigger] sources[i]).identity() == id
}

/// Whether every source is well-formed.
pub open spec fn all_wf(sources: Seq<Source>) -> bool {
    forall|i: int| 0 <= i < sources.len() ==> (#[trigger] sources[i]).wf()
}

/// The sources after each has had one eligible tick.
pub open spec fn advanced(sources: Seq<Source>, min: nat) -> Seq<Source> {
    Seq::new(sources.len(), |i: int| sources[i].ticked(min))
}

/// Pruning one item more: the item stays behind the others unless it is
/// flagged.
pub proof fn lemma_pruned_step<T>(items: Seq<T>, dropped: Seq<bool>, n: int)
    requires
        0 <= n < items.len(),
        items.len() == dropped.len(),
    ensures
        pruned(items.take(n + 1), dropped.take(n + 1)) == if dropped[n] {
            pruned(items.take(n), dropped.take(n))
        } else {
            pruned(items.take(n), dropped.take(n)).push(items[n])
        },
{
    assert(items.take(n + 1).drop_last() =~= items.take(n));
    assert(dropped.take(n + 1).drop_last() =~= dropped.take(n));
}

/// What stays after pruning is no longer than what was there, and each item
/// of it was there before, unflagged, the items in the order they had.
pub proof fn lemma_pruned_members<T>(items: Seq<T>, dropped: Seq<bool>)
    requires
        items.len() == dropped.len(),
    ensures
        pruned(items, dropped).len() <= items.len(),
        forall|a: int|
            #![trigger pruned(items, dropped)[a]]
            0 <= a < pruned(items, dropped).len() ==> exists|i: int|
                a <= i < items.len() && !dropped[i] && #[trigger] items[i] == pruned(
                    items,
                    dropped,
                )[a],
        forall|a: int, b: int|
            #![trigger pruned(items, dropped)[a], pruned(items, dropped)[b]]
            0 <= a < b < pruned(items, dropped).len() ==> exists|i: int, j: int|
                0 <= i < j < items.len() && !dropped[i] && !dropped[j] && #[trigger] items[i]
                    == pruned(items, dropped)[a] && #[trigger] items[j] == pruned(
                    items,
                    dropped,
                )[b],
    decreases items.len(),
{
    if items.len() > 0 {
        let head = items.drop_last();
        let flags = dropped.drop_last();
        let before = pruned(head, flags);
        let after = pruned(items, dropped);
        lemma_pruned_members(head, flags);
        assert forall|a: int| #![trigger after[a]] 0 <= a < after.len() implies exists|i: int|
            a <= i < items.len() && !dropped[i] && #[trigger] items[i] == after[a] by {
            if a < before.len() {
                let i = choose|i: int|
                    a <= i < head.len() && !flags[i] && #[trigger] head[i] == before[a];
            }
        }
        assert forall|a: int, b: int|
            #![trigger after[a], after[b]]
            0 <= a < b < after.len() implies exists|i: int, j: int|
            0 <= i < j < items.len() && !dropped[i] && !dropped[j] && #[trigger] items[i]
                == after[a] && #[trigger] items[j] == after[b] by {
            if b < before.len() {
                let (i, j) = choose|i: int, j: int|
                    0 <= i < j < head.len() && !flags[i] && !flags[j] && #[trigger] head[i]
                        == before[a] && #[trigger] head[j] == before[b];
            }
        }
    }
}

/// Pruning keeps sources apart and well-formed: where no two sources had the
/// same identity, no two of those that stay have; and a source that was
/// flagged has left, so none that stays has its identity.
pub proof fn lemma_pruned_sources(sources: Seq<Source>, dropped: Seq<bool>)
    requires
        sources.len() == dropped.len(),
    ensures
        all_wf(sources) ==> all_wf(pruned(sources, dropped)),
        distinct(sources) ==> distinct(pruned(sources, dropped)),
        distinct(sources) ==> forall|i: int|
            0 <= i < sources.len() && dropped[i] ==> !holds(
                pruned(sources, dropped),
                (#[trigger] sources[i]).identity(),
            ),
{
    let after = pruned(sources, dropped);
    lemma_pruned_members(sources, dropped);
    if all_wf(sources) {
        assert forall|a: int| 0 <= a < after.len() implies (#[trigger] after[a]).wf() by {
            let i = choose|i: int|
                a <= i < sources.len() && !dropped[i] && #[trigger] sources[i] == after[a];
        }
    }
    if distinct(sources) {
        assert forall|a: int, b: int| 0 <= a < b < after.len() implies (#[trigger] after[a]).identity()
            != (#[trigger] after[b]).identity() by {
            let (i, j) = choose|i: int, j: int|
                0 <= i < j < sources.len() && !dropped[i] && !dropped[j] && #[trigger] sources[i]
                    == after[a] && #[trigger] sources[j] == after[b];
        }
        assert forall|i: int| 0 <= i < sources.len() && dropped[i] implies !holds(
            after,
            (#[trigger] sources[i]).identity(),
        ) by {}
    }
}

/// Removing by identity is pruning with each source flagged whose identity is
/// to leave.
pub proof fn lemma_without_is_pruned(sources: Seq<Source>, ids: Set<Identity>)
    ensures
        without(sources, ids) == pruned(
            sources,
            Seq::new(sources.len(), |i: int| ids.contains(sources[i].identity())),
        ),
    decreases sources.len(),
{
    if sources.len() > 0 {
        let head = sources.drop_last();
        lemma_without_is_pruned(head, ids);
        let flags = Seq::new(sources.len(), |i: int| ids.contains(sources[i].identity()));
        assert(flags.drop_last() =~= Seq::new(
            head.len(),
            |i: int| ids.contains(head[i].identity()),
        ));
    }
}

/// What removing by identity leaves: no source with an identity that was to
/// leave; and the sources stay apart and well-formed.
pub proof fn lemma_without_sources(sources: Seq<Source>, ids: Set<Identity>)
    ensures
        without(sources, ids).len() <= sources.len(),
        forall|id: Identity| ids.contains(id) ==> !holds(without(sources, ids), id),
        forall|id: Identity|
            !ids.contains(id) ==> (holds(without(sources, ids), id) <==> holds(sources, id)),
        all_wf(sources) ==> all_wf(without(sources, ids)),
        distinct(sources) ==> distinct(without(sources, ids)),
{
    let flags = Seq::new(sources.len(), |i: int| ids.contains(sources[i].identity()));
    let after = without(sources, ids);
    lemma_without_is_pruned(sources, ids);
    lemma_pruned_members(sources, flags);
    lemma_pruned_sources(sources, flags);
    assert forall|id: Identity| ids.contains(id) implies !holds(after, id) by {
        if holds(after, id) {
            let a = choose|a: int| 0 <= a < after.len() && (#[trigger] after[a]).identity() == id;
            let i = choose|i: int|
                a <= i < sources.len() && !flags[i] && #[trigger] sources[i] == after[a];
        }
    }
    assert forall|id: Identity| !ids.contains(id) implies (holds(after, id) <==> holds(
        sources,
        id,
    )) by {
        if holds(after, id) {
            let a = choose|a: int| 0 <= a < after.len() && (#[trigger] after[a]).identity() == id;
            let i = choose|i: int|
                a <= i < sources.len() && !flags[i] && #[trigger] sources[i] == after[a];
        }
        if holds(sources, id) {
            let i = choose|i: int| 0 <= i < sources.len() && (#[trigger] sources[i]).identity() == id;
            lemma_without_keeps(sources, ids, i);
        }
    }
}

/// A source whose identity is not to leave stays.
pub proof fn lemma_without_keeps(sources: Seq<Source>, ids: Set<Identity>, i: int)
    requires
        0 <= i < sources.len(),
        !ids.contains(sources[i].identity()),
    ensures
        holds(without(sources, ids), sources[i].identity()),
    decreases sources.len(),
{
    let after = without(sources, ids);
    if i == sources.len() - 1 {
        assert(after[after.len() - 1].identity() == sources[i].identity());
    } else {
        let head = sources.drop_last();
        lemma_without_keeps(head, ids, i);
        let before = without(head, ids);
        let a = choose|a: int|
            0 <= a < before.len() && (#[trigger] before[a]).identity() == head[i].identity();
        assert(after[a] == before[a]);
    }
}

/// Removing the identities in `first` and then those in `second` is removing
/// those of both at once.
pub proof fn lemma_without_twice(sources: Seq<Source>, first: Set<Identity>, second: Set<Identity>)
    ensures
        without(without(sources, first), second) == without(sources, first.union(second)),
    decreases sources.len(),
{
    if sources.len() > 0 {
        let head = sources.drop_last();
        let last = sources.last();
        lemma_without_twice(head, first, second);
        if !first.contains(last.identity()) {
            let inner = without(head, first);
            assert(inner.push(last).drop_last() =~= inner);
        }
    }
}

/// Removing no identity leaves every source.
pub proof fn lemma_without_none(sources: Seq<Source>)
    ensures
        without(sources, Set::<Identity>::empty()) == sources,
    decreases sources.len(),
{
    if sources.len() > 0 {
        lemma_without_none(sources.drop_last());
    }
}

/// Pruning and then removing by identity is pruning with a source flagged
/// also where its identity is to leave.
pub proof fn lemma_pruned_without(sources: Seq<Source>, dropped: Seq<bool>, ids: Set<Identity>)
    requires
        sources.len() == dropped.len(),
    ensures
        without(pruned(sources, dropped), ids) == pruned(
            sources,
            Seq::new(sources.len(), |i: int| dropped[i] || ids.contains(sources[i].identity())),
        ),
    decreases sources.len(),
{
    if sources.len() > 0 {
        let head = sources.drop_last();
        let flags = dropped.drop_last();
        lemma_pruned_without(head, flags, ids);
        let both = Seq::new(
            sources.len(),
            |i: int| dropped[i] || ids.contains(sources[i].identity()),
        );
        assert(both.drop_last() =~= Seq::new(
            head.len(),
            |i: int| flags[i] || ids.contains(head[i].identity()),
        ));
        if !dropped.last() {
            let inner = pruned(head, flags);
            assert(inner.push(sources.last()).drop_last() =~= inner);
        }
    }
}

/// An item that is not flagged stays, and as many items ahead of it stay as
/// were ahead of it unflagged.
pub proof fn lemma_pruned_keeps<T>(items: Seq<T>, dropped: Seq<bool>, i: int)
    requires
        items.len() == dropped.len(),
        0 <= i < items.len(),
        !dropped[i],
    ensures
        exists|a: int|
            0 <= a <= i && a < pruned(items, dropped).len() && #[trigger] pruned(items, dropped)[a]
                == items[i],
    decreases items.len(),
{
    let after = pruned(items, dropped);
    if i == items.len() - 1 {
        lemma_pruned_members(items.drop_last(), dropped.drop_last());
        assert(after[after.len() - 1] == items[i]);
    } else {
        let head = items.drop_last();
        let flags = dropped.drop_last();
        lemma_pruned_keeps(head, flags, i);
        let before = pruned(head, flags);
        let a = choose|a: int| 0 <= a <= i && a < before.len() && #[trigger] before[a] == head[i];
        assert(after[a] == items[i]);
    }
}

/// A tick changes no identity: the sources stay apart and well-formed, and
/// hold the identities that they held.
pub proof fn lemma_advanced_sources(sources: Seq<Source>, min: nat)
    ensures
        advanced(sources, min).len() == sources.len(),
        forall|i: int|
            0 <= i < sources.len() ==> (#[trigger] advanced(sources, min)[i]).identity()
                == sources[i].identity(),
        all_wf(sources) ==> all_wf(advanced(sources, min)),
        distinct(sources) ==> distinct(advanced(sources, min)),
{
}

/// Takes out of `items` those flagged in `dropped` and keeps the others in
/// their order.
pub fn retain_unflagged<T>(items: &mut Vec<T>, dropped: &Vec<bool>)
    requires
        old(items).len() == dropped.len(),
    ensures
        final(items)@ == pruned(old(items)@, dropped@),
{
    let ghost all = items@;
    let n: usize = items.len();
    let mut stack: Vec<T> = Vec::new();
    while items.len() > 0
        invariant
            items.len() + stack.len() == n,
            n == all.len(),
            items@ == all.take(items.len() as int),
            forall|k: int| 0 <= k < stack.len() ==> stack@[k] == all[n - 1 - k],
        decreases items.len(),
    {
        let item = items.pop().unwrap();
        stack.push(item);
    }
    let mut i: usize = 0;
    while i < n
        invariant
            i <= n,
            n == all.len(),
            n == dropped.len(),
            stack.len() == n - i,
            forall|k: int| 0 <= k < stack.len() ==> stack@[k] == all[n - 1 - k],
            items@ == pruned(all.take(i as int), dropped@.take(i as int)),
        decreases n - i,
    {
        let item = stack.pop().unwrap();
        proof {
            lemma_pruned_step(all, dropped@, i as int);
        }
        if !dropped[i] {
            items.push(item);
        }
        i = i + 1;
    }
    proof {
        assert(all.take(n as int) =~= all);
        assert(dropped@.take(n as int) =~= dropped@);
    }
}

} // verus!
