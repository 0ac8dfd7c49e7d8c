//! The collector: the registry of sources, the state of the scheduling loop,
//! and the outbound queue that the loop fills.

use crate::batch::{ArcBatch, Batch, BatchView};
use crate::counter::{
    answered, ask_closed, ask_counters, reported, Countable, Counter, CounterView, OwnedCountable,
};
use crate::duration::{Duration, NANOS_PER_SEC};
use crate::module::{Module, QueueStats};
use crate::queue::{backlog_counters, offered, Queue, SendError};
use crate::registry::{
    advanced, all_wf, declared_source, distinct, holds, lemma_advanced_sources,
    lemma_pruned_keeps, lemma_pruned_members, lemma_pruned_sources, lemma_pruned_without,
    lemma_without_is_pruned, lemma_without_none, lemma_without_sources, lemma_without_twice,
    pruned, retain_unflagged, without, Identity, Source,
};
use crate::schedule::{
    count_down, due, eligible, is_eligible, lemma_min_interval_rounding, min_interval_nanos,
    min_interval_secs, STATS_MIN_INTERVAL_SECS, TICK_CYCLE_SECS,
};
use crate::tags::{
    accepted_overrides, collect_tags, declared_tags, StatsOption, StatsOptionView, Tag, TagView,
};
use vstd::prelude::*;
use vstd::string::StringExecFns;

verus! {

/// How many batches the outbound queue of a collector has room for.
pub const STATS_SENDER_QUEUE_SIZE: usize = 4096;

/// Something to do on every eligible tick before the sources are sampled.
///
/// It runs inside the scheduling loop and may not block.
pub trait PreHook: Send {
    /// Does it.
    fn run(&mut self);
}

/// The state of a collector.
pub struct Collector {
    hostname: String,
    sources: Vec<Source>,
    pre_hooks: Vec<Box<dyn PreHook>>,
    min_interval: u64,
    running: bool,
    last_run: u64,
    queue: Queue,
}

/// What a collector holds, but for its hooks.
pub struct CollectorView {
    /// The hostname that batches are stamped with.
    pub hostname: Seq<char>,
    /// The registered sources, in the order of registration.
    pub registry: Seq<Source>,
    /// The minimum sampling interval in seconds.
    pub min_interval: nat,
    /// Whether the scheduling loop is running.
    pub running: bool,
    /// The time of the last eligible tick in seconds.
    pub last_run: nat,
    /// The batches in the outbound queue, oldest first.
    pub pending: Seq<BatchView>,
    /// How many batches the outbound queue has room for.
    pub room: nat,
    /// Whether the receiving side of the outbound queue has been shut down.
    pub terminated: bool,
}

impl View for Collector {
    type V = CollectorView;

    closed spec fn view(&self) -> CollectorView {
        CollectorView {
            hostname: self.hostname@,
            registry: self.sources@,
            min_interval: self.min_interval as nat,
            running: self.running,
            last_run: self.last_run as nat,
            pending: self.queue.pending(),
            room: self.queue.room(),
            terminated: self.queue.is_terminated(),
        }
    }
}

impl CollectorView {
    /// What holds of every collector: the minimum interval is a whole number
    /// of ticks and at least one; each source is well-formed and no two have
    /// the same identity; the outbound queue is within its room.
    pub open spec fn wf(self) -> bool {
        &&& self.min_interval >= TICK_CYCLE_SECS
        &&& self.min_interval % (TICK_CYCLE_SECS as nat) == 0
        &&& self.min_interval <= u64::MAX
        &&& all_wf(self.registry)
        &&& distinct(self.registry)
        &&& self.pending.len() <= self.room
    }
}

/// What came of offering one sample to the outbound queue.
#[derive(Clone, Copy, Debug, PartialEq, Eq, Structural)]
pub enum Delivery {
    /// The source reported no counter: no batch was made.
    Empty,
    /// The batch is in the queue.
    Queued,
    /// The queue did not take the batch, which is lost.
    Dropped(SendError),
}

/// What a wake of the scheduling loop came to.
#[derive(Clone, Copy, Debug, PartialEq, Eq, Structural)]
pub enum Tick {
    /// The collector is not running: the loop is to end.
    Stopped,
    /// The wake fell into the period of the last eligible tick: nothing was
    /// done.
    Idle,
    /// The tick was eligible: the closed sources left, and each source that
    /// was due was sampled.
    Sampled {
        /// How many batches were made.
        batches: usize,
        /// How many of them the outbound queue did not take.
        dropped: usize,
    },
}

/// The sample time that a batch carries for a time in seconds: the low 32
/// bits of it.
pub open spec fn timestamp_of(now: nat) -> u32 {
    (now % 0x1_0000_0000) as u32
}

/// The batch of a source for the counters sampled from it.
pub open spec fn batch_of(
    source: Source,
    hostname: Seq<char>,
    points: Seq<CounterView>,
    now: nat,
) -> BatchView {
    BatchView {
        module: source.module@,
        hostname,
        tags: source.tags.deep_view(),
        points,
        timestamp: timestamp_of(now),
    }
}

/// The counters sampled from a source: the backlog of the outbound queue for
/// the source that stands for it, else what the producer answered.
pub open spec fn sampled_points(source: Source, answer: Seq<CounterView>, backlog: nat) -> Seq<
    CounterView,
> {
    match source.countable {
        Countable::Outbound => backlog_counters(backlog),
        Countable::Owned(_) => answer,
    }
}

/// Whether `flag` is what a source gives when it is asked whether it is
/// closed: what its producer reports, and for the source that stands for the
/// outbound queue whether the queue is shut down.
pub open spec fn closed_as_reported(source: Source, flag: bool, terminated: bool) -> bool {
    match source.countable {
        Countable::Owned(producer) => reported::<dyn OwnedCountable>(&*producer, flag),
        Countable::Outbound => flag == terminated,
    }
}

/// Whether `answer` is what the producer of a source gives when it is asked
/// for its counters. The source that stands for the outbound queue has no
/// producer to ask.
pub open spec fn answer_given(source: Source, answer: Seq<CounterView>) -> bool {
    match source.countable {
        Countable::Owned(producer) => exists|points: Vec<Counter>|
            answered::<dyn OwnedCountable>(&*producer, points) && points.deep_view() == answer,
        Countable::Outbound => true,
    }
}

/// The sources in which the first `n` have had an eligible tick and the
/// others have not.
pub open spec fn advanced_to(sources: Seq<Source>, min: nat, n: int) -> Seq<Source> {
    Seq::new(
        sources.len(),
        |k: int|
            if k < n {
                sources[k].ticked(min)
            } else {
                sources[k]
            },
    )
}

/// One round of sampling: the sources that are live, what each producer
/// answers when asked for its counters, and the outbound queue as the round
/// finds it.
pub struct Round {
    /// The live sources, as they are before their countdowns move.
    pub sources: Seq<Source>,
    /// What the producer of each source answers; it is asked only where the
    /// source is due.
    pub answers: Seq<Seq<CounterView>>,
    /// The hostname that the batches are stamped with.
    pub hostname: Seq<char>,
    /// The time of the tick in seconds.
    pub now: nat,
    /// The batches in the outbound queue before the round.
    pub pending: Seq<BatchView>,
    /// How many batches the outbound queue has room for.
    pub room: nat,
    /// Whether the receiving side of the outbound queue has been shut down.
    pub terminated: bool,
}

impl Round {
    /// Whether a batch is made for the source at place `k`, given the queue's
    /// backlog at its turn: the source is due and its counters are not empty.
    pub open spec fn makes_batch(self, k: int, backlog: nat) -> bool {
        due(self.sources[k].skip as nat) && sampled_points(
            self.sources[k],
            self.answers[k],
            backlog,
        ).len() > 0
    }

    /// The batches in the outbound queue after the first `n` sources have
    /// had their turn, in the order of the registry.
    pub open spec fn delivered(self, n: nat) -> Seq<BatchView>
        decreases n,
    {
        if n == 0 {
            self.pending
        } else {
            let before = self.delivered((n - 1) as nat);
            let k = n - 1;
            if self.makes_batch(k, before.len()) {
                offered(
                    before,
                    self.room,
                    self.terminated,
                    batch_of(
                        self.sources[k],
                        self.hostname,
                        sampled_points(self.sources[k], self.answers[k], before.len()),
                        self.now,
                    ),
                )
            } else {
                before
            }
        }
    }

    /// How many batches are made for the first `n` sources.
    pub open spec fn attempts(self, n: nat) -> nat
        decreases n,
    {
        if n == 0 {
            0
        } else {
            let before = self.attempts((n - 1) as nat);
            if self.makes_batch(n - 1, self.delivered((n - 1) as nat).len()) {
                before + 1
            } else {
                before
            }
        }
    }

    /// The round with other answers.
    pub open spec fn answering(self, answers: Seq<Seq<CounterView>>) -> Round {
        Round { answers, ..self }
    }

    /// The first `n` turns of a round go by the first `n` answers alone.
    pub proof fn lemma_prefix(self, answers: Seq<Seq<CounterView>>, n: nat)
        requires
            forall|k: int| 0 <= k < n ==> self.answers[k] == answers[k],
        ensures
            self.answering(answers).delivered(n) == self.delivered(n),
            self.answering(answers).attempts(n) == self.attempts(n),
        decreases n,
    {
        if n > 0 {
            self.lemma_prefix(answers, (n - 1) as nat);
        }
    }

    /// Whether `batch` is one that the source at place `j` gives when it is
    /// sampled in this round: the source is due, and the batch has the
    /// source's identity, the hostname and the time of the round, and
    /// counters that are not empty.
    pub open spec fn made_by(self, batch: BatchView, j: int) -> bool {
        &&& due(self.sources[j].skip as nat)
        &&& self.sources[j].identity() == (batch.module, batch.tags)
        &&& batch.hostname == self.hostname
        &&& batch.timestamp == timestamp_of(self.now)
        &&& batch.points.len() > 0
    }

    /// Whether `batch` is one that one of the first `n` sources gives when it
    /// is sampled in this round.
    pub open spec fn made_in_round(self, batch: BatchView, n: nat) -> bool {
        exists|j: int| 0 <= j < n && #[trigger] self.made_by(batch, j)
    }

    /// Each batch that a round puts into the queue is that of a live source
    /// that was due.
    pub proof fn lemma_batches_from_sources(self, n: nat)
        requires
            n <= self.sources.len(),
        ensures
            forall|k: int|
                self.pending.len() <= k < self.delivered(n).len() ==> #[trigger] self.made_in_round(
                    self.delivered(n)[k],
                    n,
                ),
        decreases n,
    {
        if n > 0 {
            let before = self.delivered((n - 1) as nat);
            let after = self.delivered(n);
            self.lemma_batches_from_sources((n - 1) as nat);
            assert forall|k: int|
                self.pending.len() <= k < after.len() implies #[trigger] self.made_in_round(
                after[k],
                n,
            ) by {
                if k < before.len() {
                    assert(self.made_in_round(before[k], (n - 1) as nat));
                } else {
                    assert(self.made_by(after[k], n - 1));
                }
            }
        }
    }

    /// A round leaves in the queue what was there, in front, and never more
    /// than there is room for; each batch made is in the queue or was
    /// dropped.
    pub proof fn lemma_delivered(self, n: nat)
        requires
            self.pending.len() <= self.room,
        ensures
            self.pending.len() <= self.delivered(n).len() <= self.room,
            self.delivered(n).take(self.pending.len() as int) == self.pending,
            self.delivered(n).len() - self.pending.len() <= self.attempts(n) <= n,
            self.terminated ==> self.delivered(n) == self.pending,
        decreases n,
    {
        if n > 0 {
            self.lemma_delivered((n - 1) as nat);
            let before = self.delivered((n - 1) as nat);
            assert(self.delivered(n).take(self.pending.len() as int) =~= before.take(
                self.pending.len() as int,
            ));
        }
    }
}

/// What one round of sampling does to a collector, for the answers that the
/// producers give: each source has its countdown moved, and the batches of
/// those that are due are offered to the outbound queue in the order of the
/// registry.
pub open spec fn round_done(
    before: CollectorView,
    after: CollectorView,
    hostname: Seq<char>,
    now: nat,
    answers: Seq<Seq<CounterView>>,
    batches: nat,
    dropped: nat,
) -> bool {
    let round = Round {
        sources: before.registry,
        answers,
        hostname,
        now,
        pending: before.pending,
        room: before.room,
        terminated: before.terminated,
    };
    &&& answers.len() == before.registry.len()
    &&& forall|k: int|
        0 <= k < answers.len() && due((#[trigger] before.registry[k]).skip as nat) ==> answer_given(
            before.registry[k],
            answers[k],
        )
    &&& after == (CollectorView {
        registry: advanced(before.registry, before.min_interval),
        pending: round.delivered(before.registry.len()),
        ..before
    })
    &&& batches == round.attempts(before.registry.len())
    &&& batches - dropped == after.pending.len() - before.pending.len()
}

/// What an eligible tick does to a collector, for the answers that the
/// producers give: `closed` says of each source whether its producer reports
/// itself closed, `answers` what each live one reports as its counters. The
/// closed sources leave, and the others have their round.
pub open spec fn sampled(
    before: CollectorView,
    after: CollectorView,
    now: nat,
    closed: Seq<bool>,
    answers: Seq<Seq<CounterView>>,
    batches: nat,
    dropped: nat,
) -> bool {
    &&& closed.len() == before.registry.len()
    &&& forall|i: int|
        0 <= i < closed.len() ==> closed_as_reported(
            #[trigger] before.registry[i],
            closed[i],
            before.terminated,
        )
    &&& round_done(
        CollectorView { registry: pruned(before.registry, closed), last_run: now, ..before },
        after,
        before.hostname,
        now,
        answers,
        batches,
        dropped,
    )
}

/// A source whose producer reports itself closed at an eligible tick is gone
/// from the registry after the tick, and none of the batches that the tick
/// puts into the outbound queue is one of that source.
pub proof fn lemma_closed_source_leaves(
    before: CollectorView,
    after: CollectorView,
    now: nat,
    closed: Seq<bool>,
    answers: Seq<Seq<CounterView>>,
    batches: nat,
    dropped: nat,
    i: int,
)
    requires
        before.wf(),
        sampled(before, after, now, closed, answers, batches, dropped),
        0 <= i < closed.len(),
        closed[i],
    ensures
        !holds(after.registry, before.registry[i].identity()),
        before.pending.len() <= after.pending.len(),
        after.pending.take(before.pending.len() as int) == before.pending,
        forall|k: int|
            before.pending.len() <= k < after.pending.len() ==> (
                (#[trigger] after.pending[k]).module,
                after.pending[k].tags,
            ) != before.registry[i].identity(),
{
    let id = before.registry[i].identity();
    let live = pruned(before.registry, closed);
    let round = Round {
        sources: live,
        answers,
        hostname: before.hostname,
        now,
        pending: before.pending,
        room: before.room,
        terminated: before.terminated,
    };
    lemma_pruned_sources(before.registry, closed);
    lemma_advanced_sources(live, before.min_interval);
    if holds(after.registry, id) {
        let a = choose|a: int|
            0 <= a < after.registry.len() && (#[trigger] after.registry[a]).identity() == id;
    }
    round.lemma_delivered(live.len());
    round.lemma_batches_from_sources(live.len());
    assert forall|k: int| before.pending.len() <= k < after.pending.len() implies (
        (#[trigger] after.pending[k]).module,
        after.pending[k].tags,
    ) != id by {
        assert(round.made_in_round(after.pending[k], live.len()));
    }
}

/// What a registration reports back.
#[derive(Clone, Copy, Debug, PartialEq, Eq, Structural)]
pub struct Registration {
    /// How many tag declarations were passed over: tags whose key an earlier
    /// tag has, and declarations that are no tags.
    pub ignored_tags: usize,
    /// How many interval declarations were passed over: overrides shorter
    /// than the minimum interval, and declarations that are no overrides.
    pub ignored_options: usize,
    /// Whether a live source of the same identity was there and has been
    /// replaced.
    pub replaced: bool,
}

/// The identity under which a collector registers its outbound queue.
pub open spec fn outbound_identity() -> Identity {
    (
        QueueStats::queue_name(),
        seq![
            (QueueStats::index_key(), seq!['0']),
            (QueueStats::module_key(), "0-stats-to-sender"@),
        ],
    )
}

/// Whether the last of the sources has the identity and no other has it.
pub open spec fn only_last_has(sources: Seq<Source>, id: Identity) -> bool {
    forall|i: int|
        0 <= i < sources.len() ==> ((#[trigger] sources[i]).identity() == id <==> i
            == sources.len() - 1)
}

/// What a registration under the identity `id` does to a collector, where
/// `closed` says of each source whether its producer reports itself closed:
/// the closed sources leave, then the one with the identity `id`, if it is
/// there, and the new source comes last. So exactly one source has the
/// identity afterwards.
pub open spec fn registered(
    before: CollectorView,
    after: CollectorView,
    closed: Seq<bool>,
    id: Identity,
    replaced: bool,
) -> bool {
    &&& closed.len() == before.registry.len()
    &&& forall|i: int|
        0 <= i < closed.len() ==> closed_as_reported(
            #[trigger] before.registry[i],
            closed[i],
            before.terminated,
        )
    &&& after.registry.len() > 0
    &&& after.registry.last().identity() == id
    &&& after.registry.drop_last() == without(pruned(before.registry, closed), set![id])
    &&& after == (CollectorView { registry: after.registry, ..before })
    &&& replaced == holds(pruned(before.registry, closed), id)
}

/// What the registration of a producer does to a collector, for what the
/// module declares and for what the producers answer when asked whether they
/// are closed: the new source is what the declarations come to and is
/// registered under its identity, and the report counts what was passed over.
pub open spec fn registration_done(
    before: CollectorView,
    after: CollectorView,
    name: Seq<char>,
    tags: Seq<StatsOptionView>,
    options: Seq<StatsOptionView>,
    countable: Countable,
    closed: Seq<bool>,
    report: Registration,
) -> bool {
    &&& registered(before, after, closed, (name, declared_tags(tags)), report.replaced)
    &&& declared_source(
        after.registry.last(),
        name,
        tags,
        options,
        countable,
        before.min_interval,
    )
    &&& only_last_has(after.registry, (name, declared_tags(tags)))
    &&& report.ignored_tags == tags.len() - declared_tags(tags).len()
    &&& report.ignored_options == options.len() - accepted_overrides(options, before.min_interval)
}

/// What the removal of the sources with the identities `ids` does to a
/// collector: those sources leave, and the others stay in their order.
pub open spec fn deregistered(before: CollectorView, after: CollectorView, ids: Seq<Identity>) -> bool {
    after == (CollectorView { registry: without(before.registry, identities(ids)), ..before })
}

/// Whether the module, asked for its name and its tags, gives the identity:
/// the name, and the tag set that the tag declarations come to.
pub open spec fn gives<M: Module + ?Sized>(module: &M, id: Identity) -> bool {
    exists|name: &'static str, tags: Vec<StatsOption>|
        call_ensures(M::name, (module,), name) && call_ensures(M::tags, (module,), tags) && id == (
            name@,
            declared_tags(tags.deep_view()),
        )
}

/// Whether the module, asked for them, gives the name, the tag declarations
/// and the interval declarations.
pub open spec fn declares<M: Module + ?Sized>(
    module: &M,
    name: &'static str,
    tags: Vec<StatsOption>,
    options: Vec<StatsOption>,
) -> bool {
    &&& call_ensures(M::name, (module,), name)
    &&& call_ensures(M::tags, (module,), tags)
    &&& call_ensures(M::options, (module,), options)
}

/// The identities in a sequence, as a set.
pub open spec fn identities(ids: Seq<Identity>) -> Set<Identity> {
    Set::new(|id: Identity| ids.contains(id))
}

fn clone_tags(tags: &Vec<Tag>) -> (copy: Vec<Tag>)
    ensures
        copy.deep_view() == tags.deep_view(),
{
    let mut copy: Vec<Tag> = Vec::new();
    let mut i: usize = 0;
    while i < tags.len()
        invariant
            i <= tags.len(),
            copy.len() == i,
            forall|j: int| 0 <= j < i ==> copy.deep_view()[j] == tags.deep_view()[j],
        decreases tags.len() - i,
    {
        copy.push((tags[i].0, tags[i].1.clone()));
        i = i + 1;
    }
    copy
}

impl Collector {
    /// What holds of every collector that this library hands out.
    pub closed spec fn wf(&self) -> bool {
        &&& self@.wf()
        &&& self.queue.wf()
    }

    /// The hooks, in the order in which they were registered.
    pub closed spec fn hooks(&self) -> Seq<Box<dyn PreHook>> {
        self.pre_hooks@
    }

    /// The view of a well-formed collector is well-formed.
    pub proof fn lemma_wf(&self)
        requires
            self.wf(),
        ensures
            self@.wf(),
    {
    }

    /// A collector with the default minimum interval.
    pub fn new(hostname: &str) -> (collector: Collector)
        ensures
            collector.wf(),
            collector.hooks() == Seq::<Box<dyn PreHook>>::empty(),
            collector@ == (CollectorView {
                hostname: hostname@,
                registry: collector@.registry,
                min_interval: STATS_MIN_INTERVAL_SECS as nat,
                running: false,
                last_run: 0,
                pending: Seq::empty(),
                room: STATS_SENDER_QUEUE_SIZE as nat,
                terminated: false,
            }),
            collector@.registry.len() == 1,
            collector@.registry[0].identity() == outbound_identity(),
            collector@.registry[0].interval == STATS_MIN_INTERVAL_SECS,
            collector@.registry[0].skip == 0,
            collector@.registry[0].countable is Outbound,
    {
        let interval = Duration::from_secs(STATS_MIN_INTERVAL_SECS);
        let collector = Collector::with_min_interval(hostname, interval);
        proof {
            lemma_min_interval_rounding(interval.total_nanos());
            let unit = NANOS_PER_SEC as int;
            let got = collector@.min_interval as int;
            assert(got == 10) by (nonlinear_arith)
                requires
                    got * unit == 10 * unit,
                    unit > 0,
            ;
        }
        collector
    }

    /// A collector that stamps its batches with `hostname` and samples no
    /// source more often than the effective minimum for `interval`: one tick
    /// where `interval` is not above one tick, else `interval` rounded up to a
    /// whole number of ticks. Its outbound queue is empty and is registered
    /// as the one source, to report its backlog.
    pub fn with_min_interval(hostname: &str, interval: Duration) -> (collector: Collector)
        requires
            interval.secs() < u64::MAX || interval.subsec() == 0,
        ensures
            collector.wf(),
            collector.hooks() == Seq::<Box<dyn PreHook>>::empty(),
            collector@.min_interval * NANOS_PER_SEC == min_interval_nanos(interval.total_nanos()),
            collector@ == (CollectorView {
                hostname: hostname@,
                registry: collector@.registry,
                min_interval: collector@.min_interval,
                running: false,
                last_run: 0,
                pending: Seq::empty(),
                room: STATS_SENDER_QUEUE_SIZE as nat,
                terminated: false,
            }),
            collector@.registry.len() == 1,
            collector@.registry[0].identity() == outbound_identity(),
            collector@.registry[0].interval == collector@.min_interval,
            collector@.registry[0].skip == 0,
            collector@.registry[0].countable is Outbound,
    {
        let mut collector = Collector {
            hostname: String::from_str(hostname),
            sources: Vec::new(),
            pre_hooks: Vec::new(),
            min_interval: min_interval_secs(interval),
            running: false,
            last_run: 0,
            queue: Queue::bounded(STATS_SENDER_QUEUE_SIZE),
        };
        let stats = QueueStats { id: 0, module: "0-stats-to-sender" };
        let _ = collector.register(
            stats.name(),
            stats.tags(),
            stats.options(),
            Countable::Outbound,
        );
        proof {
            reveal_strlit("index");
            reveal_strlit("module");
            let declared = stats.declared();
            let first = declared.drop_last();
            assert(declared_tags(first.drop_last()) =~= Seq::<TagView>::empty());
            assert(declared_tags(first) =~= seq![(QueueStats::index_key(), seq!['0'])]);
            assert(QueueStats::index_key() != QueueStats::module_key()) by {
                assert(QueueStats::index_key()[0] == 'i');
            }
        }
        collector
    }

    /// The hostname that batches are stamped with.
    pub fn hostname(&self) -> (hostname: &String)
        ensures
            hostname@ == self@.hostname,
    {
        &self.hostname
    }

    /// The minimum sampling interval in seconds.
    pub fn min_interval(&self) -> (secs: u64)
        ensures
            secs == self@.min_interval,
    {
        self.min_interval
    }

    /// Whether the scheduling loop is running.
    pub fn is_running(&self) -> (running: bool)
        ensures
            running == self@.running,
    {
        self.running
    }

    /// The time of the last eligible tick in seconds.
    pub fn last_run(&self) -> (secs: u64)
        ensures
            secs == self@.last_run,
    {
        self.last_run
    }

    /// Whether a wake at the time `now`, in seconds, would be an eligible
    /// tick: the collector is running and `now` falls into another period of
    /// the minimum interval than the last eligible tick.
    pub fn eligible_at(&self, now: u64) -> (yes: bool)
        requires
            self.wf(),
        ensures
            yes == (self@.running && eligible(
                now as nat,
                self@.last_run,
                self@.min_interval,
            )),
    {
        self.running && is_eligible(now, self.last_run, self.min_interval)
    }

    /// The registered sources, in the order of registration.
    pub fn sources(&self) -> (sources: &Vec<Source>)
        ensures
            sources@ == self@.registry,
    {
        &self.sources
    }

    /// The outbound queue, to look at.
    pub fn get_receiver(&self) -> (queue: &Queue)
        ensures
            queue.pending() == self@.pending,
            queue.room() == self@.room,
            queue.is_terminated() == self@.terminated,
    {
        &self.queue
    }

    /// Takes the oldest batch out of the outbound queue, if there is one.
    pub fn receive(&mut self) -> (received: Option<ArcBatch>)
        requires
            old(self).wf(),
        ensures
            final(self).wf(),
            final(self).hooks() == old(self).hooks(),
            received is Some <==> old(self)@.pending.len() > 0,
            received matches Some(batch) ==> batch.deep_view() == old(self)@.pending[0]
                && final(self)@ == (CollectorView {
                pending: old(self)@.pending.drop_first(),
                ..old(self)@
            }),
            received is None ==> final(self)@ == old(self)@,
    {
        self.queue.recv()
    }

    /// Shuts the receiving side of the outbound queue down: from now on every
    /// batch is dropped.
    pub fn close_receiver(&mut self)
        requires
            old(self).wf(),
        ensures
            final(self).wf(),
            final(self).hooks() == old(self).hooks(),
            final(self)@ == (CollectorView { terminated: true, ..old(self)@ }),
    {
        self.queue.terminate();
    }

    /// Appends a hook to those that run on every eligible tick.
    pub fn register_pre_hook(&mut self, hook: Box<dyn PreHook>)
        requires
            old(self).wf(),
        ensures
            final(self).wf(),
            final(self)@ == old(self)@,
            final(self).hooks() == old(self).hooks().push(hook),
    {
        self.pre_hooks.push(hook);
    }

    /// Replaces the hostname, unless the new one is empty. Says whether the
    /// hostname has changed.
    pub fn set_hostname(&mut self, hostname: String) -> (changed: bool)
        requires
            old(self).wf(),
        ensures
            final(self).wf(),
            final(self).hooks() == old(self).hooks(),
            final(self)@ == (CollectorView {
                hostname: if hostname@.len() == 0 {
                    old(self)@.hostname
                } else {
                    hostname@
                },
                ..old(self)@
            }),
            changed == (hostname@.len() != 0 && hostname@ != old(self)@.hostname),
    {
        if hostname.as_str().is_empty() {
            return false;
        }
        if self.hostname == hostname {
            return false;
        }
        self.hostname = hostname;
        true
    }

    /// Replaces the minimum interval by the effective minimum for the one
    /// requested. The countdowns of the sources stay as they are.
    pub fn set_min_interval(&mut self, interval: Duration)
        requires
            old(self).wf(),
            interval.secs() < u64::MAX || interval.subsec() == 0,
        ensures
            final(self).wf(),
            final(self).hooks() == old(self).hooks(),
            final(self)@.min_interval * NANOS_PER_SEC == min_interval_nanos(interval.total_nanos()),
            final(self)@ == (CollectorView {
                min_interval: final(self)@.min_interval,
                ..old(self)@
            }),
    {
        self.min_interval = min_interval_secs(interval);
    }

    /// Marks the scheduling loop as running, and says whether it was not
    /// running before: then the caller has a loop to start. Where it was
    /// running nothing changes.
    pub fn start(&mut self) -> (started: bool)
        requires
            old(self).wf(),
        ensures
            final(self).wf(),
            final(self).hooks() == old(self).hooks(),
            started == !old(self)@.running,
            final(self)@ == if old(self)@.running {
                old(self)@
            } else {
                CollectorView { running: true, last_run: 0, ..old(self)@ }
            },
    {
        if self.running {
            return false;
        }
        self.running = true;
        self.last_run = 0;
        true
    }

    /// Marks the scheduling loop as stopped, and says whether it was running:
    /// then the caller has a loop to wait for.
    pub fn notify_stop(&mut self) -> (was_running: bool)
        requires
            old(self).wf(),
        ensures
            final(self).wf(),
            final(self).hooks() == old(self).hooks(),
            was_running == old(self)@.running,
            final(self)@ == (CollectorView { running: false, ..old(self)@ }),
    {
        let was_running = self.running;
        self.running = false;
        was_running
    }
    /// Asks the producer of each source whether it is closed. The source that
    /// stands for the outbound queue is closed when the queue is shut down.
    pub fn probe(&self) -> (closed: Vec<bool>)
        requires
            self.wf(),
        ensures
            closed.len() == self@.registry.len(),
            forall|i: int|
                0 <= i < closed.len() ==> closed_as_reported(
                    #[trigger] self@.registry[i],
                    closed[i],
                    self@.terminated,
                ),
    {
        let mut closed: Vec<bool> = Vec::new();
        let mut i: usize = 0;
        while i < self.sources.len()
            invariant
                i <= self.sources.len(),
                closed.len() == i,
                forall|k: int|
                    0 <= k < i ==> closed_as_reported(
                        #[trigger] self.sources@[k],
                        closed[k],
                        self.queue.is_terminated(),
                    ),
            decreases self.sources.len() - i,
        {
            let flag = match &self.sources[i].countable {
                Countable::Owned(producer) => ask_closed::<dyn OwnedCountable>(&**producer),
                Countable::Outbound => self.queue.terminated(),
            };
            closed.push(flag);
            i = i + 1;
        }
        closed
    }

    /// Takes out of the registry the sources flagged in `closed`.
    pub fn prune(&mut self, closed: &Vec<bool>)
        requires
            old(self).wf(),
            closed.len() == old(self)@.registry.len(),
        ensures
            final(self).wf(),
            final(self).hooks() == old(self).hooks(),
            final(self)@ == (CollectorView {
                registry: pruned(old(self)@.registry, closed@),
                ..old(self)@
            }),
    {
        proof {
            lemma_pruned_sources(self.sources@, closed@);
        }
        retain_unflagged(&mut self.sources, closed);
    }

    /// One eligible tick for the source at `index`: its countdown moves, and
    /// the result says whether the source is to be sampled now.
    pub fn count_down(&mut self, index: usize) -> (due_now: bool)
        requires
            old(self).wf(),
            index < old(self)@.registry.len(),
        ensures
            final(self).wf(),
            final(self).hooks() == old(self).hooks(),
            due_now == due(old(self)@.registry[index as int].skip as nat),
            final(self)@ == (CollectorView {
                registry: old(self)@.registry.update(
                    index as int,
                    old(self)@.registry[index as int].ticked(old(self)@.min_interval),
                ),
                ..old(self)@
            }),
    {
        let ghost before = self.sources@;
        let next = count_down(self.sources[index].skip, self.sources[index].interval, self.min_interval);
        self.sources[index].skip = next.1;
        proof {
            let after = self.sources@;
            assert(after =~= before.update(
                index as int,
                before[index as int].ticked(self.min_interval as nat),
            ));
        }
        next.0
    }

    /// Asks the source at `index` for its counters: they are what its
    /// producer gives. The source that stands for the outbound queue reports
    /// the queue's backlog.
    pub fn sample(&self, index: usize) -> (points: Vec<Counter>)
        requires
            self.wf(),
            index < self@.registry.len(),
        ensures
            self@.registry[index as int].countable matches Countable::Owned(producer)
                ==> answered::<dyn OwnedCountable>(&*producer, points),
            self@.registry[index as int].countable is Outbound ==> points.deep_view()
                == backlog_counters(self@.pending.len()),
    {
        match &self.sources[index].countable {
            Countable::Owned(producer) => ask_counters::<dyn OwnedCountable>(&**producer),
            Countable::Outbound => self.queue.get_counters(),
        }
    }

    /// Makes the batch of the source at `index` for the counters sampled from
    /// it and offers it to the outbound queue. No batch is made of no
    /// counters. A batch that the queue does not take is dropped.
    pub fn hand_off(&mut self, index: usize, points: Vec<Counter>, hostname: &str, now: u64) -> (delivery:
        Delivery)
        requires
            old(self).wf(),
            index < old(self)@.registry.len(),
        ensures
            final(self).wf(),
            final(self).hooks() == old(self).hooks(),
            final(self)@ == (CollectorView {
                pending: if points.len() == 0 {
                    old(self)@.pending
                } else {
                    offered(
                        old(self)@.pending,
                        old(self)@.room,
                        old(self)@.terminated,
                        batch_of(
                            old(self)@.registry[index as int],
                            hostname@,
                            points.deep_view(),
                            now as nat,
                        ),
                    )
                },
                ..old(self)@
            }),
            delivery == if points.len() == 0 {
                Delivery::Empty
            } else if old(self)@.terminated {
                Delivery::Dropped(SendError::Terminated)
            } else if old(self)@.pending.len() >= old(self)@.room {
                Delivery::Dropped(SendError::Full)
            } else {
                Delivery::Queued
            },
    {
        if points.len() == 0 {
            return Delivery::Empty;
        }
        let batch = Batch {
            module: self.sources[index].module,
            hostname: String::from_str(hostname),
            tags: clone_tags(&self.sources[index].tags),
            points,
            timestamp: (now % 0x1_0000_0000) as u32,
        };
        proof {
            self.queue.lemma_bounded();
        }
        match self.queue.send(ArcBatch::new(batch)) {
            Ok(_) => Delivery::Queued,
            Err(error) => Delivery::Dropped(error),
        }
    }

    /// Puts a source into the registry: the sources flagged in `closed`
    /// leave, then the one that has the identity of the new source, if it is
    /// there, and the new source comes last. Says whether a source that was
    /// not flagged had that identity.
    pub fn install(&mut self, source: Source, closed: &Vec<bool>) -> (replaced: bool)
        requires
            old(self).wf(),
            source.wf(),
            closed.len() == old(self)@.registry.len(),
        ensures
            final(self).wf(),
            final(self).hooks() == old(self).hooks(),
            final(self)@ == (CollectorView {
                registry: without(
                    pruned(old(self)@.registry, closed@),
                    set![source.identity()],
                ).push(source),
                ..old(self)@
            }),
            replaced == holds(pruned(old(self)@.registry, closed@), source.identity()),
            only_last_has(final(self)@.registry, source.identity()),
    {
        let ghost before = self.sources@;
        let ghost id = source.identity();
        let ghost ids = set![id];
        let ghost flags = Seq::new(
            before.len(),
            |i: int| closed@[i] || ids.contains(before[i].identity()),
        );
        let n: usize = self.sources.len();
        let mut dropped: Vec<bool> = Vec::new();
        let mut replaced: bool = false;
        let mut i: usize = 0;
        while i < n
            invariant
                i <= n,
                n == before.len(),
                n == closed.len(),
                self.sources@ == before,
                id == source.identity(),
                ids == set![id],
                dropped.len() == i,
                forall|k: int| 0 <= k < i ==> dropped[k] == (closed[k] || before[k].identity() == id),
                replaced <==> exists|k: int|
                    0 <= k < i && !closed[k] && (#[trigger] before[k]).identity() == id,
            decreases n - i,
        {
            let same = self.sources[i].has_identity(source.module, &source.tags);
            if same && !closed[i] {
                replaced = true;
            }
            dropped.push(closed[i] || same);
            i = i + 1;
        }
        proof {
            assert(dropped@ =~= flags);
            lemma_pruned_without(before, closed@, ids);
            lemma_pruned_sources(before, closed@);
            lemma_pruned_members(before, closed@);
            lemma_without_sources(pruned(before, closed@), ids);
            if replaced {
                let k = choose|k: int|
                    0 <= k < n && !closed[k] && (#[trigger] before[k]).identity() == id;
                lemma_pruned_keeps(before, closed@, k);
            }
            if holds(pruned(before, closed@), id) {
                let live = pruned(before, closed@);
                let a = choose|a: int| 0 <= a < live.len() && (#[trigger] live[a]).identity() == id;
            }
        }
        retain_unflagged(&mut self.sources, &dropped);
        self.sources.push(source);
        replaced
    }

    /// Registers a producer under a name, with tag declarations and
    /// interval declarations.
    ///
    /// The new source has the name and the tags, but for tags whose key an
    /// earlier one has. Its interval is the minimum interval, or the last
    /// override that is not shorter, rounded down to whole ticks. Every
    /// source whose producer reports itself closed leaves the registry, and
    /// so does the source of the same identity, if there is one; the new
    /// source comes last.
    pub fn register(
        &mut self,
        name: &'static str,
        tags: Vec<StatsOption>,
        options: Vec<StatsOption>,
        countable: Countable,
    ) -> (report: Registration)
        requires
            old(self).wf(),
        ensures
            final(self).wf(),
            final(self).hooks() == old(self).hooks(),
            exists|closed: Seq<bool>|
                registration_done(
                    old(self)@,
                    final(self)@,
                    name@,
                    tags.deep_view(),
                    options.deep_view(),
                    countable,
                    closed,
                    report,
                ),
    {
        let declared = Source::declare(name, &tags, &options, countable, self.min_interval);
        let closed = self.probe();
        let ghost source = declared.0;
        let replaced = self.install(declared.0, &closed);
        let report = Registration {
            ignored_tags: declared.1,
            ignored_options: declared.2,
            replaced,
        };
        proof {
            let after = self@.registry;
            let kept = without(pruned(old(self)@.registry, closed@), set![source.identity()]);
            assert(after.drop_last() =~= kept);
            assert(registration_done(
                old(self)@,
                self@,
                name@,
                tags.deep_view(),
                options.deep_view(),
                countable,
                closed@,
                report,
            ));
        }
        report
    }

    /// Registers a producer under the identity of a module: under what the
    /// module gives as its name, its tags and its overrides of the interval.
    /// What happens to the registry is what `register` does with these.
    pub fn register_countable<M: Module + ?Sized>(&mut self, module: &M, countable: Countable) -> (report:
        Registration)
        requires
            old(self).wf(),
        ensures
            final(self).wf(),
            final(self).hooks() == old(self).hooks(),
            exists|
                name: &'static str,
                tags: Vec<StatsOption>,
                options: Vec<StatsOption>,
                closed: Seq<bool>,
            |
                declares(module, name, tags, options) && #[trigger] registration_done(
                    old(self)@,
                    final(self)@,
                    name@,
                    tags.deep_view(),
                    options.deep_view(),
                    countable,
                    closed,
                    report,
                ),
    {
        let name = module.name();
        let tags = module.tags();
        let options = module.options();
        let ghost given_tags = tags;
        let ghost given_options = options;
        let report = self.register(name, tags, options, countable);
        proof {
            let closed = choose|closed: Seq<bool>|
                registration_done(
                    old(self)@,
                    self@,
                    name@,
                    given_tags.deep_view(),
                    given_options.deep_view(),
                    countable,
                    closed,
                    report,
                );
            assert(declares(module, name, given_tags, given_options) && registration_done(
                old(self)@,
                self@,
                name@,
                given_tags.deep_view(),
                given_options.deep_view(),
                countable,
                closed,
                report,
            ));
        }
        report
    }

    /// Takes out of the registry the source with the given name and tags, if
    /// it is there.
    pub fn deregister(&mut self, name: &str, tags: &Vec<Tag>)
        requires
            old(self).wf(),
        ensures
            final(self).wf(),
            final(self).hooks() == old(self).hooks(),
            final(self)@ == (CollectorView {
                registry: without(old(self)@.registry, set![(name@, tags.deep_view())]),
                ..old(self)@
            }),
    {
        let ghost before = self.sources@;
        let ghost ids = set![(name@, tags.deep_view())];
        let n: usize = self.sources.len();
        let mut dropped: Vec<bool> = Vec::new();
        let mut i: usize = 0;
        while i < n
            invariant
                i <= n,
                n == before.len(),
                self.sources@ == before,
                dropped.len() == i,
                forall|k: int|
                    0 <= k < i ==> dropped[k] == (before[k].identity() == (name@, tags.deep_view())),
            decreases n - i,
        {
            dropped.push(self.sources[i].has_identity(name, tags));
            i = i + 1;
        }
        proof {
            assert(dropped@ =~= Seq::new(
                before.len(),
                |i: int| ids.contains(before[i].identity()),
            ));
            lemma_without_is_pruned(before, ids);
            lemma_without_sources(before, ids);
        }
        retain_unflagged(&mut self.sources, &dropped);
    }

    /// Takes out of the registry every source that has the identity of one of
    /// the modules: what the module gives as its name, and its tags but for
    /// those whose key an earlier one has.
    pub fn deregister_countables<M: Module + ?Sized>(&mut self, modules: &Vec<&M>)
        requires
            old(self).wf(),
        ensures
            final(self).wf(),
            final(self).hooks() == old(self).hooks(),
            exists|ids: Seq<Identity>|
                ids.len() == modules.len() && #[trigger] deregistered(
                    old(self)@,
                    final(self)@,
                    ids,
                ) && forall|k: int| 0 <= k < ids.len() ==> gives(modules[k], #[trigger] ids[k]),
    {
        let ghost before = self@.registry;
        let ghost mut ids: Seq<Identity> = Seq::empty();
        let mut j: usize = 0;
        proof {
            assert(identities(ids) =~= Set::<Identity>::empty());
            lemma_without_none(before);
        }
        while j < modules.len()
            invariant
                j <= modules.len(),
                self.wf(),
                before == old(self)@.registry,
                self.hooks() == old(self).hooks(),
                ids.len() == j,
                forall|k: int| 0 <= k < ids.len() ==> gives(modules[k], #[trigger] ids[k]),
                self@ == (CollectorView {
                    registry: without(before, identities(ids)),
                    ..old(self)@
                }),
            decreases modules.len() - j,
        {
            let module = modules[j];
            let name = module.name();
            let declared = module.tags();
            let collected = collect_tags(&declared);
            self.deregister(name, &collected.0);
            proof {
                let id = (name@, collected.0.deep_view());
                let next = ids.push(id);
                assert(gives(module, id));
                lemma_without_twice(before, identities(ids), set![id]);
                assert(identities(next) =~= identities(ids).union(set![id])) by {
                    assert forall|x: Identity| identities(next).contains(x) implies identities(
                        ids,
                    ).union(set![id]).contains(x) by {
                        let k = choose|k: int| 0 <= k < next.len() && next[k] == x;
                        if k < ids.len() {
                            assert(ids[k] == x);
                        }
                    }
                    assert forall|x: Identity| identities(ids).union(set![id]).contains(
                        x,
                    ) implies identities(next).contains(x) by {
                        if identities(ids).contains(x) {
                            let k = choose|k: int| 0 <= k < ids.len() && ids[k] == x;
                            assert(next[k] == x);
                        } else {
                            assert(next[ids.len() as int] == x);
                        }
                    }
                }
                assert forall|k: int| 0 <= k < next.len() implies gives(
                    modules[k],
                    #[trigger] next[k],
                ) by {
                    if k < ids.len() {
                        assert(next[k] == ids[k]);
                    }
                }
                ids = next;
            }
            j = j + 1;
        }
        assert(deregistered(old(self)@, self@, ids));
    }

    fn run_hooks(&mut self)
        requires
            old(self).wf(),
        ensures
            final(self).wf(),
            final(self)@ == old(self)@,
            final(self).hooks().len() == old(self).hooks().len(),
    {
        let mut i: usize = 0;
        while i < self.pre_hooks.len()
            invariant
                self.wf(),
                self@ == old(self)@,
                self.pre_hooks.len() == old(self).pre_hooks.len(),
            decreases self.pre_hooks.len() - i,
        {
            self.pre_hooks[i].run();
            i = i + 1;
        }
    }

    /// One round of sampling over the registry as it stands.
    fn sample_round(&mut self, hostname: &str, now: u64) -> (counts: (usize, usize))
        requires
            old(self).wf(),
        ensures
            final(self).wf(),
            final(self).hooks() == old(self).hooks(),
            exists|answers: Seq<Seq<CounterView>>|
                round_done(
                    old(self)@,
                    final(self)@,
                    hostname@,
                    now as nat,
                    answers,
                    counts.0 as nat,
                    counts.1 as nat,
                ),
    {
        let ghost live = self@.registry;
        let ghost min = self@.min_interval;
        let ghost start = Round {
            sources: live,
            answers: Seq::empty(),
            hostname: hostname@,
            now: now as nat,
            pending: self@.pending,
            room: self@.room,
            terminated: self@.terminated,
        };
        let ghost mut answers: Seq<Seq<CounterView>> = Seq::empty();
        let n: usize = self.sources.len();
        let mut batches: usize = 0;
        let mut dropped: usize = 0;
        let mut i: usize = 0;
        proof {
            assert(advanced_to(live, min, 0) =~= live);
        }
        while i < n
            invariant
                self.wf(),
                i <= n,
                n == live.len(),
                live == old(self)@.registry,
                min == old(self)@.min_interval,
                start == (Round {
                    sources: live,
                    answers: Seq::empty(),
                    hostname: hostname@,
                    now: now as nat,
                    pending: old(self)@.pending,
                    room: old(self)@.room,
                    terminated: old(self)@.terminated,
                }),
                start.pending.len() <= start.room,
                answers.len() == i,
                forall|k: int|
                    0 <= k < i && due((#[trigger] live[k]).skip as nat) ==> answer_given(
                        live[k],
                        answers[k],
                    ),
                dropped <= batches <= i,
                batches == start.answering(answers).attempts(i as nat),
                batches - dropped == self@.pending.len() - start.pending.len(),
                self.hooks() == old(self).hooks(),
                self@ == (CollectorView {
                    registry: advanced_to(live, min, i as int),
                    pending: start.answering(answers).delivered(i as nat),
                    ..old(self)@
                }),
            decreases n - i,
        {
            let ghost round = start.answering(answers);
            let ghost mut answer: Seq<CounterView> = Seq::empty();
            let due_now = self.count_down(i);
            let mut made: bool = false;
            let mut lost: bool = false;
            if due_now {
                let points = self.sample(i);
                proof {
                    answer = points.deep_view();
                    assert(self@.registry[i as int].countable == live[i as int].countable);
                    assert(answer_given(live[i as int], answer));
                }
                match self.hand_off(i, points, hostname, now) {
                    Delivery::Empty => {},
                    Delivery::Queued => {
                        made = true;
                    },
                    Delivery::Dropped(_) => {
                        made = true;
                        lost = true;
                    },
                }
            }
            proof {
                let next = start.answering(answers.push(answer));
                round.lemma_prefix(answers.push(answer), i as nat);
                assert(self@.registry =~= advanced_to(live, min, i + 1));
                next.lemma_delivered((i + 1) as nat);
                answers = answers.push(answer);
            }
            if made {
                batches = batches + 1;
            }
            if lost {
                dropped = dropped + 1;
            }
            i = i + 1;
        }
        proof {
            assert(advanced_to(live, min, n as int) =~= advanced(live, min));
        }
        let counts = (batches, dropped);
        assert(round_done(
            old(self)@,
            self@,
            hostname@,
            now as nat,
            answers,
            counts.0 as nat,
            counts.1 as nat,
        ));
        counts
    }

    /// The work of an eligible tick at the time `now`, in seconds, but for
    /// the hooks: the sources whose producers report themselves closed leave
    /// the registry, and each source that stays has its countdown moved; one
    /// that is due is asked for its counters, and these, if there are any, are
    /// offered to the outbound queue as a batch stamped with the hostname and
    /// `now`. The result is how many batches were made, and how many of them
    /// the queue did not take.
    pub fn sample_all(&mut self, now: u64) -> (counts: (usize, usize))
        requires
            old(self).wf(),
        ensures
            final(self).wf(),
            final(self).hooks() == old(self).hooks(),
            exists|closed: Seq<bool>, answers: Seq<Seq<CounterView>>|
                sampled(
                    old(self)@,
                    final(self)@,
                    now as nat,
                    closed,
                    answers,
                    counts.0 as nat,
                    counts.1 as nat,
                ),
    {
        self.last_run = now;
        let host = self.hostname.clone();
        let closed = self.probe();
        self.prune(&closed);
        let ghost pruned_view = self@;
        let counts = self.sample_round(host.as_str(), now);
        proof {
            let answers = choose|answers: Seq<Seq<CounterView>>|
                round_done(
                    pruned_view,
                    self@,
                    host@,
                    now as nat,
                    answers,
                    counts.0 as nat,
                    counts.1 as nat,
                );
            assert(sampled(
                old(self)@,
                self@,
                now as nat,
                closed@,
                answers,
                counts.0 as nat,
                counts.1 as nat,
            ));
        }
        counts
    }

    /// One wake of the scheduling loop at the time `now`, in seconds.
    ///
    /// Nothing happens unless the collector is running and `now` falls into
    /// another period of the minimum interval than the last eligible tick.
    /// Then the hooks run in their order, and the sources are sampled as
    /// `sample_all` does it.
    pub fn tick(&mut self, now: u64) -> (outcome: Tick)
        requires
            old(self).wf(),
        ensures
            final(self).wf(),
            final(self).hooks().len() == old(self).hooks().len(),
            outcome is Stopped <==> !old(self)@.running,
            outcome is Idle <==> old(self)@.running && !eligible(
                now as nat,
                old(self)@.last_run,
                old(self)@.min_interval,
            ),
            outcome is Stopped || outcome is Idle ==> final(self)@ == old(self)@,
            outcome matches Tick::Sampled { batches, dropped } ==> exists|
                closed: Seq<bool>,
                answers: Seq<Seq<CounterView>>,
            |
                sampled(
                    old(self)@,
                    final(self)@,
                    now as nat,
                    closed,
                    answers,
                    batches as nat,
                    dropped as nat,
                ),
    {
        if !self.running {
            return Tick::Stopped;
        }
        if !is_eligible(now, self.last_run, self.min_interval) {
            return Tick::Idle;
        }
        self.run_hooks();
        let counts = self.sample_all(now);
        let outcome = Tick::Sampled { batches: counts.0, dropped: counts.1 };
        proof {
            let (closed, answers) = choose|closed: Seq<bool>, answers: Seq<Seq<CounterView>>|
                sampled(
                    old(self)@,
                    self@,
                    now as nat,
                    closed,
                    answers,
                    counts.0 as nat,
                    counts.1 as nat,
                );
            assert(sampled(
                old(self)@,
                self@,
                now as nat,
                closed,
                answers,
                outcome->batches as nat,
                outcome->dropped as nat,
            ));
        }
        outcome
    }
}

} // verus!
