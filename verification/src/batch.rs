//! A batch is what one sample of one source holds; a stats record is what a
//! batch is sent as.

use crate::counter::{Counter, CounterValue, CounterView};
use crate::tags::{contains_key, has_key, host_key, unique_keys, Tag, TagView};
use crate::text::{append_underscored, underscored};
use std::sync::Arc;
use vstd::prelude::*;
use vstd::string::StringExecFns;

verus! {

/// What every record's name starts with.
pub const STATS_PREFIX: &'static str = "deepflow_agent";

/// The counters of one source at one sample time.
#[derive(Debug)]
pub struct Batch {
    /// The name of the module that the source was registered under.
    pub module: &'static str,
    /// The collector's hostname when the sample was taken.
    pub hostname: String,
    /// The tags of the source.
    pub tags: Vec<Tag>,
    /// The counters that the source reported.
    pub points: Vec<Counter>,
    /// The sample time in seconds.
    pub timestamp: u32,
}

/// A batch with its strings as sequences of characters.
pub struct BatchView {
    pub module: Seq<char>,
    pub hostname: Seq<char>,
    pub tags: Seq<TagView>,
    pub points: Seq<CounterView>,
    pub timestamp: u32,
}

impl DeepView for Batch {
    type V = BatchView;

    open spec fn deep_view(&self) -> BatchView {
        BatchView {
            module: self.module@,
            hostname: self.hostname@,
            tags: self.tags.deep_view(),
            points: self.points.deep_view(),
            timestamp: self.timestamp,
        }
    }
}

/// The record that a batch is sent as.
#[derive(Debug)]
pub struct Stats {
    /// The prefix, an underscore and the module's name.
    pub name: String,
    /// The sample time in seconds.
    pub timestamp: u64,
    /// The keys of the tags, in order.
    pub tag_names: Vec<String>,
    /// The values of the tags, each at the place of its key.
    pub tag_values: Vec<String>,
    /// The names of the counters, in order.
    pub metrics_float_names: Vec<String>,
    /// The values of the counters, each at the place of its name. A value
    /// keeps its representation here; it becomes a 64-bit float where the
    /// record is serialised.
    pub metrics_float_values: Vec<CounterValue>,
    /// The organisation that the record belongs to: always zero.
    pub org_id: u32,
    /// The team that the record belongs to: always zero.
    pub team_id: u32,
}

/// A record with its strings as sequences of characters.
pub struct StatsView {
    pub name: Seq<char>,
    pub timestamp: u64,
    pub tag_names: Seq<Seq<char>>,
    pub tag_values: Seq<Seq<char>>,
    pub metrics_float_names: Seq<Seq<char>>,
    pub metrics_float_values: Seq<CounterValue>,
    pub org_id: u32,
    pub team_id: u32,
}

impl DeepView for Stats {
    type V = StatsView;

    open spec fn deep_view(&self) -> StatsView {
        StatsView {
            name: self.name@,
            timestamp: self.timestamp,
            tag_names: self.tag_names.deep_view(),
            tag_values: self.tag_values.deep_view(),
            metrics_float_names: self.metrics_float_names.deep_view(),
            metrics_float_values: self.metrics_float_values@,
            org_id: self.org_id,
            team_id: self.team_id,
        }
    }
}

/// The kind of message that a batch is sent as.
#[derive(Clone, Copy, Debug, PartialEq, Eq, Structural)]
pub enum SendMessageType {
    /// A stats record.
    DeepflowStats,
}

/// The name of the record of a module: the prefix, an underscore, and the
/// module's name with every hyphen replaced by an underscore.
pub open spec fn wire_name(module: Seq<char>) -> Seq<char> {
    STATS_PREFIX@ + seq!['_'] + underscored(module)
}

/// The tags of a record: those of the batch, and after them the host tag
/// with the batch's hostname where the batch has no tag with that key.
pub open spec fn wire_tags(tags: Seq<TagView>, hostname: Seq<char>) -> Seq<TagView> {
    if has_key(tags, host_key()) {
        tags
    } else {
        tags.push((host_key(), hostname))
    }
}

/// The record of a batch.
pub open spec fn wire_record(batch: BatchView) -> StatsView {
    let tags = wire_tags(batch.tags, batch.hostname);
    StatsView {
        name: wire_name(batch.module),
        timestamp: batch.timestamp as u64,
        tag_names: Seq::new(tags.len(), |i: int| tags[i].0),
        tag_values: Seq::new(tags.len(), |i: int| tags[i].1),
        metrics_float_names: Seq::new(batch.points.len(), |i: int| batch.points[i].0),
        metrics_float_values: Seq::new(batch.points.len(), |i: int| batch.points[i].2),
        org_id: 0,
        team_id: 0,
    }
}

/// Where the tags hold no host tag, the record's tags are one more than the
/// batch's, and the one appended is the host tag with the hostname; where
/// they hold one, the record's tags are the batch's. Either way the record
/// has a host tag, and has no key twice if the batch has none twice.
pub proof fn lemma_host_tag(tags: Seq<TagView>, hostname: Seq<char>)
    ensures
        !has_key(tags, host_key()) ==> {
            &&& wire_tags(tags, hostname).len() == tags.len() + 1
            &&& wire_tags(tags, hostname).drop_last() == tags
            &&& wire_tags(tags, hostname).last() == (host_key(), hostname)
        },
        has_key(tags, host_key()) ==> wire_tags(tags, hostname) == tags,
        has_key(wire_tags(tags, hostname), host_key()),
        unique_keys(tags) ==> unique_keys(wire_tags(tags, hostname)),
{
    let wire = wire_tags(tags, hostname);
    if !has_key(tags, host_key()) {
        assert(wire[tags.len() as int].0 == host_key());
    }
}

/// The two tag sequences of a record have the length of its tags, and each
/// pair of them at one place is one of the tags; so have the two counter
/// sequences with the batch's counters.
pub proof fn lemma_parallel_sequences(batch: BatchView)
    ensures
        wire_record(batch).tag_names.len() == wire_record(batch).tag_values.len(),
        wire_record(batch).metrics_float_names.len() == wire_record(
            batch,
        ).metrics_float_values.len(),
        wire_record(batch).metrics_float_names.len() == batch.points.len(),
        wire_record(batch).tag_names.len() == batch.tags.len() + if has_key(
            batch.tags,
            host_key(),
        ) {
            0int
        } else {
            1int
        },
{
}

/// The tags that go out with the counters of a source: its own, and after
/// them the host tag with `hostname` where it has no tag with that key.
pub fn host_tagged(tags: &Vec<Tag>, hostname: &str) -> (tagged: Vec<Tag>)
    ensures
        tagged.deep_view() == wire_tags(tags.deep_view(), hostname@),
{
    let mut tagged: Vec<Tag> = Vec::new();
    let mut i: usize = 0;
    while i < tags.len()
        invariant
            i <= tags.len(),
            tagged.len() == i,
            forall|j: int| 0 <= j < i ==> tagged.deep_view()[j] == tags.deep_view()[j],
        decreases tags.len() - i,
    {
        tagged.push((tags[i].0, tags[i].1.clone()));
        i = i + 1;
    }
    if !contains_key(tags, "host") {
        tagged.push(("host", String::from_str(hostname)));
    }
    tagged
}

impl Batch {
    /// The record that the batch is sent as.
    pub fn to_stats(&self) -> (stats: Stats)
        ensures
            stats.deep_view() == wire_record(self.deep_view()),
    {
        let tagged = host_tagged(&self.tags, self.hostname.as_str());
        let ghost tags = tagged.deep_view();
        let ghost points = self.points.deep_view();
        let mut tag_names: Vec<String> = Vec::new();
        let mut tag_values: Vec<String> = Vec::new();
        let mut i: usize = 0;
        while i < tagged.len()
            invariant
                i <= tagged.len(),
                tags == tagged.deep_view(),
                tag_names.len() == i,
                tag_values.len() == i,
                forall|j: int| 0 <= j < i ==> tag_names.deep_view()[j] == (#[trigger] tags[j]).0,
                forall|j: int| 0 <= j < i ==> tag_values.deep_view()[j] == (#[trigger] tags[j]).1,
            decreases tagged.len() - i,
        {
            tag_names.push(String::from_str(tagged[i].0));
            tag_values.push(tagged[i].1.clone());
            i = i + 1;
        }
        let mut metrics_float_names: Vec<String> = Vec::new();
        let mut metrics_float_values: Vec<CounterValue> = Vec::new();
        let mut p: usize = 0;
        while p < self.points.len()
            invariant
                p <= self.points.len(),
                points == self.points.deep_view(),
                metrics_float_names.len() == p,
                metrics_float_values.len() == p,
                forall|j: int|
                    0 <= j < p ==> metrics_float_names.deep_view()[j] == (#[trigger] points[j]).0,
                forall|j: int| 0 <= j < p ==> metrics_float_values@[j] == (#[trigger] points[j]).2,
            decreases self.points.len() - p,
        {
            metrics_float_names.push(String::from_str(self.points[p].0));
            metrics_float_values.push(self.points[p].2);
            p = p + 1;
        }
        let mut name = String::from_str(STATS_PREFIX);
        proof {
            reveal_strlit("_");
        }
        name.append("_");
        append_underscored(&mut name, self.module);
        let stats = Stats {
            name,
            timestamp: self.timestamp as u64,
            tag_names,
            tag_values,
            metrics_float_names,
            metrics_float_values,
            org_id: 0,
            team_id: 0,
        };
        proof {
            let want = wire_record(self.deep_view());
            let got = stats.deep_view();
            assert(got.name =~= want.name);
            assert(got.tag_names =~= want.tag_names);
            assert(got.tag_values =~= want.tag_values);
            assert(got.metrics_float_names =~= want.metrics_float_names);
            assert(got.metrics_float_values =~= want.metrics_float_values);
        }
        stats
    }
}

/// A batch that the scheduler and the transport share.
#[derive(Debug)]
pub struct ArcBatch(pub Arc<Batch>);

impl DeepView for ArcBatch {
    type V = BatchView;

    open spec fn deep_view(&self) -> BatchView {
        (*self.0).deep_view()
    }
}

impl ArcBatch {
    /// Shares a batch.
    pub fn new(batch: Batch) -> (shared: ArcBatch)
        ensures
            *shared.0 == batch,
            shared.deep_view() == batch.deep_view(),
    {
        ArcBatch(Arc::new(batch))
    }

    /// The batch.
    pub fn batch(&self) -> (batch: &Batch)
        ensures
            *batch == *self.0,
    {
        &*self.0
    }

    /// The record that the batch is sent as.
    pub fn to_stats(&self) -> (stats: Stats)
        ensures
            stats.deep_view() == wire_record(self.deep_view()),
    {
        self.batch().to_stats()
    }

    /// The kind of message that the batch is sent as: a stats record.
    pub fn message_type(&self) -> (kind: SendMessageType)
        ensures
            kind == SendMessageType::DeepflowStats,
    {
        SendMessageType::DeepflowStats
    }
}

} // verus!
