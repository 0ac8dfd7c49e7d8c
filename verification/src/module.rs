//! What a producer says of itself when it is registered: a name, tags, and
//! overrides of the sampling interval.

use crate::tags::{StatsOption, StatsOptionView};
use crate::text::{decimal, decimal_digits};
use vstd::prelude::*;
use vstd::string::StringExecFns;

verus! {

/// The identity of a producer and the declarations that come with it.
///
/// The name and the tags are to be the same on every call for as long as the
/// producer is registered: a producer is found again by them.
pub trait Module {
    /// The name of the module.
    fn name(&self) -> &'static str;

    /// The tags of the module.
    fn tags(&self) -> Vec<StatsOption> {
        Vec::new()
    }

    /// The overrides of the sampling interval that the module asks for.
    fn options(&self) -> Vec<StatsOption> {
        Vec::new()
    }
}

/// A module with a name and nothing else.
pub struct NoTagModule(pub &'static str);

impl Module for NoTagModule {
    fn name(&self) -> (name: &'static str)
        ensures
            name@ == self.0@,
    {
        self.0
    }

    fn tags(&self) -> (tags: Vec<StatsOption>)
        ensures
            tags.deep_view() == Seq::<StatsOptionView>::empty(),
    {
        let tags: Vec<StatsOption> = Vec::new();
        tags
    }

    fn options(&self) -> (options: Vec<StatsOption>)
        ensures
            options.deep_view() == Seq::<StatsOptionView>::empty(),
    {
        let options: Vec<StatsOption> = Vec::new();
        options
    }
}

/// A module with a name and one tag: its key and its value.
pub struct SingleTagModule(pub &'static str, pub &'static str, pub String);

impl Module for SingleTagModule {
    fn name(&self) -> (name: &'static str)
        ensures
            name@ == self.0@,
    {
        self.0
    }

    fn tags(&self) -> (tags: Vec<StatsOption>)
        ensures
            tags.deep_view() == seq![StatsOptionView::Tag(self.1@, self.2@)],
    {
        let mut tags: Vec<StatsOption> = Vec::new();
        tags.push(StatsOption::Tag(self.1, self.2.clone()));
        tags
    }

    fn options(&self) -> (options: Vec<StatsOption>)
        ensures
            options.deep_view() == Seq::<StatsOptionView>::empty(),
    {
        let options: Vec<StatsOption> = Vec::new();
        options
    }
}

/// The module of a queue: the queue's index and the name of the module that
/// the queue belongs to.
pub struct QueueStats {
    /// The index of the queue among those of its module.
    pub id: usize,
    /// The module that the queue belongs to.
    pub module: &'static str,
}

impl QueueStats {
    /// The name under which every queue is registered.
    pub open spec fn queue_name() -> Seq<char> {
        "queue"@
    }

    /// The key of the tag that holds a queue's index.
    pub open spec fn index_key() -> Seq<char> {
        "index"@
    }

    /// The key of the tag that holds the module that a queue belongs to.
    pub open spec fn module_key() -> Seq<char> {
        "module"@
    }

    /// The tags that a queue declares: its index in decimal, and the module
    /// that it belongs to.
    pub open spec fn declared(self) -> Seq<StatsOptionView> {
        seq![
            StatsOptionView::Tag(QueueStats::index_key(), decimal_digits(self.id as nat)),
            StatsOptionView::Tag(QueueStats::module_key(), self.module@),
        ]
    }
}

impl Default for QueueStats {
    fn default() -> (stats: QueueStats)
        ensures
            stats.id == 0,
            stats.module@ == Seq::<char>::empty(),
    {
        proof {
            reveal_strlit("");
        }
        let module = "";
        QueueStats { id: 0, module }
    }
}

impl Module for QueueStats {
    fn name(&self) -> (name: &'static str)
        ensures
            name@ == QueueStats::queue_name(),
    {
        "queue"
    }

    fn tags(&self) -> (tags: Vec<StatsOption>)
        ensures
            tags.deep_view() == self.declared(),
    {
        let mut tags: Vec<StatsOption> = Vec::new();
        tags.push(StatsOption::Tag("index", decimal(self.id)));
        tags.push(StatsOption::Tag("module", String::from_str(self.module)));
        tags
    }

    fn options(&self) -> (options: Vec<StatsOption>)
        ensures
            options.deep_view() == Seq::<StatsOptionView>::empty(),
    {
        let options: Vec<StatsOption> = Vec::new();
        options
    }
}

} // verus!
