//! Statistics aggregation for a host-resident agent: a registry of counter
//! sources, the schedule that decides when each one is sampled, the batches
//! that sampling produces and the records they are sent as.

pub mod atomic_time_stats;
pub mod batch;
pub mod collector;
pub mod counter;
pub mod droplet;
pub mod duration;
pub mod interleaving;
pub mod module;
pub mod queue;
pub mod registry;
pub mod schedule;
pub mod tags;
pub mod text;
pub mod time_stats;

pub use atomic_time_stats::AtomicTimeStats;
pub use batch::{ArcBatch, Batch, SendMessageType, Stats};
pub use collector::{Collector, Delivery, PreHook, Registration, Tick};
pub use counter::{Countable, Counter, CounterType, CounterValue, OwnedCountable};
pub use droplet::DropletSink;
pub use duration::Duration;
pub use module::{Module, NoTagModule, QueueStats, SingleTagModule};
pub use queue::{Queue, SendError};
pub use registry::Source;
pub use tags::{StatsOption, Tag};
pub use time_stats::TimeStats;
