//! Counters and the producers that report them.

use vstd::prelude::*;

verus! {

/// How a counter's value is to be read.
#[derive(Clone, Copy, Debug, PartialEq, Eq, Structural)]
pub enum CounterType {
    /// A count of events since the last sample.
    Counted,
    /// A level observed at the time of the sample.
    Gauged,
}

/// The value of a counter.
#[derive(Clone, Copy, Debug, PartialEq, Eq, Structural)]
pub enum CounterValue {
    /// A signed integer.
    Signed(i64),
    /// An unsigned integer.
    Unsigned(u64),
    /// A 64-bit binary floating-point number, held as its bit pattern.
    Float(u64),
}

/// A counter: its name, how to read it, and its value.
pub type Counter = (&'static str, CounterType, CounterValue);

/// A counter with its name as a sequence of characters.
pub type CounterView = (Seq<char>, CounterType, CounterValue);

impl DeepView for CounterType {
    type V = CounterType;

    open spec fn deep_view(&self) -> CounterType {
        *self
    }
}

impl DeepView for CounterValue {
    type V = CounterValue;

    open spec fn deep_view(&self) -> CounterValue {
        *self
    }
}

/// A producer of counters that the collector owns once it is registered.
///
/// Both methods are called from the scheduling loop; neither may block.
pub trait OwnedCountable: Send + Sync {
    /// The counters that the producer holds now.
    fn get_counters(&self) -> Vec<Counter>;

    /// Whether the producer has come to its end.
    fn closed(&self) -> bool;
}

/// Whether `points` is what the producer gave when it was asked for its
/// counters.
pub open spec fn answered<P: OwnedCountable + ?Sized>(producer: &P, points: Vec<Counter>) -> bool {
    call_ensures(P::get_counters, (producer,), points)
}

/// Whether `flag` is what the producer gave when it was asked whether it is
/// closed.
pub open spec fn reported<P: OwnedCountable + ?Sized>(producer: &P, flag: bool) -> bool {
    call_ensures(P::closed, (producer,), flag)
}

/// Asks a producer for its counters.
pub fn ask_counters<P: OwnedCountable + ?Sized>(producer: &P) -> (points: Vec<Counter>)
    ensures
        answered(producer, points),
{
    producer.get_counters()
}

/// Asks a producer whether it is closed.
pub fn ask_closed<P: OwnedCountable + ?Sized>(producer: &P) -> (flag: bool)
    ensures
        reported(producer, flag),
{
    producer.closed()
}

/// What a registered source is sampled from.
pub enum Countable {
    /// A producer of its own.
    Owned(Box<dyn OwnedCountable>),
    /// The collector's outbound queue, which reports its backlog.
    Outbound,
}

} // verus!
