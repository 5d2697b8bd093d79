//! Engine counters (quotes, candles, orders placed/rejected, fills). Each
//! counter wraps around at 2^64 like an atomic `fetch_add`.
use vstd::prelude::*;

verus! {

/// A copy of the counters at one moment.
#[derive(Debug, Clone, Copy, PartialEq, Eq, Structural)]
pub struct MetricsSnapshot {
    pub quote_updates: u64,
    pub candles_built: u64,
    pub orders_placed: u64,
    pub orders_rejected: u64,
    pub fills: u64,
}

/// The live counters.
#[derive(Debug)]
pub struct Metrics {
    quote_updates: u64,
    candles_built: u64,
    orders_placed: u64,
    orders_rejected: u64,
    fills: u64,
}

/// `x + 1`, wrapping to 0 after `u64::MAX`.
pub open spec fn bump(x: u64) -> u64 {
    if x == u64::MAX {
        0
    } else {
        (x + 1) as u64
    }
}

fn bump_exec(x: u64) -> (y: u64)
    ensures
        y == bump(x),
{
    if x == u64::MAX {
        0
    } else {
        x + 1
    }
}

impl View for Metrics {
    type V = MetricsSnapshot;

    closed spec fn view(&self) -> MetricsSnapshot {
        MetricsSnapshot {
            quote_updates: self.quote_updates,
            candles_built: self.candles_built,
            orders_placed: self.orders_placed,
            orders_rejected: self.orders_rejected,
            fills: self.fills,
        }
    }
}

impl Default for Metrics {
    /// All counters at zero.
    fn default() -> (m: Self)
        ensures
            m@ == (MetricsSnapshot {
                quote_updates: 0,
                candles_built: 0,
                orders_placed: 0,
                orders_rejected: 0,
                fills: 0,
            }),
    {
        Metrics { quote_updates: 0, candles_built: 0, orders_placed: 0, orders_rejected: 0, fills: 0 }
    }
}

impl Metrics {
    /// Counts one quote update.
    pub fn inc_quote(&mut self)
        ensures
            final(self)@ == spec_count_step(old(self)@, MetricEvent::Quote),
            final(self)@ == (MetricsSnapshot { quote_updates: bump(old(self)@.quote_updates), ..old(self)@ }),
    {
        self.quote_updates = bump_exec(self.quote_updates);
    }

    /// Counts one candle built.
    pub fn inc_candle(&mut self)
        ensures
            final(self)@ == spec_count_step(old(self)@, MetricEvent::Candle),
            final(self)@ == (MetricsSnapshot { candles_built: bump(old(self)@.candles_built), ..old(self)@ }),
    {
        self.candles_built = bump_exec(self.candles_built);
    }

    /// Counts one order placed.
    pub fn inc_order_placed(&mut self)
        ensures
            final(self)@ == spec_count_step(old(self)@, MetricEvent::OrderPlaced),
            final(self)@ == (MetricsSnapshot { orders_placed: bump(old(self)@.orders_placed), ..old(self)@ }),
    {
        self.orders_placed = bump_exec(self.orders_placed);
    }

    /// Counts one order rejected.
    pub fn inc_order_rejected(&mut self)
        ensures
            final(self)@ == spec_count_step(old(self)@, MetricEvent::OrderRejected),
            final(self)@ == (MetricsSnapshot {
                orders_rejected: bump(old(self)@.orders_rejected),
                ..old(self)@
            }),
    {
        self.orders_rejected = bump_exec(self.orders_rejected);
    }

    /// Counts one fill.
    pub fn inc_fill(&mut self)
        ensures
            final(self)@ == spec_count_step(old(self)@, MetricEvent::Fill),
            final(self)@ == (MetricsSnapshot { fills: bump(old(self)@.fills), ..old(self)@ }),
    {
        self.fills = bump_exec(self.fills);
    }

    /// The current counters.
    pub fn snapshot(&self) -> (s: MetricsSnapshot)
        ensures
            s == self@,
    {
        MetricsSnapshot {
            quote_updates: self.quote_updates,
            candles_built: self.candles_built,
            orders_placed: self.orders_placed,
            orders_rejected: self.orders_rejected,
            fills: self.fills,
        }
    }
}

/// One counted event: which `inc_*` method is called.
#[derive(Debug, Clone, Copy, PartialEq, Eq, Structural)]
pub enum MetricEvent {
    Quote,
    Candle,
    OrderPlaced,
    OrderRejected,
    Fill,
}

/// The counters after one event, as the matching `inc_*` method leaves them.
pub open spec fn spec_count_step(m: MetricsSnapshot, e: MetricEvent) -> MetricsSnapshot {
    match e {
        MetricEvent::Quote => MetricsSnapshot { quote_updates: bump(m.quote_updates), ..m },
        MetricEvent::Candle => MetricsSnapshot { candles_built: bump(m.candles_built), ..m },
        MetricEvent::OrderPlaced => MetricsSnapshot { orders_placed: bump(m.orders_placed), ..m },
        MetricEvent::OrderRejected => MetricsSnapshot { orders_rejected: bump(m.orders_rejected), ..m },
        MetricEvent::Fill => MetricsSnapshot { fills: bump(m.fills), ..m },
    }
}

/// The counters after a sequence of events, in order.
pub open spec fn spec_count_run(m: MetricsSnapshot, es: Seq<MetricEvent>) -> MetricsSnapshot
    decreases es.len(),
{
    if es.len() == 0 {
        m
    } else {
        spec_count_step(spec_count_run(m, es.drop_last()), es.last())
    }
}

/// How many of `es` are `e`.
pub open spec fn occurrences(es: Seq<MetricEvent>, e: MetricEvent) -> nat
    decreases es.len(),
{
    if es.len() == 0 {
        0
    } else {
        occurrences(es.drop_last(), e) + if es.last() == e {
            1nat
        } else {
            0nat
        }
    }
}

/// `n` wrapped to 64 bits.
pub open spec fn wrap64(n: nat) -> u64 {
    (n % 0x1_0000_0000_0000_0000) as u64
}

/// The all-zero counters.
pub open spec fn zero_counts() -> MetricsSnapshot {
    MetricsSnapshot { quote_updates: 0, candles_built: 0, orders_placed: 0, orders_rejected: 0, fills: 0 }
}

proof fn lemma_bump_wraps(n: nat)
    ensures
        bump(wrap64(n)) == wrap64(n + 1),
{
    let m: int = 0x1_0000_0000_0000_0000;
    let k: int = n as int;
    assert((k + 1) % m == if k % m == m - 1 { 0 } else { k % m + 1 }) by (nonlinear_arith)
        requires
            m == 0x1_0000_0000_0000_0000int,
            k >= 0,
    ;
}

/// Counters started at zero count every event of their kind, and nothing else:
/// after any sequence of `inc_*` calls each counter holds the number of its
/// events (modulo 2^64), and a snapshot changes nothing.
pub proof fn law_counters_count_their_events(es: Seq<MetricEvent>)
    ensures
        spec_count_run(zero_counts(), es) == (MetricsSnapshot {
            quote_updates: wrap64(occurrences(es, MetricEvent::Quote)),
            candles_built: wrap64(occurrences(es, MetricEvent::Candle)),
            orders_placed: wrap64(occurrences(es, MetricEvent::OrderPlaced)),
            orders_rejected: wrap64(occurrences(es, MetricEvent::OrderRejected)),
            fills: wrap64(occurrences(es, MetricEvent::Fill)),
        }),
    decreases es.len(),
{
    if es.len() > 0 {
        let init = es.drop_last();
        law_counters_count_their_events(init);
        match es.last() {
            MetricEvent::Quote => lemma_bump_wraps(occurrences(init, MetricEvent::Quote)),
            MetricEvent::Candle => lemma_bump_wraps(occurrences(init, MetricEvent::Candle)),
            MetricEvent::OrderPlaced => lemma_bump_wraps(occurrences(init, MetricEvent::OrderPlaced)),
            MetricEvent::OrderRejected => lemma_bump_wraps(
                occurrences(init, MetricEvent::OrderRejected),
            ),
            MetricEvent::Fill => lemma_bump_wraps(occurrences(init, MetricEvent::Fill)),
        }
    }
}

} // verus!
