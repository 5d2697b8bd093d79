//! Domain types shared by the engine, the risk checks and the connector.
use vstd::prelude::*;

verus! {

/// Which kind of profile is active.
#[derive(Debug, Clone, Copy, PartialEq, Eq, Structural)]
pub enum ProfileMode {
    Paper,
    Live,
    Research,
}

/// OpenD trading environment.
#[derive(Debug, Clone, Copy, PartialEq, Eq, Structural)]
pub enum OpenDTradeEnv {
    /// OpenD simulated trading environment (Futu "simulate").
    Simulate,
    /// OpenD real trading environment.
    Real,
}

impl Default for OpenDTradeEnv {
    /// The safer default: simulated trading.
    fn default() -> (e: Self)
        ensures
            e == OpenDTradeEnv::Simulate,
    {
        OpenDTradeEnv::Simulate
    }
}

/// A daily window of time in UTC.
#[derive(Debug, Clone)]
pub struct SessionWindowUtc {
    /// 1=Mon ... 7=Sun. Empty means every day.
    pub weekdays: Vec<u8>,
    /// "HH:MM" in UTC.
    pub start_hhmm: String,
    /// "HH:MM" in UTC.
    pub end_hhmm: String,
}

impl Default for SessionWindowUtc {
    /// Every day, from "00:00" to "23:59".
    fn default() -> (w: Self)
        ensures
            w.weekdays@.len() == 0,
            w.start_hhmm@ == seq!['0', '0', ':', '0', '0'],
            w.end_hhmm@ == seq!['2', '3', ':', '5', '9'],
    {
        let start = vec!['0', '0', ':', '0', '0'];
        let end = vec!['2', '3', ':', '5', '9'];
        assert(start@ =~= seq!['0', '0', ':', '0', '0']);
        assert(end@ =~= seq!['2', '3', ':', '5', '9']);
        SessionWindowUtc {
            weekdays: Vec::new(),
            start_hhmm: crate::text::string_of(&start),
            end_hhmm: crate::text::string_of(&end),
        }
    }
}

/// When orders and signals are allowed.
#[derive(Debug, Clone)]
pub struct TimeControls {
    /// If enabled, orders/signals are only allowed inside `sessions_utc` and not inside
    /// `blackout_utc`.
    pub enabled: bool,
    pub sessions_utc: Vec<SessionWindowUtc>,
    pub blackout_utc: Vec<SessionWindowUtc>,
    /// Minimum seconds between orders per symbol (engine-level cooldown).
    pub cooldown_sec: u32,
}

impl Default for TimeControls {
    /// Disabled, no windows, no cooldown.
    fn default() -> (t: Self)
        ensures
            !t.enabled,
            t.sessions_utc@.len() == 0,
            t.blackout_utc@.len() == 0,
            t.cooldown_sec == 0,
    {
        TimeControls {
            enabled: false,
            sessions_utc: Vec::new(),
            blackout_utc: Vec::new(),
            cooldown_sec: 0,
        }
    }
}

/// Where OpenD listens.
#[derive(Debug, Clone)]
pub struct OpenDConfig {
    pub host: String,
    pub port: u16,
    pub use_tls: bool,
}

impl Default for OpenDConfig {
    /// `127.0.0.1:11111` without TLS.
    fn default() -> (c: Self)
        ensures
            c.host@ == seq!['1', '2', '7', '.', '0', '.', '0', '.', '1'],
            c.port == 11111,
            !c.use_tls,
    {
        let host = vec!['1', '2', '7', '.', '0', '.', '0', '.', '1'];
        assert(host@ =~= seq!['1', '2', '7', '.', '0', '.', '0', '.', '1']);
        OpenDConfig { host: crate::text::string_of(&host), port: 11111, use_tls: false }
    }
}

#[derive(Debug, Clone, Copy, PartialEq, Eq, Structural)]
pub enum OrderSide {
    Buy,
    Sell,
}

#[derive(Debug, Clone, Copy, PartialEq, Eq, Structural)]
pub enum OrderType {
    Market,
    Limit,
}

#[derive(Debug, Clone, Copy, PartialEq, Eq, Structural)]
pub enum OrderStatus {
    PendingSubmit,
    Submitted,
    Filled,
    Cancelled,
    Rejected,
}

/// Lifecycle stage of a saved strategy definition.
#[derive(Debug, Clone, Copy, PartialEq, Eq, Structural)]
pub enum StrategyLifecycle {
    Draft,
    Paper,
    Live,
}

impl Default for StrategyLifecycle {
    fn default() -> (l: Self)
        ensures
            l == StrategyLifecycle::Draft,
    {
        StrategyLifecycle::Draft
    }
}

#[derive(Debug, Clone, Copy, PartialEq, Eq, Structural)]
pub enum ModelKind {
    Builtin,
    Onnx,
}

/// Parameters of a model evaluation run.
#[derive(Debug, Clone)]
pub struct ModelEvalParams {
    pub model_id: String,
    pub candles_csv_path: String,
    pub symbol: String,
    pub seed: u64,
}

/// Counts of (predicted up, actually up) outcomes.
#[derive(Debug, Clone, Copy, PartialEq, Eq, Structural)]
pub struct Confusion2x2 {
    pub tp: u32,
    pub fp: u32,
    pub tn: u32,
    pub fn_: u32,
}

} // verus!
