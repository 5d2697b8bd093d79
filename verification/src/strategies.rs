//! Strategy catalogue pieces that do not depend on prices: which strategy an
//! id names, the starter script, parameter checks on whole numbers.
use vstd::prelude::*;
use vstd::string::StringExecFns;
use crate::text::{chars_eq, chars_of, push_all, string_of};

verus! {

/// The starter script of the custom (Rhai) strategy: always holds.
pub open spec fn spec_default_rhai_script() -> Seq<char> {
    "\n// Returns: \"buy\", \"sell\", or \"hold\".\nfn on_bar(close) {\n  // Example: buy when close dips below SMA(20), sell when above.\n  let action = \"hold\";\n  action\n}\n"@
}

/// The starter script of the custom (Rhai) strategy.
pub fn default_rhai_script() -> (s: String)
    ensures
        s@ == spec_default_rhai_script(),
{
    String::from_str(
        "\n// Returns: \"buy\", \"sell\", or \"hold\".\nfn on_bar(close) {\n  // Example: buy when close dips below SMA(20), sell when above.\n  let action = \"hold\";\n  action\n}\n",
    )
}

/// The built-in strategies.
#[derive(Debug, Clone, Copy, PartialEq, Eq, Structural)]
pub enum StrategyKind {
    MaCrossover,
    MeanReversion,
    ShortTermMomentumBot,
    RhaiScript,
}

/// The strategy an id names, if any.
pub open spec fn spec_strategy_kind(id: Seq<char>) -> Option<StrategyKind> {
    if id == "ma_crossover"@ {
        Some(StrategyKind::MaCrossover)
    } else if id == "mean_reversion"@ {
        Some(StrategyKind::MeanReversion)
    } else if id == "short_term_momentum_bot"@ {
        Some(StrategyKind::ShortTermMomentumBot)
    } else if id == "rhai_script"@ {
        Some(StrategyKind::RhaiScript)
    } else {
        None
    }
}

/// The built-in strategy an id names; other ids are refused.
pub fn create_strategy(id: &str) -> (r: Result<StrategyKind, String>)
    ensures
        match spec_strategy_kind(id@) {
            Some(k) => r == Ok::<StrategyKind, String>(k),
            None => r matches Err(e) && e@ == "unknown strategy id: "@ + id@,
        },
{
    let v = chars_of(id);
    if chars_eq(&v, &chars_of("ma_crossover")) {
        Ok(StrategyKind::MaCrossover)
    } else if chars_eq(&v, &chars_of("mean_reversion")) {
        Ok(StrategyKind::MeanReversion)
    } else if chars_eq(&v, &chars_of("short_term_momentum_bot")) {
        Ok(StrategyKind::ShortTermMomentumBot)
    } else if chars_eq(&v, &chars_of("rhai_script")) {
        Ok(StrategyKind::RhaiScript)
    } else {
        let mut e = chars_of("unknown strategy id: ");
        push_all(&mut e, &v);
        Err(string_of(&e))
    }
}

/// The moving-average crossover needs its fast period below its slow one.
pub fn check_ma_periods(fast_period: usize, slow_period: usize) -> (r: Result<(), String>)
    ensures
        r is Ok <==> fast_period < slow_period,
        r matches Err(e) ==> e@ == "fast_period must be < slow_period"@,
{
    if fast_period >= slow_period {
        return Err(String::from_str("fast_period must be < slow_period"));
    }
    Ok(())
}

// ---------------------------------------------------------------------------
// Short-term momentum bot: the bookkeeping between price checks
// ---------------------------------------------------------------------------

/// What the short-term momentum bot does on a bar, apart from the price
/// arithmetic its caller performs.
#[derive(Debug, Clone, Copy, PartialEq, Eq, Structural)]
pub enum MomentumStep {
    /// No signal.
    Hold,
    /// Sell `qty` to close the position.
    Exit { qty: u32 },
    /// Flat and out of cooldown with enough history: check the entry condition.
    CheckEntry,
}

/// The bot's counters: bars held in the current position, bars of cooldown
/// left after an exit.
#[derive(Debug, Clone, Copy, PartialEq, Eq, Structural)]
pub struct MomentumTracker {
    pub bars_in_position: u32,
    pub cooldown_left: u32,
}

/// The bot's settings that the bookkeeping reads.
#[derive(Debug, Clone, Copy, PartialEq, Eq, Structural)]
pub struct MomentumSettings {
    pub lookback: usize,
    pub horizon_sec: u32,
    pub cooldown_bars: u32,
}

/// What the bot sees of a bar: the position held, the bar length, whether
/// the take-profit or stop-loss level was crossed, and how many closes it
/// has recorded (this bar's included).
#[derive(Debug, Clone, Copy, PartialEq, Eq, Structural)]
pub struct MomentumBar {
    pub pos_qty: i64,
    pub interval_sec: u32,
    pub price_exit: bool,
    pub closes_len: usize,
}

/// `a + b` held at `u32::MAX`.
pub open spec fn sat_add(a: u32, b: u32) -> u32 {
    if a + b > u32::MAX {
        u32::MAX
    } else {
        (a + b) as u32
    }
}

/// `a * b` held at `u32::MAX`.
pub open spec fn sat_mul(a: u32, b: u32) -> u32 {
    if a * b > u32::MAX {
        u32::MAX
    } else {
        (a * b) as u32
    }
}

/// A non-negative quantity held at `u32::MAX`.
pub open spec fn sat_u32(q: i64) -> u32 {
    if q > u32::MAX {
        u32::MAX
    } else {
        q as u32
    }
}

/// One bar of the bot's bookkeeping: the cooldown counts down; holding a
/// position, the bar counts towards the horizon and the position is closed
/// (starting a cooldown) on a price exit or once the horizon has passed, the
/// exit order selling the whole position (held at `u32::MAX`);
/// flat, an entry is considered only out of cooldown and with more closes
/// than the lookback.
pub open spec fn spec_momentum_step(t: MomentumTracker, cfg: MomentumSettings, bar: MomentumBar) -> (
    MomentumTracker,
    MomentumStep,
) {
    let cooldown = if t.cooldown_left > 0 {
        (t.cooldown_left - 1) as u32
    } else {
        0u32
    };
    if bar.pos_qty > 0 {
        let held = sat_add(t.bars_in_position, 1);
        let elapsed = sat_mul(held, bar.interval_sec);
        if bar.price_exit || elapsed >= cfg.horizon_sec {
            (
                MomentumTracker { bars_in_position: 0, cooldown_left: cfg.cooldown_bars },
                MomentumStep::Exit { qty: sat_u32(bar.pos_qty) },
            )
        } else {
            (MomentumTracker { bars_in_position: held, cooldown_left: cooldown }, MomentumStep::Hold)
        }
    } else {
        let t2 = MomentumTracker { bars_in_position: 0, cooldown_left: cooldown };
        if cooldown > 0 || bar.closes_len <= cfg.lookback {
            (t2, MomentumStep::Hold)
        } else {
            (t2, MomentumStep::CheckEntry)
        }
    }
}

impl MomentumTracker {
    /// A bot with no position history and no cooldown.
    pub fn new() -> (t: MomentumTracker)
        ensures
            t.bars_in_position == 0,
            t.cooldown_left == 0,
    {
        MomentumTracker { bars_in_position: 0, cooldown_left: 0 }
    }

    /// One bar of bookkeeping (see `spec_momentum_step`).
    pub fn on_bar(&mut self, cfg: MomentumSettings, bar: MomentumBar) -> (s: MomentumStep)
        ensures
            (*final(self), s) == spec_momentum_step(*old(self), cfg, bar),
    {
        if self.cooldown_left > 0 {
            self.cooldown_left = self.cooldown_left - 1;
        }
        if bar.pos_qty > 0 {
            self.bars_in_position = self.bars_in_position.saturating_add(1);
            let elapsed = match self.bars_in_position.checked_mul(bar.interval_sec) {
                Some(e) => e,
                None => u32::MAX,
            };
            if bar.price_exit || elapsed >= cfg.horizon_sec {
                let qty: u32 = if bar.pos_qty > u32::MAX as i64 {
                    u32::MAX
                } else {
                    bar.pos_qty as u32
                };
                self.bars_in_position = 0;
                self.cooldown_left = cfg.cooldown_bars;
                return MomentumStep::Exit { qty };
            }
            return MomentumStep::Hold;
        }
        self.bars_in_position = 0;
        if self.cooldown_left > 0 || bar.closes_len <= cfg.lookback {
            return MomentumStep::Hold;
        }
        MomentumStep::CheckEntry
    }

    /// Records that the bot entered a position on this bar.
    pub fn entered(&mut self)
        ensures
            final(self).bars_in_position == 0,
            final(self).cooldown_left == old(self).cooldown_left,
    {
        self.bars_in_position = 0;
    }
}

/// The bookkeeping over a sequence of bars, in order.
pub open spec fn spec_momentum_run(t: MomentumTracker, cfg: MomentumSettings, bars: Seq<MomentumBar>) -> (
    MomentumTracker,
    Seq<MomentumStep>,
)
    decreases bars.len(),
{
    if bars.len() == 0 {
        (t, Seq::empty())
    } else {
        let (t1, steps) = spec_momentum_run(t, cfg, bars.drop_last());
        let (t2, s) = spec_momentum_step(t1, cfg, bars.last());
        (t2, steps.push(s))
    }
}

/// After an exit the bot stays out: while flat, no entry is considered on
/// the next `cooldown_bars - 1` bars, whatever their prices.
pub proof fn law_cooldown_blocks_reentry(
    t: MomentumTracker,
    cfg: MomentumSettings,
    exit_bar: MomentumBar,
    bars: Seq<MomentumBar>,
)
    requires
        spec_momentum_step(t, cfg, exit_bar).1 is Exit,
        bars.len() < cfg.cooldown_bars,
        forall|i: int| 0 <= i < bars.len() ==> (#[trigger] bars[i]).pos_qty <= 0,
    ensures
        forall|i: int|
            0 <= i < bars.len() ==> spec_momentum_run(
                spec_momentum_step(t, cfg, exit_bar).0,
                cfg,
                bars,
            ).1[i] == MomentumStep::Hold,
{
    let t0 = spec_momentum_step(t, cfg, exit_bar).0;
    lemma_cooldown_run(t0, cfg, bars);
}

proof fn lemma_cooldown_run(t0: MomentumTracker, cfg: MomentumSettings, bars: Seq<MomentumBar>)
    requires
        bars.len() < t0.cooldown_left,
        forall|i: int| 0 <= i < bars.len() ==> (#[trigger] bars[i]).pos_qty <= 0,
    ensures
        spec_momentum_run(t0, cfg, bars).0.cooldown_left == t0.cooldown_left - bars.len(),
        spec_momentum_run(t0, cfg, bars).1.len() == bars.len(),
        forall|i: int| 0 <= i < bars.len() ==> spec_momentum_run(t0, cfg, bars).1[i] == MomentumStep::Hold,
    decreases bars.len(),
{
    if bars.len() > 0 {
        let init = bars.drop_last();
        assert forall|i: int| 0 <= i < init.len() implies (#[trigger] init[i]).pos_qty <= 0 by {
            assert(init[i] == bars[i]);
        }
        lemma_cooldown_run(t0, cfg, init);
        assert(bars.last() == bars[bars.len() - 1]);
    }
}

} // verus!
