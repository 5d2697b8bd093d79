use trade_robot::strategies::{MomentumBar, MomentumSettings, MomentumStep, MomentumTracker};

/// The price side of the short-term momentum bot, as its host computes it:
/// momentum over the lookback and the take-profit / stop-loss levels, in
/// basis points. The library keeps the bar bookkeeping.
struct Bot {
    cfg: MomentumSettings,
    entry_momentum_bps: f64,
    take_profit_bps: f64,
    stop_loss_bps: f64,
    trade_qty: u32,
    tracker: MomentumTracker,
    closes: Vec<f64>,
}

#[derive(Debug, PartialEq)]
enum Signal {
    Buy(u32),
    Sell(u32),
}

impl Bot {
    fn on_bar(&mut self, position: Option<(i64, f64)>, close: f64) -> Option<Signal> {
        self.closes.push(close);
        let (pos, price_exit) = match position {
            Some((qty, avg_cost)) if qty > 0 => {
                let pnl_bps = (close / avg_cost - 1.0) * 10_000.0;
                (qty, pnl_bps >= self.take_profit_bps || pnl_bps <= -self.stop_loss_bps)
            }
            _ => (0, false),
        };
        let bar = MomentumBar { pos_qty: pos, interval_sec: 60, price_exit, closes_len: self.closes.len() };
        match self.tracker.on_bar(self.cfg, bar) {
            MomentumStep::Hold => None,
            MomentumStep::Exit { qty } => Some(Signal::Sell(qty)),
            MomentumStep::CheckEntry => {
                let base = self.closes[self.closes.len() - 1 - self.cfg.lookback];
                let momentum_bps = (close / base - 1.0) * 10_000.0;
                // The minimum volatility is 0 here, which every price path meets.
                if momentum_bps >= self.entry_momentum_bps {
                    self.tracker.entered();
                    Some(Signal::Buy(self.trade_qty))
                } else {
                    None
                }
            }
        }
    }
}

#[test]
fn short_term_momentum_bot_enters_and_exits() {
    let mut s = Bot {
        cfg: MomentumSettings { lookback: 5, horizon_sec: 300, cooldown_bars: 0 },
        entry_momentum_bps: 20.0,
        take_profit_bps: 10.0,
        stop_loss_bps: 50.0,
        trade_qty: 2,
        tracker: MomentumTracker::new(),
        closes: Vec::new(),
    };
    let mut pos: Option<(i64, f64)> = None;
    let mut saw_buy = false;

    let prices = [100.0, 100.3, 100.6, 101.0, 101.3, 101.6, 102.0];
    for p in prices.iter() {
        if let Some(Signal::Buy(qty)) = s.on_bar(pos, *p) {
            saw_buy = true;
            pos = Some((qty as i64, *p));
            break;
        }
    }
    assert!(saw_buy, "expected buy signal");

    // Pump price enough to trigger take-profit sell.
    let sig = s.on_bar(pos, 103.0);
    assert!(sig.is_some(), "expected exit signal");
    assert_eq!(sig, Some(Signal::Sell(2)));
}
