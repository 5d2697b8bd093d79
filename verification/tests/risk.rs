use chrono::{DateTime, Utc};
use trade_robot::risk::{
    parse_hhmm_to_minutes, symbol_market_prefix, window_contains_utc, LimitPriceCheck,
    OrderTicket, OrderValidationCtx, RiskEngine, RiskLimits,
};
use trade_robot::control::EngineGate;
use trade_robot::time::Timestamp;
use trade_robot::types::{OrderSide, OrderType, ProfileMode, SessionWindowUtc, TimeControls};

fn ts(dt: DateTime<Utc>) -> Timestamp {
    Timestamp { secs: dt.timestamp(), nanos: dt.timestamp_subsec_nanos() }
}

fn at(s: &str) -> Timestamp {
    ts(DateTime::parse_from_rfc3339(s).unwrap().with_timezone(&Utc))
}

fn ticket(symbol: &str, side: OrderSide, qty: u32, order_type: OrderType) -> OrderTicket {
    OrderTicket { symbol: symbol.to_string(), side, qty, order_type }
}

fn ctx<'a>(
    now: Timestamp,
    mode: ProfileMode,
    time_controls: &'a TimeControls,
    req: &'a OrderTicket,
) -> OrderValidationCtx<'a> {
    OrderValidationCtx {
        now,
        mode,
        live_trading_unlocked: false,
        kill_switch_engaged: false,
        halted: false,
        time_controls,
        req,
        limit_price: LimitPriceCheck::InBand,
        position_qty: None,
    }
}

#[test]
fn rejects_live_orders_when_not_unlocked() {
    let limits = RiskLimits::default();
    let mut re = RiskEngine::new(limits);
    let req = ticket("US.AAPL", OrderSide::Buy, 1, OrderType::Market);
    let tc = TimeControls::default();
    let res = re.validate_order(ctx(ts(Utc::now()), ProfileMode::Live, &tc, &req));
    assert!(res.is_err());
    assert!(res.unwrap_err().reason.contains("live trading is locked"));
}

#[test]
fn enforces_allowed_markets() {
    let limits = RiskLimits { allowed_markets: vec!["HK".to_string()], ..RiskLimits::default() };
    let mut re = RiskEngine::new(limits);
    let req = ticket("US.AAPL", OrderSide::Buy, 1, OrderType::Market);
    let tc = TimeControls::default();
    let res = re.validate_order(ctx(ts(Utc::now()), ProfileMode::Paper, &tc, &req));
    assert!(res.is_err());
    assert!(res.unwrap_err().reason.contains("market US not allowed"));
}

#[test]
fn enforces_session_window_and_cooldown() {
    let limits = RiskLimits::default();
    let mut re = RiskEngine::new(limits);
    let req = ticket("US.AAPL", OrderSide::Buy, 1, OrderType::Market);
    let controls = TimeControls {
        enabled: true,
        sessions_utc: vec![SessionWindowUtc {
            weekdays: vec![1], // Monday
            start_hhmm: "09:30".to_string(),
            end_hhmm: "16:00".to_string(),
        }],
        blackout_utc: vec![],
        cooldown_sec: 30,
    };

    // Monday 10:00 UTC: inside session.
    let ok = re.validate_order(ctx(at("2026-02-16T10:00:00Z"), ProfileMode::Paper, &controls, &req));
    assert!(ok.is_ok());

    // Within cooldown => reject.
    let reject_cooldown =
        re.validate_order(ctx(at("2026-02-16T10:00:10Z"), ProfileMode::Paper, &controls, &req));
    assert!(reject_cooldown.is_err());
    assert!(reject_cooldown.unwrap_err().reason.contains("cooldown active"));

    // Outside session => reject.
    let reject_session =
        re.validate_order(ctx(at("2026-02-16T08:00:00Z"), ProfileMode::Paper, &controls, &req));
    assert!(reject_session.is_err());
    assert!(reject_session.unwrap_err().reason.contains("outside allowed trading sessions"));
}

#[test]
fn rejects_oversize_order_for_every_size() {
    for qty in [1u32, 5, 10, 11, 500, 9_999] {
        let limits = RiskLimits { max_order_qty: 10, ..RiskLimits::default() };
        let mut re = RiskEngine::new(limits);
        let req = ticket("AAPL", OrderSide::Buy, qty, OrderType::Market);
        let tc = TimeControls::default();
        let res = re.validate_order(ctx(ts(Utc::now()), ProfileMode::Paper, &tc, &req));
        if qty > 10 {
            assert_eq!(res.unwrap_err().reason, format!("order qty {qty} exceeds max_order_qty 10"));
        } else {
            assert!(res.is_ok());
        }
    }
}

#[test]
fn each_rejection_reason() {
    let tc = TimeControls::default();
    let now = at("2026-02-16T10:00:00Z");

    let req = ticket("US.AAPL", OrderSide::Buy, 1, OrderType::Market);
    let mut re = RiskEngine::new(RiskLimits::default());
    let mut c = ctx(now, ProfileMode::Paper, &tc, &req);
    c.kill_switch_engaged = true;
    assert_eq!(re.validate_order(c).unwrap_err().reason, "engine halted/kill-switch engaged");
    let mut c = ctx(now, ProfileMode::Paper, &tc, &req);
    c.halted = true;
    assert_eq!(re.validate_order(c).unwrap_err().reason, "engine halted/kill-switch engaged");

    let mut re = RiskEngine::new(RiskLimits {
        symbol_allowlist: vec!["us.msft".to_string()],
        ..RiskLimits::default()
    });
    assert_eq!(
        re.validate_order(ctx(now, ProfileMode::Paper, &tc, &req)).unwrap_err().reason,
        "symbol US.AAPL not in allowlist"
    );
    let mut re = RiskEngine::new(RiskLimits {
        symbol_allowlist: vec!["us.aapl".to_string()],
        allowed_markets: vec!["hk".to_string()],
        ..RiskLimits::default()
    });
    assert_eq!(
        re.validate_order(ctx(now, ProfileMode::Paper, &tc, &req)).unwrap_err().reason,
        "market US not allowed for symbol US.AAPL"
    );

    let mut re = RiskEngine::new(RiskLimits::default());
    let zero = ticket("US.AAPL", OrderSide::Buy, 0, OrderType::Market);
    assert_eq!(re.validate_order(ctx(now, ProfileMode::Paper, &tc, &zero)).unwrap_err().reason, "qty must be > 0");

    let sell = ticket("US.AAPL", OrderSide::Sell, 3, OrderType::Market);
    let mut c = ctx(now, ProfileMode::Paper, &tc, &sell);
    c.position_qty = Some(2);
    assert_eq!(
        re.validate_order(c).unwrap_err().reason,
        "short selling not allowed in MVP (would go negative)"
    );

    let buy = ticket("US.AAPL", OrderSide::Buy, 20, OrderType::Market);
    let mut c = ctx(now, ProfileMode::Paper, &tc, &buy);
    c.position_qty = Some(90);
    assert_eq!(
        re.validate_order(c).unwrap_err().reason,
        "position limit exceeded: new_qty=110 > max_position_qty=100"
    );

    let lim = ticket("US.AAPL", OrderSide::Buy, 1, OrderType::Limit);
    let checks = [
        (LimitPriceCheck::MissingPrice, "limit order requires limit_price"),
        (LimitPriceCheck::NonPositive, "limit_price must be > 0"),
        (LimitPriceCheck::NoQuote, "no market price available for price sanity check"),
    ];
    for (check, reason) in checks {
        let mut c = ctx(now, ProfileMode::Paper, &tc, &lim);
        c.limit_price = check;
        assert_eq!(re.validate_order(c).unwrap_err().reason, reason);
    }
    let mut c = ctx(now, ProfileMode::Paper, &tc, &lim);
    c.limit_price = LimitPriceCheck::OutOfBand { reason: "limit_price out of band: 5.0000 not in [9.0000, 11.0000]".to_string() };
    assert_eq!(
        re.validate_order(c).unwrap_err().reason,
        "limit_price out of band: 5.0000 not in [9.0000, 11.0000]"
    );
    // A market order ignores the limit-price check.
    let mut c = ctx(now, ProfileMode::Paper, &tc, &req);
    c.limit_price = LimitPriceCheck::MissingPrice;
    assert!(re.validate_order(c).is_ok());
}

#[test]
fn rate_limit_counts_a_sliding_minute() {
    let tc = TimeControls::default();
    let req = ticket("US.AAPL", OrderSide::Buy, 1, OrderType::Market);
    let mut re = RiskEngine::new(RiskLimits { max_orders_per_minute: 2, ..RiskLimits::default() });
    assert!(re.validate_order(ctx(at("2026-02-16T10:00:00Z"), ProfileMode::Paper, &tc, &req)).is_ok());
    assert!(re.validate_order(ctx(at("2026-02-16T10:00:30Z"), ProfileMode::Paper, &tc, &req)).is_ok());
    assert_eq!(
        re.validate_order(ctx(at("2026-02-16T10:01:00Z"), ProfileMode::Paper, &tc, &req)).unwrap_err().reason,
        "rate limit: max_orders_per_minute 2 exceeded"
    );
    // Exactly 60 s after the first order it still counts; just after, it expires.
    assert!(re
        .validate_order(ctx(at("2026-02-16T10:01:00.000000001Z"), ProfileMode::Paper, &tc, &req))
        .is_ok());
}

#[test]
fn blackout_and_cooldown_per_symbol() {
    let controls = TimeControls {
        enabled: true,
        sessions_utc: vec![],
        blackout_utc: vec![SessionWindowUtc {
            weekdays: vec![],
            start_hhmm: "23:00".to_string(),
            end_hhmm: "01:00".to_string(),
        }],
        cooldown_sec: 30,
    };
    let mut re = RiskEngine::new(RiskLimits::default());
    let a = ticket("US.AAPL", OrderSide::Buy, 1, OrderType::Market);
    let b = ticket("US.MSFT", OrderSide::Buy, 1, OrderType::Market);
    assert_eq!(
        re.validate_order(ctx(at("2026-02-16T00:30:00Z"), ProfileMode::Paper, &controls, &a)).unwrap_err().reason,
        "inside blackout window (UTC)"
    );
    assert!(re.validate_order(ctx(at("2026-02-16T10:00:00Z"), ProfileMode::Paper, &controls, &a)).is_ok());
    // Another symbol has its own cooldown.
    assert!(re.validate_order(ctx(at("2026-02-16T10:00:05Z"), ProfileMode::Paper, &controls, &b)).is_ok());
    assert_eq!(
        re.validate_order(ctx(at("2026-02-16T10:00:29Z"), ProfileMode::Paper, &controls, &a)).unwrap_err().reason,
        "cooldown active for US.AAPL (30s)"
    );
    assert!(re.validate_order(ctx(at("2026-02-16T10:00:30Z"), ProfileMode::Paper, &controls, &a)).is_ok());
}

#[test]
fn hhmm_parsing() {
    assert_eq!(parse_hhmm_to_minutes("09:30"), Some(570));
    assert_eq!(parse_hhmm_to_minutes(" 23:59 "), Some(1439));
    assert_eq!(parse_hhmm_to_minutes("+7:05"), Some(425));
    assert_eq!(parse_hhmm_to_minutes("24:00"), None);
    assert_eq!(parse_hhmm_to_minutes("12:60"), None);
    assert_eq!(parse_hhmm_to_minutes("12"), None);
    assert_eq!(parse_hhmm_to_minutes("12: 30"), None);
    assert_eq!(parse_hhmm_to_minutes("-1:30"), None);
    assert_eq!(parse_hhmm_to_minutes("99999999999:00"), None);
    assert_eq!(parse_hhmm_to_minutes(""), None);
}

#[test]
fn window_rules() {
    let w = |days: Vec<u8>, s: &str, e: &str| SessionWindowUtc {
        weekdays: days,
        start_hhmm: s.to_string(),
        end_hhmm: e.to_string(),
    };
    // 2026-02-16 is a Monday.
    let mon_10 = at("2026-02-16T10:00:00Z");
    assert!(window_contains_utc(&w(vec![1], "09:30", "16:00"), mon_10));
    assert!(!window_contains_utc(&w(vec![2, 3], "09:30", "16:00"), mon_10));
    assert!(!window_contains_utc(&w(vec![], "10:00", "10:00"), mon_10));
    assert!(!window_contains_utc(&w(vec![], "09:00", "10:00"), mon_10));
    assert!(window_contains_utc(&w(vec![], "22:00", "10:01"), mon_10));
    assert!(!window_contains_utc(&w(vec![], "bad", "10:01"), mon_10));
    // Before the epoch: 1969-12-31 was a Wednesday.
    let wed = at("1969-12-31T23:30:00Z");
    assert!(window_contains_utc(&w(vec![3], "23:00", "23:59"), wed));
    assert!(!window_contains_utc(&w(vec![4], "23:00", "23:59"), wed));
}

#[test]
fn market_prefix_of_symbols() {
    assert_eq!(symbol_market_prefix("hk.00700"), "HK");
    assert_eq!(symbol_market_prefix("  sh .1"), "SH");
    assert_eq!(symbol_market_prefix("AAPL"), "US");
    assert_eq!(symbol_market_prefix(".x"), "US");
    assert_eq!(symbol_market_prefix("   "), "US");
}

#[test]
fn updated_limits_apply_to_the_next_order() {
    let mut re = RiskEngine::new(RiskLimits::default());
    let tc = TimeControls::default();
    let req = ticket("US.AAPL", OrderSide::Buy, 30, OrderType::Market);
    let now = at("2026-02-16T10:00:00Z");
    assert!(re.validate_order(ctx(now, ProfileMode::Paper, &tc, &req)).is_err());
    re.update_limits(RiskLimits { max_order_qty: 50, ..RiskLimits::default() });
    assert_eq!(re.limits().max_order_qty, 50);
    assert!(re.validate_order(ctx(now, ProfileMode::Paper, &tc, &req)).is_ok());
}

#[test]
fn position_limit_compares_the_whole_position() {
    let tc = TimeControls::default();
    let now = at("2026-02-16T10:00:00Z");
    let mut re = RiskEngine::new(RiskLimits::default());
    let buy = ticket("US.AAPL", OrderSide::Buy, 1, OrderType::Market);
    let mut c = ctx(now, ProfileMode::Paper, &tc, &buy);
    c.position_qty = Some(4_294_967_296);
    assert_eq!(
        re.validate_order(c).unwrap_err().reason,
        "position limit exceeded: new_qty=4294967297 > max_position_qty=100"
    );
    // A position at the top of the range is refused, not overflowed.
    let mut c = ctx(now, ProfileMode::Paper, &tc, &buy);
    c.position_qty = Some(i64::MAX);
    assert_eq!(
        re.validate_order(c).unwrap_err().reason,
        "position limit exceeded: new_qty=9223372036854775808 > max_position_qty=100"
    );
    let sell = ticket("US.AAPL", OrderSide::Sell, 1, OrderType::Market);
    let mut c = ctx(now, ProfileMode::Paper, &tc, &sell);
    c.position_qty = Some(i64::MIN);
    assert_eq!(
        re.validate_order(c).unwrap_err().reason,
        "short selling not allowed in MVP (would go negative)"
    );
    let mut c = ctx(now, ProfileMode::Paper, &tc, &buy);
    c.position_qty = Some(99);
    assert!(re.validate_order(c).is_ok());
}

#[test]
fn kill_switch_refuses_orders_until_resume() {
    let tc = TimeControls::default();
    let req = ticket("US.AAPL", OrderSide::Buy, 1, OrderType::Market);
    let mut re = RiskEngine::new(RiskLimits::default());
    let mut g = EngineGate::start(false, at("2026-02-16T10:00:00Z"));
    g.engage_kill_switch("operator".to_string(), at("2026-02-16T10:00:01Z"));
    g.engage_kill_switch("again".to_string(), at("2026-02-16T10:00:02Z"));
    for secs in ["2026-02-16T10:00:03Z", "2026-02-16T11:00:00Z"] {
        let mut c = ctx(at(secs), ProfileMode::Paper, &tc, &req);
        c.kill_switch_engaged = g.kill_switch;
        c.halted = g.is_halted();
        assert_eq!(re.validate_order(c).unwrap_err().reason, "engine halted/kill-switch engaged");
    }
    assert!(g.resume().is_ok());
    let mut c = ctx(at("2026-02-16T11:00:01Z"), ProfileMode::Paper, &tc, &req);
    c.kill_switch_engaged = g.kill_switch;
    c.halted = g.is_halted();
    assert!(re.validate_order(c).is_ok());
}

#[test]
fn accepted_orders_never_exceed_the_limit_in_any_minute() {
    let tc = TimeControls::default();
    let req = ticket("US.AAPL", OrderSide::Buy, 1, OrderType::Market);
    let mut re = RiskEngine::new(RiskLimits { max_orders_per_minute: 3, ..RiskLimits::default() });
    let start = at("2026-02-16T10:00:00Z");
    let mut accepted: Vec<i64> = Vec::new();
    for k in 0..40i64 {
        let now = Timestamp { secs: start.secs + k * 7, nanos: 0 };
        // Every fifth order is refused before the rate limit and must not count.
        let mut c = ctx(now, ProfileMode::Paper, &tc, &req);
        if k % 5 == 4 {
            c.halted = true;
        }
        if re.validate_order(c).is_ok() {
            accepted.push(now.secs);
            let in_window = accepted.iter().filter(|t| now.secs - **t <= 60).count();
            assert!(in_window <= 3, "{in_window} orders within a minute at {}", now.secs);
        }
    }
    assert!(accepted.len() >= 10);
    // Every instant, not only those of accepted orders.
    for t in (start.secs - 10)..(start.secs + 40 * 7 + 70) {
        let n = accepted.iter().filter(|a| **a <= t && t - **a <= 60).count();
        assert!(n <= 3, "{n} orders within the minute up to {t}");
    }
}
