use trade_robot::metrics::{Metrics, MetricsSnapshot};
use trade_robot::models::{create_model, BuiltInModel, SmaModel, ZScoreModel};
use trade_robot::secrets::{service, username, validate_key};
use trade_robot::strategies::default_rhai_script;
use trade_robot::time::{floor_time, Timestamp};
use trade_robot::types::{OpenDConfig, OpenDTradeEnv, SessionWindowUtc, StrategyLifecycle, TimeControls};

#[test]
fn metrics_count_each_event() {
    let mut m = Metrics::default();
    m.inc_quote();
    m.inc_quote();
    m.inc_candle();
    m.inc_order_placed();
    m.inc_order_rejected();
    m.inc_fill();
    m.inc_fill();
    m.inc_fill();
    assert_eq!(
        m.snapshot(),
        MetricsSnapshot { quote_updates: 2, candles_built: 1, orders_placed: 1, orders_rejected: 1, fills: 3 }
    );
    // A snapshot changes nothing.
    assert_eq!(m.snapshot(), m.snapshot());
}

#[test]
fn metrics_count_events_in_any_order() {
    let mut m = Metrics::default();
    for i in 0..50u32 {
        match i % 5 {
            0 => m.inc_fill(),
            1 => m.inc_quote(),
            2 => m.inc_order_rejected(),
            3 => m.inc_candle(),
            _ => m.inc_order_placed(),
        }
        if i % 7 == 0 {
            m.inc_quote();
        }
    }
    assert_eq!(
        m.snapshot(),
        MetricsSnapshot { quote_updates: 18, candles_built: 10, orders_placed: 10, orders_rejected: 10, fills: 10 }
    );
}

#[test]
fn secret_keys_are_allowlisted() {
    assert!(validate_key("futu.trade_password").is_ok());
    assert!(validate_key("futu.api_token").is_ok());
    assert!(validate_key("opend.tls_client_key_passphrase").is_ok());
    for k in ["ai.openai_api_key", "ai.deepseek_api_key", "ai.qwen_api_key", "ai.grok_api_key", "ai.ollama_api_key"] {
        assert!(validate_key(k).is_ok(), "{k}");
    }
    assert_eq!(validate_key("ai.other_api_key").unwrap_err(), "secret key not allowed: ai.other_api_key");
    assert_eq!(validate_key("  ").unwrap_err(), "secret key is empty");
    assert_eq!(validate_key("aws.key").unwrap_err(), "secret key not allowed: aws.key");
    assert_eq!(validate_key(" futu.api_token").unwrap_err(), "secret key not allowed:  futu.api_token");
    assert_eq!(username("live", "futu.api_token"), "live:futu.api_token");
    assert_eq!(service(), "com.lihiko.traderobot");
}

#[test]
fn model_periods() {
    match create_model("sma").unwrap() {
        BuiltInModel::Sma(m) => assert_eq!(m.period(), 20),
        _ => panic!("expected sma"),
    }
    match create_model("zscore").unwrap() {
        BuiltInModel::ZScore(m) => assert_eq!(m.period(), 50),
        _ => panic!("expected zscore"),
    }
    assert_eq!(create_model("arima").unwrap_err(), "unknown model id: arima");
    let mut s = SmaModel::new();
    assert_eq!(s.set_params(0).unwrap_err(), "period out of range");
    assert!(s.set_params(500).is_ok());
    assert_eq!(s.period(), 500);
    assert!(s.set_params(501).is_err());
    assert_eq!(s.period(), 500);
    let mut z = ZScoreModel::new();
    assert!(z.set_params(1).is_err());
    assert!(z.set_params(2).is_ok());
    assert_eq!(z.period(), 2);
}

#[test]
fn rhai_starter_script_holds() {
    let s = default_rhai_script();
    assert!(s.contains("fn on_bar(close)"));
    assert!(s.contains("let action = \"hold\";"));
    assert!(s.starts_with('\n'));
}

#[test]
fn floor_time_buckets() {
    let t = Timestamp { secs: 125, nanos: 999 };
    assert_eq!(floor_time(t, 60), Timestamp { secs: 120, nanos: 0 });
    assert_eq!(floor_time(Timestamp { secs: 120, nanos: 0 }, 60), Timestamp { secs: 120, nanos: 0 });
    // Before the epoch the truncating remainder rounds toward zero.
    assert_eq!(floor_time(Timestamp { secs: -125, nanos: 0 }, 60), Timestamp { secs: -120, nanos: 0 });
}

#[test]
fn calendar_fields() {
    // 2026-02-16T10:07:00Z, a Monday.
    let t = Timestamp { secs: 1_771_236_420, nanos: 0 };
    assert_eq!(t.weekday(), 1);
    assert_eq!(t.hour(), 10);
    assert_eq!(t.minute(), 7);
    // The epoch was a Thursday.
    assert_eq!(Timestamp { secs: 0, nanos: 0 }.weekday(), 4);
    assert_eq!(Timestamp { secs: -1, nanos: 0 }.weekday(), 3);
    assert_eq!(Timestamp { secs: -1, nanos: 0 }.hour(), 23);
    assert_eq!(Timestamp { secs: -1, nanos: 0 }.minute(), 59);
}

#[test]
fn defaults() {
    assert_eq!(OpenDTradeEnv::default(), OpenDTradeEnv::Simulate);
    assert_eq!(StrategyLifecycle::default(), StrategyLifecycle::Draft);
    let w = SessionWindowUtc::default();
    assert!(w.weekdays.is_empty());
    assert_eq!((w.start_hhmm.as_str(), w.end_hhmm.as_str()), ("00:00", "23:59"));
    let tc = TimeControls::default();
    assert!(!tc.enabled && tc.sessions_utc.is_empty() && tc.blackout_utc.is_empty() && tc.cooldown_sec == 0);
    let c = OpenDConfig::default();
    assert_eq!((c.host.as_str(), c.port, c.use_tls), ("127.0.0.1", 11111, false));
}
