use trade_robot::audit::{audit_list_query, jsonl, next_export_offset, SqlParam};
use trade_robot::engine::{builtin_model_checksum, onnx_artifact_file_name, sha256_hex};
use trade_robot::futu::{order_id_text, parse_opend_dt, routing_for_header, ConnectorError, TRD_MARKET_HK, TRD_MARKET_US};
use trade_robot::strategies::{check_ma_periods, create_strategy, StrategyKind};
use trade_robot::time::Timestamp;

fn params_text(ps: &[SqlParam]) -> Vec<String> {
    ps.iter()
        .map(|p| match p {
            SqlParam::Text(t) => format!("T:{t}"),
            SqlParam::Int(i) => format!("I:{i}"),
        })
        .collect()
}

#[test]
fn audit_list_queries() {
    let q = audit_list_query(50, 10, None, None);
    assert_eq!(
        q.sql,
        "SELECT id, ts, event_type, payload_json, trace_id, prev_hash, hash FROM audit_events ORDER BY id DESC LIMIT ? OFFSET ?"
    );
    assert_eq!(params_text(&q.params), vec!["I:50", "I:10"]);

    let q = audit_list_query(9999, 0, Some("kill_switch".to_string()), Some("t1".to_string()));
    assert!(q.sql.ends_with(" WHERE event_type = ? AND trace_id = ? ORDER BY id DESC LIMIT ? OFFSET ?"));
    assert_eq!(params_text(&q.params), vec!["T:kill_switch", "T:t1", "I:500", "I:0"]);

    let q = audit_list_query(1, 2, None, Some("t2".to_string()));
    assert!(q.sql.ends_with(" WHERE trace_id = ? ORDER BY id DESC LIMIT ? OFFSET ?"));
    assert_eq!(params_text(&q.params), vec!["T:t2", "I:1", "I:2"]);
}

#[test]
fn export_paging_and_lines() {
    assert_eq!(next_export_offset(0, 500), Some(500));
    assert_eq!(next_export_offset(500, 499), None);
    assert_eq!(next_export_offset(0, 0), None);
    assert_eq!(next_export_offset(u32::MAX - 10, 500), Some(u32::MAX));
    assert_eq!(jsonl(&vec!["{\"a\":1}".to_string(), "{}".to_string()]), "{\"a\":1}\n{}\n");
    assert_eq!(jsonl(&vec![]), "");
}

#[test]
fn sha256_and_model_checksums() {
    assert_eq!(sha256_hex(b"abc"), "ba7816bf8f01cfea414140de5dae2223b00361a396177a9cb410ff61f20015ad");
    assert_eq!(builtin_model_checksum("sma", "1", "{}"), sha256_hex(b"builtin|sma|1|{}"));
    assert_eq!(
        onnx_artifact_file_name("6f1c-22-ab"),
        "model_6f1c22ab.onnx"
    );
}

#[test]
fn opend_ids_and_routing() {
    assert_eq!(order_id_text(Some("FT1".to_string()), 9), "FT1");
    assert_eq!(order_id_text(None, 0), "0");
    assert_eq!(order_id_text(None, 18446744073709551615), "18446744073709551615");

    let (tm, _sm, code) = routing_for_header(TRD_MARKET_US, "US.AAPL").unwrap();
    assert_eq!(tm, TRD_MARKET_US);
    assert_eq!(code, "AAPL");
    match routing_for_header(TRD_MARKET_HK, "US.AAPL") {
        Err(ConnectorError::Protocol(m)) => assert_eq!(
            m,
            format!("trade header market mismatch: header.trd_market={} symbol_market={}", TRD_MARKET_HK, TRD_MARKET_US)
        ),
        other => panic!("unexpected {other:?}"),
    }
    match routing_for_header(-1, " ") {
        Err(ConnectorError::Protocol(m)) => assert_eq!(m, "symbol is empty"),
        other => panic!("unexpected {other:?}"),
    }
}

#[test]
fn opend_times() {
    assert_eq!(parse_opend_dt("2026-01-02 03:04:05"), Some(Timestamp { secs: 1767323045, nanos: 0 }));
    assert_eq!(
        parse_opend_dt(" 2026-01-02 03:04:05.250 "),
        Some(Timestamp { secs: 1767323045, nanos: 250_000_000 })
    );
    assert_eq!(
        parse_opend_dt("2026-01-02T03:04:05+08:00"),
        Some(Timestamp { secs: 1767323045 - 8 * 3600, nanos: 0 })
    );
    assert_eq!(parse_opend_dt("   "), None);
    assert_eq!(parse_opend_dt("yesterday"), None);
}

#[test]
fn strategy_ids_and_periods() {
    assert_eq!(create_strategy("ma_crossover").unwrap(), StrategyKind::MaCrossover);
    assert_eq!(create_strategy("mean_reversion").unwrap(), StrategyKind::MeanReversion);
    assert_eq!(create_strategy("short_term_momentum_bot").unwrap(), StrategyKind::ShortTermMomentumBot);
    assert_eq!(create_strategy("rhai_script").unwrap(), StrategyKind::RhaiScript);
    assert_eq!(create_strategy("nope").unwrap_err(), "unknown strategy id: nope");
    assert!(check_ma_periods(10, 30).is_ok());
    assert_eq!(check_ma_periods(30, 30).unwrap_err(), "fast_period must be < slow_period");
}

use trade_robot::engine::confusion_of;
use trade_robot::strategies::{MomentumBar, MomentumSettings, MomentumStep, MomentumTracker};

#[test]
fn confusion_matrix_counts() {
    let c = confusion_of(&vec![(true, true), (true, false), (false, false), (false, true), (true, true)]);
    assert_eq!((c.tp, c.fp, c.tn, c.fn_), (2, 1, 1, 1));
    assert_eq!(c.tp + c.fp + c.tn + c.fn_, 5);
    let e = confusion_of(&vec![]);
    assert_eq!((e.tp, e.fp, e.tn, e.fn_), (0, 0, 0, 0));
}

fn bar(pos_qty: i64, price_exit: bool, closes_len: usize) -> MomentumBar {
    MomentumBar { pos_qty, interval_sec: 60, price_exit, closes_len }
}

#[test]
fn momentum_bookkeeping_enter_hold_exit_cooldown() {
    let cfg = MomentumSettings { lookback: 3, horizon_sec: 180, cooldown_bars: 3 };
    let mut t = MomentumTracker::new();
    // Not enough history yet.
    assert_eq!(t.on_bar(cfg, bar(0, false, 3)), MomentumStep::Hold);
    // Enough history, flat, no cooldown: the entry condition is checked.
    assert_eq!(t.on_bar(cfg, bar(0, false, 4)), MomentumStep::CheckEntry);
    t.entered();
    // Holding: two bars within the horizon.
    assert_eq!(t.on_bar(cfg, bar(5, false, 5)), MomentumStep::Hold);
    assert_eq!(t.on_bar(cfg, bar(5, false, 6)), MomentumStep::Hold);
    assert_eq!(t.bars_in_position, 2);
    // Third bar reaches 180 s: exit the whole position and start the cooldown.
    assert_eq!(t.on_bar(cfg, bar(5, false, 7)), MomentumStep::Exit { qty: 5 });
    assert_eq!(t.cooldown_left, 3);
    // Cooldown: two flat bars hold, then entries are considered again.
    assert_eq!(t.on_bar(cfg, bar(0, false, 8)), MomentumStep::Hold);
    assert_eq!(t.on_bar(cfg, bar(0, false, 9)), MomentumStep::Hold);
    assert_eq!(t.on_bar(cfg, bar(0, false, 10)), MomentumStep::CheckEntry);
    // A price exit closes at once.
    let mut u = MomentumTracker::new();
    assert_eq!(u.on_bar(cfg, bar(2, true, 10)), MomentumStep::Exit { qty: 2 });
    // A position too large for one order exits with the largest order size.
    let mut w = MomentumTracker::new();
    assert_eq!(w.on_bar(cfg, bar(1 << 32, true, 10)), MomentumStep::Exit { qty: u32::MAX });
}
