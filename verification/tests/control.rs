use trade_robot::control::{
    check_live_cancel, check_model_request, check_strategy_def_request, check_strategy_def_runnable,
    live_order_from_ref, plan_live_order, qty_after_fill, strategy_symbol, working_order_indices,
    EngineGate, EngineStatus, LiveOrderPlan,
};
use trade_robot::futu::OpenDOrderRef;
use trade_robot::paper::{Order, OrderRequest};
use trade_robot::time::Timestamp;
use trade_robot::types::{OrderSide, OrderStatus, OrderType, ProfileMode, StrategyLifecycle};

fn ts(secs: i64) -> Timestamp {
    Timestamp { secs, nanos: 0 }
}

#[test]
fn gate_starts_running_or_halted_in_safe_mode() {
    let g = EngineGate::start(false, ts(5));
    assert!(g.candles_flow());
    assert!(!g.is_halted());
    let s = EngineGate::start(true, ts(5));
    assert!(!s.candles_flow());
    assert!(s.is_halted());
    match &s.status {
        EngineStatus::Halted { reason, at } => {
            assert_eq!(reason, "Safe mode: previous crash detected");
            assert_eq!(*at, ts(5));
        }
        EngineStatus::Running => panic!("safe mode starts halted"),
    }
}

#[test]
fn kill_switch_halts_and_resume_restarts() {
    let mut g = EngineGate::start(false, ts(0));
    g.engage_kill_switch("manual".to_string(), ts(7));
    assert!(g.kill_switch);
    assert!(!g.candles_flow());
    match &g.status {
        EngineStatus::Halted { reason, at } => {
            assert_eq!(reason, "manual");
            assert_eq!(*at, ts(7));
        }
        EngineStatus::Running => panic!("halted"),
    }
    assert!(g.resume().is_ok());
    assert!(!g.kill_switch);
    assert!(g.candles_flow());
}

#[test]
fn safe_mode_refuses_resume() {
    let mut g = EngineGate::start(true, ts(0));
    let e = g.resume().unwrap_err();
    assert_eq!(e, "safe mode is active (restart after clearing crash marker)");
    assert!(!g.candles_flow());
    g.engage_kill_switch("again".to_string(), ts(1));
    assert!(g.resume().is_err());
    assert!(g.is_halted());
}

#[test]
fn live_order_plans() {
    assert!(matches!(plan_live_order("US.AAPL", true, false, false, false), LiveOrderPlan::ReturnExisting));
    match plan_live_order("US.AAPL", false, false, true, true) {
        LiveOrderPlan::RefuseDisconnected { kill_reason, error } => {
            assert_eq!(kill_reason, "OpenD is not connected (refusing live order)");
            assert_eq!(error, "OpenD is not connected");
        }
        other => panic!("unexpected {other:?}"),
    }
    match plan_live_order("HK.00700", false, true, false, true) {
        LiveOrderPlan::Refuse { error } => {
            assert_eq!(error, "no trade account header available for symbol HK.00700")
        }
        other => panic!("unexpected {other:?}"),
    }
    assert!(matches!(
        plan_live_order("US.AAPL", false, true, true, false),
        LiveOrderPlan::Submit { unlock_first: true }
    ));
    assert!(matches!(
        plan_live_order("US.AAPL", false, true, true, true),
        LiveOrderPlan::Submit { unlock_first: false }
    ));
}

#[test]
fn live_cancel_checks() {
    assert_eq!(check_live_cancel("X1", false, true, true).unwrap_err(), "OpenD is not connected");
    assert_eq!(check_live_cancel("X1", true, false, true).unwrap_err(), "unknown order_id: X1");
    assert_eq!(
        check_live_cancel("X1", true, true, false).unwrap_err(),
        "no trade header available for order X1"
    );
    assert!(check_live_cancel("X1", true, true, true).is_ok());
}

#[test]
fn live_order_takes_the_id_opend_gave() {
    let req = OrderRequest {
        symbol: "US.AAPL".to_string(),
        side: OrderSide::Sell,
        qty: 4,
        order_type: OrderType::Limit,
        limit_price: Some(190.5f64),
        client_order_id: "cid-9".to_string(),
    };
    let o: Order<f64> = live_order_from_ref(ts(42), req, OpenDOrderRef { order_id: 123456, order_id_ex: None });
    assert_eq!(o.id, "123456");
    assert_eq!(o.status, OrderStatus::Submitted);
    assert_eq!(o.filled_qty, 0);
    assert_eq!(o.limit_price, Some(190.5));
    assert_eq!(o.client_order_id, "cid-9");
    assert_eq!(o.created_at, ts(42));

    let req2 = OrderRequest {
        symbol: "US.AAPL".to_string(),
        side: OrderSide::Buy,
        qty: 1,
        order_type: OrderType::Market,
        limit_price: None::<f64>,
        client_order_id: "c".to_string(),
    };
    let o2 = live_order_from_ref(ts(1), req2, OpenDOrderRef { order_id: 7, order_id_ex: Some("FT-7".to_string()) });
    assert_eq!(o2.id, "FT-7");
}

#[test]
fn working_orders_are_pending_or_submitted() {
    let mk = |id: &str, status: OrderStatus| Order::<f64> {
        id: id.to_string(),
        symbol: "US.AAPL".to_string(),
        side: OrderSide::Buy,
        qty: 1,
        order_type: OrderType::Limit,
        limit_price: Some(1.0),
        status,
        filled_qty: 0,
        avg_fill_price: None,
        created_at: ts(0),
        updated_at: ts(0),
        client_order_id: String::new(),
        last_error: None,
    };
    let orders = vec![
        mk("a", OrderStatus::Filled),
        mk("b", OrderStatus::Submitted),
        mk("c", OrderStatus::Cancelled),
        mk("d", OrderStatus::PendingSubmit),
        mk("e", OrderStatus::Rejected),
    ];
    assert_eq!(working_order_indices(&orders), vec![1, 3]);
}

#[test]
fn fills_move_position_quantity() {
    assert_eq!(qty_after_fill(5, OrderSide::Buy, 10), (15, 10));
    assert_eq!(qty_after_fill(5, OrderSide::Sell, 3), (2, 3));
    // Selling more than held stops at flat.
    assert_eq!(qty_after_fill(5, OrderSide::Sell, 10), (0, 5));
    // Nothing to sell when flat or short.
    assert_eq!(qty_after_fill(0, OrderSide::Sell, 4), (0, 0));
    assert_eq!(qty_after_fill(-3, OrderSide::Sell, 4), (-3, 0));
}

#[test]
fn strategy_start_checks() {
    assert_eq!(strategy_symbol(Some(" US.AAPL")).unwrap(), " US.AAPL");
    assert_eq!(strategy_symbol(Some("  ")).unwrap_err(), "strategy params must include symbol");
    assert_eq!(strategy_symbol(None).unwrap_err(), "strategy params must include symbol");

    assert_eq!(
        check_strategy_def_runnable(StrategyLifecycle::Draft, ProfileMode::Live).unwrap_err(),
        "strategy is in draft lifecycle; set lifecycle to paper/live to run"
    );
    assert_eq!(
        check_strategy_def_runnable(StrategyLifecycle::Live, ProfileMode::Paper).unwrap_err(),
        "strategy lifecycle is live, but active profile is not live"
    );
    assert!(check_strategy_def_runnable(StrategyLifecycle::Live, ProfileMode::Live).is_ok());
    assert!(check_strategy_def_runnable(StrategyLifecycle::Paper, ProfileMode::Paper).is_ok());

    assert_eq!(check_strategy_def_request(" ", "ma_crossover").unwrap_err(), "name is empty");
    assert_eq!(check_strategy_def_request("mine", "").unwrap_err(), "strategy_id is empty");
    assert!(check_strategy_def_request("mine", "ma_crossover").is_ok());

    assert_eq!(check_model_request("", "sma", "1").unwrap_err(), "name is empty");
    assert_eq!(check_model_request("m", " ", "1").unwrap_err(), "base_id is empty");
    assert_eq!(check_model_request("m", "sma", "\t").unwrap_err(), "version is empty");
    assert!(check_model_request("m", "sma", "1").is_ok());
}

use trade_robot::control::{trade_routing, trd_env_code};
use trade_robot::futu::{OpenDTradeAccount, TRD_ENV_REAL, TRD_ENV_SIMULATE, TRD_MARKET_CN, TRD_MARKET_HK, TRD_MARKET_US};
use trade_robot::types::OpenDTradeEnv;

fn acc(env: i32, id: u64, markets: Vec<i32>) -> OpenDTradeAccount {
    OpenDTradeAccount { trd_env: env, acc_id: id, trd_market_auth_list: markets }
}

#[test]
fn trade_routing_first_account_per_market() {
    assert_eq!(trd_env_code(OpenDTradeEnv::Simulate), TRD_ENV_SIMULATE);
    assert_eq!(trd_env_code(OpenDTradeEnv::Real), TRD_ENV_REAL);
    let accounts = vec![
        acc(TRD_ENV_SIMULATE, 7, vec![TRD_MARKET_US]),
        acc(TRD_ENV_REAL, 30, vec![TRD_MARKET_US, TRD_MARKET_HK]),
        acc(TRD_ENV_REAL, 20, vec![TRD_MARKET_HK, TRD_MARKET_CN]),
        acc(TRD_ENV_REAL, 30, vec![]),
    ];
    let r = trade_routing(&accounts, TRD_ENV_REAL).unwrap();
    let hs: Vec<(i32, u64, i32)> = r.headers.iter().map(|h| (h.trd_market, h.acc_id, h.trd_env)).collect();
    assert_eq!(
        hs,
        vec![
            (TRD_MARKET_HK, 30, TRD_ENV_REAL),
            (TRD_MARKET_US, 30, TRD_ENV_REAL),
            (TRD_MARKET_CN, 20, TRD_ENV_REAL),
        ]
    );
    assert_eq!(r.acc_ids, vec![20, 30]);

    let sim = trade_routing(&accounts, TRD_ENV_SIMULATE).unwrap();
    assert_eq!(sim.headers.len(), 1);
    assert_eq!(sim.acc_ids, vec![7]);

    let none = trade_routing(&vec![acc(TRD_ENV_REAL, 1, vec![])], TRD_ENV_REAL);
    assert_eq!(none.unwrap_err(), "no trade accounts found for selected OpenD trading environment");
}
