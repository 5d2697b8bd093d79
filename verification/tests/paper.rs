use trade_robot::paper::{OrderRequest, PaperExecution, PaperExecutionConfig};
use trade_robot::time::Timestamp;
use trade_robot::types::{OrderSide, OrderStatus, OrderType};

fn cfg() -> PaperExecutionConfig<f64> {
    PaperExecutionConfig { slippage_bps: 1.0, fee_per_trade: 0.10, fill_latency_ms: 50 }
}

fn ts(secs: i64) -> Timestamp {
    Timestamp { secs, nanos: 0 }
}

fn req(symbol: &str, side: OrderSide, qty: u32, order_type: OrderType, limit: Option<f64>, cid: &str) -> OrderRequest<f64> {
    OrderRequest {
        symbol: symbol.to_string(),
        side,
        qty,
        order_type,
        limit_price: limit,
        client_order_id: cid.to_string(),
    }
}

#[test]
fn paper_market_order_fills_at_once() {
    let mut ex = PaperExecution::new(cfg());
    let (o, fill) = ex.place_order(ts(100), req("US.AAPL", OrderSide::Buy, 10, OrderType::Market, None, "c1"), Some(101.5));
    assert_eq!(o.status, OrderStatus::Filled);
    assert_eq!(o.filled_qty, 10);
    assert_eq!(o.avg_fill_price, Some(101.5));
    assert_eq!(o.client_order_id, "c1");
    let f = fill.expect("a marketable order fills");
    assert_eq!(f.order_id, o.id);
    assert_eq!(f.qty, 10);
    assert_eq!(f.price, 101.5);
    assert_eq!(f.fee, 0.10);
    assert_eq!(f.ts, ts(100));
    let stored = ex.get_order(&o.id).expect("stored");
    assert_eq!(stored.status, OrderStatus::Filled);
    assert_eq!(ex.orders().len(), 1);
}

#[test]
fn paper_repeated_client_order_id_gives_the_same_order() {
    let mut ex = PaperExecution::new(cfg());
    let (o1, f1) = ex.place_order(ts(100), req("US.AAPL", OrderSide::Buy, 10, OrderType::Market, None, "dup"), Some(100.0));
    assert!(f1.is_some());
    let (o2, f2) = ex.place_order(ts(200), req("US.MSFT", OrderSide::Sell, 5, OrderType::Market, None, "dup"), Some(50.0));
    assert!(f2.is_none());
    assert_eq!(o2.id, o1.id);
    assert_eq!(o2.symbol, "US.AAPL");
    assert_eq!(o2.qty, 10);
    assert_eq!(ex.orders().len(), 1);
}

#[test]
fn paper_limit_order_rests_until_a_quote_makes_it_marketable() {
    let mut ex = PaperExecution::new(cfg());
    let (o, fill) = ex.place_order(ts(100), req("US.AAPL", OrderSide::Buy, 3, OrderType::Limit, Some(99.0), "l1"), None);
    assert!(fill.is_none());
    assert_eq!(o.status, OrderStatus::Submitted);
    assert_eq!(o.filled_qty, 0);

    // A quote for another symbol leaves it alone.
    let none = ex.on_quote(ts(101), "US.MSFT", |_side: OrderSide, _limit: f64| Some(1.0));
    assert!(none.is_empty());

    // The ask is above the limit: not marketable.
    let ask = 100.0;
    let decide = move |side: OrderSide, limit: f64| {
        let fillable = match side {
            OrderSide::Buy => limit >= ask,
            OrderSide::Sell => false,
        };
        if fillable { Some(ask) } else { None }
    };
    assert!(ex.on_quote(ts(102), "US.AAPL", decide).is_empty());
    assert_eq!(ex.get_order(&o.id).unwrap().status, OrderStatus::Submitted);

    // The ask drops to the limit: it fills.
    let ask2 = 99.0;
    let filled = ex.on_quote(ts(103), "US.AAPL", move |side: OrderSide, limit: f64| {
        assert_eq!(side, OrderSide::Buy);
        assert_eq!(limit, 99.0);
        if limit >= ask2 { Some(ask2) } else { None }
    });
    assert_eq!(filled.len(), 1);
    let (fo, ff) = &filled[0];
    assert_eq!(fo.id, o.id);
    assert_eq!(fo.status, OrderStatus::Filled);
    assert_eq!(fo.filled_qty, 3);
    assert_eq!(fo.updated_at, ts(103));
    assert_eq!(ff.price, 99.0);
    assert_eq!(ff.qty, 3);

    // It no longer rests.
    assert!(ex.on_quote(ts(104), "US.AAPL", |_s: OrderSide, _l: f64| Some(1.0)).is_empty());
}

#[test]
fn paper_cancel_order_cases() {
    let mut ex = PaperExecution::new(cfg());
    let (rest, _) = ex.place_order(ts(100), req("US.AAPL", OrderSide::Sell, 2, OrderType::Limit, Some(120.0), "r"), None);
    let (done, _) = ex.place_order(ts(100), req("US.AAPL", OrderSide::Buy, 1, OrderType::Market, None, "m"), Some(100.0));

    let c = ex.cancel_order(ts(110), &rest.id).expect("known order");
    assert_eq!(c.status, OrderStatus::Cancelled);
    assert_eq!(c.updated_at, ts(110));

    // A second cancel gives the same order back.
    let c2 = ex.cancel_order(ts(120), &rest.id).expect("known order");
    assert_eq!(c2.status, OrderStatus::Cancelled);
    assert_eq!(c2.updated_at, ts(110));

    // A filled order is not cancelled.
    let d = ex.cancel_order(ts(130), &done.id).expect("known order");
    assert_eq!(d.status, OrderStatus::Filled);
    assert_eq!(d.updated_at, ts(100));

    assert!(ex.cancel_order(ts(140), "no-such-order").is_none());

    // The cancelled order no longer rests.
    assert!(ex.on_quote(ts(150), "US.AAPL", |_s: OrderSide, _l: f64| Some(1.0)).is_empty());
}

#[test]
fn paper_cancel_all_open_cancels_resting_orders_in_id_order() {
    let mut ex = PaperExecution::new(cfg());
    ex.place_order_with_id(ts(1), req("US.AAPL", OrderSide::Buy, 1, OrderType::Limit, Some(1.0), "x"), "b-order".to_string(), None);
    ex.place_order_with_id(ts(2), req("US.AAPL", OrderSide::Buy, 1, OrderType::Limit, Some(1.0), "y"), "a-order".to_string(), None);
    ex.place_order_with_id(ts(3), req("US.AAPL", OrderSide::Buy, 1, OrderType::Market, None, "z"), "c-order".to_string(), Some(2.0));

    let ids: Vec<String> = ex.orders().iter().map(|o| o.id.clone()).collect();
    assert_eq!(ids, vec!["a-order".to_string(), "b-order".to_string(), "c-order".to_string()]);

    let out = ex.cancel_all_open(ts(9));
    assert_eq!(out.len(), 2);
    assert_eq!(out[0].id, "a-order");
    assert_eq!(out[1].id, "b-order");
    assert!(out.iter().all(|o| o.status == OrderStatus::Cancelled));
    assert_eq!(ex.get_order("c-order").unwrap().status, OrderStatus::Filled);
    // Nothing in the book can still fill.
    assert!(ex
        .orders()
        .iter()
        .all(|o| o.status != OrderStatus::Submitted && o.status != OrderStatus::PendingSubmit));
    assert!(ex.cancel_all_open(ts(10)).is_empty());
}

#[test]
fn paper_client_id_stays_bound_across_other_operations() {
    let mut ex = PaperExecution::new(cfg());
    let (first, _) = ex.place_order(ts(1), req("US.AAPL", OrderSide::Buy, 4, OrderType::Limit, Some(90.0), "keep"), None);
    // Other places, a cancel and quotes in between.
    let (other, _) = ex.place_order(ts(2), req("US.MSFT", OrderSide::Buy, 1, OrderType::Limit, Some(10.0), "other"), None);
    ex.cancel_order(ts(3), &other.id);
    ex.place_order(ts(4), req("US.TSLA", OrderSide::Buy, 1, OrderType::Market, None, "m"), Some(200.0));
    let filled = ex.on_quote(ts(5), "US.AAPL", |_s: OrderSide, _l: f64| Some(89.0));
    assert_eq!(filled.len(), 1);
    let before = ex.orders().len();
    let (again, fill) = ex.place_order(ts(6), req("US.NVDA", OrderSide::Sell, 9, OrderType::Market, None, "keep"), Some(1.0));
    assert!(fill.is_none());
    assert_eq!(again.id, first.id);
    // The order as it now stands: filled by the quote.
    assert_eq!(again.status, OrderStatus::Filled);
    assert_eq!(again.updated_at, ts(5));
    assert_eq!(ex.orders().len(), before);
}

#[test]
fn paper_cancel_all_gives_back_each_resting_order_cancelled() {
    let mut ex = PaperExecution::new(cfg());
    let (a, _) = ex.place_order(ts(1), req("US.AAPL", OrderSide::Buy, 1, OrderType::Limit, Some(1.0), "a"), None);
    let (b, _) = ex.place_order(ts(2), req("US.MSFT", OrderSide::Sell, 2, OrderType::Limit, Some(500.0), "b"), None);
    let (m, _) = ex.place_order(ts(3), req("US.TSLA", OrderSide::Buy, 1, OrderType::Market, None, "m"), Some(3.0));
    let out = ex.cancel_all_open(ts(50));
    assert_eq!(out.len(), 2);
    let mut ids: Vec<String> = vec![a.id.clone(), b.id.clone()];
    ids.sort();
    for (o, id) in out.iter().zip(ids.iter()) {
        assert_eq!(&o.id, id);
        assert_eq!(o.status, OrderStatus::Cancelled);
        assert_eq!(o.updated_at, ts(50));
        assert_eq!(ex.get_order(id).unwrap().status, OrderStatus::Cancelled);
    }
    let kept = ex.get_order(&m.id).unwrap();
    assert_eq!(kept.status, OrderStatus::Filled);
    assert_eq!(kept.updated_at, ts(3));
    assert!(ex.on_quote(ts(60), "US.AAPL", |_s: OrderSide, _l: f64| Some(0.5)).is_empty());
}
