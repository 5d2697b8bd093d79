use trade_robot::futu::{
    format_symbol_from_security, format_trd_symbol, futu_order_type_of, futu_side_of,
    interval_sec_of_kl_type, is_push_proto, kl_request_types, order_side_from_futu,
    order_status_from_futu, order_type_from_futu, parse_futu_symbol, signed_position_qty,
    to_qot_security, to_trade_routing, truncate_remark, ConnectorError, Security,
    QOT_MARKET_CNSH_SECURITY, QOT_MARKET_CNSZ_SECURITY, QOT_MARKET_HK_SECURITY,
    QOT_MARKET_US_SECURITY, TRD_MARKET_CN, TRD_MARKET_HK, TRD_MARKET_US, TRD_SEC_MARKET_CN_SH,
    TRD_SEC_MARKET_CN_SZ, TRD_SEC_MARKET_HK, TRD_SEC_MARKET_US,
};
use trade_robot::types::{OrderSide, OrderStatus, OrderType};

fn protocol_message(e: ConnectorError) -> String {
    match e {
        ConnectorError::Protocol(m) => m,
        other => panic!("unexpected error {other:?}"),
    }
}

#[test]
fn parse_futu_symbol_markets() {
    assert_eq!(parse_futu_symbol("US.AAPL").unwrap(), (QOT_MARKET_US_SECURITY, "AAPL".to_string()));
    assert_eq!(parse_futu_symbol(" hk.00700 ").unwrap(), (QOT_MARKET_HK_SECURITY, "00700".to_string()));
    assert_eq!(parse_futu_symbol("SH.600519").unwrap(), (QOT_MARKET_CNSH_SECURITY, "600519".to_string()));
    assert_eq!(parse_futu_symbol("sz.000001").unwrap(), (QOT_MARKET_CNSZ_SECURITY, "000001".to_string()));
    assert_eq!(parse_futu_symbol("XX.1").unwrap(), (QOT_MARKET_US_SECURITY, "1".to_string()));
    assert_eq!(parse_futu_symbol("TSLA").unwrap(), (QOT_MARKET_US_SECURITY, "TSLA".to_string()));
    assert_eq!(protocol_message(parse_futu_symbol("  ").unwrap_err()), "symbol is empty");
    let sec = to_qot_security("HK.00700").unwrap();
    assert_eq!((sec.market, sec.code.as_str()), (QOT_MARKET_HK_SECURITY, "00700"));
}

#[test]
fn trade_routing_markets() {
    assert_eq!(to_trade_routing("US.AAPL").unwrap(), (TRD_MARKET_US, TRD_SEC_MARKET_US, "AAPL".to_string()));
    assert_eq!(to_trade_routing("hk.00700").unwrap(), (TRD_MARKET_HK, TRD_SEC_MARKET_HK, "00700".to_string()));
    assert_eq!(to_trade_routing("SH.600519").unwrap(), (TRD_MARKET_CN, TRD_SEC_MARKET_CN_SH, "600519".to_string()));
    assert_eq!(to_trade_routing("SZ.000001").unwrap(), (TRD_MARKET_CN, TRD_SEC_MARKET_CN_SZ, "000001".to_string()));
    assert_eq!(to_trade_routing(" MSFT ").unwrap(), (TRD_MARKET_US, TRD_SEC_MARKET_US, "MSFT".to_string()));
    assert_eq!(protocol_message(to_trade_routing("").unwrap_err()), "symbol is empty");
}

#[test]
fn symbol_formatting() {
    let sec = Security { market: QOT_MARKET_CNSZ_SECURITY, code: "000001".to_string() };
    assert_eq!(format_symbol_from_security(&sec), "SZ.000001");
    let odd = Security { market: 99, code: "X".to_string() };
    assert_eq!(format_symbol_from_security(&odd), "UNKNOWN.X");
    assert_eq!(format_trd_symbol(Some(TRD_MARKET_US), None, Some("AAPL")), "US.AAPL");
    assert_eq!(format_trd_symbol(Some(TRD_MARKET_CN), Some(TRD_SEC_MARKET_CN_SH), Some("600519")), "SH.600519");
    assert_eq!(format_trd_symbol(Some(TRD_MARKET_CN), None, Some("1")), "UNKNOWN.1");
    assert_eq!(format_trd_symbol(None, None, None), "UNKNOWN.");
}

#[test]
fn remark_is_ascii_and_short() {
    assert_eq!(truncate_remark("strategy:é:1"), "strategy::1");
    let long = "x".repeat(100);
    assert_eq!(truncate_remark(&long), "x".repeat(64));
    assert_eq!(truncate_remark(""), "");
}

#[test]
fn push_protocols() {
    for id in [2208u32, 2218, 3005, 3007] {
        assert!(is_push_proto(id));
    }
    for id in [1001u32, 2202, 3004, 0] {
        assert!(!is_push_proto(id));
    }
}

#[test]
fn order_code_mappings() {
    assert_eq!(order_status_from_futu(0), OrderStatus::PendingSubmit);
    assert_eq!(order_status_from_futu(2), OrderStatus::PendingSubmit);
    assert_eq!(order_status_from_futu(10), OrderStatus::Submitted);
    assert_eq!(order_status_from_futu(11), OrderStatus::Filled);
    assert_eq!(order_status_from_futu(15), OrderStatus::Cancelled);
    assert_eq!(order_status_from_futu(23), OrderStatus::Cancelled);
    assert_eq!(order_status_from_futu(-1), OrderStatus::Rejected);
    assert_eq!(order_status_from_futu(21), OrderStatus::Rejected);
    assert_eq!(order_status_from_futu(24), OrderStatus::Submitted);
    assert_eq!(order_type_from_futu(2), OrderType::Market);
    assert_eq!(order_type_from_futu(1), OrderType::Limit);
    assert_eq!(order_side_from_futu(4), OrderSide::Buy);
    assert_eq!(order_side_from_futu(3), OrderSide::Sell);
    assert_eq!(futu_side_of(OrderSide::Sell), 2);
    assert_eq!(futu_order_type_of(OrderType::Limit), 1);
    assert_eq!(signed_position_qty(12, 1), -12);
    assert_eq!(signed_position_qty(12, 0), 12);
}

#[test]
fn kline_types() {
    assert_eq!(interval_sec_of_kl_type(1), 60);
    assert_eq!(interval_sec_of_kl_type(6), 300);
    assert_eq!(interval_sec_of_kl_type(2), 0);
    assert_eq!(kl_request_types(60).unwrap(), (0, 1));
    assert_eq!(kl_request_types(300).unwrap(), (0, 6));
    assert_eq!(
        protocol_message(kl_request_types(15).unwrap_err()),
        "unsupported interval_sec for OpenD KL: 15"
    );
}
