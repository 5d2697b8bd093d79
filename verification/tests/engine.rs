use trade_robot::engine::watchlist_from;
use trade_robot::engine::{
    check_strategy_allowed, escape_html, live_unlock_precheck, normalize_symbol, provider_route,
    risk_limits_non_default, sanitize_symbol, trd_market_from_symbol,
};
use trade_robot::futu::{TRD_MARKET_CN, TRD_MARKET_HK, TRD_MARKET_US};
use trade_robot::risk::RiskLimits;
use trade_robot::types::{OpenDTradeEnv, ProfileMode};

#[test]
fn normalize_symbol_adds_default_market_prefix() {
    assert_eq!(normalize_symbol("aapl"), "US.AAPL");
    assert_eq!(normalize_symbol(" US.tsla "), "US.TSLA");
    assert_eq!(normalize_symbol("hk.00700"), "HK.00700");
    assert_eq!(normalize_symbol(""), "");
}

#[test]
fn trd_market_mapping_is_expected() {
    assert_eq!(trd_market_from_symbol("US.AAPL"), TRD_MARKET_US);
    assert_eq!(trd_market_from_symbol("HK.00700"), TRD_MARKET_HK);
    assert_eq!(trd_market_from_symbol("SH.600519"), TRD_MARKET_CN);
    assert_eq!(trd_market_from_symbol("UNKNOWN"), TRD_MARKET_US);
}

#[test]
fn normalize_symbol_edge_cases() {
    assert_eq!(normalize_symbol("   "), "");
    assert_eq!(normalize_symbol(".aapl"), "US.AAPL");
    assert_eq!(normalize_symbol(" hk . 007 00 "), "HK.00700");
    assert_eq!(normalize_symbol("brk_b"), "US.BRK-B");
    assert_eq!(normalize_symbol("sz.000001.x"), "SZ.000001.X");
    // Unicode upper-casing: the German sharp s becomes "SS".
    assert_eq!(normalize_symbol("stra\u{df}e"), "US.STRASSE");
}

#[test]
fn trd_market_from_symbol_lowercase_and_blank_prefix() {
    assert_eq!(trd_market_from_symbol("sz.000001"), TRD_MARKET_CN);
    assert_eq!(trd_market_from_symbol(" hk.1 "), TRD_MARKET_HK);
    assert_eq!(trd_market_from_symbol(".00700"), TRD_MARKET_US);
    assert_eq!(trd_market_from_symbol(""), TRD_MARKET_US);
}

#[test]
fn sanitize_symbol_replaces_non_alphanumerics() {
    assert_eq!(sanitize_symbol("US.AAPL"), "US_AAPL");
    assert_eq!(sanitize_symbol("hk 00700/é"), "hk_00700__");
    assert_eq!(sanitize_symbol(""), "");
}

#[test]
fn escape_html_replaces_entities() {
    assert_eq!(
        escape_html("<a href=\"x\">Tom & Jerry's</a>"),
        "&lt;a href=&quot;x&quot;&gt;Tom &amp; Jerry&#39;s&lt;/a&gt;"
    );
    assert_eq!(escape_html("plain"), "plain");
    assert_eq!(escape_html("&amp;"), "&amp;amp;");
}

#[test]
fn live_unlock_precheck_requires_every_safeguard() {
    let phrase = "I UNDERSTAND LIVE TRADING RISK";
    assert!(live_unlock_precheck(phrase, ProfileMode::Live, true, "CmdOrCtrl+Alt+K", OpenDTradeEnv::Real).is_ok());
    // The phrase must match exactly: surrounding white space is a mismatch.
    assert_eq!(
        live_unlock_precheck("I UNDERSTAND LIVE TRADING RISK ", ProfileMode::Live, true, "K", OpenDTradeEnv::Real)
            .unwrap_err(),
        "confirmation phrase mismatch"
    );
    assert_eq!(
        live_unlock_precheck("i understand live trading risk", ProfileMode::Live, true, "K", OpenDTradeEnv::Real)
            .unwrap_err(),
        "confirmation phrase mismatch"
    );
    assert_eq!(
        live_unlock_precheck(phrase, ProfileMode::Paper, true, "K", OpenDTradeEnv::Real).unwrap_err(),
        "live trading can only be unlocked in the live profile"
    );
    assert_eq!(
        live_unlock_precheck(phrase, ProfileMode::Live, false, "K", OpenDTradeEnv::Real).unwrap_err(),
        "risk limits must be configured (non-default) before unlocking live trading"
    );
    assert_eq!(
        live_unlock_precheck(phrase, ProfileMode::Live, true, "  ", OpenDTradeEnv::Real).unwrap_err(),
        "kill switch hotkey must be configured before unlocking live trading"
    );
    assert_eq!(
        live_unlock_precheck(phrase, ProfileMode::Live, true, "K", OpenDTradeEnv::Simulate).unwrap_err(),
        "OpenD trading environment is still set to simulate; switch to real before unlocking live trading"
    );
}

#[test]
fn risk_limits_default_is_not_configured() {
    let d = RiskLimits::default();
    assert!(!risk_limits_non_default(&d, false));
    assert!(risk_limits_non_default(&d, true));
    let changed = RiskLimits { max_order_qty: 5, ..RiskLimits::default() };
    assert!(risk_limits_non_default(&changed, false));
    let allow = RiskLimits { symbol_allowlist: vec!["US.AAPL".to_string()], ..RiskLimits::default() };
    assert!(risk_limits_non_default(&allow, false));
    // The allowed-markets list does not count as a configured limit.
    let markets = RiskLimits { allowed_markets: vec!["US".to_string()], ..RiskLimits::default() };
    assert!(!risk_limits_non_default(&markets, false));
}

#[test]
fn custom_scripts_blocked_in_live_mode() {
    assert_eq!(
        check_strategy_allowed(ProfileMode::Live, "rhai_script").unwrap_err(),
        "custom scripts are disabled in live mode"
    );
    assert!(check_strategy_allowed(ProfileMode::Paper, "rhai_script").is_ok());
    assert!(check_strategy_allowed(ProfileMode::Live, "ma_crossover").is_ok());
}

#[test]
fn provider_route_primary_then_distinct_fallbacks() {
    let fallbacks = vec![
        "openai".to_string(),
        " ".to_string(),
        "ollama".to_string(),
        "openai".to_string(),
        "local".to_string(),
    ];
    assert_eq!(provider_route(" local ", &fallbacks), vec!["local", "openai", "ollama"]);
    assert_eq!(provider_route("", &fallbacks), vec!["openai", "ollama", "local"]);
    assert!(provider_route("  ", &vec![]).is_empty());
}

#[test]
fn watchlist_is_sorted_canonical_and_unique() {
    let input: Vec<String> = vec!["aapl", " US.AAPL ", "", "hk.00700", "  ", "us.msft"]
        .into_iter()
        .map(|s| s.to_string())
        .collect();
    assert_eq!(
        watchlist_from(&input),
        vec!["HK.00700".to_string(), "US.AAPL".to_string(), "US.MSFT".to_string()]
    );
    assert!(watchlist_from(&vec![]).is_empty());
}

#[test]
fn quote_staleness_breaker() {
    use_quote_stale();
}

fn use_quote_stale() {
    let now = trade_robot::time::Timestamp { secs: 1_000, nanos: 0 };
    let fresh = trade_robot::time::Timestamp { secs: 970, nanos: 0 };
    let old = trade_robot::time::Timestamp { secs: 969, nanos: 500_000_000 };
    assert_eq!(trade_robot::engine::quote_stale_reason(now, None), None);
    assert_eq!(trade_robot::engine::quote_stale_reason(now, Some(fresh)), None);
    assert_eq!(
        trade_robot::engine::quote_stale_reason(now, Some(old)),
        Some("quote feed stale (last update 30s ago)".to_string())
    );
    let older = trade_robot::time::Timestamp { secs: 900, nanos: 0 };
    assert_eq!(
        trade_robot::engine::quote_stale_reason(now, Some(older)),
        Some("quote feed stale (last update 100s ago)".to_string())
    );
}

#[test]
fn trade_unlock_credential_is_md5_hex() {
    assert_eq!(trade_robot::engine::trade_password_md5_hex("abc"), "900150983cd24fb0d6963f7d28e17f72");
    assert_eq!(trade_robot::engine::trade_password_md5_hex(""), "d41d8cd98f00b204e9800998ecf8427e");
}
