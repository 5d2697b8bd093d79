use trade_robot::ai::{next_failover_step, FailoverStep};
use trade_robot::ai::{normalize_ai_router, normalize_provider_id, primary_after_provider_update, provider_id_to_test};
use trade_robot::control::check_kill_switch_hotkey;
use trade_robot::ai::{
    ai_action_from_text, ai_gate_allows, ai_gate_needed, clean_safeguards, json_object_slice,
    model_reason_text, order_side_to_ai_action, side_str, validate_ai_provider_config, AiTradeAction,
};
use trade_robot::types::OrderSide;

#[test]
fn sides_and_actions() {
    assert_eq!(order_side_to_ai_action(OrderSide::Buy), AiTradeAction::Buy);
    assert_eq!(order_side_to_ai_action(OrderSide::Sell), AiTradeAction::Sell);
    assert_eq!(side_str(OrderSide::Buy), "buy");
    assert_eq!(side_str(OrderSide::Sell), "sell");
}

#[test]
fn provider_settings_checks() {
    let ok = |id: &str, url: &str, model: &str, t: u64, m: u32, temp: bool, ollama: bool, key: &str| {
        validate_ai_provider_config(id, url, model, t, m, temp, ollama, key)
    };
    assert!(ok("p", "http://x", "m", 500, 1, true, false, "k").is_ok());
    assert!(ok("p", "http://x", "m", 120_000, 32_768, true, true, "").is_ok());
    assert_eq!(ok(" ", "u", "m", 1000, 10, true, true, "").unwrap_err(), "provider id is empty");
    assert_eq!(ok("p", "", "m", 1000, 10, true, true, "").unwrap_err(), "provider base_url is empty");
    assert_eq!(ok("p", "u", "\n", 1000, 10, true, true, "").unwrap_err(), "provider model is empty");
    assert_eq!(
        ok("p", "u", "m", 499, 10, true, true, "").unwrap_err(),
        "provider timeout_ms out of range [500, 120000]"
    );
    assert_eq!(
        ok("p", "u", "m", 120_001, 10, true, true, "").unwrap_err(),
        "provider timeout_ms out of range [500, 120000]"
    );
    assert_eq!(ok("p", "u", "m", 1000, 0, true, true, "").unwrap_err(), "provider max_tokens out of range");
    assert_eq!(ok("p", "u", "m", 1000, 32_769, true, true, "").unwrap_err(), "provider max_tokens out of range");
    assert_eq!(
        ok("p", "u", "m", 1000, 10, false, true, "").unwrap_err(),
        "provider temperature out of range [0, 2]"
    );
    assert_eq!(
        ok("p", "u", "m", 1000, 10, true, false, " ").unwrap_err(),
        "api_key_secret is required for non-ollama providers"
    );
}

#[test]
fn model_answer_fields() {
    assert_eq!(ai_action_from_text(Some("buy")), AiTradeAction::Buy);
    assert_eq!(ai_action_from_text(Some("SeLL")), AiTradeAction::Sell);
    assert_eq!(ai_action_from_text(Some(" buy")), AiTradeAction::Hold);
    assert_eq!(ai_action_from_text(Some("hold")), AiTradeAction::Hold);
    assert_eq!(ai_action_from_text(None), AiTradeAction::Hold);

    assert_eq!(model_reason_text(Some("  trend continuation \n")), "trend continuation");
    assert_eq!(model_reason_text(None), "no reason");

    let items = vec![
        Some(" spread_ok ".to_string()),
        None,
        Some("   ".to_string()),
        Some("vol_ok".to_string()),
    ];
    assert_eq!(clean_safeguards(&items), vec!["spread_ok".to_string(), "vol_ok".to_string()]);
    assert!(clean_safeguards(&vec![]).is_empty());
}

#[test]
fn json_object_cut_from_wrapped_text() {
    let text = "answer:\n```json\n{\"action\":\"hold\",\"confidence\":0.3}\n```";
    assert_eq!(json_object_slice(text).unwrap(), "{\"action\":\"hold\",\"confidence\":0.3}");
    assert_eq!(json_object_slice("{a} and {b}").unwrap(), "{a} and {b}");
    assert_eq!(json_object_slice("no braces").unwrap_err(), "json start not found");
    assert_eq!(json_object_slice("only {").unwrap_err(), "json end not found");
    assert_eq!(json_object_slice("} then {").unwrap_err(), "invalid json wrapper");
}

#[test]
fn ai_gate_decisions() {
    assert!(ai_gate_needed("short_term_momentum_bot", true));
    assert!(!ai_gate_needed("short_term_momentum_bot", false));
    assert!(!ai_gate_needed("ma_crossover", true));
    assert!(ai_gate_allows(AiTradeAction::Buy, OrderSide::Buy, true));
    assert!(!ai_gate_allows(AiTradeAction::Buy, OrderSide::Buy, false));
    assert!(!ai_gate_allows(AiTradeAction::Hold, OrderSide::Sell, true));
    assert!(ai_gate_allows(AiTradeAction::Sell, OrderSide::Sell, true));
}

#[test]
fn router_and_provider_ids_are_normalized() {
    assert_eq!(normalize_provider_id("  OLLAMA "), "ollama");
    assert_eq!(normalize_provider_id("ΣΑΣ"), "σας");
    let fallbacks: Vec<String> = vec!["deepseek", " OPENAI", "", "DeepSeek ", "qwen"]
        .into_iter()
        .map(|s| s.to_string())
        .collect();
    let (p, f) = normalize_ai_router(" OpenAI ", &fallbacks).unwrap();
    assert_eq!(p, "openai");
    assert_eq!(f, vec!["deepseek".to_string(), "qwen".to_string()]);
    assert_eq!(normalize_ai_router("  ", &fallbacks).unwrap_err(), "ai router primary provider is empty");
    assert_eq!(primary_after_provider_update(" ", "grok"), "grok");
    assert_eq!(primary_after_provider_update("openai", "grok"), "openai");
    assert_eq!(provider_id_to_test(" Qwen ").unwrap(), "qwen");
    assert_eq!(provider_id_to_test("   ").unwrap_err(), "provider id is empty");
    assert_eq!(check_kill_switch_hotkey(" ").unwrap_err(), "hotkey is empty");
    assert!(check_kill_switch_hotkey("Ctrl+Shift+K").is_ok());
}

#[test]
fn failover_walks_the_enabled_providers_in_route_order() {
    let enabled = vec![false, true, false, true];
    let mut errors: Vec<String> = Vec::new();
    assert_eq!(next_failover_step(&enabled, 0, &errors), FailoverStep::Call { index: 1 });
    errors.push("provider a: http 500".to_string());
    assert_eq!(next_failover_step(&enabled, 2, &errors), FailoverStep::Call { index: 3 });
    errors.push("provider b: timeout".to_string());
    assert_eq!(
        next_failover_step(&enabled, 4, &errors),
        FailoverStep::Fail { message: "all ai providers failed: provider a: http 500 | provider b: timeout".to_string() }
    );
    assert_eq!(
        next_failover_step(&vec![false, false], 0, &Vec::new()),
        FailoverStep::Fail { message: "no enabled ai provider in route".to_string() }
    );
    assert_eq!(
        next_failover_step(&Vec::new(), 0, &Vec::new()),
        FailoverStep::Fail { message: "ai provider route is empty".to_string() }
    );
}
