use trade_robot::config::{AppConfig, ProfileConfig};
use trade_robot::types::{OpenDTradeEnv, ProfileMode};

#[test]
fn default_config_starts_in_the_paper_profile() {
    let c = AppConfig::default();
    assert_eq!(c.active_profile, "paper");
    let names: Vec<&str> = c.profiles.iter().map(|(n, _)| n.as_str()).collect();
    assert_eq!(names, vec!["live", "paper", "research"]);
    let p = c.active_profile_config().expect("the active profile exists");
    assert_eq!(p.mode, ProfileMode::Paper);
    assert!(!p.live_trading_unlocked);
    assert_eq!(p.opend_trd_env, OpenDTradeEnv::Simulate);
    assert_eq!(p.kill_switch_hotkey, "CmdOrCtrl+Alt+K");
    assert_eq!(c.profiles[0].1.mode, ProfileMode::Live);
    assert!(!c.profiles[0].1.live_trading_unlocked);
    assert_eq!(c.profiles[2].1.mode, ProfileMode::Research);
}

#[test]
fn active_profile_lookup_by_name() {
    let mut c = AppConfig::default();
    c.active_profile = "live".to_string();
    assert_eq!(c.active_profile_config().unwrap().mode, ProfileMode::Live);
    c.active_profile = "missing".to_string();
    assert!(c.active_profile_config().is_none());
    let d = ProfileConfig::default();
    assert_eq!(d.mode, ProfileMode::Paper);
    assert_eq!(d.risk.max_position_qty, 100);
    assert!(!d.time_controls.enabled);
}
