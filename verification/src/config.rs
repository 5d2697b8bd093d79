//! The application's profiles: each profile's mode, OpenD settings, risk
//! limits, time controls and live-trading lock, and which profile is active.
//! Profiles are kept sorted by name, each name once.
use vstd::prelude::*;
use vstd::string::StringExecFns;
use crate::paper::{str_lt, strictly_sorted};
use crate::risk::RiskLimits;
use crate::text::{chars_eq, chars_of};
use crate::types::{OpenDConfig, OpenDTradeEnv, ProfileMode, TimeControls};

verus! {

/// One profile. The floating-point risk thresholds (daily loss, price band)
/// are kept beside it by the host.
#[derive(Debug)]
pub struct ProfileConfig {
    pub mode: ProfileMode,
    pub opend: OpenDConfig,
    pub opend_trd_env: OpenDTradeEnv,
    pub risk: RiskLimits,
    pub time_controls: TimeControls,
    /// Live trading is locked behind an explicit workflow.
    pub live_trading_unlocked: bool,
    /// Global kill-switch hotkey, e.g. "CmdOrCtrl+Alt+K".
    pub kill_switch_hotkey: String,
}

/// The default hotkey of the kill switch.
pub open spec fn default_hotkey() -> Seq<char> {
    "CmdOrCtrl+Alt+K"@
}

/// A profile as `ProfileConfig::default` makes it, up to its mode: simulated
/// OpenD trading, default risk limits, no time controls, live trading locked,
/// the default hotkey.
pub open spec fn is_default_profile(p: ProfileConfig, mode: ProfileMode) -> bool {
    &&& p.mode == mode
    &&& p.opend_trd_env == OpenDTradeEnv::Simulate
    &&& p.risk.max_position_qty == 100
    &&& p.risk.max_order_qty == 25
    &&& p.risk.max_orders_per_minute == 10
    &&& p.risk.symbol_allowlist@.len() == 0
    &&& p.risk.allowed_markets@.len() == 0
    &&& !p.time_controls.enabled
    &&& !p.live_trading_unlocked
    &&& p.kill_switch_hotkey@ == default_hotkey()
}

impl ProfileConfig {
    /// A default profile in mode `mode`.
    pub fn with_mode(mode: ProfileMode) -> (p: ProfileConfig)
        ensures
            is_default_profile(p, mode),
    {
        ProfileConfig {
            mode,
            opend: OpenDConfig::default(),
            opend_trd_env: OpenDTradeEnv::default(),
            risk: RiskLimits::default(),
            time_controls: TimeControls::default(),
            live_trading_unlocked: false,
            kill_switch_hotkey: String::from_str("CmdOrCtrl+Alt+K"),
        }
    }
}

impl Default for ProfileConfig {
    /// A paper profile with every safeguard at its default.
    fn default() -> (p: Self)
        ensures
            is_default_profile(p, ProfileMode::Paper),
    {
        ProfileConfig::with_mode(ProfileMode::Paper)
    }
}

/// The whole configuration: the active profile's name and the profiles,
/// sorted by name.
#[derive(Debug)]
pub struct AppConfig {
    pub active_profile: String,
    pub profiles: Vec<(String, ProfileConfig)>,
}

/// The names of the profiles, in order.
pub open spec fn profile_names(ps: Seq<(String, ProfileConfig)>) -> Seq<Seq<char>> {
    ps.map_values(|e: (String, ProfileConfig)| e.0@)
}

/// The profile named `name`, if any.
pub open spec fn find_profile(ps: Seq<(String, ProfileConfig)>, name: Seq<char>) -> Option<
    ProfileConfig,
>
    decreases ps.len(),
{
    if ps.len() == 0 {
        None
    } else if ps[0].0@ == name {
        Some(ps[0].1)
    } else {
        find_profile(ps.drop_first(), name)
    }
}

impl AppConfig {
    /// Profile names are sorted, each once.
    pub open spec fn wf(&self) -> bool {
        strictly_sorted(profile_names(self.profiles@))
    }

    /// The profile the engine starts with: the one named by `active_profile`.
    pub fn active_profile_config(&self) -> (r: Option<&ProfileConfig>)
        ensures
            match r {
                Some(p) => find_profile(self.profiles@, self.active_profile@) == Some(*p),
                None => find_profile(self.profiles@, self.active_profile@) is None,
            },
    {
        let name = chars_of(self.active_profile.as_str());
        assert(self.profiles@.skip(0) =~= self.profiles@);
        let mut i: usize = 0;
        while i < self.profiles.len()
            invariant
                i <= self.profiles@.len(),
                name@ == self.active_profile@,
                find_profile(self.profiles@.skip(i as int), name@) == find_profile(
                    self.profiles@,
                    name@,
                ),
            decreases self.profiles.len() - i,
        {
            assert(self.profiles@.skip(i as int).drop_first() =~= self.profiles@.skip(i + 1));
            if chars_eq(&chars_of(self.profiles[i].0.as_str()), &name) {
                return Some(&self.profiles[i].1);
            }
            i += 1;
        }
        None
    }
}

impl Default for AppConfig {
    /// Three profiles, `live`, `paper` and `research`, each in its own mode
    /// with every safeguard at its default (live trading locked); the paper
    /// profile is the active one.
    fn default() -> (c: Self)
        ensures
            c.wf(),
            c.active_profile@ == "paper"@,
            profile_names(c.profiles@) == seq!["live"@, "paper"@, "research"@],
            is_default_profile(c.profiles@[0].1, ProfileMode::Live),
            is_default_profile(c.profiles@[1].1, ProfileMode::Paper),
            is_default_profile(c.profiles@[2].1, ProfileMode::Research),
            find_profile(c.profiles@, c.active_profile@) matches Some(p) && is_default_profile(
                p,
                ProfileMode::Paper,
            ),
    {
        let mut profiles: Vec<(String, ProfileConfig)> = Vec::new();
        profiles.push((String::from_str("live"), ProfileConfig::with_mode(ProfileMode::Live)));
        profiles.push((String::from_str("paper"), ProfileConfig::with_mode(ProfileMode::Paper)));
        profiles.push(
            (String::from_str("research"), ProfileConfig::with_mode(ProfileMode::Research)),
        );
        let c = AppConfig { active_profile: String::from_str("paper"), profiles };
        proof {
            reveal_strlit("live");
            reveal_strlit("paper");
            reveal_strlit("research");
            let ns = profile_names(c.profiles@);
            assert(ns =~= seq!["live"@, "paper"@, "research"@]);
            assert(str_lt("live"@, "paper"@));
            assert(str_lt("paper"@, "research"@));
            assert(str_lt("live"@, "research"@));
            assert(c.profiles@.drop_first()[0].0@ == "paper"@);
            assert(c.profiles@[0].0@ != "paper"@);
            assert(find_profile(c.profiles@.drop_first(), "paper"@) == Some(c.profiles@[1].1));
        }
        c
    }
}

} // verus!
