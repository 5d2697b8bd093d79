//! Pure decisions of the trading engine: symbol normalisation, market routing,
//! HTML escaping for reports, the live-trading unlock precheck, AI provider
//! routes, the trade-unlock credential, the quote-staleness breaker, model
//! registration checksums and the confusion matrix of a model evaluation.
use vstd::prelude::*;
use crate::text::{
    chars_eq, chars_of, find_char, flat_map_chars, is_ascii_alphanumeric, lemma_flat_map_step,
    push_all, slice_chars, split_once, string_of, trim, trim_chars, trim_range, upper,
    uppercase_range,
};
use crate::futu::{TRD_MARKET_CN, TRD_MARKET_HK, TRD_MARKET_US};
use crate::risk::RiskLimits;
use crate::types::{OpenDTradeEnv, ProfileMode};
use vstd::string::StringExecFns;
use crate::audit::{hex_encode, hex_lower, sha256_digest, sha256_of, utf8};
use crate::time::{floor_time, spec_floor_time, Timestamp};
use crate::types::Confusion2x2;
use crate::paper::{lemma_put_id_contains, lemma_put_id_sorted, store_id, strictly_sorted, views};

verus! {

/// The default market, `"US"`.
pub open spec fn us_text() -> Seq<char> {
    seq!['U', 'S']
}

/// Inside a symbol, spaces are dropped and `_` becomes `-`.
pub open spec fn despace_dash(c: char) -> Seq<char> {
    if c == ' ' {
        Seq::empty()
    } else if c == '_' {
        seq!['-']
    } else {
        seq![c]
    }
}

/// The canonical form `MARKET.CODE` of a user-typed symbol: trimmed, spaces
/// removed, `_` turned into `-`, upper-cased, and prefixed with `US.` when no
/// market is given. Blank input gives the empty text.
pub open spec fn spec_normalize_symbol(s: Seq<char>) -> Seq<char> {
    let t = trim(s);
    if t.len() == 0 {
        Seq::empty()
    } else {
        let u = upper(flat_map_chars(t, |c: char| despace_dash(c)));
        match split_once(u, '.') {
            Some((p, c)) => {
                if trim(p).len() == 0 {
                    us_text() + seq!['.'] + trim(c)
                } else {
                    trim(p) + seq!['.'] + trim(c)
                }
            },
            None => us_text() + seq!['.'] + u,
        }
    }
}

/// Each character that is not an ASCII letter or digit becomes `_`.
pub open spec fn spec_sanitize_symbol(s: Seq<char>) -> Seq<char> {
    s.map_values(|c: char| if is_ascii_alphanumeric(c) { c } else { '_' })
}

/// The market prefix of a symbol, upper-cased; blank or missing prefixes give `"US"`.
pub open spec fn spec_market_prefix_text(s: Seq<char>) -> Seq<char> {
    match split_once(trim(s), '.') {
        Some((p, _)) => if trim(p).len() > 0 {
            trim(p)
        } else {
            us_text()
        },
        None => us_text(),
    }
}

/// The OpenD trading market that routes orders for a symbol.
pub open spec fn spec_trd_market_from_symbol(s: Seq<char>) -> i32 {
    let p = upper(spec_market_prefix_text(s));
    if p == seq!['H', 'K'] {
        TRD_MARKET_HK
    } else if p == seq!['S', 'H'] || p == seq!['S', 'Z'] {
        TRD_MARKET_CN
    } else {
        TRD_MARKET_US
    }
}

/// HTML escaping of one character.
pub open spec fn html_escape_char(c: char) -> Seq<char> {
    if c == '&' {
        seq!['&', 'a', 'm', 'p', ';']
    } else if c == '<' {
        seq!['&', 'l', 't', ';']
    } else if c == '>' {
        seq!['&', 'g', 't', ';']
    } else if c == '"' {
        seq!['&', 'q', 'u', 'o', 't', ';']
    } else if c == '\'' {
        seq!['&', '#', '3', '9', ';']
    } else {
        seq![c]
    }
}

/// `s` with `&`, `<`, `>`, `"` and `'` replaced by HTML entities.
pub open spec fn spec_escape_html(s: Seq<char>) -> Seq<char> {
    flat_map_chars(s, |c: char| html_escape_char(c))
}

fn us_chars() -> (out: Vec<char>)
    ensures
        out@ == us_text(),
{
    let out = vec!['U', 'S'];
    assert(out@ =~= us_text());
    out
}

/// Canonical `MARKET.CODE` form of a symbol (see `spec_normalize_symbol`).
pub fn normalize_symbol(symbol: &str) -> (out: String)
    ensures
        out@ == spec_normalize_symbol(symbol@),
{
    let v = chars_of(symbol);
    let t = trim_chars(&v);
    if t.len() == 0 {
        let empty: Vec<char> = Vec::new();
        return string_of(&empty);
    }
    let mut d: Vec<char> = Vec::new();
    let mut i: usize = 0;
    while i < t.len()
        invariant
            i <= t.len(),
            d@ == flat_map_chars(t@.subrange(0, i as int), |c: char| despace_dash(c)),
        decreases t.len() - i,
    {
        let c = t[i];
        if c == '_' {
            d.push('-');
        } else if c != ' ' {
            d.push(c);
        }
        proof {
            lemma_flat_map_step(t@, 0, i as int, |c: char| despace_dash(c));
            assert(d@ =~= flat_map_chars(t@.subrange(0, i as int), |c: char| despace_dash(c))
                + despace_dash(t@[i as int])) by {
                assert(t@.subrange(0, i as int + 1).drop_last() =~= t@.subrange(0, i as int));
            };
        }
        i += 1;
    }
    assert(t@.subrange(0, t.len() as int) =~= t@);
    let u = uppercase_range(&d, 0, d.len());
    assert(d@.subrange(0, d.len() as int) =~= d@);
    let mut out: Vec<char>;
    match find_char(&u, '.') {
        Some(k) => {
            let (a, b) = trim_range(&u, 0, k);
            let (c, e) = trim_range(&u, k + 1, u.len());
            if a == b {
                out = us_chars();
            } else {
                out = slice_chars(&u, a, b);
            }
            out.push('.');
            let code = slice_chars(&u, c, e);
            push_all(&mut out, &code);
        },
        None => {
            out = us_chars();
            out.push('.');
            push_all(&mut out, &u);
        },
    }
    string_of(&out)
}

/// Replaces every character that is not an ASCII letter or digit by `_`.
pub fn sanitize_symbol(symbol: &str) -> (out: String)
    ensures
        out@ == spec_sanitize_symbol(symbol@),
{
    let v = chars_of(symbol);
    let mut out: Vec<char> = Vec::new();
    let mut i: usize = 0;
    while i < v.len()
        invariant
            i <= v.len(),
            out@ == spec_sanitize_symbol(v@.subrange(0, i as int)),
        decreases v.len() - i,
    {
        let c = v[i];
        let alnum = ('a' <= c && c <= 'z') || ('A' <= c && c <= 'Z') || ('0' <= c && c <= '9');
        if alnum {
            out.push(c);
        } else {
            out.push('_');
        }
        i += 1;
        assert(out@ =~= spec_sanitize_symbol(v@.subrange(0, i as int)));
    }
    assert(v@.subrange(0, v.len() as int) =~= v@);
    string_of(&out)
}

/// The market prefix text of a symbol, before upper-casing.
pub(crate) fn market_prefix_text(v: &Vec<char>) -> (out: Vec<char>)
    ensures
        out@ == spec_market_prefix_text(v@),
{
    let t = trim_chars(v);
    match find_char(&t, '.') {
        Some(k) => {
            let (a, b) = trim_range(&t, 0, k);
            if a < b {
                slice_chars(&t, a, b)
            } else {
                us_chars()
            }
        },
        None => us_chars(),
    }
}

/// The OpenD trading market (`TrdMarket`) that routes orders for a symbol:
/// HK for `HK.`, CN for `SH.` and `SZ.`, US otherwise.
pub fn trd_market_from_symbol(symbol: &str) -> (m: i32)
    ensures
        m == spec_trd_market_from_symbol(symbol@),
{
    let v = chars_of(symbol);
    let p = market_prefix_text(&v);
    let up = uppercase_range(&p, 0, p.len());
    assert(p@.subrange(0, p.len() as int) =~= p@);
    let hk = vec!['H', 'K'];
    let sh = vec!['S', 'H'];
    let sz = vec!['S', 'Z'];
    assert(hk@ =~= seq!['H', 'K']);
    assert(sh@ =~= seq!['S', 'H']);
    assert(sz@ =~= seq!['S', 'Z']);
    if chars_eq(&up, &hk) {
        TRD_MARKET_HK
    } else if chars_eq(&up, &sh) || chars_eq(&up, &sz) {
        TRD_MARKET_CN
    } else {
        TRD_MARKET_US
    }
}

/// HTML-escapes text for the generated reports.
pub fn escape_html(s: &str) -> (out: String)
    ensures
        out@ == spec_escape_html(s@),
{
    let v = chars_of(s);
    let mut out: Vec<char> = Vec::new();
    let mut i: usize = 0;
    while i < v.len()
        invariant
            i <= v.len(),
            out@ == spec_escape_html(v@.subrange(0, i as int)),
        decreases v.len() - i,
    {
        let c = v[i];
        let rep: Vec<char> = if c == '&' {
            vec!['&', 'a', 'm', 'p', ';']
        } else if c == '<' {
            vec!['&', 'l', 't', ';']
        } else if c == '>' {
            vec!['&', 'g', 't', ';']
        } else if c == '"' {
            vec!['&', 'q', 'u', 'o', 't', ';']
        } else if c == '\'' {
            vec!['&', '#', '3', '9', ';']
        } else {
            vec![c]
        };
        assert(rep@ =~= html_escape_char(c));
        push_all(&mut out, &rep);
        proof {
            lemma_flat_map_step(v@, 0, i as int, |c: char| html_escape_char(c));
        }
        i += 1;
    }
    assert(v@.subrange(0, v.len() as int) =~= v@);
    string_of(&out)
}

/// The phrase an operator types to unlock live trading.
pub open spec fn unlock_phrase() -> Seq<char> {
    "I UNDERSTAND LIVE TRADING RISK"@
}

/// Whether risk limits were changed from their defaults (100 shares per
/// position, 25 per order, 10 orders a minute, no symbol allowlist), or one of
/// the floating-point thresholds (daily loss, price band) was changed.
pub open spec fn spec_risk_limits_non_default(limits: RiskLimits, thresholds_changed: bool) -> bool {
    ||| limits.max_position_qty != 100
    ||| limits.max_order_qty != 25
    ||| limits.max_orders_per_minute != 10
    ||| thresholds_changed
    ||| limits.symbol_allowlist@.len() != 0
}

/// Whether risk limits differ from the defaults (see `spec_risk_limits_non_default`).
pub fn risk_limits_non_default(limits: &RiskLimits, thresholds_changed: bool) -> (b: bool)
    ensures
        b == spec_risk_limits_non_default(*limits, thresholds_changed),
{
    limits.max_position_qty != 100 || limits.max_order_qty != 25 || limits.max_orders_per_minute
        != 10 || thresholds_changed || limits.symbol_allowlist.len() != 0
}

/// The local conditions of the live-trading unlock workflow, checked in
/// order: the exact confirmation phrase, the live profile, non-default risk
/// limits, a kill-switch hotkey, and the real OpenD environment.
pub open spec fn spec_live_unlock_precheck(
    phrase: Seq<char>,
    mode: ProfileMode,
    risk_non_default: bool,
    hotkey: Seq<char>,
    trd_env: OpenDTradeEnv,
) -> Result<(), Seq<char>> {
    if phrase != unlock_phrase() {
        Err("confirmation phrase mismatch"@)
    } else if mode != ProfileMode::Live {
        Err("live trading can only be unlocked in the live profile"@)
    } else if !risk_non_default {
        Err("risk limits must be configured (non-default) before unlocking live trading"@)
    } else if trim(hotkey).len() == 0 {
        Err("kill switch hotkey must be configured before unlocking live trading"@)
    } else if trd_env == OpenDTradeEnv::Simulate {
        Err(
            "OpenD trading environment is still set to simulate; switch to real before unlocking live trading"@,
        )
    } else {
        Ok(())
    }
}

/// Checks the local conditions of the live-trading unlock workflow (the
/// keychain secret and the OpenD dry run follow on the host).
pub fn live_unlock_precheck(
    confirmation_phrase: &str,
    mode: ProfileMode,
    risk_non_default: bool,
    kill_switch_hotkey: &str,
    trd_env: OpenDTradeEnv,
) -> (r: Result<(), String>)
    ensures
        match (
            r,
            spec_live_unlock_precheck(
                confirmation_phrase@,
                mode,
                risk_non_default,
                kill_switch_hotkey@,
                trd_env,
            ),
        ) {
            (Ok(()), Ok(())) => true,
            (Err(e), Err(se)) => e@ == se,
            _ => false,
        },
{
    let p = chars_of(confirmation_phrase);
    let expected = chars_of("I UNDERSTAND LIVE TRADING RISK");
    if !chars_eq(&p, &expected) {
        return Err(String::from_str("confirmation phrase mismatch"));
    }
    if mode != ProfileMode::Live {
        return Err(String::from_str("live trading can only be unlocked in the live profile"));
    }
    if !risk_non_default {
        return Err(
            String::from_str(
                "risk limits must be configured (non-default) before unlocking live trading",
            ),
        );
    }
    let h = trim_chars(&chars_of(kill_switch_hotkey));
    if h.len() == 0 {
        return Err(
            String::from_str("kill switch hotkey must be configured before unlocking live trading"),
        );
    }
    if trd_env == OpenDTradeEnv::Simulate {
        return Err(
            String::from_str(
                "OpenD trading environment is still set to simulate; switch to real before unlocking live trading",
            ),
        );
    }
    Ok(())
}

/// Live trading unlocks only when every local condition holds: the exact
/// confirmation phrase, character for character, the live profile,
/// non-default risk limits, a configured kill-switch hotkey, and the real
/// OpenD environment.
pub proof fn law_live_unlock_requires_every_safeguard(
    phrase: Seq<char>,
    mode: ProfileMode,
    risk_non_default: bool,
    hotkey: Seq<char>,
    trd_env: OpenDTradeEnv,
)
    ensures
        spec_live_unlock_precheck(phrase, mode, risk_non_default, hotkey, trd_env) is Ok <==> (
        phrase == unlock_phrase() && mode == ProfileMode::Live && risk_non_default && trim(
            hotkey,
        ).len() > 0 && trd_env == OpenDTradeEnv::Real),
{
}

/// Custom script strategies may not start in a live profile.
pub fn check_strategy_allowed(mode: ProfileMode, strategy_id: &str) -> (r: Result<(), String>)
    ensures
        (mode == ProfileMode::Live && strategy_id@ == "rhai_script"@) <==> (r matches Err(e) && e@
            == "custom scripts are disabled in live mode"@),
        r is Err ==> mode == ProfileMode::Live && strategy_id@ == "rhai_script"@,
{
    if mode == ProfileMode::Live && chars_eq(&chars_of(strategy_id), &chars_of("rhai_script")) {
        return Err(String::from_str("custom scripts are disabled in live mode"));
    }
    Ok(())
}

/// Whether `s` holds `x`.
pub open spec fn seq_has(s: Seq<Seq<char>>, x: Seq<char>) -> bool {
    exists|i: int| 0 <= i < s.len() && s[i] == x
}

/// The provider route after the first `n` fallbacks: the trimmed primary (if
/// not blank), then each non-blank fallback not already in the route.
pub open spec fn spec_route_prefix(primary: Seq<char>, fallbacks: Seq<Seq<char>>, n: int) -> Seq<
    Seq<char>,
>
    decreases n,
{
    if n <= 0 {
        if trim(primary).len() > 0 {
            seq![trim(primary)]
        } else {
            Seq::empty()
        }
    } else {
        let r = spec_route_prefix(primary, fallbacks, n - 1);
        let id = fallbacks[n - 1];
        if trim(id).len() == 0 || seq_has(r, id) {
            r
        } else {
            r.push(id)
        }
    }
}

/// The order in which model providers are tried: primary, then fallbacks.
pub open spec fn spec_provider_route(primary: Seq<char>, fallbacks: Seq<Seq<char>>) -> Seq<Seq<char>> {
    spec_route_prefix(primary, fallbacks, fallbacks.len() as int)
}

pub(crate) fn contains_text(list: &Vec<String>, x: &Vec<char>) -> (b: bool)
    ensures
        b == seq_has(list@.map_values(|s: String| s@), x@),
{
    let ghost m = list@.map_values(|s: String| s@);
    let mut i: usize = 0;
    while i < list.len()
        invariant
            i <= list@.len(),
            m == list@.map_values(|s: String| s@),
            forall|j: int| 0 <= j < i ==> m[j] != x@,
        decreases list.len() - i,
    {
        if chars_eq(&chars_of(list[i].as_str()), x) {
            assert(m[i as int] == x@);
            return true;
        }
        i += 1;
    }
    false
}

/// Provider ids to try in order: the trimmed primary (unless blank), then the
/// non-blank fallbacks, each id once.
pub fn provider_route(primary: &str, fallbacks: &Vec<String>) -> (out: Vec<String>)
    ensures
        out@.map_values(|s: String| s@) == spec_provider_route(
            primary@,
            fallbacks@.map_values(|s: String| s@),
        ),
{
    let ghost fb = fallbacks@.map_values(|s: String| s@);
    let mut out: Vec<String> = Vec::new();
    let p = trim_chars(&chars_of(primary));
    if p.len() > 0 {
        out.push(string_of(&p));
    }
    assert(out@.map_values(|s: String| s@) =~= spec_route_prefix(primary@, fb, 0));
    let mut i: usize = 0;
    while i < fallbacks.len()
        invariant
            i <= fallbacks@.len(),
            fb == fallbacks@.map_values(|s: String| s@),
            out@.map_values(|s: String| s@) == spec_route_prefix(primary@, fb, i as int),
        decreases fallbacks.len() - i,
    {
        let id = chars_of(fallbacks[i].as_str());
        let t = trim_chars(&id);
        if t.len() > 0 && !contains_text(&out, &id) {
            out.push(string_of(&id));
            assert(out@.map_values(|s: String| s@) =~= spec_route_prefix(primary@, fb, i as int)
                .push(id@));
        }
        i += 1;
    }
    out
}

/// Each provider is tried at most once: the route holds no id twice.
pub proof fn law_provider_route_distinct(primary: Seq<char>, fallbacks: Seq<Seq<char>>, n: int)
    requires
        0 <= n <= fallbacks.len(),
    ensures
        forall|i: int, j: int|
            0 <= i < j < spec_route_prefix(primary, fallbacks, n).len() ==> spec_route_prefix(
                primary,
                fallbacks,
                n,
            )[i] != spec_route_prefix(primary, fallbacks, n)[j],
    decreases n,
{
    if n > 0 {
        law_provider_route_distinct(primary, fallbacks, n - 1);
        let r = spec_route_prefix(primary, fallbacks, n - 1);
        let id = fallbacks[n - 1];
        if !(trim(id).len() == 0 || seq_has(r, id)) {
            let r2 = r.push(id);
            assert forall|i: int, j: int| 0 <= i < j < r2.len() implies r2[i] != r2[j] by {
                if j == r.len() {
                    assert(r2[i] == r[i]);
                    assert(r2[j] == id);
                } else {
                    assert(r2[i] == r[i] && r2[j] == r[j]);
                }
            }
        }
    }
}

/// MD5 digest of a byte sequence.
pub uninterp spec fn md5_digest(data: Seq<u8>) -> [u8; 16];

/// Calls `md5::compute` and formats the digest with its `LowerHex`
/// implementation, which writes each of the 16 bytes as two lowercase hex
/// digits (`{:02x}`), in order.
#[verifier::external_body]
fn md5_lower_hex(data: &[u8]) -> (s: String)
    ensures
        s@ == hex_lower(md5_digest(data@)@),
{
    format!("{:x}", md5::compute(data))
}

/// The trade-unlock credential OpenD expects: the lowercase hex MD5 of the
/// trade password's UTF-8 bytes.
pub fn trade_password_md5_hex(password: &str) -> (s: String)
    ensures
        s@ == hex_lower(md5_digest(crate::audit::utf8(password@))@),
{
    md5_lower_hex(password.as_bytes())
}

/// Whole seconds of a positive nanosecond span.
pub open spec fn whole_seconds(nanos: int) -> int {
    nanos / 1_000_000_000
}

/// The quote-staleness breaker: when the last quote is more than 30 seconds
/// old, the reason to halt, naming the age in whole seconds.
pub open spec fn spec_quote_stale_reason(now: Timestamp, last_quote: Option<Timestamp>) -> Option<
    Seq<char>,
> {
    match last_quote {
        Some(t) => {
            let dt = now.total_nanos() - t.total_nanos();
            if dt > 30_000_000_000 {
                Some(
                    "quote feed stale (last update "@ + crate::text::decimal(whole_seconds(dt) as nat)
                        + "s ago)"@,
                )
            } else {
                None
            }
        },
        None => None,
    }
}

/// The staleness breaker trips exactly when a quote was seen and the last
/// one is more than 30 seconds old; its message gives the whole seconds since.
pub proof fn law_stale_quote_trips_after_thirty_seconds(now: Timestamp, last_quote_ts: Option<Timestamp>)
    ensures
        spec_quote_stale_reason(now, last_quote_ts) is Some <==> (last_quote_ts matches Some(t)
            && now.total_nanos() - t.total_nanos() > 30_000_000_000),
{
}

/// The quote-staleness breaker (see `spec_quote_stale_reason`).
pub fn quote_stale_reason(now: Timestamp, last_quote_ts: Option<Timestamp>) -> (r: Option<String>)
    ensures
        match (r, spec_quote_stale_reason(now, last_quote_ts)) {
            (Some(m), Some(sm)) => m@ == sm,
            (None, None) => true,
            _ => false,
        },
{
    match last_quote_ts {
        None => None,
        Some(t) => {
            let dt: i128 = (now.secs as i128 - t.secs as i128) * 1_000_000_000 + (now.nanos as i128
                - t.nanos as i128);
            if dt > 30_000_000_000 {
                let secs = dt / 1_000_000_000;
                let mut m = String::from_str("quote feed stale (last update ");
                m.append(string_of(&crate::text::decimal_chars(secs as u128)).as_str());
                m.append("s ago)");
                Some(m)
            } else {
                None
            }
        },
    }
}

/// Lowercase hex SHA-256 of bytes.
pub fn sha256_hex(bytes: &[u8]) -> (s: String)
    ensures
        s@ == hex_lower(sha256_digest(bytes@)@),
{
    let d = sha256_of(bytes);
    hex_encode(&d)
}

/// The text a built-in model's checksum is taken over:
/// `builtin|<base id>|<version>|<params as JSON>`.
pub open spec fn builtin_model_fingerprint(
    base_id: Seq<char>,
    version: Seq<char>,
    params_json: Seq<char>,
) -> Seq<char> {
    "builtin|"@ + base_id + "|"@ + version + "|"@ + params_json
}

/// The checksum of a built-in model registration: hex SHA-256 of its
/// fingerprint's UTF-8 bytes (see `builtin_model_fingerprint`).
pub fn builtin_model_checksum(base_id: &str, version: &str, params_json: &str) -> (s: String)
    ensures
        s@ == hex_lower(
            sha256_digest(utf8(builtin_model_fingerprint(base_id@, version@, params_json@)))@,
        ),
{
    let mut t = chars_of("builtin|");
    push_all(&mut t, &chars_of(base_id));
    push_all(&mut t, &chars_of("|"));
    push_all(&mut t, &chars_of(version));
    push_all(&mut t, &chars_of("|"));
    push_all(&mut t, &chars_of(params_json));
    let text = string_of(&t);
    assert(text@ == builtin_model_fingerprint(base_id@, version@, params_json@));
    sha256_hex(text.as_str().as_bytes())
}

/// A text without its `-` characters.
pub open spec fn without_dashes(s: Seq<char>) -> Seq<char>
    decreases s.len(),
{
    if s.len() == 0 {
        Seq::empty()
    } else if s.last() == '-' {
        without_dashes(s.drop_last())
    } else {
        without_dashes(s.drop_last()).push(s.last())
    }
}

/// The file an imported ONNX model is stored under: `model_<id without
/// dashes>.onnx`.
pub fn onnx_artifact_file_name(id: &str) -> (s: String)
    ensures
        s@ == "model_"@ + without_dashes(id@) + ".onnx"@,
{
    let v = chars_of(id);
    let mut kept: Vec<char> = Vec::new();
    let mut i: usize = 0;
    while i < v.len()
        invariant
            i <= v@.len(),
            kept@ == without_dashes(v@.take(i as int)),
        decreases v.len() - i,
    {
        assert(v@.take(i + 1).drop_last() =~= v@.take(i as int));
        if v[i] != '-' {
            kept.push(v[i]);
        }
        i += 1;
    }
    assert(v@.take(v@.len() as int) =~= v@);
    let mut out = chars_of("model_");
    push_all(&mut out, &kept);
    push_all(&mut out, &chars_of(".onnx"));
    string_of(&out)
}

/// How many of the (predicted up, actually up) outcomes equal `(pred, actual)`.
pub open spec fn count_outcomes(outcomes: Seq<(bool, bool)>, pred: bool, actual: bool) -> nat
    decreases outcomes.len(),
{
    if outcomes.len() == 0 {
        0
    } else {
        count_outcomes(outcomes.drop_last(), pred, actual) + if outcomes.last() == (pred, actual) {
            1nat
        } else {
            0nat
        }
    }
}

/// The confusion matrix of a model evaluation: true positives (predicted
/// and went up), false positives, true negatives, false negatives.
pub fn confusion_of(outcomes: &Vec<(bool, bool)>) -> (c: Confusion2x2)
    requires
        outcomes.len() <= u32::MAX,
    ensures
        c.tp == count_outcomes(outcomes@, true, true),
        c.fp == count_outcomes(outcomes@, true, false),
        c.tn == count_outcomes(outcomes@, false, false),
        c.fn_ == count_outcomes(outcomes@, false, true),
{
    let mut c = Confusion2x2 { tp: 0, fp: 0, tn: 0, fn_: 0 };
    let mut i: usize = 0;
    while i < outcomes.len()
        invariant
            i <= outcomes@.len(),
            outcomes@.len() <= u32::MAX,
            c.tp == count_outcomes(outcomes@.take(i as int), true, true),
            c.fp == count_outcomes(outcomes@.take(i as int), true, false),
            c.tn == count_outcomes(outcomes@.take(i as int), false, false),
            c.fn_ == count_outcomes(outcomes@.take(i as int), false, true),
            c.tp + c.fp + c.tn + c.fn_ == i,
        decreases outcomes.len() - i,
    {
        assert(outcomes@.take(i + 1).drop_last() =~= outcomes@.take(i as int));
        assert(outcomes@.take(i + 1).last() == outcomes@[i as int]);
        match outcomes[i] {
            (true, true) => c.tp = c.tp + 1,
            (true, false) => c.fp = c.fp + 1,
            (false, false) => c.tn = c.tn + 1,
            (false, true) => c.fn_ = c.fn_ + 1,
        }
        i += 1;
    }
    assert(outcomes@.take(outcomes@.len() as int) =~= outcomes@);
    c
}

/// Every evaluated sample lands in exactly one cell of the confusion matrix.
pub proof fn law_confusion_counts_every_sample(outcomes: Seq<(bool, bool)>)
    ensures
        count_outcomes(outcomes, true, true) + count_outcomes(outcomes, true, false)
            + count_outcomes(outcomes, false, false) + count_outcomes(outcomes, false, true)
            == outcomes.len(),
    decreases outcomes.len(),
{
    if outcomes.len() > 0 {
        law_confusion_counts_every_sample(outcomes.drop_last());
        let l = outcomes.last();
        assert(l == (l.0, l.1));
    }
}

/// What a quote does to the bar being built for its symbol.
#[derive(Debug, Clone, Copy, PartialEq, Eq, Structural)]
pub enum BarStep {
    /// No bar yet: open one.
    Open,
    /// Same bucket: update the current bar.
    Update,
    /// A new bucket: emit the current bar and open the next.
    Roll,
}

/// The bucket a quote at `ts` falls in, and what it does to the bar whose
/// bucket is `current` (if any).
pub open spec fn spec_bar_step(current: Option<Timestamp>, ts: Timestamp, interval_sec: u32) -> (
    Timestamp,
    BarStep,
) {
    let b = spec_floor_time(ts, interval_sec);
    (
        b,
        match current {
            None => BarStep::Open,
            Some(c) => if c == b {
                BarStep::Update
            } else {
                BarStep::Roll
            },
        },
    )
}

/// Quotes are bucketed by `interval_sec`: a quote's bucket starts on a
/// multiple of `interval_sec` seconds, at a whole second, and holds the quote
/// (for times at or after the epoch it is the latest such start at or before
/// the quote; before the epoch, the truncating remainder rounds towards it, so
/// the start is the earliest at or after the quote). The step opens a bar when
/// there is none, updates the current one when the quote falls in its bucket,
/// and rolls over otherwise.
pub proof fn law_bar_bucket(current: Option<Timestamp>, ts: Timestamp, interval_sec: u32)
    requires
        interval_sec > 0,
    ensures
        ({
            let (b, step) = spec_bar_step(current, ts, interval_sec);
            let n = interval_sec as int;
            &&& b.nanos == 0
            &&& (b.secs as int) % n == 0
            &&& ts.secs >= 0 ==> ts.secs - n < b.secs <= ts.secs
            &&& ts.secs < 0 ==> ts.secs <= b.secs < ts.secs + n
            &&& current is None ==> step == BarStep::Open
            &&& current == Some(b) ==> step == BarStep::Update
            &&& (current is Some && current != Some(b)) ==> step == BarStep::Roll
        }),
{
    let n = interval_sec as int;
    let s = ts.secs as int;
    if s >= 0 {
        vstd::arithmetic::div_mod::lemma_fundamental_div_mod(s, n);
        vstd::arithmetic::div_mod::lemma_mod_multiples_basic(s / n, n);
        assert(s - s % n == (s / n) * n) by (nonlinear_arith)
            requires
                s == n * (s / n) + (s % n),
        ;
    } else {
        let t = -s;
        vstd::arithmetic::div_mod::lemma_fundamental_div_mod(t, n);
        vstd::arithmetic::div_mod::lemma_mod_multiples_basic(-(t / n), n);
        assert(s + t % n == (-(t / n)) * n) by (nonlinear_arith)
            requires
                t == n * (t / n) + (t % n),
                s == -t,
        ;
    }
}

/// Two quotes in the same `interval_sec` bucket (at or after the epoch): after
/// the first has placed its bar, the second updates that bar.
pub proof fn law_same_bucket_updates(
    previous: Option<Timestamp>,
    t1: Timestamp,
    t2: Timestamp,
    interval_sec: u32,
)
    requires
        interval_sec > 0,
        t1.secs >= 0,
        t2.secs >= 0,
        (t1.secs as int) / (interval_sec as int) == (t2.secs as int) / (interval_sec as int),
    ensures
        ({
            let b1 = spec_bar_step(previous, t1, interval_sec).0;
            spec_bar_step(Some(b1), t2, interval_sec) == (b1, BarStep::Update)
        }),
{
    let n = interval_sec as int;
    vstd::arithmetic::div_mod::lemma_fundamental_div_mod(t1.secs as int, n);
    vstd::arithmetic::div_mod::lemma_fundamental_div_mod(t2.secs as int, n);
}

/// Places a quote among the bars being built (see `spec_bar_step`).
pub fn bar_step(current: Option<Timestamp>, ts: Timestamp, interval_sec: u32) -> (r: (
    Timestamp,
    BarStep,
))
    requires
        interval_sec > 0,
    ensures
        r == spec_bar_step(current, ts, interval_sec),
{
    let b = floor_time(ts, interval_sec);
    let step = match current {
        None => BarStep::Open,
        Some(c) => if c.secs == b.secs && c.nanos == b.nanos {
            BarStep::Update
        } else {
            BarStep::Roll
        },
    };
    (b, step)
}

/// Whether `x` is the canonical form of one of `symbols` and not blank.
pub open spec fn in_watchlist(symbols: Seq<String>, x: Seq<char>) -> bool {
    trim(x).len() > 0 && exists|i: int| 0 <= i < symbols.len() && spec_normalize_symbol(#[trigger] symbols[i]@) == x
}

/// The watchlist of a list of symbols: their canonical forms, blanks dropped,
/// each once, in ascending order.
pub fn watchlist_from(symbols: &Vec<String>) -> (out: Vec<String>)
    ensures
        strictly_sorted(views(out@)),
        forall|x: Seq<char>| #[trigger] views(out@).contains(x) <==> in_watchlist(symbols@, x),
{
    let mut out: Vec<String> = Vec::new();
    let mut i: usize = 0;
    while i < symbols.len()
        invariant
            i <= symbols@.len(),
            strictly_sorted(views(out@)),
            forall|x: Seq<char>| #[trigger] views(out@).contains(x) <==> (trim(x).len() > 0 && exists|j: int| 0 <= j < i && spec_normalize_symbol(#[trigger] symbols@[j]@) == x),
        decreases symbols.len() - i,
    {
        let s = normalize_symbol(symbols[i].as_str());
        let ghost o0 = out@;
        let blank = trim_chars(&chars_of(s.as_str())).len() == 0;
        if !blank {
            proof {
                lemma_put_id_sorted(o0, s);
            }
            store_id(&mut out, s);
        }
        proof {
            assert forall|x: Seq<char>| #[trigger] views(out@).contains(x) <==> (trim(x).len() > 0 && exists|j: int| 0 <= j < i + 1 && spec_normalize_symbol(#[trigger] symbols@[j]@) == x) by {
                if !blank {
                    lemma_put_id_contains(o0, s, x);
                }
                if trim(x).len() > 0 && exists|j: int| 0 <= j < i + 1 && spec_normalize_symbol(#[trigger] symbols@[j]@) == x {
                    let j = choose|j: int| 0 <= j < i + 1 && spec_normalize_symbol(#[trigger] symbols@[j]@) == x;
                    if j < i {
                        assert(views(o0).contains(x));
                    }
                }
                if views(out@).contains(x) && !views(o0).contains(x) {
                    assert(spec_normalize_symbol(symbols@[i as int]@) == x);
                }
            }
        }
        i += 1;
    }
    out
}

} // verus!
