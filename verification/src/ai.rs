//! The AI risk gate: provider settings checks and the parts of reading a
//! model's answer that do not depend on JSON decoding or on floating point.
use vstd::prelude::*;
use vstd::string::StringExecFns;
use crate::text::{
    ascii_lower, chars_eq, chars_of, rfind_char, slice_chars, string_of, to_ascii_lower, trim,
    trim_chars, find_char, index_of,
};
use crate::types::OrderSide;
use crate::engine::{contains_text, seq_has};
use crate::text::is_ascii_char;

verus! {

/// What the model recommends.
#[derive(Debug, Clone, Copy, PartialEq, Eq, Structural)]
pub enum AiTradeAction {
    Buy,
    Sell,
    Hold,
}

/// The action that agrees with an order side.
pub fn order_side_to_ai_action(side: OrderSide) -> (a: AiTradeAction)
    ensures
        a == (match side {
            OrderSide::Buy => AiTradeAction::Buy,
            OrderSide::Sell => AiTradeAction::Sell,
        }),
{
    match side {
        OrderSide::Buy => AiTradeAction::Buy,
        OrderSide::Sell => AiTradeAction::Sell,
    }
}

/// The word for a side in the model prompt.
pub fn side_str(side: OrderSide) -> (s: &'static str)
    ensures
        s@ == (match side {
            OrderSide::Buy => "buy"@,
            OrderSide::Sell => "sell"@,
        }),
{
    match side {
        OrderSide::Buy => "buy",
        OrderSide::Sell => "sell",
    }
}

/// Whether a strategy signal waits for the model's confirmation: only the
/// short-term momentum bot does, and only when its `ai_confirm` is set.
pub open spec fn spec_ai_gate_needed(strategy_id: Seq<char>, ai_confirm: bool) -> bool {
    strategy_id == "short_term_momentum_bot"@ && ai_confirm
}

/// Whether a strategy signal waits for the model (see `spec_ai_gate_needed`).
pub fn ai_gate_needed(strategy_id: &str, ai_confirm: bool) -> (b: bool)
    ensures
        b == spec_ai_gate_needed(strategy_id@, ai_confirm),
{
    ai_confirm && chars_eq(&chars_of(strategy_id), &chars_of("short_term_momentum_bot"))
}

/// Whether the model confirms a signal: it recommends the signal's side and
/// is confident enough (`confidence_ok`, a floating-point comparison made by
/// the caller).
pub fn ai_gate_allows(action: AiTradeAction, side: OrderSide, confidence_ok: bool) -> (b: bool)
    ensures
        b == (action == (match side {
            OrderSide::Buy => AiTradeAction::Buy,
            OrderSide::Sell => AiTradeAction::Sell,
        }) && confidence_ok),
{
    let expected = order_side_to_ai_action(side);
    let action_match = match (action, expected) {
        (AiTradeAction::Buy, AiTradeAction::Buy) => true,
        (AiTradeAction::Sell, AiTradeAction::Sell) => true,
        (AiTradeAction::Hold, AiTradeAction::Hold) => true,
        _ => false,
    };
    action_match && confidence_ok
}

// ---------------------------------------------------------------------------
// Provider settings
// ---------------------------------------------------------------------------

/// Why provider settings are refused, checked in this order; `Ok` when none
/// applies. Whether the temperature lies in `[0, 2]` is given, as it is a
/// floating-point comparison.
pub open spec fn spec_validate_ai_provider(
    id: Seq<char>,
    base_url: Seq<char>,
    model: Seq<char>,
    timeout_ms: u64,
    max_tokens: u32,
    temperature_in_range: bool,
    is_ollama: bool,
    api_key_secret: Seq<char>,
) -> Result<(), Seq<char>> {
    if trim(id).len() == 0 {
        Err("provider id is empty"@)
    } else if trim(base_url).len() == 0 {
        Err("provider base_url is empty"@)
    } else if trim(model).len() == 0 {
        Err("provider model is empty"@)
    } else if timeout_ms < 500 || timeout_ms > 120_000 {
        Err("provider timeout_ms out of range [500, 120000]"@)
    } else if max_tokens == 0 || max_tokens > 32_768 {
        Err("provider max_tokens out of range"@)
    } else if !temperature_in_range {
        Err("provider temperature out of range [0, 2]"@)
    } else if !is_ollama && trim(api_key_secret).len() == 0 {
        Err("api_key_secret is required for non-ollama providers"@)
    } else {
        Ok(())
    }
}

fn is_blank(s: &str) -> (b: bool)
    ensures
        b == (trim(s@).len() == 0),
{
    trim_chars(&chars_of(s)).len() == 0
}

fn err(lit: &str) -> (r: Result<(), String>)
    ensures
        r matches Err(e) && e@ == lit@,
{
    Err(String::from_str(lit))
}

/// Checks AI provider settings before they are saved (see
/// `spec_validate_ai_provider`).
pub fn validate_ai_provider_config(
    id: &str,
    base_url: &str,
    model: &str,
    timeout_ms: u64,
    max_tokens: u32,
    temperature_in_range: bool,
    is_ollama: bool,
    api_key_secret: &str,
) -> (r: Result<(), String>)
    ensures
        match (
            r,
            spec_validate_ai_provider(
                id@,
                base_url@,
                model@,
                timeout_ms,
                max_tokens,
                temperature_in_range,
                is_ollama,
                api_key_secret@,
            ),
        ) {
            (Ok(()), Ok(())) => true,
            (Err(e), Err(se)) => e@ == se,
            _ => false,
        },
{
    if is_blank(id) {
        return err("provider id is empty");
    }
    if is_blank(base_url) {
        return err("provider base_url is empty");
    }
    if is_blank(model) {
        return err("provider model is empty");
    }
    if timeout_ms < 500 || timeout_ms > 120_000 {
        return err("provider timeout_ms out of range [500, 120000]");
    }
    if max_tokens == 0 || max_tokens > 32_768 {
        return err("provider max_tokens out of range");
    }
    if !temperature_in_range {
        return err("provider temperature out of range [0, 2]");
    }
    if !is_ollama && is_blank(api_key_secret) {
        return err("api_key_secret is required for non-ollama providers");
    }
    Ok(())
}

/// What `str::to_lowercase` gives: the Unicode lowercase of a text (with its
/// context rules, such as a final capital sigma).
pub uninterp spec fn unicode_lowercase(s: Seq<char>) -> Seq<char>;

/// Calls `str::to_lowercase`. The contract names its result
/// `unicode_lowercase` and states only that an all-ASCII text maps to its
/// ASCII lowercase form.
#[verifier::external_body]
fn str_to_lowercase(s: &str) -> (r: String)
    ensures
        r@ == unicode_lowercase(s@),
        (forall|i: int| 0 <= i < s@.len() ==> is_ascii_char(#[trigger] s@[i])) ==> r@ == lower_ascii(s@),
{
    s.to_lowercase()
}

/// A provider id as stored: trimmed and lowercased.
pub open spec fn spec_provider_id(id: Seq<char>) -> Seq<char> {
    unicode_lowercase(trim(id))
}

/// A provider id as stored (see `spec_provider_id`).
pub fn normalize_provider_id(id: &str) -> (r: String)
    ensures
        r@ == spec_provider_id(id@),
{
    let t = string_of(&trim_chars(&chars_of(id)));
    str_to_lowercase(t.as_str())
}

/// The fallbacks of a router after the first `n` given ones: each stored
/// id that is not blank, not the primary and not already listed, in order.
pub open spec fn spec_router_fallbacks(primary: Seq<char>, fallbacks: Seq<Seq<char>>, n: int) -> Seq<
    Seq<char>,
>
    decreases n,
{
    if n <= 0 {
        Seq::empty()
    } else {
        let r = spec_router_fallbacks(primary, fallbacks, n - 1);
        let id = spec_provider_id(fallbacks[n - 1]);
        if id.len() == 0 || id == primary || seq_has(r, id) {
            r
        } else {
            r.push(id)
        }
    }
}

/// A router as stored: a primary provider that must not be blank, and the
/// fallbacks cleaned (see `spec_router_fallbacks`).
pub open spec fn spec_normalize_ai_router(primary: Seq<char>, fallbacks: Seq<Seq<char>>) -> Result<
    (Seq<char>, Seq<Seq<char>>),
    Seq<char>,
> {
    if trim(primary).len() == 0 {
        Err("ai router primary provider is empty"@)
    } else {
        let p = spec_provider_id(primary);
        Ok((p, spec_router_fallbacks(p, fallbacks, fallbacks.len() as int)))
    }
}

/// Normalises a router before it is saved (see `spec_normalize_ai_router`).
pub fn normalize_ai_router(primary: &str, fallbacks: &Vec<String>) -> (r: Result<(String, Vec<String>), String>)
    ensures
        match (r, spec_normalize_ai_router(primary@, fallbacks@.map_values(|s: String| s@))) {
            (Ok((p, f)), Ok((sp, sf))) => p@ == sp && f@.map_values(|s: String| s@) == sf,
            (Err(e), Err(se)) => e@ == se,
            _ => false,
        },
{
    if is_blank(primary) {
        return Err(String::from_str("ai router primary provider is empty"));
    }
    let p = normalize_provider_id(primary);
    let pc = chars_of(p.as_str());
    let ghost fv = fallbacks@.map_values(|s: String| s@);
    let mut out: Vec<String> = Vec::new();
    let mut i: usize = 0;
    while i < fallbacks.len()
        invariant
            i <= fallbacks@.len(),
            fv == fallbacks@.map_values(|s: String| s@),
            pc@ == p@,
            out@.map_values(|s: String| s@) == spec_router_fallbacks(p@, fv, i as int),
        decreases fallbacks.len() - i,
    {
        let id = normalize_provider_id(fallbacks[i].as_str());
        let idc = chars_of(id.as_str());
        assert(fv[i as int] == fallbacks@[i as int]@);
        if idc.len() > 0 && !chars_eq(&idc, &pc) && !contains_text(&out, &idc) {
            let ghost before = out@;
            out.push(id);
            assert(out@.map_values(|s: String| s@) =~= before.map_values(|s: String| s@).push(idc@));
        }
        i += 1;
    }
    Ok((p, out))
}

/// The router's primary after a provider is saved: the provider becomes the
/// primary when none is set.
pub fn primary_after_provider_update(primary: &str, provider_id: &str) -> (r: String)
    ensures
        r@ == if trim(primary@).len() == 0 {
            provider_id@
        } else {
            primary@
        },
{
    if is_blank(primary) {
        string_of(&chars_of(provider_id))
    } else {
        string_of(&chars_of(primary))
    }
}

/// A provider to test must name a provider once stored.
pub fn provider_id_to_test(provider_id: &str) -> (r: Result<String, String>)
    ensures
        match r {
            Ok(id) => id@ == spec_provider_id(provider_id@) && id@.len() > 0,
            Err(e) => e@ == "provider id is empty"@ && spec_provider_id(provider_id@).len() == 0,
        },
{
    let id = normalize_provider_id(provider_id);
    if chars_of(id.as_str()).len() == 0 {
        return Err(String::from_str("provider id is empty"));
    }
    Ok(id)
}

// ---------------------------------------------------------------------------
// Reading a model answer
// ---------------------------------------------------------------------------

/// ASCII lowercase of a text (`str::to_ascii_lowercase`).
pub open spec fn lower_ascii(s: Seq<char>) -> Seq<char> {
    s.map_values(|c: char| ascii_lower(c))
}

/// The action named by the answer's `"action"` text (`"hold"` when absent),
/// compared without regard to ASCII case; anything else holds.
pub open spec fn spec_ai_action(action: Option<Seq<char>>) -> AiTradeAction {
    let t = lower_ascii(
        match action {
            Some(a) => a,
            None => "hold"@,
        },
    );
    if t == "buy"@ {
        AiTradeAction::Buy
    } else if t == "sell"@ {
        AiTradeAction::Sell
    } else {
        AiTradeAction::Hold
    }
}

/// Reads the action from the answer's `"action"` text, if it has one.
pub fn ai_action_from_text(action: Option<&str>) -> (a: AiTradeAction)
    ensures
        a == spec_ai_action(
            match action {
                Some(s) => Some(s@),
                None => None,
            },
        ),
{
    let raw = match action {
        Some(s) => chars_of(s),
        None => chars_of("hold"),
    };
    let mut low: Vec<char> = Vec::new();
    let mut i: usize = 0;
    while i < raw.len()
        invariant
            i <= raw@.len(),
            low@ == lower_ascii(raw@.take(i as int)),
        decreases raw.len() - i,
    {
        low.push(to_ascii_lower(raw[i]));
        i += 1;
        assert(low@ =~= lower_ascii(raw@.take(i as int)));
    }
    assert(raw@.take(raw@.len() as int) =~= raw@);
    if chars_eq(&low, &chars_of("buy")) {
        AiTradeAction::Buy
    } else if chars_eq(&low, &chars_of("sell")) {
        AiTradeAction::Sell
    } else {
        AiTradeAction::Hold
    }
}

/// The answer's reason, trimmed, or `"no reason"` when it gives none.
pub fn model_reason_text(reason: Option<&str>) -> (s: String)
    ensures
        s@ == trim(
            match reason {
                Some(r) => r@,
                None => "no reason"@,
            },
        ),
{
    let raw = match reason {
        Some(r) => chars_of(r),
        None => chars_of("no reason"),
    };
    string_of(&trim_chars(&raw))
}

/// The safeguards of an answer: each entry that is a text, trimmed, and kept
/// unless it is then empty, in order.
pub open spec fn spec_clean_safeguards(items: Seq<Option<Seq<char>>>) -> Seq<Seq<char>>
    decreases items.len(),
{
    if items.len() == 0 {
        Seq::empty()
    } else {
        let rest = spec_clean_safeguards(items.drop_last());
        match items.last() {
            Some(t) => if trim(t).len() == 0 {
                rest
            } else {
                rest.push(trim(t))
            },
            None => rest,
        }
    }
}

/// Views of optional texts.
pub open spec fn opt_views(items: Seq<Option<String>>) -> Seq<Option<Seq<char>>> {
    items.map_values(
        |x: Option<String>|
            match x {
                Some(s) => Some(s@),
                None => None,
            },
    )
}

/// Cleans the safeguards list of an answer (see `spec_clean_safeguards`);
/// entries that are not texts come as `None`.
pub fn clean_safeguards(items: &Vec<Option<String>>) -> (out: Vec<String>)
    ensures
        out@.map_values(|s: String| s@) == spec_clean_safeguards(opt_views(items@)),
{
    let mut out: Vec<String> = Vec::new();
    let mut i: usize = 0;
    while i < items.len()
        invariant
            i <= items@.len(),
            out@.map_values(|s: String| s@) == spec_clean_safeguards(
                opt_views(items@).take(i as int),
            ),
        decreases items.len() - i,
    {
        let ghost before = out@;
        assert(opt_views(items@).take(i + 1).drop_last() =~= opt_views(items@).take(i as int));
        assert(opt_views(items@).take(i + 1).last() == opt_views(items@)[i as int]);
        match &items[i] {
            Some(s) => {
                let t = trim_chars(&chars_of(s.as_str()));
                if t.len() > 0 {
                    out.push(string_of(&t));
                    assert(out@.map_values(|s: String| s@) =~= before.map_values(|s: String| s@).push(
                        t@,
                    ));
                }
            },
            None => {},
        }
        i += 1;
    }
    assert(opt_views(items@).take(items@.len() as int) =~= opt_views(items@));
    out
}

/// Index of the last occurrence of `c`, or -1.
pub open spec fn last_index_of(s: Seq<char>, c: char) -> int
    decreases s.len(),
{
    if s.len() == 0 {
        -1
    } else if s.last() == c {
        s.len() - 1
    } else {
        last_index_of(s.drop_last(), c)
    }
}

/// The text from the first `{` to the last `}` of an answer, where a JSON
/// object wrapped in other text would be.
pub open spec fn spec_json_object_slice(s: Seq<char>) -> Result<Seq<char>, Seq<char>> {
    let start = index_of(s, '{');
    let end = last_index_of(s, '}');
    if start < 0 {
        Err("json start not found"@)
    } else if end < 0 {
        Err("json end not found"@)
    } else if end <= start {
        Err("invalid json wrapper"@)
    } else {
        Ok(s.subrange(start, end + 1))
    }
}

proof fn lemma_last_index_of(s: Seq<char>, c: char, i: int)
    requires
        (i == -1 && forall|j: int| 0 <= j < s.len() ==> s[j] != c) || (0 <= i < s.len() && s[i]
            == c && forall|j: int| i < j < s.len() ==> s[j] != c),
    ensures
        last_index_of(s, c) == i,
    decreases s.len(),
{
    if s.len() > 0 && s.last() != c {
        lemma_last_index_of(s.drop_last(), c, i);
    }
}

/// Cuts the JSON object out of an answer that wraps it in other text (see
/// `spec_json_object_slice`).
pub fn json_object_slice(content: &str) -> (r: Result<String, String>)
    ensures
        match (r, spec_json_object_slice(content@)) {
            (Ok(t), Ok(st)) => t@ == st,
            (Err(e), Err(se)) => e@ == se,
            _ => false,
        },
{
    let v = chars_of(content);
    let start = match find_char(&v, '{') {
        Some(i) => i,
        None => {
            return Err(String::from_str("json start not found"));
        },
    };
    let end = match rfind_char(&v, '}') {
        Some(j) => j,
        None => {
            proof {
                lemma_last_index_of(v@, '}', -1);
            }
            return Err(String::from_str("json end not found"));
        },
    };
    proof {
        lemma_last_index_of(v@, '}', end as int);
    }
    if end <= start {
        return Err(String::from_str("invalid json wrapper"));
    }
    Ok(string_of(&slice_chars(&v, start, end + 1)))
}


// ---------------------------------------------------------------------------
// Provider failover
// ---------------------------------------------------------------------------

/// What the model API does next while working through its provider route.
#[derive(Debug, PartialEq, Eq)]
pub enum FailoverStep {
    /// Call the provider at this position of the route.
    Call { index: usize },
    /// Give up with this error.
    Fail { message: String },
}

/// The first position at or after `from` whose provider is configured and
/// enabled, or the route's length when there is none.
pub open spec fn next_enabled(enabled: Seq<bool>, from: int) -> int
    decreases enabled.len() - from,
{
    if from >= enabled.len() {
        enabled.len() as int
    } else if enabled[from] {
        from
    } else {
        next_enabled(enabled, from + 1)
    }
}

/// `items` joined with `sep` between them.
pub open spec fn joined(items: Seq<Seq<char>>, sep: Seq<char>) -> Seq<char>
    decreases items.len(),
{
    if items.len() == 0 {
        Seq::empty()
    } else if items.len() == 1 {
        items[0]
    } else {
        joined(items.drop_last(), sep) + sep + items.last()
    }
}

/// The failover decision: an empty route is an error; otherwise the next
/// enabled provider from `from` on is called; past the end, the attempt fails,
/// with the providers' errors when any was called.
pub open spec fn spec_failover_step(enabled: Seq<bool>, from: int, errors: Seq<Seq<char>>) -> Result<
    int,
    Seq<char>,
> {
    if enabled.len() == 0 {
        Err("ai provider route is empty"@)
    } else if next_enabled(enabled, from) < enabled.len() {
        Ok(next_enabled(enabled, from))
    } else if errors.len() == 0 {
        Err("no enabled ai provider in route"@)
    } else {
        Err("all ai providers failed: "@ + joined(errors, " | "@))
    }
}

/// Decides the next failover step (see `spec_failover_step`). `enabled`
/// tells, for each provider id of the route in order, whether it is
/// configured and enabled; `from` is the position after the last provider
/// called; `errors` are the errors of the providers called so far.
pub fn next_failover_step(enabled: &Vec<bool>, from: usize, errors: &Vec<String>) -> (r: FailoverStep)
    requires
        from <= enabled.len(),
    ensures
        match (r, spec_failover_step(enabled@, from as int, views_of(errors@))) {
            (FailoverStep::Call { index }, Ok(i)) => index == i,
            (FailoverStep::Fail { message }, Err(m)) => message@ == m,
            _ => false,
        },
{
    if enabled.len() == 0 {
        return FailoverStep::Fail { message: String::from_str("ai provider route is empty") };
    }
    let mut i = from;
    while i < enabled.len()
        invariant
            from <= i <= enabled.len(),
            next_enabled(enabled@, from as int) == next_enabled(enabled@, i as int),
        decreases enabled.len() - i,
    {
        if enabled[i] {
            return FailoverStep::Call { index: i };
        }
        i += 1;
    }
    if errors.len() == 0 {
        return FailoverStep::Fail { message: String::from_str("no enabled ai provider in route") };
    }
    let mut message = String::from_str("all ai providers failed: ");
    let ghost head = message@;
    let mut k: usize = 0;
    while k < errors.len()
        invariant
            k <= errors@.len(),
            head == "all ai providers failed: "@,
            message@ == head + joined(views_of(errors@).take(k as int), " | "@),
        decreases errors.len() - k,
    {
        proof {
            let t = views_of(errors@).take(k + 1);
            assert(t.drop_last() =~= views_of(errors@).take(k as int));
            assert(t.last() == errors@[k as int]@);
        }
        if k > 0 {
            message.append(" | ");
        }
        message.append(errors[k].as_str());
        k += 1;
    }
    assert(views_of(errors@).take(errors@.len() as int) =~= views_of(errors@));
    FailoverStep::Fail { message }
}

/// Views of a sequence of strings.
pub open spec fn views_of(s: Seq<String>) -> Seq<Seq<char>> {
    s.map_values(|x: String| x@)
}

} // verus!
