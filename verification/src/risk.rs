//! Pre-trade risk checks: kill switch, live lock, allowlists, trading sessions,
//! cooldowns, size and position limits, limit-price sanity and a per-minute
//! order rate limit.
use vstd::prelude::*;
use vstd::string::StringExecFns;
use std::collections::VecDeque;
use crate::text::{
    chars_eq, chars_eq_ignore_ascii_case, chars_of, decimal, decimal_chars, eq_ignore_ascii_case,
    find_char, split_once, string_of, trim, trim_chars, trim_range, upper, uppercase_range,
};
use crate::time::Timestamp;
use crate::types::{OrderSide, OrderType, ProfileMode, SessionWindowUtc, TimeControls};

verus! {

/// Order limits enforced before any order is routed. (The daily-loss and
/// price-band thresholds are floating-point settings kept by the host.)
#[derive(Debug, Clone)]
pub struct RiskLimits {
    /// Max absolute position per symbol (shares).
    pub max_position_qty: u32,
    /// Max order size (shares) for a single order.
    pub max_order_qty: u32,
    /// Max orders/minute across the engine.
    pub max_orders_per_minute: u32,
    /// If non-empty, only these symbols are tradable.
    pub symbol_allowlist: Vec<String>,
    /// If non-empty, only these markets are tradable (symbol prefixes), e.g. ["US", "HK"].
    pub allowed_markets: Vec<String>,
}

impl Default for RiskLimits {
    fn default() -> (l: Self)
        ensures
            l.max_position_qty == 100,
            l.max_order_qty == 25,
            l.max_orders_per_minute == 10,
            l.symbol_allowlist@.len() == 0,
            l.allowed_markets@.len() == 0,
    {
        RiskLimits {
            max_position_qty: 100,
            max_order_qty: 25,
            max_orders_per_minute: 10,
            symbol_allowlist: Vec::new(),
            allowed_markets: Vec::new(),
        }
    }
}

/// Why an order was refused.
#[derive(Debug)]
pub struct RiskReject {
    pub reason: String,
}

/// The price-free part of an order request that the risk checks read.
#[derive(Debug, Clone)]
pub struct OrderTicket {
    pub symbol: String,
    pub side: OrderSide,
    pub qty: u32,
    pub order_type: OrderType,
}

/// Outcome of the limit-price sanity check for a limit order, in the order the
/// checks are made: a limit price must be present, positive, and within the
/// price band around the last traded price.
#[derive(Debug, Clone)]
pub enum LimitPriceCheck {
    MissingPrice,
    NonPositive,
    NoQuote,
    /// Outside the band; `reason` says which price and band.
    OutOfBand { reason: String },
    InBand,
}

/// Everything one order validation reads besides the engine's own state.
pub struct OrderValidationCtx<'a> {
    pub now: Timestamp,
    pub mode: ProfileMode,
    pub live_trading_unlocked: bool,
    pub kill_switch_engaged: bool,
    pub halted: bool,
    pub time_controls: &'a TimeControls,
    pub req: &'a OrderTicket,
    /// Result of the limit-price check (read for limit orders only).
    pub limit_price: LimitPriceCheck,
    /// Current position in the order's symbol, if any.
    pub position_qty: Option<i64>,
}

/// Abstract state of the risk engine: accepted order times still inside the
/// rate window, and the last accepted order time per symbol (a symbol's entry
/// is its first occurrence).
pub struct RiskView {
    pub order_times: Seq<Timestamp>,
    pub last_order_by_symbol: Seq<(Seq<char>, Timestamp)>,
}

/// Risk state that persists between orders.
#[derive(Debug)]
pub struct RiskEngine {
    limits: RiskLimits,
    order_times: VecDeque<Timestamp>,
    last_order_by_symbol: Vec<(String, Timestamp)>,
}

impl View for RiskEngine {
    type V = RiskView;

    closed spec fn view(&self) -> RiskView {
        RiskView {
            order_times: self.order_times@,
            last_order_by_symbol: self.last_order_by_symbol@.map_values(
                |p: (String, Timestamp)| (p.0@, p.1),
            ),
        }
    }
}

// ---------------------------------------------------------------------------
// Specification
// ---------------------------------------------------------------------------

/// Decimal digits of an ASCII character.
pub open spec fn is_digit(c: char) -> bool {
    '0' <= c <= '9'
}

/// Value of a run of decimal digits.
pub open spec fn digits_value(s: Seq<char>) -> nat
    decreases s.len(),
{
    if s.len() == 0 {
        0
    } else {
        digits_value(s.drop_last()) * 10 + ((s.last() as u32) - ('0' as u32)) as nat
    }
}

/// The digits part of an unsigned number: without a leading `+`.
pub open spec fn unsigned_digits(s: Seq<char>) -> Seq<char> {
    if s.len() > 0 && s[0] == '+' {
        s.drop_first()
    } else {
        s
    }
}

/// Every character is a decimal digit.
pub open spec fn all_digits(d: Seq<char>) -> bool {
    forall|i: int| 0 <= i < d.len() ==> is_digit(#[trigger] d[i])
}

/// `str::parse::<u32>`: an optional `+`, then one or more decimal digits whose
/// value fits in a `u32`.
pub open spec fn spec_parse_u32(s: Seq<char>) -> Option<u32> {
    let d = unsigned_digits(s);
    if d.len() > 0 && all_digits(d) && digits_value(d) <= u32::MAX {
        Some(digits_value(d) as u32)
    } else {
        None
    }
}

/// Minutes after midnight of a trimmed `"HH:MM"` text with `HH <= 23`, `MM <= 59`.
pub open spec fn spec_parse_hhmm_to_minutes(s: Seq<char>) -> Option<u32> {
    match split_once(trim(s), ':') {
        Some((h, m)) => match (spec_parse_u32(h), spec_parse_u32(m)) {
            (Some(hv), Some(mv)) => if hv <= 23 && mv <= 59 {
                Some((hv * 60 + mv) as u32)
            } else {
                None
            },
            _ => None,
        },
        None => None,
    }
}

/// Whether `now` falls in the window: on one of its weekdays (any day when none
/// are listed), with both bounds valid, and inside `[start, end)` — a window
/// whose start is after its end runs across midnight, one whose start equals its
/// end is empty.
pub open spec fn spec_window_contains_utc(w: SessionWindowUtc, now: Timestamp) -> bool {
    let wd = now.spec_weekday();
    if w.weekdays@.len() > 0 && !(exists|i: int|
        0 <= i < w.weekdays@.len() && w.weekdays@[i] as int == wd) {
        false
    } else {
        match (
            spec_parse_hhmm_to_minutes(w.start_hhmm@),
            spec_parse_hhmm_to_minutes(w.end_hhmm@),
        ) {
            (Some(start), Some(end)) => {
                let mins = now.spec_hour() * 60 + now.spec_minute();
                if start == end {
                    false
                } else if start < end {
                    start <= mins < end
                } else {
                    mins >= start || mins < end
                }
            },
            _ => false,
        }
    }
}

/// Whether any window of `ws` holds `now`.
pub open spec fn spec_any_window(ws: Seq<SessionWindowUtc>, now: Timestamp) -> bool {
    exists|i: int| 0 <= i < ws.len() && spec_window_contains_utc(ws[i], now)
}

/// The market prefix the risk checks use: the trimmed prefix before the first
/// `.`, upper-cased; `"US"` when there is none.
pub open spec fn spec_symbol_market_prefix(s: Seq<char>) -> Seq<char> {
    match split_once(trim(s), '.') {
        Some((p, _)) => if trim(p).len() > 0 {
            upper(trim(p))
        } else {
            seq!['U', 'S']
        },
        None => seq!['U', 'S'],
    }
}

/// Index of the first entry for `k`, or -1.
pub open spec fn key_index(s: Seq<(Seq<char>, Timestamp)>, k: Seq<char>) -> int
    decreases s.len(),
{
    if s.len() == 0 {
        -1
    } else if s[0].0 == k {
        0
    } else {
        let r = key_index(s.drop_first(), k);
        if r < 0 {
            -1
        } else {
            r + 1
        }
    }
}

/// The time recorded for `k`.
pub open spec fn lookup_time(s: Seq<(Seq<char>, Timestamp)>, k: Seq<char>) -> Option<Timestamp> {
    let i = key_index(s, k);
    if i < 0 {
        None
    } else {
        Some(s[i].1)
    }
}

/// Records `t` for `k`, replacing the entry for `k` if there is one.
pub open spec fn put_time(s: Seq<(Seq<char>, Timestamp)>, k: Seq<char>, t: Timestamp) -> Seq<
    (Seq<char>, Timestamp),
> {
    let i = key_index(s, k);
    if i < 0 {
        s.push((k, t))
    } else {
        s.update(i, (k, t))
    }
}

/// Drops the leading order times that are more than 60 seconds before `now`.
pub open spec fn spec_prune(q: Seq<Timestamp>, now: Timestamp) -> Seq<Timestamp>
    decreases q.len(),
{
    if q.len() > 0 && now.total_nanos() - q[0].total_nanos() > 60_000_000_000 {
        spec_prune(q.drop_first(), now)
    } else {
        q
    }
}

/// Position after the order would fill.
pub open spec fn spec_new_qty(ctx: OrderValidationCtx) -> int {
    let pos = match ctx.position_qty {
        Some(p) => p as int,
        None => 0,
    };
    match ctx.req.side {
        OrderSide::Buy => pos + ctx.req.qty,
        OrderSide::Sell => pos - ctx.req.qty,
    }
}

pub open spec fn halted_reason() -> Seq<char> {
    "engine halted/kill-switch engaged"@
}

pub open spec fn live_locked_reason() -> Seq<char> {
    "live trading is locked (complete Enable Live Trading workflow)"@
}

pub open spec fn allowlist_reason(sym: Seq<char>) -> Seq<char> {
    "symbol "@ + sym + " not in allowlist"@
}

pub open spec fn market_reason(mkt: Seq<char>, sym: Seq<char>) -> Seq<char> {
    "market "@ + mkt + " not allowed for symbol "@ + sym
}

pub open spec fn session_reason() -> Seq<char> {
    "outside allowed trading sessions (UTC)"@
}

pub open spec fn blackout_reason() -> Seq<char> {
    "inside blackout window (UTC)"@
}

pub open spec fn cooldown_reason(sym: Seq<char>, cd: u32) -> Seq<char> {
    "cooldown active for "@ + sym + " ("@ + decimal(cd as nat) + "s)"@
}

pub open spec fn zero_qty_reason() -> Seq<char> {
    "qty must be > 0"@
}

pub open spec fn order_qty_reason(qty: u32, max: u32) -> Seq<char> {
    "order qty "@ + decimal(qty as nat) + " exceeds max_order_qty "@ + decimal(max as nat)
}

pub open spec fn short_reason() -> Seq<char> {
    "short selling not allowed in MVP (would go negative)"@
}

pub open spec fn position_reason(new_qty: nat, max: u32) -> Seq<char> {
    "position limit exceeded: new_qty="@ + decimal(new_qty) + " > max_position_qty="@ + decimal(
        max as nat,
    )
}

pub open spec fn missing_price_reason() -> Seq<char> {
    "limit order requires limit_price"@
}

pub open spec fn non_positive_price_reason() -> Seq<char> {
    "limit_price must be > 0"@
}

pub open spec fn no_quote_reason() -> Seq<char> {
    "no market price available for price sanity check"@
}

pub open spec fn rate_reason(max: u32) -> Seq<char> {
    "rate limit: max_orders_per_minute "@ + decimal(max as nat) + " exceeded"@
}

/// The first reason among the checks made before the position is looked at.
pub open spec fn spec_gate_reason(
    limits: RiskLimits,
    last: Seq<(Seq<char>, Timestamp)>,
    ctx: OrderValidationCtx,
) -> Option<Seq<char>> {
    let sym = ctx.req.symbol@;
    let tc = ctx.time_controls;
    let mkt = spec_symbol_market_prefix(sym);
    if ctx.kill_switch_engaged || ctx.halted {
        Some(halted_reason())
    } else if ctx.mode == ProfileMode::Live && !ctx.live_trading_unlocked {
        Some(live_locked_reason())
    } else if limits.symbol_allowlist@.len() > 0 && !(exists|i: int|
        0 <= i < limits.symbol_allowlist@.len() && eq_ignore_ascii_case(
            #[trigger] limits.symbol_allowlist@[i]@,
            sym,
        )) {
        Some(allowlist_reason(sym))
    } else if limits.allowed_markets@.len() > 0 && !(exists|i: int|
        0 <= i < limits.allowed_markets@.len() && eq_ignore_ascii_case(
            #[trigger] limits.allowed_markets@[i]@,
            mkt,
        )) {
        Some(market_reason(mkt, sym))
    } else if tc.enabled && !(tc.sessions_utc@.len() == 0 || spec_any_window(
        tc.sessions_utc@,
        ctx.now,
    )) {
        Some(session_reason())
    } else if tc.enabled && spec_any_window(tc.blackout_utc@, ctx.now) {
        Some(blackout_reason())
    } else if tc.enabled && tc.cooldown_sec > 0 && (match lookup_time(last, sym) {
        Some(t) => ctx.now.total_nanos() - t.total_nanos() < tc.cooldown_sec * 1_000_000_000,
        None => false,
    }) {
        Some(cooldown_reason(sym, tc.cooldown_sec))
    } else if ctx.req.qty == 0 {
        Some(zero_qty_reason())
    } else if ctx.req.qty > limits.max_order_qty {
        Some(order_qty_reason(ctx.req.qty, limits.max_order_qty))
    } else {
        None
    }
}

/// The first reason among the position and limit-price checks.
pub open spec fn spec_order_reason(limits: RiskLimits, ctx: OrderValidationCtx) -> Option<
    Seq<char>,
> {
    let new_qty = spec_new_qty(ctx);
    if new_qty < 0 {
        Some(short_reason())
    } else if new_qty > limits.max_position_qty {
        Some(position_reason(new_qty as nat, limits.max_position_qty))
    } else if ctx.req.order_type == OrderType::Limit {
        match ctx.limit_price {
            LimitPriceCheck::MissingPrice => Some(missing_price_reason()),
            LimitPriceCheck::NonPositive => Some(non_positive_price_reason()),
            LimitPriceCheck::NoQuote => Some(no_quote_reason()),
            LimitPriceCheck::OutOfBand { reason } => Some(reason@),
            LimitPriceCheck::InBand => None,
        }
    } else {
        None
    }
}

/// The outcome of one validation and the state it leaves: the first failing
/// check gives the reason; once every check before the rate limit has passed,
/// expired order times are dropped; an accepted order records its time, and,
/// when a cooldown applies, its time per symbol.
pub open spec fn spec_validate(
    limits: RiskLimits,
    s: RiskView,
    ctx: OrderValidationCtx,
) -> (Result<(), Seq<char>>, RiskView) {
    match spec_gate_reason(limits, s.last_order_by_symbol, ctx) {
        Some(r) => (Err(r), s),
        None => match spec_order_reason(limits, ctx) {
            Some(r) => (Err(r), s),
            None => {
                let pruned = spec_prune(s.order_times, ctx.now);
                if pruned.len() >= limits.max_orders_per_minute {
                    (
                        Err(rate_reason(limits.max_orders_per_minute)),
                        RiskView { order_times: pruned, last_order_by_symbol: s.last_order_by_symbol },
                    )
                } else {
                    let tc = ctx.time_controls;
                    (
                        Ok(()),
                        RiskView {
                            order_times: pruned.push(ctx.now),
                            last_order_by_symbol: if tc.enabled && tc.cooldown_sec > 0 {
                                put_time(s.last_order_by_symbol, ctx.req.symbol@, ctx.now)
                            } else {
                                s.last_order_by_symbol
                            },
                        },
                    )
                }
            },
        },
    }
}

// ---------------------------------------------------------------------------
// Facts
// ---------------------------------------------------------------------------

proof fn lemma_key_index(s: Seq<(Seq<char>, Timestamp)>, k: Seq<char>, i: int)
    requires
        (i == -1 && forall|j: int| 0 <= j < s.len() ==> s[j].0 != k) || (0 <= i < s.len() && s[i].0
            == k && forall|j: int| 0 <= j < i ==> s[j].0 != k),
    ensures
        key_index(s, k) == i,
    decreases s.len(),
{
    if s.len() > 0 && s[0].0 != k {
        let t = s.drop_first();
        if i == -1 {
            assert forall|j: int| 0 <= j < t.len() implies t[j].0 != k by {
                assert(t[j] == s[j + 1]);
            }
            lemma_key_index(t, k, -1);
        } else {
            assert forall|j: int| 0 <= j < i - 1 implies t[j].0 != k by {
                assert(t[j] == s[j + 1]);
            }
            lemma_key_index(t, k, i - 1);
        }
    }
}

proof fn lemma_key_index_range(s: Seq<(Seq<char>, Timestamp)>, k: Seq<char>)
    ensures
        -1 <= key_index(s, k) < s.len(),
        key_index(s, k) >= 0 ==> s[key_index(s, k)].0 == k,
        forall|j: int|
            0 <= j < s.len() && (key_index(s, k) < 0 || j < key_index(s, k)) ==> s[j].0 != k,
    decreases s.len(),
{
    if s.len() > 0 && s[0].0 != k {
        let t = s.drop_first();
        lemma_key_index_range(t, k);
        assert forall|j: int|
            0 <= j < s.len() && (key_index(s, k) < 0 || j < key_index(s, k)) implies s[j].0
            != k by {
            if j > 0 {
                assert(s[j] == t[j - 1]);
            }
        }
    }
}

/// After recording `t` for `k`, looking `k` up gives `t`.
proof fn lemma_put_then_lookup(s: Seq<(Seq<char>, Timestamp)>, k: Seq<char>, t: Timestamp)
    ensures
        lookup_time(put_time(s, k, t), k) == Some(t),
{
    lemma_key_index_range(s, k);
    let i = key_index(s, k);
    let s2 = put_time(s, k, t);
    if i < 0 {
        assert forall|j: int| 0 <= j < s.len() implies s2[j].0 != k by {
            assert(s2[j] == s[j]);
        }
        lemma_key_index(s2, k, s.len() as int);
    } else {
        assert forall|j: int| 0 <= j < i implies s2[j].0 != k by {
            assert(s2[j] == s[j]);
        }
        lemma_key_index(s2, k, i);
    }
}

/// Pruning keeps a suffix of the order times.
proof fn lemma_prune_suffix(q: Seq<Timestamp>, now: Timestamp)
    ensures
        spec_prune(q, now).len() <= q.len(),
        spec_prune(q, now) == q.subrange(q.len() - spec_prune(q, now).len(), q.len() as int),
    decreases q.len(),
{
    if q.len() > 0 && now.total_nanos() - q[0].total_nanos() > 60_000_000_000 {
        lemma_prune_suffix(q.drop_first(), now);
        let p = spec_prune(q.drop_first(), now);
        assert(q.drop_first().subrange(q.len() - 1 - p.len(), q.len() - 1) =~= q.subrange(
            q.len() - p.len(),
            q.len() as int,
        ));
    } else {
        assert(q.subrange(0, q.len() as int) =~= q);
    }
}

proof fn lemma_digits_value_grows(s: Seq<char>, n: int)
    requires
        0 <= n <= s.len(),
        forall|i: int| 0 <= i < s.len() ==> is_digit(#[trigger] s[i]),
    ensures
        digits_value(s.subrange(0, n)) <= digits_value(s),
    decreases s.len() - n,
{
    if n < s.len() {
        lemma_digits_value_grows(s, n + 1);
        assert(s.subrange(0, n + 1).drop_last() =~= s.subrange(0, n));
    } else {
        assert(s.subrange(0, n) =~= s);
    }
}

// ---------------------------------------------------------------------------
// Laws
// ---------------------------------------------------------------------------

/// With the kill switch engaged or the engine halted, every order is refused
/// with the halt reason, and the risk state is left as it was.
pub proof fn law_halt_refuses_everything(limits: RiskLimits, s: RiskView, ctx: OrderValidationCtx)
    requires
        ctx.kill_switch_engaged || ctx.halted,
    ensures
        spec_validate(limits, s, ctx) == (Err::<(), Seq<char>>(halted_reason()), s),
{
}

/// A live-mode order is refused while live trading is locked, and the risk
/// state is left as it was.
pub proof fn law_live_locked_refuses(limits: RiskLimits, s: RiskView, ctx: OrderValidationCtx)
    requires
        ctx.mode == ProfileMode::Live,
        !ctx.live_trading_unlocked,
    ensures
        spec_validate(limits, s, ctx).0 is Err,
        spec_validate(limits, s, ctx).1 == s,
{
}

/// An accepted order respects every limit: a positive size within
/// `max_order_qty`, no short position, a position within `max_position_qty`,
/// a listed symbol and market when lists are set, the trading sessions when
/// time controls are on; it is recorded, and at most `max_orders_per_minute`
/// orders are then held in the 60-second window.
pub proof fn law_accepted_order_within_limits(
    limits: RiskLimits,
    s: RiskView,
    ctx: OrderValidationCtx,
)
    requires
        spec_validate(limits, s, ctx).0 is Ok,
    ensures
        !ctx.kill_switch_engaged && !ctx.halted,
        ctx.mode == ProfileMode::Live ==> ctx.live_trading_unlocked,
        1 <= ctx.req.qty <= limits.max_order_qty,
        0 <= spec_new_qty(ctx),
        spec_new_qty(ctx) <= limits.max_position_qty,
        limits.symbol_allowlist@.len() > 0 ==> exists|i: int|
            0 <= i < limits.symbol_allowlist@.len() && eq_ignore_ascii_case(
                #[trigger] limits.symbol_allowlist@[i]@,
                ctx.req.symbol@,
            ),
        limits.allowed_markets@.len() > 0 ==> exists|i: int|
            0 <= i < limits.allowed_markets@.len() && eq_ignore_ascii_case(
                #[trigger] limits.allowed_markets@[i]@,
                spec_symbol_market_prefix(ctx.req.symbol@),
            ),
        ctx.time_controls.enabled ==> !spec_any_window(ctx.time_controls.blackout_utc@, ctx.now),
        ctx.time_controls.enabled && ctx.time_controls.sessions_utc@.len() > 0 ==> spec_any_window(
            ctx.time_controls.sessions_utc@,
            ctx.now,
        ),
        ctx.req.order_type == OrderType::Limit ==> ctx.limit_price is InBand,
        spec_validate(limits, s, ctx).1.order_times.last() == ctx.now,
        spec_validate(limits, s, ctx).1.order_times.len() <= limits.max_orders_per_minute,
{
}

/// The market list is checked against the order's market prefix (the text
/// before the first `.`, upper-cased; `US` when there is none), ignoring
/// ASCII case: with a non-empty list an accepted order's market is listed,
/// and an order whose market is listed is treated exactly as it would be with
/// no market list at all, the other limits being the same.
pub proof fn law_market_list_checks_the_market_prefix(
    limits: RiskLimits,
    unlisted: RiskLimits,
    s: RiskView,
    ctx: OrderValidationCtx,
)
    requires
        unlisted.max_position_qty == limits.max_position_qty,
        unlisted.max_order_qty == limits.max_order_qty,
        unlisted.max_orders_per_minute == limits.max_orders_per_minute,
        unlisted.symbol_allowlist@ == limits.symbol_allowlist@,
        unlisted.allowed_markets@.len() == 0,
    ensures
        spec_validate(limits, s, ctx).0 is Ok && limits.allowed_markets@.len() > 0 ==> exists|i: int|
            0 <= i < limits.allowed_markets@.len() && eq_ignore_ascii_case(
                #[trigger] limits.allowed_markets@[i]@,
                spec_symbol_market_prefix(ctx.req.symbol@),
            ),
        (exists|i: int|
            0 <= i < limits.allowed_markets@.len() && eq_ignore_ascii_case(
                #[trigger] limits.allowed_markets@[i]@,
                spec_symbol_market_prefix(ctx.req.symbol@),
            )) ==> spec_validate(limits, s, ctx) == spec_validate(unlisted, s, ctx),
{
}

/// An order within every limit is accepted: not halted, live trading
/// unlocked in a live profile, its symbol and its market prefix listed (when
/// lists are set), inside the sessions and outside the blackouts and the
/// symbol's cooldown (when time controls are on), a positive size within
/// `max_order_qty`, a resulting position between 0 and `max_position_qty`, a
/// limit price within the band, and fewer than `max_orders_per_minute`
/// orders left in the 60-second window. Its time is then recorded.
pub proof fn law_order_within_limits_is_accepted(limits: RiskLimits, s: RiskView, ctx: OrderValidationCtx)
    requires
        !ctx.kill_switch_engaged,
        !ctx.halted,
        ctx.mode == ProfileMode::Live ==> ctx.live_trading_unlocked,
        limits.symbol_allowlist@.len() > 0 ==> exists|i: int|
            0 <= i < limits.symbol_allowlist@.len() && eq_ignore_ascii_case(
                #[trigger] limits.symbol_allowlist@[i]@,
                ctx.req.symbol@,
            ),
        limits.allowed_markets@.len() > 0 ==> exists|i: int|
            0 <= i < limits.allowed_markets@.len() && eq_ignore_ascii_case(
                #[trigger] limits.allowed_markets@[i]@,
                spec_symbol_market_prefix(ctx.req.symbol@),
            ),
        ctx.time_controls.enabled && ctx.time_controls.sessions_utc@.len() > 0 ==> spec_any_window(
            ctx.time_controls.sessions_utc@,
            ctx.now,
        ),
        ctx.time_controls.enabled ==> !spec_any_window(ctx.time_controls.blackout_utc@, ctx.now),
        ctx.time_controls.enabled && ctx.time_controls.cooldown_sec > 0 ==> (lookup_time(
            s.last_order_by_symbol,
            ctx.req.symbol@,
        ) matches Some(t) ==> ctx.now.total_nanos() - t.total_nanos()
            >= ctx.time_controls.cooldown_sec * 1_000_000_000),
        1 <= ctx.req.qty <= limits.max_order_qty,
        0 <= spec_new_qty(ctx) <= limits.max_position_qty,
        ctx.req.order_type == OrderType::Limit ==> ctx.limit_price is InBand,
        spec_prune(s.order_times, ctx.now).len() < limits.max_orders_per_minute,
    ensures
        spec_validate(limits, s, ctx).0 is Ok,
        spec_validate(limits, s, ctx).1.order_times == spec_prune(s.order_times, ctx.now).push(
            ctx.now,
        ),
{
}

/// A refused order leaves the per-symbol cooldown record untouched and keeps
/// a suffix of the order-time window.
pub proof fn law_refused_order_keeps_history(limits: RiskLimits, s: RiskView, ctx: OrderValidationCtx)
    requires
        spec_validate(limits, s, ctx).0 is Err,
    ensures
        spec_validate(limits, s, ctx).1.last_order_by_symbol == s.last_order_by_symbol,
        ({
            let q = spec_validate(limits, s, ctx).1.order_times;
            &&& q.len() <= s.order_times.len()
            &&& q == s.order_times.subrange(s.order_times.len() - q.len(), s.order_times.len() as int)
        }),
{
    lemma_prune_suffix(s.order_times, ctx.now);
}

/// Once an order for a symbol is accepted under a cooldown, any order for the
/// same symbol made less than the cooldown later is refused.
pub proof fn law_cooldown_refuses_repeat(
    limits1: RiskLimits,
    limits2: RiskLimits,
    s0: RiskView,
    ctx1: OrderValidationCtx,
    ctx2: OrderValidationCtx,
)
    requires
        spec_validate(limits1, s0, ctx1).0 is Ok,
        ctx1.time_controls.enabled,
        ctx1.time_controls.cooldown_sec > 0,
        ctx2.time_controls.enabled,
        ctx2.time_controls.cooldown_sec > 0,
        ctx2.req.symbol@ == ctx1.req.symbol@,
        ctx2.now.total_nanos() - ctx1.now.total_nanos() < ctx2.time_controls.cooldown_sec
            * 1_000_000_000,
    ensures
        spec_validate(limits2, spec_validate(limits1, s0, ctx1).1, ctx2).0 is Err,
{
    lemma_put_then_lookup(s0.last_order_by_symbol, ctx1.req.symbol@, ctx1.now);
}

// ---------------------------------------------------------------------------
// The rate limit over a sequence of orders
// ---------------------------------------------------------------------------

/// Validating orders one after another with the same limits: whether each
/// was accepted, the times of the accepted ones in order, and the final state.
pub open spec fn spec_validate_run(limits: RiskLimits, s: RiskView, ctxs: Seq<OrderValidationCtx>) -> (
    Seq<bool>,
    Seq<Timestamp>,
    RiskView,
)
    decreases ctxs.len(),
{
    if ctxs.len() == 0 {
        (Seq::empty(), Seq::empty(), s)
    } else {
        let (oks, acc, st) = spec_validate_run(limits, s, ctxs.drop_last());
        let c = ctxs.last();
        let (r, st2) = spec_validate(limits, st, c);
        (oks.push(r is Ok), if r is Ok {
            acc.push(c.now)
        } else {
            acc
        }, st2)
    }
}

/// How many of `times` lie within the 60 seconds up to `t` (`t` included, a
/// time after `t` not).
pub open spec fn window_count(times: Seq<Timestamp>, t: Timestamp) -> nat
    decreases times.len(),
{
    if times.len() == 0 {
        0
    } else {
        window_count(times.drop_last(), t) + (if 0 <= t.total_nanos() - times.last().total_nanos()
            <= 60_000_000_000 {
            1nat
        } else {
            0nat
        })
    }
}

/// Order times never decrease along `ctxs`.
pub open spec fn times_nondecreasing(ctxs: Seq<OrderValidationCtx>) -> bool {
    forall|a: int, b: int|
        0 <= a <= b < ctxs.len() ==> (#[trigger] ctxs[a]).now.total_nanos() <= (
        #[trigger] ctxs[b]).now.total_nanos()
}

proof fn lemma_prune_drops(q: Seq<Timestamp>, now: Timestamp) -> (d: int)
    ensures
        0 <= d <= q.len(),
        spec_prune(q, now) == q.skip(d),
        forall|m: int| 0 <= m < d ==> now.total_nanos() - (#[trigger] q[m]).total_nanos() > 60_000_000_000,
    decreases q.len(),
{
    if q.len() > 0 && now.total_nanos() - q[0].total_nanos() > 60_000_000_000 {
        let d1 = lemma_prune_drops(q.drop_first(), now);
        assert(q.drop_first().skip(d1) =~= q.skip(d1 + 1));
        assert forall|m: int| 0 <= m < d1 + 1 implies now.total_nanos() - (
        #[trigger] q[m]).total_nanos() > 60_000_000_000 by {
            if m > 0 {
                assert(q[m] == q.drop_first()[m - 1]);
            }
        }
        d1 + 1
    } else {
        assert(q.skip(0) =~= q);
        0
    }
}

/// With its first `d` times more than 60 seconds before `t`, at most the
/// others lie in the window up to `t`.
proof fn lemma_window_count_bound(s: Seq<Timestamp>, t: Timestamp, d: int)
    requires
        0 <= d <= s.len(),
        forall|m: int| 0 <= m < d ==> t.total_nanos() - (#[trigger] s[m]).total_nanos() > 60_000_000_000,
    ensures
        window_count(s, t) <= s.len() - d,
    decreases s.len(),
{
    if s.len() > 0 {
        let init = s.drop_last();
        let d2 = if d == s.len() { d - 1 } else { d };
        assert forall|m: int| 0 <= m < d2 implies t.total_nanos() - (
        #[trigger] init[m]).total_nanos() > 60_000_000_000 by {
            assert(init[m] == s[m]);
        }
        lemma_window_count_bound(init, t, d2);
        if d == s.len() {
            assert(s.last() == s[s.len() - 1]);
        }
    }
}

/// When every time is at or before `now` and `now` is at or before `t`, the
/// window up to `t` holds no more of them than the window up to `now`.
proof fn lemma_window_count_later(s: Seq<Timestamp>, now: Timestamp, t: Timestamp)
    requires
        now.total_nanos() <= t.total_nanos(),
        forall|m: int| 0 <= m < s.len() ==> (#[trigger] s[m]).total_nanos() <= now.total_nanos(),
    ensures
        window_count(s, t) <= window_count(s, now),
    decreases s.len(),
{
    if s.len() > 0 {
        let init = s.drop_last();
        assert forall|m: int| 0 <= m < init.len() implies (#[trigger] init[m]).total_nanos()
            <= now.total_nanos() by {
            assert(init[m] == s[m]);
        }
        lemma_window_count_later(init, now, t);
        assert(s.last() == s[s.len() - 1]);
    }
}

proof fn lemma_validate_run_len(limits: RiskLimits, s0: RiskView, ctxs: Seq<OrderValidationCtx>)
    ensures
        spec_validate_run(limits, s0, ctxs).0.len() == ctxs.len(),
    decreases ctxs.len(),
{
    if ctxs.len() > 0 {
        lemma_validate_run_len(limits, s0, ctxs.drop_last());
    }
}

/// The order-time window ends with the accepted times but for a leading part
/// of them, each more than 60 seconds before any time `l` at or after every
/// order; every accepted time is at or before `l`.
proof fn lemma_window_holds_accepted(
    limits: RiskLimits,
    s0: RiskView,
    ctxs: Seq<OrderValidationCtx>,
    l: Timestamp,
) -> (b: int)
    requires
        forall|j: int| 0 <= j < ctxs.len() ==> (#[trigger] ctxs[j]).now.total_nanos() <= l.total_nanos(),
    ensures
        ({
            let (oks, acc, st) = spec_validate_run(limits, s0, ctxs);
            let t = st.order_times;
            &&& 0 <= b <= acc.len()
            &&& acc.len() - b <= t.len()
            &&& t.skip(t.len() - (acc.len() - b)) == acc.skip(b)
            &&& forall|m: int|
                0 <= m < b ==> l.total_nanos() - (#[trigger] acc[m]).total_nanos() > 60_000_000_000
            &&& forall|m: int| 0 <= m < acc.len() ==> (#[trigger] acc[m]).total_nanos() <= l.total_nanos()
        }),
    decreases ctxs.len(),
{
    if ctxs.len() == 0 {
        let t = s0.order_times;
        assert(t.skip(t.len() as int) =~= Seq::<Timestamp>::empty().skip(0));
        0
    } else {
        let init = ctxs.drop_last();
        assert forall|j: int| 0 <= j < init.len() implies (#[trigger] init[j]).now.total_nanos()
            <= l.total_nanos() by {
            assert(init[j] == ctxs[j]);
        }
        let b0 = lemma_window_holds_accepted(limits, s0, init, l);
        let (oks0, acc0, st0) = spec_validate_run(limits, s0, init);
        let c = ctxs.last();
        assert(c == ctxs[ctxs.len() - 1]);
        let (oks, acc, st) = spec_validate_run(limits, s0, ctxs);
        if spec_gate_reason(limits, st0.last_order_by_symbol, c) is Some || spec_order_reason(
            limits,
            c,
        ) is Some {
            b0
        } else {
            let t0 = st0.order_times;
            let n0 = acc0.len() - b0;
            let k0 = t0.len() - n0;
            let d1 = lemma_prune_drops(t0, c.now);
            let t1 = t0.skip(d1);
            let b1 = if d1 <= k0 {
                assert(t1.skip(k0 - d1) =~= t0.skip(k0));
                b0
            } else {
                let e = d1 - k0;
                assert(acc0.skip(b0).skip(e) =~= acc0.skip(b0 + e));
                assert(t0.skip(k0).skip(e) =~= t1);
                assert(t1.skip(0) =~= t1);
                assert forall|m: int| 0 <= m < b0 + e implies l.total_nanos() - (
                #[trigger] acc0[m]).total_nanos() > 60_000_000_000 by {
                    if m >= b0 {
                        assert(acc0.skip(b0)[m - b0] == acc0[m]);
                        assert(t0.skip(k0)[m - b0] == t0[k0 + m - b0]);
                    }
                }
                b0 + e
            };
            if spec_validate(limits, st0, c).0 is Ok {
                assert(acc == acc0.push(c.now));
                let n1 = acc0.len() - b1;
                let tt = t1.push(c.now);
                assert(tt.skip(tt.len() - (acc.len() - b1)) =~= t1.skip(t1.len() - n1).push(c.now));
                assert(acc.skip(b1) =~= acc0.skip(b1).push(c.now));
                assert forall|m: int| 0 <= m < b1 implies l.total_nanos() - (
                #[trigger] acc[m]).total_nanos() > 60_000_000_000 by {
                    assert(acc[m] == acc0[m]);
                }
                assert forall|m: int| 0 <= m < acc.len() implies (#[trigger] acc[m]).total_nanos()
                    <= l.total_nanos() by {
                    if m < acc0.len() {
                        assert(acc[m] == acc0[m]);
                    }
                }
            }
            b1
        }
    }
}

/// An accepted order sees at most `max_orders_per_minute` accepted orders,
/// itself included, in the 60 seconds up to its time.
proof fn lemma_accepted_order_window(limits: RiskLimits, s0: RiskView, ctxs: Seq<OrderValidationCtx>)
    requires
        ctxs.len() > 0,
        forall|j: int| 0 <= j < ctxs.len() ==> (#[trigger] ctxs[j]).now.total_nanos()
            <= ctxs.last().now.total_nanos(),
        spec_validate(
            limits,
            spec_validate_run(limits, s0, ctxs.drop_last()).2,
            ctxs.last(),
        ).0 is Ok,
    ensures
        window_count(spec_validate_run(limits, s0, ctxs).1, ctxs.last().now)
            <= limits.max_orders_per_minute,
{
    let now = ctxs.last().now;
    let b = lemma_window_holds_accepted(limits, s0, ctxs, now);
    let (oks, acc, st) = spec_validate_run(limits, s0, ctxs);
    assert(st.order_times.len() <= limits.max_orders_per_minute);
    lemma_window_count_bound(acc, now, b);
}

/// The rate limit holds for every minute: along any orders checked one after
/// another with the same limits, at non-decreasing times, on an engine in any
/// state, for every instant `t` at most `max_orders_per_minute` of the
/// accepted orders have times within the 60 seconds up to `t`. Refused
/// orders are not among the accepted times, so they use up no budget.
pub proof fn law_rate_limit_holds_for_every_minute(
    limits: RiskLimits,
    s0: RiskView,
    ctxs: Seq<OrderValidationCtx>,
    t: Timestamp,
)
    requires
        times_nondecreasing(ctxs),
    ensures
        window_count(spec_validate_run(limits, s0, ctxs).1, t) <= limits.max_orders_per_minute,
    decreases ctxs.len(),
{
    if ctxs.len() > 0 {
        let init = ctxs.drop_last();
        assert forall|a: int, b: int| 0 <= a <= b < init.len() implies (
        #[trigger] init[a]).now.total_nanos() <= (#[trigger] init[b]).now.total_nanos() by {
            assert(init[a] == ctxs[a] && init[b] == ctxs[b]);
        }
        law_rate_limit_holds_for_every_minute(limits, s0, init, t);
        let (oks0, acc0, st0) = spec_validate_run(limits, s0, init);
        let c = ctxs.last();
        assert(c == ctxs[ctxs.len() - 1]);
        let acc = spec_validate_run(limits, s0, ctxs).1;
        if spec_validate(limits, st0, c).0 is Ok {
            assert(acc == acc0.push(c.now));
            assert(acc.drop_last() =~= acc0);
            if t.total_nanos() < c.now.total_nanos() {
                assert(window_count(acc, t) == window_count(acc0, t));
            } else {
                assert forall|j: int| 0 <= j < ctxs.len() implies (#[trigger] ctxs[j]).now.total_nanos()
                    <= ctxs.last().now.total_nanos() by {
                    assert(ctxs[j].now.total_nanos() <= ctxs[ctxs.len() - 1].now.total_nanos());
                }
                let b = lemma_window_holds_accepted(limits, s0, ctxs, c.now);
                lemma_accepted_order_window(limits, s0, ctxs);
                lemma_window_count_later(acc, c.now, t);
            }
        }
    }
}

// ---------------------------------------------------------------------------
// Executable checks
// ---------------------------------------------------------------------------

/// Parses `v[lo..hi]` as `str::parse::<u32>` does.
fn parse_u32_range(v: &Vec<char>, lo: usize, hi: usize) -> (r: Option<u32>)
    requires
        lo <= hi <= v.len(),
    ensures
        r == spec_parse_u32(v@.subrange(lo as int, hi as int)),
{
    let ghost s = v@.subrange(lo as int, hi as int);
    let mut start = lo;
    if lo < hi && v[lo] == '+' {
        start = lo + 1;
    }
    let ghost d = v@.subrange(start as int, hi as int);
    assert(d =~= unsigned_digits(s));
    if start == hi {
        return None;
    }
    let mut val: u64 = 0;
    let mut i = start;
    while i < hi
        invariant
            lo <= start <= i <= hi <= v.len(),
            d == v@.subrange(start as int, hi as int),
            s == v@.subrange(lo as int, hi as int),
            d == unsigned_digits(s),
            forall|j: int| start <= j < i ==> is_digit(#[trigger] v@[j]),
            val as nat == digits_value(v@.subrange(start as int, i as int)),
            val <= u32::MAX,
        decreases hi - i,
    {
        let c = v[i];
        if !('0' <= c && c <= '9') {
            proof {
                assert(d[i - start] == v@[i as int]);
                assert(!is_digit(d[i - start]));
                assert(!all_digits(d));
                assert(spec_parse_u32(s) is None);
            }
            return None;
        }
        let digit = (c as u32 - '0' as u32) as u64;
        let next = val * 10 + digit;
        proof {
            assert(v@.subrange(start as int, i + 1).drop_last() =~= v@.subrange(
                start as int,
                i as int,
            ));
        }
        if next > u32::MAX as u64 {
            proof {
                if all_digits(d) {
                    lemma_digits_value_grows(d, i + 1 - start);
                    assert(d.subrange(0, i + 1 - start) =~= v@.subrange(start as int, i + 1));
                }
            }
            return None;
        }
        val = next;
        i += 1;
    }
    proof {
        assert(v@.subrange(start as int, i as int) =~= d);
    }
    Some(val as u32)
}

/// Minutes after midnight of an `"HH:MM"` text (`HH <= 23`, `MM <= 59`).
pub fn parse_hhmm_to_minutes(s: &str) -> (r: Option<u32>)
    ensures
        r == spec_parse_hhmm_to_minutes(s@),
{
    let v = chars_of(s);
    let t = trim_chars(&v);
    match find_char(&t, ':') {
        None => None,
        Some(k) => {
            let h = parse_u32_range(&t, 0, k);
            let m = parse_u32_range(&t, k + 1, t.len());
            match (h, m) {
                (Some(hv), Some(mv)) => {
                    if hv > 23 || mv > 59 {
                        None
                    } else {
                        Some(hv * 60 + mv)
                    }
                },
                _ => None,
            }
        },
    }
}

/// Whether a session window holds `now` (see `spec_window_contains_utc`).
pub fn window_contains_utc(w: &SessionWindowUtc, now: Timestamp) -> (b: bool)
    ensures
        b == spec_window_contains_utc(*w, now),
{
    let wd = now.weekday();
    if w.weekdays.len() > 0 {
        let mut found = false;
        let mut i: usize = 0;
        while i < w.weekdays.len()
            invariant
                i <= w.weekdays@.len(),
                found == (exists|j: int| 0 <= j < i && w.weekdays@[j] as int == wd as int),
            decreases w.weekdays.len() - i,
        {
            if w.weekdays[i] == wd {
                found = true;
            }
            i += 1;
        }
        if !found {
            return false;
        }
    }
    let start = match parse_hhmm_to_minutes(w.start_hhmm.as_str()) {
        Some(x) => x,
        None => return false,
    };
    let end = match parse_hhmm_to_minutes(w.end_hhmm.as_str()) {
        Some(x) => x,
        None => return false,
    };
    let mins = now.hour() * 60 + now.minute();
    if start == end {
        return false;
    }
    if start < end {
        start <= mins && mins < end
    } else {
        mins >= start || mins < end
    }
}

fn any_window(ws: &Vec<SessionWindowUtc>, now: Timestamp) -> (b: bool)
    ensures
        b == spec_any_window(ws@, now),
{
    let mut i: usize = 0;
    while i < ws.len()
        invariant
            i <= ws@.len(),
            forall|j: int| 0 <= j < i ==> !spec_window_contains_utc(#[trigger] ws@[j], now),
        decreases ws.len() - i,
    {
        if window_contains_utc(&ws[i], now) {
            return true;
        }
        i += 1;
    }
    false
}

/// The market prefix used by the allowed-markets check.
pub fn symbol_market_prefix(symbol: &str) -> (out: String)
    ensures
        out@ == spec_symbol_market_prefix(symbol@),
{
    let v = chars_of(symbol);
    let t = trim_chars(&v);
    let us = vec!['U', 'S'];
    assert(us@ =~= seq!['U', 'S']);
    if let Some(k) = find_char(&t, '.') {
        let (a, b) = trim_range(&t, 0, k);
        if a < b {
            return string_of(&uppercase_range(&t, a, b));
        }
    }
    string_of(&us)
}

/// Whether some entry of `list` equals `s` ignoring ASCII case.
fn any_eq_ignore_ascii_case(list: &Vec<String>, s: &Vec<char>) -> (b: bool)
    ensures
        b == exists|i: int| 0 <= i < list@.len() && eq_ignore_ascii_case(#[trigger] list@[i]@, s@),
{
    let mut i: usize = 0;
    while i < list.len()
        invariant
            i <= list@.len(),
            forall|j: int| 0 <= j < i ==> !eq_ignore_ascii_case(#[trigger] list@[j]@, s@),
        decreases list.len() - i,
    {
        let c = chars_of(list[i].as_str());
        if chars_eq_ignore_ascii_case(&c, s) {
            return true;
        }
        i += 1;
    }
    false
}

/// Nanoseconds from `a` to `b`.
fn nanos_between(a: Timestamp, b: Timestamp) -> (d: i128)
    ensures
        d == b.total_nanos() - a.total_nanos(),
{
    (b.secs as i128 - a.secs as i128) * 1_000_000_000 + (b.nanos as i128 - a.nanos as i128)
}

fn text(lit: &str) -> (s: String)
    ensures
        s@ == lit@,
{
    String::from_str(lit)
}

fn decimal_text(n: u64) -> (s: String)
    ensures
        s@ == decimal(n as nat),
{
    string_of(&decimal_chars(n as u128))
}

fn reject(reason: String) -> (r: Result<(), RiskReject>)
    ensures
        r matches Err(e) && e.reason == reason,
{
    Err(RiskReject { reason })
}

impl RiskEngine {
    /// The limits in force.
    pub closed spec fn spec_limits(&self) -> RiskLimits {
        self.limits
    }

    /// A fresh engine with no order history.
    pub fn new(limits: RiskLimits) -> (e: Self)
        ensures
            e.spec_limits() == limits,
            e@.order_times.len() == 0,
            e@.last_order_by_symbol.len() == 0,
    {
        let e = RiskEngine { limits, order_times: VecDeque::new(), last_order_by_symbol: Vec::new() };
        assert(e@.last_order_by_symbol =~= Seq::<(Seq<char>, Timestamp)>::empty());
        e
    }

    /// Replaces the limits; the order history is kept.
    pub fn update_limits(&mut self, limits: RiskLimits)
        ensures
            final(self).spec_limits() == limits,
            final(self)@ == old(self)@,
    {
        self.limits = limits;
    }

    /// The limits in force.
    pub fn limits(&self) -> (l: &RiskLimits)
        ensures
            *l == self.spec_limits(),
    {
        &self.limits
    }

    /// The time recorded for a symbol.
    fn last_order_time(&self, sym: &Vec<char>) -> (r: (Option<Timestamp>, Option<usize>))
        ensures
            r.0 == lookup_time(self@.last_order_by_symbol, sym@),
            key_index(self@.last_order_by_symbol, sym@) == match r.1 {
                Some(i) => i as int,
                None => -1,
            },
            r.1 matches Some(i) ==> i < self.last_order_by_symbol@.len(),
    {
        let ghost s = self@.last_order_by_symbol;
        let mut i: usize = 0;
        while i < self.last_order_by_symbol.len()
            invariant
                i <= self.last_order_by_symbol@.len(),
                s == self@.last_order_by_symbol,
                s.len() == self.last_order_by_symbol@.len(),
                forall|j: int| 0 <= j < i ==> s[j].0 != sym@,
            decreases self.last_order_by_symbol.len() - i,
        {
            let k = chars_of(self.last_order_by_symbol[i].0.as_str());
            if chars_eq(&k, sym) {
                proof {
                    lemma_key_index(s, sym@, i as int);
                }
                return (Some(self.last_order_by_symbol[i].1), Some(i));
            }
            i += 1;
        }
        proof {
            lemma_key_index(s, sym@, -1);
        }
        (None, None)
    }

    /// Checks an order against every limit (see `spec_validate`) and records
    /// an accepted order for the rate limit and the cooldown.
    pub fn validate_order(&mut self, ctx: OrderValidationCtx<'_>) -> (res: Result<(), RiskReject>)
        ensures
            final(self).spec_limits() == old(self).spec_limits(),
            ({
                let (r, s) = spec_validate(old(self).spec_limits(), old(self)@, ctx);
                &&& final(self)@ == s
                &&& match res {
                    Ok(()) => r is Ok,
                    Err(e) => r == Err::<(), Seq<char>>(e.reason@),
                }
            }),
    {
        let ghost s0 = self@;
        let req = ctx.req;
        let tc = ctx.time_controls;
        let sym = chars_of(req.symbol.as_str());

        if ctx.kill_switch_engaged || ctx.halted {
            return reject(text("engine halted/kill-switch engaged"));
        }
        if ctx.mode == ProfileMode::Live && !ctx.live_trading_unlocked {
            return reject(text("live trading is locked (complete Enable Live Trading workflow)"));
        }
        if self.limits.symbol_allowlist.len() > 0 && !any_eq_ignore_ascii_case(
            &self.limits.symbol_allowlist,
            &sym,
        ) {
            let mut r = text("symbol ");
            r.append(req.symbol.as_str());
            r.append(" not in allowlist");
            return reject(r);
        }
        if self.limits.allowed_markets.len() > 0 {
            let mkt = symbol_market_prefix(req.symbol.as_str());
            let mkt_chars = chars_of(mkt.as_str());
            if !any_eq_ignore_ascii_case(&self.limits.allowed_markets, &mkt_chars) {
                let mut r = text("market ");
                r.append(mkt.as_str());
                r.append(" not allowed for symbol ");
                r.append(req.symbol.as_str());
                return reject(r);
            }
        }
        if tc.enabled {
            let in_session = tc.sessions_utc.len() == 0 || any_window(&tc.sessions_utc, ctx.now);
            if !in_session {
                return reject(text("outside allowed trading sessions (UTC)"));
            }
            if any_window(&tc.blackout_utc, ctx.now) {
                return reject(text("inside blackout window (UTC)"));
            }
            if tc.cooldown_sec > 0 {
                let (last, _) = self.last_order_time(&sym);
                if let Some(t) = last {
                    let dt = nanos_between(t, ctx.now);
                    if dt < (tc.cooldown_sec as i128) * 1_000_000_000 {
                        let mut r = text("cooldown active for ");
                        r.append(req.symbol.as_str());
                        r.append(" (");
                        r.append(decimal_text(tc.cooldown_sec as u64).as_str());
                        r.append("s)");
                        return reject(r);
                    }
                }
            }
        }
        if req.qty == 0 {
            return reject(text("qty must be > 0"));
        }
        if req.qty > self.limits.max_order_qty {
            let mut r = text("order qty ");
            r.append(decimal_text(req.qty as u64).as_str());
            r.append(" exceeds max_order_qty ");
            r.append(decimal_text(self.limits.max_order_qty as u64).as_str());
            return reject(r);
        }
        assert(spec_gate_reason(self.limits, s0.last_order_by_symbol, ctx) is None);

        let pos_qty: i128 = match ctx.position_qty {
            Some(p) => p as i128,
            None => 0,
        };
        let new_qty: i128 = match req.side {
            OrderSide::Buy => pos_qty + req.qty as i128,
            OrderSide::Sell => pos_qty - req.qty as i128,
        };
        if new_qty < 0 {
            return reject(text("short selling not allowed in MVP (would go negative)"));
        }
        if new_qty > self.limits.max_position_qty as i128 {
            let mut r = text("position limit exceeded: new_qty=");
            r.append(decimal_text(new_qty as u64).as_str());
            r.append(" > max_position_qty=");
            r.append(decimal_text(self.limits.max_position_qty as u64).as_str());
            return reject(r);
        }
        if req.order_type == OrderType::Limit {
            match &ctx.limit_price {
                LimitPriceCheck::MissingPrice => {
                    return reject(text("limit order requires limit_price"));
                },
                LimitPriceCheck::NonPositive => {
                    return reject(text("limit_price must be > 0"));
                },
                LimitPriceCheck::NoQuote => {
                    return reject(text("no market price available for price sanity check"));
                },
                LimitPriceCheck::OutOfBand { reason } => {
                    return reject(reason.clone());
                },
                LimitPriceCheck::InBand => {},
            }
        }
        assert(spec_order_reason(self.limits, ctx) is None);

        // Rate limit: sliding window of 60s.
        while self.order_times.len() > 0 && nanos_between(self.order_times[0], ctx.now)
            > 60_000_000_000
            invariant
                spec_prune(self.order_times@, ctx.now) == spec_prune(s0.order_times, ctx.now),
                self.limits == old(self).limits,
                self.last_order_by_symbol == old(self).last_order_by_symbol,
            decreases self.order_times@.len(),
        {
            self.order_times.pop_front();
        }
        if self.order_times.len() as u64 >= self.limits.max_orders_per_minute as u64 {
            let mut r = text("rate limit: max_orders_per_minute ");
            r.append(decimal_text(self.limits.max_orders_per_minute as u64).as_str());
            r.append(" exceeded");
            return reject(r);
        }

        self.order_times.push_back(ctx.now);
        if tc.enabled && tc.cooldown_sec > 0 {
            let (_, idx) = self.last_order_time(&sym);
            proof {
                lemma_key_index_range(self@.last_order_by_symbol, sym@);
            }
            match idx {
                Some(i) => {
                    self.last_order_by_symbol.set(i, (req.symbol.clone(), ctx.now));
                },
                None => {
                    self.last_order_by_symbol.push((req.symbol.clone(), ctx.now));
                },
            }
            assert(self@.last_order_by_symbol =~= put_time(
                s0.last_order_by_symbol,
                req.symbol@,
                ctx.now,
            ));
        }
        Ok(())
    }
}

} // verus!
