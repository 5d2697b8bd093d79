//! Engine control decisions: the run/halt gate with its kill switch and safe
//! mode, the preconditions of live orders and cancels, the trade routing of a
//! live connection, what a fill does to a position's quantity, and the checks
//! before a strategy starts or a definition is saved.
use vstd::prelude::*;
use vstd::string::StringExecFns;
use crate::futu::{
    OpenDOrderRef, OpenDTradeAccount, OpenDTradeHeader, TRD_ENV_REAL, TRD_ENV_SIMULATE, order_id_text,
    spec_order_id_text,
};
use crate::paper::{
    Order, OrderRequest, PaperView, book_wf, is_live, law_cancel_all_cancels_each_resting_order,
    law_cancel_all_leaves_nothing_working, spec_cancel_each, submitted_order,
};
use crate::risk::{OrderValidationCtx, RiskLimits, RiskView, halted_reason, spec_validate};
use crate::text::{chars_eq, chars_of, push_all, string_of, trim, trim_chars};
use crate::time::Timestamp;
use crate::types::{OpenDTradeEnv, OrderSide, OrderStatus, ProfileMode, StrategyLifecycle};

verus! {

// ---------------------------------------------------------------------------
// Run/halt gate
// ---------------------------------------------------------------------------

/// Whether the engine runs, or why and since when it is halted.
#[derive(Debug, Clone)]
pub enum EngineStatus {
    Running,
    Halted { reason: String, at: Timestamp },
}

/// The engine's run state: its status, whether it started in safe mode
/// (a crash marker was found), and whether the kill switch is engaged.
#[derive(Debug)]
pub struct EngineGate {
    pub status: EngineStatus,
    pub safe_mode: bool,
    pub kill_switch: bool,
}

/// The reason a safe-mode start is halted with.
pub open spec fn safe_mode_reason() -> Seq<char> {
    "Safe mode: previous crash detected"@
}

/// The refusal of `resume` in safe mode.
pub open spec fn safe_mode_resume_error() -> Seq<char> {
    "safe mode is active (restart after clearing crash marker)"@
}

/// An operation on the run state.
pub enum GateOp {
    Engage { reason: String, at: Timestamp },
    Resume,
}

/// The run state after one operation.
pub open spec fn spec_gate_step(g: EngineGate, op: GateOp) -> EngineGate {
    match op {
        GateOp::Engage { reason, at } => EngineGate {
            status: EngineStatus::Halted { reason, at },
            safe_mode: g.safe_mode,
            kill_switch: true,
        },
        GateOp::Resume => if g.safe_mode {
            g
        } else {
            EngineGate { status: EngineStatus::Running, safe_mode: false, kill_switch: false }
        },
    }
}

/// The run state after a sequence of operations, in order.
pub open spec fn spec_gate_run(g: EngineGate, ops: Seq<GateOp>) -> EngineGate
    decreases ops.len(),
{
    if ops.len() == 0 {
        g
    } else {
        spec_gate_step(spec_gate_run(g, ops.drop_last()), ops.last())
    }
}

/// Whether candles reach the strategies: running with the kill switch released.
pub open spec fn spec_candles_flow(g: EngineGate) -> bool {
    g.status is Running && !g.kill_switch
}

impl EngineGate {
    /// The run state at start: halted in safe mode, running otherwise, with the
    /// kill switch released.
    pub fn start(safe_mode: bool, now: Timestamp) -> (g: EngineGate)
        ensures
            g.safe_mode == safe_mode,
            !g.kill_switch,
            safe_mode ==> (g.status matches EngineStatus::Halted { reason, at } && reason@
                == safe_mode_reason() && at == now),
            !safe_mode ==> g.status is Running,
    {
        let status = if safe_mode {
            EngineStatus::Halted {
                reason: String::from_str("Safe mode: previous crash detected"),
                at: now,
            }
        } else {
            EngineStatus::Running
        };
        EngineGate { status, safe_mode, kill_switch: false }
    }

    /// Engages the kill switch: halted with `reason` at `now`.
    pub fn engage_kill_switch(&mut self, reason: String, now: Timestamp)
        ensures
            *final(self) == spec_gate_step(*old(self), GateOp::Engage { reason, at: now }),
    {
        self.kill_switch = true;
        self.status = EngineStatus::Halted { reason, at: now };
    }

    /// Resumes trading; refused, with nothing changed, in safe mode.
    pub fn resume(&mut self) -> (r: Result<(), String>)
        ensures
            *final(self) == spec_gate_step(*old(self), GateOp::Resume),
            old(self).safe_mode <==> r is Err,
            r matches Err(e) ==> e@ == safe_mode_resume_error(),
    {
        if self.safe_mode {
            return Err(String::from_str("safe mode is active (restart after clearing crash marker)"));
        }
        self.kill_switch = false;
        self.status = EngineStatus::Running;
        Ok(())
    }

    /// Whether candles reach the strategies (see `spec_candles_flow`).
    pub fn candles_flow(&self) -> (b: bool)
        ensures
            b == spec_candles_flow(*self),
    {
        match self.status {
            EngineStatus::Running => !self.kill_switch,
            EngineStatus::Halted { .. } => false,
        }
    }

    /// Whether the engine is halted (the risk gate refuses orders then).
    pub fn is_halted(&self) -> (b: bool)
        ensures
            b == (self.status is Halted),
    {
        match self.status {
            EngineStatus::Running => false,
            EngineStatus::Halted { .. } => true,
        }
    }
}

/// After the kill switch is engaged, no candle reaches a strategy until a
/// resume succeeds.
pub proof fn law_kill_switch_stops_candles(g: EngineGate, reason: String, at: Timestamp)
    ensures
        !spec_candles_flow(spec_gate_step(g, GateOp::Engage { reason, at })),
{
}

/// A gate that started in safe mode stays halted whatever is done to it: no
/// run of engages and resumes lets candles through.
pub proof fn law_safe_mode_stays_halted(safe_start: EngineGate, ops: Seq<GateOp>)
    requires
        safe_start.safe_mode,
        safe_start.status is Halted,
    ensures
        spec_gate_run(safe_start, ops).safe_mode,
        spec_gate_run(safe_start, ops).status is Halted,
        !spec_candles_flow(spec_gate_run(safe_start, ops)),
    decreases ops.len(),
{
    if ops.len() > 0 {
        law_safe_mode_stays_halted(safe_start, ops.drop_last());
    }
}

/// Once the kill switch is engaged, every order is refused until a resume.
/// With the switch engaged, possibly several times over, and no resume, the
/// gate stays halted with the switch on; an order checked with that switch
/// state is refused as halted, and the risk state is left as it was, for any
/// limits, any earlier orders and any order.
pub proof fn law_kill_switch_refuses_orders_until_resume(
    g: EngineGate,
    reason: String,
    at: Timestamp,
    later: Seq<GateOp>,
    limits: RiskLimits,
    s: RiskView,
    ctx: OrderValidationCtx,
)
    requires
        forall|i: int| 0 <= i < later.len() ==> (#[trigger] later[i]) is Engage,
        ctx.kill_switch_engaged == spec_gate_run(
            spec_gate_step(g, GateOp::Engage { reason, at }),
            later,
        ).kill_switch,
    ensures
        spec_gate_run(spec_gate_step(g, GateOp::Engage { reason, at }), later).kill_switch,
        spec_gate_run(spec_gate_step(g, GateOp::Engage { reason, at }), later).status is Halted,
        spec_validate(limits, s, ctx) == (Err::<(), Seq<char>>(halted_reason()), s),
    decreases later.len(),
{
    if later.len() > 0 {
        let init = later.drop_last();
        assert forall|i: int| 0 <= i < init.len() implies (#[trigger] init[i]) is Engage by {
            assert(init[i] == later[i]);
        }
        assert(later.last() == later[later.len() - 1]);
        let g0 = spec_gate_run(spec_gate_step(g, GateOp::Engage { reason, at }), init);
        let c0 = OrderValidationCtx { kill_switch_engaged: g0.kill_switch, ..ctx };
        law_kill_switch_refuses_orders_until_resume(g, reason, at, init, limits, s, c0);
    }
}

/// The kill switch's immediate effects taken together: the engine is halted
/// with the switch on, so no candle reaches a strategy; every resting paper
/// order is cancelled, so nothing rests and no order of the book may still
/// fill.
pub proof fn law_kill_switch_effects<P>(
    g: EngineGate,
    reason: String,
    at: Timestamp,
    book: PaperView<P>,
    now: Timestamp,
)
    requires
        book_wf(book),
    ensures
        ({
            let g2 = spec_gate_step(g, GateOp::Engage { reason, at });
            &&& g2.kill_switch && g2.status is Halted
            &&& !spec_candles_flow(g2)
        }),
        ({
            let b2 = spec_cancel_each(book, now, book.open_limit_orders).1;
            &&& b2.open_limit_orders.len() == 0
            &&& forall|j: int| 0 <= j < b2.orders.len() ==> !is_live(#[trigger] b2.orders[j].status)
        }),
{
    law_cancel_all_cancels_each_resting_order(book, now);
    law_cancel_all_leaves_nothing_working(book, now);
}

/// Outside safe mode a resume always restarts the engine, whatever came before.
pub proof fn law_resume_restarts(g: EngineGate)
    requires
        !g.safe_mode,
    ensures
        spec_candles_flow(spec_gate_step(g, GateOp::Resume)),
{
}

// ---------------------------------------------------------------------------
// Live orders
// ---------------------------------------------------------------------------

/// What placing a live order comes to, before anything is sent to OpenD.
#[derive(Debug)]
pub enum LiveOrderPlan {
    /// Give back the order already placed under this client order id.
    ReturnExisting,
    /// Engage the kill switch with `kill_reason`, then fail with `error`.
    RefuseDisconnected { kill_reason: String, error: String },
    /// Fail with `error`.
    Refuse { error: String },
    /// Send the order, unlocking trading first when `unlock_first`.
    Submit { unlock_first: bool },
}

/// The texts of a refused live order.
pub open spec fn live_plan_texts(p: LiveOrderPlan, symbol: Seq<char>) -> bool {
    match p {
        LiveOrderPlan::RefuseDisconnected { kill_reason, error } => kill_reason@
            == "OpenD is not connected (refusing live order)"@ && error@
            == "OpenD is not connected"@,
        LiveOrderPlan::Refuse { error } => error@ == "no trade account header available for symbol "@
            + symbol,
        _ => true,
    }
}

/// Decides how a live order proceeds: a repeated client order id gives the
/// stored order back; without an OpenD connection the kill switch is engaged;
/// without a trade account header for the symbol's market it is refused;
/// otherwise it is sent, after unlocking trading if that was not done yet.
pub fn plan_live_order(
    symbol: &str,
    has_existing: bool,
    connected: bool,
    has_header: bool,
    trade_unlocked: bool,
) -> (p: LiveOrderPlan)
    ensures
        p is ReturnExisting <==> has_existing,
        p is RefuseDisconnected <==> !has_existing && !connected,
        p is Refuse <==> !has_existing && connected && !has_header,
        p matches LiveOrderPlan::Submit { unlock_first } ==> (!has_existing && connected
            && has_header && unlock_first == !trade_unlocked),
        live_plan_texts(p, symbol@),
{
    if has_existing {
        return LiveOrderPlan::ReturnExisting;
    }
    if !connected {
        return LiveOrderPlan::RefuseDisconnected {
            kill_reason: String::from_str("OpenD is not connected (refusing live order)"),
            error: String::from_str("OpenD is not connected"),
        };
    }
    if !has_header {
        let mut e = chars_of("no trade account header available for symbol ");
        push_all(&mut e, &chars_of(symbol));
        return LiveOrderPlan::Refuse { error: string_of(&e) };
    }
    LiveOrderPlan::Submit { unlock_first: !trade_unlocked }
}

/// Why a live cancel is refused before anything is sent, checked in this
/// order: no connection, an unknown order, no trade header for its market.
pub open spec fn spec_check_live_cancel(
    order_id: Seq<char>,
    connected: bool,
    known: bool,
    has_header: bool,
) -> Result<(), Seq<char>> {
    if !connected {
        Err("OpenD is not connected"@)
    } else if !known {
        Err("unknown order_id: "@ + order_id)
    } else if !has_header {
        Err("no trade header available for order "@ + order_id)
    } else {
        Ok(())
    }
}

/// Checks that a live cancel can be sent (see `spec_check_live_cancel`).
pub fn check_live_cancel(order_id: &str, connected: bool, known: bool, has_header: bool) -> (r:
    Result<(), String>)
    ensures
        match (r, spec_check_live_cancel(order_id@, connected, known, has_header)) {
            (Ok(()), Ok(())) => true,
            (Err(e), Err(se)) => e@ == se,
            _ => false,
        },
{
    if !connected {
        return Err(String::from_str("OpenD is not connected"));
    }
    if !known {
        let mut e = chars_of("unknown order_id: ");
        push_all(&mut e, &chars_of(order_id));
        return Err(string_of(&e));
    }
    if !has_header {
        let mut e = chars_of("no trade header available for order ");
        push_all(&mut e, &chars_of(order_id));
        return Err(string_of(&e));
    }
    Ok(())
}

/// The order recorded once OpenD accepted a live order: submitted at `now`
/// under the id OpenD gave.
pub fn live_order_from_ref<P: Copy>(now: Timestamp, req: OrderRequest<P>, order_ref: OpenDOrderRef) -> (o:
    Order<P>)
    ensures
        o.id@ == spec_order_id_text(
            match order_ref.order_id_ex {
                Some(t) => Some(t@),
                None => None,
            },
            order_ref.order_id,
        ),
        o == submitted_order(now, req, o.id),
{
    let id = order_id_text(order_ref.order_id_ex, order_ref.order_id);
    Order {
        id,
        symbol: req.symbol,
        side: req.side,
        qty: req.qty,
        order_type: req.order_type,
        limit_price: req.limit_price,
        status: OrderStatus::Submitted,
        filled_qty: 0,
        avg_fill_price: None,
        created_at: now,
        updated_at: now,
        client_order_id: req.client_order_id,
        last_error: None,
    }
}

/// Whether a live order is still working (the kill switch cancels those).
pub open spec fn is_working(o: OrderStatus) -> bool {
    o == OrderStatus::PendingSubmit || o == OrderStatus::Submitted
}

/// Indices of the working orders, in order.
pub open spec fn spec_working_indices<P>(orders: Seq<Order<P>>) -> Seq<int>
    decreases orders.len(),
{
    if orders.len() == 0 {
        Seq::empty()
    } else {
        let rest = spec_working_indices(orders.drop_last());
        if is_working(orders.last().status) {
            rest.push(orders.len() - 1)
        } else {
            rest
        }
    }
}

/// Positions of the working orders among `orders`, in order: the live orders
/// the kill switch tries to cancel.
pub fn working_order_indices<P>(orders: &Vec<Order<P>>) -> (out: Vec<usize>)
    ensures
        out@.map_values(|i: usize| i as int) == spec_working_indices(orders@),
{
    let mut out: Vec<usize> = Vec::new();
    let mut i: usize = 0;
    while i < orders.len()
        invariant
            i <= orders@.len(),
            out@.map_values(|k: usize| k as int) == spec_working_indices(orders@.take(i as int)),
        decreases orders.len() - i,
    {
        let ghost before = out@;
        assert(orders@.take(i + 1).drop_last() =~= orders@.take(i as int));
        let working = match orders[i].status {
            OrderStatus::PendingSubmit | OrderStatus::Submitted => true,
            _ => false,
        };
        if working {
            out.push(i);
            assert(out@.map_values(|k: usize| k as int) =~= before.map_values(|k: usize| k as int).push(
                i as int,
            ));
        }
        i += 1;
    }
    assert(orders@.take(orders@.len() as int) =~= orders@);
    out
}

// ---------------------------------------------------------------------------
// Positions
// ---------------------------------------------------------------------------

/// A fill's effect on a position's signed quantity: a buy adds the fill
/// quantity; a sell takes away at most the long quantity held. The second
/// component is the quantity that took effect.
pub open spec fn spec_qty_after_fill(old_qty: int, side: OrderSide, fill_qty: int) -> (int, int) {
    match side {
        OrderSide::Buy => (old_qty + fill_qty, fill_qty),
        OrderSide::Sell => {
            let held = if old_qty > 0 {
                old_qty
            } else {
                0
            };
            let sold = if fill_qty < held {
                fill_qty
            } else {
                held
            };
            (old_qty - sold, sold)
        },
    }
}

/// A fill's effect on a position's quantity (see `spec_qty_after_fill`).
pub fn qty_after_fill(old_qty: i64, side: OrderSide, fill_qty: u32) -> (r: (i64, u32))
    requires
        side == OrderSide::Buy ==> old_qty + fill_qty <= i64::MAX,
    ensures
        (r.0 as int, r.1 as int) == spec_qty_after_fill(old_qty as int, side, fill_qty as int),
{
    match side {
        OrderSide::Buy => (old_qty + fill_qty as i64, fill_qty),
        OrderSide::Sell => {
            let held: i64 = if old_qty > 0 {
                old_qty
            } else {
                0
            };
            let sold: u32 = if (fill_qty as i64) < held {
                fill_qty
            } else {
                held as u32
            };
            (old_qty - sold as i64, sold)
        },
    }
}

/// A sell never turns a flat or long position short, and never sells more
/// than the fill's quantity.
pub proof fn law_sell_never_goes_short(old_qty: int, fill_qty: int)
    requires
        fill_qty >= 0,
    ensures
        old_qty >= 0 ==> spec_qty_after_fill(old_qty, OrderSide::Sell, fill_qty).0 >= 0,
        0 <= spec_qty_after_fill(old_qty, OrderSide::Sell, fill_qty).1 <= fill_qty,
        old_qty <= 0 ==> spec_qty_after_fill(old_qty, OrderSide::Sell, fill_qty).0 == old_qty,
{
}

// ---------------------------------------------------------------------------
// Strategy start checks
// ---------------------------------------------------------------------------

/// The symbol a strategy trades: its `symbol` parameter (empty when absent),
/// refused when blank.
pub open spec fn spec_strategy_symbol(symbol: Option<Seq<char>>) -> Result<Seq<char>, Seq<char>> {
    let s = match symbol {
        Some(t) => t,
        None => Seq::empty(),
    };
    if trim(s).len() == 0 {
        Err("strategy params must include symbol"@)
    } else {
        Ok(s)
    }
}

/// The symbol a strategy trades (see `spec_strategy_symbol`).
pub fn strategy_symbol(symbol: Option<&str>) -> (r: Result<String, String>)
    ensures
        match (
            r,
            spec_strategy_symbol(
                match symbol {
                    Some(t) => Some(t@),
                    None => None,
                },
            ),
        ) {
            (Ok(s), Ok(ss)) => s@ == ss,
            (Err(e), Err(se)) => e@ == se,
            _ => false,
        },
{
    let s = match symbol {
        Some(t) => chars_of(t),
        None => Vec::new(),
    };
    if trim_chars(&s).len() == 0 {
        return Err(String::from_str("strategy params must include symbol"));
    }
    Ok(string_of(&s))
}

/// Whether a saved strategy may run: not while a draft, and a live-lifecycle
/// strategy only in a live profile.
pub open spec fn spec_check_strategy_def_runnable(lifecycle: StrategyLifecycle, mode: ProfileMode) -> Result<
    (),
    Seq<char>,
> {
    if lifecycle == StrategyLifecycle::Draft {
        Err("strategy is in draft lifecycle; set lifecycle to paper/live to run"@)
    } else if lifecycle == StrategyLifecycle::Live && mode != ProfileMode::Live {
        Err("strategy lifecycle is live, but active profile is not live"@)
    } else {
        Ok(())
    }
}

/// Checks that a saved strategy may run (see `spec_check_strategy_def_runnable`).
pub fn check_strategy_def_runnable(lifecycle: StrategyLifecycle, mode: ProfileMode) -> (r: Result<
    (),
    String,
>)
    ensures
        match (r, spec_check_strategy_def_runnable(lifecycle, mode)) {
            (Ok(()), Ok(())) => true,
            (Err(e), Err(se)) => e@ == se,
            _ => false,
        },
{
    match lifecycle {
        StrategyLifecycle::Draft => Err(
            String::from_str("strategy is in draft lifecycle; set lifecycle to paper/live to run"),
        ),
        StrategyLifecycle::Live => match mode {
            ProfileMode::Live => Ok(()),
            _ => Err(String::from_str("strategy lifecycle is live, but active profile is not live")),
        },
        _ => Ok(()),
    }
}

fn blank(s: &str) -> (b: bool)
    ensures
        b == (trim(s@).len() == 0),
{
    trim_chars(&chars_of(s)).len() == 0
}

/// Why a strategy definition is refused before its parameters are checked:
/// a blank name, then a blank strategy id.
pub open spec fn spec_check_strategy_def_request(name: Seq<char>, strategy_id: Seq<char>) -> Result<
    (),
    Seq<char>,
> {
    if trim(name).len() == 0 {
        Err("name is empty"@)
    } else if trim(strategy_id).len() == 0 {
        Err("strategy_id is empty"@)
    } else {
        Ok(())
    }
}

/// Checks a strategy definition's name and strategy id.
pub fn check_strategy_def_request(name: &str, strategy_id: &str) -> (r: Result<(), String>)
    ensures
        match (r, spec_check_strategy_def_request(name@, strategy_id@)) {
            (Ok(()), Ok(())) => true,
            (Err(e), Err(se)) => e@ == se,
            _ => false,
        },
{
    if blank(name) {
        return Err(String::from_str("name is empty"));
    }
    if blank(strategy_id) {
        return Err(String::from_str("strategy_id is empty"));
    }
    Ok(())
}

/// Why a model registration is refused before its artifact is handled: a
/// blank name, base id or version, in that order.
pub open spec fn spec_check_model_request(
    name: Seq<char>,
    base_id: Seq<char>,
    version: Seq<char>,
) -> Result<(), Seq<char>> {
    if trim(name).len() == 0 {
        Err("name is empty"@)
    } else if trim(base_id).len() == 0 {
        Err("base_id is empty"@)
    } else if trim(version).len() == 0 {
        Err("version is empty"@)
    } else {
        Ok(())
    }
}

/// Checks a model registration's name, base id and version.
pub fn check_model_request(name: &str, base_id: &str, version: &str) -> (r: Result<(), String>)
    ensures
        match (r, spec_check_model_request(name@, base_id@, version@)) {
            (Ok(()), Ok(())) => true,
            (Err(e), Err(se)) => e@ == se,
            _ => false,
        },
{
    if blank(name) {
        return Err(String::from_str("name is empty"));
    }
    if blank(base_id) {
        return Err(String::from_str("base_id is empty"));
    }
    if blank(version) {
        return Err(String::from_str("version is empty"));
    }
    Ok(())
}

// ---------------------------------------------------------------------------
// Trade routing of a live connection
// ---------------------------------------------------------------------------

/// The OpenD code of a trading environment.
pub fn trd_env_code(env: OpenDTradeEnv) -> (c: i32)
    ensures
        c == (match env {
            OpenDTradeEnv::Simulate => TRD_ENV_SIMULATE,
            OpenDTradeEnv::Real => TRD_ENV_REAL,
        }),
{
    match env {
        OpenDTradeEnv::Simulate => TRD_ENV_SIMULATE,
        OpenDTradeEnv::Real => TRD_ENV_REAL,
    }
}

/// Whether account `a` trades in environment `env` and may trade market `m`.
pub open spec fn provides(a: OpenDTradeAccount, env: i32, m: i32) -> bool {
    a.trd_env == env && a.trd_market_auth_list@.contains(m)
}

/// Account `k` is the first of `accounts` that provides market `m`.
pub open spec fn first_provider(accounts: Seq<OpenDTradeAccount>, env: i32, m: i32, k: int) -> bool {
    &&& 0 <= k < accounts.len()
    &&& provides(accounts[k], env, m)
    &&& forall|j: int| 0 <= j < k ==> !provides(#[trigger] accounts[j], env, m)
}

/// Index of the first account of `accounts` that provides market `m` in
/// environment `env`, or -1 when none does.
pub open spec fn provider_index(accounts: Seq<OpenDTradeAccount>, env: i32, m: i32) -> int
    decreases accounts.len(),
{
    if accounts.len() == 0 {
        -1
    } else {
        let r = provider_index(accounts.drop_last(), env, m);
        if r >= 0 {
            r
        } else if provides(accounts.last(), env, m) {
            accounts.len() - 1
        } else {
            -1
        }
    }
}

proof fn lemma_provider_index_none(accounts: Seq<OpenDTradeAccount>, env: i32, m: i32)
    requires
        forall|j: int| 0 <= j < accounts.len() ==> !provides(#[trigger] accounts[j], env, m),
    ensures
        provider_index(accounts, env, m) == -1,
    decreases accounts.len(),
{
    if accounts.len() > 0 {
        let init = accounts.drop_last();
        assert forall|j: int| 0 <= j < init.len() implies !provides(#[trigger] init[j], env, m) by {
            assert(init[j] == accounts[j]);
        }
        lemma_provider_index_none(init, env, m);
        assert(accounts.last() == accounts[accounts.len() - 1]);
    }
}

proof fn lemma_provider_index_first(accounts: Seq<OpenDTradeAccount>, env: i32, m: i32, k: int)
    requires
        first_provider(accounts, env, m, k),
    ensures
        provider_index(accounts, env, m) == k,
    decreases accounts.len(),
{
    let init = accounts.drop_last();
    if k < accounts.len() - 1 {
        assert(init[k] == accounts[k]);
        assert forall|j: int| 0 <= j < k implies !provides(#[trigger] init[j], env, m) by {
            assert(init[j] == accounts[j]);
        }
        lemma_provider_index_first(init, env, m, k);
    } else {
        assert forall|j: int| 0 <= j < init.len() implies !provides(#[trigger] init[j], env, m) by {
            assert(init[j] == accounts[j]);
        }
        lemma_provider_index_none(init, env, m);
        assert(accounts.last() == accounts[k]);
    }
}

/// The header that routes market `m` through account `a`.
pub open spec fn header_of(a: OpenDTradeAccount, m: i32) -> OpenDTradeHeader {
    OpenDTradeHeader { trd_env: a.trd_env, acc_id: a.acc_id, trd_market: m }
}

/// Whether some header routes market `m`.
pub open spec fn has_market(hs: Seq<OpenDTradeHeader>, m: i32) -> bool {
    exists|i: int| 0 <= i < hs.len() && (#[trigger] hs[i]).trd_market == m
}

/// Whether `x` is the id of an account in environment `env`.
pub open spec fn env_account_id(accounts: Seq<OpenDTradeAccount>, env: i32, x: u64) -> bool {
    exists|k: int| 0 <= k < accounts.len() && (#[trigger] accounts[k]).trd_env == env && accounts[k].acc_id == x
}

/// Where live orders go: one header per trade market, ascending, and the
/// ids of the accounts whose pushes are subscribed, ascending.
#[derive(Debug, Clone)]
pub struct TradeRouting {
    pub headers: Vec<OpenDTradeHeader>,
    pub acc_ids: Vec<u64>,
}

/// The routing is right for `accounts` in environment `env`: each market an
/// account of `env` may trade has exactly one header, through the first such
/// account, in ascending market order; and the account ids are those of the
/// accounts of `env`, ascending.
pub open spec fn routing_matches(t: TradeRouting, accounts: Seq<OpenDTradeAccount>, env: i32) -> bool {
    &&& forall|i: int, j: int|
        0 <= i < j < t.headers@.len() ==> (#[trigger] t.headers@[i]).trd_market
            < (#[trigger] t.headers@[j]).trd_market
    &&& forall|i: int|
        0 <= i < t.headers@.len() ==> provider_index(accounts, env, (#[trigger] t.headers@[i]).trd_market)
            >= 0 && t.headers@[i] == header_of(
            accounts[provider_index(accounts, env, t.headers@[i].trd_market)],
            t.headers@[i].trd_market,
        )
    &&& forall|k: int, m: i32|
        0 <= k < accounts.len() && #[trigger] provides(accounts[k], env, m) ==> has_market(
            t.headers@,
            m,
        )
    &&& forall|i: int, j: int|
        0 <= i < j < t.acc_ids@.len() ==> (#[trigger] t.acc_ids@[i]) < (#[trigger] t.acc_ids@[j])
    &&& forall|x: u64| #[trigger] t.acc_ids@.contains(x) <==> env_account_id(accounts, env, x)
}

fn header_lower_bound(hs: &Vec<OpenDTradeHeader>, m: i32) -> (p: usize)
    requires
        forall|i: int, j: int| 0 <= i < j < hs@.len() ==> (#[trigger] hs@[i]).trd_market < (#[trigger] hs@[j]).trd_market,
    ensures
        p <= hs@.len(),
        forall|i: int| 0 <= i < p ==> (#[trigger] hs@[i]).trd_market < m,
        p < hs@.len() ==> hs@[p as int].trd_market >= m,
{
    let mut p: usize = 0;
    while p < hs.len() && hs[p].trd_market < m
        invariant
            p <= hs@.len(),
            forall|i: int| 0 <= i < p ==> (#[trigger] hs@[i]).trd_market < m,
        decreases hs.len() - p,
    {
        p += 1;
    }
    p
}

fn insert_sorted_id(ids: &mut Vec<u64>, x: u64)
    requires
        forall|i: int, j: int| 0 <= i < j < old(ids)@.len() ==> (#[trigger] old(ids)@[i]) < (#[trigger] old(ids)@[j]),
    ensures
        forall|i: int, j: int| 0 <= i < j < final(ids)@.len() ==> (#[trigger] final(ids)@[i]) < (#[trigger] final(ids)@[j]),
        forall|y: u64| #[trigger] final(ids)@.contains(y) <==> (old(ids)@.contains(y) || y == x),
{
    let ghost s0 = ids@;
    let mut p: usize = 0;
    while p < ids.len() && ids[p] < x
        invariant
            p <= ids@.len(),
            ids@ == s0,
            forall|i: int| 0 <= i < p ==> (#[trigger] ids@[i]) < x,
        decreases ids.len() - p,
    {
        p += 1;
    }
    if p < ids.len() && ids[p] == x {
        assert(s0[p as int] == x);
        return;
    }
    ids.insert(p, x);
    assert forall|y: u64| #[trigger] ids@.contains(y) <==> (s0.contains(y) || y == x) by {
        if ids@.contains(y) {
            let w = choose|w: int| 0 <= w < ids@.len() && ids@[w] == y;
            if w < p {
                assert(s0[w] == y);
            } else if w > p {
                assert(s0[w - 1] == y);
            }
        }
        if s0.contains(y) {
            let w = choose|w: int| 0 <= w < s0.len() && s0[w] == y;
            if w < p {
                assert(ids@[w] == y);
            } else {
                assert(ids@[w + 1] == y);
            }
        }
        if y == x {
            assert(ids@[p as int] == x);
        }
    }
}

/// The trade routing of a live connection: a header for each market that an
/// account of the selected environment may trade (the first such account
/// wins) and the ids of those accounts; refused when no market is routable.
pub fn trade_routing(accounts: &Vec<OpenDTradeAccount>, env: i32) -> (r: Result<TradeRouting, String>)
    ensures
        match r {
            Ok(t) => t.headers@.len() > 0 && routing_matches(t, accounts@, env),
            Err(e) => e@ == "no trade accounts found for selected OpenD trading environment"@
                && forall|k: int, m: i32| 0 <= k < accounts@.len() ==> !#[trigger] provides(accounts@[k], env, m),
        },
{
    let ghost accs = accounts@;
    let mut headers: Vec<OpenDTradeHeader> = Vec::new();
    let mut acc_ids: Vec<u64> = Vec::new();
    let ghost mut prov: Seq<int> = Seq::empty();
    let mut k: usize = 0;
    while k < accounts.len()
        invariant
            k <= accs.len(),
            accs == accounts@,
            prov.len() == headers@.len(),
            forall|i: int, j: int| 0 <= i < j < headers@.len() ==> (#[trigger] headers@[i]).trd_market < (#[trigger] headers@[j]).trd_market,
            forall|i: int| 0 <= i < headers@.len() ==> #[trigger] prov[i] < k,
            forall|i: int| 0 <= i < headers@.len() ==> first_provider(accs, env, (#[trigger] headers@[i]).trd_market, prov[i]) && headers@[i] == header_of(accs[prov[i]], headers@[i].trd_market),
            forall|a: int, m: i32| 0 <= a < k && #[trigger] provides(accs[a], env, m) ==> has_market(headers@, m),
            forall|i: int, j: int| 0 <= i < j < acc_ids@.len() ==> (#[trigger] acc_ids@[i]) < (#[trigger] acc_ids@[j]),
            forall|x: u64| #[trigger] acc_ids@.contains(x) <==> exists|a: int| 0 <= a < k && (#[trigger] accs[a]).trd_env == env && accs[a].acc_id == x,
        decreases accounts.len() - k,
    {
        let ghost ids0 = acc_ids@;
        if accounts[k].trd_env == env {
            insert_sorted_id(&mut acc_ids, accounts[k].acc_id);
            let n = accounts[k].trd_market_auth_list.len();
            let mut j: usize = 0;
            while j < n
                invariant
                    k < accs.len(),
                    accs == accounts@,
                    accs[k as int].trd_env == env,
                    n == accs[k as int].trd_market_auth_list@.len(),
                    j <= n,
                    prov.len() == headers@.len(),
                    forall|i: int, j2: int| 0 <= i < j2 < headers@.len() ==> (#[trigger] headers@[i]).trd_market < (#[trigger] headers@[j2]).trd_market,
                    forall|i: int| 0 <= i < headers@.len() ==> #[trigger] prov[i] <= k,
                    forall|i: int| 0 <= i < headers@.len() ==> first_provider(accs, env, (#[trigger] headers@[i]).trd_market, prov[i]) && headers@[i] == header_of(accs[prov[i]], headers@[i].trd_market),
                    forall|a: int, m: i32| 0 <= a < k && #[trigger] provides(accs[a], env, m) ==> has_market(headers@, m),
                    forall|jj: int| 0 <= jj < j ==> has_market(headers@, #[trigger] accs[k as int].trd_market_auth_list@[jj]),
                decreases n - j,
            {
                let m = accounts[k].trd_market_auth_list[j];
                let p = header_lower_bound(&headers, m);
                if p < headers.len() && headers[p].trd_market == m {
                    assert(has_market(headers@, m));
                } else {
                    let ghost h0 = headers@;
                    let ghost prov0 = prov;
                    assert(!has_market(h0, m)) by {
                        if has_market(h0, m) {
                            let w = choose|w: int| 0 <= w < h0.len() && h0[w].trd_market == m;
                            if w > p {
                                assert(h0[p as int].trd_market < h0[w].trd_market);
                            }
                        }
                    }
                    assert(accs[k as int].trd_market_auth_list@[j as int] == m);
                    assert(accs[k as int].trd_market_auth_list@.contains(m));
                    assert(provides(accs[k as int], env, m));
                    assert forall|a: int| 0 <= a < k implies !provides(#[trigger] accs[a], env, m) by {
                        if provides(accs[a], env, m) {
                            assert(has_market(h0, m));
                        }
                    }
                    assert(first_provider(accs, env, m, k as int));
                    let h = OpenDTradeHeader {
                        trd_env: accounts[k].trd_env,
                        acc_id: accounts[k].acc_id,
                        trd_market: m,
                    };
                    headers.insert(p, h);
                    proof {
                        prov = prov0.insert(p as int, k as int);
                        assert forall|i: int| 0 <= i < headers@.len() implies #[trigger] prov[i] <= k by {
                            if i < p {
                                assert(prov[i] == prov0[i]);
                            } else if i > p {
                                assert(prov[i] == prov0[i - 1]);
                            }
                        }
                        assert forall|i: int| 0 <= i < headers@.len() implies first_provider(accs, env, (#[trigger] headers@[i]).trd_market, prov[i]) && headers@[i] == header_of(accs[prov[i]], headers@[i].trd_market) by {
                            if i < p {
                                assert(headers@[i] == h0[i] && prov[i] == prov0[i]);
                            } else if i > p {
                                assert(headers@[i] == h0[i - 1] && prov[i] == prov0[i - 1]);
                            }
                        }
                        assert forall|i: int, j2: int| 0 <= i < j2 < headers@.len() implies (#[trigger] headers@[i]).trd_market < (#[trigger] headers@[j2]).trd_market by {
                            if j2 < p {
                                assert(headers@[i] == h0[i] && headers@[j2] == h0[j2]);
                            } else if j2 == p {
                                assert(headers@[i] == h0[i]);
                            } else if i == p {
                                assert(headers@[j2] == h0[j2 - 1]);
                            } else if i < p {
                                assert(headers@[i] == h0[i] && headers@[j2] == h0[j2 - 1]);
                            } else {
                                assert(headers@[i] == h0[i - 1] && headers@[j2] == h0[j2 - 1]);
                            }
                        }
                        assert forall|mm: i32| has_market(h0, mm) implies has_market(headers@, mm) by {
                            let w = choose|w: int| 0 <= w < h0.len() && h0[w].trd_market == mm;
                            if w < p {
                                assert(headers@[w] == h0[w]);
                            } else {
                                assert(headers@[w + 1] == h0[w]);
                            }
                        }
                        assert(headers@[p as int].trd_market == m);
                    }
                }
                j += 1;
            }
            proof {
                assert forall|a: int, m: i32| 0 <= a < k + 1 && #[trigger] provides(accs[a], env, m) implies has_market(headers@, m) by {
                    if a == k {
                        let w = choose|w: int| 0 <= w < n && accs[k as int].trd_market_auth_list@[w] == m;
                        assert(has_market(headers@, accs[k as int].trd_market_auth_list@[w]));
                    }
                }
            }
        } else {
            proof {
                assert forall|a: int, m: i32| 0 <= a < k + 1 && #[trigger] provides(accs[a], env, m) implies has_market(headers@, m) by {
                    if a == k {
                        assert(!provides(accs[a], env, m));
                    }
                }
            }
        }
        proof {
            assert forall|x: u64| #[trigger] acc_ids@.contains(x) <==> exists|a: int| 0 <= a < k + 1 && (#[trigger] accs[a]).trd_env == env && accs[a].acc_id == x by {
                if acc_ids@.contains(x) && !ids0.contains(x) {
                    assert(accs[k as int].trd_env == env && accs[k as int].acc_id == x);
                }
                if exists|a: int| 0 <= a < k + 1 && (#[trigger] accs[a]).trd_env == env && accs[a].acc_id == x {
                    let a = choose|a: int| 0 <= a < k + 1 && (#[trigger] accs[a]).trd_env == env && accs[a].acc_id == x;
                    if a < k {
                        assert(ids0.contains(x));
                    }
                }
            }
        }
        k += 1;
    }
    if headers.len() == 0 {
        proof {
            assert forall|a: int, m: i32| 0 <= a < accs.len() implies !#[trigger] provides(accs[a], env, m) by {
                if provides(accs[a], env, m) {
                    assert(has_market(headers@, m));
                }
            }
        }
        return Err(String::from_str("no trade accounts found for selected OpenD trading environment"));
    }
    let ghost hs = headers@;
    let ghost pv = prov;
    let t = TradeRouting { headers, acc_ids };
    proof {
        assert(t.headers@ == hs);
        assert forall|i: int| 0 <= i < t.headers@.len() implies provider_index(accs, env, (#[trigger] t.headers@[i]).trd_market) >= 0 && t.headers@[i] == header_of(accs[provider_index(accs, env, t.headers@[i].trd_market)], t.headers@[i].trd_market) by {
            assert(hs[i] == t.headers@[i]);
            assert(first_provider(accs, env, hs[i].trd_market, pv[i]) && hs[i] == header_of(accs[pv[i]], hs[i].trd_market));
            lemma_provider_index_first(accs, env, hs[i].trd_market, pv[i]);
        }
        assert forall|x: u64| #[trigger] t.acc_ids@.contains(x) <==> env_account_id(accs, env, x) by {
            if env_account_id(accs, env, x) {
                let a = choose|a: int| 0 <= a < accs.len() && (#[trigger] accs[a]).trd_env == env && accs[a].acc_id == x;
                assert(0 <= a < k && accs[a].trd_env == env && accs[a].acc_id == x);
            }
        }
    }
    Ok(t)
}

/// The kill-switch hotkey must not be blank.
pub fn check_kill_switch_hotkey(hotkey: &str) -> (r: Result<(), String>)
    ensures
        r is Ok <==> trim(hotkey@).len() > 0,
        r matches Err(e) ==> e@ == "hotkey is empty"@,
{
    if blank(hotkey) {
        return Err(String::from_str("hotkey is empty"));
    }
    Ok(())
}

} // verus!
