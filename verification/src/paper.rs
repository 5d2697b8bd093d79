//! Paper-trading execution: an order book with client-order-id idempotency,
//! immediate fills of marketable orders, resting limit orders that fill on
//! later quotes, and cancellation.
//!
//! Prices are of a type `P` the book never inspects: the host decides whether
//! an order is marketable and at which price it fills, and the book records
//! the outcome. Orders are kept sorted by id, as are the resting limit orders.
use vstd::prelude::*;
use crate::text::{chars_eq, chars_of, string_of};
use crate::time::Timestamp;
use crate::types::{OrderSide, OrderStatus, OrderType};

verus! {

/// Simulation settings: slippage in basis points, fee per fill, fill latency.
#[derive(Debug, Clone)]
pub struct PaperExecutionConfig<P> {
    pub slippage_bps: P,
    pub fee_per_trade: P,
    /// Simulated latency before filling marketable orders.
    pub fill_latency_ms: u64,
}

/// An order as submitted.
#[derive(Debug, Clone)]
pub struct OrderRequest<P> {
    pub symbol: String,
    pub side: OrderSide,
    pub qty: u32,
    pub order_type: OrderType,
    pub limit_price: Option<P>,
    /// Client-provided idempotency key.
    pub client_order_id: String,
}

/// An order and its state.
#[derive(Debug, Clone)]
pub struct Order<P> {
    pub id: String,
    pub symbol: String,
    pub side: OrderSide,
    pub qty: u32,
    pub order_type: OrderType,
    pub limit_price: Option<P>,
    pub status: OrderStatus,
    pub filled_qty: u32,
    pub avg_fill_price: Option<P>,
    pub created_at: Timestamp,
    pub updated_at: Timestamp,
    pub client_order_id: String,
    pub last_error: Option<String>,
}

/// One execution.
#[derive(Debug, Clone)]
pub struct Fill<P> {
    pub order_id: String,
    pub symbol: String,
    pub side: OrderSide,
    pub qty: u32,
    pub price: P,
    pub fee: P,
    pub ts: Timestamp,
}

/// Abstract state of the book.
pub struct PaperView<P> {
    /// `(client_order_id, order id)`, first entry per client id counts.
    pub idempotency: Seq<(String, String)>,
    /// Orders, sorted by id.
    pub orders: Seq<Order<P>>,
    /// Ids of resting limit orders, sorted.
    pub open_limit_orders: Seq<String>,
}

/// The paper execution engine.
#[derive(Debug)]
pub struct PaperExecution<P> {
    cfg: PaperExecutionConfig<P>,
    idempotency: Vec<(String, String)>,
    orders: Vec<Order<P>>,
    open_limit_orders: Vec<String>,
}

impl<P> View for PaperExecution<P> {
    type V = PaperView<P>;

    closed spec fn view(&self) -> PaperView<P> {
        PaperView {
            idempotency: self.idempotency@,
            orders: self.orders@,
            open_limit_orders: self.open_limit_orders@,
        }
    }
}

// ---------------------------------------------------------------------------
// Ordering of ids and sorted sequences
// ---------------------------------------------------------------------------

/// Lexicographic order of texts by code point (the order of `String`).
pub open spec fn str_lt(a: Seq<char>, b: Seq<char>) -> bool
    decreases a.len(),
{
    if a.len() == 0 {
        b.len() > 0
    } else if b.len() == 0 {
        false
    } else if a[0] != b[0] {
        (a[0] as u32) < (b[0] as u32)
    } else {
        str_lt(a.drop_first(), b.drop_first())
    }
}

/// Views of a sequence of strings.
pub open spec fn views(s: Seq<String>) -> Seq<Seq<char>> {
    s.map_values(|x: String| x@)
}

/// Ids of a sequence of orders.
pub open spec fn order_ids<P>(v: Seq<Order<P>>) -> Seq<Seq<char>> {
    v.map_values(|o: Order<P>| o.id@)
}

/// Strictly increasing texts (so no text twice).
pub open spec fn strictly_sorted(s: Seq<Seq<char>>) -> bool {
    forall|i: int, j: int| 0 <= i < j < s.len() ==> str_lt(#[trigger] s[i], #[trigger] s[j])
}

/// First index of `k`, or -1.
pub open spec fn seq_index(s: Seq<Seq<char>>, k: Seq<char>) -> int
    decreases s.len(),
{
    if s.len() == 0 {
        -1
    } else if s[0] == k {
        0
    } else {
        let r = seq_index(s.drop_first(), k);
        if r < 0 {
            -1
        } else {
            r + 1
        }
    }
}

/// Number of leading entries below `k`: where `k` belongs in a sorted sequence.
pub open spec fn lower_bound(s: Seq<Seq<char>>, k: Seq<char>) -> int
    decreases s.len(),
{
    if s.len() == 0 {
        0
    } else if !str_lt(s[0], k) {
        0
    } else {
        1 + lower_bound(s.drop_first(), k)
    }
}

/// The order with id `id`, if any.
pub open spec fn find_order<P>(v: Seq<Order<P>>, id: Seq<char>) -> Option<Order<P>> {
    let i = seq_index(order_ids(v), id);
    if i < 0 {
        None
    } else {
        Some(v[i])
    }
}

/// Stores `o` at its sorted place, replacing an order with the same id found there.
pub open spec fn put_order<P>(v: Seq<Order<P>>, o: Order<P>) -> Seq<Order<P>> {
    let p = lower_bound(order_ids(v), o.id@);
    if p < v.len() && v[p].id@ == o.id@ {
        v.update(p, o)
    } else {
        v.insert(p, o)
    }
}

/// Adds `id` at its sorted place unless it is there already.
pub open spec fn put_id(s: Seq<String>, id: String) -> Seq<String> {
    let p = lower_bound(views(s), id@);
    if p < s.len() && s[p]@ == id@ {
        s
    } else {
        s.insert(p, id)
    }
}

/// Removes the first occurrence of `id`.
pub open spec fn remove_id(s: Seq<String>, id: Seq<char>) -> Seq<String> {
    let i = seq_index(views(s), id);
    if i < 0 {
        s
    } else {
        s.remove(i)
    }
}

/// First index of a client id among the idempotency entries, or -1.
pub open spec fn client_index(s: Seq<(String, String)>, k: Seq<char>) -> int {
    seq_index(s.map_values(|p: (String, String)| p.0@), k)
}

/// The order id recorded for a client id.
pub open spec fn client_lookup(s: Seq<(String, String)>, k: Seq<char>) -> Option<String> {
    let i = client_index(s, k);
    if i < 0 {
        None
    } else {
        Some(s[i].1)
    }
}

/// Records `(client id, order id)`, replacing the entry for the client id.
pub open spec fn client_put(s: Seq<(String, String)>, k: String, v: String) -> Seq<(String, String)> {
    let i = client_index(s, k@);
    if i < 0 {
        s.push((k, v))
    } else {
        s.update(i, (k, v))
    }
}

// ---------------------------------------------------------------------------
// Book operations, as specifications
// ---------------------------------------------------------------------------

/// A new order for `req`, submitted at `now` under id `id`.
pub open spec fn submitted_order<P>(now: Timestamp, req: OrderRequest<P>, id: String) -> Order<P> {
    Order {
        id,
        symbol: req.symbol,
        side: req.side,
        qty: req.qty,
        order_type: req.order_type,
        limit_price: req.limit_price,
        status: OrderStatus::Submitted,
        filled_qty: 0,
        avg_fill_price: None,
        created_at: now,
        updated_at: now,
        client_order_id: req.client_order_id,
        last_error: None,
    }
}

/// `o` entirely filled at `px` at `now`.
pub open spec fn filled_order<P>(o: Order<P>, px: P, now: Timestamp) -> Order<P> {
    Order { status: OrderStatus::Filled, filled_qty: o.qty, avg_fill_price: Some(px), updated_at: now, ..o }
}

/// The fill of all of `o` at `px` with fee `fee` at `now`.
pub open spec fn fill_of<P>(o: Order<P>, px: P, fee: P, now: Timestamp) -> Fill<P> {
    Fill { order_id: o.id, symbol: o.symbol, side: o.side, qty: o.qty, price: px, fee, ts: now }
}

/// Placing an order: a client id already bound to a stored order gives that
/// order back, unfilled, and changes nothing. Otherwise the order is stored
/// under `id`, bound to its client id, and either filled at once at the
/// marketable price `fill_price` or left resting as an open limit order.
pub open spec fn spec_place<P>(
    s: PaperView<P>,
    fee: P,
    now: Timestamp,
    req: OrderRequest<P>,
    id: String,
    fill_price: Option<P>,
) -> ((Order<P>, Option<Fill<P>>), PaperView<P>) {
    let existing = match client_lookup(s.idempotency, req.client_order_id@) {
        Some(oid) => find_order(s.orders, oid@),
        None => None,
    };
    match existing {
        Some(o) => ((o, None), s),
        None => {
            let base = submitted_order(now, req, id);
            let idem = client_put(s.idempotency, req.client_order_id, id);
            match fill_price {
                Some(px) => {
                    let o = filled_order(base, px, now);
                    (
                        (o, Some(fill_of(o, px, fee, now))),
                        PaperView {
                            idempotency: idem,
                            orders: put_order(s.orders, o),
                            open_limit_orders: s.open_limit_orders,
                        },
                    )
                },
                None => (
                    (base, None),
                    PaperView {
                        idempotency: idem,
                        orders: put_order(s.orders, base),
                        open_limit_orders: put_id(s.open_limit_orders, id),
                    },
                ),
            }
        },
    }
}

/// Whether an order can no longer change.
pub open spec fn is_terminal(st: OrderStatus) -> bool {
    st == OrderStatus::Filled || st == OrderStatus::Cancelled || st == OrderStatus::Rejected
}

/// Cancelling by id: unknown ids give nothing; finished orders are given back
/// unchanged; otherwise the order becomes cancelled at `now` and stops resting.
pub open spec fn spec_cancel<P>(s: PaperView<P>, now: Timestamp, id: Seq<char>) -> (
    Option<Order<P>>,
    PaperView<P>,
) {
    match find_order(s.orders, id) {
        None => (None, s),
        Some(o) => if is_terminal(o.status) {
            (Some(o), s)
        } else {
            let c = Order { status: OrderStatus::Cancelled, updated_at: now, ..o };
            (
                Some(c),
                PaperView {
                    idempotency: s.idempotency,
                    orders: put_order(s.orders, c),
                    open_limit_orders: remove_id(s.open_limit_orders, id),
                },
            )
        },
    }
}

/// Cancelling each id of `ids` in turn, collecting the orders given back.
pub open spec fn spec_cancel_each<P>(s: PaperView<P>, now: Timestamp, ids: Seq<String>) -> (
    Seq<Order<P>>,
    PaperView<P>,
)
    decreases ids.len(),
{
    if ids.len() == 0 {
        (Seq::empty(), s)
    } else {
        let (out, s1) = spec_cancel_each(s, now, ids.drop_last());
        let (r, s2) = spec_cancel(s1, now, ids.last()@);
        (
            match r {
                Some(o) => out.push(o),
                None => out,
            },
            s2,
        )
    }
}

/// Whether the resting order decision point is reached for `o` on a quote for
/// `symbol`: same symbol, still live, with a limit price.
pub open spec fn quote_reaches<P>(o: Order<P>, symbol: Seq<char>) -> bool {
    o.symbol@ == symbol && (o.status == OrderStatus::Submitted || o.status
        == OrderStatus::PendingSubmit) && o.limit_price is Some
}

/// One step of a quote pass over resting order `id`, given the host's
/// decision `d` (the fill price, if the order is marketable at this quote).
pub open spec fn spec_quote_step<P>(
    s: PaperView<P>,
    fee: P,
    now: Timestamp,
    symbol: Seq<char>,
    id: Seq<char>,
    d: Option<P>,
) -> (Option<(Order<P>, Fill<P>)>, PaperView<P>) {
    match find_order(s.orders, id) {
        None => (None, s),
        Some(o) => if o.symbol@ != symbol {
            (None, s)
        } else if !(o.status == OrderStatus::Submitted || o.status == OrderStatus::PendingSubmit) {
            (
                None,
                PaperView {
                    idempotency: s.idempotency,
                    orders: s.orders,
                    open_limit_orders: remove_id(s.open_limit_orders, id),
                },
            )
        } else if o.limit_price is None {
            (None, s)
        } else {
            match d {
                None => (None, s),
                Some(px) => {
                    let f = filled_order(o, px, now);
                    (
                        Some((f, fill_of(f, px, fee, now))),
                        PaperView {
                            idempotency: s.idempotency,
                            orders: put_order(s.orders, f),
                            open_limit_orders: remove_id(s.open_limit_orders, id),
                        },
                    )
                },
            }
        },
    }
}

/// A quote pass over `ids` in order with decisions `ds` (one per id).
pub open spec fn spec_quote_pass<P>(
    s: PaperView<P>,
    fee: P,
    now: Timestamp,
    symbol: Seq<char>,
    ids: Seq<String>,
    ds: Seq<Option<P>>,
) -> (Seq<(Order<P>, Fill<P>)>, PaperView<P>)
    decreases ids.len(),
{
    if ids.len() == 0 {
        (Seq::empty(), s)
    } else {
        let (out, s1) = spec_quote_pass(s, fee, now, symbol, ids.drop_last(), ds.drop_last());
        let (r, s2) = spec_quote_step(s1, fee, now, symbol, ids.last()@, ds.last());
        (
            match r {
                Some(p) => out.push(p),
                None => out,
            },
            s2,
        )
    }
}

/// Whether `d` is an answer the host may give for resting order `id` at a
/// quote for `symbol` in state `st`: where the pass reaches the decision for
/// that order, `d` is what `f` returned for its side and limit price.
pub open spec fn decided<P, F: Fn(OrderSide, P) -> Option<P>>(
    f: F,
    st: PaperView<P>,
    symbol: Seq<char>,
    id: Seq<char>,
    d: Option<P>,
) -> bool {
    match find_order(st.orders, id) {
        Some(o) => quote_reaches(o, symbol) ==> call_ensures(f, (o.side, o.limit_price->0), d),
        None => true,
    }
}

/// The first `n` answers of `ds` were given by `f`, each in the state the
/// pass had reached before that step.
pub open spec fn decisions_upto<P, F: Fn(OrderSide, P) -> Option<P>>(
    f: F,
    s: PaperView<P>,
    fee: P,
    now: Timestamp,
    symbol: Seq<char>,
    ids: Seq<String>,
    ds: Seq<Option<P>>,
    n: int,
) -> bool {
    forall|k: int|
        0 <= k < n ==> #[trigger] decided(
            f,
            spec_quote_pass(s, fee, now, symbol, ids.take(k), ds.take(k)).1,
            symbol,
            ids[k]@,
            ds[k],
        )
}

/// `ds` holds one answer of `f` per id of `ids`, for the pass over `ids`.
pub open spec fn decisions_from<P, F: Fn(OrderSide, P) -> Option<P>>(
    f: F,
    s: PaperView<P>,
    fee: P,
    now: Timestamp,
    symbol: Seq<char>,
    ids: Seq<String>,
    ds: Seq<Option<P>>,
) -> bool {
    &&& ds.len() == ids.len()
    &&& decisions_upto(f, s, fee, now, symbol, ids, ds, ids.len() as int)
}

/// Whether an order still works: it may yet fill or be cancelled.
pub open spec fn is_live(st: OrderStatus) -> bool {
    st == OrderStatus::Submitted || st == OrderStatus::PendingSubmit
}

/// Every working order rests among the open limit orders.
pub open spec fn live_orders_rest<P>(s: PaperView<P>) -> bool {
    forall|j: int|
        0 <= j < s.orders.len() && is_live((#[trigger] s.orders[j]).status) ==> views(
            s.open_limit_orders,
        ).contains(s.orders[j].id@)
}

/// The book's invariant: orders and resting ids strictly sorted by id, and
/// every working order resting.
pub open spec fn book_consistent<P>(s: PaperView<P>) -> bool {
    &&& strictly_sorted(order_ids(s.orders))
    &&& strictly_sorted(views(s.open_limit_orders))
    &&& live_orders_rest(s)
}

// ---------------------------------------------------------------------------
// Facts
// ---------------------------------------------------------------------------

proof fn lemma_str_lt_irreflexive(a: Seq<char>)
    ensures
        !str_lt(a, a),
    decreases a.len(),
{
    if a.len() > 0 {
        lemma_str_lt_irreflexive(a.drop_first());
    }
}

proof fn lemma_str_lt_trans(a: Seq<char>, b: Seq<char>, c: Seq<char>)
    requires
        str_lt(a, b),
        str_lt(b, c),
    ensures
        str_lt(a, c),
    decreases a.len(),
{
    if a.len() > 0 && b.len() > 0 && c.len() > 0 && a[0] == b[0] && b[0] == c[0] {
        lemma_str_lt_trans(a.drop_first(), b.drop_first(), c.drop_first());
    }
}

proof fn lemma_str_lt_extend(a: Seq<char>, c: char)
    ensures
        str_lt(a, a.push(c)),
    decreases a.len(),
{
    if a.len() > 0 {
        assert(a.push(c).drop_first() =~= a.drop_first().push(c));
        lemma_str_lt_extend(a.drop_first(), c);
    }
}

proof fn lemma_str_lt_total(a: Seq<char>, b: Seq<char>)
    requires
        a != b,
    ensures
        str_lt(a, b) || str_lt(b, a),
    decreases a.len(),
{
    if a.len() > 0 && b.len() > 0 {
        vstd::utf8::char_u32_cast(a[0], a[0] as u32);
        vstd::utf8::char_u32_cast(b[0], b[0] as u32);
    }
    if a.len() > 0 && b.len() > 0 && a[0] == b[0] {
        if a.drop_first() == b.drop_first() {
            assert(a =~= seq![a[0]] + a.drop_first());
            assert(b =~= seq![b[0]] + b.drop_first());
        }
        lemma_str_lt_total(a.drop_first(), b.drop_first());
    } else if a.len() == 0 && b.len() == 0 {
        assert(a =~= b);
    }
}

proof fn lemma_seq_index(s: Seq<Seq<char>>, k: Seq<char>, i: int)
    requires
        (i == -1 && forall|j: int| 0 <= j < s.len() ==> s[j] != k) || (0 <= i < s.len() && s[i]
            == k && forall|j: int| 0 <= j < i ==> s[j] != k),
    ensures
        seq_index(s, k) == i,
    decreases s.len(),
{
    if s.len() > 0 && s[0] != k {
        let t = s.drop_first();
        if i == -1 {
            assert forall|j: int| 0 <= j < t.len() implies t[j] != k by {
                assert(t[j] == s[j + 1]);
            }
            lemma_seq_index(t, k, -1);
        } else {
            assert forall|j: int| 0 <= j < i - 1 implies t[j] != k by {
                assert(t[j] == s[j + 1]);
            }
            lemma_seq_index(t, k, i - 1);
        }
    }
}

proof fn lemma_seq_index_range(s: Seq<Seq<char>>, k: Seq<char>)
    ensures
        -1 <= seq_index(s, k) < s.len(),
        seq_index(s, k) >= 0 ==> s[seq_index(s, k)] == k,
        forall|j: int|
            0 <= j < s.len() && (seq_index(s, k) < 0 || j < seq_index(s, k)) ==> s[j] != k,
    decreases s.len(),
{
    if s.len() > 0 && s[0] != k {
        let t = s.drop_first();
        lemma_seq_index_range(t, k);
        assert forall|j: int|
            0 <= j < s.len() && (seq_index(s, k) < 0 || j < seq_index(s, k)) implies s[j]
            != k by {
            if j > 0 {
                assert(s[j] == t[j - 1]);
            }
        }
    }
}

proof fn lemma_lower_bound(s: Seq<Seq<char>>, k: Seq<char>, p: int)
    requires
        0 <= p <= s.len(),
        forall|j: int| 0 <= j < p ==> str_lt(s[j], k),
        p < s.len() ==> !str_lt(s[p], k),
    ensures
        lower_bound(s, k) == p,
    decreases s.len(),
{
    if s.len() > 0 && str_lt(s[0], k) {
        let t = s.drop_first();
        assert forall|j: int| 0 <= j < p - 1 implies str_lt(t[j], k) by {
            assert(t[j] == s[j + 1]);
        }
        if p - 1 < t.len() {
            assert(t[p - 1] == s[p]);
        }
        lemma_lower_bound(t, k, p - 1);
    }
}

proof fn lemma_lower_bound_range(s: Seq<Seq<char>>, k: Seq<char>)
    ensures
        0 <= lower_bound(s, k) <= s.len(),
        forall|j: int| 0 <= j < lower_bound(s, k) ==> str_lt(s[j], k),
        lower_bound(s, k) < s.len() ==> !str_lt(s[lower_bound(s, k)], k),
    decreases s.len(),
{
    if s.len() > 0 && str_lt(s[0], k) {
        let t = s.drop_first();
        lemma_lower_bound_range(t, k);
        assert forall|j: int| 0 <= j < lower_bound(s, k) implies str_lt(s[j], k) by {
            if j > 0 {
                assert(s[j] == t[j - 1]);
            }
        }
    }
}

/// Placing `k` at its lower bound keeps a strictly sorted sequence sorted.
proof fn lemma_insert_sorted(s: Seq<Seq<char>>, k: Seq<char>)
    requires
        strictly_sorted(s),
        !(lower_bound(s, k) < s.len() && s[lower_bound(s, k)] == k),
    ensures
        strictly_sorted(s.insert(lower_bound(s, k), k)),
{
    lemma_lower_bound_range(s, k);
    let p = lower_bound(s, k);
    let r = s.insert(p, k);
    if p < s.len() {
        lemma_str_lt_total(s[p], k);
    }
    assert forall|i: int, j: int| 0 <= i < j < r.len() implies str_lt(#[trigger] r[i], #[trigger] r[j]) by {
        if j < p {
            assert(r[i] == s[i] && r[j] == s[j]);
        } else if j == p {
            assert(r[i] == s[i]);
        } else if i == p {
            assert(r[j] == s[j - 1]);
            if j - 1 > p {
                lemma_str_lt_trans(k, s[p], s[j - 1]);
            }
        } else if i < p {
            assert(r[i] == s[i] && r[j] == s[j - 1]);
        } else {
            assert(r[i] == s[i - 1] && r[j] == s[j - 1]);
        }
    }
}

/// In a strictly sorted sequence the lower bound of a present text is where it is.
proof fn lemma_sorted_index_is_lower_bound(s: Seq<Seq<char>>, k: Seq<char>)
    requires
        strictly_sorted(s),
    ensures
        seq_index(s, k) >= 0 ==> seq_index(s, k) == lower_bound(s, k),
        seq_index(s, k) < 0 ==> !(lower_bound(s, k) < s.len() && s[lower_bound(s, k)] == k),
{
    lemma_seq_index_range(s, k);
    lemma_lower_bound_range(s, k);
    let i = seq_index(s, k);
    if i >= 0 {
        assert forall|j: int| 0 <= j < i implies str_lt(s[j], k) by {
            assert(str_lt(s[j], s[i]));
        }
        lemma_str_lt_irreflexive(k);
        lemma_lower_bound(s, k, i);
    }
}

/// After storing `o` in a sorted book, looking up its id finds `o`, and the
/// book stays sorted.
proof fn lemma_find_put<P>(v: Seq<Order<P>>, o: Order<P>)
    requires
        strictly_sorted(order_ids(v)),
    ensures
        find_order(put_order(v, o), o.id@) == Some(o),
        strictly_sorted(order_ids(put_order(v, o))),
{
    let ids = order_ids(v);
    let k = o.id@;
    lemma_lower_bound_range(ids, k);
    let p = lower_bound(ids, k);
    let w = put_order(v, o);
    if p < v.len() && v[p].id@ == k {
        assert(order_ids(w) =~= ids);
        lemma_sorted_index_is_lower_bound(ids, k);
        lemma_seq_index_range(ids, k);
    } else {
        assert(order_ids(w) =~= ids.insert(p, k));
        lemma_insert_sorted(ids, k);
        lemma_str_lt_irreflexive(k);
        assert forall|j: int| 0 <= j < p implies order_ids(w)[j] != k by {
            assert(order_ids(w)[j] == ids[j]);
        }
        lemma_seq_index(order_ids(w), k, p);
    }
}

/// In a sorted book, the order found under `id` sits at the index
/// `seq_index` gives, and storing a copy with the same id replaces it there.
proof fn lemma_put_at_found<P>(v: Seq<Order<P>>, o: Order<P>, i: int)
    requires
        strictly_sorted(order_ids(v)),
        0 <= i < v.len(),
        seq_index(order_ids(v), o.id@) == i,
    ensures
        put_order(v, o) == v.update(i, o),
        strictly_sorted(order_ids(v.update(i, o))),
{
    let ids = order_ids(v);
    lemma_seq_index_range(ids, o.id@);
    lemma_sorted_index_is_lower_bound(ids, o.id@);
    assert(order_ids(v.update(i, o)) =~= ids);
}

/// After storing `o`, each order of the book is `o` or an order that was
/// there before under another id.
proof fn lemma_put_order_elements<P>(v: Seq<Order<P>>, o: Order<P>)
    requires
        strictly_sorted(order_ids(v)),
    ensures
        forall|j: int|
            0 <= j < put_order(v, o).len() ==> ((#[trigger] put_order(v, o)[j]) == o || (v.contains(
                put_order(v, o)[j],
            ) && put_order(v, o)[j].id@ != o.id@)),
{
    let ids = order_ids(v);
    let k = o.id@;
    lemma_lower_bound_range(ids, k);
    lemma_str_lt_irreflexive(k);
    let p = lower_bound(ids, k);
    let w = put_order(v, o);
    if p < v.len() && v[p].id@ == k {
        assert forall|j: int| 0 <= j < w.len() implies ((#[trigger] w[j]) == o || (v.contains(w[j])
            && w[j].id@ != k)) by {
            if j != p {
                assert(w[j] == v[j]);
                assert(ids[j] == v[j].id@ && ids[p] == v[p].id@);
                if j < p {
                    assert(str_lt(ids[j], ids[p]));
                } else {
                    assert(str_lt(ids[p], ids[j]));
                }
                assert(v.contains(v[j]));
            }
        }
    } else {
        assert forall|j: int| 0 <= j < w.len() implies ((#[trigger] w[j]) == o || (v.contains(w[j])
            && w[j].id@ != k)) by {
            if j < p {
                assert(w[j] == v[j]);
                assert(ids[j] == v[j].id@);
                assert(str_lt(ids[j], k));
                assert(v.contains(v[j]));
            } else if j > p {
                assert(w[j] == v[j - 1]);
                assert(ids[j - 1] == v[j - 1].id@ && ids[p] == v[p].id@);
                if j - 1 > p {
                    assert(str_lt(ids[p], ids[j - 1]));
                }
                assert(v.contains(v[j - 1]));
            }
        }
    }
}

/// In a sorted book an order is found under its own id.
proof fn lemma_find_present<P>(v: Seq<Order<P>>, j: int)
    requires
        strictly_sorted(order_ids(v)),
        0 <= j < v.len(),
    ensures
        find_order(v, v[j].id@) == Some(v[j]),
{
    let ids = order_ids(v);
    lemma_str_lt_irreflexive(ids[j]);
    assert forall|i: int| 0 <= i < j implies ids[i] != ids[j] by {
        assert(str_lt(ids[i], ids[j]));
    }
    assert(ids[j] == v[j].id@);
    lemma_seq_index(ids, v[j].id@, j);
}

/// Removing `id` keeps every other resting id.
proof fn lemma_remove_id_keeps(s: Seq<String>, id: Seq<char>, k: Seq<char>)
    requires
        views(s).contains(k),
        k != id,
    ensures
        views(remove_id(s, id)).contains(k),
{
    let vs = views(s);
    lemma_seq_index_range(vs, id);
    let i = seq_index(vs, id);
    let w = choose|w: int| 0 <= w < vs.len() && vs[w] == k;
    if i >= 0 {
        let r = views(remove_id(s, id));
        assert(r =~= vs.remove(i));
        if w < i {
            assert(r[w] == k);
        } else {
            assert(r[w - 1] == k);
        }
    } else {
        assert(vs[w] == k);
    }
}

/// Adding an id keeps the resting ids and adds that id.
pub(crate) proof fn lemma_put_id_contains(s: Seq<String>, id: String, k: Seq<char>)
    requires
        strictly_sorted(views(s)),
    ensures
        views(s).contains(k) ==> views(put_id(s, id)).contains(k),
        views(put_id(s, id)).contains(id@),
        views(put_id(s, id)).contains(k) ==> views(s).contains(k) || k == id@,
{
    let vs = views(s);
    lemma_lower_bound_range(vs, id@);
    let p = lower_bound(vs, id@);
    if p < s.len() && s[p]@ == id@ {
        assert(vs[p] == id@);
    } else {
        let t = views(put_id(s, id));
        assert(t =~= vs.insert(p, id@));
        assert(t[p] == id@);
        if t.contains(k) && k != id@ {
            let w = choose|w: int| 0 <= w < t.len() && t[w] == k;
            if w < p {
                assert(vs[w] == k);
            } else {
                assert(vs[w - 1] == k);
            }
        }
        if vs.contains(k) {
            let w = choose|w: int| 0 <= w < vs.len() && vs[w] == k;
            if w < p {
                assert(t[w] == k);
            } else {
                assert(t[w + 1] == k);
            }
        }
    }
}

/// Placing an order keeps the book consistent.
proof fn lemma_place_keeps<P>(
    s: PaperView<P>,
    fee: P,
    now: Timestamp,
    req: OrderRequest<P>,
    id: String,
    fill_price: Option<P>,
)
    requires
        book_consistent(s),
    ensures
        book_consistent(spec_place(s, fee, now, req, id, fill_price).1),
{
    let existing = match client_lookup(s.idempotency, req.client_order_id@) {
        Some(oid) => find_order(s.orders, oid@),
        None => None,
    };
    if existing is None {
        let base = submitted_order(now, req, id);
        let o = match fill_price {
            Some(px) => filled_order(base, px, now),
            None => base,
        };
        let s1 = spec_place(s, fee, now, req, id, fill_price).1;
        assert(s1.orders == put_order(s.orders, o));
        lemma_find_put(s.orders, o);
        lemma_put_order_elements(s.orders, o);
        lemma_put_id_sorted(s.open_limit_orders, id);
        lemma_put_id_contains(s.open_limit_orders, id, id@);
        assert forall|j: int|
            0 <= j < s1.orders.len() && is_live((#[trigger] s1.orders[j]).status) implies views(
            s1.open_limit_orders,
        ).contains(s1.orders[j].id@) by {
            let x = s1.orders[j];
            if x != o {
                let m = choose|m: int| 0 <= m < s.orders.len() && s.orders[m] == x;
                assert(is_live(s.orders[m].status));
                lemma_put_id_contains(s.open_limit_orders, id, x.id@);
            }
        }
    }
}

/// Cancelling keeps the book consistent.
proof fn lemma_cancel_keeps<P>(s: PaperView<P>, now: Timestamp, id: Seq<char>)
    requires
        book_consistent(s),
    ensures
        book_consistent(spec_cancel(s, now, id).1),
{
    lemma_seq_index_range(order_ids(s.orders), id);
    match find_order(s.orders, id) {
        Some(o) => {
            if !is_terminal(o.status) {
                let c = Order { status: OrderStatus::Cancelled, updated_at: now, ..o };
                assert(c.id@ == id);
                let s1 = spec_cancel(s, now, id).1;
                lemma_find_put(s.orders, c);
                lemma_put_order_elements(s.orders, c);
                lemma_remove_id_sorted(s.open_limit_orders, id);
                assert forall|j: int|
                    0 <= j < s1.orders.len() && is_live((#[trigger] s1.orders[j]).status) implies views(
                    s1.open_limit_orders,
                ).contains(s1.orders[j].id@) by {
                    let x = s1.orders[j];
                    let m = choose|m: int| 0 <= m < s.orders.len() && s.orders[m] == x;
                    assert(is_live(s.orders[m].status));
                    lemma_remove_id_keeps(s.open_limit_orders, id, x.id@);
                }
            }
        },
        None => {},
    }
}

/// One quote step keeps the book consistent.
proof fn lemma_quote_step_keeps<P>(
    s: PaperView<P>,
    fee: P,
    now: Timestamp,
    symbol: Seq<char>,
    id: Seq<char>,
    d: Option<P>,
)
    requires
        book_consistent(s),
    ensures
        book_consistent(spec_quote_step(s, fee, now, symbol, id, d).1),
{
    lemma_seq_index_range(order_ids(s.orders), id);
    let s1 = spec_quote_step(s, fee, now, symbol, id, d).1;
    match find_order(s.orders, id) {
        Some(o) => {
            assert(o.id@ == id);
            if o.symbol@ != symbol {
            } else if !(o.status == OrderStatus::Submitted || o.status == OrderStatus::PendingSubmit) {
                lemma_remove_id_sorted(s.open_limit_orders, id);
                assert forall|j: int|
                    0 <= j < s1.orders.len() && is_live((#[trigger] s1.orders[j]).status) implies views(
                    s1.open_limit_orders,
                ).contains(s1.orders[j].id@) by {
                    let x = s1.orders[j];
                    assert(x == s.orders[j]);
                    if x.id@ == id {
                        lemma_find_present(s.orders, j);
                    }
                    lemma_remove_id_keeps(s.open_limit_orders, id, x.id@);
                }
            } else if o.limit_price is None {
            } else {
                match d {
                    None => {},
                    Some(px) => {
                        let f = filled_order(o, px, now);
                        lemma_find_put(s.orders, f);
                        lemma_put_order_elements(s.orders, f);
                        lemma_remove_id_sorted(s.open_limit_orders, id);
                        assert forall|j: int|
                            0 <= j < s1.orders.len() && is_live((#[trigger] s1.orders[j]).status)
                            implies views(s1.open_limit_orders).contains(s1.orders[j].id@) by {
                            let x = s1.orders[j];
                            let m = choose|m: int| 0 <= m < s.orders.len() && s.orders[m] == x;
                            assert(is_live(s.orders[m].status));
                            lemma_remove_id_keeps(s.open_limit_orders, id, x.id@);
                        }
                    },
                }
            }
        },
        None => {},
    }
}

// ---------------------------------------------------------------------------
// Executable helpers
// ---------------------------------------------------------------------------

fn str_less(a: &Vec<char>, b: &Vec<char>) -> (r: bool)
    ensures
        r == str_lt(a@, b@),
{
    let mut i: usize = 0;
    assert(a@.skip(0) =~= a@);
    assert(b@.skip(0) =~= b@);
    while i < a.len() && i < b.len() && a[i] == b[i]
        invariant
            i <= a.len(),
            i <= b.len(),
            str_lt(a@.skip(i as int), b@.skip(i as int)) == str_lt(a@, b@),
        decreases a.len() - i,
    {
        assert(a@.skip(i as int).drop_first() =~= a@.skip(i + 1));
        assert(b@.skip(i as int).drop_first() =~= b@.skip(i + 1));
        i += 1;
    }
    if i == a.len() {
        i < b.len()
    } else if i == b.len() {
        false
    } else {
        (a[i] as u32) < (b[i] as u32)
    }
}

/// A copy of an order.
pub fn clone_order<P: Copy>(o: &Order<P>) -> (r: Order<P>)
    ensures
        r == *o,
{
    Order {
        id: o.id.clone(),
        symbol: o.symbol.clone(),
        side: o.side,
        qty: o.qty,
        order_type: o.order_type,
        limit_price: o.limit_price,
        status: o.status,
        filled_qty: o.filled_qty,
        avg_fill_price: o.avg_fill_price,
        created_at: o.created_at,
        updated_at: o.updated_at,
        client_order_id: o.client_order_id.clone(),
        last_error: match &o.last_error {
            Some(e) => Some(e.clone()),
            None => None,
        },
    }
}

/// Index of the order with id `id`.
fn order_position<P>(v: &Vec<Order<P>>, id: &Vec<char>) -> (r: Option<usize>)
    ensures
        seq_index(order_ids(v@), id@) == match r {
            Some(i) => i as int,
            None => -1,
        },
        r matches Some(i) ==> i < v@.len(),
{
    let ghost ids = order_ids(v@);
    let mut i: usize = 0;
    while i < v.len()
        invariant
            i <= v@.len(),
            ids == order_ids(v@),
            forall|j: int| 0 <= j < i ==> ids[j] != id@,
        decreases v.len() - i,
    {
        if chars_eq(&chars_of(v[i].id.as_str()), id) {
            proof {
                lemma_seq_index(ids, id@, i as int);
            }
            return Some(i);
        }
        i += 1;
    }
    proof {
        lemma_seq_index(ids, id@, -1);
    }
    None
}

fn string_position(v: &Vec<String>, id: &Vec<char>) -> (r: Option<usize>)
    ensures
        seq_index(views(v@), id@) == match r {
            Some(i) => i as int,
            None => -1,
        },
        r matches Some(i) ==> i < v@.len(),
{
    let ghost ids = views(v@);
    let mut i: usize = 0;
    while i < v.len()
        invariant
            i <= v@.len(),
            ids == views(v@),
            forall|j: int| 0 <= j < i ==> ids[j] != id@,
        decreases v.len() - i,
    {
        if chars_eq(&chars_of(v[i].as_str()), id) {
            proof {
                lemma_seq_index(ids, id@, i as int);
            }
            return Some(i);
        }
        i += 1;
    }
    proof {
        lemma_seq_index(ids, id@, -1);
    }
    None
}

fn client_position(v: &Vec<(String, String)>, k: &Vec<char>) -> (r: Option<usize>)
    ensures
        client_index(v@, k@) == match r {
            Some(i) => i as int,
            None => -1,
        },
        r matches Some(i) ==> i < v@.len(),
{
    let ghost ks = v@.map_values(|p: (String, String)| p.0@);
    let mut i: usize = 0;
    while i < v.len()
        invariant
            i <= v@.len(),
            ks == v@.map_values(|p: (String, String)| p.0@),
            forall|j: int| 0 <= j < i ==> ks[j] != k@,
        decreases v.len() - i,
    {
        if chars_eq(&chars_of(v[i].0.as_str()), k) {
            proof {
                lemma_seq_index(ks, k@, i as int);
            }
            return Some(i);
        }
        i += 1;
    }
    proof {
        lemma_seq_index(ks, k@, -1);
    }
    None
}

fn order_lower_bound<P>(v: &Vec<Order<P>>, id: &Vec<char>) -> (p: usize)
    ensures
        p as int == lower_bound(order_ids(v@), id@),
        p <= v@.len(),
{
    let ghost ids = order_ids(v@);
    let mut i: usize = 0;
    while i < v.len() && str_less(&chars_of(v[i].id.as_str()), id)
        invariant
            i <= v@.len(),
            ids == order_ids(v@),
            forall|j: int| 0 <= j < i ==> str_lt(ids[j], id@),
        decreases v.len() - i,
    {
        i += 1;
    }
    proof {
        lemma_lower_bound(ids, id@, i as int);
    }
    i
}

fn string_lower_bound(v: &Vec<String>, id: &Vec<char>) -> (p: usize)
    ensures
        p as int == lower_bound(views(v@), id@),
        p <= v@.len(),
{
    let ghost ids = views(v@);
    let mut i: usize = 0;
    while i < v.len() && str_less(&chars_of(v[i].as_str()), id)
        invariant
            i <= v@.len(),
            ids == views(v@),
            forall|j: int| 0 <= j < i ==> str_lt(ids[j], id@),
        decreases v.len() - i,
    {
        i += 1;
    }
    proof {
        lemma_lower_bound(ids, id@, i as int);
    }
    i
}

/// Stores an order at its sorted place (see `put_order`).
fn store_order<P>(v: &mut Vec<Order<P>>, o: Order<P>)
    ensures
        final(v)@ == put_order(old(v)@, o),
{
    let id = chars_of(o.id.as_str());
    let p = order_lower_bound(v, &id);
    if p < v.len() && chars_eq(&chars_of(v[p].id.as_str()), &id) {
        v.set(p, o);
    } else {
        v.insert(p, o);
    }
}

/// Adds an id at its sorted place (see `put_id`).
pub(crate) fn store_id(v: &mut Vec<String>, id: String)
    ensures
        final(v)@ == put_id(old(v)@, id),
{
    let k = chars_of(id.as_str());
    let p = string_lower_bound(v, &k);
    if p < v.len() && chars_eq(&chars_of(v[p].as_str()), &k) {
    } else {
        v.insert(p, id);
    }
}

/// Removes the first occurrence of an id.
fn drop_id(v: &mut Vec<String>, id: &Vec<char>)
    ensures
        final(v)@ == remove_id(old(v)@, id@),
{
    if let Some(i) = string_position(v, id) {
        v.remove(i);
    }
}

/// The idempotency key of a new order id, the order id cloned.
fn record_client(v: &mut Vec<(String, String)>, k: String, id: String)
    ensures
        final(v)@ == client_put(old(v)@, k, id),
{
    let kc = chars_of(k.as_str());
    match client_position(v, &kc) {
        Some(i) => {
            v.set(i, (k, id));
        },
        None => {
            v.push((k, id));
        },
    }
}

/// A copy of a list of strings.
fn copy_strings(v: &Vec<String>) -> (r: Vec<String>)
    ensures
        r@ == v@,
{
    let mut r: Vec<String> = Vec::new();
    let mut i: usize = 0;
    while i < v.len()
        invariant
            i <= v@.len(),
            r@ == v@.take(i as int),
        decreases v.len() - i,
    {
        r.push(v[i].clone());
        i += 1;
        assert(r@ =~= v@.take(i as int));
    }
    assert(v@.take(v@.len() as int) =~= v@);
    r
}

/// A fresh order id (a random UUID, v4).
#[verifier::external_body]
fn new_order_id() -> (id: String) {
    uuid::Uuid::new_v4().to_string()
}

impl<P: Copy> PaperExecution<P> {
    /// The book is well formed (see `book_wf`).
    pub open spec fn wf(&self) -> bool {
        book_wf(self@)
    }

    /// The fee charged per fill.
    pub closed spec fn spec_fee(&self) -> P {
        self.cfg.fee_per_trade
    }

    /// The slippage in basis points that fills are priced with.
    pub closed spec fn spec_slippage(&self) -> P {
        self.cfg.slippage_bps
    }

    /// The slippage in basis points that fills are priced with.
    pub fn slippage_bps(&self) -> (s: P)
        ensures
            s == self.spec_slippage(),
    {
        self.cfg.slippage_bps
    }

    /// The fee charged per fill.
    pub fn fee_per_trade(&self) -> (f: P)
        ensures
            f == self.spec_fee(),
    {
        self.cfg.fee_per_trade
    }

    /// An empty book.
    pub fn new(cfg: PaperExecutionConfig<P>) -> (e: Self)
        ensures
            e.wf(),
            e.spec_fee() == cfg.fee_per_trade,
            e.spec_slippage() == cfg.slippage_bps,
            e@.idempotency.len() == 0,
            e@.orders.len() == 0,
            e@.open_limit_orders.len() == 0,
    {
        PaperExecution {
            cfg,
            idempotency: Vec::new(),
            orders: Vec::new(),
            open_limit_orders: Vec::new(),
        }
    }

    /// All orders, sorted by id.
    pub fn orders(&self) -> (v: &Vec<Order<P>>)
        ensures
            v@ == self@.orders,
    {
        &self.orders
    }

    /// The order with id `order_id`.
    pub fn get_order(&self, order_id: &str) -> (r: Option<Order<P>>)
        ensures
            r == find_order(self@.orders, order_id@),
    {
        let id = chars_of(order_id);
        match order_position(&self.orders, &id) {
            Some(i) => Some(clone_order(&self.orders[i])),
            None => None,
        }
    }

    /// Places an order under a given id, one not yet in the book (see
    /// `spec_place`). `fill_price` is the price at which the order fills now,
    /// when it is marketable.
    pub fn place_order_with_id(
        &mut self,
        now: Timestamp,
        req: OrderRequest<P>,
        order_id: String,
        fill_price: Option<P>,
    ) -> (r: (Order<P>, Option<Fill<P>>))
        requires
            old(self).wf(),
            find_order(old(self)@.orders, order_id@) is None,
        ensures
            final(self).wf(),
            final(self).spec_fee() == old(self).spec_fee(),
            final(self).spec_slippage() == old(self).spec_slippage(),
            (r, final(self)@) == spec_place(
                old(self)@,
                old(self).spec_fee(),
                now,
                req,
                order_id,
                fill_price,
            ),
    {
        let ghost s0 = self@;
        proof {
            lemma_place_keeps_resting(s0, self.spec_fee(), now, req, order_id, fill_price);
        }
        let cid = chars_of(req.client_order_id.as_str());
        if let Some(ci) = client_position(&self.idempotency, &cid) {
            let oid = chars_of(self.idempotency[ci].1.as_str());
            if let Some(oi) = order_position(&self.orders, &oid) {
                return (clone_order(&self.orders[oi]), None);
            }
        }
        let base = Order {
            id: order_id.clone(),
            symbol: req.symbol,
            side: req.side,
            qty: req.qty,
            order_type: req.order_type,
            limit_price: req.limit_price,
            status: OrderStatus::Submitted,
            filled_qty: 0,
            avg_fill_price: None,
            created_at: now,
            updated_at: now,
            client_order_id: req.client_order_id.clone(),
            last_error: None,
        };
        record_client(&mut self.idempotency, req.client_order_id, order_id.clone());
        let ghost ids0 = order_ids(s0.orders);
        proof {
            lemma_sorted_index_is_lower_bound(ids0, order_id@);
            lemma_seq_index_range(ids0, order_id@);
            lemma_lower_bound_range(ids0, order_id@);
        }
        match fill_price {
            Some(px) => {
                let o = Order {
                    status: OrderStatus::Filled,
                    filled_qty: base.qty,
                    avg_fill_price: Some(px),
                    updated_at: now,
                    ..base
                };
                let f = Fill {
                    order_id: o.id.clone(),
                    symbol: o.symbol.clone(),
                    side: o.side,
                    qty: o.qty,
                    price: px,
                    fee: self.cfg.fee_per_trade,
                    ts: now,
                };
                let out = clone_order(&o);
                store_order(&mut self.orders, o);
                proof {
                    self.lemma_put_order_sorted(s0.orders, out);
                }
                (out, Some(f))
            },
            None => {
                let out = clone_order(&base);
                store_order(&mut self.orders, base);
                store_id(&mut self.open_limit_orders, order_id);
                proof {
                    self.lemma_put_order_sorted(s0.orders, out);
                    lemma_put_id_sorted(s0.open_limit_orders, out.id);
                }
                (out, None)
            },
        }
    }

    /// Storing an order keeps the ids strictly sorted.
    proof fn lemma_put_order_sorted(&self, v: Seq<Order<P>>, o: Order<P>)
        requires
            strictly_sorted(order_ids(v)),
        ensures
            strictly_sorted(order_ids(put_order(v, o))),
    {
        let ids = order_ids(v);
        lemma_lower_bound_range(ids, o.id@);
        let p = lower_bound(ids, o.id@);
        if p < v.len() && v[p].id@ == o.id@ {
            assert(order_ids(put_order(v, o)) =~= ids);
        } else {
            assert(order_ids(put_order(v, o)) =~= ids.insert(p, o.id@));
            lemma_insert_sorted(ids, o.id@);
        }
    }

    /// Places an order under a fresh random id (see `spec_place`); a repeated
    /// client order id gives the stored order back.
    pub fn place_order(&mut self, now: Timestamp, req: OrderRequest<P>, fill_price: Option<P>) -> (r: (
        Order<P>,
        Option<Fill<P>>,
    ))
        requires
            old(self).wf(),
        ensures
            final(self).wf(),
            final(self).spec_fee() == old(self).spec_fee(),
            final(self).spec_slippage() == old(self).spec_slippage(),
            exists|id: String|
                (!client_bound_to_order(old(self)@, req.client_order_id@) ==> find_order(
                    old(self)@.orders,
                    id@,
                ) is None) && (r, final(self)@) == spec_place(
                    old(self)@,
                    old(self).spec_fee(),
                    now,
                    req,
                    id,
                    fill_price,
                ),
    {
        let cid = chars_of(req.client_order_id.as_str());
        if let Some(ci) = client_position(&self.idempotency, &cid) {
            let oid = chars_of(self.idempotency[ci].1.as_str());
            if let Some(oi) = order_position(&self.orders, &oid) {
                let r = (clone_order(&self.orders[oi]), None);
                assert((r, self@) == spec_place(self@, self.spec_fee(), now, req, req.client_order_id, fill_price));
                return r;
            }
        }
        proof {
            lemma_seq_index_range(
                self@.idempotency.map_values(|p: (String, String)| p.0@),
                req.client_order_id@,
            );
        }
        let id = self.fresh_order_id(new_order_id());
        self.place_order_with_id(now, req, id, fill_price)
    }

    /// `candidate` when no order has that id; otherwise (a random id is
    /// practically never taken) the greatest stored id with `0` appended,
    /// which is above every stored id.
    fn fresh_order_id(&self, candidate: String) -> (id: String)
        requires
            self.wf(),
        ensures
            find_order(self@.orders, id@) is None,
    {
        let c = chars_of(candidate.as_str());
        match order_position(&self.orders, &c) {
            None => candidate,
            Some(_) => {
                let n = self.orders.len();
                let mut v = chars_of(self.orders[n - 1].id.as_str());
                let ghost last = v@;
                v.push('0');
                proof {
                    let ids = order_ids(self@.orders);
                    assert(ids[n - 1] == last);
                    lemma_str_lt_extend(last, '0');
                    assert forall|j: int| 0 <= j < ids.len() implies ids[j] != v@ by {
                        if j < n - 1 {
                            assert(str_lt(ids[j], ids[n - 1]));
                            lemma_str_lt_trans(ids[j], last, v@);
                        }
                        lemma_str_lt_irreflexive(v@);
                    }
                    lemma_seq_index(ids, v@, -1);
                }
                string_of(&v)
            },
        }
    }

    /// Cancels the order `order_id` (see `spec_cancel`): unknown ids give
    /// `None`; filled, cancelled and rejected orders come back unchanged.
    pub fn cancel_order(&mut self, now: Timestamp, order_id: &str) -> (r: Option<Order<P>>)
        requires
            old(self).wf(),
        ensures
            final(self).wf(),
            final(self).spec_fee() == old(self).spec_fee(),
            final(self).spec_slippage() == old(self).spec_slippage(),
            (r, final(self)@) == spec_cancel(old(self)@, now, order_id@),
    {
        let ghost s0 = self@;
        proof {
            lemma_cancel_keeps_resting(s0, now, order_id@);
        }
        let id = chars_of(order_id);
        let i = match order_position(&self.orders, &id) {
            Some(i) => i,
            None => {
                return None;
            },
        };
        let o = clone_order(&self.orders[i]);
        match o.status {
            OrderStatus::Filled | OrderStatus::Cancelled | OrderStatus::Rejected => {
                return Some(o);
            },
            _ => {},
        }
        let c = Order { status: OrderStatus::Cancelled, updated_at: now, ..o };
        let out = clone_order(&c);
        proof {
            lemma_seq_index_range(order_ids(s0.orders), id@);
            assert(order_ids(s0.orders)[i as int] == out.id@);
            lemma_put_at_found(s0.orders, out, i as int);
            lemma_remove_id_sorted(s0.open_limit_orders, id@);
        }
        self.orders.set(i, c);
        drop_id(&mut self.open_limit_orders, &id);
        Some(out)
    }

    /// Cancels every resting limit order, in id order, and returns the orders
    /// given back (see `spec_cancel_each`).
    pub fn cancel_all_open(&mut self, now: Timestamp) -> (out: Vec<Order<P>>)
        requires
            old(self).wf(),
        ensures
            final(self).wf(),
            final(self).spec_fee() == old(self).spec_fee(),
            final(self).spec_slippage() == old(self).spec_slippage(),
            (out@, final(self)@) == spec_cancel_each(old(self)@, now, old(self)@.open_limit_orders),
    {
        let ghost s0 = self@;
        let ids = copy_strings(&self.open_limit_orders);
        let mut out: Vec<Order<P>> = Vec::new();
        let mut k: usize = 0;
        while k < ids.len()
            invariant
                k <= ids@.len(),
                ids@ == s0.open_limit_orders,
                self.wf(),
                self.spec_fee() == old(self).spec_fee(),
                self.spec_slippage() == old(self).spec_slippage(),
                (out@, self@) == spec_cancel_each(s0, now, ids@.take(k as int)),
            decreases ids.len() - k,
        {
            assert(ids@.take(k + 1).drop_last() =~= ids@.take(k as int));
            let r = self.cancel_order(now, ids[k].as_str());
            if let Some(o) = r {
                out.push(o);
            }
            k += 1;
        }
        assert(ids@.take(ids@.len() as int) =~= ids@);
        out
    }

    /// Checks each resting limit order against a quote for `quote_symbol`, in
    /// id order (see `spec_quote_pass`). For each order the pass reaches,
    /// `decide` is given its side and limit price and answers with the fill
    /// price when the order is marketable at this quote.
    pub fn on_quote<F: Fn(OrderSide, P) -> Option<P>>(
        &mut self,
        now: Timestamp,
        quote_symbol: &str,
        decide: F,
    ) -> (filled: Vec<(Order<P>, Fill<P>)>)
        requires
            old(self).wf(),
            forall|side: OrderSide, limit: P| call_requires(decide, (side, limit)),
        ensures
            final(self).wf(),
            final(self).spec_fee() == old(self).spec_fee(),
            final(self).spec_slippage() == old(self).spec_slippage(),
            exists|ds: Seq<Option<P>>|
                decisions_from(
                    decide,
                    old(self)@,
                    old(self).spec_fee(),
                    now,
                    quote_symbol@,
                    old(self)@.open_limit_orders,
                    ds,
                ) && (filled@, final(self)@) == #[trigger] spec_quote_pass(
                    old(self)@,
                    old(self).spec_fee(),
                    now,
                    quote_symbol@,
                    old(self)@.open_limit_orders,
                    ds,
                ),
    {
        let ghost s0 = self@;
        let ghost fee = self.spec_fee();
        let sym = chars_of(quote_symbol);
        let ids = copy_strings(&self.open_limit_orders);
        let mut filled: Vec<(Order<P>, Fill<P>)> = Vec::new();
        let ghost mut ds: Seq<Option<P>> = Seq::empty();
        let mut k: usize = 0;
        while k < ids.len()
            invariant
                k <= ids@.len(),
                ids@ == s0.open_limit_orders,
                self.wf(),
                self.spec_fee() == fee,
                self.spec_slippage() == old(self).spec_slippage(),
                sym@ == quote_symbol@,
                ds.len() == k,
                forall|side: OrderSide, limit: P| call_requires(decide, (side, limit)),
                (filled@, self@) == spec_quote_pass(s0, fee, now, sym@, ids@.take(k as int), ds),
                decisions_upto(decide, s0, fee, now, sym@, ids@, ds, k as int),
            decreases ids.len() - k,
        {
            let ghost st = self@;
            let id = chars_of(ids[k].as_str());
            let mut d: Option<P> = None;
            if let Some(i) = order_position(&self.orders, &id) {
                let reached_symbol = chars_eq(&chars_of(self.orders[i].symbol.as_str()), &sym);
                let live = match self.orders[i].status {
                    OrderStatus::Submitted | OrderStatus::PendingSubmit => true,
                    _ => false,
                };
                if reached_symbol && !live {
                    proof {
                        lemma_remove_id_sorted(st.open_limit_orders, id@);
                    }
                    drop_id(&mut self.open_limit_orders, &id);
                } else if reached_symbol {
                    if let Some(limit) = self.orders[i].limit_price {
                        let side = self.orders[i].side;
                        d = decide(side, limit);
                        if let Some(px) = d {
                            let o = clone_order(&self.orders[i]);
                            let f = Order {
                                status: OrderStatus::Filled,
                                filled_qty: o.qty,
                                avg_fill_price: Some(px),
                                updated_at: now,
                                ..o
                            };
                            let fill = Fill {
                                order_id: f.id.clone(),
                                symbol: f.symbol.clone(),
                                side: f.side,
                                qty: f.qty,
                                price: px,
                                fee: self.cfg.fee_per_trade,
                                ts: now,
                            };
                            let out = clone_order(&f);
                            proof {
                                lemma_seq_index_range(order_ids(st.orders), id@);
                                assert(order_ids(st.orders)[i as int] == out.id@);
                                lemma_put_at_found(st.orders, out, i as int);
                                lemma_remove_id_sorted(st.open_limit_orders, id@);
                            }
                            self.orders.set(i, f);
                            drop_id(&mut self.open_limit_orders, &id);
                            filled.push((out, fill));
                        }
                    }
                }
            }
            proof {
                lemma_quote_step_keeps_resting(st, fee, now, sym@, id@, d);
                let ds1 = ds.push(d);
                assert(ids@.take(k + 1).drop_last() =~= ids@.take(k as int));
                assert(ds1.take(k + 1).drop_last() =~= ds);
                assert(ds1.take(k + 1) =~= ds1);
                assert(ds1.take(k as int) =~= ds);
                assert(decided(decide, st, sym@, ids@[k as int]@, d));
                assert forall|j: int| 0 <= j < k + 1 implies #[trigger] decided(
                    decide,
                    spec_quote_pass(s0, fee, now, sym@, ids@.take(j), ds1.take(j)).1,
                    sym@,
                    ids@[j]@,
                    ds1[j],
                ) by {
                    if j < k {
                        assert(ds1.take(j) =~= ds.take(j));
                        assert(ds1[j] == ds[j]);
                    }
                }
                ds = ds1;
            }
            k += 1;
        }
        assert(ids@.take(ids@.len() as int) =~= ids@);
        filled
    }
}

/// Adding an id keeps the resting ids strictly sorted.
pub(crate) proof fn lemma_put_id_sorted(s: Seq<String>, id: String)
    requires
        strictly_sorted(views(s)),
    ensures
        strictly_sorted(views(put_id(s, id))),
{
    let ids = views(s);
    lemma_lower_bound_range(ids, id@);
    let p = lower_bound(ids, id@);
    if !(p < s.len() && s[p]@ == id@) {
        assert(views(put_id(s, id)) =~= ids.insert(p, id@));
        lemma_insert_sorted(ids, id@);
    }
}

/// Removing an id keeps the resting ids strictly sorted.
proof fn lemma_remove_id_sorted(s: Seq<String>, id: Seq<char>)
    requires
        strictly_sorted(views(s)),
    ensures
        strictly_sorted(views(remove_id(s, id))),
{
    lemma_seq_index_range(views(s), id);
    let i = seq_index(views(s), id);
    if i >= 0 {
        let r = views(remove_id(s, id));
        assert(r =~= views(s).remove(i));
        assert forall|a: int, b: int| 0 <= a < b < r.len() implies str_lt(#[trigger] r[a], #[trigger] r[b]) by {
            let a2 = if a < i { a } else { a + 1 };
            let b2 = if b < i { b } else { b + 1 };
            assert(r[a] == views(s)[a2] && r[b] == views(s)[b2]);
        }
    }
}

// ---------------------------------------------------------------------------
// Laws
// ---------------------------------------------------------------------------

/// Recording `(k, v)` makes `k` look up `v`.
proof fn lemma_client_put_lookup(s: Seq<(String, String)>, k: String, v: String)
    ensures
        client_lookup(client_put(s, k, v), k@) == Some(v),
{
    let ks = s.map_values(|p: (String, String)| p.0@);
    lemma_seq_index_range(ks, k@);
    let i = client_index(s, k@);
    let t = client_put(s, k, v);
    let kt = t.map_values(|p: (String, String)| p.0@);
    if i < 0 {
        assert forall|j: int| 0 <= j < s.len() implies kt[j] != k@ by {
            assert(kt[j] == ks[j]);
        }
        lemma_seq_index(kt, k@, s.len() as int);
    } else {
        assert forall|j: int| 0 <= j < i implies kt[j] != k@ by {
            assert(kt[j] == ks[j]);
        }
        lemma_seq_index(kt, k@, i);
    }
}

/// Placing an order a second time under the same client order id gives the
/// order of the first placement back, with no fill, and changes nothing:
/// whatever the new id, time, request fields or marketable price.
pub proof fn law_place_is_idempotent<P>(
    s: PaperView<P>,
    fee: P,
    now: Timestamp,
    req: OrderRequest<P>,
    id: String,
    fill_price: Option<P>,
    now2: Timestamp,
    req2: OrderRequest<P>,
    id2: String,
    fill_price2: Option<P>,
)
    requires
        strictly_sorted(order_ids(s.orders)),
        req2.client_order_id@ == req.client_order_id@,
    ensures
        ({
            let (r1, s1) = spec_place(s, fee, now, req, id, fill_price);
            spec_place(s1, fee, now2, req2, id2, fill_price2) == ((r1.0, None::<Fill<P>>), s1)
        }),
{
    let (r1, s1) = spec_place(s, fee, now, req, id, fill_price);
    let existing = match client_lookup(s.idempotency, req.client_order_id@) {
        Some(oid) => find_order(s.orders, oid@),
        None => None,
    };
    if existing is None {
        lemma_client_put_lookup(s.idempotency, req.client_order_id, id);
        let base = submitted_order(now, req, id);
        match fill_price {
            Some(px) => {
                lemma_find_put(s.orders, filled_order(base, px, now));
            },
            None => {
                lemma_find_put(s.orders, base);
            },
        }
    }
}

/// Cancelling an order twice is the same as cancelling it once: the second
/// call gives back what the first gave and changes nothing.
pub proof fn law_cancel_is_idempotent<P>(s: PaperView<P>, now: Timestamp, now2: Timestamp, id: Seq<char>)
    requires
        strictly_sorted(order_ids(s.orders)),
    ensures
        ({
            let (r1, s1) = spec_cancel(s, now, id);
            spec_cancel(s1, now2, id) == (r1, s1)
        }),
{
    lemma_seq_index_range(order_ids(s.orders), id);
    match find_order(s.orders, id) {
        Some(o) => {
            if !is_terminal(o.status) {
                let c = Order { status: OrderStatus::Cancelled, updated_at: now, ..o };
                assert(c.id@ == id);
                lemma_find_put(s.orders, c);
            }
        },
        None => {},
    }
}

/// Cancelling a live order takes its id off the resting limit orders.
pub proof fn law_cancel_stops_resting<P>(s: PaperView<P>, now: Timestamp, id: Seq<char>)
    requires
        strictly_sorted(views(s.open_limit_orders)),
        find_order(s.orders, id) matches Some(o) && !is_terminal(o.status),
    ensures
        seq_index(views(spec_cancel(s, now, id).1.open_limit_orders), id) < 0,
{
    let v = views(s.open_limit_orders);
    lemma_seq_index_range(v, id);
    let i = seq_index(v, id);
    let r = views(remove_id(s.open_limit_orders, id));
    if i >= 0 {
        assert(r =~= v.remove(i));
        assert forall|j: int| 0 <= j < r.len() implies r[j] != id by {
            lemma_str_lt_irreflexive(id);
            if j < i {
                assert(r[j] == v[j]);
            } else {
                assert(r[j] == v[j + 1]);
                assert(str_lt(v[i], v[j + 1]));
            }
        }
    } else {
        assert(r =~= v);
    }
    lemma_seq_index_range(r, id);
}

/// Cancelling the ids `ids` one after another: every order still working at
/// the end has its id among those not yet cancelled, and the book stays sorted.
proof fn lemma_cancel_prefix<P>(s: PaperView<P>, now: Timestamp, ids: Seq<String>, k: int)
    requires
        strictly_sorted(order_ids(s.orders)),
        0 <= k <= ids.len(),
        forall|j: int|
            0 <= j < s.orders.len() && is_live((#[trigger] s.orders[j]).status) ==> views(
                ids,
            ).contains(s.orders[j].id@),
    ensures
        ({
            let st = spec_cancel_each(s, now, ids.take(k)).1;
            &&& strictly_sorted(order_ids(st.orders))
            &&& forall|j: int|
                0 <= j < st.orders.len() && is_live((#[trigger] st.orders[j]).status) ==> views(
                    ids.skip(k),
                ).contains(st.orders[j].id@)
        }),
    decreases k,
{
    if k == 0 {
        assert(ids.take(0) =~= Seq::<String>::empty());
        assert(ids.skip(0) =~= ids);
    } else {
        lemma_cancel_prefix(s, now, ids, k - 1);
        let pre = ids.take(k);
        assert(pre.drop_last() =~= ids.take(k - 1));
        assert(pre.last() == ids[k - 1]);
        let st0 = spec_cancel_each(s, now, ids.take(k - 1)).1;
        let id = ids[k - 1]@;
        let st1 = spec_cancel(st0, now, id).1;
        assert(spec_cancel_each(s, now, pre).1 == st1);
        let rest0 = views(ids.skip(k - 1));
        let rest1 = views(ids.skip(k));
        assert(rest0 =~= seq![id] + rest1);
        lemma_seq_index_range(order_ids(st0.orders), id);
        let changed = match find_order(st0.orders, id) {
            Some(o) => !is_terminal(o.status),
            None => false,
        };
        if changed {
            let o = find_order(st0.orders, id)->0;
            let c = Order { status: OrderStatus::Cancelled, updated_at: now, ..o };
            assert(c.id@ == id);
            lemma_find_put(st0.orders, c);
            lemma_put_order_elements(st0.orders, c);
        }
        assert forall|j: int|
            0 <= j < st1.orders.len() && is_live((#[trigger] st1.orders[j]).status) implies rest1.contains(
            st1.orders[j].id@,
        ) by {
            let x = st1.orders[j];
            let m = if changed {
                choose|m: int| 0 <= m < st0.orders.len() && st0.orders[m] == x
            } else {
                j
            };
            assert(st0.orders[m] == x);
            assert(is_live(st0.orders[m].status));
            if x.id@ == id {
                lemma_find_present(st0.orders, m);
            }
            assert(rest0.contains(x.id@));
            let w = choose|w: int| 0 <= w < rest0.len() && rest0[w] == x.id@;
            assert(w != 0);
            assert(rest1[w - 1] == x.id@);
        }
    }
}

/// The kill switch's cancel-all leaves nothing working: once every resting
/// limit order has been cancelled, no order of the book may still fill.
pub proof fn law_cancel_all_leaves_nothing_working<P>(s: PaperView<P>, now: Timestamp)
    requires
        book_consistent(s),
    ensures
        forall|j: int|
            0 <= j < spec_cancel_each(s, now, s.open_limit_orders).1.orders.len() ==> !is_live(
                (#[trigger] spec_cancel_each(s, now, s.open_limit_orders).1.orders[j]).status,
            ),
{
    let ids = s.open_limit_orders;
    lemma_cancel_prefix(s, now, ids, ids.len() as int);
    assert(ids.take(ids.len() as int) =~= ids);
    assert(views(ids.skip(ids.len() as int)) =~= Seq::<Seq<char>>::empty());
}


// ---------------------------------------------------------------------------
// Laws over sequences of operations
// ---------------------------------------------------------------------------

/// An order found under `k` carries the id `k`.
proof fn lemma_find_order_id<P>(v: Seq<Order<P>>, k: Seq<char>)
    ensures
        find_order(v, k) matches Some(o) ==> o.id@ == k,
{
    lemma_seq_index_range(order_ids(v), k);
}

/// Storing `o` leaves what is found under every other id as it was.
proof fn lemma_find_put_other<P>(v: Seq<Order<P>>, o: Order<P>, x: Seq<char>)
    requires
        strictly_sorted(order_ids(v)),
        x != o.id@,
    ensures
        find_order(put_order(v, o), x) == find_order(v, x),
{
    let w = put_order(v, o);
    lemma_find_put(v, o);
    lemma_put_order_elements(v, o);
    let ids = order_ids(v);
    lemma_seq_index_range(ids, x);
    lemma_seq_index_range(order_ids(w), x);
    lemma_lower_bound_range(ids, o.id@);
    let p = lower_bound(ids, o.id@);
    let i = seq_index(ids, x);
    if i >= 0 {
        assert(v[i].id@ == x);
        let j = if p < v.len() && v[p].id@ == o.id@ {
            i
        } else if i < p {
            i
        } else {
            i + 1
        };
        assert(w[j] == v[i]);
        lemma_find_present(w, j);
    } else {
        let iw = seq_index(order_ids(w), x);
        if iw >= 0 {
            assert(w[iw].id@ == x);
            let m = choose|m: int| 0 <= m < v.len() && v[m] == w[iw];
            assert(ids[m] == x);
        }
    }
}

/// Recording a client id leaves the lookup of every other client id as it was.
proof fn lemma_client_put_other(s: Seq<(String, String)>, k: String, v: String, c: Seq<char>)
    requires
        c != k@,
    ensures
        client_lookup(client_put(s, k, v), c) == client_lookup(s, c),
{
    let ks = s.map_values(|p: (String, String)| p.0@);
    let t = client_put(s, k, v);
    let kt = t.map_values(|p: (String, String)| p.0@);
    lemma_seq_index_range(ks, k@);
    lemma_seq_index_range(ks, c);
    let i = client_index(s, k@);
    let j = client_index(s, c);
    if j >= 0 {
        assert forall|m: int| 0 <= m < j implies kt[m] != c by {
            if m != i || i < 0 {
                assert(kt[m] == ks[m]);
            }
        }
        assert(kt[j] == ks[j]);
        assert(t[j] == s[j]);
        lemma_seq_index(kt, c, j);
    } else {
        assert forall|m: int| 0 <= m < kt.len() implies kt[m] != c by {
            if m < s.len() && (m != i || i < 0) {
                assert(kt[m] == ks[m]);
            }
        }
        lemma_seq_index(kt, c, -1);
    }
}

/// An operation on the paper book.
pub enum PaperOp<P> {
    /// `place_order_with_id`.
    Place { now: Timestamp, req: OrderRequest<P>, id: String, fill_price: Option<P> },
    /// `cancel_order`.
    Cancel { now: Timestamp, id: String },
    /// One step of `on_quote` over resting order `id`, with the host's answer.
    QuoteStep { now: Timestamp, symbol: String, id: String, decision: Option<P> },
}

/// The book after one operation.
pub open spec fn spec_paper_step<P>(s: PaperView<P>, fee: P, op: PaperOp<P>) -> PaperView<P> {
    match op {
        PaperOp::Place { now, req, id, fill_price } => spec_place(s, fee, now, req, id, fill_price).1,
        PaperOp::Cancel { now, id } => spec_cancel(s, now, id@).1,
        PaperOp::QuoteStep { now, symbol, id, decision } => spec_quote_step(
            s,
            fee,
            now,
            symbol@,
            id@,
            decision,
        ).1,
    }
}

/// The book after a sequence of operations, in order.
pub open spec fn spec_paper_run<P>(s: PaperView<P>, fee: P, ops: Seq<PaperOp<P>>) -> PaperView<P>
    decreases ops.len(),
{
    if ops.len() == 0 {
        s
    } else {
        spec_paper_step(spec_paper_run(s, fee, ops.drop_last()), fee, ops.last())
    }
}

/// A placement under client id `cid` gives back a stored order (the id is not used).
pub open spec fn client_bound_to_order<P>(s: PaperView<P>, cid: Seq<char>) -> bool {
    match client_lookup(s.idempotency, cid) {
        Some(o) => find_order(s.orders, o@) is Some,
        None => false,
    }
}

/// Client id `cid` is bound to a stored order with id `oid`.
pub open spec fn client_bound<P>(s: PaperView<P>, cid: Seq<char>, oid: Seq<char>) -> bool {
    &&& client_lookup(s.idempotency, cid) matches Some(o) && o@ == oid
    &&& find_order(s.orders, oid) is Some
}

/// One operation keeps the orders sorted and a client binding in place.
proof fn lemma_step_keeps_binding<P>(
    s: PaperView<P>,
    fee: P,
    op: PaperOp<P>,
    cid: Seq<char>,
    oid: Seq<char>,
)
    requires
        strictly_sorted(order_ids(s.orders)),
        client_bound(s, cid, oid),
    ensures
        strictly_sorted(order_ids(spec_paper_step(s, fee, op).orders)),
        client_bound(spec_paper_step(s, fee, op), cid, oid),
{
    let s1 = spec_paper_step(s, fee, op);
    match op {
        PaperOp::Place { now, req, id, fill_price } => {
            let existing = match client_lookup(s.idempotency, req.client_order_id@) {
                Some(o) => find_order(s.orders, o@),
                None => None,
            };
            if existing is None {
                assert(req.client_order_id@ != cid);
                lemma_client_put_other(s.idempotency, req.client_order_id, id, cid);
                let base = submitted_order(now, req, id);
                let o = match fill_price {
                    Some(px) => filled_order(base, px, now),
                    None => base,
                };
                assert(s1.orders == put_order(s.orders, o));
                lemma_find_put(s.orders, o);
                if o.id@ != oid {
                    lemma_find_put_other(s.orders, o, oid);
                }
            }
        },
        PaperOp::Cancel { now, id } => {
            lemma_find_order_id(s.orders, id@);
            if let Some(o) = find_order(s.orders, id@) {
                if !is_terminal(o.status) {
                    let c = Order { status: OrderStatus::Cancelled, updated_at: now, ..o };
                    lemma_find_put(s.orders, c);
                    if c.id@ != oid {
                        lemma_find_put_other(s.orders, c, oid);
                    }
                }
            }
        },
        PaperOp::QuoteStep { now, symbol, id, decision } => {
            lemma_find_order_id(s.orders, id@);
            if let Some(o) = find_order(s.orders, id@) {
                if let Some(px) = decision {
                    let f = filled_order(o, px, now);
                    lemma_find_put(s.orders, f);
                    if f.id@ != oid {
                        lemma_find_put_other(s.orders, f, oid);
                    }
                }
            }
        },
    }
}

proof fn lemma_run_keeps_binding<P>(
    s: PaperView<P>,
    fee: P,
    ops: Seq<PaperOp<P>>,
    cid: Seq<char>,
    oid: Seq<char>,
)
    requires
        strictly_sorted(order_ids(s.orders)),
        client_bound(s, cid, oid),
    ensures
        strictly_sorted(order_ids(spec_paper_run(s, fee, ops).orders)),
        client_bound(spec_paper_run(s, fee, ops), cid, oid),
    decreases ops.len(),
{
    if ops.len() > 0 {
        lemma_run_keeps_binding(s, fee, ops.drop_last(), cid, oid);
        lemma_step_keeps_binding(spec_paper_run(s, fee, ops.drop_last()), fee, ops.last(), cid, oid);
    }
}

/// A client order id, once placed, stays bound to its order: whatever places
/// (of other client ids), cancels and quote fills come between, placing again
/// under the same client id gives back the order stored under the first
/// order's id, with no fill, and changes nothing.
pub proof fn law_client_id_stays_idempotent<P>(
    s: PaperView<P>,
    fee: P,
    now: Timestamp,
    req: OrderRequest<P>,
    id: String,
    fill_price: Option<P>,
    between: Seq<PaperOp<P>>,
    now2: Timestamp,
    req2: OrderRequest<P>,
    id2: String,
    fill_price2: Option<P>,
)
    requires
        strictly_sorted(order_ids(s.orders)),
        req2.client_order_id@ == req.client_order_id@,
    ensures
        ({
            let (r1, s1) = spec_place(s, fee, now, req, id, fill_price);
            let sn = spec_paper_run(s1, fee, between);
            &&& find_order(sn.orders, r1.0.id@) is Some
            &&& spec_place(sn, fee, now2, req2, id2, fill_price2) == ((
                find_order(sn.orders, r1.0.id@)->0,
                None::<Fill<P>>,
            ), sn)
        }),
{
    let (r1, s1) = spec_place(s, fee, now, req, id, fill_price);
    let cid = req.client_order_id@;
    let existing = match client_lookup(s.idempotency, cid) {
        Some(oid) => find_order(s.orders, oid@),
        None => None,
    };
    lemma_place_keeps_sorted(s, fee, now, req, id, fill_price);
    if existing is None {
        lemma_client_put_lookup(s.idempotency, req.client_order_id, id);
        let base = submitted_order(now, req, id);
        match fill_price {
            Some(px) => {
                lemma_find_put(s.orders, filled_order(base, px, now));
            },
            None => {
                lemma_find_put(s.orders, base);
            },
        }
    } else {
        let oid = client_lookup(s.idempotency, cid)->0;
        lemma_find_order_id(s.orders, oid@);
    }
    assert(client_bound(s1, cid, r1.0.id@));
    lemma_run_keeps_binding(s1, fee, between, cid, r1.0.id@);
}

/// Placing keeps the orders sorted by id.
proof fn lemma_place_keeps_sorted<P>(
    s: PaperView<P>,
    fee: P,
    now: Timestamp,
    req: OrderRequest<P>,
    id: String,
    fill_price: Option<P>,
)
    requires
        strictly_sorted(order_ids(s.orders)),
    ensures
        strictly_sorted(order_ids(spec_place(s, fee, now, req, id, fill_price).1.orders)),
{
    let base = submitted_order(now, req, id);
    match fill_price {
        Some(px) => lemma_find_put(s.orders, filled_order(base, px, now)),
        None => lemma_find_put(s.orders, base),
    }
}


/// Every resting id names a working order of the book.
pub open spec fn resting_live<P>(s: PaperView<P>) -> bool {
    forall|x: Seq<char>|
        #[trigger] views(s.open_limit_orders).contains(x) ==> (find_order(s.orders, x) matches Some(
            o,
        ) && is_live(o.status))
}

/// The book's well-formedness: consistent (see `book_consistent`), and every
/// resting id naming a working order.
pub open spec fn book_wf<P>(s: PaperView<P>) -> bool {
    book_consistent(s) && resting_live(s)
}

/// `o` cancelled at `now`.
pub open spec fn cancelled_at<P>(o: Order<P>, now: Timestamp) -> Order<P> {
    Order { status: OrderStatus::Cancelled, updated_at: now, ..o }
}

/// Removing `id` from sorted resting ids leaves the others and drops `id`.
proof fn lemma_remove_id_elements(s: Seq<String>, id: Seq<char>, k: Seq<char>)
    requires
        strictly_sorted(views(s)),
    ensures
        views(remove_id(s, id)).contains(k) ==> views(s).contains(k) && k != id,
{
    let vs = views(s);
    lemma_seq_index_range(vs, id);
    let i = seq_index(vs, id);
    let r = views(remove_id(s, id));
    if r.contains(k) {
        let w = choose|w: int| 0 <= w < r.len() && r[w] == k;
        if i >= 0 {
            assert(r =~= vs.remove(i));
            lemma_str_lt_irreflexive(id);
            if w < i {
                assert(r[w] == vs[w]);
                assert(str_lt(vs[w], vs[i]));
            } else {
                assert(r[w] == vs[w + 1]);
                assert(str_lt(vs[i], vs[w + 1]));
            }
        } else {
            assert(r[w] == vs[w]);
        }
    }
}

/// Cancelling the resting ids one after another, in order: after the first
/// `k`, those `k` orders are cancelled (and given back in that order), the
/// other ids still rest, and every order not among the first `k` is as it was.
proof fn lemma_cancel_all_prefix<P>(s: PaperView<P>, now: Timestamp, k: int)
    requires
        book_consistent(s),
        resting_live(s),
        0 <= k <= s.open_limit_orders.len(),
    ensures
        ({
            let ids = s.open_limit_orders;
            let (out, st) = spec_cancel_each(s, now, ids.take(k));
            &&& strictly_sorted(order_ids(st.orders))
            &&& st.open_limit_orders == ids.skip(k)
            &&& st.idempotency == s.idempotency
            &&& out.len() == k
            &&& forall|m: int|
                0 <= m < k ==> (find_order(s.orders, ids[m]@) matches Some(o) && #[trigger] out[m]
                    == cancelled_at(o, now))
            &&& forall|m: int| 0 <= m < k ==> find_order(st.orders, ids[m]@) == Some(#[trigger] out[m])
            &&& forall|x: Seq<char>|
                !views(ids.take(k)).contains(x) ==> #[trigger] find_order(st.orders, x) == find_order(
                    s.orders,
                    x,
                )
        }),
    decreases k,
{
    let ids = s.open_limit_orders;
    if k == 0 {
        assert(ids.take(0) =~= Seq::<String>::empty());
        assert(ids.skip(0) =~= ids);
        assert(views(ids.take(0)) =~= Seq::<Seq<char>>::empty());
    } else {
        lemma_cancel_all_prefix(s, now, k - 1);
        let pre = ids.take(k);
        assert(pre.drop_last() =~= ids.take(k - 1));
        assert(pre.last() == ids[k - 1]);
        let (out0, st0) = spec_cancel_each(s, now, ids.take(k - 1));
        let id = ids[k - 1]@;
        assert(views(ids)[k - 1] == id);
        lemma_str_lt_irreflexive(id);
        assert forall|j: int| 0 <= j < k - 1 implies #[trigger] views(ids.take(k - 1))[j] != id by {
            assert(views(ids.take(k - 1))[j] == views(ids)[j]);
            assert(str_lt(views(ids)[j], views(ids)[k - 1]));
        }
        assert(!views(ids.take(k - 1)).contains(id));
        assert(find_order(st0.orders, id) == find_order(s.orders, id));
        assert(views(ids).contains(id));
        let o = find_order(s.orders, id)->0;
        lemma_find_order_id(s.orders, id);
        let c = cancelled_at(o, now);
        assert(c.id@ == id);
        let (r, st1) = spec_cancel(st0, now, id);
        assert(r == Some(c));
        lemma_find_put(st0.orders, c);
        // The next resting id is at the front of what still rests.
        let rest = ids.skip(k - 1);
        assert(views(rest)[0] == id);
        lemma_seq_index(views(rest), id, 0);
        assert(remove_id(rest, id) =~= ids.skip(k));
        let out1 = out0.push(c);
        assert(spec_cancel_each(s, now, pre) == (out1, st1));
        assert forall|m: int| 0 <= m < k implies find_order(st1.orders, ids[m]@) == Some(
            #[trigger] out1[m],
        ) by {
            if m < k - 1 {
                assert(str_lt(views(ids)[m], views(ids)[k - 1]));
                assert(views(ids)[m] == ids[m]@);
                lemma_find_put_other(st0.orders, c, ids[m]@);
                assert(out1[m] == out0[m]);
            }
        }
        assert forall|m: int|
            0 <= m < k implies (find_order(s.orders, ids[m]@) matches Some(o) && #[trigger] out1[m]
            == cancelled_at(o, now)) by {
            if m < k - 1 {
                assert(out1[m] == out0[m]);
            }
        }
        assert forall|x: Seq<char>| !views(pre).contains(x) implies #[trigger] find_order(
            st1.orders,
            x,
        ) == find_order(s.orders, x) by {
            assert(views(pre)[k - 1] == id);
            assert forall|j: int| 0 <= j < k - 1 implies #[trigger] views(ids.take(k - 1))[j] != x by {
                assert(views(ids.take(k - 1))[j] == views(pre)[j]);
            }
            assert(!views(ids.take(k - 1)).contains(x));
            lemma_find_put_other(st0.orders, c, x);
        }
    }
}

/// The kill switch's cancel-all: in a well-formed book it gives back, one per resting id and in id order, that order
/// cancelled at `now`; each is stored so; nothing rests afterwards; the
/// client bindings and every order that was not resting are unchanged.
pub proof fn law_cancel_all_cancels_each_resting_order<P>(s: PaperView<P>, now: Timestamp)
    requires
        book_wf(s),
    ensures
        ({
            let ids = s.open_limit_orders;
            let (out, s2) = spec_cancel_each(s, now, ids);
            &&& out.len() == ids.len()
            &&& forall|m: int|
                0 <= m < ids.len() ==> (find_order(s.orders, ids[m]@) matches Some(o) && #[trigger] out[m]
                    == cancelled_at(o, now))
            &&& forall|m: int|
                0 <= m < ids.len() ==> (#[trigger] out[m]).status == OrderStatus::Cancelled
                    && out[m].updated_at == now && out[m].id@ == ids[m]@
            &&& forall|m: int| 0 <= m < ids.len() ==> find_order(s2.orders, ids[m]@) == Some(#[trigger] out[m])
            &&& s2.open_limit_orders.len() == 0
            &&& s2.idempotency == s.idempotency
            &&& forall|x: Seq<char>|
                !views(ids).contains(x) ==> #[trigger] find_order(s2.orders, x) == find_order(s.orders, x)
        }),
{
    let ids = s.open_limit_orders;
    let n = ids.len() as int;
    lemma_cancel_all_prefix(s, now, n);
    assert(ids.take(n) =~= ids);
    assert(ids.skip(n).len() == 0);
    let out = spec_cancel_each(s, now, ids).0;
    assert forall|m: int| 0 <= m < ids.len() implies (#[trigger] out[m]).status == OrderStatus::Cancelled
        && out[m].updated_at == now && out[m].id@ == ids[m]@ by {
        lemma_find_order_id(s.orders, ids[m]@);
    }
}


/// Placing under an id not yet in the book keeps every resting id naming a
/// working order.
proof fn lemma_place_keeps_resting<P>(
    s: PaperView<P>,
    fee: P,
    now: Timestamp,
    req: OrderRequest<P>,
    id: String,
    fill_price: Option<P>,
)
    requires
        book_consistent(s),
        resting_live(s),
        find_order(s.orders, id@) is None,
    ensures
        book_wf(spec_place(s, fee, now, req, id, fill_price).1),
{
    lemma_place_keeps(s, fee, now, req, id, fill_price);
    let s1 = spec_place(s, fee, now, req, id, fill_price).1;
    let existing = match client_lookup(s.idempotency, req.client_order_id@) {
        Some(o) => find_order(s.orders, o@),
        None => None,
    };
    if existing is None {
        let base = submitted_order(now, req, id);
        let o = match fill_price {
            Some(px) => filled_order(base, px, now),
            None => base,
        };
        lemma_find_put(s.orders, o);
        assert forall|x: Seq<char>| #[trigger] views(s1.open_limit_orders).contains(x) implies (
        find_order(s1.orders, x) matches Some(q) && is_live(q.status)) by {
            lemma_put_id_contains(s.open_limit_orders, id, x);
            if x != id@ {
                assert(views(s.open_limit_orders).contains(x));
                lemma_find_put_other(s.orders, o, x);
            } else {
                assert(views(s.open_limit_orders).contains(x) || fill_price is None);
                if views(s.open_limit_orders).contains(x) {
                    assert(find_order(s.orders, x) is Some);
                }
            }
        }
    }
}

/// Cancelling keeps every resting id naming a working order.
proof fn lemma_cancel_keeps_resting<P>(s: PaperView<P>, now: Timestamp, id: Seq<char>)
    requires
        book_consistent(s),
        resting_live(s),
    ensures
        book_wf(spec_cancel(s, now, id).1),
{
    lemma_cancel_keeps(s, now, id);
    lemma_find_order_id(s.orders, id);
    let s1 = spec_cancel(s, now, id).1;
    if let Some(o) = find_order(s.orders, id) {
        if !is_terminal(o.status) {
            let c = Order { status: OrderStatus::Cancelled, updated_at: now, ..o };
            assert forall|x: Seq<char>| #[trigger] views(s1.open_limit_orders).contains(x) implies (
            find_order(s1.orders, x) matches Some(q) && is_live(q.status)) by {
                lemma_remove_id_elements(s.open_limit_orders, id, x);
                lemma_find_put_other(s.orders, c, x);
            }
        }
    }
}

/// One quote step keeps every resting id naming a working order.
proof fn lemma_quote_step_keeps_resting<P>(
    s: PaperView<P>,
    fee: P,
    now: Timestamp,
    symbol: Seq<char>,
    id: Seq<char>,
    d: Option<P>,
)
    requires
        book_consistent(s),
        resting_live(s),
    ensures
        book_wf(spec_quote_step(s, fee, now, symbol, id, d).1),
{
    lemma_quote_step_keeps(s, fee, now, symbol, id, d);
    lemma_find_order_id(s.orders, id);
    let s1 = spec_quote_step(s, fee, now, symbol, id, d).1;
    if let Some(o) = find_order(s.orders, id) {
        if o.symbol@ == symbol {
            if !(o.status == OrderStatus::Submitted || o.status == OrderStatus::PendingSubmit) {
                assert forall|x: Seq<char>| #[trigger] views(s1.open_limit_orders).contains(x) implies (
                find_order(s1.orders, x) matches Some(q) && is_live(q.status)) by {
                    lemma_remove_id_elements(s.open_limit_orders, id, x);
                }
            } else if let Some(px) = d {
                if o.limit_price is Some {
                    let f = filled_order(o, px, now);
                    assert forall|x: Seq<char>| #[trigger] views(s1.open_limit_orders).contains(x) implies (
                    find_order(s1.orders, x) matches Some(q) && is_live(q.status)) by {
                        lemma_remove_id_elements(s.open_limit_orders, id, x);
                        lemma_find_put_other(s.orders, f, x);
                    }
                }
            }
        }
    }
}

/// The book's operations keep it well formed (see `book_wf`): cancels,
/// quote steps, and places under an id not yet in the book.
pub proof fn law_operations_keep_book_wf<P>(s: PaperView<P>, fee: P, op: PaperOp<P>)
    requires
        book_wf(s),
        op matches PaperOp::Place { id, .. } ==> find_order(s.orders, id@) is None,
    ensures
        book_wf(spec_paper_step(s, fee, op)),
{
    match op {
        PaperOp::Place { now, req, id, fill_price } => {
            lemma_place_keeps_resting(s, fee, now, req, id, fill_price);
        },
        PaperOp::Cancel { now, id } => {
            lemma_cancel_keeps_resting(s, now, id@);
        },
        PaperOp::QuoteStep { now, symbol, id, decision } => {
            lemma_quote_step_keeps_resting(s, fee, now, symbol@, id@, decision);
        },
    }
}

} // verus!
