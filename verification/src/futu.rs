//! OpenD (Futu) protocol pieces that are pure computation: protocol ids, the
//! numeric market/side/status codes of the OpenD protobuf enums, and the
//! mapping between textual symbols (`"US.AAPL"`) and OpenD routing codes.
use vstd::prelude::*;
use vstd::string::StringExecFns;
use crate::text::{
    chars_eq, chars_of, find_char, flat_map_chars, is_ascii_char, lemma_flat_map_concat,
    lemma_flat_map_step, push_all, slice_chars, split_once, string_of, trim, trim_chars, upper,
    uppercase_range, decimal, decimal_chars, signed_decimal, signed_decimal_chars,
};
use crate::time::Timestamp;
use crate::types::{OrderSide, OrderStatus, OrderType};

verus! {

pub const PROTO_INIT_CONNECT: u32 = 1001;
pub const PROTO_GET_GLOBAL_STATE: u32 = 1002;
pub const PROTO_KEEP_ALIVE: u32 = 1004;

pub const PROTO_TRD_GET_ACC_LIST: u32 = 2001;
pub const PROTO_TRD_UNLOCK_TRADE: u32 = 2005;
pub const PROTO_TRD_SUB_ACC_PUSH: u32 = 2008;
pub const PROTO_TRD_GET_FUNDS: u32 = 2101;
pub const PROTO_TRD_GET_POSITION_LIST: u32 = 2102;
pub const PROTO_TRD_GET_ORDER_LIST: u32 = 2201;
pub const PROTO_TRD_PLACE_ORDER: u32 = 2202;
pub const PROTO_TRD_MODIFY_ORDER: u32 = 2205;
pub const PROTO_TRD_UPDATE_ORDER: u32 = 2208;
pub const PROTO_TRD_UPDATE_ORDER_FILL: u32 = 2218;

pub const PROTO_QOT_SUB: u32 = 3001;
pub const PROTO_QOT_REG_QOT_PUSH: u32 = 3002;
pub const PROTO_QOT_GET_BASIC_QOT: u32 = 3004;
pub const PROTO_QOT_UPDATE_BASIC_QOT: u32 = 3005;
pub const PROTO_QOT_GET_KL: u32 = 3006;
pub const PROTO_QOT_UPDATE_KL: u32 = 3007;

/// `Qot_Common.QotMarket` codes.
pub const QOT_MARKET_HK_SECURITY: i32 = 1;
pub const QOT_MARKET_US_SECURITY: i32 = 11;
pub const QOT_MARKET_CNSH_SECURITY: i32 = 21;
pub const QOT_MARKET_CNSZ_SECURITY: i32 = 22;

/// `Trd_Common.TrdMarket` codes.
pub const TRD_MARKET_HK: i32 = 1;
pub const TRD_MARKET_US: i32 = 2;
pub const TRD_MARKET_CN: i32 = 3;

/// `Trd_Common.TrdSecMarket` codes.
pub const TRD_SEC_MARKET_HK: i32 = 1;
pub const TRD_SEC_MARKET_US: i32 = 2;
pub const TRD_SEC_MARKET_CN_SH: i32 = 31;
pub const TRD_SEC_MARKET_CN_SZ: i32 = 32;

/// `Trd_Common.TrdEnv` codes.
pub const TRD_ENV_SIMULATE: i32 = 0;
pub const TRD_ENV_REAL: i32 = 1;

/// `Trd_Common.TrdSide` codes.
pub const TRD_SIDE_BUY: i32 = 1;
pub const TRD_SIDE_SELL: i32 = 2;
pub const TRD_SIDE_SELL_SHORT: i32 = 3;
pub const TRD_SIDE_BUY_BACK: i32 = 4;

/// `Trd_Common.OrderType` codes.
pub const TRD_ORDER_TYPE_NORMAL: i32 = 1;
pub const TRD_ORDER_TYPE_MARKET: i32 = 2;

/// `Trd_Common.OrderStatus` codes.
pub const TRD_ORDER_STATUS_UNKNOWN: i32 = -1;
pub const TRD_ORDER_STATUS_UNSUBMITTED: i32 = 0;
pub const TRD_ORDER_STATUS_WAITING_SUBMIT: i32 = 1;
pub const TRD_ORDER_STATUS_SUBMITTING: i32 = 2;
pub const TRD_ORDER_STATUS_SUBMIT_FAILED: i32 = 3;
pub const TRD_ORDER_STATUS_TIME_OUT: i32 = 4;
pub const TRD_ORDER_STATUS_SUBMITTED: i32 = 5;
pub const TRD_ORDER_STATUS_FILLED_PART: i32 = 10;
pub const TRD_ORDER_STATUS_FILLED_ALL: i32 = 11;
pub const TRD_ORDER_STATUS_CANCELLING_PART: i32 = 12;
pub const TRD_ORDER_STATUS_CANCELLING_ALL: i32 = 13;
pub const TRD_ORDER_STATUS_CANCELLED_PART: i32 = 14;
pub const TRD_ORDER_STATUS_CANCELLED_ALL: i32 = 15;
pub const TRD_ORDER_STATUS_FAILED: i32 = 21;
pub const TRD_ORDER_STATUS_DISABLED: i32 = 22;
pub const TRD_ORDER_STATUS_DELETED: i32 = 23;

/// `Trd_Common.PositionSide` codes.
pub const TRD_POSITION_SIDE_SHORT: i32 = 1;

/// `Trd_Common.ModifyOrderOp` code for a cancel.
pub const TRD_MODIFY_ORDER_OP_CANCEL: i32 = 2;

/// `Qot_Common.KLType` codes.
pub const KL_TYPE_1MIN: i32 = 1;
pub const KL_TYPE_5MIN: i32 = 6;

/// `Qot_Common.RehabType` code for no price adjustment.
pub const REHAB_TYPE_NONE: i32 = 0;

/// Errors of the OpenD connector.
#[derive(Debug)]
pub enum ConnectorError {
    ConnectionFailed(String),
    Timeout(String),
    Protocol(String),
    RemoteError { proto_id: u32, ret_type: i32, ret_msg: String },
}

/// Where OpenD listens.
#[derive(Debug, Clone)]
pub struct OpenDConfig {
    pub host: String,
    pub port: u16,
    pub use_tls: bool,
}

/// What OpenD answers to `InitConnect`.
#[derive(Debug, Clone, Copy)]
pub struct OpenDConnectionInfo {
    pub conn_id: u64,
    pub keep_alive_interval_sec: u32,
    pub server_ver: i32,
    pub login_user_id: u64,
}

/// A trading account: its environment, id and the trade markets it may use.
#[derive(Debug, Clone)]
pub struct OpenDTradeAccount {
    pub trd_env: i32,
    pub acc_id: u64,
    pub trd_market_auth_list: Vec<i32>,
}

/// The account routing of a trade request.
#[derive(Debug, Clone, Copy)]
pub struct OpenDTradeHeader {
    pub trd_env: i32,
    pub acc_id: u64,
    pub trd_market: i32,
}

/// The ids OpenD gives a placed order.
#[derive(Debug, Clone)]
pub struct OpenDOrderRef {
    pub order_id: u64,
    pub order_id_ex: Option<String>,
}

/// A reply frame, matched to its request by serial number.
#[derive(Debug, Clone)]
pub struct RawMessage {
    pub proto_id: u32,
    pub serial_no: u32,
    pub body: Vec<u8>,
}

/// A security as OpenD quote requests name it.
#[derive(Debug, Clone)]
pub struct Security {
    pub market: i32,
    pub code: String,
}

// ---------------------------------------------------------------------------
// Specification
// ---------------------------------------------------------------------------

/// Protocols that OpenD pushes without a request.
pub open spec fn spec_is_push_proto(proto_id: u32) -> bool {
    proto_id == PROTO_TRD_UPDATE_ORDER || proto_id == PROTO_TRD_UPDATE_ORDER_FILL || proto_id
        == PROTO_QOT_UPDATE_BASIC_QOT || proto_id == PROTO_QOT_UPDATE_KL
}

pub open spec fn text_us() -> Seq<char> {
    seq!['U', 'S']
}

pub open spec fn text_hk() -> Seq<char> {
    seq!['H', 'K']
}

pub open spec fn text_sh() -> Seq<char> {
    seq!['S', 'H']
}

pub open spec fn text_sz() -> Seq<char> {
    seq!['S', 'Z']
}

pub open spec fn text_unknown() -> Seq<char> {
    seq!['U', 'N', 'K', 'N', 'O', 'W', 'N']
}

/// Quote market of an (upper-cased) prefix; unknown prefixes count as US.
pub open spec fn spec_qot_market_of_prefix(p: Seq<char>) -> i32 {
    if p == text_hk() {
        QOT_MARKET_HK_SECURITY
    } else if p == text_sh() {
        QOT_MARKET_CNSH_SECURITY
    } else if p == text_sz() {
        QOT_MARKET_CNSZ_SECURITY
    } else {
        QOT_MARKET_US_SECURITY
    }
}

/// `(quote market, code)` of a symbol; the text before the first `.` is the
/// market, a symbol without `.` is a US code.
pub open spec fn spec_parse_futu_symbol(s: Seq<char>) -> Result<(i32, Seq<char>), Seq<char>> {
    let t = trim(s);
    if t.len() == 0 {
        Err("symbol is empty"@)
    } else {
        match split_once(t, '.') {
            Some((p, c)) => Ok((spec_qot_market_of_prefix(upper(p)), c)),
            None => Ok((QOT_MARKET_US_SECURITY, t)),
        }
    }
}

/// `(trade market, security market)` of an (upper-cased) prefix.
pub open spec fn spec_trade_markets_of_prefix(p: Seq<char>) -> (i32, i32) {
    if p == text_hk() {
        (TRD_MARKET_HK, TRD_SEC_MARKET_HK)
    } else if p == text_sh() {
        (TRD_MARKET_CN, TRD_SEC_MARKET_CN_SH)
    } else if p == text_sz() {
        (TRD_MARKET_CN, TRD_SEC_MARKET_CN_SZ)
    } else {
        (TRD_MARKET_US, TRD_SEC_MARKET_US)
    }
}

/// `(trade market, security market, code)` for routing an order.
pub open spec fn spec_to_trade_routing(s: Seq<char>) -> Result<(i32, i32, Seq<char>), Seq<char>> {
    let t = trim(s);
    if t.len() == 0 {
        Err("symbol is empty"@)
    } else {
        let (p, c) = match split_once(t, '.') {
            Some((p, c)) => (p, c),
            None => (text_us(), t),
        };
        let m = spec_trade_markets_of_prefix(upper(p));
        Ok((m.0, m.1, c))
    }
}

/// Text prefix of a quote market code.
pub open spec fn spec_qot_market_prefix(market: i32) -> Seq<char> {
    if market == QOT_MARKET_US_SECURITY {
        text_us()
    } else if market == QOT_MARKET_HK_SECURITY {
        text_hk()
    } else if market == QOT_MARKET_CNSH_SECURITY {
        text_sh()
    } else if market == QOT_MARKET_CNSZ_SECURITY {
        text_sz()
    } else {
        text_unknown()
    }
}

/// Text prefix of a (trade market, security market) pair; missing codes count as 0.
pub open spec fn spec_trd_prefix(trd_market: Option<i32>, sec_market: Option<i32>) -> Seq<char> {
    let t = match trd_market {
        Some(x) => x,
        None => 0,
    };
    let sm = match sec_market {
        Some(x) => x,
        None => 0,
    };
    if t == TRD_MARKET_US {
        text_us()
    } else if t == TRD_MARKET_HK {
        text_hk()
    } else if t == TRD_MARKET_CN && sm == TRD_SEC_MARKET_CN_SH {
        text_sh()
    } else if t == TRD_MARKET_CN && sm == TRD_SEC_MARKET_CN_SZ {
        text_sz()
    } else {
        text_unknown()
    }
}

/// Keeps ASCII characters only.
pub open spec fn ascii_only(c: char) -> Seq<char> {
    if is_ascii_char(c) {
        seq![c]
    } else {
        Seq::empty()
    }
}

/// An order remark: the ASCII characters of `s`, at most 64 of them.
pub open spec fn spec_truncate_remark(s: Seq<char>) -> Seq<char> {
    let a = flat_map_chars(s, |c: char| ascii_only(c));
    if a.len() <= 64 {
        a
    } else {
        a.take(64)
    }
}

/// Engine order status for an OpenD order status code.
pub open spec fn spec_order_status_from_futu(code: i32) -> OrderStatus {
    if code == TRD_ORDER_STATUS_UNSUBMITTED || code == TRD_ORDER_STATUS_WAITING_SUBMIT || code
        == TRD_ORDER_STATUS_SUBMITTING {
        OrderStatus::PendingSubmit
    } else if code == TRD_ORDER_STATUS_SUBMITTED || code == TRD_ORDER_STATUS_FILLED_PART || code
        == TRD_ORDER_STATUS_CANCELLING_PART || code == TRD_ORDER_STATUS_CANCELLING_ALL {
        OrderStatus::Submitted
    } else if code == TRD_ORDER_STATUS_FILLED_ALL {
        OrderStatus::Filled
    } else if code == TRD_ORDER_STATUS_CANCELLED_ALL || code == TRD_ORDER_STATUS_CANCELLED_PART
        || code == TRD_ORDER_STATUS_DELETED || code == TRD_ORDER_STATUS_DISABLED {
        OrderStatus::Cancelled
    } else if code == TRD_ORDER_STATUS_SUBMIT_FAILED || code == TRD_ORDER_STATUS_FAILED || code
        == TRD_ORDER_STATUS_TIME_OUT || code == TRD_ORDER_STATUS_UNKNOWN {
        OrderStatus::Rejected
    } else {
        OrderStatus::Submitted
    }
}

/// How OpenD's order status codes sort into the engine's statuses, by code:
/// not yet at the exchange (0 unsubmitted, 1 waiting, 2 submitting) is
/// pending; accepted and working (5 submitted, 10 partly filled, 12 and 13
/// being cancelled) is submitted; 11 (all filled) is filled; 14, 15, 22 and
/// 23 (cancelled, disabled, deleted) are cancelled; -1, 3, 4 and 21 (unknown,
/// submit failed, timed out, failed) are rejected; any other code is taken as
/// still working. So an order OpenD still works on is never shown as
/// finished, and a finished one never as working.
pub proof fn law_order_status_by_code(code: i32)
    ensures
        spec_order_status_from_futu(code) == OrderStatus::PendingSubmit <==> (code == 0 || code == 1
            || code == 2),
        spec_order_status_from_futu(code) == OrderStatus::Filled <==> code == 11,
        spec_order_status_from_futu(code) == OrderStatus::Cancelled <==> (code == 14 || code == 15
            || code == 22 || code == 23),
        spec_order_status_from_futu(code) == OrderStatus::Rejected <==> (code == -1 || code == 3
            || code == 4 || code == 21),
        (code == 5 || code == 10 || code == 12 || code == 13) ==> spec_order_status_from_futu(code)
            == OrderStatus::Submitted,
        spec_order_status_from_futu(code) == OrderStatus::Submitted || spec_order_status_from_futu(
            code,
        ) == OrderStatus::PendingSubmit <==> !(code == 11 || code == 14 || code == 15 || code == 22
            || code == 23 || code == -1 || code == 3 || code == 4 || code == 21),
{
}

// ---------------------------------------------------------------------------
// Executable mapping
// ---------------------------------------------------------------------------

/// Whether OpenD pushes this protocol unprompted (order, fill, quote and bar updates).
pub fn is_push_proto(proto_id: u32) -> (b: bool)
    ensures
        b == spec_is_push_proto(proto_id),
{
    proto_id == PROTO_TRD_UPDATE_ORDER || proto_id == PROTO_TRD_UPDATE_ORDER_FILL || proto_id
        == PROTO_QOT_UPDATE_BASIC_QOT || proto_id == PROTO_QOT_UPDATE_KL
}

fn lit2(a: char, b: char) -> (v: Vec<char>)
    ensures
        v@ == seq![a, b],
{
    let v = vec![a, b];
    assert(v@ =~= seq![a, b]);
    v
}

fn unknown_chars() -> (v: Vec<char>)
    ensures
        v@ == text_unknown(),
{
    let v = vec!['U', 'N', 'K', 'N', 'O', 'W', 'N'];
    assert(v@ =~= text_unknown());
    v
}

fn qot_market_of_prefix(p: &Vec<char>) -> (m: i32)
    ensures
        m == spec_qot_market_of_prefix(p@),
{
    if chars_eq(p, &lit2('H', 'K')) {
        QOT_MARKET_HK_SECURITY
    } else if chars_eq(p, &lit2('S', 'H')) {
        QOT_MARKET_CNSH_SECURITY
    } else if chars_eq(p, &lit2('S', 'Z')) {
        QOT_MARKET_CNSZ_SECURITY
    } else {
        QOT_MARKET_US_SECURITY
    }
}

fn trade_markets_of_prefix(p: &Vec<char>) -> (m: (i32, i32))
    ensures
        m == spec_trade_markets_of_prefix(p@),
{
    if chars_eq(p, &lit2('H', 'K')) {
        (TRD_MARKET_HK, TRD_SEC_MARKET_HK)
    } else if chars_eq(p, &lit2('S', 'H')) {
        (TRD_MARKET_CN, TRD_SEC_MARKET_CN_SH)
    } else if chars_eq(p, &lit2('S', 'Z')) {
        (TRD_MARKET_CN, TRD_SEC_MARKET_CN_SZ)
    } else {
        (TRD_MARKET_US, TRD_SEC_MARKET_US)
    }
}

/// The error for a blank symbol.
fn empty_symbol_error() -> (e: ConnectorError)
    ensures
        e matches ConnectorError::Protocol(m) && m@ == "symbol is empty"@,
{
    ConnectorError::Protocol(String::from_str("symbol is empty"))
}

/// Splits a symbol into its OpenD quote market and code (`"HK.00700"` gives
/// HK and `"00700"`); a symbol without market is a US code.
pub fn parse_futu_symbol(symbol: &str) -> (r: Result<(i32, String), ConnectorError>)
    ensures
        match (r, spec_parse_futu_symbol(symbol@)) {
            (Ok((m, c)), Ok((sm, sc))) => m == sm && c@ == sc,
            (Err(ConnectorError::Protocol(e)), Err(se)) => e@ == se,
            _ => false,
        },
{
    let v = chars_of(symbol);
    let t = trim_chars(&v);
    if t.len() == 0 {
        return Err(empty_symbol_error());
    }
    match find_char(&t, '.') {
        Some(k) => {
            let up = uppercase_range(&t, 0, k);
            let code = slice_chars(&t, k + 1, t.len());
            Ok((qot_market_of_prefix(&up), string_of(&code)))
        },
        None => Ok((QOT_MARKET_US_SECURITY, string_of(&t))),
    }
}

/// The OpenD `Security` for a symbol.
pub fn to_qot_security(symbol: &str) -> (r: Result<Security, ConnectorError>)
    ensures
        match (r, spec_parse_futu_symbol(symbol@)) {
            (Ok(sec), Ok((sm, sc))) => sec.market == sm && sec.code@ == sc,
            (Err(ConnectorError::Protocol(e)), Err(se)) => e@ == se,
            _ => false,
        },
{
    let (market, code) = parse_futu_symbol(symbol)?;
    Ok(Security { market, code })
}

/// `(trade market, security market, code)` that routes an order for a symbol.
pub fn to_trade_routing(symbol: &str) -> (r: Result<(i32, i32, String), ConnectorError>)
    ensures
        match (r, spec_to_trade_routing(symbol@)) {
            (Ok((tm, sm, c)), Ok((stm, ssm, sc))) => tm == stm && sm == ssm && c@ == sc,
            (Err(ConnectorError::Protocol(e)), Err(se)) => e@ == se,
            _ => false,
        },
{
    let v = chars_of(symbol);
    let t = trim_chars(&v);
    if t.len() == 0 {
        return Err(empty_symbol_error());
    }
    let (prefix, code) = match find_char(&t, '.') {
        Some(k) => (slice_chars(&t, 0, k), slice_chars(&t, k + 1, t.len())),
        None => (lit2('U', 'S'), slice_chars(&t, 0, t.len())),
    };
    assert(t@.subrange(0, t.len() as int) =~= t@);
    let up = uppercase_range(&prefix, 0, prefix.len());
    assert(prefix@.subrange(0, prefix.len() as int) =~= prefix@);
    let (trd_market, sec_market) = trade_markets_of_prefix(&up);
    Ok((trd_market, sec_market, string_of(&code)))
}

fn join_prefix(prefix: Vec<char>, code: &Vec<char>) -> (s: String)
    ensures
        s@ == prefix@ + seq!['.'] + code@,
{
    let mut out = prefix;
    out.push('.');
    push_all(&mut out, code);
    string_of(&out)
}

/// `MARKET.CODE` text of an OpenD quote security.
pub fn format_symbol_from_security(sec: &Security) -> (s: String)
    ensures
        s@ == spec_qot_market_prefix(sec.market) + seq!['.'] + sec.code@,
{
    let m = sec.market;
    let prefix = if m == QOT_MARKET_US_SECURITY {
        lit2('U', 'S')
    } else if m == QOT_MARKET_HK_SECURITY {
        lit2('H', 'K')
    } else if m == QOT_MARKET_CNSH_SECURITY {
        lit2('S', 'H')
    } else if m == QOT_MARKET_CNSZ_SECURITY {
        lit2('S', 'Z')
    } else {
        unknown_chars()
    };
    join_prefix(prefix, &chars_of(sec.code.as_str()))
}

/// `MARKET.CODE` text of an OpenD trade record (orders, fills, positions).
pub fn format_trd_symbol(trd_market: Option<i32>, sec_market: Option<i32>, code: Option<&str>) -> (s:
    String)
    ensures
        s@ == spec_trd_prefix(trd_market, sec_market) + seq!['.'] + match code {
            Some(c) => c@,
            None => Seq::<char>::empty(),
        },
{
    let c: Vec<char> = match code {
        Some(c) => chars_of(c),
        None => Vec::new(),
    };
    let t = match trd_market {
        Some(x) => x,
        None => 0,
    };
    let sm = match sec_market {
        Some(x) => x,
        None => 0,
    };
    let prefix = if t == TRD_MARKET_US {
        lit2('U', 'S')
    } else if t == TRD_MARKET_HK {
        lit2('H', 'K')
    } else if t == TRD_MARKET_CN && sm == TRD_SEC_MARKET_CN_SH {
        lit2('S', 'H')
    } else if t == TRD_MARKET_CN && sm == TRD_SEC_MARKET_CN_SZ {
        lit2('S', 'Z')
    } else {
        unknown_chars()
    };
    join_prefix(prefix, &c)
}

/// The order remark sent to OpenD: ASCII characters only, at most 64.
pub fn truncate_remark(s: &str) -> (out: String)
    ensures
        out@ == spec_truncate_remark(s@),
{
    let v = chars_of(s);
    let mut out: Vec<char> = Vec::new();
    let mut i: usize = 0;
    while i < v.len()
        invariant
            i <= v.len(),
            out@ == flat_map_chars(v@.subrange(0, i as int), |c: char| ascii_only(c)),
            out@.len() < 64,
            v@ == s@,
        decreases v.len() - i,
    {
        let c = v[i];
        if (c as u32) < 128 {
            out.push(c);
        }
        proof {
            lemma_flat_map_step(v@, 0, i as int, |c: char| ascii_only(c));
            assert(out@ =~= flat_map_chars(v@.subrange(0, i as int), |c: char| ascii_only(c))
                + ascii_only(v@[i as int]));
        }
        i += 1;
        if out.len() >= 64 {
            proof {
                lemma_flat_map_concat(
                    v@.subrange(0, i as int),
                    v@.subrange(i as int, v.len() as int),
                    |c: char| ascii_only(c),
                );
                assert(v@.subrange(0, i as int) + v@.subrange(i as int, v.len() as int) =~= v@);
                let a = flat_map_chars(v@, |c: char| ascii_only(c));
                assert(a.take(64) =~= out@);
                assert(a.len() >= 64);
                if a.len() == 64 {
                    assert(a.take(64) =~= a);
                }

            }
            return string_of(&out);
        }
    }
    assert(v@.subrange(0, v.len() as int) =~= v@);
    string_of(&out)
}

/// Engine status of an OpenD order status code.
pub fn order_status_from_futu(code: i32) -> (st: OrderStatus)
    ensures
        st == spec_order_status_from_futu(code),
{
    if code == TRD_ORDER_STATUS_UNSUBMITTED || code == TRD_ORDER_STATUS_WAITING_SUBMIT || code
        == TRD_ORDER_STATUS_SUBMITTING {
        OrderStatus::PendingSubmit
    } else if code == TRD_ORDER_STATUS_SUBMITTED || code == TRD_ORDER_STATUS_FILLED_PART || code
        == TRD_ORDER_STATUS_CANCELLING_PART || code == TRD_ORDER_STATUS_CANCELLING_ALL {
        OrderStatus::Submitted
    } else if code == TRD_ORDER_STATUS_FILLED_ALL {
        OrderStatus::Filled
    } else if code == TRD_ORDER_STATUS_CANCELLED_ALL || code == TRD_ORDER_STATUS_CANCELLED_PART
        || code == TRD_ORDER_STATUS_DELETED || code == TRD_ORDER_STATUS_DISABLED {
        OrderStatus::Cancelled
    } else if code == TRD_ORDER_STATUS_SUBMIT_FAILED || code == TRD_ORDER_STATUS_FAILED || code
        == TRD_ORDER_STATUS_TIME_OUT || code == TRD_ORDER_STATUS_UNKNOWN {
        OrderStatus::Rejected
    } else {
        OrderStatus::Submitted
    }
}

/// Engine order type of an OpenD order type code: market orders stay market,
/// everything else is a limit order.
pub fn order_type_from_futu(code: i32) -> (t: OrderType)
    ensures
        t == (if code == TRD_ORDER_TYPE_MARKET {
            OrderType::Market
        } else {
            OrderType::Limit
        }),
{
    if code == TRD_ORDER_TYPE_MARKET {
        OrderType::Market
    } else {
        OrderType::Limit
    }
}

/// Engine side of an OpenD trade side code: buy and buy-back buy, all else sells.
pub fn order_side_from_futu(code: i32) -> (s: OrderSide)
    ensures
        s == (if code == TRD_SIDE_BUY || code == TRD_SIDE_BUY_BACK {
            OrderSide::Buy
        } else {
            OrderSide::Sell
        }),
{
    if code == TRD_SIDE_BUY || code == TRD_SIDE_BUY_BACK {
        OrderSide::Buy
    } else {
        OrderSide::Sell
    }
}

/// OpenD trade side code of an engine side.
pub fn futu_side_of(side: OrderSide) -> (code: i32)
    ensures
        code == (match side {
            OrderSide::Buy => TRD_SIDE_BUY,
            OrderSide::Sell => TRD_SIDE_SELL,
        }),
{
    match side {
        OrderSide::Buy => TRD_SIDE_BUY,
        OrderSide::Sell => TRD_SIDE_SELL,
    }
}

/// OpenD order type code of an engine order type (limit orders are "normal").
pub fn futu_order_type_of(t: OrderType) -> (code: i32)
    ensures
        code == (match t {
            OrderType::Market => TRD_ORDER_TYPE_MARKET,
            OrderType::Limit => TRD_ORDER_TYPE_NORMAL,
        }),
{
    match t {
        OrderType::Market => TRD_ORDER_TYPE_MARKET,
        OrderType::Limit => TRD_ORDER_TYPE_NORMAL,
    }
}

/// Signed position size: short positions count negative.
pub fn signed_position_qty(qty_abs: i64, position_side: i32) -> (q: i64)
    requires
        qty_abs >= 0,
    ensures
        q == (if position_side == TRD_POSITION_SIDE_SHORT {
            -qty_abs
        } else {
            qty_abs as int
        }),
{
    if position_side == TRD_POSITION_SIDE_SHORT {
        -qty_abs
    } else {
        qty_abs
    }
}

/// Bar interval in seconds of a pushed K-line type; 0 for unsupported types.
pub fn interval_sec_of_kl_type(kl_type: i32) -> (s: u32)
    ensures
        s == (if kl_type == KL_TYPE_1MIN {
            60u32
        } else if kl_type == KL_TYPE_5MIN {
            300u32
        } else {
            0u32
        }),
{
    if kl_type == KL_TYPE_1MIN {
        60
    } else if kl_type == KL_TYPE_5MIN {
        300
    } else {
        0
    }
}

/// `(rehab type, K-line type)` to request bars of `interval_sec`; only 60 and
/// 300 second bars are supported.
pub fn kl_request_types(interval_sec: u32) -> (r: Result<(i32, i32), ConnectorError>)
    ensures
        interval_sec == 60 ==> (r matches Ok(p) && p == (REHAB_TYPE_NONE, KL_TYPE_1MIN)),
        interval_sec == 300 ==> (r matches Ok(p) && p == (REHAB_TYPE_NONE, KL_TYPE_5MIN)),
        interval_sec != 60 && interval_sec != 300 ==> (r matches Err(ConnectorError::Protocol(m))
            && m@ == "unsupported interval_sec for OpenD KL: "@ + decimal(interval_sec as nat)),
{
    if interval_sec == 60 {
        Ok((REHAB_TYPE_NONE, KL_TYPE_1MIN))
    } else if interval_sec == 300 {
        Ok((REHAB_TYPE_NONE, KL_TYPE_5MIN))
    } else {
        let mut m = String::from_str("unsupported interval_sec for OpenD KL: ");
        m.append(string_of(&decimal_chars(interval_sec as u128)).as_str());
        Err(ConnectorError::Protocol(m))
    }
}

// ---------------------------------------------------------------------------
// Order ids, trade headers, OpenD times
// ---------------------------------------------------------------------------

/// The id an order is known by: OpenD's extended id when it sends one, else
/// its numeric id in decimal.
pub open spec fn spec_order_id_text(order_id_ex: Option<Seq<char>>, order_id: u64) -> Seq<char> {
    match order_id_ex {
        Some(t) => t,
        None => decimal(order_id as nat),
    }
}

/// The id an order is known by (see `spec_order_id_text`).
pub fn order_id_text(order_id_ex: Option<String>, order_id: u64) -> (s: String)
    ensures
        s@ == spec_order_id_text(
            match order_id_ex {
                Some(t) => Some(t@),
                None => None,
            },
            order_id,
        ),
{
    match order_id_ex {
        Some(t) => t,
        None => string_of(&decimal_chars(order_id as u128)),
    }
}

/// Routing for an order through a trade account header of market
/// `header_trd_market`: the symbol's routing, refused when the symbol routes
/// to another trade market.
pub open spec fn spec_routing_for_header(header_trd_market: i32, symbol: Seq<char>) -> Result<
    (i32, i32, Seq<char>),
    Seq<char>,
> {
    match spec_to_trade_routing(symbol) {
        Err(e) => Err(e),
        Ok((tm, sm, c)) => if header_trd_market != tm {
            Err(
                "trade header market mismatch: header.trd_market="@ + signed_decimal(
                    header_trd_market as int,
                ) + " symbol_market="@ + signed_decimal(tm as int),
            )
        } else {
            Ok((tm, sm, c))
        },
    }
}

/// Routing for an order placed through a trade account header (see
/// `spec_routing_for_header`).
pub fn routing_for_header(header_trd_market: i32, symbol: &str) -> (r: Result<
    (i32, i32, String),
    ConnectorError,
>)
    ensures
        match (r, spec_routing_for_header(header_trd_market, symbol@)) {
            (Ok((tm, sm, c)), Ok((stm, ssm, sc))) => tm == stm && sm == ssm && c@ == sc,
            (Err(ConnectorError::Protocol(e)), Err(se)) => e@ == se,
            _ => false,
        },
{
    let (tm, sm, code) = match to_trade_routing(symbol) {
        Ok(t) => t,
        Err(e) => {
            return Err(e);
        },
    };
    if header_trd_market != tm {
        let mut m = chars_of("trade header market mismatch: header.trd_market=");
        push_all(&mut m, &signed_decimal_chars(header_trd_market as i64));
        push_all(&mut m, &chars_of(" symbol_market="));
        push_all(&mut m, &signed_decimal_chars(tm as i64));
        return Err(ConnectorError::Protocol(string_of(&m)));
    }
    Ok((tm, sm, code))
}

/// What chrono's `NaiveDateTime::parse_from_str(text, fmt)` gives, read as UTC.
pub uninterp spec fn chrono_naive_utc(text: Seq<char>, fmt: Seq<char>) -> Option<Timestamp>;

/// What chrono's `DateTime::parse_from_rfc3339(text)` gives, in UTC.
pub uninterp spec fn chrono_rfc3339_utc(text: Seq<char>) -> Option<Timestamp>;

/// `chrono::NaiveDateTime::parse_from_str`: the instant written in `text`
/// following `fmt`, taken as UTC, or `None` when `text` does not match. The
/// contract only names the result as a function of the two texts.
#[verifier::external_body]
fn naive_utc_from_str(text: &str, fmt: &str) -> (r: Option<Timestamp>)
    ensures
        r == chrono_naive_utc(text@, fmt@),
{
    match chrono::NaiveDateTime::parse_from_str(text, fmt) {
        Ok(dt) => {
            let u = dt.and_utc();
            Some(Timestamp { secs: u.timestamp(), nanos: u.timestamp_subsec_nanos() })
        },
        Err(_) => None,
    }
}

/// `chrono::DateTime::parse_from_rfc3339`: the instant an RFC 3339 text
/// names, converted to UTC, or `None`. The contract only names the result as
/// a function of the text.
#[verifier::external_body]
fn rfc3339_utc_from_str(text: &str) -> (r: Option<Timestamp>)
    ensures
        r == chrono_rfc3339_utc(text@),
{
    match chrono::DateTime::parse_from_rfc3339(text) {
        Ok(dt) => {
            let u = dt.with_timezone(&chrono::Utc);
            Some(Timestamp { secs: u.timestamp(), nanos: u.timestamp_subsec_nanos() })
        },
        Err(_) => None,
    }
}

/// The OpenD time layout, `YYYY-MM-DD HH:MM:SS`.
pub open spec fn opend_dt_format() -> Seq<char> {
    "%Y-%m-%d %H:%M:%S"@
}

/// The OpenD time layout with fractional seconds.
pub open spec fn opend_dt_format_fraction() -> Seq<char> {
    "%Y-%m-%d %H:%M:%S%.f"@
}

/// The first reading that succeeded: plain layout, then with fractional
/// seconds, then RFC 3339.
pub open spec fn spec_first_reading(
    plain: Option<Timestamp>,
    fraction: Option<Timestamp>,
    rfc3339: Option<Timestamp>,
) -> Option<Timestamp> {
    if plain is Some {
        plain
    } else if fraction is Some {
        fraction
    } else {
        rfc3339
    }
}

/// Picks the first successful reading of an OpenD time (see
/// `spec_first_reading`).
pub fn first_reading(
    plain: Option<Timestamp>,
    fraction: Option<Timestamp>,
    rfc3339: Option<Timestamp>,
) -> (r: Option<Timestamp>)
    ensures
        r == spec_first_reading(plain, fraction, rfc3339),
{
    if plain.is_some() {
        plain
    } else if fraction.is_some() {
        fraction
    } else {
        rfc3339
    }
}

/// An OpenD time text read as UTC: `None` when blank; otherwise the first of
/// the plain layout, the layout with fractional seconds, and RFC 3339 that
/// reads the trimmed text.
pub open spec fn spec_parse_opend_dt(s: Seq<char>) -> Option<Timestamp> {
    let t = trim(s);
    if t.len() == 0 {
        None
    } else {
        spec_first_reading(
            chrono_naive_utc(t, opend_dt_format()),
            chrono_naive_utc(t, opend_dt_format_fraction()),
            chrono_rfc3339_utc(t),
        )
    }
}

/// Reads an OpenD time text (see `spec_parse_opend_dt`).
pub fn parse_opend_dt(s: &str) -> (r: Option<Timestamp>)
    ensures
        r == spec_parse_opend_dt(s@),
{
    let tc = trim_chars(&chars_of(s));
    if tc.len() == 0 {
        return None;
    }
    let t = string_of(&tc);
    let plain = naive_utc_from_str(t.as_str(), "%Y-%m-%d %H:%M:%S");
    let fraction = naive_utc_from_str(t.as_str(), "%Y-%m-%d %H:%M:%S%.f");
    let rfc = rfc3339_utc_from_str(t.as_str());
    first_reading(plain, fraction, rfc)
}

} // verus!
