//! The audit log's hash chain: every appended event stores the hash of the
//! event before it and its own hash
//! `SHA256(prev_hash || ts || event_type || trace_id || payload_json)`,
//! written as lowercase hex.
use vstd::prelude::*;
use sha2::Digest;
use crate::text::{chars_of, push_all, string_of};
use vstd::string::StringExecFns;

verus! {

/// The id and hash the store gives back for an appended event.
#[derive(Debug, Clone)]
pub struct AuditAppendResult {
    pub id: i64,
    pub hash: String,
}

/// The chain fields of an event about to be stored.
#[derive(Debug, Clone)]
pub struct AuditLink {
    pub prev_hash: Option<String>,
    pub hash: String,
}

/// SHA-256 digest of a byte sequence.
pub uninterp spec fn sha256_digest(data: Seq<u8>) -> [u8; 32];

/// Calls `sha2::Sha256::digest` (the `Digest` trait of the `digest` crate);
/// its result is the SHA-256 of `data`, named `sha256_digest`.
#[verifier::external_body]
pub(crate) fn sha256_of(data: &[u8]) -> (d: [u8; 32])
    ensures
        d == sha256_digest(data@),
{
    sha2::Sha256::digest(data).into()
}

/// Lowercase hex digit of a value below 16.
pub open spec fn hex_digit(d: u8) -> char {
    if d < 10 {
        (('0' as u32) + d as u32) as char
    } else {
        (('a' as u32) + (d - 10) as u32) as char
    }
}

/// Lowercase hex text of bytes: two digits per byte, high half first.
pub open spec fn hex_lower(data: Seq<u8>) -> Seq<char>
    decreases data.len(),
{
    if data.len() == 0 {
        Seq::empty()
    } else {
        hex_lower(data.drop_last()) + seq![hex_digit(data.last() / 16), hex_digit(data.last() % 16)]
    }
}

/// Calls `hex::encode`, which writes each byte as two lowercase hex digits
/// (high half first), in order.
#[verifier::external_body]
pub(crate) fn hex_encode(data: &[u8]) -> (s: String)
    ensures
        s@ == hex_lower(data@),
{
    hex::encode(data)
}

/// UTF-8 bytes of a text.
pub open spec fn utf8(s: Seq<char>) -> Seq<u8> {
    vstd::utf8::encode_utf8(s)
}

/// UTF-8 bytes of an optional text; nothing when absent.
pub open spec fn utf8_opt(s: Option<Seq<char>>) -> Seq<u8> {
    match s {
        Some(t) => utf8(t),
        None => Seq::empty(),
    }
}

/// The hash of an audit event: hex SHA-256 over the previous hash (if any),
/// the timestamp, the event type, the trace id (if any) and the payload.
pub open spec fn spec_compute_hash(
    prev_hash: Option<Seq<char>>,
    ts: Seq<char>,
    event_type: Seq<char>,
    trace_id: Option<Seq<char>>,
    payload: Seq<char>,
) -> Seq<char> {
    hex_lower(
        sha256_digest(
            utf8_opt(prev_hash) + utf8(ts) + utf8(event_type) + utf8_opt(trace_id) + utf8(
                payload,
            ),
        )@,
    )
}

fn push_bytes(out: &mut Vec<u8>, b: &[u8])
    ensures
        final(out)@ == old(out)@ + b@,
{
    let mut i: usize = 0;
    while i < b.len()
        invariant
            i <= b@.len(),
            out@ == old(out)@ + b@.subrange(0, i as int),
        decreases b.len() - i,
    {
        out.push(b[i]);
        i += 1;
        assert(out@ =~= old(out)@ + b@.subrange(0, i as int));
    }
    assert(b@.subrange(0, b@.len() as int) =~= b@);
}

/// View of an optional text argument.
pub open spec fn opt_view(s: Option<&str>) -> Option<Seq<char>> {
    match s {
        Some(t) => Some(t@),
        None => None,
    }
}

/// Hash of an audit event (see `spec_compute_hash`).
pub fn compute_hash(
    prev_hash: Option<&str>,
    ts: &str,
    event_type: &str,
    trace_id: Option<&str>,
    payload: &str,
) -> (h: String)
    ensures
        h@ == spec_compute_hash(
            opt_view(prev_hash),
            ts@,
            event_type@,
            opt_view(trace_id),
            payload@,
        ),
{
    let ghost pv = opt_view(prev_hash);
    let ghost tv = opt_view(trace_id);
    let mut bytes: Vec<u8> = Vec::new();
    if let Some(p) = prev_hash {
        push_bytes(&mut bytes, p.as_bytes());
    }
    assert(bytes@ =~= utf8_opt(pv));
    push_bytes(&mut bytes, ts.as_bytes());
    push_bytes(&mut bytes, event_type.as_bytes());
    let ghost mid = bytes@;
    if let Some(t) = trace_id {
        push_bytes(&mut bytes, t.as_bytes());
    }
    assert(bytes@ =~= mid + utf8_opt(tv));
    push_bytes(&mut bytes, payload.as_bytes());
    let digest = sha256_of(bytes.as_slice());
    hex_encode(&digest)
}

/// The chain fields of the next event: it points at the hash of the last
/// stored event (none for the first event) and carries its own hash.
pub fn next_link(
    last_hash: Option<&str>,
    ts: &str,
    event_type: &str,
    trace_id: Option<&str>,
    payload: &str,
) -> (l: AuditLink)
    ensures
        match (l.prev_hash, last_hash) {
            (Some(a), Some(b)) => a@ == b@,
            (None, None) => true,
            _ => false,
        },
        l.hash@ == spec_compute_hash(
            opt_view(last_hash),
            ts@,
            event_type@,
            opt_view(trace_id),
            payload@,
        ),
{
    let hash = compute_hash(last_hash, ts, event_type, trace_id, payload);
    let prev_hash = match last_hash {
        Some(p) => Some(string_of(&chars_of(p))),
        None => None,
    };
    AuditLink { prev_hash, hash }
}

/// A stored audit event, as text.
pub struct AuditEventView {
    pub ts: Seq<char>,
    pub event_type: Seq<char>,
    pub payload_json: Seq<char>,
    pub trace_id: Option<Seq<char>>,
    pub prev_hash: Option<Seq<char>>,
    pub hash: Seq<char>,
}

/// Events in id order form an intact chain: each points at the hash of the
/// one before it (the first at none) and carries the hash of its own fields.
pub open spec fn chain_intact(events: Seq<AuditEventView>) -> bool {
    forall|i: int|
        0 <= i < events.len() ==> {
            &&& (#[trigger] events[i]).prev_hash == if i == 0 {
                None
            } else {
                Some(events[i - 1].hash)
            }
            &&& events[i].hash == spec_compute_hash(
                events[i].prev_hash,
                events[i].ts,
                events[i].event_type,
                events[i].trace_id,
                events[i].payload_json,
            )
        }
}

/// Appending an event whose link was made by `next_link` from the last hash of
/// an intact chain keeps the chain intact.
pub proof fn law_append_keeps_chain_intact(
    events: Seq<AuditEventView>,
    ts: Seq<char>,
    event_type: Seq<char>,
    trace_id: Option<Seq<char>>,
    payload_json: Seq<char>,
)
    requires
        chain_intact(events),
    ensures
        ({
            let prev = if events.len() == 0 {
                None
            } else {
                Some(events.last().hash)
            };
            let e = AuditEventView {
                ts,
                event_type,
                payload_json,
                trace_id,
                prev_hash: prev,
                hash: spec_compute_hash(prev, ts, event_type, trace_id, payload_json),
            };
            chain_intact(events.push(e))
        }),
{
    let prev = if events.len() == 0 {
        None
    } else {
        Some(events.last().hash)
    };
    let e = AuditEventView {
        ts,
        event_type,
        payload_json,
        trace_id,
        prev_hash: prev,
        hash: spec_compute_hash(prev, ts, event_type, trace_id, payload_json),
    };
    let s = events.push(e);
    assert forall|i: int| 0 <= i < s.len() implies {
        &&& (#[trigger] s[i]).prev_hash == if i == 0 {
            None
        } else {
            Some(s[i - 1].hash)
        }
        &&& s[i].hash == spec_compute_hash(
            s[i].prev_hash,
            s[i].ts,
            s[i].event_type,
            s[i].trace_id,
            s[i].payload_json,
        )
    } by {
        if i < events.len() {
            assert(s[i] == events[i]);
            if i > 0 {
                assert(s[i - 1] == events[i - 1]);
            }
        }
    }
}

/// Tampering shows: if an event of an intact chain is replaced and the chain
/// still checks out, the new event has the old one's predecessor link and
/// carries the hash of its own fields; and unless it is the last event, its
/// fields hash to exactly the old event's hash, so an edit goes unnoticed
/// only through a SHA-256 collision.
pub proof fn law_tampering_breaks_chain(events: Seq<AuditEventView>, i: int, e: AuditEventView)
    requires
        chain_intact(events),
        0 <= i < events.len(),
        chain_intact(events.update(i, e)),
    ensures
        e.prev_hash == events[i].prev_hash,
        e.hash == spec_compute_hash(e.prev_hash, e.ts, e.event_type, e.trace_id, e.payload_json),
        i + 1 < events.len() ==> spec_compute_hash(
            e.prev_hash,
            e.ts,
            e.event_type,
            e.trace_id,
            e.payload_json,
        ) == spec_compute_hash(
            events[i].prev_hash,
            events[i].ts,
            events[i].event_type,
            events[i].trace_id,
            events[i].payload_json,
        ),
{
    let u = events.update(i, e);
    assert(u[i] == e);
    if i > 0 {
        assert(u[i - 1] == events[i - 1]);
    }
    if i + 1 < events.len() {
        assert(u[i + 1] == events[i + 1]);
    }
}

// ---------------------------------------------------------------------------
// Reading the log back
// ---------------------------------------------------------------------------

/// A value bound to a `?` of an SQL statement.
#[derive(Debug, Clone)]
pub enum SqlParam {
    Text(String),
    Int(i64),
}

/// An SQL statement and the values for its `?` placeholders, in order.
#[derive(Debug, Clone)]
pub struct SqlQuery {
    pub sql: String,
    pub params: Vec<SqlParam>,
}

/// Most events one page may hold.
pub const AUDIT_PAGE_MAX: u32 = 500;

/// The statement listing audit events, newest first, optionally only those
/// of one event type and/or one trace id.
pub open spec fn audit_list_sql(by_type: bool, by_trace: bool) -> Seq<char> {
    "SELECT id, ts, event_type, payload_json, trace_id, prev_hash, hash FROM audit_events"@ + (
    if by_type {
        " WHERE event_type = ?"@
    } else {
        Seq::empty()
    }) + (if by_trace {
        if by_type {
            " AND trace_id = ?"@
        } else {
            " WHERE trace_id = ?"@
        }
    } else {
        Seq::empty()
    }) + " ORDER BY id DESC LIMIT ? OFFSET ?"@
}

/// The values bound to `audit_list_sql`: the filters given, then the page
/// size (at most `AUDIT_PAGE_MAX`) and the offset.
pub open spec fn audit_list_params(
    limit: u32,
    offset: u32,
    event_type: Option<String>,
    trace_id: Option<String>,
) -> Seq<SqlParam> {
    (match event_type {
        Some(et) => seq![SqlParam::Text(et)],
        None => Seq::empty(),
    }) + (match trace_id {
        Some(t) => seq![SqlParam::Text(t)],
        None => Seq::empty(),
    }) + seq![
        SqlParam::Int(if limit < AUDIT_PAGE_MAX { limit as i64 } else { AUDIT_PAGE_MAX as i64 }),
        SqlParam::Int(offset as i64),
    ]
}

/// The query for one page of audit events, newest first (see
/// `audit_list_sql` and `audit_list_params`).
pub fn audit_list_query(
    limit: u32,
    offset: u32,
    event_type: Option<String>,
    trace_id: Option<String>,
) -> (q: SqlQuery)
    ensures
        q.sql@ == audit_list_sql(event_type is Some, trace_id is Some),
        q.params@ == audit_list_params(limit, offset, event_type, trace_id),
{
    let ghost et0 = event_type;
    let ghost tid0 = trace_id;
    let by_type = event_type.is_some();
    let mut sql = chars_of(
        "SELECT id, ts, event_type, payload_json, trace_id, prev_hash, hash FROM audit_events",
    );
    let mut params: Vec<SqlParam> = Vec::new();
    if let Some(et) = event_type {
        push_all(&mut sql, &chars_of(" WHERE event_type = ?"));
        params.push(SqlParam::Text(et));
    }
    if let Some(t) = trace_id {
        if by_type {
            push_all(&mut sql, &chars_of(" AND trace_id = ?"));
        } else {
            push_all(&mut sql, &chars_of(" WHERE trace_id = ?"));
        }
        params.push(SqlParam::Text(t));
    }
    push_all(&mut sql, &chars_of(" ORDER BY id DESC LIMIT ? OFFSET ?"));
    let page: u32 = if limit < AUDIT_PAGE_MAX {
        limit
    } else {
        AUDIT_PAGE_MAX
    };
    params.push(SqlParam::Int(page as i64));
    params.push(SqlParam::Int(offset as i64));
    assert(sql@ =~= audit_list_sql(et0 is Some, tid0 is Some));
    assert(params@ =~= audit_list_params(limit, offset, et0, tid0));
    SqlQuery { sql: string_of(&sql), params }
}

/// Paging an export: after a page of `n` events read at `offset`, the offset
/// of the next page, or `None` once a short (or empty) page ended the log.
pub open spec fn spec_next_export_offset(offset: u32, n: u32) -> Option<u32> {
    if n < AUDIT_PAGE_MAX {
        None
    } else if offset + n > u32::MAX {
        Some(u32::MAX)
    } else {
        Some((offset + n) as u32)
    }
}

/// The offset of the next export page (see `spec_next_export_offset`).
pub fn next_export_offset(offset: u32, n: u32) -> (r: Option<u32>)
    ensures
        r == spec_next_export_offset(offset, n),
{
    if n < AUDIT_PAGE_MAX {
        None
    } else {
        Some(offset.saturating_add(n))
    }
}

/// JSON lines: each record followed by a newline.
pub open spec fn spec_jsonl(records: Seq<Seq<char>>) -> Seq<char>
    decreases records.len(),
{
    if records.len() == 0 {
        Seq::empty()
    } else {
        spec_jsonl(records.drop_last()) + records.last() + seq!['\n']
    }
}

/// Joins serialised records into JSON lines (see `spec_jsonl`).
pub fn jsonl(records: &Vec<String>) -> (s: String)
    ensures
        s@ == spec_jsonl(records@.map_values(|r: String| r@)),
{
    let ghost rv = records@.map_values(|r: String| r@);
    let mut out: Vec<char> = Vec::new();
    let mut i: usize = 0;
    while i < records.len()
        invariant
            i <= records@.len(),
            rv == records@.map_values(|r: String| r@),
            out@ == spec_jsonl(rv.take(i as int)),
        decreases records.len() - i,
    {
        assert(rv.take(i + 1).drop_last() =~= rv.take(i as int));
        assert(rv.take(i + 1).last() == records@[i as int]@);
        push_all(&mut out, &chars_of(records[i].as_str()));
        out.push('\n');
        i += 1;
    }
    assert(rv.take(records@.len() as int) =~= rv);
    string_of(&out)
}

} // verus!
