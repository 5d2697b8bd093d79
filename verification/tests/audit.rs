use sha2::Digest;
use trade_robot::audit::{compute_hash, next_link};

fn reference_hash(prev: Option<&str>, ts: &str, ty: &str, trace: Option<&str>, payload: &str) -> String {
    let mut h = sha2::Sha256::new();
    if let Some(p) = prev {
        h.update(p.as_bytes());
    }
    h.update(ts.as_bytes());
    h.update(ty.as_bytes());
    if let Some(t) = trace {
        h.update(t.as_bytes());
    }
    h.update(payload.as_bytes());
    hex::encode(h.finalize())
}

#[test]
fn hash_matches_incremental_sha256() {
    let ts = "2026-02-16T10:00:00+00:00";
    let h = compute_hash(None, ts, "order_placed", Some("trace-1"), "{\"a\":1}");
    assert_eq!(h, reference_hash(None, ts, "order_placed", Some("trace-1"), "{\"a\":1}"));
    assert_eq!(h.len(), 64);
    assert!(h.chars().all(|c| c.is_ascii_hexdigit() && !c.is_ascii_uppercase()));
    let h2 = compute_hash(Some(&h), ts, "order_filled", None, "{}");
    assert_eq!(h2, reference_hash(Some(&h), ts, "order_filled", None, "{}"));
    assert_ne!(h, h2);
}

#[test]
fn empty_event_hash_is_sha256_of_nothing() {
    assert_eq!(
        compute_hash(None, "", "", None, ""),
        "e3b0c44298fc1c149afbf4c8996fb92427ae41e4649b934ca495991b7852b855"
    );
}

#[test]
fn chain_links_point_backwards() {
    let first = next_link(None, "t1", "a", None, "{}");
    assert!(first.prev_hash.is_none());
    let second = next_link(Some(&first.hash), "t2", "b", Some("tr"), "{\"x\":2}");
    assert_eq!(second.prev_hash.as_deref(), Some(first.hash.as_str()));
    assert_eq!(second.hash, compute_hash(Some(&first.hash), "t2", "b", Some("tr"), "{\"x\":2}"));
    // Changing a payload changes the hash, so a later link no longer matches.
    assert_ne!(next_link(None, "t1", "a", None, "{ }").hash, first.hash);
}

#[test]
fn tampered_event_no_longer_matches_its_successor() {
    let first = next_link(None, "2026-01-01T00:00:00+00:00", "order_placed", None, "{\"qty\":1}");
    let second = next_link(Some(&first.hash), "2026-01-01T00:00:01+00:00", "order_filled", None, "{}");
    // Rewriting the first event's payload and recomputing its hash breaks the
    // link the second event stores.
    let forged = compute_hash(None, "2026-01-01T00:00:00+00:00", "order_placed", None, "{\"qty\":100}");
    assert_ne!(Some(forged.as_str()), second.prev_hash.as_deref());
    // Keeping the old hash instead leaves a hash that does not match the fields.
    assert_ne!(first.hash, forged);
}
