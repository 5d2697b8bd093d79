# trade_robot

The decision core of a paper-first trading robot for Futu OpenD, written in
Verus. The functions in `src/` carry contracts and are verified, except a
few small trusted wrappers around std and the outside crates (digests, hex,
dates, random order ids, Unicode case mapping), each marked
`#[verifier::external_body]` with its contract stated in its doc comment.

- `src/` — the library:
  - `paper.rs` paper execution book (idempotent placement, resting limit
    orders, cancels, fills on quotes) with its well-formedness invariant and
    laws;
  - `risk.rs` the pre-trade gate (halt, live lock, allowlists, sessions,
    blackouts, cooldowns, sizes, positions, price band outcome, rate limit);
  - `control.rs` run/halt state, kill switch and safe mode, live-order and
    cancel preconditions, trade routing from OpenD accounts, fill quantities;
  - `engine.rs` symbol normalisation, routing, unlock precheck, provider
    routes, staleness breaker, checksums, watchlists, bar buckets;
  - `audit.rs` the SHA-256 hash chain of the audit log and its queries;
  - `protocol.rs`, `futu.rs` OpenD framing and code mappings;
  - `config.rs` profiles and the active profile (paper by default);
  - `ai.rs` (with the provider failover step), `strategies.rs`, `models.rs`, `secrets.rs`, `metrics.rs`,
    `text.rs`, `time.rs`, `types.rs` supporting rules and types.
- `tests/` — tests run against the compiled library.
- `app/` — the host: clock, floating-point prices and statistics, strategies
  on bars, backtests, SQLite audit storage, the OS keychain, the OpenD socket.
