//! UTC instants as whole seconds since the Unix epoch plus a sub-second part,
//! and the calendar facts the engine reads from them.
use vstd::prelude::*;
use vstd::arithmetic::div_mod::{lemma_fundamental_div_mod, lemma_fundamental_div_mod_converse};

verus! {

pub const NANOS_PER_SEC: i128 = 1_000_000_000;

/// A UTC instant: `secs` whole seconds after 1970-01-01T00:00:00Z plus `nanos`.
#[derive(Debug, Clone, Copy, PartialEq, Eq, Structural)]
pub struct Timestamp {
    pub secs: i64,
    pub nanos: u32,
}

impl Timestamp {
    /// Nanoseconds since the epoch.
    pub open spec fn total_nanos(self) -> int {
        self.secs * 1_000_000_000 + self.nanos
    }

    /// Days since the epoch (1970-01-01 was day 0, a Thursday).
    pub open spec fn spec_day(self) -> int {
        (self.secs as int) / 86400
    }

    /// ISO weekday: 1 = Monday ... 7 = Sunday.
    pub open spec fn spec_weekday(self) -> int {
        ((self.spec_day() % 7) + 3) % 7 + 1
    }

    /// Hour of the day, 0..=23.
    pub open spec fn spec_hour(self) -> int {
        ((self.secs as int) % 86400) / 3600
    }

    /// Minute of the hour, 0..=59.
    pub open spec fn spec_minute(self) -> int {
        ((self.secs as int) % 3600) / 60
    }

    /// The ISO weekday number (`Datelike::weekday().number_from_monday()`).
    pub fn weekday(&self) -> (w: u8)
        ensures
            w as int == self.spec_weekday(),
            1 <= w <= 7,
    {
        let (days, _) = floor_div_mod(self.secs, 86400);
        let (_, r) = floor_div_mod(days, 7);
        proof {
            assert(days == self.spec_day());
        }
        let w = ((r + 3) % 7 + 1) as u8;
        w
    }

    /// Hour of the day (`Timelike::hour`).
    pub fn hour(&self) -> (h: u32)
        ensures
            h as int == self.spec_hour(),
            h < 24,
    {
        let (_, r) = floor_div_mod(self.secs, 86400);
        (r / 3600) as u32
    }

    /// Minute of the hour (`Timelike::minute`).
    pub fn minute(&self) -> (m: u32)
        ensures
            m as int == self.spec_minute(),
            m < 60,
    {
        let (_, r) = floor_div_mod(self.secs, 3600);
        (r / 60) as u32
    }
}

/// Floor division and the matching non-negative remainder.
pub fn floor_div_mod(a: i64, d: i64) -> (r: (i64, i64))
    requires
        d > 0,
    ensures
        r.0 as int == (a as int) / (d as int),
        r.1 as int == (a as int) % (d as int),
        0 <= r.1 < d,
{
    if a >= 0 {
        let q = a / d;
        let m = a % d;
        (q, m)
    } else {
        let b = -(a + 1);
        let q = b / d;
        let m = b % d;
        let q2 = -q - 1;
        let m2 = d - 1 - m;
        proof {
            lemma_fundamental_div_mod(b as int, d as int);
            assert(b == q * d + m) by (nonlinear_arith)
                requires
                    b == d * (b / d) + b % d,
                    q == b / d,
                    m == b % d,
            ;
            assert(a == q2 * d + m2) by (nonlinear_arith)
                requires
                    b == q * d + m,
                    b == -(a + 1),
                    q2 == -q - 1,
                    m2 == d - 1 - m,
            ;
            lemma_fundamental_div_mod_converse(a as int, d as int, q2 as int, m2 as int);
        }
        (q2, m2)
    }
}

/// Start of the `interval_sec` bucket that holds `ts`: the whole seconds minus
/// their truncating remainder by `interval_sec`, with no sub-second part.
pub open spec fn spec_floor_time(ts: Timestamp, interval_sec: u32) -> Timestamp {
    let s = ts.secs as int;
    let rem = if s >= 0 {
        s % (interval_sec as int)
    } else {
        -((-s) % (interval_sec as int))
    };
    Timestamp { secs: (s - rem) as i64, nanos: 0 }
}

/// Buckets an instant for bar building (`interval_sec` must be positive).
pub fn floor_time(ts: Timestamp, interval_sec: u32) -> (out: Timestamp)
    requires
        interval_sec > 0,
    ensures
        out == spec_floor_time(ts, interval_sec),
{
    let secs = ts.secs;
    let rem = secs % (interval_sec as i64);
    Timestamp { secs: secs - rem, nanos: 0 }
}

} // verus!
