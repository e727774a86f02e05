use vstd::arithmetic::div_mod::{
    lemma_fundamental_div_mod, lemma_fundamental_div_mod_converse_div, lemma_mod_bound,
};
use vstd::prelude::*;

verus! {

/// Seconds in one UTC day.
pub const SECONDS_PER_DAY: i64 = 86400;

/// Bound on the magnitude of a day number (days since 1970-01-01) that the
/// calendar handles: about 246,000 years either way, within what the date
/// library represents.
pub const DAY_LIMIT: i64 = 90_000_000;

/// Bound on the magnitude of an instant (seconds since the epoch) handed to
/// the schedule library: beyond every day within `DAY_LIMIT` plus a few weeks,
/// and still within the date library's range.
pub const INSTANT_LIMIT: i64 = 8_000_000_000_000;

/// A day number is valid when it lies within the calendar's range.
pub open spec fn valid_day(d: int) -> bool {
    -DAY_LIMIT <= d <= DAY_LIMIT
}

/// The UTC date (a day number) of an instant given in seconds since the epoch.
pub open spec fn date_of(t: int) -> int {
    t / (SECONDS_PER_DAY as int)
}

/// The first instant (midnight UTC) of a day.
pub open spec fn day_start(d: int) -> int {
    d * SECONDS_PER_DAY
}

/// The UTC date of an instant.
pub fn date_of_instant(t: i64) -> (r: i64)
    ensures
        r == date_of(t as int),
{
    if t >= 0 {
        t / SECONDS_PER_DAY
    } else {
        let u: i64 = -(t + 1);
        let q: i64 = u / SECONDS_PER_DAY;
        proof {
            let d = SECONDS_PER_DAY as int;
            lemma_fundamental_div_mod(u as int, d);
            lemma_mod_bound(u as int, d);
            let r = (u as int) % d;
            assert(t as int == (-(q as int) - 1) * d + (d - r - 1)) by (nonlinear_arith)
                requires
                    u as int == d * (q as int) + r,
                    t as int == -(u as int) - 1,
            ;
            lemma_fundamental_div_mod_converse_div(t as int, d, -(q as int) - 1, d - r - 1);
        }
        -q - 1
    }
}

/// Midnight UTC of a day, as an instant.
pub fn start_of_day(d: i64) -> (r: i64)
    requires
        -2 * DAY_LIMIT <= d <= 2 * DAY_LIMIT,
    ensures
        r == day_start(d as int),
        date_of(r as int) == d,
{
    proof {
        lemma_fundamental_div_mod_converse_div(d * SECONDS_PER_DAY, SECONDS_PER_DAY as int, d as int, 0);
    }
    d * SECONDS_PER_DAY
}

/// The date of an instant is monotone in the instant.
pub proof fn lemma_date_monotone(a: int, b: int)
    requires
        a <= b,
    ensures
        date_of(a) <= date_of(b),
{
    let d = SECONDS_PER_DAY as int;
    lemma_fundamental_div_mod(a, d);
    lemma_fundamental_div_mod(b, d);
    lemma_mod_bound(a, d);
    lemma_mod_bound(b, d);
    let qa = a / d;
    let qb = b / d;
    if qa > qb {
        assert(d * qa >= d * qb + d) by (nonlinear_arith)
            requires
                qa >= qb + 1,
                d > 0,
        ;
    }
}

/// An instant before midnight of day `d + 1` has a date of at most `d`,
/// and an instant from midnight of day `d` on has a date of at least `d`.
pub proof fn lemma_date_bounds(t: int, d: int)
    ensures
        t < day_start(d + 1) ==> date_of(t) <= d,
        t >= day_start(d) ==> date_of(t) >= d,
        date_of(t) <= d ==> t < day_start(d + 1),
        date_of(t) > d ==> t >= day_start(d + 1),
{
    let s = SECONDS_PER_DAY as int;
    lemma_fundamental_div_mod_converse_div(day_start(d), s, d, 0);
    lemma_fundamental_div_mod_converse_div(day_start(d + 1), s, d + 1, 0);
    if t < day_start(d + 1) {
        lemma_date_monotone(t, day_start(d + 1) - 1);
        lemma_fundamental_div_mod_converse_div(day_start(d + 1) - 1, s, d, s - 1);
    }
    if t >= day_start(d) {
        lemma_date_monotone(day_start(d), t);
    }
    if date_of(t) <= d && t >= day_start(d + 1) {
        lemma_date_monotone(day_start(d + 1), t);
    }
    if date_of(t) > d && t < day_start(d + 1) {
        lemma_date_monotone(t, day_start(d + 1) - 1);
        lemma_fundamental_div_mod_converse_div(day_start(d + 1) - 1, s, d, s - 1);
    }
}

} // verus!
