//! Arithmetic over the UTC timeline.
//!
//! Instants are whole seconds since the Unix epoch (`i64`). Durations between
//! instants are reported in whole minutes or whole hours, truncating toward
//! zero, which is the rounding used everywhere in the scheduling rules.

use vstd::prelude::*;

verus! {

/// Integer division truncating toward zero (for a positive `unit`), as Rust's
/// `/` on signed integers computes it.
pub open spec fn trunc_div(d: int, unit: int) -> int {
    if d >= 0 {
        d / unit
    } else {
        -((-d) / unit)
    }
}

/// Whole hours from `earlier` to `later`, truncating toward zero; negative
/// when `later` lies before `earlier`.
pub open spec fn hours_between(later: int, earlier: int) -> int {
    trunc_div(later - earlier, 3600)
}

/// Whole minutes from `earlier` to `later`, truncating toward zero.
pub open spec fn minutes_between(later: int, earlier: int) -> int {
    trunc_div(later - earlier, 60)
}

/// Computes `trunc_div(later - earlier, unit)` without overflow for any two
/// instants.
fn diff_div(later: i64, earlier: i64, unit: u128) -> (r: i64)
    requires
        unit == 60 || unit == 3600,
    ensures
        r == trunc_div(later - earlier, unit as int),
{
    let d: i128 = (later as i128) - (earlier as i128);
    if d >= 0 {
        let q: u128 = (d as u128) / unit;
        assert(q <= d);
        q as i64
    } else {
        let m: i128 = -d;
        let q: u128 = (m as u128) / unit;
        assert(q <= m);
        -(q as i64)
    }
}

/// Whole hours from `earlier` to `later`, truncating toward zero.
pub fn whole_hours(later: i64, earlier: i64) -> (r: i64)
    ensures
        r == hours_between(later as int, earlier as int),
{
    diff_div(later, earlier, 3600)
}

/// Whole minutes from `earlier` to `later`, truncating toward zero.
pub fn whole_minutes(later: i64, earlier: i64) -> (r: i64)
    ensures
        r == minutes_between(later as int, earlier as int),
{
    diff_div(later, earlier, 60)
}

} // verus!
