//! Randomised modification times, drawn from a window in the recent past.
use vstd::prelude::*;
use rand::rngs::StdRng;
use rand::Rng;

verus! {

/// The youngest age a randomised time may have: one hour.
pub const MIN_AGE_SECS: u64 = 60 * 60;

/// The oldest age a randomised time may have: ten days.
pub const MAX_AGE_SECS: u64 = 10 * 24 * 60 * 60;

/// `t` (seconds since the epoch) lies between ten days and one hour before `now`.
pub open spec fn in_window(now: int, t: int) -> bool {
    now - MAX_AGE_SECS <= t <= now - MIN_AGE_SECS
}

/// Relies on rand's `Rng::gen_range` (0.8) over an inclusive range: a value between the
/// two bounds, both included. It panics on an empty range, which `requires` excludes.
#[verifier::external_body]
fn draw_between(rng: &mut StdRng, lo: u64, hi: u64) -> (r: u64)
    requires
        lo <= hi,
    ensures
        lo <= r <= hi,
{
    rng.gen_range(lo..=hi)
}

/// The time `age` seconds before `now`.
pub fn backdate(now: i64, age: u64) -> (t: i64)
    requires
        MIN_AGE_SECS <= age <= MAX_AGE_SECS,
        now >= i64::MIN + MAX_AGE_SECS,
    ensures
        t == now - age,
        in_window(now as int, t as int),
{
    now - age as i64
}

/// A fresh random time between ten days and one hour before `now` (seconds since the epoch).
pub fn random_timestamp(now: i64, rng: &mut StdRng) -> (t: i64)
    requires
        now >= i64::MIN + MAX_AGE_SECS,
    ensures
        in_window(now as int, t as int),
{
    let age = draw_between(rng, MIN_AGE_SECS, MAX_AGE_SECS);
    backdate(now, age)
}

} // verus!
