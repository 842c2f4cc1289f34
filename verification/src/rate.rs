//! How fast a session asks: how its rate rises and falls, how its requests are spaced, and how long
//! it pauses.

use vstd::prelude::*;

verus! {

/// One request per second. Rates are counted in units of 10^-18 requests per second.
pub const FULL_RATE: u64 = 1_000_000_000_000_000_000;

/// What an answered request adds to the rate.
pub const RATE_STEP: u64 = 150_000_000_000_000_000;

/// The rate below which no refusal pushes it.
pub const MIN_RATE: u64 = 300_000_000_000_000_000;

/// The slowest rate by which requests are spaced.
pub const PACE_FLOOR: u64 = 200_000_000_000_000_000;

/// One second. Times and durations are counted in nanoseconds.
pub const SECOND: u64 = 1_000_000_000;

/// The nanoseconds in a second times the units in `FULL_RATE`: divided by a rate, it gives the time
/// from one request to the next.
pub const PACE: u128 = 1_000_000_000_000_000_000_000_000_000;

/// The longest pause that refusals bring about, in seconds.
pub const MAX_BACKOFF: u64 = 300;

/// The rate after an answered request: one step up, to no more than `target`.
pub open spec fn raised(rate: u64, target: u64) -> u64 {
    if rate >= target {
        rate
    } else if rate + RATE_STEP <= target {
        (rate + RATE_STEP) as u64
    } else {
        target
    }
}

/// The rate after a repeated refusal: four fifths, but no less than `MIN_RATE`.
pub open spec fn lowered(rate: u64) -> u64 {
    if rate * 4 / 5 >= MIN_RATE {
        (rate * 4 / 5) as u64
    } else {
        MIN_RATE
    }
}

/// The time from one request to the next at a rate, in nanoseconds.
pub open spec fn spacing(rate: u64) -> int {
    if rate >= PACE_FLOOR {
        PACE as int / rate as int
    } else {
        PACE as int / PACE_FLOOR as int
    }
}

/// The pause after `refusals` refusals in a row, `each` seconds for each of them.
pub open spec fn backoff(each: u64, refusals: u32) -> int {
    if each * refusals <= MAX_BACKOFF {
        each * refusals
    } else {
        MAX_BACKOFF as int
    }
}

/// One refusal more, as far as the counter can count.
pub open spec fn one_more(refusals: u32) -> u32 {
    if refusals < u32::MAX {
        (refusals + 1) as u32
    } else {
        refusals
    }
}

/// The rate after an answered request.
pub fn raise(rate: u64, target: u64) -> (r: u64)
    ensures
        r == raised(rate, target),
{
    if rate >= target {
        rate
    } else if RATE_STEP <= target - rate {
        rate + RATE_STEP
    } else {
        target
    }
}

/// The rate after a repeated refusal.
pub fn lower(rate: u64) -> (r: u64)
    ensures
        r == lowered(rate),
{
    let cut: u128 = rate as u128 * 4 / 5;
    if cut >= MIN_RATE as u128 {
        cut as u64
    } else {
        MIN_RATE
    }
}

/// The time from one request to the next at a rate, in nanoseconds.
pub fn gap(rate: u64) -> (r: u64)
    ensures
        r == spacing(rate),
{
    let paced: u64 = if rate >= PACE_FLOOR {
        rate
    } else {
        PACE_FLOOR
    };
    assert(PACE as int / paced as int <= 5 * SECOND) by (nonlinear_arith)
        requires
            paced >= PACE_FLOOR,
    ;
    (PACE / paced as u128) as u64
}

/// The pause after `refusals` refusals in a row, in seconds.
pub fn pause(each: u64, refusals: u32) -> (r: u64)
    ensures
        r == backoff(each, refusals),
{
    assert(0 <= each * refusals <= u64::MAX * u32::MAX) by (nonlinear_arith);
    let whole: u128 = each as u128 * refusals as u128;
    if whole <= MAX_BACKOFF as u128 {
        whole as u64
    } else {
        MAX_BACKOFF
    }
}

/// One refusal more, as far as the counter can count.
pub fn count(refusals: u32) -> (r: u32)
    ensures
        r == one_more(refusals),
{
    if refusals < u32::MAX {
        refusals + 1
    } else {
        refusals
    }
}

/// The rate after so many answered requests in a row.
pub open spec fn raised_often(rate: u64, target: u64, times: nat) -> u64
    decreases times,
{
    if times == 0 {
        rate
    } else {
        raised(raised_often(rate, target, (times - 1) as nat), target)
    }
}

/// Answers add to the rate up to the target and never take from it; refusals take a fifth, down to
/// the least rate, and never add to it.
pub proof fn law_rate_rises_by_steps_and_falls_by_fifths(rate: u64, target: u64)
    requires
        MIN_RATE <= rate <= target,
    ensures
        rate <= raised(rate, target) <= target,
        raised(rate, target) == target || raised(rate, target) == rate + RATE_STEP,
        MIN_RATE <= lowered(rate) <= rate,
        lowered(rate) == MIN_RATE || lowered(rate) == rate * 4 / 5,
{
}

/// From the least rate on, five answers in a row bring the full rate back.
pub proof fn law_five_answers_restore_the_rate(rate: u64)
    requires
        MIN_RATE <= rate <= FULL_RATE,
    ensures
        raised_often(rate, FULL_RATE, 5) == FULL_RATE,
{
    reveal_with_fuel(raised_often, 6);
}

/// Within its bounds, a rate spaces requests by one second at least and by ten thirds of a second
/// at most, and a lower rate spaces them no closer.
pub proof fn law_lower_rates_space_wider(slow: u64, fast: u64)
    requires
        MIN_RATE <= slow <= fast <= FULL_RATE,
    ensures
        SECOND <= spacing(fast) <= spacing(slow) <= 3_333_333_333,
{
    assert(PACE as int / fast as int <= PACE as int / slow as int) by (nonlinear_arith)
        requires
            0 < slow <= fast,
    ;
    assert(PACE as int / fast as int >= SECOND) by (nonlinear_arith)
        requires
            0 < fast <= FULL_RATE,
    ;
    assert(PACE as int / slow as int <= 3_333_333_333) by (nonlinear_arith)
        requires
            slow >= MIN_RATE,
    ;
}

/// Each refusal more makes the pause no shorter, and five minutes is the longest.
pub proof fn law_pauses_grow_and_are_bounded(each: u64, refusals: u32)
    ensures
        backoff(each, refusals) <= backoff(each, one_more(refusals)) <= MAX_BACKOFF,
{
    assert(each * refusals <= each * one_more(refusals)) by (nonlinear_arith)
        requires
            refusals <= one_more(refusals),
            0 <= each,
    ;
}

/// An answer adds fifteen hundredths of a request per second to the rate, as far as the target lets
/// it, and leaves a rate that is there already.
pub proof fn law_answers_add_one_step(rate: u64, target: u64)
    ensures
        target <= rate ==> raised(rate, target) == rate,
        rate < target && target - rate < 150_000_000_000_000_000 ==> raised(rate, target)
            == target,
        150_000_000_000_000_000 <= target - rate ==> raised(rate, target) - rate
            == 150_000_000_000_000_000,
{
}

/// A repeated refusal leaves four fifths of the rate, to the unit, but no less than three tenths of
/// a request per second.
pub proof fn law_refusals_leave_four_fifths(rate: u64)
    ensures
        375_000_000_000_000_000 <= rate ==> 5 * lowered(rate) <= 4 * rate < 5 * lowered(rate) + 5,
        rate < 375_000_000_000_000_000 ==> lowered(rate) == 300_000_000_000_000_000,
{
}

/// Requests are spaced by the time that the rate leaves for one, to the nanosecond, and by five
/// seconds at most.
pub proof fn law_spacing_is_one_over_the_rate(rate: u64)
    ensures
        200_000_000_000_000_000 <= rate ==> spacing(rate) * rate
            <= 1_000_000_000_000_000_000_000_000_000 < (spacing(rate) + 1) * rate,
        rate < 200_000_000_000_000_000 ==> spacing(rate) == 5_000_000_000,
{
    if 200_000_000_000_000_000 <= rate {
        let r = rate as int;
        let whole = 1_000_000_000_000_000_000_000_000_000int;
        assert((whole / r) * r <= whole < (whole / r + 1) * r) by (nonlinear_arith)
            requires
                0 < r,
        ;
    }
}

/// A pause lasts as long as the refusals in a row ask for together, up to five minutes.
pub proof fn law_pauses_add_up(each: u64, refusals: u32)
    ensures
        each * refusals <= 300 ==> backoff(each, refusals) == each * refusals,
        300 <= each * refusals ==> backoff(each, refusals) == 300,
{
}

/// Every refusal is counted, as far as the counter can count.
pub proof fn law_refusals_are_counted(refusals: u32)
    ensures
        refusals < u32::MAX ==> one_more(refusals) == refusals + 1,
        one_more(u32::MAX) == u32::MAX,
{
}

} // verus!
