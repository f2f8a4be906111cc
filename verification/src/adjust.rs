//! The arithmetic of a brightness adjustment: percent units, the signed
//! adjustment, and clamping the result into the valid brightness range.

use crate::text::{brightness_file_text, dec_digits, parse_i32, parsed_i32};
use vstd::prelude::*;

verus! {

/// Whether an adjustment raises or lowers the brightness.
#[derive(Debug, Clone, Copy, PartialEq, Eq, Structural)]
pub enum AdjustDirection {
    Inc,
    Dec,
}

/// `v` forced into `[lo, hi]`: first capped at `hi`, then raised to `lo`.
/// (When `lo <= hi` the order does not matter.)
pub open spec fn clamp_spec(v: int, lo: int, hi: int) -> int {
    let capped: int = if v > hi { hi } else { v };
    if capped < lo {
        lo
    } else {
        capped
    }
}

/// One percent unit of a maximum brightness: floor division by 100.
pub open spec fn percent_unit_spec(max: int) -> int {
    max / 100
}

/// The signed change requested by `amount` percent in direction `dir`,
/// given one percent unit `unit`.
pub open spec fn adjustment_spec(dir: AdjustDirection, amount: int, unit: int) -> int {
    match dir {
        AdjustDirection::Inc => amount * unit,
        AdjustDirection::Dec => -(amount * unit),
    }
}

/// The brightness written back for a request `(dir, amount)` against a
/// current value `current` and a maximum `max`.
pub open spec fn new_brightness_spec(
    dir: AdjustDirection,
    amount: int,
    current: int,
    max: int,
) -> int {
    clamp_spec(current + adjustment_spec(dir, amount, percent_unit_spec(max)), 0, max)
}

/// One percent unit of `max`, by integer floor division.
pub fn percent_unit(max: i32) -> (r: i32)
    requires
        1 <= max,
    ensures
        r == percent_unit_spec(max as int),
{
    max / 100
}

/// Clamp a candidate brightness into `[0, max]`.
pub fn clamp_brightness(v: i64, max: i32) -> (r: i32)
    requires
        0 <= max,
    ensures
        r == clamp_spec(v as int, 0, max as int),
{
    let capped: i64 = if v > max as i64 {
        max as i64
    } else {
        v
    };
    if capped < 0 {
        0
    } else {
        capped as i32
    }
}

/// The new brightness for a request `(dir, amount)` given the current value
/// and the maximum: the current value moved by `amount` percent units and
/// clamped into `[0, max]`.
pub fn compute_new_brightness(dir: AdjustDirection, amount: u32, current: i32, max: i32) -> (r:
    i32)
    requires
        1 <= max,
    ensures
        r == new_brightness_spec(dir, amount as int, current as int, max as int),
        0 <= r <= max,
{
    let unit: i32 = percent_unit(max);
    proof {
        assert(0 <= unit <= 0x7fff_ffff);
        assert(0 <= amount as int * unit as int <= 0xffff_ffffi64 * 0x7fff_ffffi64)
            by (nonlinear_arith)
            requires
                0 <= amount as int <= 0xffff_ffff,
                0 <= unit as int <= 0x7fff_ffff,
        ;
    }
    let magnitude: i64 = amount as i64 * unit as i64;
    let adjustment: i64 = match dir {
        AdjustDirection::Inc => magnitude,
        AdjustDirection::Dec => -magnitude,
    };
    clamp_brightness(current as i64 + adjustment, max)
}

/// What one adjustment does once the current brightness text has been read:
/// either the text is not a number and nothing is written, or the new value
/// and the exact bytes to write back.
#[derive(Debug)]
pub enum AdjustOutcome {
    NotANumber,
    Write { new_value: i32, file_text: Vec<u8> },
}

/// The whole read-modify-write computation of one adjustment, from the raw
/// contents of the brightness control file: parse the current value, move it
/// by `amount` percent units of `max` in direction `dir`, clamp into
/// `[0, max]`, and render the text to write back.
pub fn plan_adjustment(dir: AdjustDirection, amount: u32, max: i32, current_text: &[u8]) -> (r:
    AdjustOutcome)
    requires
        1 <= max,
    ensures
        parsed_i32(current_text@) is None ==> r is NotANumber,
        parsed_i32(current_text@) matches Some(cur) ==> (r matches AdjustOutcome::Write {
            new_value,
            file_text,
        } && new_value == new_brightness_spec(dir, amount as int, cur as int, max as int)
            && file_text@ == dec_digits(new_value as nat).push(10u8)),
{
    match parse_i32(current_text) {
        None => AdjustOutcome::NotANumber,
        Some(cur) => {
            let new_value: i32 = compute_new_brightness(dir, amount, cur, max);
            let file_text: Vec<u8> = brightness_file_text(new_value);
            AdjustOutcome::Write { new_value, file_text }
        },
    }
}

/// Clamping always lands in `[0, max]`: the result is `0` when the adjusted
/// sum is negative, `max` when the sum exceeds `max`, and the sum itself
/// otherwise. (A negative `max` is excluded: no range `[0, max]` exists.)
pub proof fn lemma_clamp_range(current: int, adjustment: int, max: int)
    requires
        0 <= max,
    ensures
        0 <= clamp_spec(current + adjustment, 0, max) <= max,
        current + adjustment < 0 ==> clamp_spec(current + adjustment, 0, max) == 0,
        current + adjustment > max ==> clamp_spec(current + adjustment, 0, max) == max,
        0 <= current + adjustment <= max ==> clamp_spec(current + adjustment, 0, max) == current
            + adjustment,
{
}

/// A maximum below 100 has percent unit 0, so every request leaves an
/// in-range brightness unchanged.
pub proof fn lemma_zero_unit_fixpoint(dir: AdjustDirection, amount: int, current: int, max: int)
    requires
        1 <= max < 100,
        0 <= amount,
        0 <= current <= max,
    ensures
        new_brightness_spec(dir, amount, current, max) == current,
{
    assert(percent_unit_spec(max) == 0) by (nonlinear_arith)
        requires
            1 <= max < 100,
    ;
    assert(amount * 0 == 0) by (nonlinear_arith);
}

/// `Inc` and `Dec` with the same magnitude move the brightness by equal and
/// opposite amounts whenever neither direction hits a clamp bound.
pub proof fn lemma_direction_symmetry(amount: int, current: int, max: int)
    requires
        1 <= max,
        0 <= amount,
        0 <= current - amount * percent_unit_spec(max),
        current + amount * percent_unit_spec(max) <= max,
    ensures
        new_brightness_spec(AdjustDirection::Inc, amount, current, max) - current == -(
        new_brightness_spec(AdjustDirection::Dec, amount, current, max) - current),
{
    assert(0 <= max / 100);
    assert(0 <= amount * (max / 100)) by (nonlinear_arith)
        requires
            0 <= amount,
            0 <= max / 100,
    ;
}

/// A request whose total adjustment reaches `max` drives any non-negative
/// starting value up to `max` in a single step.
pub proof fn lemma_large_increase_saturates(amount: int, current: int, max: int)
    requires
        1 <= max,
        0 <= current,
        max <= amount * percent_unit_spec(max),
    ensures
        new_brightness_spec(AdjustDirection::Inc, amount, current, max) == max,
{
}

/// Once the brightness stands at `max`, any further increase leaves it
/// there.
pub proof fn lemma_increase_fixpoint_at_max(amount: int, max: int)
    requires
        1 <= max,
        0 <= amount,
    ensures
        new_brightness_spec(AdjustDirection::Inc, amount, max, max) == max,
{
    assert(0 <= max / 100);
    assert(0 <= amount * (max / 100)) by (nonlinear_arith)
        requires
            0 <= amount,
            0 <= max / 100,
    ;
}

} // verus!
