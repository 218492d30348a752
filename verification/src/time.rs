//! Minutes of the day, and the mapping between chart columns and minutes.

use vstd::arithmetic::div_mod::lemma_fundamental_div_mod_converse;
use vstd::prelude::*;

verus! {

/// Number of minutes in a day; as a time of day it stands for `24:00`.
pub const MINUTES_PER_DAY: u16 = 1440;

/// Minutes since midnight of an `(hour, minute)` pair.
pub open spec fn minutes_of(time: (u16, u16)) -> int {
    time.0 * 60 + time.1
}

/// `value * span / full`, rounded to the nearest integer, halves upwards.
pub open spec fn scaled(value: int, span: int, full: int) -> int {
    (2 * value * span + full) / (2 * full)
}

/// The minute that column `idx` of a time axis `width` columns wide stands for.
pub open spec fn time_at(idx: int, width: int) -> int {
    scaled(idx, MINUTES_PER_DAY as int, width)
}

/// Minutes since midnight of an `(hour, minute)` pair.
pub fn to_minutes(time: (u16, u16)) -> (minutes: u16)
    requires
        minutes_of(time) <= u16::MAX,
    ensures
        minutes == minutes_of(time),
{
    time.0 * 60 + time.1
}

/// Minutes since midnight of an `(hour, minute)` pair, for any pair.
pub fn wide_minutes(time: (u16, u16)) -> (minutes: u32)
    ensures
        minutes == minutes_of(time),
{
    time.0 as u32 * 60 + time.1 as u32
}

/// Splits minutes since midnight into hour and minute.
pub fn to_hour_minute(minutes: u16) -> (time: (u16, u16))
    ensures
        time.0 == minutes / 60,
        time.1 == minutes % 60,
        time.1 < 60,
        minutes_of(time) == minutes,
{
    (minutes / 60, minutes % 60)
}

/// `value * span / full` rounded to the nearest integer, halves upwards.
pub fn scale(value: u16, span: u16, full: u16) -> (r: u32)
    requires
        full > 0,
    ensures
        r == scaled(value as int, span as int, full as int),
{
    assert(0 <= (value as int) * (span as int) <= 65535 * 65535) by (nonlinear_arith)
        requires
            0 <= value <= 65535,
            0 <= span <= 65535,
    ;
    let product: u64 = (value as u64) * (span as u64);
    let numerator: u64 = 2 * product + full as u64;
    let denominator: u64 = 2 * (full as u64);
    let quotient: u64 = numerator / denominator;
    assert(quotient <= product) by (nonlinear_arith)
        requires
            quotient == numerator / denominator,
            numerator == 2 * product + full,
            denominator == 2 * full,
            full > 0,
            product >= 0,
    ;
    assert(2 * (value as int) * (span as int) == 2 * ((value as int) * (span as int)))
        by (nonlinear_arith);
    quotient as u32
}

/// Maps column `idx` of a time axis `width` columns wide to the minute of
/// the day it stands for. A column beyond the axis maps beyond the day, as
/// far as `u16` reaches.
pub fn point_to_time(idx: u16, width: u16) -> (minutes: u16)
    requires
        width > 0,
    ensures
        minutes == if time_at(idx as int, width as int) > u16::MAX {
            u16::MAX as int
        } else {
            time_at(idx as int, width as int)
        },
        idx <= width ==> minutes <= MINUTES_PER_DAY,
        idx == 0 ==> minutes == 0,
        idx == width ==> minutes == MINUTES_PER_DAY,
{
    let m: u32 = scale(idx, MINUTES_PER_DAY, width);
    proof {
        lemma_time_at_endpoints(width as int);
        if idx <= width {
            lemma_time_at_bounds(idx as int, width as int);
        }
    }
    if m > u16::MAX as u32 {
        u16::MAX
    } else {
        m as u16
    }
}

/// A part of the whole scales to a part of the span.
pub proof fn lemma_scaled_within(value: int, span: int, full: int)
    requires
        0 <= value <= full,
        0 <= span,
        0 < full,
    ensures
        0 <= scaled(value, span, full) <= span,
{
    assert(0 <= value * span <= full * span) by (nonlinear_arith)
        requires
            0 <= value <= full,
            0 <= span,
    ;
    assert(2 * value * span == 2 * (value * span)) by (nonlinear_arith);
    let numerator = 2 * (value * span) + full;
    assert(numerator < (2 * full) * (span + 1)) by (nonlinear_arith)
        requires
            numerator == 2 * (value * span) + full,
            value * span <= full * span,
            0 < full,
    ;
    vstd::arithmetic::div_mod::lemma_div_pos_is_pos(numerator, 2 * full);
    vstd::arithmetic::div_mod::lemma_div_by_multiple_is_strongly_ordered(
        numerator,
        (2 * full) * (span + 1),
        span + 1,
        2 * full,
    );
    vstd::arithmetic::div_mod::lemma_div_by_multiple(span + 1, 2 * full);
}

/// A column on the axis maps into the day, its end included.
pub proof fn lemma_time_at_bounds(idx: int, width: int)
    requires
        0 <= idx <= width,
        width > 0,
    ensures
        0 <= time_at(idx, width) <= MINUTES_PER_DAY,
{
    lemma_time_at_monotonic(0, idx, width);
    lemma_time_at_monotonic(idx, width, width);
    lemma_time_at_endpoints(width);
}

/// Columns further right never map to earlier minutes.
pub proof fn lemma_time_at_monotonic(i: int, j: int, width: int)
    requires
        0 <= i <= j,
        width > 0,
    ensures
        time_at(i, width) <= time_at(j, width),
{
    let a = 2 * i * 1440 + width;
    let b = 2 * j * 1440 + width;
    assert(a <= b);
    vstd::arithmetic::div_mod::lemma_div_is_ordered(a, b, 2 * width);
}

/// The first column is midnight and the column past the last is `24:00`,
/// whatever the width of the axis.
pub proof fn lemma_time_at_endpoints(width: int)
    requires
        width > 0,
    ensures
        time_at(0, width) == 0,
        time_at(width, width) == MINUTES_PER_DAY,
{
    lemma_fundamental_div_mod_converse(width, 2 * width, 0, width);
    assert(2 * width * 1440 + width == 1440 * (2 * width) + width) by (nonlinear_arith);
    lemma_fundamental_div_mod_converse(2 * width * 1440 + width, 2 * width, 1440, width);
}

/// On an axis as wide as half the minutes of the day every column is two
/// minutes; on one as wide as the day every column is its own minute.
pub proof fn lemma_time_at_linear(idx: int)
    requires
        0 <= idx,
    ensures
        time_at(idx, 720) == 2 * idx,
        time_at(idx, 1440) == idx,
{
    assert(2 * idx * 1440 == 2880 * idx) by (nonlinear_arith);
    assert((2880 * idx + 720) / 1440 == 2 * idx);
    assert((2880 * idx + 1440) / 2880 == idx);
}

} // verus!
