//! The wall clock of a track: the time of day at an offset from UTC.

use crate::config::{TimeTrack, TrackView};
use crate::time::MINUTES_PER_DAY;
use chrono::Timelike;
use vstd::prelude::*;

verus! {

/// Seconds in a day.
pub const SECONDS_PER_DAY: i64 = 86400;

/// The latest instant, in seconds after the first of January 1970, 0:00
/// UTC, and the earliest one in seconds before it, that a clock is read at:
/// some quarter of a million years either way.
pub const MAX_INSTANT: i64 = 8_000_000_000_000;

/// `now`, in seconds since the first of January 1970, 0:00 UTC, is an
/// instant that a clock is read at.
pub open spec fn is_instant(now: int) -> bool {
    -MAX_INSTANT <= now <= MAX_INSTANT
}

/// Hour, minute and second of the day at `seconds` since a midnight.
#[verifier::opaque]
pub open spec fn clock_of(seconds: int) -> (u16, u16, u16) {
    let of_day = seconds % (SECONDS_PER_DAY as int);
    ((of_day / 3600) as u16, (of_day % 3600 / 60) as u16, (of_day % 60) as u16)
}

/// The minute of the day at `now`, seen `shift` minutes east of UTC.
pub open spec fn minute_of_day(now: int, shift: int) -> int {
    let clock = clock_of(now + 60 * shift);
    clock.0 * 60 + clock.1
}

impl TrackView {
    /// The offset from UTC in minutes. The minutes take the sign of the
    /// hours, so with no hours they do not count.
    pub open spec fn offset_minutes(self) -> int {
        let hours = self.offset.0 as int;
        let minutes = if self.offset.1 < 0 {
            -(self.offset.1 as int)
        } else {
            self.offset.1 as int
        };
        if hours > 0 {
            hours * 60 + minutes
        } else if hours < 0 {
            hours * 60 - minutes
        } else {
            0
        }
    }
}

/// Reads the clock at the instant `now`, moved by `shift` minutes.
///
/// The reading is done by chrono: `DateTime::from_timestamp` makes the
/// instant, `Duration::minutes` the shift, `+` moves the one by the other,
/// and `hour`, `minute` and `second` of `Timelike` read the result. chrono
/// counts every day as 86400 seconds, so that the reading is the time of
/// day of the shifted count of seconds; the bounds keep the instant within
/// the dates that chrono can hold, where neither the making nor the
/// moving fails.
#[verifier::external_body]
pub(crate) fn shifted_clock(now: i64, shift: i32) -> (clock: (u16, u16, u16))
    requires
        is_instant(now as int),
        -(MINUTES_PER_DAY as int) <= shift <= MINUTES_PER_DAY as int,
    ensures
        clock == clock_of(now + 60 * shift),
{
    let utc = chrono::DateTime::from_timestamp(now, 0).unwrap();
    let local = (utc + chrono::Duration::minutes(shift as i64)).time();
    (local.hour() as u16, local.minute() as u16, local.second() as u16)
}

impl TimeTrack {
    /// The offset from UTC in minutes.
    pub fn offset(&self) -> (minutes: i32)
        ensures
            minutes == self@.offset_minutes(),
    {
        let hours: i32 = self.offset.0 as i32;
        let minutes: i32 = if self.offset.1 < 0 {
            -(self.offset.1 as i32)
        } else {
            self.offset.1 as i32
        };
        if hours > 0 {
            hours * 60 + minutes
        } else if hours < 0 {
            hours * 60 - minutes
        } else {
            0
        }
    }

    /// Hour and minute on the track's clock at the instant `now`, given in
    /// seconds since the first of January 1970, 0:00 UTC.
    pub fn local_time(&self, now: i64) -> (time: (u16, u16))
        requires
            is_instant(now as int),
            self@.offset_in_bounds(),
        ensures
            time.0 == clock_of(now + 60 * self@.offset_minutes()).0,
            time.1 == clock_of(now + 60 * self@.offset_minutes()).1,
            time.0 < 24,
            time.1 < 60,
            time.0 * 60 + time.1 == minute_of_day(now as int, self@.offset_minutes()),
    {
        proof {
            lemma_clock_of_bounds(now + 60 * self@.offset_minutes());
        }
        let clock = shifted_clock(now, self.offset());
        (clock.0, clock.1)
    }
}

/// A clock shows an hour below 24, and a minute and a second below 60.
pub proof fn lemma_clock_of_bounds(seconds: int)
    ensures
        clock_of(seconds).0 < 24,
        clock_of(seconds).1 < 60,
        clock_of(seconds).2 < 60,
{
    reveal(clock_of);
}

/// As time goes on by a minute, the minute of the day on a clock at a
/// fixed offset goes on by one, and from the last minute of the day to the
/// first.
pub proof fn lemma_minute_advances(now: int, shift: int)
    ensures
        0 <= minute_of_day(now, shift) < MINUTES_PER_DAY,
        minute_of_day(now + 60, shift) == (minute_of_day(now, shift) + 1) % (
        MINUTES_PER_DAY as int),
        minute_of_day(now, shift) < MINUTES_PER_DAY - 1 ==> minute_of_day(now + 60, shift)
            == minute_of_day(now, shift) + 1,
        minute_of_day(now, shift) == MINUTES_PER_DAY - 1 ==> minute_of_day(now + 60, shift) == 0,
{
    reveal(clock_of);
    let before = (now + 60 * shift) % 86400;
    let after = (now + 60 + 60 * shift) % 86400;
    assert(after == if before + 60 < 86400 {
        before + 60
    } else {
        before + 60 - 86400
    });
    assert(before / 3600 * 60 + before % 3600 / 60 == before / 60);
    assert(after / 3600 * 60 + after % 3600 / 60 == after / 60);
}

} // verus!
