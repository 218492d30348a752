//! The ranges of a track as a partition of the day: looking a minute up,
//! and filling the stretches that no range claims.

use crate::config::{Color, Colors, TimeRange};
use crate::time::{to_hour_minute, to_minutes, wide_minutes, MINUTES_PER_DAY};
use vstd::prelude::*;

verus! {

/// Every range is a valid stretch of the day, and each starts no earlier
/// than the one before it ends.
pub open spec fn is_day_ordered(ranges: Seq<TimeRange>) -> bool {
    &&& forall|i: int|
        0 <= i < ranges.len() ==> (#[trigger] ranges[i]).in_bounds() && ranges[i].in_order()
    &&& forall|i: int|
        0 < i < ranges.len() ==> ranges[i - 1].end_minute() <= (#[trigger] ranges[i]).start_minute()
}

/// The ranges lead from minute `from` to minute `to` without a gap or an
/// overlap: an empty chain leads nowhere.
pub open spec fn is_chain(ranges: Seq<TimeRange>, from: int, to: int) -> bool {
    if ranges.len() == 0 {
        from == to
    } else {
        &&& ranges[0].start_minute() == from
        &&& ranges.last().end_minute() == to
        &&& forall|i: int|
            0 <= i < ranges.len() ==> (#[trigger] ranges[i]).in_bounds() && ranges[i].in_order()
        &&& forall|i: int|
            0 < i < ranges.len() ==> ranges[i - 1].end_minute() == (#[trigger] ranges[i]).start_minute()
    }
}

/// The ranges part the whole day between them, in order.
pub open spec fn is_partition(ranges: Seq<TimeRange>) -> bool {
    ranges.len() > 0 && is_chain(ranges, 0, MINUTES_PER_DAY as int)
}

/// Some range holds `minute`.
pub open spec fn is_covered(ranges: Seq<TimeRange>, minute: int) -> bool {
    exists|i: int| 0 <= i < ranges.len() && (#[trigger] ranges[i]).covers(minute)
}

/// The range that fills the gap from minute `from` to the time `until`.
pub open spec fn gap(from: int, until: (u16, u16), base: Color) -> TimeRange {
    TimeRange {
        start: ((from / 60) as u16, (from % 60) as u16),
        end: until,
        color: base,
        fill: None,
        use_range_color: None,
        blink: None,
    }
}

/// The ranges with every gap filled, the day being covered up to `cursor`
/// already.
pub open spec fn filled_from(ranges: Seq<TimeRange>, cursor: int, base: Color) -> Seq<TimeRange>
    decreases ranges.len(),
{
    if ranges.len() == 0 {
        if cursor < MINUTES_PER_DAY {
            seq![gap(cursor, (24u16, 0u16), base)]
        } else {
            Seq::empty()
        }
    } else {
        let first = ranges[0];
        let rest = filled_from(ranges.drop_first(), first.end_minute(), base);
        if first.start_minute() > cursor {
            seq![gap(cursor, first.start, base), first] + rest
        } else {
            seq![first] + rest
        }
    }
}

/// The ranges with every gap of the day filled by a range in the base
/// colour.
pub open spec fn filled(ranges: Seq<TimeRange>, base: Color) -> Seq<TimeRange> {
    filled_from(ranges, 0, base)
}

/// Finds the first range that holds the minute `time`.
pub fn time_to_range(time: u16, ranges: &[TimeRange]) -> (found: Option<usize>)
    ensures
        match found {
            Some(i) => {
                &&& i < ranges@.len()
                &&& ranges@[i as int].covers(time as int)
                &&& forall|j: int| 0 <= j < i ==> !(#[trigger] ranges@[j]).covers(time as int)
            },
            None => forall|j: int|
                0 <= j < ranges@.len() ==> !(#[trigger] ranges@[j]).covers(time as int),
        },
        is_partition(ranges@) && time < MINUTES_PER_DAY ==> found is Some,
{
    let mut i: usize = 0;
    while i < ranges.len()
        invariant
            i <= ranges@.len(),
            forall|j: int| 0 <= j < i ==> !(#[trigger] ranges@[j]).covers(time as int),
        decreases ranges@.len() - i,
    {
        let range = &ranges[i];
        if wide_minutes(range.start) <= time as u32 && (time as u32) < wide_minutes(range.end) {
            return Some(i);
        }
        i += 1;
    }
    proof {
        if is_partition(ranges@) && time < MINUTES_PER_DAY {
            lemma_partition_total(ranges@, time as int);
        }
    }
    None
}

/// Fills every gap between the ranges, and before and after them, with a
/// range in the base colour, so that they part the whole day between them.
pub fn fill_gaps(ranges: &mut Vec<TimeRange>, colors: &Colors)
    requires
        is_day_ordered(old(ranges)@),
    ensures
        final(ranges)@ == filled(old(ranges)@, colors.base),
        is_partition(final(ranges)@),
        is_partition(old(ranges)@) ==> final(ranges)@ == old(ranges)@,
{
    let mut out: Vec<TimeRange> = Vec::new();
    let mut cursor: u16 = 0;
    let mut i: usize = 0;
    proof {
        assert(ranges@.skip(0) =~= ranges@);
        assert(out@ + filled(ranges@, colors.base) =~= filled(ranges@, colors.base));
    }
    while i < ranges.len()
        invariant
            i <= ranges@.len(),
            ranges@ == old(ranges)@,
            is_day_ordered(ranges@),
            cursor <= MINUTES_PER_DAY,
            i == 0 ==> cursor == 0,
            i > 0 ==> cursor == ranges@[i - 1].end_minute(),
            out@ + filled_from(ranges@.skip(i as int), cursor as int, colors.base) == filled(
                ranges@,
                colors.base,
            ),
        decreases ranges@.len() - i,
    {
        let range = ranges[i];
        proof {
            let rest = ranges@.skip(i as int);
            assert(rest[0] == range);
            assert(rest.drop_first() =~= ranges@.skip(i + 1));
            assert(range.in_bounds() && range.in_order());
        }
        let ghost before = out@;
        if to_minutes(range.start) > cursor {
            let from = to_hour_minute(cursor);
            out.push(TimeRange::default().start(from).end(range.start).color(colors.base));
            out.push(range);
            assert(out@ =~= before + seq![gap(cursor as int, range.start, colors.base), range]);
        } else {
            out.push(range);
            assert(out@ =~= before + seq![range]);
        }
        cursor = to_minutes(range.end);
        i += 1;
        assert(out@ + filled_from(ranges@.skip(i as int), cursor as int, colors.base) =~= filled(
            ranges@,
            colors.base,
        ));
    }
    if cursor < MINUTES_PER_DAY {
        let from = to_hour_minute(cursor);
        out.push(TimeRange::default().start(from).end((24, 0)).color(colors.base));
    }
    proof {
        assert(ranges@.skip(i as int) =~= Seq::<TimeRange>::empty());
        assert(out@ =~= filled(ranges@, colors.base));
        lemma_filled_is_partition(ranges@, colors.base);
        if is_partition(ranges@) {
            lemma_fill_gaps_idempotent(ranges@, colors.base);
        }
    }
    *ranges = out;
}

/// In a chain every range ends before any later one starts.
pub proof fn lemma_chain_ordered(ranges: Seq<TimeRange>, from: int, to: int, i: int, j: int)
    requires
        is_chain(ranges, from, to),
        0 <= i < j < ranges.len(),
    ensures
        ranges[i].end_minute() <= ranges[j].start_minute(),
    decreases j - i,
{
    if i + 1 < j {
        lemma_chain_ordered(ranges, from, to, i, j - 1);
        assert(ranges[j - 1].in_order());
        assert(ranges[j - 1].end_minute() == ranges[j].start_minute());
    } else {
        assert(ranges[j - 1].end_minute() == ranges[j].start_minute());
    }
}

/// Every minute of the day lies in some range of a partition.
pub proof fn lemma_partition_total(ranges: Seq<TimeRange>, minute: int)
    requires
        is_partition(ranges),
        0 <= minute < MINUTES_PER_DAY,
    ensures
        is_covered(ranges, minute),
{
    lemma_covered_up_to(ranges, minute, ranges.len() - 1);
}

proof fn lemma_covered_up_to(ranges: Seq<TimeRange>, minute: int, k: int)
    requires
        is_partition(ranges),
        0 <= minute,
        0 <= k < ranges.len(),
        minute < ranges[k].end_minute(),
    ensures
        exists|i: int| 0 <= i <= k && (#[trigger] ranges[i]).covers(minute),
    decreases k,
{
    if k > 0 && minute < ranges[k - 1].end_minute() {
        lemma_covered_up_to(ranges, minute, k - 1);
    } else {
        if k > 0 {
            assert(ranges[k - 1].end_minute() == ranges[k].start_minute());
        }
        assert(ranges[k].covers(minute));
    }
}

/// The ranges of a partition do not overlap, and together they are the
/// day: a minute lies in a range if and only if it is a minute of the day,
/// and then in one range only.
pub proof fn lemma_partition_exact(ranges: Seq<TimeRange>)
    requires
        is_partition(ranges),
    ensures
        forall|minute: int|
            #[trigger] is_covered(ranges, minute) <==> 0 <= minute < MINUTES_PER_DAY,
        forall|i: int, j: int, minute: int|
            0 <= i < ranges.len() && 0 <= j < ranges.len() && #[trigger] ranges[i].covers(minute)
                && #[trigger] ranges[j].covers(minute) ==> i == j,
{
    let day = MINUTES_PER_DAY as int;
    assert forall|minute: int| #[trigger] is_covered(ranges, minute) <==> 0 <= minute < day by {
        if 0 <= minute < day {
            lemma_partition_total(ranges, minute);
        }
        if is_covered(ranges, minute) {
            let i = choose|i: int| 0 <= i < ranges.len() && (#[trigger] ranges[i]).covers(minute);
            if 0 < i {
                lemma_chain_ordered(ranges, 0, day, 0, i);
                assert(ranges[0].in_order());
            }
            if i < ranges.len() - 1 {
                lemma_chain_ordered(ranges, 0, day, i, ranges.len() - 1);
                assert(ranges[ranges.len() - 1].in_order());
            }
        }
    }
    assert forall|i: int, j: int, minute: int|
        0 <= i < ranges.len() && 0 <= j < ranges.len() && #[trigger] ranges[i].covers(minute)
            && #[trigger] ranges[j].covers(minute) implies i == j by {
        if i < j {
            lemma_chain_ordered(ranges, 0, day, i, j);
        } else if j < i {
            lemma_chain_ordered(ranges, 0, day, j, i);
        }
    }
}

/// Filling the gaps of ordered ranges yields a chain from the cursor to
/// the end of the day.
pub proof fn lemma_filled_from_is_chain(ranges: Seq<TimeRange>, cursor: int, base: Color)
    requires
        is_day_ordered(ranges),
        0 <= cursor <= MINUTES_PER_DAY,
        ranges.len() > 0 ==> cursor <= ranges[0].start_minute(),
    ensures
        is_chain(filled_from(ranges, cursor, base), cursor, MINUTES_PER_DAY as int),
    decreases ranges.len(),
{
    let day = MINUTES_PER_DAY as int;
    let out = filled_from(ranges, cursor, base);
    if ranges.len() == 0 {
        if cursor < day {
            assert(out[0].in_bounds() && out[0].in_order());
        }
    } else {
        let first = ranges[0];
        let tail = ranges.drop_first();
        assert(first.in_bounds() && first.in_order());
        assert forall|i: int| 0 <= i < tail.len() implies (#[trigger] tail[i]).in_bounds()
            && tail[i].in_order() by {
            assert(tail[i] == ranges[i + 1]);
        }
        assert forall|i: int| 0 < i < tail.len() implies tail[i - 1].end_minute() <= (
        #[trigger] tail[i]).start_minute() by {
            assert(tail[i] == ranges[i + 1]);
            assert(tail[i - 1] == ranges[i]);
        }
        if tail.len() > 0 {
            assert(tail[0] == ranges[1]);
        }
        lemma_filled_from_is_chain(tail, first.end_minute(), base);
        let rest = filled_from(tail, first.end_minute(), base);
        let head = if first.start_minute() > cursor {
            seq![gap(cursor, first.start, base), first]
        } else {
            seq![first]
        };
        assert(out == head + rest);
        let g = gap(cursor, first.start, base);
        assert(g.start_minute() == cursor);
        assert(first.start_minute() > cursor ==> g.in_bounds() && g.in_order());
        assert forall|i: int| 0 <= i < out.len() implies (#[trigger] out[i]).in_bounds()
            && out[i].in_order() by {
            if i >= head.len() {
                assert(out[i] == rest[i - head.len()]);
            }
        }
        assert forall|i: int| 0 < i < out.len() implies out[i - 1].end_minute() == (
        #[trigger] out[i]).start_minute() by {
            if i > head.len() {
                assert(out[i] == rest[i - head.len()]);
                assert(out[i - 1] == rest[i - 1 - head.len()]);
            } else if i == head.len() {
                assert(out[i] == rest[0]);
                assert(out[i - 1] == first);
            }
        }
        if rest.len() > 0 {
            assert(out.last() == rest.last());
        }
    }
}

/// Filling the gaps of ordered ranges yields a partition of the day.
pub proof fn lemma_filled_is_partition(ranges: Seq<TimeRange>, base: Color)
    requires
        is_day_ordered(ranges),
    ensures
        is_partition(filled(ranges, base)),
{
    if ranges.len() > 0 {
        assert(ranges[0].in_bounds());
    }
    lemma_filled_from_is_chain(ranges, 0, base);
}

/// A chain that reaches the end of the day has no gap to fill.
pub proof fn lemma_filled_from_chain(ranges: Seq<TimeRange>, cursor: int, base: Color)
    requires
        is_chain(ranges, cursor, MINUTES_PER_DAY as int),
    ensures
        filled_from(ranges, cursor, base) == ranges,
    decreases ranges.len(),
{
    if ranges.len() > 0 {
        let first = ranges[0];
        let tail = ranges.drop_first();
        if tail.len() > 0 {
            assert(tail[0] == ranges[1]);
            assert(tail.last() == ranges.last());
            assert forall|i: int| 0 <= i < tail.len() implies (#[trigger] tail[i]).in_bounds()
                && tail[i].in_order() by {
                assert(tail[i] == ranges[i + 1]);
            }
            assert forall|i: int| 0 < i < tail.len() implies tail[i - 1].end_minute() == (
            #[trigger] tail[i]).start_minute() by {
                assert(tail[i] == ranges[i + 1]);
                assert(tail[i - 1] == ranges[i]);
            }
        }
        lemma_filled_from_chain(tail, first.end_minute(), base);
        assert(seq![first] + tail =~= ranges);
    } else {
        assert(ranges =~= Seq::<TimeRange>::empty());
    }
}

/// Filling the gaps of a partition changes nothing: no range is added twice
/// and none of no width.
pub proof fn lemma_fill_gaps_idempotent(ranges: Seq<TimeRange>, base: Color)
    requires
        is_partition(ranges),
    ensures
        filled(ranges, base) == ranges,
{
    lemma_filled_from_chain(ranges, 0, base);
}

} // verus!
