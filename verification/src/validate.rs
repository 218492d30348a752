//! The rules a configuration has to meet before it is used, and the check
//! that either reports the first rule broken or hands the configuration
//! back in normal form: every track titled twice, its ranges in order.

use crate::config::{Config, ConfigView, TimeRange, TimeTrack, TrackView};
use crate::ranges::is_day_ordered;
use crate::sorting::{insert_by, lemma_insert_position_is, lemma_stable_sort_all, stable_sort};
use crate::time::wide_minutes;
use vstd::prelude::*;

verus! {

/// Why a configuration is turned down. `track` counts the tracks as they
/// were given; `range` counts the ranges of that track.
#[derive(Clone, Copy, Debug, PartialEq, Eq, Structural)]
pub enum ConfigError {
    /// The configuration has no track at all.
    NoTracks,
    /// The track has neither a name nor a short name.
    UntitledTrack { track: usize },
    /// A title of the track is longer than a terminal line can ever be.
    NameTooLong { track: usize },
    /// The offset from UTC is beyond 23 hours or 59 minutes either way.
    OffsetBounds { track: usize },
    /// An end of the range, as given, is no time of day.
    RangeBounds { track: usize, range: usize },
    /// The range, as given, does not start before it ends.
    RangeOrdering { track: usize, range: usize },
    /// The range, counted in order of start, starts before the one ahead
    /// of it ends.
    RangeOverlap { track: usize, range: usize },
}

/// Width of a text in cells: the length of its UTF-8 encoding.
pub open spec fn text_width(text: Seq<char>) -> nat {
    vstd::utf8::encode_utf8(text).len()
}

/// The longest title a track may have.
pub const MAX_TITLE: usize = 65535;

/// The key by which ranges are put in order: the minute they start at.
pub open spec fn start_key() -> spec_fn(TimeRange) -> int {
    |range: TimeRange| range.start_minute()
}

/// The least index below `limit` that `test` holds of, counting from
/// `from`; `limit` if there is none.
pub open spec fn first_index_from(from: int, limit: int, test: spec_fn(int) -> bool) -> int
    decreases limit - from,
{
    if from >= limit {
        limit
    } else if test(from) {
        from
    } else {
        first_index_from(from + 1, limit, test)
    }
}

/// The least index below `limit` that `test` holds of; `limit` if there is
/// none.
pub open spec fn first_index(limit: int, test: spec_fn(int) -> bool) -> int {
    first_index_from(0, limit, test)
}

/// The test for a range that is no stretch between two times of day.
pub open spec fn out_of_bounds_at(ranges: Seq<TimeRange>) -> spec_fn(int) -> bool {
    |i: int| !ranges[i].in_bounds()
}

/// The test for a range that does not start before it ends.
pub open spec fn out_of_order_at(ranges: Seq<TimeRange>) -> spec_fn(int) -> bool {
    |i: int| !ranges[i].in_order()
}

/// The test for a range that starts before the one ahead of it ends.
pub open spec fn overlap_at(ranges: Seq<TimeRange>) -> spec_fn(int) -> bool {
    |i: int| 0 < i && ranges[i].start_minute() < ranges[i - 1].end_minute()
}

impl TrackView {
    /// Neither title is given.
    pub open spec fn untitled(self) -> bool {
        text_width(self.name) == 0 && text_width(self.shortname) == 0
    }

    /// A title is too long.
    pub open spec fn overlong(self) -> bool {
        text_width(self.name) > MAX_TITLE || text_width(self.shortname) > MAX_TITLE
    }

    /// The offset from UTC is within 23 hours and 59 minutes either way.
    pub open spec fn offset_in_bounds(self) -> bool {
        -23 <= self.offset.0 <= 23 && -59 <= self.offset.1 <= 59
    }

    /// The ranges in order of start; ranges that start together keep their
    /// order.
    pub open spec fn sorted_ranges(self) -> Seq<TimeRange> {
        stable_sort(self.ranges, start_key())
    }

    /// The first rule that the track breaks, if it breaks one: the titles
    /// come first, then the offset, then the bounds of every range, then
    /// the order within every range, then the overlaps.
    pub open spec fn fault(self, track: usize) -> Option<ConfigError> {
        let count = self.ranges.len() as int;
        let unbound = first_index(count, out_of_bounds_at(self.ranges));
        let unordered = first_index(count, out_of_order_at(self.ranges));
        let overlapping = first_index(count, overlap_at(self.sorted_ranges()));
        if self.untitled() {
            Some(ConfigError::UntitledTrack { track })
        } else if self.overlong() {
            Some(ConfigError::NameTooLong { track })
        } else if !self.offset_in_bounds() {
            Some(ConfigError::OffsetBounds { track })
        } else if unbound < count {
            Some(ConfigError::RangeBounds { track, range: unbound as usize })
        } else if unordered < count {
            Some(ConfigError::RangeOrdering { track, range: unordered as usize })
        } else if overlapping < count {
            Some(ConfigError::RangeOverlap { track, range: overlapping as usize })
        } else {
            None
        }
    }

    /// The track in normal form: a missing title is taken from the other
    /// one, and the ranges are in order of start.
    pub open spec fn normalized(self) -> TrackView {
        TrackView {
            name: if text_width(self.name) == 0 {
                self.shortname
            } else {
                self.name
            },
            shortname: if text_width(self.shortname) == 0 {
                self.name
            } else {
                self.shortname
            },
            ranges: self.sorted_ranges(),
            ..self
        }
    }

    /// The track meets every rule and is in normal form.
    pub open spec fn is_valid(self) -> bool {
        &&& 0 < text_width(self.name) <= MAX_TITLE
        &&& 0 < text_width(self.shortname) <= MAX_TITLE
        &&& self.offset_in_bounds()
        &&& is_day_ordered(self.ranges)
    }
}

/// The test for a track that breaks a rule.
pub open spec fn faulty_at(tracks: Seq<TrackView>) -> spec_fn(int) -> bool {
    |i: int| tracks[i].fault(i as usize) is Some
}

impl ConfigView {
    /// The first rule that the configuration breaks, if it breaks one: that
    /// there be a track, then the first fault of the first faulty track.
    pub open spec fn fault(self) -> Option<ConfigError> {
        let count = self.tracks.len() as int;
        let faulty = first_index(count, faulty_at(self.tracks));
        if count == 0 {
            Some(ConfigError::NoTracks)
        } else if faulty < count {
            self.tracks[faulty].fault(faulty as usize)
        } else {
            None
        }
    }

    /// The configuration with every track in normal form.
    pub open spec fn normalized(self) -> ConfigView {
        ConfigView {
            colors: self.colors,
            tracks: Seq::new(self.tracks.len(), |i: int| self.tracks[i].normalized()),
        }
    }

    /// There is a track, and every track is valid.
    pub open spec fn is_valid(self) -> bool {
        &&& self.tracks.len() > 0
        &&& forall|i: int| 0 <= i < self.tracks.len() ==> (#[trigger] self.tracks[i]).is_valid()
    }
}

/// An index below which the test fails, and of which it holds unless it is
/// the limit, is the first index.
pub proof fn lemma_first_index(limit: int, test: spec_fn(int) -> bool, at: int)
    requires
        0 <= at <= limit,
        forall|i: int| 0 <= i < at ==> !#[trigger] test(i),
        at < limit ==> test(at),
    ensures
        first_index(limit, test) == at,
{
    lemma_first_index_from(0, limit, test, at);
}

proof fn lemma_first_index_from(from: int, limit: int, test: spec_fn(int) -> bool, at: int)
    requires
        0 <= from <= at <= limit,
        forall|i: int| from <= i < at ==> !#[trigger] test(i),
        at < limit ==> test(at),
    ensures
        first_index_from(from, limit, test) == at,
    decreases at - from,
{
    if from < at {
        assert(!test(from));
        lemma_first_index_from(from + 1, limit, test, at);
    }
}

/// A track without a fault is valid once it is in normal form.
pub proof fn lemma_normalized_is_valid(track: TrackView, index: usize)
    requires
        track.fault(index) is None,
    ensures
        track.normalized().is_valid(),
{
    let count = track.ranges.len() as int;
    let sorted = track.sorted_ranges();
    let holds = |range: TimeRange| range.in_bounds() && range.in_order();
    lemma_first_index_all(count, out_of_bounds_at(track.ranges));
    lemma_first_index_all(count, out_of_order_at(track.ranges));
    lemma_first_index_all(count, overlap_at(sorted));
    assert forall|i: int| 0 <= i < track.ranges.len() implies holds(#[trigger] track.ranges[i]) by {
        assert(!out_of_bounds_at(track.ranges)(i));
        assert(!out_of_order_at(track.ranges)(i));
    }
    lemma_stable_sort_all(track.ranges, start_key(), holds);
    crate::sorting::lemma_stable_sort_permutes(track.ranges, start_key());
    assert forall|i: int| 0 <= i < sorted.len() implies (#[trigger] sorted[i]).in_bounds()
        && sorted[i].in_order() by {
        assert(holds(sorted[i]));
    }
    assert forall|i: int| 0 < i < sorted.len() implies sorted[i - 1].end_minute() <= (
    #[trigger] sorted[i]).start_minute() by {
        assert(!overlap_at(sorted)(i));
    }
}

/// Where the first index is the limit, the test fails below the limit.
pub proof fn lemma_first_index_all(limit: int, test: spec_fn(int) -> bool)
    requires
        first_index(limit, test) >= limit,
    ensures
        forall|i: int| 0 <= i < limit ==> !#[trigger] test(i),
{
    lemma_first_index_from_all(0, limit, test);
}

proof fn lemma_first_index_from_all(from: int, limit: int, test: spec_fn(int) -> bool)
    requires
        0 <= from,
        first_index_from(from, limit, test) >= limit,
    ensures
        forall|i: int| from <= i < limit ==> !#[trigger] test(i),
    decreases limit - from,
{
    if from < limit {
        lemma_first_index_from_all(from + 1, limit, test);
    }
}

/// The ranges in order of the minute they start at; ranges that start
/// together keep their order.
pub fn sort_ranges(ranges: &Vec<TimeRange>) -> (sorted: Vec<TimeRange>)
    ensures
        sorted@ == stable_sort(ranges@, start_key()),
{
    let mut sorted: Vec<TimeRange> = Vec::new();
    let mut i: usize = ranges.len();
    proof {
        assert(ranges@.skip(i as int) =~= Seq::<TimeRange>::empty());
    }
    while i > 0
        invariant
            i <= ranges@.len(),
            sorted@ == stable_sort(ranges@.skip(i as int), start_key()),
        decreases i,
    {
        i -= 1;
        let range = ranges[i];
        let start: u32 = wide_minutes(range.start);
        let mut at: usize = 0;
        while at < sorted.len() && wide_minutes(sorted[at].start) < start
            invariant
                at <= sorted@.len(),
                start == range.start_minute(),
                forall|k: int| 0 <= k < at ==> start_key()(#[trigger] sorted@[k]) < start_key()(range),
            decreases sorted@.len() - at,
        {
            at += 1;
        }
        proof {
            let rest = ranges@.skip(i as int);
            assert(rest[0] == range);
            assert(rest.drop_first() =~= ranges@.skip(i + 1));
            lemma_insert_position_is(range, sorted@, start_key(), at as int);
            assert(stable_sort(rest, start_key()) == insert_by(range, sorted@, start_key()));
        }
        sorted.insert(at, range);
    }
    proof {
        assert(ranges@.skip(0) =~= ranges@);
    }
    sorted
}

/// Checks one track against the rules and puts it in normal form.
#[verifier::loop_isolation(false)]
fn validate_track(track: &TimeTrack, index: usize) -> (result: Result<TimeTrack, ConfigError>)
    ensures
        match result {
            Ok(valid) => track@.fault(index) is None && valid@ == track@.normalized()
                && valid@.is_valid(),
            Err(error) => track@.fault(index) == Some(error),
        },
{
    let name_width: usize = track.name.as_str().as_bytes().len();
    let short_width: usize = track.shortname.as_str().as_bytes().len();
    assert(name_width == text_width(track@.name));
    assert(short_width == text_width(track@.shortname));
    if name_width == 0 && short_width == 0 {
        return Err(ConfigError::UntitledTrack { track: index });
    }
    if name_width > MAX_TITLE || short_width > MAX_TITLE {
        return Err(ConfigError::NameTooLong { track: index });
    }
    if track.offset.0 < -23 || track.offset.0 > 23 || track.offset.1 < -59 || track.offset.1 > 59 {
        return Err(ConfigError::OffsetBounds { track: index });
    }
    let count: usize = track.ranges.len();
    let mut i: usize = 0;
    while i < count
        invariant
            i <= count,
            count == track.ranges@.len(),
            forall|k: int| 0 <= k < i ==> !#[trigger] out_of_bounds_at(track.ranges@)(k),
        decreases count - i,
    {
        let range = &track.ranges[i];
        if range.start.0 > 24 || range.end.0 > 24 || range.start.1 > 59 || range.end.1 > 59
            || range.start.0 * 100 + range.start.1 > 2400 || range.end.0 * 100 + range.end.1
            > 2400 {
            proof {
                lemma_first_index(count as int, out_of_bounds_at(track.ranges@), i as int);
            }
            return Err(ConfigError::RangeBounds { track: index, range: i });
        }
        i += 1;
    }
    proof {
        lemma_first_index(count as int, out_of_bounds_at(track.ranges@), count as int);
    }
    let mut i: usize = 0;
    while i < count
        invariant
            i <= count,
            count == track.ranges@.len(),
            forall|k: int| 0 <= k < i ==> !#[trigger] out_of_order_at(track.ranges@)(k),
        decreases count - i,
    {
        let range = &track.ranges[i];
        if wide_minutes(range.start) >= wide_minutes(range.end) {
            proof {
                lemma_first_index(count as int, out_of_order_at(track.ranges@), i as int);
            }
            return Err(ConfigError::RangeOrdering { track: index, range: i });
        }
        i += 1;
    }
    proof {
        lemma_first_index(count as int, out_of_order_at(track.ranges@), count as int);
    }
    let sorted = sort_ranges(&track.ranges);
    proof {
        crate::sorting::lemma_stable_sort_permutes(track.ranges@, start_key());
    }
    let mut i: usize = 0;
    while i < count
        invariant
            i <= count,
            count == sorted@.len(),
            forall|k: int| 0 <= k < i ==> !#[trigger] overlap_at(sorted@)(k),
        decreases count - i,
    {
        if i > 0 && wide_minutes(sorted[i].start) < wide_minutes(sorted[i - 1].end) {
            proof {
                lemma_first_index(count as int, overlap_at(sorted@), i as int);
            }
            return Err(ConfigError::RangeOverlap { track: index, range: i });
        }
        i += 1;
    }
    proof {
        lemma_first_index(count as int, overlap_at(sorted@), count as int);
        lemma_normalized_is_valid(track@, index);
    }
    let name = if name_width == 0 {
        track.shortname.clone()
    } else {
        track.name.clone()
    };
    let shortname = if short_width == 0 {
        track.name.clone()
    } else {
        track.shortname.clone()
    };
    Ok(
        TimeTrack {
            name,
            shortname,
            offset: track.offset,
            show_badge: track.show_badge,
            time_label: track.time_label,
            ranges: sorted,
        },
    )
}

/// Checks a configuration against the rules. A configuration that breaks
/// one is turned down with the first rule broken; one that breaks none
/// comes back in normal form, which is valid.
pub fn validate_tracks(config: Config) -> (result: Result<Config, ConfigError>)
    ensures
        match result {
            Ok(valid) => config@.fault() is None && valid@ == config@.normalized()
                && valid@.is_valid(),
            Err(error) => config@.fault() == Some(error),
        },
{
    let count: usize = config.tracks.len();
    if count == 0 {
        return Err(ConfigError::NoTracks);
    }
    let mut tracks: Vec<TimeTrack> = Vec::new();
    let mut i: usize = 0;
    while i < count
        invariant
            i <= count,
            count == config.tracks@.len(),
            count == config@.tracks.len(),
            tracks@.len() == i,
            forall|k: int| 0 <= k < i ==> !#[trigger] faulty_at(config@.tracks)(k),
            forall|k: int|
                0 <= k < i ==> (#[trigger] tracks@[k])@ == config@.tracks[k].normalized()
                    && tracks@[k]@.is_valid(),
        decreases count - i,
    {
        match validate_track(&config.tracks[i], i) {
            Ok(track) => {
                tracks.push(track);
            },
            Err(error) => {
                proof {
                    lemma_first_index(count as int, faulty_at(config@.tracks), i as int);
                }
                return Err(error);
            },
        }
        i += 1;
    }
    proof {
        lemma_first_index(count as int, faulty_at(config@.tracks), count as int);
    }
    let valid = Config { colors: config.colors, tracks };
    assert(valid@.tracks =~= config@.normalized().tracks);
    Ok(valid)
}

} // verus!
