//! The configuration of a dashboard: its palette, its tracks and the time
//! ranges of each track, with the rules a configuration has to meet.

use crate::time::minutes_of;
use vstd::prelude::*;

verus! {

/// A terminal colour.
#[derive(Clone, Copy, Debug, PartialEq, Eq, Structural)]
pub enum Color {
    Reset,
    Black,
    Red,
    Green,
    Yellow,
    Blue,
    Magenta,
    Cyan,
    Gray,
    DarkGray,
    LightRed,
    LightGreen,
    LightYellow,
    LightBlue,
    LightMagenta,
    LightCyan,
    White,
    Rgb(u8, u8, u8),
    Indexed(u8),
}

/// The palette shared by all tracks.
#[derive(Clone, Copy, Debug, PartialEq, Eq, Structural)]
pub struct Colors {
    /// Colour of the stretches of the day that no range claims.
    pub base: Color,
    /// Foreground of a clock drawn on a filled background.
    pub fill_fg: Color,
    /// Colour of a clock that does not take the colour of its range.
    pub clock: Color,
    /// Colour of the titles.
    pub title: Color,
}

impl Default for Colors {
    fn default() -> (colors: Colors)
        ensures
            colors == (Colors {
                base: Color::DarkGray,
                fill_fg: Color::Black,
                clock: Color::Reset,
                title: Color::Reset,
            }),
    {
        Colors {
            base: Color::DarkGray,
            fill_fg: Color::Black,
            clock: Color::Reset,
            title: Color::Reset,
        }
    }
}

/// How a track draws its clock, unless a range says otherwise.
#[derive(Clone, Copy, Debug, PartialEq, Eq, Structural)]
pub struct TimeLabel {
    /// Show the seconds.
    pub seconds: bool,
    /// Let the separators blink.
    pub blink: bool,
    /// Draw the clock on a filled background.
    pub fill: bool,
    /// Draw the clock in the colour of the active range.
    pub use_range_color: bool,
}

impl Default for TimeLabel {
    fn default() -> (label: TimeLabel)
        ensures
            label == (TimeLabel { seconds: false, blink: false, fill: false, use_range_color: false }),
    {
        TimeLabel { seconds: false, blink: false, fill: false, use_range_color: false }
    }
}

/// A coloured stretch of the day, from `start` up to but not including
/// `end`, both as `(hour, minute)`. A flag that is `None` falls back to the
/// track's `TimeLabel`.
#[derive(Clone, Copy, Debug, PartialEq, Eq)]
pub struct TimeRange {
    pub start: (u16, u16),
    pub end: (u16, u16),
    pub color: Color,
    pub fill: Option<bool>,
    pub use_range_color: Option<bool>,
    pub blink: Option<bool>,
}

impl TimeRange {
    /// First minute of the range.
    pub open spec fn start_minute(self) -> int {
        minutes_of(self.start)
    }

    /// First minute after the range.
    pub open spec fn end_minute(self) -> int {
        minutes_of(self.end)
    }

    /// The range holds `minute`: its interval is half open.
    pub open spec fn covers(self, minute: int) -> bool {
        self.start_minute() <= minute < self.end_minute()
    }

    /// Both ends are times of day: hours up to 24, minutes up to 59, and
    /// nothing after `24:00`.
    pub open spec fn in_bounds(self) -> bool {
        &&& self.start.0 <= 24
        &&& self.end.0 <= 24
        &&& self.start.1 <= 59
        &&& self.end.1 <= 59
        &&& self.start.0 * 100 + self.start.1 <= 2400
        &&& self.end.0 * 100 + self.end.1 <= 2400
    }

    /// The range starts before it ends.
    pub open spec fn in_order(self) -> bool {
        self.start_minute() < self.end_minute()
    }

    /// A range with the given ends and colour and no flag set.
    pub fn new(start: (u16, u16), end: (u16, u16), color: Color) -> (range: TimeRange)
        ensures
            range == (TimeRange {
                start,
                end,
                color,
                fill: None,
                use_range_color: None,
                blink: None,
            }),
    {
        TimeRange { start, end, color, fill: None, use_range_color: None, blink: None }
    }

    /// The same range starting at `start`.
    pub fn start(self, start: (u16, u16)) -> (range: TimeRange)
        ensures
            range == (TimeRange { start, ..self }),
    {
        TimeRange { start, ..self }
    }

    /// The same range ending at `end`.
    pub fn end(self, end: (u16, u16)) -> (range: TimeRange)
        ensures
            range == (TimeRange { end, ..self }),
    {
        TimeRange { end, ..self }
    }

    /// The same range in another colour.
    pub fn color(self, color: Color) -> (range: TimeRange)
        ensures
            range == (TimeRange { color, ..self }),
    {
        TimeRange { color, ..self }
    }
}

impl Default for TimeRange {
    /// The whole day in dark gray, no flag set.
    fn default() -> (range: TimeRange)
        ensures
            range == (TimeRange {
                start: (0u16, 0u16),
                end: (24u16, 0u16),
                color: Color::DarkGray,
                fill: None,
                use_range_color: None,
                blink: None,
            }),
    {
        TimeRange {
            start: (0, 0),
            end: (24, 0),
            color: Color::DarkGray,
            fill: None,
            use_range_color: None,
            blink: None,
        }
    }
}

/// One tracked timezone.
#[derive(Debug)]
pub struct TimeTrack {
    pub name: String,
    pub shortname: String,
    /// Offset from UTC as `(hours, minutes)`.
    pub offset: (i16, i16),
    pub show_badge: bool,
    pub time_label: TimeLabel,
    pub ranges: Vec<TimeRange>,
}

/// What a `TimeTrack` holds.
pub struct TrackView {
    pub name: Seq<char>,
    pub shortname: Seq<char>,
    pub offset: (i16, i16),
    pub show_badge: bool,
    pub time_label: TimeLabel,
    pub ranges: Seq<TimeRange>,
}

impl View for TimeTrack {
    type V = TrackView;

    open spec fn view(&self) -> TrackView {
        TrackView {
            name: self.name@,
            shortname: self.shortname@,
            offset: self.offset,
            show_badge: self.show_badge,
            time_label: self.time_label,
            ranges: self.ranges@,
        }
    }
}

/// A whole configuration.
#[derive(Debug)]
pub struct Config {
    pub colors: Colors,
    pub tracks: Vec<TimeTrack>,
}

impl Default for Config {
    /// The default palette and no track.
    fn default() -> (config: Config)
        ensures
            config.colors == (Colors {
                base: Color::DarkGray,
                fill_fg: Color::Black,
                clock: Color::Reset,
                title: Color::Reset,
            }),
            config.tracks@ == Seq::<TimeTrack>::empty(),
    {
        Config { colors: Colors::default(), tracks: Vec::new() }
    }
}

/// What a `Config` holds.
pub struct ConfigView {
    pub colors: Colors,
    pub tracks: Seq<TrackView>,
}

/// The tracks of a vector, each by what it holds.
pub open spec fn track_views(tracks: Seq<TimeTrack>) -> Seq<TrackView> {
    Seq::new(tracks.len(), |i: int| tracks[i]@)
}

impl View for Config {
    type V = ConfigView;

    open spec fn view(&self) -> ConfigView {
        ConfigView { colors: self.colors, tracks: track_views(self.tracks@) }
    }
}

} // verus!
