//! What is drawn for one row of the dashboard.

use crate::app::active_range;
use crate::config::{Color, Colors, TimeLabel, TimeRange, TimeTrack, TrackView};
use crate::geometry::Rect;
use crate::ranges::time_to_range;
use crate::time::{lemma_time_at_bounds, point_to_time, time_at};
use crate::validate::lemma_first_index;
use vstd::prelude::*;

verus! {

/// Width of a clock that shows hours and minutes.
pub const CLOCK_WIDTH: u16 = 7;

/// Width of a clock that shows the seconds too.
pub const SECONDS_CLOCK_WIDTH: u16 = 10;

/// Width of the clock of a track that shows the seconds, or does not.
pub open spec fn clock_width(seconds: bool) -> u16 {
    if seconds {
        SECONDS_CLOCK_WIDTH
    } else {
        CLOCK_WIDTH
    }
}

/// The geometry and the time-dependent state of one row: made anew by
/// every layout, brought up to date by every tick.
#[derive(Debug)]
pub struct LineAux {
    pub badge: Rect,
    pub title: Rect,
    pub chart: Rect,
    pub clock: Rect,
    /// The bar left of the clock and the bar right of it.
    pub bars: (Rect, Rect),
    /// Index of the track's range that holds the local time.
    pub current_range: usize,
    pub title_text: String,
    /// Hour and minute on the track's clock.
    pub local_time: (u16, u16),
}

/// What a `LineAux` holds.
pub struct LineView {
    pub badge: Rect,
    pub title: Rect,
    pub chart: Rect,
    pub clock: Rect,
    pub bars: (Rect, Rect),
    pub current_range: usize,
    pub title_text: Seq<char>,
    pub local_time: (u16, u16),
}

impl View for LineAux {
    type V = LineView;

    open spec fn view(&self) -> LineView {
        LineView {
            badge: self.badge,
            title: self.title,
            chart: self.chart,
            clock: self.clock,
            bars: self.bars,
            current_range: self.current_range,
            title_text: self.title_text@,
            local_time: self.local_time,
        }
    }
}

impl LineView {
    /// A row of which nothing is known yet.
    pub open spec fn blank() -> LineView {
        let nothing = Rect { x: 0, y: 0, width: 0, height: 0 };
        LineView {
            badge: nothing,
            title: nothing,
            chart: nothing,
            clock: nothing,
            bars: (nothing, nothing),
            current_range: 0,
            title_text: Seq::empty(),
            local_time: (0u16, 0u16),
        }
    }

    /// Width of the stretch of the chart left of the clock.
    pub open spec fn left_region(self) -> int {
        self.clock.x - self.chart.x
    }

    /// Width of the stretch of the chart right of the clock.
    pub open spec fn right_region(self) -> int {
        self.chart.right_edge() - self.clock.right_edge()
    }

    /// A clock column of `room` cells, which starts where the clock
    /// starts, parts the chart into two halves of the same width, neither
    /// of them empty.
    pub open spec fn is_balanced(self, room: int) -> bool {
        &&& self.chart.width >= room + 2
        &&& (self.chart.width - room) % 2 == 0
        &&& self.clock.x - self.chart.x == (self.chart.width - room) / 2
        &&& self.clock.x - self.chart.x == self.chart.right_edge() - (self.clock.x + room)
    }

    /// The row has its place on the screen: chart and clock lie on the
    /// grid, the clock lies within the chart with some of the chart on
    /// either side, and the right bar starts where the clock ends.
    pub open spec fn is_placed(self) -> bool {
        &&& self.chart.on_grid()
        &&& self.clock.on_grid()
        &&& self.chart.x < self.clock.x
        &&& self.clock.right_edge() < self.chart.right_edge()
        &&& self.bars.1.x == self.clock.right_edge()
    }

    /// The row has its place as a row of `track` on a dashboard whose
    /// clock column is `room` cells wide: the clock column is in the
    /// middle of the chart, and the clock is as wide as the track asks.
    pub open spec fn is_row_of(self, track: TrackView, room: int) -> bool {
        &&& self.is_placed()
        &&& self.is_balanced(room)
        &&& self.clock.width == clock_width(track.time_label.seconds)
    }

    /// The row has its two bars: neither is empty, and every cell of them
    /// has a column on the grid.
    pub open spec fn has_bars(self) -> bool {
        &&& 1 <= self.bars.0.width
        &&& 1 <= self.bars.1.width
        &&& self.bars.0.width + self.bars.1.width <= u16::MAX
        &&& self.bars.0.right_edge() <= u16::MAX + 1
        &&& self.bars.1.right_edge() <= u16::MAX + 1
    }

    /// The row is up to date for a time of day on the track's clock: it
    /// holds the time and a range of the track that holds that time, and
    /// it has its bars.
    pub open spec fn is_current(self, track: TrackView) -> bool {
        &&& self.local_time.0 < 24
        &&& self.local_time.1 < 60
        &&& self.current_range < track.ranges.len()
        &&& track.ranges[self.current_range as int].covers(crate::time::minutes_of(self.local_time))
        &&& self.has_bars()
    }
}

/// In a row whose clock fills the clock column, the chart has as many
/// cells left of the clock as right of it, and one at least; in any row
/// the clock lies within the chart.
pub proof fn lemma_row_halves(line: LineView, track: TrackView, room: int)
    requires
        line.is_row_of(track, room),
    ensures
        line.chart.x <= line.clock.x,
        line.clock.right_edge() <= line.chart.right_edge(),
        line.left_region() >= 1,
        line.right_region() >= 1,
        line.clock.width == room ==> line.left_region() == line.right_region() && (line.chart.width
            - line.clock.width) % 2 == 0,
{
}

impl Clone for LineAux {
    fn clone(&self) -> (line: LineAux)
        ensures
            line@ == self@,
    {
        LineAux {
            badge: self.badge,
            title: self.title,
            chart: self.chart,
            clock: self.clock,
            bars: self.bars,
            current_range: self.current_range,
            title_text: self.title_text.clone(),
            local_time: self.local_time,
        }
    }
}

impl Default for LineAux {
    fn default() -> (line: LineAux)
        ensures
            line@ == LineView::blank(),
    {
        LineAux {
            badge: Rect::default(),
            title: Rect::default(),
            chart: Rect::default(),
            clock: Rect::default(),
            bars: (Rect::default(), Rect::default()),
            current_range: 0,
            title_text: String::new(),
            local_time: (0, 0),
        }
    }
}

/// The badge of a row.
#[derive(Clone, Copy, Debug, PartialEq, Eq)]
pub struct Badge {
    pub area: Rect,
    pub color: Color,
    /// The active range is one of the track's own, not a filled gap.
    pub thick: bool,
}

/// The title of a row, to be drawn in bold; its text is that of the row.
#[derive(Clone, Copy, Debug, PartialEq, Eq)]
pub struct Title {
    pub area: Rect,
    pub color: Color,
}

/// The clock of a row, to be drawn in bold.
#[derive(Debug, PartialEq, Eq)]
pub struct ClockFace {
    pub area: Rect,
    pub text: Vec<char>,
    pub fg: Color,
    pub bg: Color,
    /// The places in the text that blink.
    pub blink_at: Vec<usize>,
}

/// Everything that is drawn for one row.
#[derive(Debug)]
pub struct RowPicture {
    /// The badge, where the track shows one.
    pub badge: Option<Badge>,
    pub title: Title,
    pub title_text: String,
    pub clock: ClockFace,
    pub bars: Vec<BarCell>,
}

/// One cell of the bars of a row.
#[derive(Clone, Copy, Debug, PartialEq, Eq)]
pub struct BarCell {
    pub x: u16,
    pub y: u16,
    pub color: Color,
    /// The cell is an end of the chart, drawn thick.
    pub notch: bool,
}

/// The character of a decimal digit.
pub open spec fn digit(n: int) -> char {
    ((48 + n) as u8) as char
}

/// A number below a hundred in two digits.
pub open spec fn two_digits(n: int) -> Seq<char> {
    seq![digit(n / 10), digit(n % 10)]
}

/// The text of a clock: hours and minutes, and the seconds where they are
/// given, each in two digits, with colons between them and a blank on
/// either side.
pub open spec fn clock_text(time: (u16, u16), seconds: Option<u16>) -> Seq<char> {
    let short = seq![' '] + two_digits(time.0 as int) + seq![':'] + two_digits(time.1 as int);
    match seconds {
        Some(s) => short + seq![':'] + two_digits(s as int) + seq![' '],
        None => short + seq![' '],
    }
}

/// A flag of a range, or that of the track where the range has none.
pub open spec fn flag_or(flag: Option<bool>, fallback: bool) -> bool {
    match flag {
        Some(set) => set,
        None => fallback,
    }
}

/// Foreground and background of the clock of a track whose active range
/// is `range`.
pub open spec fn clock_colors(range: TimeRange, label: TimeLabel, colors: Colors) -> (Color, Color) {
    let ranged = flag_or(range.use_range_color, label.use_range_color);
    let filled = flag_or(range.fill, label.fill);
    if ranged && filled {
        (colors.fill_fg, range.color)
    } else if ranged {
        (range.color, Color::Reset)
    } else if filled {
        (colors.fill_fg, colors.base)
    } else {
        (colors.clock, Color::Reset)
    }
}

/// The places in the text of a clock that blink: the colons, where the
/// clock blinks at all.
pub open spec fn blink_places(blink: bool, seconds: bool) -> Seq<usize> {
    if !blink {
        Seq::empty()
    } else if seconds {
        seq![3usize, 6usize]
    } else {
        seq![3usize]
    }
}

/// Index of the range that colours the chart at `minute`: the first range
/// that holds it, and the last range for a minute that none holds.
pub open spec fn chart_range(ranges: Seq<TimeRange>, minute: int) -> int {
    let found = active_range(ranges, minute);
    if found < ranges.len() {
        found
    } else {
        ranges.len() - 1
    }
}

/// The cell `k` of the bars of a row, counted from the left end of the
/// left bar through to the right end of the right bar. The two bars
/// together are the time axis of the day: a cell takes the colour of the
/// range at the minute it stands for. The two outermost cells are notches,
/// in the colours of the first and of the last range.
pub open spec fn bar_cell(line: LineView, ranges: Seq<TimeRange>, k: int) -> BarCell {
    let left = line.bars.0.width as int;
    let total = left + line.bars.1.width;
    BarCell {
        x: if k < left {
            (line.bars.0.x + k) as u16
        } else {
            (line.bars.1.x + (k - left)) as u16
        },
        y: line.bars.0.y,
        color: if k == total - 1 {
            ranges.last().color
        } else if k == 0 {
            ranges[0].color
        } else {
            ranges[chart_range(ranges, time_at(k, total))].color
        },
        notch: k == 0 || k == total - 1,
    }
}

/// The cells of the bars of a row, left to right.
pub open spec fn bar_cells(line: LineView, ranges: Seq<TimeRange>) -> Seq<BarCell> {
    Seq::new(
        (line.bars.0.width + line.bars.1.width) as nat,
        |k: int| bar_cell(line, ranges, k),
    )
}

/// The badge of a row: in the colour of the active range, thin where that
/// is the base colour.
pub open spec fn badge_of(line: LineView, track: TrackView, colors: Colors) -> Badge {
    let color = track.ranges[line.current_range as int].color;
    Badge { area: line.badge, color, thick: color != colors.base }
}

/// The title of a row.
pub open spec fn title_of(line: LineView, colors: Colors) -> Title {
    Title { area: line.title, color: colors.title }
}

/// `face` is the clock of a row at the second `seconds` of the minute:
/// it shows the time of the row, with the seconds where the track asks for
/// them, in the colours that the active range and the track settle, and
/// its colons blink where they settle that.
pub open spec fn is_face_of(
    face: ClockFace,
    line: LineView,
    track: TrackView,
    colors: Colors,
    seconds: u16,
) -> bool {
    let range = track.ranges[line.current_range as int];
    &&& face.area == line.clock
    &&& face.text@ == clock_text(
        line.local_time,
        if track.time_label.seconds {
            Some(seconds)
        } else {
            None
        },
    )
    &&& (face.fg, face.bg) == clock_colors(range, track.time_label, colors)
    &&& face.blink_at@ == blink_places(
        flag_or(range.blink, track.time_label.blink),
        track.time_label.seconds,
    )
}

/// `row` is the picture of a row of the dashboard: badge, where the track
/// shows one, title, clock and bars.
pub open spec fn is_picture_of(
    row: RowPicture,
    line: LineView,
    track: TrackView,
    colors: Colors,
    seconds: u16,
) -> bool {
    &&& row.badge == if track.show_badge {
        Some(badge_of(line, track, colors))
    } else {
        None
    }
    &&& row.title == title_of(line, colors)
    &&& row.title_text@ == line.title_text
    &&& is_face_of(row.clock, line, track, colors, seconds)
    &&& row.bars@ == bar_cells(line, track.ranges)
}

/// The badge of a row.
pub fn render_badge(line: &LineAux, track: &TimeTrack, colors: &Colors) -> (badge: Badge)
    requires
        line.current_range < track.ranges@.len(),
    ensures
        badge == badge_of(line@, track@, *colors),
{
    let color: Color = track.ranges[line.current_range].color;
    Badge { area: line.badge, color, thick: !(color == colors.base) }
}

/// The title of a row.
pub fn render_title(line: &LineAux, colors: &Colors) -> (title: Title)
    ensures
        title == title_of(line@, *colors),
{
    Title { area: line.title, color: colors.title }
}

fn push_two_digits(text: &mut Vec<char>, n: u16)
    requires
        n < 100,
    ensures
        final(text)@ == old(text)@ + two_digits(n as int),
{
    let tens: u8 = (n / 10) as u8;
    let ones: u8 = (n % 10) as u8;
    text.push((48u8 + tens) as char);
    text.push((48u8 + ones) as char);
    assert(text@ =~= old(text)@ + two_digits(n as int));
}

/// The clock of a row at the second `seconds` of the minute.
pub fn render_clock(seconds: u16, line: &LineAux, track: &TimeTrack, colors: &Colors) -> (face:
    ClockFace)
    requires
        line.current_range < track.ranges@.len(),
        line.local_time.0 < 24,
        line.local_time.1 < 60,
        seconds < 60,
    ensures
        is_face_of(face, line@, track@, *colors, seconds),
{
    let label: TimeLabel = track.time_label;
    let range: TimeRange = track.ranges[line.current_range];
    let mut text: Vec<char> = Vec::new();
    text.push(' ');
    push_two_digits(&mut text, line.local_time.0);
    text.push(':');
    push_two_digits(&mut text, line.local_time.1);
    if label.seconds {
        text.push(':');
        push_two_digits(&mut text, seconds);
    }
    text.push(' ');
    proof {
        assert(text@ =~= clock_text(
            line.local_time,
            if label.seconds {
                Some(seconds)
            } else {
                None
            },
        ));
    }
    let filled: bool = match range.fill {
        Some(set) => set,
        None => label.fill,
    };
    let blink: bool = match range.blink {
        Some(set) => set,
        None => label.blink,
    };
    let ranged: bool = match range.use_range_color {
        Some(set) => set,
        None => label.use_range_color,
    };
    let (fg, bg) = if ranged && filled {
        (colors.fill_fg, range.color)
    } else if ranged {
        (range.color, Color::Reset)
    } else if filled {
        (colors.fill_fg, colors.base)
    } else {
        (colors.clock, Color::Reset)
    };
    let mut blink_at: Vec<usize> = Vec::new();
    if blink {
        blink_at.push(3);
        if label.seconds {
            blink_at.push(6);
        }
    }
    proof {
        assert(blink_at@ =~= blink_places(blink, label.seconds));
    }
    ClockFace { area: line.clock, text, fg, bg, blink_at }
}

/// The cells of the bars of a row, left to right.
pub fn render_bars(line: &LineAux, track: &TimeTrack) -> (cells: Vec<BarCell>)
    requires
        line@.has_bars(),
        track.ranges@.len() > 0,
    ensures
        cells@ == bar_cells(line@, track.ranges@),
{
    let left: u16 = line.bars.0.width;
    let total: u16 = left + line.bars.1.width;
    let count: usize = track.ranges.len();
    let mut cells: Vec<BarCell> = Vec::new();
    let mut k: u16 = 0;
    while k < total
        invariant
            k <= total,
            line@.has_bars(),
            left == line.bars.0.width,
            total == left + line.bars.1.width,
            count == track.ranges@.len(),
            count > 0,
            cells@.len() == k,
            forall|j: int| 0 <= j < k ==> #[trigger] cells@[j] == bar_cell(line@, track.ranges@, j),
        decreases total - k,
    {
        let x: u16 = if k < left {
            line.bars.0.x + k
        } else {
            line.bars.1.x + (k - left)
        };
        let minute: u16 = point_to_time(k, total);
        proof {
            lemma_time_at_bounds(k as int, total as int);
        }
        let index: usize = if k == total - 1 {
            count - 1
        } else if k == 0 {
            0
        } else {
            match time_to_range(minute, track.ranges.as_slice()) {
                Some(found) => {
                    proof {
                        lemma_first_index(
                            count as int,
                            crate::app::covers_at(track.ranges@, minute as int),
                            found as int,
                        );
                    }
                    found
                },
                None => {
                    proof {
                        lemma_first_index(
                            count as int,
                            crate::app::covers_at(track.ranges@, minute as int),
                            count as int,
                        );
                    }
                    count - 1
                },
            }
        };
        cells.push(
            BarCell {
                x,
                y: line.bars.0.y,
                color: track.ranges[index].color,
                notch: k == 0 || k == total - 1,
            },
        );
        k += 1;
    }
    proof {
        assert(cells@ =~= bar_cells(line@, track.ranges@));
    }
    cells
}

/// Everything that is drawn for one row at the second `seconds` of the
/// minute.
pub fn render_row(seconds: u16, line: &LineAux, track: &TimeTrack, colors: &Colors) -> (row:
    RowPicture)
    requires
        line@.is_current(track@),
        seconds < 60,
    ensures
        is_picture_of(row, line@, track@, *colors, seconds),
{
    let badge: Option<Badge> = if track.show_badge {
        Some(render_badge(line, track, colors))
    } else {
        None
    };
    RowPicture {
        badge,
        title: render_title(line, colors),
        title_text: line.title_text.clone(),
        clock: render_clock(seconds, line, track, colors),
        bars: render_bars(line, track),
    }
}

} // verus!
