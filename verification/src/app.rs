//! The dashboard: a configuration made ready for display, the layout of its
//! rows on a screen of a given size, and their state at a given instant.

use crate::clock::{is_instant, minute_of_day};
use crate::config::{Color, Colors, Config, ConfigView, TimeRange, TimeTrack, TrackView, track_views};
use crate::geometry::{split_columns, Rect, Span};
use crate::ranges::{fill_gaps, filled, is_partition, time_to_range};
use crate::sorting::{
    insert_by, is_sorted_by, lemma_insert_position_is, lemma_stable_sort_permutes,
    lemma_stable_sort_sorted, stable_sort,
};
use crate::time::{lemma_scaled_within, scale, scaled, to_minutes, MINUTES_PER_DAY};
use crate::ui::{
    clock_width, is_picture_of, render_row, LineAux, LineView, RowPicture, CLOCK_WIDTH,
    SECONDS_CLOCK_WIDTH,
};
use crate::validate::{first_index, lemma_first_index, text_width, MAX_TITLE};
use vstd::prelude::*;

verus! {

/// Cells by which a title column is wider than the text of its title.
pub const TITLE_MARGIN: u32 = 2;

/// Cells that a row takes besides its title and its clock: the separator
/// after the title, a notch and one cell of bar on either side of the
/// clock, and the side margins.
pub const ROW_FRAME: u32 = 7;

/// Rows that a screen takes besides its tracks, and the least height of a
/// screen with them: a margin above, one row, a margin below.
pub const MIN_HEIGHT: u16 = 3;

/// The key by which tracks are put in order: their offset from UTC.
pub open spec fn offset_key() -> spec_fn(TrackView) -> int {
    |track: TrackView| track.offset_minutes()
}

/// Width of the widest title column when every track shows its name.
pub open spec fn widest_name(tracks: Seq<TrackView>) -> int
    decreases tracks.len(),
{
    if tracks.len() == 0 {
        0
    } else {
        let before = widest_name(tracks.drop_last());
        let last = text_width(tracks.last().name) + TITLE_MARGIN;
        if before >= last {
            before
        } else {
            last
        }
    }
}

/// Width of the widest title column when every track shows its short name.
pub open spec fn widest_shortname(tracks: Seq<TrackView>) -> int
    decreases tracks.len(),
{
    if tracks.len() == 0 {
        0
    } else {
        let before = widest_shortname(tracks.drop_last());
        let last = text_width(tracks.last().shortname) + TITLE_MARGIN;
        if before >= last {
            before
        } else {
            last
        }
    }
}

/// Some track shows the seconds on its clock.
pub open spec fn shows_seconds(tracks: Seq<TrackView>) -> bool {
    exists|i: int| 0 <= i < tracks.len() && (#[trigger] tracks[i]).time_label.seconds
}

/// Width that the clock column needs: that of the widest clock.
pub open spec fn clock_room(tracks: Seq<TrackView>) -> int {
    if shows_seconds(tracks) {
        SECONDS_CLOCK_WIDTH as int
    } else {
        CLOCK_WIDTH as int
    }
}

impl TrackView {
    /// The track with the gaps between its ranges filled.
    pub open spec fn with_gaps_filled(self, base: Color) -> TrackView {
        TrackView { ranges: filled(self.ranges, base), ..self }
    }

    /// The track is valid and its ranges part the day between them.
    pub open spec fn is_ready(self) -> bool {
        self.is_valid() && is_partition(self.ranges)
    }
}

impl ConfigView {
    /// The tracks, each with the gaps between its ranges filled.
    pub open spec fn gaps_filled(self) -> Seq<TrackView> {
        Seq::new(self.tracks.len(), |i: int| self.tracks[i].with_gaps_filled(self.colors.base))
    }

    /// The configuration as a dashboard shows it: the gaps of every track
    /// are filled, and the tracks are in order of their offset from UTC,
    /// tracks of one offset in the order in which they were given.
    pub open spec fn prepared(self) -> ConfigView {
        ConfigView { colors: self.colors, tracks: stable_sort(self.gaps_filled(), offset_key()) }
    }

    /// There is a track, every track is ready, and the tracks are in order
    /// of their offset.
    pub open spec fn is_ready(self) -> bool {
        &&& self.tracks.len() > 0
        &&& forall|i: int| 0 <= i < self.tracks.len() ==> (#[trigger] self.tracks[i]).is_ready()
        &&& is_sorted_by(self.tracks, offset_key())
    }
}

/// The dashboard.
#[derive(Debug)]
pub struct App {
    pub config: Config,
    /// Width of the title column when the titles are the short names.
    pub min_title_width: u32,
    /// Width of the title column when the titles are the names.
    pub max_title_width: u32,
    /// Width of the clock column: that of the widest clock.
    pub clock_width: u16,
    /// The least width of a screen that the dashboard is drawn on.
    pub min_width: u32,
    /// The least height of a screen that the dashboard is drawn on.
    pub min_height: u16,
    /// One row for every track, in the order of the tracks.
    pub lines: Vec<LineAux>,
    /// How many rows, counted from the first, have their place on the
    /// screen.
    pub visible_lines: usize,
    /// The second of the minute at the last tick.
    pub seconds: u16,
    /// The screen is large enough for the dashboard.
    pub renderable: bool,
}

/// What an `App` holds.
pub struct AppView {
    pub config: ConfigView,
    pub min_title_width: u32,
    pub max_title_width: u32,
    pub clock_width: u16,
    pub min_width: u32,
    pub min_height: u16,
    pub lines: Seq<LineView>,
    pub visible_lines: usize,
    pub seconds: u16,
    pub renderable: bool,
}

/// The rows of a vector, each by what it holds.
pub open spec fn line_views(lines: Seq<LineAux>) -> Seq<LineView> {
    Seq::new(lines.len(), |i: int| lines[i]@)
}

impl View for App {
    type V = AppView;

    open spec fn view(&self) -> AppView {
        AppView {
            config: self.config@,
            min_title_width: self.min_title_width,
            max_title_width: self.max_title_width,
            clock_width: self.clock_width,
            min_width: self.min_width,
            min_height: self.min_height,
            lines: line_views(self.lines@),
            visible_lines: self.visible_lines,
            seconds: self.seconds,
            renderable: self.renderable,
        }
    }
}

impl AppView {
    /// The dashboard of a configuration before any layout and any tick.
    pub open spec fn initial(config: ConfigView) -> AppView {
        let min_title = widest_shortname(config.tracks);
        AppView {
            config,
            min_title_width: min_title as u32,
            max_title_width: widest_name(config.tracks) as u32,
            clock_width: clock_room(config.tracks) as u16,
            min_width: (min_title + clock_room(config.tracks) + ROW_FRAME) as u32,
            min_height: MIN_HEIGHT,
            lines: Seq::new(config.tracks.len(), |i: int| LineView::blank()),
            visible_lines: 0,
            seconds: 0,
            renderable: false,
        }
    }

    /// The dashboard is consistent: its configuration is ready, its least
    /// screen is that of its tracks, it has a row for every track, and
    /// every row that counts as visible has its place as a row of its
    /// track.
    pub open spec fn wf(self) -> bool {
        &&& self.config.is_ready()
        &&& self.min_title_width == widest_shortname(self.config.tracks)
        &&& self.max_title_width == widest_name(self.config.tracks)
        &&& self.clock_width == clock_room(self.config.tracks)
        &&& self.min_width == self.min_title_width + self.clock_width + ROW_FRAME
        &&& self.min_height == MIN_HEIGHT
        &&& self.lines.len() == self.config.tracks.len()
        &&& self.visible_lines <= self.lines.len()
        &&& forall|i: int|
            0 <= i < self.visible_lines ==> (#[trigger] self.lines[i]).is_row_of(
                self.config.tracks[i],
                self.clock_width as int,
            )
    }

    /// The rows of the dashboard, with nothing known of any of them.
    pub open spec fn blank_lines(self) -> Seq<LineView> {
        Seq::new(self.lines.len(), |i: int| LineView::blank())
    }
}

/// The widest title columns lie between the narrowest and the widest
/// title that a valid track may have.
pub proof fn lemma_widest_bounds(tracks: Seq<TrackView>)
    requires
        forall|i: int| 0 <= i < tracks.len() ==> (#[trigger] tracks[i]).is_valid(),
    ensures
        tracks.len() > 0 ==> 1 + TITLE_MARGIN <= widest_name(tracks) <= MAX_TITLE + TITLE_MARGIN,
        tracks.len() > 0 ==> 1 + TITLE_MARGIN <= widest_shortname(tracks) <= MAX_TITLE
            + TITLE_MARGIN,
        tracks.len() == 0 ==> widest_name(tracks) == 0 && widest_shortname(tracks) == 0,
    decreases tracks.len(),
{
    if tracks.len() > 0 {
        let before = tracks.drop_last();
        assert forall|i: int| 0 <= i < before.len() implies (#[trigger] before[i]).is_valid() by {
            assert(before[i] == tracks[i]);
        }
        lemma_widest_bounds(before);
        assert(tracks.last() == tracks[tracks.len() - 1]);
        assert(tracks.last().is_valid());
    }
}

/// The tracks in order of their offset from UTC; tracks of one offset keep
/// their order. On the way the gaps between the ranges of every track are
/// filled with ranges in the base colour.
pub fn prepare_tracks(tracks: Vec<TimeTrack>, colors: &Colors) -> (sorted: Vec<TimeTrack>)
    requires
        forall|i: int| 0 <= i < tracks@.len() ==> (#[trigger] tracks@[i])@.is_valid(),
    ensures
        track_views(sorted@) == (ConfigView {
            colors: *colors,
            tracks: track_views(tracks@),
        }).prepared().tracks,
        forall|i: int| 0 <= i < sorted@.len() ==> (#[trigger] sorted@[i])@.is_ready(),
        is_sorted_by(track_views(sorted@), offset_key()),
        sorted@.len() == tracks@.len(),
{
    let ghost given = ConfigView { colors: *colors, tracks: track_views(tracks@) };
    let ghost filled_views = given.gaps_filled();
    let mut rest = tracks;
    let mut sorted: Vec<TimeTrack> = Vec::new();
    proof {
        assert(filled_views.skip(rest@.len() as int) =~= Seq::<TrackView>::empty());
        assert(track_views(sorted@) =~= Seq::<TrackView>::empty());
    }
    while rest.len() > 0
        invariant
            rest@.len() <= tracks@.len(),
            rest@ == tracks@.take(rest@.len() as int),
            forall|i: int| 0 <= i < tracks@.len() ==> (#[trigger] tracks@[i])@.is_valid(),
            given == (ConfigView { colors: *colors, tracks: track_views(tracks@) }),
            filled_views == given.gaps_filled(),
            track_views(sorted@) == stable_sort(
                filled_views.skip(rest@.len() as int),
                offset_key(),
            ),
            forall|i: int| 0 <= i < sorted@.len() ==> (#[trigger] sorted@[i])@.is_ready(),
        decreases rest@.len(),
    {
        let ghost k = rest@.len() - 1;
        let mut track = rest.pop().unwrap();
        assert(track == tracks@[k]);
        assert(track@.is_valid());
        let ghost given_track = track@;
        fill_gaps(&mut track.ranges, colors);
        assert(track@ == given_track.with_gaps_filled(colors.base));
        assert(track@ == filled_views[k]);
        let key: i32 = track.offset();
        let mut at: usize = 0;
        while at < sorted.len() && sorted[at].offset() < key
            invariant
                at <= sorted@.len(),
                key == track@.offset_minutes(),
                forall|j: int|
                    0 <= j < at ==> offset_key()(#[trigger] track_views(sorted@)[j]) < offset_key()(
                        track@,
                    ),
            decreases sorted@.len() - at,
        {
            at += 1;
        }
        proof {
            let views = track_views(sorted@);
            let tail = filled_views.skip(k);
            assert(tail[0] == track@);
            assert(tail.drop_first() =~= filled_views.skip(k + 1));
            if at < sorted@.len() {
                assert(views[at as int] == sorted@[at as int]@);
            }
            lemma_insert_position_is(track@, views, offset_key(), at as int);
            assert(stable_sort(tail, offset_key()) == insert_by(track@, views, offset_key()));
            assert(track_views(sorted@.insert(at as int, track)) =~= views.insert(
                at as int,
                track@,
            ));
            assert(rest@ =~= tracks@.take(k));
        }
        sorted.insert(at, track);
    }
    proof {
        assert(filled_views.skip(0) =~= filled_views);
        lemma_stable_sort_sorted(filled_views, offset_key());
        lemma_stable_sort_permutes(filled_views, offset_key());
        assert(track_views(sorted@).len() == sorted@.len());
    }
    sorted
}

/// What a layout settles before it places the rows.
#[derive(Clone, Copy, Debug, PartialEq, Eq, Structural)]
pub struct LayoutPlan {
    /// The area of the rows: the screen inside its margins.
    pub area: Rect,
    /// Width of the text of the titles.
    pub title_width: u16,
    /// The titles are the names, not the short names.
    pub wide_titles: bool,
    /// Width of the clock column.
    pub clock_width: u16,
    /// How many rows are placed.
    pub rows: usize,
}

impl LayoutPlan {
    /// Width of the chart column: what the badge, the title and the two
    /// separators leave of the row.
    pub open spec fn chart_width(self) -> int {
        self.area.width - 3 - self.title_width
    }

    /// The plan leaves room for the rows: the row area lies on the grid,
    /// and the clock column, which is as wide as a clock is, leaves the
    /// same width of the chart on either side of it, one cell at least.
    pub open spec fn has_room(self) -> bool {
        &&& self.area.on_grid()
        &&& CLOCK_WIDTH <= self.clock_width <= SECONDS_CLOCK_WIDTH
        &&& self.chart_width() >= self.clock_width + 2
        &&& (self.chart_width() - self.clock_width) % 2 == 0
    }
}

/// The way the title width is asked of the column split: a badge, a
/// separator, the title, a separator, and the chart in what is left.
pub open spec fn column_spans(title_width: u16) -> Seq<Span> {
    seq![
        Span::Length(1),
        Span::Length(1),
        Span::Length(title_width),
        Span::Length(1),
        Span::Min(0),
    ]
}

/// The columns of a row area, left to right: the badge in one cell, a
/// separator, the title, a separator, and the chart in what is left.
pub open spec fn column_order(area: Rect, title_width: u16) -> Seq<Rect> {
    seq![
        Rect { x: area.x, y: area.y, width: 1, height: area.height },
        Rect { x: (area.x + 1) as u16, y: area.y, width: 1, height: area.height },
        Rect { x: (area.x + 2) as u16, y: area.y, width: title_width, height: area.height },
        Rect {
            x: (area.x + 2 + title_width) as u16,
            y: area.y,
            width: 1,
            height: area.height,
        },
        Rect {
            x: (area.x + 3 + title_width) as u16,
            y: area.y,
            width: (area.width - 3 - title_width) as u16,
            height: area.height,
        },
    ]
}

/// The row `row` of a layout, as a row of `track`: its rectangles and its
/// title. The clock column is in the middle of the chart, and the clock
/// starts where the column starts. Time, range and bars are left to the
/// next tick, but for the rows of the bars and the start of the right one.
pub open spec fn placed_line(track: TrackView, plan: LayoutPlan, row: int) -> LineView {
    let y = (plan.area.y + row) as u16;
    let chart_x = plan.area.x + 3 + plan.title_width;
    let clock = Rect {
        x: (chart_x + (plan.chart_width() - plan.clock_width) / 2) as u16,
        y,
        width: clock_width(track.time_label.seconds),
        height: 1,
    };
    LineView {
        badge: Rect { x: plan.area.x, y, width: 1, height: 1 },
        title: Rect { x: (plan.area.x + 2) as u16, y, width: plan.title_width, height: 1 },
        chart: Rect { x: chart_x as u16, y, width: plan.chart_width() as u16, height: 1 },
        clock,
        bars: (
            Rect { x: 0, y, width: 0, height: 0 },
            Rect { x: clock.right_edge() as u16, y, width: 0, height: 0 },
        ),
        title_text: if plan.wide_titles {
            track.name
        } else {
            track.shortname
        },
        current_range: 0,
        local_time: (0u16, 0u16),
    }
}

impl AppView {
    /// The screen is large enough for the dashboard.
    pub open spec fn fits(self, inner: Rect) -> bool {
        inner.width >= self.min_width && inner.height >= self.min_height
    }

    /// What the layout on the screen `inner` settles first. One row is
    /// left free above the rows and one below, two columns at the side.
    /// The titles are the names where the row is more than four times as
    /// wide as the widest of them. The row grows by a column where the
    /// clock column would else leave an odd number of cells of the chart,
    /// so that it has as much of the chart on its left as on its right.
    /// As many rows are placed as the height allows.
    pub open spec fn plan(self, inner: Rect) -> LayoutPlan {
        let width = inner.width - 2;
        let height = inner.height - 2;
        let wide_titles = width > 4 * self.max_title_width;
        let title_width = if wide_titles {
            self.max_title_width
        } else {
            self.min_title_width
        };
        let grown = if (width - 3 - title_width - self.clock_width) % 2 == 0 {
            width
        } else {
            width + 1
        };
        LayoutPlan {
            area: Rect {
                x: inner.x,
                y: (inner.y + 1) as u16,
                width: grown as u16,
                height: height as u16,
            },
            title_width: title_width as u16,
            wide_titles,
            clock_width: self.clock_width,
            rows: if height <= self.config.tracks.len() {
                height as usize
            } else {
                self.config.tracks.len() as usize
            },
        }
    }

    /// The dashboard after a layout on the screen `inner`, which it fits:
    /// the rows that the plan counts are placed, and nothing is known of
    /// the others. Nothing of an earlier layout is left.
    pub open spec fn laid_out(self, inner: Rect) -> AppView {
        let plan = self.plan(inner);
        AppView {
            renderable: true,
            visible_lines: plan.rows,
            lines: Seq::new(
                self.lines.len(),
                |i: int|
                    if i < plan.rows {
                        placed_line(self.config.tracks[i], plan, i)
                    } else {
                        LineView::blank()
                    },
            ),
            ..self
        }
    }

    /// The dashboard on a screen that it does not fit: it is not
    /// renderable, and nothing of an earlier layout is left.
    pub open spec fn too_small(self) -> AppView {
        AppView { renderable: false, visible_lines: 0, lines: self.blank_lines(), ..self }
    }

    /// The dashboard at the instant `now`: every visible row is brought up
    /// to date.
    pub open spec fn ticked(self, now: int) -> AppView {
        AppView {
            seconds: crate::clock::clock_of(now).2,
            lines: Seq::new(
                self.lines.len(),
                |i: int|
                    if i < self.visible_lines {
                        ticked_line(self.lines[i], self.config.tracks[i], now)
                    } else {
                        self.lines[i]
                    },
            ),
            ..self
        }
    }

    /// The dashboard on a screen that it fits but on which no row could be
    /// placed: nothing of an earlier layout is left.
    pub open spec fn without_rows(self) -> AppView {
        AppView { renderable: true, visible_lines: 0, lines: self.blank_lines(), ..self }
    }
}

/// The test for a range that holds `minute`.
pub open spec fn covers_at(ranges: Seq<TimeRange>, minute: int) -> spec_fn(int) -> bool {
    |i: int| ranges[i].covers(minute)
}

/// Index of the first range that holds `minute`: in a partition of the
/// day, of the only one.
pub open spec fn active_range(ranges: Seq<TimeRange>, minute: int) -> int {
    first_index(ranges.len() as int, covers_at(ranges, minute))
}

/// Width of the bar that stands for `minutes` of the day in a stretch of
/// `region` cells: in proportion, rounded, and never less than one cell.
#[verifier::opaque]
pub open spec fn bar_width(minutes: int, region: int) -> int {
    let width = scaled(minutes, region, MINUTES_PER_DAY as int);
    if width >= 1 {
        width
    } else {
        1
    }
}

/// A row at the instant `now`: the time on the track's clock, the range
/// that holds it, the bar of the minutes gone by, which ends at the clock,
/// and the width of the bar of the minutes to come.
pub open spec fn ticked_line(line: LineView, track: TrackView, now: int) -> LineView {
    let minutes = minute_of_day(now, track.offset_minutes());
    let left = bar_width(minutes, line.left_region());
    let right = bar_width(MINUTES_PER_DAY - minutes, line.right_region());
    LineView {
        local_time: ((minutes / 60) as u16, (minutes % 60) as u16),
        current_range: active_range(track.ranges, minutes) as usize,
        bars: (
            Rect { x: (line.clock.x - left) as u16, width: left as u16, ..line.bars.0 },
            Rect { width: right as u16, ..line.bars.1 },
        ),
        ..line
    }
}

/// On a screen that the dashboard fits, the plan leaves room for the rows
/// of every track, and counts at least one row.
pub proof fn lemma_plan_has_room(app: AppView, inner: Rect)
    requires
        app.wf(),
        inner.on_grid(),
        app.fits(inner),
    ensures
        app.max_title_width <= MAX_TITLE + TITLE_MARGIN,
        app.plan(inner).has_room(),
        app.plan(inner).clock_width == clock_room(app.config.tracks),
        app.plan(inner).area.x == inner.x,
        app.plan(inner).area.y == inner.y + 1,
        app.plan(inner).area.height == inner.height - 2,
        inner.width - 2 <= app.plan(inner).area.width <= inner.width - 1,
        app.plan(inner).title_width == if app.plan(inner).wide_titles {
            app.max_title_width
        } else {
            app.min_title_width
        },
        0 < app.plan(inner).rows <= app.plan(inner).area.height,
        app.plan(inner).rows <= app.lines.len(),
{
    let tracks = app.config.tracks;
    assert forall|i: int| 0 <= i < tracks.len() implies (#[trigger] tracks[i]).is_valid() by {
        assert(tracks[i].is_ready());
    }
    lemma_widest_bounds(tracks);
}

/// Places one row: sets its rectangles by the columns and its title by
/// the plan, and forgets what the row held.
fn place_line(line: &mut LineAux, track: &TimeTrack, plan: LayoutPlan, row: usize, columns: &Vec<Rect>)
    requires
        plan.has_room(),
        clock_width(track@.time_label.seconds) <= plan.clock_width,
        row < plan.area.height,
        columns@ == column_order(plan.area, plan.title_width),
    ensures
        final(line)@ == placed_line(track@, plan, row as int),
        final(line)@.is_row_of(track@, plan.clock_width as int),
{
    let badges: Rect = columns[0];
    let titles: Rect = columns[2];
    let charts: Rect = columns[4];
    let clocks: Rect = Rect {
        x: charts.x + (charts.width - plan.clock_width) / 2,
        y: charts.y,
        width: plan.clock_width,
        height: charts.height,
    };
    let band: Rect = Rect {
        x: plan.area.x,
        y: plan.area.y + row as u16,
        width: plan.area.width,
        height: 1,
    };
    let clock_width: u16 = if track.time_label.seconds {
        SECONDS_CLOCK_WIDTH
    } else {
        CLOCK_WIDTH
    };
    let clock: Rect = Rect { width: clock_width, ..clocks.intersection(band) };
    let title_text: String = if plan.wide_titles {
        track.name.clone()
    } else {
        track.shortname.clone()
    };
    *line = LineAux {
        badge: badges.intersection(band),
        title: titles.intersection(band),
        chart: band.intersection(charts),
        clock,
        bars: (
            Rect { x: 0, y: band.y, width: 0, height: 0 },
            Rect { x: clock.right(), y: band.y, width: 0, height: 0 },
        ),
        current_range: 0,
        title_text,
        local_time: (0, 0),
    };
}

/// Forgets what the rows from the row `from` on held.
fn blank_from(lines: &mut Vec<LineAux>, from: usize)
    requires
        from <= old(lines)@.len(),
    ensures
        final(lines)@.len() == old(lines)@.len(),
        forall|k: int| 0 <= k < from ==> #[trigger] final(lines)@[k] == old(lines)@[k],
        forall|k: int|
            from <= k < final(lines)@.len() ==> (#[trigger] final(lines)@[k])@ == LineView::blank(),
{
    let mut i: usize = from;
    while i < lines.len()
        invariant
            from <= i <= lines@.len(),
            lines@.len() == old(lines)@.len(),
            forall|k: int| 0 <= k < from ==> #[trigger] lines@[k] == old(lines)@[k],
            forall|k: int| from <= k < i ==> (#[trigger] lines@[k])@ == LineView::blank(),
        decreases lines@.len() - i,
    {
        lines[i] = LineAux::default();
        i += 1;
    }
}

/// Width of the bar that stands for `minutes` of the day in a stretch of
/// `region` cells.
pub fn bar(minutes: u16, region: u16) -> (width: u16)
    requires
        minutes <= MINUTES_PER_DAY,
    ensures
        width == bar_width(minutes as int, region as int),
        1 <= width,
        width <= region || width == 1,
{
    proof {
        reveal(bar_width);
        lemma_scaled_within(minutes as int, region as int, MINUTES_PER_DAY as int);
    }
    let width: u32 = scale(minutes, region, MINUTES_PER_DAY);
    if width >= 1 {
        width as u16
    } else {
        1
    }
}

/// Index of the range of a partition of the day that holds `minute`.
pub fn find_active(ranges: &Vec<TimeRange>, minute: u16) -> (index: usize)
    requires
        is_partition(ranges@),
        minute < MINUTES_PER_DAY,
    ensures
        index == active_range(ranges@, minute as int),
        index < ranges@.len(),
        ranges@[index as int].covers(minute as int),
{
    let found = time_to_range(minute, ranges.as_slice());
    let index: usize = match found {
        Some(index) => index,
        None => 0,
    };
    proof {
        lemma_first_index(
            ranges@.len() as int,
            covers_at(ranges@, minute as int),
            index as int,
        );
    }
    index
}

/// Sets the bars of a placed row for the minute `minute` of the day: the
/// left one ends at the clock, the right one starts there.
fn tick_bars(line: &mut LineAux, minute: u16)
    requires
        old(line)@.is_placed(),
        minute < MINUTES_PER_DAY,
    ensures
        final(line)@ == (LineView {
            bars: (
                Rect {
                    x: (old(line)@.clock.x - bar_width(minute as int, old(line)@.left_region())) as u16,
                    width: bar_width(minute as int, old(line)@.left_region()) as u16,
                    ..old(line)@.bars.0
                },
                Rect {
                    width: bar_width(
                        MINUTES_PER_DAY - minute,
                        old(line)@.right_region(),
                    ) as u16,
                    ..old(line)@.bars.1
                },
            ),
            ..old(line)@
        }),
        final(line)@.has_bars(),
{
    let left_region: u16 = line.clock.left() - line.chart.left();
    let left: u16 = bar(minute, left_region);
    let right_region: u16 = line.chart.right() - line.clock.right();
    let right: u16 = bar(MINUTES_PER_DAY - minute, right_region);
    line.bars.0.width = left;
    line.bars.0.x = line.clock.left() - left;
    line.bars.1.width = right;
}

/// Brings one placed row up to date for the instant `now`.
fn tick_line(line: &mut LineAux, track: &TimeTrack, now: i64)
    requires
        old(line)@.is_placed(),
        is_partition(track@.ranges),
        track@.offset_in_bounds(),
        is_instant(now as int),
    ensures
        final(line)@ == ticked_line(old(line)@, track@, now as int),
        final(line)@.is_placed(),
        final(line)@.is_current(track@),
{
    let time: (u16, u16) = track.local_time(now);
    let minute: u16 = to_minutes(time);
    let current: usize = find_active(&track.ranges, minute);
    tick_bars(line, minute);
    line.local_time = time;
    line.current_range = current;
}

/// What is asked of the column split for titles of the given width.
pub fn row_spans(title_width: u16) -> (spans: Vec<Span>)
    ensures
        spans@ == column_spans(title_width),
{
    let mut spans: Vec<Span> = Vec::new();
    spans.push(Span::Length(1));
    spans.push(Span::Length(1));
    spans.push(Span::Length(title_width));
    spans.push(Span::Length(1));
    spans.push(Span::Min(0));
    assert(spans@ =~= column_spans(title_width));
    spans
}

/// A clock is no wider than the clock column of its dashboard.
pub proof fn lemma_clock_fits_column(tracks: Seq<TrackView>, i: int)
    requires
        0 <= i < tracks.len(),
    ensures
        CLOCK_WIDTH <= clock_width(tracks[i].time_label.seconds) <= clock_room(tracks),
{
    if tracks[i].time_label.seconds {
        assert(shows_seconds(tracks));
    }
}

/// The layout of a dashboard on a screen that it fits leaves it
/// consistent and shows a row at least. In every row that it shows the
/// clock column parts the chart into two halves of the same width, and
/// the clock, as wide as its track asks, lies within the chart.
pub proof fn lemma_laid_out_wf(app: AppView, inner: Rect)
    requires
        app.wf(),
        inner.on_grid(),
        app.fits(inner),
    ensures
        app.laid_out(inner).wf(),
        app.laid_out(inner).renderable,
        app.laid_out(inner).visible_lines >= 1,
        forall|i: int|
            0 <= i < app.laid_out(inner).visible_lines ==> (#[trigger] app.laid_out(
                inner,
            ).lines[i]).is_row_of(app.config.tracks[i], clock_room(app.config.tracks)),
{
    lemma_plan_has_room(app, inner);
    let plan = app.plan(inner);
    let after = app.laid_out(inner);
    assert forall|i: int| 0 <= i < after.visible_lines implies (#[trigger] after.lines[i]).is_row_of(
        app.config.tracks[i],
        clock_room(app.config.tracks),
    ) by {
        lemma_clock_fits_column(app.config.tracks, i);
        assert(after.lines[i] == placed_line(app.config.tracks[i], plan, i));
    }
}

/// Tells whether the columns are those of the column order.
fn columns_in_order(columns: &Vec<Rect>, area: Rect, title_width: u16) -> (yes: bool)
    requires
        area.on_grid(),
        area.width >= title_width + 3,
    ensures
        yes == (columns@ == column_order(area, title_width)),
{
    if columns.len() != 5 {
        return false;
    }
    let y: u16 = area.y;
    let height: u16 = area.height;
    let badge = Rect { x: area.x, y, width: 1, height };
    let gap = Rect { x: area.x + 1, y, width: 1, height };
    let title = Rect { x: area.x + 2, y, width: title_width, height };
    let second_gap = Rect { x: area.x + 2 + title_width, y, width: 1, height };
    let chart = Rect {
        x: area.x + 3 + title_width,
        y,
        width: area.width - 3 - title_width,
        height,
    };
    let yes: bool = columns[0] == badge && columns[1] == gap && columns[2] == title && columns[3]
        == second_gap && columns[4] == chart;
    proof {
        let order = column_order(area, title_width);
        if yes {
            assert(columns@ =~= order);
        } else {
            assert(columns@[0] != order[0] || columns@[1] != order[1] || columns@[2] != order[2]
                || columns@[3] != order[3] || columns@[4] != order[4]);
        }
    }
    yes
}

impl App {
    /// The dashboard of a valid configuration: the gaps of its tracks are
    /// filled, its tracks are in order of their offset, and nothing is
    /// laid out yet.
    pub fn new(config: Config) -> (app: App)
        requires
            config@.is_valid(),
        ensures
            app@ == AppView::initial(config@.prepared()),
            app@.wf(),
    {
        let colors = config.colors;
        proof {
            assert forall|k: int| 0 <= k < config.tracks@.len() implies (
            #[trigger] config.tracks@[k])@.is_valid() by {
                assert(config@.tracks[k] == config.tracks@[k]@);
            }
        }
        let tracks = prepare_tracks(config.tracks, &colors);
        let ghost views = track_views(tracks@);
        let mut max_title: u32 = 0;
        let mut min_title: u32 = 0;
        let mut seconds: bool = false;
        let mut lines: Vec<LineAux> = Vec::new();
        let mut i: usize = 0;
        proof {
            assert(views.take(0) =~= Seq::<TrackView>::empty());
        }
        while i < tracks.len()
            invariant
                i <= tracks@.len(),
                views == track_views(tracks@),
                forall|k: int| 0 <= k < tracks@.len() ==> (#[trigger] tracks@[k])@.is_ready(),
                max_title == widest_name(views.take(i as int)),
                min_title == widest_shortname(views.take(i as int)),
                max_title <= MAX_TITLE + TITLE_MARGIN,
                min_title <= MAX_TITLE + TITLE_MARGIN,
                seconds == shows_seconds(views.take(i as int)),
                lines@.len() == i,
                forall|k: int| 0 <= k < i ==> (#[trigger] lines@[k])@ == LineView::blank(),
            decreases tracks@.len() - i,
        {
            let track = &tracks[i];
            assert(track@.is_ready());
            let name_width: u32 = track.name.as_str().as_bytes().len() as u32 + TITLE_MARGIN;
            let short_width: u32 = track.shortname.as_str().as_bytes().len() as u32 + TITLE_MARGIN;
            proof {
                let upto = views.take(i + 1);
                assert(upto.drop_last() =~= views.take(i as int));
                assert(upto.last() == track@);
                if track.time_label.seconds {
                    assert(upto[i as int].time_label.seconds);
                } else if shows_seconds(upto) {
                    let j = choose|j: int| 0 <= j < upto.len() && (#[trigger] upto[j]).time_label.seconds;
                    assert(views.take(i as int)[j] == upto[j]);
                }
                if shows_seconds(views.take(i as int)) {
                    let j = choose|j: int|
                        0 <= j < i && (#[trigger] views.take(i as int)[j]).time_label.seconds;
                    assert(upto[j] == views.take(i as int)[j]);
                }
            }
            if name_width > max_title {
                max_title = name_width;
            }
            if short_width > min_title {
                min_title = short_width;
            }
            if track.time_label.seconds {
                seconds = true;
            }
            lines.push(LineAux::default());
            i += 1;
        }
        let clock: u16 = if seconds {
            SECONDS_CLOCK_WIDTH
        } else {
            CLOCK_WIDTH
        };
        let app = App {
            config: Config { colors, tracks },
            min_title_width: min_title,
            max_title_width: max_title,
            clock_width: clock,
            min_width: min_title + clock as u32 + ROW_FRAME,
            min_height: MIN_HEIGHT,
            lines,
            visible_lines: 0,
            seconds: 0,
            renderable: false,
        };
        proof {
            assert(views.take(tracks@.len() as int) =~= views);
            assert(app@.config.tracks == config@.prepared().tracks);
            assert(app@.lines =~= AppView::initial(config@.prepared()).lines);
            assert forall|k: int| 0 <= k < views.len() implies (#[trigger] views[k]).is_ready() by {
                assert(views[k] == tracks@[k]@);
            }
        }
        app
    }

    /// What a layout on the screen `inner` settles before it places the
    /// rows.
    pub fn plan_layout(&self, inner: Rect) -> (plan: LayoutPlan)
        requires
            self@.wf(),
            inner.on_grid(),
            self@.fits(inner),
        ensures
            plan == self@.plan(inner),
    {
        proof {
            lemma_plan_has_room(self@, inner);
        }
        let width: u16 = inner.width - 2;
        let height: u16 = inner.height - 2;
        let wide_titles: bool = width as u32 > 4 * self.max_title_width;
        let title_width: u16 = if wide_titles {
            self.max_title_width as u16
        } else {
            self.min_title_width as u16
        };
        let grown: u16 = if (width - 3 - title_width - self.clock_width) % 2 == 0 {
            width
        } else {
            width + 1
        };
        let rows: usize = if height as usize <= self.config.tracks.len() {
            height as usize
        } else {
            self.config.tracks.len()
        };
        LayoutPlan {
            area: Rect { x: inner.x, y: inner.y + 1, width: grown, height },
            title_width,
            wide_titles,
            clock_width: self.clock_width,
            rows,
        }
    }

    /// Places the rows on the screen `inner`, which the dashboard fits,
    /// given the columns that the split of the row area came back with.
    /// Where these are the columns of the column order, every row that the
    /// plan counts is placed by them. Where they are not, no row is
    /// visible. Either way nothing of an earlier layout is left.
    pub fn place_rows(&mut self, inner: Rect, columns: &Vec<Rect>)
        requires
            old(self)@.wf(),
            inner.on_grid(),
            old(self)@.fits(inner),
        ensures
            final(self)@.wf(),
            final(self)@ == if columns@ == column_order(
                old(self)@.plan(inner).area,
                old(self)@.plan(inner).title_width,
            ) {
                old(self)@.laid_out(inner)
            } else {
                old(self)@.without_rows()
            },
    {
        let plan = self.plan_layout(inner);
        proof {
            lemma_plan_has_room(self@, inner);
        }
        self.renderable = true;
        if !columns_in_order(columns, plan.area, plan.title_width) {
            self.visible_lines = 0;
            blank_from(&mut self.lines, 0);
            assert(self@.lines =~= old(self)@.blank_lines());
            return ;
        }
        let ghost tracks = self@.config.tracks;
        let mut i: usize = 0;
        while i < plan.rows
            invariant
                i <= plan.rows,
                old(self)@.wf(),
                inner.on_grid(),
                old(self)@.fits(inner),
                plan == old(self)@.plan(inner),
                columns@ == column_order(plan.area, plan.title_width),
                self.config == old(self).config,
                tracks == old(self)@.config.tracks,
                self.min_title_width == old(self).min_title_width,
                self.max_title_width == old(self).max_title_width,
                self.clock_width == old(self).clock_width,
                self.min_width == old(self).min_width,
                self.min_height == old(self).min_height,
                self.visible_lines == old(self).visible_lines,
                self.seconds == old(self).seconds,
                self.renderable,
                self.lines@.len() == old(self).lines@.len(),
                forall|k: int|
                    0 <= k < i ==> (#[trigger] self.lines@[k])@ == placed_line(tracks[k], plan, k)
                        && self.lines@[k]@.is_row_of(tracks[k], plan.clock_width as int),
            decreases plan.rows - i,
        {
            proof {
                lemma_plan_has_room(old(self)@, inner);
                assert(tracks[i as int] == self.config.tracks@[i as int]@);
                lemma_clock_fits_column(tracks, i as int);
            }
            place_line(&mut self.lines[i], &self.config.tracks[i], plan, i, columns);
            i += 1;
        }
        blank_from(&mut self.lines, plan.rows);
        self.visible_lines = plan.rows;
        proof {
            let after = self@;
            let wanted = old(self)@.laid_out(inner);
            assert(after.lines =~= wanted.lines);
            assert forall|k: int| 0 <= k < after.visible_lines implies (
            #[trigger] after.lines[k]).is_row_of(after.config.tracks[k], after.clock_width as int) by {
                assert(after.lines[k] == self.lines@[k]@);
            }
        }
    }

    /// Lays the dashboard out on the screen `inner`. On a screen narrower
    /// than the least width, or lower than the least height, the
    /// dashboard is not renderable, and nothing of an earlier layout is
    /// left. On any other screen it is renderable: the row area is split
    /// into columns, and by these the rows are placed, as `place_rows` has
    /// it.
    pub fn update_layout(&mut self, inner: Rect)
        requires
            old(self)@.wf(),
            inner.on_grid(),
        ensures
            final(self)@.wf(),
            final(self)@.renderable == old(self)@.fits(inner),
            !old(self)@.fits(inner) ==> final(self)@ == old(self)@.too_small(),
            old(self)@.fits(inner) ==> final(self)@ == old(self)@.laid_out(inner) || final(self)@
                == old(self)@.without_rows(),
            forall|i: int|
                0 <= i < final(self)@.visible_lines ==> (#[trigger] final(self)@.lines[i]).is_row_of(
                    final(self)@.config.tracks[i],
                    clock_room(final(self)@.config.tracks),
                ),
    {
        if (inner.width as u32) < self.min_width || inner.height < self.min_height {
            self.renderable = false;
            self.visible_lines = 0;
            blank_from(&mut self.lines, 0);
            assert(self@.lines =~= old(self)@.blank_lines());
            return ;
        }
        let plan = self.plan_layout(inner);
        proof {
            lemma_plan_has_room(self@, inner);
        }
        let spans = row_spans(plan.title_width);
        let columns = split_columns(plan.area, &spans);
        self.place_rows(inner, &columns);
    }

    /// Brings every visible row up to date for the instant `now`, given in
    /// seconds since the first of January 1970, 0:00 UTC.
    pub fn tick(&mut self, now: i64)
        requires
            old(self)@.wf(),
            is_instant(now as int),
        ensures
            final(self)@ == old(self)@.ticked(now as int),
            final(self)@.wf(),
            final(self)@.seconds < 60,
            forall|i: int|
                0 <= i < final(self)@.visible_lines ==> (#[trigger] final(self)@.lines[i]).is_current(
                    final(self)@.config.tracks[i],
                ),
    {
        proof {
            crate::clock::lemma_clock_of_bounds(now as int);
        }
        self.seconds = crate::clock::shifted_clock(now, 0).2;
        let ghost tracks = self@.config.tracks;
        let mut i: usize = 0;
        while i < self.visible_lines
            invariant
                i <= self.visible_lines,
                old(self)@.wf(),
                is_instant(now as int),
                self.config == old(self).config,
                tracks == old(self)@.config.tracks,
                self.min_title_width == old(self).min_title_width,
                self.max_title_width == old(self).max_title_width,
                self.clock_width == old(self).clock_width,
                self.min_width == old(self).min_width,
                self.min_height == old(self).min_height,
                self.visible_lines == old(self).visible_lines,
                self.seconds == crate::clock::clock_of(now as int).2,
                self.renderable == old(self).renderable,
                self.lines@.len() == old(self).lines@.len(),
                forall|k: int|
                    0 <= k < i ==> (#[trigger] self.lines@[k])@ == ticked_line(
                        old(self).lines@[k]@,
                        tracks[k],
                        now as int,
                    ) && self.lines@[k]@.is_current(tracks[k]),
                forall|k: int|
                    i <= k < self.lines@.len() ==> #[trigger] self.lines@[k] == old(self).lines@[k],
            decreases self.visible_lines - i,
        {
            proof {
                assert(tracks[i as int] == self.config.tracks@[i as int]@);
                assert(tracks[i as int].is_ready());
                assert(old(self)@.lines[i as int] == self.lines@[i as int]@);
                assert(old(self)@.lines[i as int].is_row_of(tracks[i as int], self.clock_width as int));
            }
            tick_line(&mut self.lines[i], &self.config.tracks[i], now);
            i += 1;
        }
        proof {
            let after = self@;
            assert(after.lines =~= old(self)@.ticked(now as int).lines);
            assert forall|k: int| 0 <= k < after.visible_lines implies (
            #[trigger] after.lines[k]).is_row_of(after.config.tracks[k], after.clock_width as int) by {
                assert(after.lines[k] == self.lines@[k]@);
                assert(old(self)@.lines[k].is_row_of(tracks[k], self.clock_width as int));
            }
        }
    }

    /// What is to be drawn at the instant `now`, given in seconds since
    /// the first of January 1970, 0:00 UTC. A dashboard that is not
    /// renderable draws nothing and stays as it is. Any other is brought
    /// up to date, and every visible row gives its picture, top to bottom.
    pub fn render(&mut self, now: i64) -> (rows: Option<Vec<RowPicture>>)
        requires
            old(self)@.wf(),
            is_instant(now as int),
        ensures
            final(self)@.wf(),
            !old(self)@.renderable ==> rows is None && final(self)@ == old(self)@,
            old(self)@.renderable ==> final(self)@ == old(self)@.ticked(now as int) && rows is Some,
            rows matches Some(pictures) ==> {
                &&& pictures@.len() == final(self)@.visible_lines
                &&& forall|i: int|
                    0 <= i < pictures@.len() ==> is_picture_of(
                        #[trigger] pictures@[i],
                        final(self)@.lines[i],
                        final(self)@.config.tracks[i],
                        final(self)@.config.colors,
                        final(self)@.seconds,
                    )
            },
    {
        if !self.renderable {
            assert(self@.lines =~= old(self)@.lines);
            return None;
        }
        self.tick(now);
        let mut pictures: Vec<RowPicture> = Vec::new();
        let mut i: usize = 0;
        while i < self.visible_lines
            invariant
                i <= self.visible_lines,
                self@.wf(),
                self.seconds < 60,
                forall|k: int|
                    0 <= k < self@.visible_lines ==> (#[trigger] self@.lines[k]).is_current(
                        self@.config.tracks[k],
                    ),
                pictures@.len() == i,
                forall|k: int|
                    0 <= k < i ==> is_picture_of(
                        #[trigger] pictures@[k],
                        self@.lines[k],
                        self@.config.tracks[k],
                        self@.config.colors,
                        self@.seconds,
                    ),
            decreases self.visible_lines - i,
        {
            proof {
                assert(self@.lines[i as int] == self.lines@[i as int]@);
                assert(self@.config.tracks[i as int] == self.config.tracks@[i as int]@);
                assert(self@.lines[i as int].is_current(self@.config.tracks[i as int]));
            }
            let row = render_row(
                self.seconds,
                &self.lines[i],
                &self.config.tracks[i],
                &self.config.colors,
            );
            pictures.push(row);
            i += 1;
        }
        Some(pictures)
    }
}

} // verus!
