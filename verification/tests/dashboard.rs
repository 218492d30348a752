use mvtime::app::{bar, LayoutPlan};
use mvtime::config::{Color, Colors, Config, TimeLabel, TimeRange, TimeTrack};
use mvtime::geometry::Rect;
use mvtime::ui::{render_badge, render_bars, render_clock, render_title, Badge, BarCell, Title};
use mvtime::validate::validate_tracks;
use mvtime::App;

fn track(name: &str, shortname: &str, offset: (i16, i16), seconds: bool) -> TimeTrack {
    TimeTrack {
        name: name.to_string(),
        shortname: shortname.to_string(),
        offset,
        show_badge: true,
        time_label: TimeLabel { seconds, ..TimeLabel::default() },
        ranges: vec![TimeRange::new((9, 0), (17, 0), Color::Green)],
    }
}

fn dashboard(tracks: Vec<TimeTrack>) -> App {
    let config = Config { colors: Colors::default(), tracks };
    App::new(validate_tracks(config).expect("a valid configuration"))
}

fn berlin() -> App {
    dashboard(vec![track("Berlin", "BER", (1, 0), false)])
}

fn rect(x: u16, y: u16, width: u16, height: u16) -> Rect {
    Rect { x, y, width, height }
}

const NOON: i64 = 12 * 3600;

#[test]
fn a_new_dashboard_knows_its_least_screen() {
    let app = berlin();
    assert_eq!(app.max_title_width, 8);
    assert_eq!(app.min_title_width, 5);
    assert_eq!(app.clock_width, 7);
    assert_eq!(app.min_width, 19);
    assert_eq!(app.min_height, 3);
    assert_eq!(app.lines.len(), 1);
    assert_eq!(app.visible_lines, 0);
    assert!(!app.renderable);
    let app = dashboard(vec![track("Berlin", "BER", (1, 0), false), track("A", "ABCD", (0, 0), true)]);
    assert_eq!(app.max_title_width, 8);
    assert_eq!(app.min_title_width, 6);
    assert_eq!(app.clock_width, 10);
    assert_eq!(app.min_width, 23);
}

#[test]
fn a_new_dashboard_has_its_gaps_filled() {
    let app = berlin();
    assert_eq!(
        app.config.tracks[0].ranges,
        vec![
            TimeRange::new((0, 0), (9, 0), Color::DarkGray),
            TimeRange::new((9, 0), (17, 0), Color::Green),
            TimeRange::new((17, 0), (24, 0), Color::DarkGray),
        ]
    );
}

#[test]
fn tracks_come_in_order_of_their_offset() {
    let app = dashboard(vec![
        track("c", "c", (3, 0), false),
        track("a", "a", (-5, 30), false),
        track("d", "d", (3, 0), false),
        track("b", "b", (0, 45), false),
        track("e", "e", (-5, 0), false),
    ]);
    let names: Vec<&str> = app.config.tracks.iter().map(|t| t.name.as_str()).collect();
    assert_eq!(names, vec!["a", "e", "b", "c", "d"]);
}

#[test]
fn offsets_in_minutes() {
    assert_eq!(track("a", "a", (1, 0), false).offset(), 60);
    assert_eq!(track("a", "a", (5, 30), false).offset(), 330);
    assert_eq!(track("a", "a", (5, -30), false).offset(), 330);
    assert_eq!(track("a", "a", (-5, 30), false).offset(), -330);
    assert_eq!(track("a", "a", (-5, -30), false).offset(), -330);
    assert_eq!(track("a", "a", (0, 30), false).offset(), 0);
    assert_eq!(track("a", "a", (i16::MIN, i16::MIN), false).offset(), -32768 * 60 - 32768);
}

#[test]
fn local_time_is_the_time_at_the_offset() {
    assert_eq!(track("a", "a", (1, 0), false).local_time(0), (1, 0));
    assert_eq!(track("a", "a", (-5, 30), false).local_time(0), (18, 30));
    assert_eq!(track("a", "a", (0, 0), false).local_time(86399), (23, 59));
    assert_eq!(track("a", "a", (0, 0), false).local_time(-1), (23, 59));
    assert_eq!(track("a", "a", (5, 45), false).local_time(1_700_000_000), (3, 58));
    assert_eq!(track("a", "a", (23, 59), false).local_time(NOON), (11, 59));
}

#[test]
fn the_local_minute_goes_on_by_one_and_wraps_at_midnight() {
    let t = track("a", "a", (-3, 30), false);
    let mut now: i64 = 1_700_000_000;
    let (h, m) = t.local_time(now);
    let mut minute = h * 60 + m;
    for _ in 0..3000 {
        now += 60;
        let (h, m) = t.local_time(now);
        assert_eq!(h * 60 + m, (minute + 1) % 1440);
        minute = h * 60 + m;
    }
}

#[test]
fn a_screen_below_the_least_width_is_not_renderable() {
    let mut app = berlin();
    app.update_layout(rect(0, 0, 18, 24));
    assert!(!app.renderable);
    assert_eq!(app.visible_lines, 0);
    app.update_layout(rect(0, 0, 19, 24));
    assert!(app.renderable);
    assert_eq!(app.visible_lines, 1);
    app.update_layout(rect(0, 0, 19, 2));
    assert!(!app.renderable);
    app.update_layout(rect(0, 0, 19, 3));
    assert!(app.renderable);
}

#[test]
fn the_plan_of_a_layout() {
    let app = berlin();
    assert_eq!(
        app.plan_layout(rect(0, 0, 80, 24)),
        LayoutPlan {
            area: rect(0, 1, 78, 22),
            title_width: 8,
            wide_titles: true,
            clock_width: 7,
            rows: 1
        }
    );
    assert_eq!(
        app.plan_layout(rect(0, 0, 19, 3)),
        LayoutPlan {
            area: rect(0, 1, 17, 1),
            title_width: 5,
            wide_titles: false,
            clock_width: 7,
            rows: 1
        }
    );
    // 18 - 3 - 5 - 7 is odd: the row grows by a column
    assert_eq!(
        app.plan_layout(rect(4, 2, 20, 3)),
        LayoutPlan {
            area: rect(4, 3, 19, 1),
            title_width: 5,
            wide_titles: false,
            clock_width: 7,
            rows: 1
        }
    );
    // with a clock column of ten cells it is the other widths that grow
    let app = dashboard(vec![track("Berlin", "BER", (1, 0), true)]);
    assert_eq!(
        app.plan_layout(rect(0, 0, 40, 3)),
        LayoutPlan {
            area: rect(0, 1, 39, 1),
            title_width: 8,
            wide_titles: true,
            clock_width: 10,
            rows: 1
        }
    );
    assert_eq!(
        app.plan_layout(rect(0, 0, 41, 3)),
        LayoutPlan {
            area: rect(0, 1, 39, 1),
            title_width: 8,
            wide_titles: true,
            clock_width: 10,
            rows: 1
        }
    );
    // 34 - 2 is just four times the widest name: short titles still
    assert!(!app.plan_layout(rect(0, 0, 34, 3)).wide_titles);
    assert!(app.plan_layout(rect(0, 0, 35, 3)).wide_titles);
}

#[test]
fn a_layout_places_the_rows() {
    let mut app = berlin();
    app.update_layout(rect(0, 0, 80, 24));
    assert!(app.renderable);
    assert_eq!(app.visible_lines, 1);
    let line = &app.lines[0];
    assert_eq!(line.badge, rect(0, 1, 1, 1));
    assert_eq!(line.title, rect(2, 1, 8, 1));
    assert_eq!(line.chart, rect(11, 1, 67, 1));
    assert_eq!(line.clock, rect(41, 1, 7, 1));
    assert_eq!(line.bars.0.y, 1);
    assert_eq!(line.bars.1.x, 48);
    assert_eq!(line.bars.1.y, 1);
    assert_eq!(line.title_text, "Berlin");
}

#[test]
fn a_layout_on_the_least_screen() {
    let mut app = berlin();
    app.update_layout(rect(0, 0, 19, 3));
    let line = &app.lines[0];
    assert_eq!(line.badge, rect(0, 1, 1, 1));
    assert_eq!(line.title, rect(2, 1, 5, 1));
    assert_eq!(line.chart, rect(8, 1, 9, 1));
    assert_eq!(line.clock, rect(9, 1, 7, 1));
    assert_eq!(line.bars.1.x, 16);
    assert_eq!(line.title_text, "BER");
}

#[test]
fn a_layout_away_from_the_corner() {
    let mut app = berlin();
    app.update_layout(rect(4, 2, 20, 3));
    assert_eq!(app.visible_lines, 1);
    let line = &app.lines[0];
    assert_eq!(line.badge, rect(4, 3, 1, 1));
    assert_eq!(line.title, rect(6, 3, 5, 1));
    assert_eq!(line.chart, rect(12, 3, 11, 1));
    assert_eq!(line.clock, rect(14, 3, 7, 1));
}

#[test]
fn the_clock_column_halves_the_chart_on_every_screen() {
    let mut app = dashboard(vec![
        track("Berlin", "BER", (1, 0), false),
        track("New York", "NYC", (-5, 0), true),
        track("Tokyo", "TYO", (9, 0), false),
    ]);
    assert_eq!(app.min_width, 22);
    assert_eq!(app.clock_width, 10);
    for width in 22..200u16 {
        app.update_layout(rect(0, 0, width, 10));
        assert!(app.renderable);
        assert_eq!(app.visible_lines, 3);
        for (line, track) in app.lines.iter().zip(app.config.tracks.iter()) {
            let chart_end = line.chart.x + line.chart.width;
            assert_eq!((line.chart.width - 10) % 2, 0);
            assert_eq!(line.clock.x - line.chart.x, chart_end - line.clock.x - 10);
            assert_eq!(line.clock.width, if track.time_label.seconds { 10 } else { 7 });
            assert!(line.chart.x < line.clock.x);
            assert!(line.clock.x + line.clock.width < chart_end);
            assert!(chart_end <= width);
        }
    }
}

#[test]
fn a_clock_with_seconds_has_the_chart_in_equal_halves() {
    let mut app = dashboard(vec![
        track("Berlin", "BER", (1, 0), true),
        track("AB", "A", (2, 0), true),
    ]);
    assert_eq!(app.min_width, 22);
    for width in 22..200u16 {
        app.update_layout(rect(0, 0, width, 10));
        assert_eq!(app.visible_lines, 2);
        for line in app.lines.iter() {
            assert_eq!(line.clock.width, 10);
            assert_eq!((line.chart.width - line.clock.width) % 2, 0);
            assert_eq!(
                line.clock.x - line.chart.x,
                line.chart.x + line.chart.width - (line.clock.x + line.clock.width)
            );
        }
    }
}

#[test]
fn a_clock_without_seconds_has_the_chart_in_equal_halves() {
    let mut app = berlin();
    for width in 19..200u16 {
        app.update_layout(rect(0, 0, width, 3));
        let line = &app.lines[0];
        assert_eq!(line.clock.width, 7);
        assert_eq!((line.chart.width - 7) % 2, 0);
        assert_eq!(
            line.clock.x - line.chart.x,
            line.chart.x + line.chart.width - (line.clock.x + 7)
        );
    }
}

#[test]
fn a_screen_too_small_discards_the_layout() {
    let mut app = dashboard(vec![track("a", "a", (0, 0), false), track("b", "b", (1, 0), false)]);
    app.update_layout(rect(0, 0, 40, 10));
    app.tick(NOON);
    assert!(app.renderable);
    assert_eq!(app.visible_lines, 2);
    assert_eq!(app.lines[1].chart, rect(6, 2, 33, 1));
    app.update_layout(rect(0, 0, 16, 10));
    assert!(!app.renderable);
    assert_eq!(app.visible_lines, 0);
    assert_eq!(app.lines.len(), 2);
    for line in app.lines.iter() {
        assert_eq!(line.badge, rect(0, 0, 0, 0));
        assert_eq!(line.title, rect(0, 0, 0, 0));
        assert_eq!(line.chart, rect(0, 0, 0, 0));
        assert_eq!(line.clock, rect(0, 0, 0, 0));
        assert_eq!(line.bars, (rect(0, 0, 0, 0), rect(0, 0, 0, 0)));
        assert_eq!(line.title_text, "");
        assert_eq!(line.local_time, (0, 0));
        assert_eq!(line.current_range, 0);
    }
    assert_eq!(app.config.tracks.len(), 2);
    assert_eq!(app.config.tracks[0].ranges.len(), 3);
    assert_eq!(app.config.colors, Colors::default());
    assert!(app.render(NOON).is_none());
    app.update_layout(rect(0, 0, 40, 2));
    assert!(!app.renderable);
    assert_eq!(app.visible_lines, 0);
}

#[test]
fn a_layout_leaves_nothing_of_the_one_before() {
    let mut app = berlin();
    app.update_layout(rect(0, 0, 80, 24));
    app.tick(NOON + 30);
    assert_eq!(app.lines[0].bars.0, rect(25, 1, 16, 0));
    app.update_layout(rect(0, 0, 80, 24));
    let line = &app.lines[0];
    assert_eq!(line.bars, (rect(0, 1, 0, 0), rect(48, 1, 0, 0)));
    assert_eq!(line.local_time, (0, 0));
    assert_eq!(line.current_range, 0);
}

#[test]
fn rows_are_copied_and_configurations_start_empty() {
    let mut app = berlin();
    app.update_layout(rect(0, 0, 80, 24));
    app.tick(NOON);
    let copy = app.lines[0].clone();
    assert_eq!(copy.chart, app.lines[0].chart);
    assert_eq!(copy.clock, app.lines[0].clock);
    assert_eq!(copy.bars, app.lines[0].bars);
    assert_eq!(copy.title_text, "Berlin");
    assert_eq!(copy.local_time, (13, 0));
    assert_eq!(copy.current_range, 1);
    let empty = Config::default();
    assert_eq!(empty.colors, Colors::default());
    assert!(empty.tracks.is_empty());
}

#[test]
fn rows_beyond_the_screen_are_not_shown() {
    let mut app = dashboard(vec![
        track("a", "a", (0, 0), false),
        track("b", "b", (1, 0), false),
        track("c", "c", (2, 0), false),
    ]);
    app.update_layout(rect(0, 0, 40, 4));
    assert_eq!(app.visible_lines, 2);
    assert_eq!(app.lines[0].chart.y, 1);
    assert_eq!(app.lines[1].chart.y, 2);
    assert_eq!(app.lines[2].chart, rect(0, 0, 0, 0));
    app.update_layout(rect(0, 0, 40, 3));
    assert_eq!(app.visible_lines, 1);
    assert_eq!(app.lines[1].chart, rect(0, 0, 0, 0));
    app.update_layout(rect(0, 0, 40, 30));
    assert_eq!(app.visible_lines, 3);
    assert_eq!(app.lines[2].chart.y, 3);
}

#[test]
fn bar_widths() {
    assert_eq!(bar(0, 30), 1);
    assert_eq!(bar(60, 30), 1);
    assert_eq!(bar(780, 30), 16);
    assert_eq!(bar(660, 30), 14);
    assert_eq!(bar(1440, 30), 30);
    assert_eq!(bar(720, 13), 7);
    assert_eq!(bar(720, 0), 1);
    assert_eq!(bar(1440, 65535), 65535);
}

#[test]
fn a_tick_brings_the_rows_up_to_date() {
    let mut app = berlin();
    app.update_layout(rect(0, 0, 80, 24));
    app.tick(NOON + 30);
    assert_eq!(app.seconds, 30);
    let line = &app.lines[0];
    assert_eq!(line.local_time, (13, 0));
    assert_eq!(line.current_range, 1);
    assert_eq!(line.bars.0, rect(25, 1, 16, 0));
    assert_eq!(line.bars.1, rect(48, 1, 14, 0));
    app.tick(0);
    assert_eq!(app.seconds, 0);
    let line = &app.lines[0];
    assert_eq!(line.local_time, (1, 0));
    assert_eq!(line.current_range, 0);
    assert_eq!(line.bars.0, rect(40, 1, 1, 0));
    assert_eq!(line.bars.1, rect(48, 1, 29, 0));
    app.tick(16 * 3600 + 59);
    assert_eq!(app.seconds, 59);
    assert_eq!(app.lines[0].local_time, (17, 0));
    assert_eq!(app.lines[0].current_range, 2);
}

#[test]
fn a_tick_leaves_hidden_rows_alone() {
    let mut app = dashboard(vec![track("a", "a", (0, 0), false), track("b", "b", (1, 0), false)]);
    app.update_layout(rect(0, 0, 40, 3));
    app.tick(NOON);
    assert_eq!(app.lines[0].local_time, (12, 0));
    assert_eq!(app.lines[1].local_time, (0, 0));
    assert_eq!(app.lines[1].bars.0.width, 0);
}

#[test]
fn a_clock_with_seconds_on_the_narrowest_chart() {
    let mut app = dashboard(vec![track("AB", "A", (0, 0), true)]);
    assert_eq!(app.min_width, 20);
    app.update_layout(rect(0, 0, 20, 3));
    assert_eq!(app.visible_lines, 1);
    let line = &app.lines[0];
    assert_eq!(line.title_text, "AB");
    assert_eq!(line.chart, rect(7, 1, 12, 1));
    assert_eq!(line.clock, rect(8, 1, 10, 1));
    app.tick(NOON);
    let line = &app.lines[0];
    assert_eq!(line.bars.0, rect(7, 1, 1, 0));
    assert_eq!(line.bars.1, rect(18, 1, 1, 0));
}

#[test]
fn what_is_drawn_for_a_row() {
    let mut app = berlin();
    assert!(app.render(NOON).is_none());
    app.update_layout(rect(0, 0, 80, 24));
    let rows = app.render(NOON + 30).expect("a renderable dashboard");
    assert_eq!(rows.len(), 1);
    let row = &rows[0];
    assert_eq!(row.badge, Some(Badge { area: rect(0, 1, 1, 1), color: Color::Green, thick: true }));
    assert_eq!(row.title, Title { area: rect(2, 1, 8, 1), color: Color::Reset });
    assert_eq!(row.title_text, "Berlin");
    assert_eq!(row.clock.area, rect(41, 1, 7, 1));
    assert_eq!(row.clock.text.iter().collect::<String>(), " 13:00 ");
    assert_eq!((row.clock.fg, row.clock.bg), (Color::Reset, Color::Reset));
    assert!(row.clock.blink_at.is_empty());
    assert_eq!(row.bars.len(), 30);
    let xs: Vec<u16> = row.bars.iter().map(|cell| cell.x).collect();
    let wanted: Vec<u16> = (25..41).chain(48..62).collect();
    assert_eq!(xs, wanted);
    for (k, cell) in row.bars.iter().enumerate() {
        assert_eq!(cell.y, 1);
        assert_eq!(cell.notch, k == 0 || k == 29);
        // cell k stands for minute 48 k; the green range is 9:00 to 17:00
        let green = (12..=21).contains(&k);
        assert_eq!(cell.color, if green { Color::Green } else { Color::DarkGray });
    }
}

#[test]
fn a_track_without_badge_draws_none() {
    let mut quiet = track("a", "a", (0, 0), false);
    quiet.show_badge = false;
    let mut app = dashboard(vec![quiet]);
    app.update_layout(rect(0, 0, 40, 3));
    let rows = app.render(0).unwrap();
    assert_eq!(rows[0].badge, None);
}

#[test]
fn the_badge_is_thin_in_a_gap() {
    let mut app = berlin();
    app.update_layout(rect(0, 0, 80, 24));
    app.tick(0);
    let colors = app.config.colors;
    let badge = render_badge(&app.lines[0], &app.config.tracks[0], &colors);
    assert_eq!(badge, Badge { area: rect(0, 1, 1, 1), color: Color::DarkGray, thick: false });
    let title = render_title(&app.lines[0], &Colors { title: Color::Cyan, ..colors });
    assert_eq!(title, Title { area: rect(2, 1, 8, 1), color: Color::Cyan });
}

#[test]
fn the_clock_follows_the_flags_of_range_and_track() {
    let colors = Colors {
        base: Color::Gray,
        fill_fg: Color::Black,
        clock: Color::White,
        title: Color::Reset,
    };
    let mut app = berlin();
    app.update_layout(rect(0, 0, 80, 24));
    app.tick(NOON + 7);
    let line = &app.lines[0];
    let mut t = track("Berlin", "BER", (1, 0), true);
    t.ranges = vec![
        TimeRange::new((0, 0), (9, 0), Color::Gray),
        TimeRange::new((9, 0), (17, 0), Color::Green),
        TimeRange::new((17, 0), (24, 0), Color::Gray),
    ];
    let face = render_clock(7, line, &t, &colors);
    assert_eq!(face.text.iter().collect::<String>(), " 13:00:07 ");
    assert_eq!((face.fg, face.bg), (Color::White, Color::Reset));
    assert!(face.blink_at.is_empty());

    t.time_label.use_range_color = true;
    let face = render_clock(7, line, &t, &colors);
    assert_eq!((face.fg, face.bg), (Color::Green, Color::Reset));

    t.time_label.fill = true;
    let face = render_clock(7, line, &t, &colors);
    assert_eq!((face.fg, face.bg), (Color::Black, Color::Green));

    t.ranges[1].use_range_color = Some(false);
    let face = render_clock(7, line, &t, &colors);
    assert_eq!((face.fg, face.bg), (Color::Black, Color::Gray));

    t.ranges[1].fill = Some(false);
    t.ranges[1].blink = Some(true);
    let face = render_clock(7, line, &t, &colors);
    assert_eq!((face.fg, face.bg), (Color::White, Color::Reset));
    assert_eq!(face.blink_at, vec![3, 6]);

    t.time_label.seconds = false;
    let face = render_clock(7, line, &t, &colors);
    assert_eq!(face.text.iter().collect::<String>(), " 13:00 ");
    assert_eq!(face.blink_at, vec![3]);

    t.time_label.blink = true;
    t.ranges[1].blink = Some(false);
    assert!(render_clock(7, line, &t, &colors).blink_at.is_empty());
    t.ranges[1].blink = None;
    assert_eq!(render_clock(7, line, &t, &colors).blink_at, vec![3]);
}

#[test]
fn the_bars_of_a_wide_chart_end_in_the_last_range() {
    let mut line = mvtime::ui::LineAux::default();
    line.bars = (rect(0, 0, 2000, 1), rect(2010, 0, 1000, 1));
    let t = TimeTrack { ranges: vec![
        TimeRange::new((0, 0), (12, 0), Color::Red),
        TimeRange::new((12, 0), (24, 0), Color::Blue),
    ], ..track("a", "a", (0, 0), false) };
    let cells = render_bars(&line, &t);
    assert_eq!(cells.len(), 3000);
    assert_eq!(cells[0], BarCell { x: 0, y: 0, color: Color::Red, notch: true });
    // cell 1498 stands for 11:59, cell 1499 for 12:00
    assert_eq!(cells[1498], BarCell { x: 1498, y: 0, color: Color::Red, notch: false });
    assert_eq!(cells[1499], BarCell { x: 1499, y: 0, color: Color::Blue, notch: false });
    assert_eq!(cells[2000], BarCell { x: 2010, y: 0, color: Color::Blue, notch: false });
    // the cell before the last stands for 24:00, which no range holds
    assert_eq!(cells[2998], BarCell { x: 3008, y: 0, color: Color::Blue, notch: false });
    assert_eq!(cells[2999], BarCell { x: 3009, y: 0, color: Color::Blue, notch: true });
}
