use mvtime::config::{Color, Colors, Config, TimeLabel, TimeRange, TimeTrack};
use mvtime::validate::{sort_ranges, validate_tracks, ConfigError};

fn track(name: &str, shortname: &str, offset: (i16, i16), ranges: Vec<TimeRange>) -> TimeTrack {
    TimeTrack {
        name: name.to_string(),
        shortname: shortname.to_string(),
        offset,
        show_badge: false,
        time_label: TimeLabel::default(),
        ranges,
    }
}

fn config(tracks: Vec<TimeTrack>) -> Config {
    Config { colors: Colors::default(), tracks }
}

fn range(start: (u16, u16), end: (u16, u16)) -> TimeRange {
    TimeRange::new(start, end, Color::Green)
}

#[test]
fn a_configuration_without_tracks_is_turned_down() {
    assert_eq!(validate_tracks(config(vec![])).unwrap_err(), ConfigError::NoTracks);
}

#[test]
fn a_track_without_any_title_is_turned_down() {
    let given = config(vec![track("a", "a", (0, 0), vec![]), track("", "", (0, 0), vec![])]);
    assert_eq!(validate_tracks(given).unwrap_err(), ConfigError::UntitledTrack { track: 1 });
}

#[test]
fn a_title_beyond_any_line_is_turned_down() {
    let long = "x".repeat(65536);
    let given = config(vec![track(&long, "x", (0, 0), vec![])]);
    assert_eq!(validate_tracks(given).unwrap_err(), ConfigError::NameTooLong { track: 0 });
    let longest = "x".repeat(65535);
    let given = config(vec![track("x", &longest, (0, 0), vec![])]);
    assert!(validate_tracks(given).is_ok());
}

#[test]
fn an_offset_out_of_bounds_is_turned_down() {
    for offset in [(24, 0), (-24, 0), (0, 60), (0, -60), (i16::MIN, 0), (0, i16::MIN)] {
        let given = config(vec![track("a", "a", offset, vec![])]);
        assert_eq!(validate_tracks(given).unwrap_err(), ConfigError::OffsetBounds { track: 0 });
    }
    for offset in [(23, 59), (-23, -59), (-23, 59), (0, 0)] {
        let given = config(vec![track("a", "a", offset, vec![])]);
        assert!(validate_tracks(given).is_ok());
    }
}

#[test]
fn a_range_that_is_no_stretch_of_the_day_is_turned_down() {
    for bad in [
        range((25, 0), (26, 0)),
        range((0, 0), (25, 0)),
        range((0, 60), (1, 0)),
        range((0, 0), (1, 60)),
        range((23, 0), (24, 30)),
        range((24, 1), (24, 2)),
    ] {
        let given = config(vec![track("a", "a", (0, 0), vec![range((1, 0), (2, 0)), bad])]);
        assert_eq!(
            validate_tracks(given).unwrap_err(),
            ConfigError::RangeBounds { track: 0, range: 1 }
        );
    }
}

#[test]
fn bounds_are_looked_at_before_order() {
    let given = config(vec![track(
        "a",
        "a",
        (0, 0),
        vec![range((3, 0), (2, 0)), range((0, 0), (25, 0))],
    )]);
    assert_eq!(validate_tracks(given).unwrap_err(), ConfigError::RangeBounds { track: 0, range: 1 });
}

#[test]
fn a_range_that_does_not_start_before_it_ends_is_turned_down() {
    for bad in [range((2, 0), (2, 0)), range((3, 0), (2, 59)), range((24, 0), (24, 0))] {
        let given = config(vec![track("a", "a", (0, 0), vec![range((0, 0), (1, 0)), bad])]);
        assert_eq!(
            validate_tracks(given).unwrap_err(),
            ConfigError::RangeOrdering { track: 0, range: 1 }
        );
    }
}

#[test]
fn overlapping_ranges_are_turned_down() {
    let given = config(vec![track(
        "a",
        "a",
        (0, 0),
        vec![range((0, 0), (12, 0)), range((11, 0), (24, 0))],
    )]);
    assert_eq!(
        validate_tracks(given).unwrap_err(),
        ConfigError::RangeOverlap { track: 0, range: 1 }
    );
}

#[test]
fn overlaps_are_looked_for_in_order_of_start() {
    let given = config(vec![
        track("ok", "ok", (0, 0), vec![range((12, 0), (13, 0)), range((1, 0), (2, 0))]),
        track(
            "bad",
            "bad",
            (0, 0),
            vec![range((20, 0), (21, 0)), range((5, 0), (8, 0)), range((7, 59), (9, 0))],
        ),
    ]);
    assert_eq!(
        validate_tracks(given).unwrap_err(),
        ConfigError::RangeOverlap { track: 1, range: 1 }
    );
}

#[test]
fn ranges_that_touch_do_not_overlap() {
    let given = config(vec![track(
        "a",
        "a",
        (0, 0),
        vec![range((12, 0), (24, 0)), range((0, 0), (12, 0))],
    )]);
    let valid = validate_tracks(given).unwrap();
    assert_eq!(valid.tracks[0].ranges, vec![range((0, 0), (12, 0)), range((12, 0), (24, 0))]);
}

#[test]
fn the_first_faulty_track_is_reported() {
    let given = config(vec![
        track("a", "a", (0, 0), vec![]),
        track("b", "b", (30, 0), vec![]),
        track("", "", (0, 0), vec![]),
    ]);
    assert_eq!(validate_tracks(given).unwrap_err(), ConfigError::OffsetBounds { track: 1 });
}

#[test]
fn a_missing_title_is_taken_from_the_other() {
    let given = config(vec![
        track("Berlin", "", (1, 0), vec![]),
        track("", "NYC", (-5, 0), vec![]),
        track("Tokyo", "TYO", (9, 0), vec![]),
    ]);
    let valid = validate_tracks(given).unwrap();
    let titles: Vec<(&str, &str)> =
        valid.tracks.iter().map(|t| (t.name.as_str(), t.shortname.as_str())).collect();
    assert_eq!(titles, vec![("Berlin", "Berlin"), ("NYC", "NYC"), ("Tokyo", "TYO")]);
    assert_eq!(valid.tracks[0].offset, (1, 0));
    assert_eq!(valid.tracks[1].offset, (-5, 0));
}

#[test]
fn validation_sorts_the_ranges_and_fills_no_gap() {
    let mut late = range((18, 0), (20, 0));
    late.blink = Some(true);
    let given = config(vec![track(
        "a",
        "a",
        (0, 0),
        vec![late, range((9, 0), (17, 0)), range((0, 30), (1, 0))],
    )]);
    let valid = validate_tracks(given).unwrap();
    assert_eq!(
        valid.tracks[0].ranges,
        vec![range((0, 30), (1, 0)), range((9, 0), (17, 0)), late]
    );
}

#[test]
fn sorting_keeps_the_order_of_ranges_that_start_together() {
    let a = TimeRange::new((5, 0), (6, 0), Color::Red);
    let b = TimeRange::new((5, 0), (7, 0), Color::Green);
    let c = TimeRange::new((1, 0), (2, 0), Color::Blue);
    let d = TimeRange::new((5, 0), (8, 0), Color::Yellow);
    assert_eq!(sort_ranges(&vec![a, b, c, d]), vec![c, a, b, d]);
    assert_eq!(sort_ranges(&vec![d, c, b, a]), vec![c, d, b, a]);
    assert_eq!(sort_ranges(&vec![]), vec![]);
}

#[test]
fn defaults_of_the_palette_and_the_label() {
    let colors = Colors::default();
    assert_eq!(colors.base, Color::DarkGray);
    assert_eq!(colors.fill_fg, Color::Black);
    assert_eq!(colors.clock, Color::Reset);
    assert_eq!(colors.title, Color::Reset);
    let label = TimeLabel::default();
    assert!(!label.seconds && !label.blink && !label.fill && !label.use_range_color);
}
