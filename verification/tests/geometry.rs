use mvtime::app::{find_active, row_spans};
use mvtime::config::{Color, TimeRange};
use mvtime::geometry::{Rect, Span};

fn rect(x: u16, y: u16, width: u16, height: u16) -> Rect {
    Rect { x, y, width, height }
}

#[test]
fn edges_of_a_rectangle() {
    assert_eq!(Rect::default(), rect(0, 0, 0, 0));
    assert_eq!(rect(3, 4, 10, 2).left(), 3);
    assert_eq!(rect(3, 4, 10, 2).right(), 13);
    assert_eq!(rect(65535, 0, 0, 0).right(), 65535);
    assert_eq!(rect(65530, 0, 10, 0).right(), 65535);
}

#[test]
fn what_two_rectangles_share() {
    assert_eq!(rect(0, 0, 10, 10).intersection(rect(5, 5, 10, 10)), rect(5, 5, 5, 5));
    assert_eq!(rect(5, 5, 10, 10).intersection(rect(0, 0, 10, 10)), rect(5, 5, 5, 5));
    assert_eq!(rect(0, 3, 80, 1).intersection(rect(11, 1, 67, 22)), rect(11, 3, 67, 1));
    assert_eq!(rect(0, 0, 4, 4).intersection(rect(4, 0, 4, 4)), rect(4, 0, 0, 4));
    assert_eq!(rect(1, 1, 2, 2).intersection(rect(0, 0, 10, 10)), rect(1, 1, 2, 2));
}

#[test]
fn what_is_asked_of_the_split() {
    assert_eq!(
        row_spans(8),
        vec![Span::Length(1), Span::Length(1), Span::Length(8), Span::Length(1), Span::Min(0)]
    );
}

#[test]
fn the_range_of_a_minute_in_a_partition() {
    let ranges = vec![
        TimeRange::new((0, 0), (9, 0), Color::DarkGray),
        TimeRange::new((9, 0), (17, 0), Color::Green),
        TimeRange::new((17, 0), (24, 0), Color::DarkGray),
    ];
    assert_eq!(find_active(&ranges, 0), 0);
    assert_eq!(find_active(&ranges, 539), 0);
    assert_eq!(find_active(&ranges, 540), 1);
    assert_eq!(find_active(&ranges, 1019), 1);
    assert_eq!(find_active(&ranges, 1020), 2);
    assert_eq!(find_active(&ranges, 1439), 2);
}
