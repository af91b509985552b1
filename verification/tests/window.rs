use polars_time::bounds::Bounds;
use polars_time::duration::Duration;
use polars_time::window::Window;

fn window(every: i64, period: i64, offset: i64) -> Window {
    Window::new(
        Duration::from_nsecs(every),
        Duration::from_nsecs(period),
        Duration::from_nsecs(offset),
    )
}

#[test]
fn new_keeps_its_three_durations() {
    let w = window(30, 20, 10);
    assert_eq!(w.every, Duration::from_nsecs(30));
    assert_eq!(w.period, Duration::from_nsecs(20));
    assert_eq!(w.offset, Duration::from_nsecs(10));
}

#[test]
fn windows_that_overlap_the_boundary() {
    let w = window(30, 30, 0);
    assert_eq!(
        w.get_overlapping_bounds(Bounds::new(0, 90)),
        vec![Bounds::new(0, 30), Bounds::new(30, 60), Bounds::new(60, 90)]
    );
    assert_eq!(w.estimate_overlapping_bounds(Bounds::new(0, 90)), 3);
}

#[test]
fn window_that_only_touches_the_boundary_is_left_out() {
    let w = window(30, 30, 0);
    // the windows from -30 to 0 and from 30 to 60 touch this boundary at its ends
    assert_eq!(
        w.get_overlapping_bounds(Bounds::new(0, 30)),
        vec![Bounds::new(0, 30)]
    );
    assert_eq!(
        w.get_overlapping_bounds(Bounds::new(0, 31)),
        vec![Bounds::new(0, 30), Bounds::new(30, 60)]
    );
    assert_eq!(
        w.get_overlapping_bounds(Bounds::new(-1, 30)),
        vec![Bounds::new(-30, 0), Bounds::new(0, 30)]
    );
}

#[test]
fn windows_before_zero() {
    let w = window(30, 30, 0);
    assert_eq!(
        w.get_overlapping_bounds(Bounds::new(-45, -5)),
        vec![Bounds::new(-60, -30), Bounds::new(-30, 0)]
    );
    assert_eq!(w.estimate_overlapping_bounds(Bounds::new(-45, -5)), 2);
}

#[test]
fn windows_that_leave_gaps() {
    let w = window(100, 10, 0);
    assert_eq!(w.get_overlapping_bounds(Bounds::new(50, 60)), vec![]);
    assert_eq!(w.estimate_overlapping_bounds(Bounds::new(50, 60)), 0);
    assert_eq!(
        w.get_overlapping_bounds(Bounds::new(50, 250)),
        vec![Bounds::new(100, 110), Bounds::new(200, 210)]
    );
    assert_eq!(
        w.get_overlapping_bounds(Bounds::new(5, 105)),
        vec![Bounds::new(0, 10), Bounds::new(100, 110)]
    );
}

#[test]
fn windows_that_overlap_one_another() {
    let w = window(30, 60, 0);
    assert_eq!(
        w.get_overlapping_bounds(Bounds::new(0, 90)),
        vec![
            Bounds::new(-30, 30),
            Bounds::new(0, 60),
            Bounds::new(30, 90),
            Bounds::new(60, 120),
        ]
    );
}

#[test]
fn shifted_windows_begin_at_the_offset() {
    let w = window(30, 30, 10);
    assert_eq!(
        w.get_overlapping_bounds(Bounds::new(0, 45)),
        vec![Bounds::new(-20, 10), Bounds::new(10, 40), Bounds::new(40, 70)]
    );
    let back = window(30, 30, -50);
    assert_eq!(
        back.get_overlapping_bounds(Bounds::new(0, 45)),
        vec![Bounds::new(-20, 10), Bounds::new(10, 40), Bounds::new(40, 70)]
    );
}

#[test]
fn boundary_of_one_instant() {
    let w = window(30, 30, 0);
    assert_eq!(
        w.get_overlapping_bounds(Bounds::new(15, 15)),
        vec![Bounds::new(0, 30)]
    );
    assert_eq!(w.get_overlapping_bounds(Bounds::new(0, 0)), vec![]);
}

#[test]
fn empty_boundary_has_no_windows() {
    let w = window(1, i64::MAX, 0);
    assert_eq!(
        w.get_overlapping_bounds(Bounds::new(i64::MAX, i64::MIN)),
        vec![]
    );
    assert_eq!(
        w.estimate_overlapping_bounds(Bounds::new(i64::MAX, i64::MIN)),
        0
    );
}

#[test]
fn window_is_cut_at_the_last_instant() {
    let w = window(100, 50, 0);
    assert_eq!(
        w.get_overlapping_bounds(Bounds::new(i64::MAX - 10, i64::MAX)),
        vec![Bounds::new(9223372036854775800, i64::MAX)]
    );
}

#[test]
fn window_is_cut_at_the_first_instant() {
    let w = window(100, 150, 0);
    assert_eq!(
        w.get_overlapping_bounds(Bounds::new(i64::MIN, i64::MIN + 10)),
        vec![
            Bounds::new(i64::MIN, -9223372036854775750),
            Bounds::new(-9223372036854775800, -9223372036854775650),
        ]
    );
}

#[test]
fn estimate_counts_the_windows() {
    let cases = [
        (window(30, 30, 0), Bounds::new(0, 90)),
        (window(30, 60, 7), Bounds::new(-1000, 1000)),
        (window(7, 3, -2), Bounds::new(-50, 50)),
        (window(1000, 1, 0), Bounds::new(10, 20)),
        (window(1, 1, 0), Bounds::new(5, 5)),
        (window(i64::MAX, i64::MAX, i64::MIN), Bounds::new(i64::MIN, i64::MAX)),
    ];
    for (w, boundary) in cases {
        assert_eq!(
            w.estimate_overlapping_bounds(boundary),
            w.get_overlapping_bounds(boundary).len()
        );
    }
    assert_eq!(window(7, 3, -2).estimate_overlapping_bounds(Bounds::new(-50, 50)), 15);
}

#[test]
fn windows_come_in_the_order_of_their_starts() {
    let w = window(7, 30, -2);
    let windows = w.get_overlapping_bounds(Bounds::new(-50, 50));
    assert!(windows.len() > 2);
    for pair in windows.windows(2) {
        assert_eq!(pair[0].start + 7, pair[1].start);
        assert_eq!(pair[0].stop + 7, pair[1].stop);
    }
}
