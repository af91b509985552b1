use chrono::{NaiveDate, NaiveDateTime, NaiveTime};
use polars_time::bounds::Bounds;
use polars_time::duration::Duration;
use polars_time::groupby::{groupby, groupby_windows};
use polars_time::window::Window;

const SECOND: i64 = 1_000_000_000;

fn seconds(rows: &[i64]) -> Vec<i64> {
    rows.iter().map(|s| s * SECOND).collect()
}

fn every_30s() -> Window {
    Window::new(
        Duration::from_seconds(30),
        Duration::from_seconds(30),
        Duration::from_seconds(0),
    )
}

#[test]
#[allow(deprecated)]
fn test_group_tuples() {
    let dt = &[
        NaiveDateTime::new(
            NaiveDate::from_ymd(2001, 1, 1),
            NaiveTime::from_hms(1, 0, 0),
        ),
        NaiveDateTime::new(
            NaiveDate::from_ymd(2001, 1, 1),
            NaiveTime::from_hms(1, 0, 15),
        ),
        NaiveDateTime::new(
            NaiveDate::from_ymd(2001, 1, 1),
            NaiveTime::from_hms(1, 0, 30),
        ),
        NaiveDateTime::new(
            NaiveDate::from_ymd(2001, 1, 1),
            NaiveTime::from_hms(1, 0, 45),
        ),
        NaiveDateTime::new(
            NaiveDate::from_ymd(2001, 1, 1),
            NaiveTime::from_hms(1, 1, 0),
        ),
        NaiveDateTime::new(
            NaiveDate::from_ymd(2001, 1, 1),
            NaiveTime::from_hms(1, 1, 15),
        ),
        NaiveDateTime::new(
            NaiveDate::from_ymd(2001, 1, 1),
            NaiveTime::from_hms(1, 1, 30),
        ),
    ];

    let ts = dt.iter().map(|dt| dt.timestamp_nanos()).collect::<Vec<_>>();
    let window = Window::new(
        Duration::from_seconds(30),
        Duration::from_seconds(30),
        Duration::from_seconds(0),
    );
    let gt = groupby(window, &ts).into_iter().map(|g| g.1).collect::<Vec<_>>();

    let expected = &[[0, 1, 2], [2, 3, 4], [4, 5, 6]];
    assert_eq!(gt, expected);
}

#[test]
fn neighbouring_groups_share_the_row_on_their_edge() {
    let time = seconds(&[0, 15, 30, 45, 60, 75, 90]);
    let groups = groupby(every_30s(), &time);
    assert_eq!(
        groups,
        vec![
            (0, vec![0, 1, 2]),
            (2, vec![2, 3, 4]),
            (4, vec![4, 5, 6]),
        ]
    );
}

#[test]
fn no_rows_give_no_groups() {
    let none: [i64; 0] = [];
    assert_eq!(groupby(every_30s(), &none), vec![]);
    let wide = Window::new(
        Duration::from_nsecs(1),
        Duration::from_nsecs(i64::MAX),
        Duration::from_nsecs(-7),
    );
    assert_eq!(groupby(wide, &none), vec![]);
    let windows = [Bounds::new(0, 10), Bounds::new(i64::MIN, i64::MAX)];
    assert_eq!(groupby_windows(&windows, &none), vec![]);
}

#[test]
fn no_windows_give_no_groups() {
    let none: [Bounds; 0] = [];
    assert_eq!(groupby_windows(&none, &[1, 2, 3]), vec![]);
}

#[test]
fn windows_clear_of_the_rows_give_no_groups() {
    // windows of ten seconds every hundred seconds: the rows lie between two of them
    let time = seconds(&[50, 60]);
    let after = Window::new(
        Duration::from_seconds(100),
        Duration::from_seconds(10),
        Duration::from_seconds(0),
    );
    assert_eq!(groupby(after, &time), vec![]);
    let shifted = Window::new(
        Duration::from_seconds(100),
        Duration::from_seconds(10),
        Duration::from_seconds(70),
    );
    assert_eq!(groupby(shifted, &time), vec![]);
}

#[test]
fn single_row_in_a_single_window() {
    assert_eq!(
        groupby_windows(&[Bounds::new(0, 10)], &[5]),
        vec![(0, vec![0])]
    );
    assert_eq!(
        groupby(every_30s(), &seconds(&[15])),
        vec![(0, vec![0])]
    );
}

#[test]
fn window_without_rows_gets_the_row_one_past_the_end() {
    // the search finds no member and comes to rest behind the last row
    assert_eq!(
        groupby_windows(&[Bounds::new(10, 20)], &[5]),
        vec![(1, vec![1])]
    );
    assert_eq!(
        groupby_windows(&[Bounds::new(0, 3)], &[5, 6, 7]),
        vec![(3, vec![3])]
    );
    // the one window that overlaps the extent of these rows holds none of them
    let apart = Window::new(
        Duration::from_seconds(100),
        Duration::from_seconds(10),
        Duration::from_seconds(0),
    );
    assert_eq!(groupby(apart, &seconds(&[50, 150])), vec![(2, vec![2])]);
}

#[test]
fn run_that_ends_with_the_rows_gets_no_row_past_the_end() {
    assert_eq!(
        groupby_windows(&[Bounds::new(6, 9)], &[5, 6, 7]),
        vec![(1, vec![1, 2])]
    );
}

#[test]
fn search_stays_behind_the_last_row_once_it_is_there() {
    // the second window has no row; the fourth has one, which is not looked at again
    let time = seconds(&[0, 100]);
    let expected = vec![(0, vec![0]), (2, vec![2]), (2, vec![2]), (2, vec![2])];
    assert_eq!(groupby(every_30s(), &time), expected);
    let windows = [
        Bounds::new(0, 30 * SECOND),
        Bounds::new(30 * SECOND, 60 * SECOND),
        Bounds::new(60 * SECOND, 90 * SECOND),
        Bounds::new(90 * SECOND, 120 * SECOND),
    ];
    assert_eq!(groupby_windows(&windows, &time), expected);
}

#[test]
fn overlapping_windows_share_rows() {
    let time = seconds(&[0, 15, 30, 45, 60, 75, 90]);
    let window = Window::new(
        Duration::from_seconds(30),
        Duration::from_seconds(60),
        Duration::from_seconds(0),
    );
    assert_eq!(
        groupby(window, &time),
        vec![
            (0, vec![0, 1, 2]),
            (0, vec![0, 1, 2, 3, 4]),
            (2, vec![2, 3, 4, 5, 6]),
            (4, vec![4, 5, 6]),
        ]
    );
}

#[test]
fn shifted_windows() {
    let time = seconds(&[0, 15, 30, 45]);
    let window = Window::new(
        Duration::from_seconds(30),
        Duration::from_seconds(30),
        Duration::from_seconds(10),
    );
    assert_eq!(
        groupby(window, &time),
        vec![(0, vec![0]), (1, vec![1, 2]), (3, vec![3])]
    );
}

#[test]
fn next_window_may_start_at_the_same_row() {
    assert_eq!(
        groupby_windows(&[Bounds::new(0, 20), Bounds::new(5, 25)], &[10]),
        vec![(0, vec![0]), (0, vec![0])]
    );
}

#[test]
fn equal_timestamps_stay_together() {
    let time = seconds(&[0, 0, 15, 15, 30]);
    assert_eq!(groupby(every_30s(), &time), vec![(0, vec![0, 1, 2, 3, 4])]);
}

#[test]
fn unsorted_rows_are_taken_as_they_come() {
    // nothing tests the order of the rows: the run of a window ends at the first
    // row outside it, and a row that the search has passed is never looked at again
    assert_eq!(
        groupby_windows(&[Bounds::new(0, 20), Bounds::new(25, 35)], &[30, 0, 15]),
        vec![(1, vec![1, 2]), (3, vec![3])]
    );
    assert_eq!(
        groupby_windows(&[Bounds::new(0, 10)], &[5, 50, 7]),
        vec![(0, vec![0])]
    );
}

#[test]
fn same_input_gives_the_same_groups() {
    let time = seconds(&[0, 15, 30, 45, 60, 75, 90, 400]);
    let first = groupby(every_30s(), &time);
    let second = groupby(every_30s(), &time);
    assert_eq!(first, second);
    let windows = [Bounds::new(0, 30), Bounds::new(20, 50)];
    assert_eq!(
        groupby_windows(&windows, &[0, 25, 50]),
        groupby_windows(&windows, &[0, 25, 50])
    );
}

#[test]
fn anchors_never_descend() {
    let time = seconds(&[0, 15, 30, 45, 60, 75, 90, 400]);
    let window = Window::new(
        Duration::from_seconds(20),
        Duration::from_seconds(50),
        Duration::from_seconds(5),
    );
    let groups = groupby(window, &time);
    assert!(groups.len() > 2);
    for pair in groups.windows(2) {
        assert!(pair[0].0 <= pair[1].0);
    }
    assert_eq!(groups[0].0, 0);
    assert_eq!(groups[groups.len() - 1].0, 8);
}

#[test]
fn rows_of_a_group_are_members_of_its_window() {
    let time = seconds(&[0, 15, 30, 45, 60, 75, 90, 400]);
    let window = Window::new(
        Duration::from_seconds(20),
        Duration::from_seconds(50),
        Duration::from_seconds(5),
    );
    let windows = window.get_overlapping_bounds(Bounds::from(time.as_slice()));
    let groups = groupby_windows(&windows, &time);
    assert_eq!(groups.len(), windows.len());
    let mut past_the_end = 0;
    for (bi, (first, rows)) in windows.iter().zip(groups.iter()) {
        assert!(!rows.is_empty());
        assert_eq!(*first, rows[0]);
        for (j, row) in rows.iter().enumerate() {
            assert_eq!(*row as usize, *first as usize + j);
            if *row as usize == time.len() {
                past_the_end += 1;
                assert_eq!(rows.len(), 1);
            } else {
                assert!(bi.is_member(time[*row as usize]));
            }
        }
    }
    assert!(past_the_end > 0);
}

#[test]
fn no_group_is_empty() {
    let time = seconds(&[0, 100, 300]);
    let window = Window::new(
        Duration::from_seconds(40),
        Duration::from_seconds(10),
        Duration::from_seconds(0),
    );
    let groups = groupby(window, &time);
    assert_eq!(groups.len(), 8);
    for (_, rows) in &groups {
        assert!(!rows.is_empty());
    }
}

#[test]
fn windows_apart_collect_each_row_at_most_once() {
    let time = seconds(&[1, 2, 3, 41, 42, 43, 44, 85, 121, 125, 126]);
    let window = Window::new(
        Duration::from_seconds(40),
        Duration::from_seconds(10),
        Duration::from_seconds(0),
    );
    let windows = window.get_overlapping_bounds(Bounds::from(time.as_slice()));
    let groups = groupby_windows(&windows, &time);
    assert_eq!(
        groups,
        vec![
            (0, vec![0, 1, 2]),
            (3, vec![3, 4, 5, 6]),
            (7, vec![7]),
            (8, vec![8, 9, 10]),
        ]
    );
    let collected: usize = groups.iter().map(|g| g.1.len()).sum();
    assert!(collected <= time.len() + windows.len());
}

#[test]
fn group_holds_all_rows_of_its_window() {
    // sorted rows, windows in the order of their starts: a group that begins at a
    // row is the rows of its window, all of them
    let time = seconds(&[0, 1, 1, 14, 15, 29, 30, 31, 59, 60, 61, 88, 89, 90]);
    let window = Window::new(
        Duration::from_seconds(15),
        Duration::from_seconds(45),
        Duration::from_seconds(-5),
    );
    let windows = window.get_overlapping_bounds(Bounds::from(time.as_slice()));
    let groups = groupby_windows(&windows, &time);
    assert_eq!(groups.len(), windows.len());
    assert_eq!(groups, groupby(window, &time));
    for (bi, (first, rows)) in windows.iter().zip(groups.iter()) {
        assert!((*first as usize) < time.len());
        let members: Vec<u32> = (0..time.len() as u32)
            .filter(|row| bi.is_member(time[*row as usize]))
            .collect();
        assert_eq!(*rows, members);
    }
}

#[test]
fn groups_are_what_a_search_row_by_row_gives() {
    let mut seed: u64 = 0x2545_f491_4f6c_dd1d;
    let mut next = |below: u64| {
        seed = seed
            .wrapping_mul(6364136223846793005)
            .wrapping_add(1442695040888963407);
        (seed >> 33) % below
    };
    for _ in 0..300 {
        let rows = next(12) as usize;
        let time: Vec<i64> = (0..rows).map(|_| next(40) as i64 - 5).collect();
        let count = next(6) as usize;
        let windows: Vec<Bounds> = (0..count)
            .map(|_| {
                let start = next(40) as i64 - 5;
                Bounds::new(start, start + next(15) as i64 - 2)
            })
            .collect();

        let mut expected: Vec<(u32, Vec<u32>)> = Vec::new();
        let mut cursor = 0;
        if !time.is_empty() {
            for bi in &windows {
                let start = (cursor..time.len())
                    .find(|row| bi.is_member(time[*row]))
                    .unwrap_or(time.len());
                let group: Vec<u32> = if start == time.len() {
                    vec![start as u32]
                } else {
                    (start..time.len())
                        .take_while(|row| bi.is_member(time[*row]))
                        .map(|row| row as u32)
                        .collect()
                };
                expected.push((group[0], group));
                cursor = start;
            }
        }
        assert_eq!(groupby_windows(&windows, &time), expected);
    }
}

#[test]
fn cursor_moves_no_further_than_the_rows() {
    // the anchors are the rows on which the cursor came to rest, window after window
    let time = seconds(&[0, 15, 30, 45, 60, 75, 90, 400]);
    let window = Window::new(
        Duration::from_seconds(7),
        Duration::from_seconds(20),
        Duration::from_seconds(3),
    );
    let groups = groupby(window, &time);
    assert!(groups.len() > time.len());
    let mut cursor = 0;
    let mut moved = 0;
    for (first, _) in &groups {
        assert!(*first >= cursor);
        moved += *first - cursor;
        cursor = *first;
    }
    assert!(moved as usize <= time.len());
}
