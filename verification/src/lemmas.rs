//! What holds of the groups that `groupby` and `groupby_windows` return.
//!
//! The lemmas speak of `window_groups(windows, time)`, the groups of any
//! windows. For the groups of `groupby`, take as `windows` the windows that
//! overlap the extent of the timestamps,
//! `window.overlapping_bounds(Bounds::spanning(time))`.

use crate::bounds::{starts_ascend, Bounds};
use crate::groupby::{
    cursor_at, first_member, grouping, run_end, sorted, window_group, window_groups,
    GroupTuples,
};
use crate::window::Window;
use vstd::prelude::*;

verus! {

// The search and the run

/// `first_member` is the least row at or after `from` whose timestamp is a
/// member of `bi`, and `time.len()` exactly when there is none.
pub proof fn lemma_first_member(bi: Bounds, time: Seq<i64>, from: nat)
    requires
        from <= time.len(),
    ensures
        from <= first_member(bi, time, from) <= time.len(),
        first_member(bi, time, from) < time.len() ==> bi.is_member(
            time[first_member(bi, time, from) as int],
        ),
        forall|j: int| from <= j < first_member(bi, time, from) ==> !bi.is_member(#[trigger] time[j]),
    decreases time.len() - from,
{
    if from < time.len() && !bi.is_member(time[from as int]) {
        lemma_first_member(bi, time, from + 1);
    }
}

/// `run_end` closes the longest unbroken run of members that begins at
/// `from`: every row from `from` up to it is a member, and it is not.
pub proof fn lemma_run_end(bi: Bounds, time: Seq<i64>, from: nat)
    requires
        from <= time.len(),
    ensures
        from <= run_end(bi, time, from) <= time.len(),
        forall|j: int| from <= j < run_end(bi, time, from) ==> bi.is_member(#[trigger] time[j]),
        run_end(bi, time, from) < time.len() ==> !bi.is_member(
            time[run_end(bi, time, from) as int],
        ),
    decreases time.len() - from,
{
    if from < time.len() && bi.is_member(time[from as int]) {
        lemma_run_end(bi, time, from + 1);
    }
}

/// The cursor only moves forward, and never beyond the row one past the end.
pub proof fn lemma_cursor_moves_forward(windows: Seq<Bounds>, time: Seq<i64>, i: nat, j: nat)
    requires
        i <= j,
    ensures
        cursor_at(windows, time, i) <= cursor_at(windows, time, j) <= time.len(),
    decreases j,
{
    if j > 0 {
        let before = (j - 1) as nat;
        if i < j {
            lemma_cursor_moves_forward(windows, time, i, before);
        } else {
            lemma_cursor_moves_forward(windows, time, before, before);
        }
        lemma_first_member(windows[j - 1], time, cursor_at(windows, time, before));
    }
}

/// The group of a window begins at the first member found and holds the rows
/// that follow it one by one. Either all of them are rows of `time` and
/// members of the window, or the search found no member and the group is the
/// single row one past the end.
pub proof fn lemma_window_group(bi: Bounds, time: Seq<i64>, cursor: nat)
    requires
        cursor <= time.len() <= u32::MAX,
    ensures
        window_group(bi, time, cursor).len() > 0,
        window_group(bi, time, cursor)[0] == first_member(bi, time, cursor),
        forall|j: int|
            0 <= j < window_group(bi, time, cursor).len() ==> #[trigger] window_group(
                bi,
                time,
                cursor,
            )[j] == first_member(bi, time, cursor) + j,
        first_member(bi, time, cursor) < time.len() ==> forall|j: int|
            0 <= j < window_group(bi, time, cursor).len() ==> {
                &&& #[trigger] window_group(bi, time, cursor)[j] < time.len()
                &&& bi.is_member(time[window_group(bi, time, cursor)[j] as int])
            },
        first_member(bi, time, cursor) == time.len() ==> window_group(bi, time, cursor)
            == seq![time.len() as u32],
{
    let start = first_member(bi, time, cursor);
    lemma_first_member(bi, time, cursor);
    if start < time.len() {
        lemma_run_end(bi, time, start);
        assert(run_end(bi, time, start) == run_end(bi, time, start + 1));
        lemma_run_end(bi, time, start + 1);
    }
}

// The shape of the groups

/// Without rows there are no groups. With rows every window has its group, in
/// the order of the windows, also a window none of whose members the search
/// finds.
pub proof fn lemma_one_group_per_window(windows: Seq<Bounds>, time: Seq<i64>)
    ensures
        time.len() == 0 ==> window_groups(windows, time).len() == 0,
        time.len() > 0 ==> window_groups(windows, time).len() == windows.len(),
{
}

/// No group is empty, and the anchor of a group is its first row.
pub proof fn lemma_groups_nonempty(windows: Seq<Bounds>, time: Seq<i64>, k: int)
    requires
        time.len() <= u32::MAX,
        0 <= k < window_groups(windows, time).len(),
    ensures
        window_groups(windows, time)[k].1.len() > 0,
        window_groups(windows, time)[k].0 == window_groups(windows, time)[k].1[0],
{
    lemma_cursor_moves_forward(windows, time, k as nat, k as nat);
    lemma_window_group(windows[k], time, cursor_at(windows, time, k as nat));
}

/// The rows of a group follow one another without a gap.
pub proof fn lemma_rows_contiguous(windows: Seq<Bounds>, time: Seq<i64>, k: int, j: int)
    requires
        time.len() <= u32::MAX,
        0 <= k < window_groups(windows, time).len(),
        0 <= j < window_groups(windows, time)[k].1.len(),
    ensures
        window_groups(windows, time)[k].1[j] == window_groups(windows, time)[k].0 + j,
{
    lemma_cursor_moves_forward(windows, time, k as nat, k as nat);
    lemma_window_group(windows[k], time, cursor_at(windows, time, k as nat));
}

/// The anchors never descend from one group to a later one.
pub proof fn lemma_anchors_ascend(windows: Seq<Bounds>, time: Seq<i64>, i: int, j: int)
    requires
        time.len() <= u32::MAX,
        0 <= i <= j < window_groups(windows, time).len(),
    ensures
        window_groups(windows, time)[i].0 <= window_groups(windows, time)[j].0,
{
    lemma_cursor_moves_forward(windows, time, i as nat, i as nat);
    lemma_cursor_moves_forward(windows, time, j as nat, j as nat);
    lemma_window_group(windows[i], time, cursor_at(windows, time, i as nat));
    lemma_window_group(windows[j], time, cursor_at(windows, time, j as nat));
    lemma_cursor_moves_forward(windows, time, (i + 1) as nat, (j + 1) as nat);
}

// The rows of a group and the members of its window

/// Every row of a group is a row of `time` whose timestamp is a member of the
/// group's window; the one exception is a group that holds nothing but the
/// row one past the end.
pub proof fn lemma_members_belong(windows: Seq<Bounds>, time: Seq<i64>, k: int, j: int)
    requires
        time.len() <= u32::MAX,
        0 <= k < window_groups(windows, time).len(),
        0 <= j < window_groups(windows, time)[k].1.len(),
    ensures
        window_groups(windows, time)[k].1 == seq![time.len() as u32] || {
            &&& window_groups(windows, time)[k].1[j] < time.len()
            &&& windows[k].is_member(time[window_groups(windows, time)[k].1[j] as int])
        },
{
    lemma_cursor_moves_forward(windows, time, k as nat, k as nat);
    lemma_window_group(windows[k], time, cursor_at(windows, time, k as nat));
}

/// A group is the row one past the end exactly when no row from the cursor on
/// is a member of its window.
pub proof fn lemma_unmatched_window(windows: Seq<Bounds>, time: Seq<i64>, k: int)
    requires
        time.len() <= u32::MAX,
        0 <= k < window_groups(windows, time).len(),
    ensures
        window_groups(windows, time)[k].1 == seq![time.len() as u32] <==> forall|i: int|
            cursor_at(windows, time, k as nat) <= i < time.len() ==> !windows[k].is_member(
                #[trigger] time[i],
            ),
{
    let cursor = cursor_at(windows, time, k as nat);
    lemma_cursor_moves_forward(windows, time, k as nat, k as nat);
    lemma_window_group(windows[k], time, cursor);
    lemma_first_member(windows[k], time, cursor);
    let start = first_member(windows[k], time, cursor);
    if start < time.len() {
        assert(windows[k].is_member(time[start as int]));
        assert(window_groups(windows, time)[k].1[0] == start);
        assert(seq![time.len() as u32][0] == time.len());
    }
}

/// Once the cursor has run past the last row, it stays there: every later
/// window gets the row one past the end and nothing else, whatever rows are
/// members of it.
pub proof fn lemma_after_unmatched_window(windows: Seq<Bounds>, time: Seq<i64>, i: int, j: int)
    requires
        time.len() <= u32::MAX,
        0 <= i <= j < window_groups(windows, time).len(),
        window_groups(windows, time)[i].0 == time.len(),
    ensures
        window_groups(windows, time)[j].1 == seq![time.len() as u32],
{
    lemma_cursor_moves_forward(windows, time, i as nat, i as nat);
    lemma_cursor_moves_forward(windows, time, j as nat, j as nat);
    lemma_window_group(windows[i], time, cursor_at(windows, time, i as nat));
    lemma_window_group(windows[j], time, cursor_at(windows, time, j as nat));
    lemma_cursor_moves_forward(windows, time, (i + 1) as nat, (j + 1) as nat);
}

/// On sorted timestamps and windows in the order of their starts, as long as
/// the cursor rests on a row of `time`, every row that it has passed lies
/// before the start of the window that the search has reached.
pub proof fn lemma_passed_rows_lie_before(windows: Seq<Bounds>, time: Seq<i64>, k: nat, i: int)
    requires
        sorted(time),
        starts_ascend(windows),
        k < windows.len(),
        cursor_at(windows, time, k) < time.len(),
        0 <= i < cursor_at(windows, time, k),
    ensures
        time[i] < windows[k as int].start,
    decreases k,
{
    if k > 0 {
        let before = (k - 1) as nat;
        let cursor = cursor_at(windows, time, before);
        lemma_cursor_moves_forward(windows, time, before, k);
        lemma_first_member(windows[before as int], time, cursor);
        if i < cursor {
            lemma_passed_rows_lie_before(windows, time, before, i);
        } else {
            assert(!windows[before as int].is_member(time[i]));
            assert(time[i] <= time[cursor_at(windows, time, k) as int]);
        }
    }
}

/// On sorted timestamps and windows in the order of their starts, a group
/// that begins at a row of `time` holds every row whose timestamp is a member
/// of its window, and no other row.
pub proof fn lemma_group_is_whole_window(windows: Seq<Bounds>, time: Seq<i64>, k: int, i: int)
    requires
        sorted(time),
        starts_ascend(windows),
        time.len() <= u32::MAX,
        0 <= k < window_groups(windows, time).len(),
        window_groups(windows, time)[k].0 < time.len(),
        0 <= i < time.len(),
    ensures
        windows[k].is_member(time[i]) <==> window_groups(windows, time)[k].0 <= i
            < window_groups(windows, time)[k].0 + window_groups(windows, time)[k].1.len(),
{
    let cursor = cursor_at(windows, time, k as nat);
    let start = first_member(windows[k], time, cursor);
    let end = run_end(windows[k], time, start);
    lemma_cursor_moves_forward(windows, time, k as nat, k as nat);
    lemma_window_group(windows[k], time, cursor);
    lemma_first_member(windows[k], time, cursor);
    lemma_run_end(windows[k], time, start);
    if i < cursor {
        lemma_passed_rows_lie_before(windows, time, k as nat, i);
    } else if i < start {
        assert(!windows[k].is_member(time[i]));
    } else if i < end {
        assert(windows[k].is_member(time[i]));
    } else {
        assert(time[start as int] <= time[end as int] <= time[i]);
    }
}

/// Whether no row of `time` is a member of `bi`.
pub open spec fn has_no_row(bi: Bounds, time: Seq<i64>) -> bool {
    forall|i: int| 0 <= i < time.len() ==> !bi.is_member(#[trigger] time[i])
}

/// On sorted timestamps and windows in the order of their starts, a group is
/// the row one past the end exactly when its window, or a window before it,
/// has no row at all.
pub proof fn lemma_end_marker_on_sorted_rows(windows: Seq<Bounds>, time: Seq<i64>, k: int)
    requires
        sorted(time),
        starts_ascend(windows),
        time.len() <= u32::MAX,
        0 <= k < window_groups(windows, time).len(),
    ensures
        window_groups(windows, time)[k].1 == seq![time.len() as u32] <==> exists|j: int|
            0 <= j <= k && has_no_row(#[trigger] windows[j], time),
    decreases k,
{
    let groups = window_groups(windows, time);
    let cursor = cursor_at(windows, time, k as nat);
    lemma_cursor_moves_forward(windows, time, k as nat, k as nat);
    lemma_window_group(windows[k], time, cursor);
    lemma_unmatched_window(windows, time, k);
    if groups[k].0 == time.len() {
        if k > 0 && groups[k - 1].0 == time.len() {
            lemma_end_marker_on_sorted_rows(windows, time, k - 1);
            lemma_cursor_moves_forward(windows, time, (k - 1) as nat, (k - 1) as nat);
            lemma_window_group(windows[k - 1], time, cursor_at(windows, time, (k - 1) as nat));
        } else {
            if k > 0 {
                lemma_cursor_moves_forward(windows, time, (k - 1) as nat, (k - 1) as nat);
                lemma_window_group(windows[k - 1], time, cursor_at(windows, time, (k - 1) as nat));
            }
            assert forall|i: int| 0 <= i < time.len() implies !windows[k].is_member(
                #[trigger] time[i],
            ) by {
                if i < cursor {
                    lemma_passed_rows_lie_before(windows, time, k as nat, i);
                }
            }
            assert(has_no_row(windows[k], time));
        }
    } else {
        assert forall|j: int| 0 <= j <= k implies !has_no_row(#[trigger] windows[j], time) by {
            lemma_anchors_ascend(windows, time, j, k);
            lemma_cursor_moves_forward(windows, time, j as nat, j as nat);
            lemma_window_group(windows[j], time, cursor_at(windows, time, j as nat));
            lemma_first_member(windows[j], time, cursor_at(windows, time, j as nat));
            assert(windows[j].is_member(time[groups[j].0 as int]));
        }
        assert(groups[k].1[0] == groups[k].0);
        assert(seq![time.len() as u32][0] == time.len());
    }
}

/// On sorted timestamps, a group of `groupby` that begins at a row of `time`
/// holds every row whose timestamp lies in its window, from the window's
/// first instant to its last, and no other row.
pub proof fn lemma_groupby_collects_window(window: Window, time: Seq<i64>, k: int, i: int)
    requires
        window.wf(),
        sorted(time),
        time.len() <= u32::MAX,
        0 <= k < grouping(window, time).len(),
        grouping(window, time)[k].0 < time.len(),
        0 <= i < time.len(),
    ensures
        ({
            let number = window.first_overlapping(Bounds::spanning(time)) + k;
            let (anchor, rows) = grouping(window, time)[k];
            window.start_of(number) <= time[i] <= window.stop_of(number) <==> anchor <= i < anchor
                + rows.len()
        }),
{
    let boundary = Bounds::spanning(time);
    let number = window.first_overlapping(boundary) + k;
    let windows = window.overlapping_bounds(boundary);
    window.lemma_overlapping_starts_ascend(boundary);
    window.lemma_overlapping_bounds(number, boundary);
    window.lemma_bounds_at_members(number, boundary, time[i]);
    lemma_group_is_whole_window(windows, time, k, i);
}

// The length of the pass

/// How many rows the search for the first rows of the first `n` windows looks
/// at: for each window the rows from where the cursor stands up to the first
/// member, that member included.
pub open spec fn rows_searched(windows: Seq<Bounds>, time: Seq<i64>, n: nat) -> nat
    decreases n,
{
    if n == 0 {
        0
    } else {
        let cursor = cursor_at(windows, time, (n - 1) as nat);
        let start = cursor_at(windows, time, n);
        let found: nat = if start < time.len() {
            1
        } else {
            0
        };
        rows_searched(windows, time, (n - 1) as nat) + (start - cursor) as nat + found
    }
}

/// How many rows the groups hold together.
pub open spec fn rows_in(groups: Seq<(u32, Seq<u32>)>) -> nat
    decreases groups.len(),
{
    if groups.len() == 0 {
        0
    } else {
        rows_in(groups.drop_last()) + groups.last().1.len()
    }
}

/// No row of `time` is a member of two windows that follow one another.
pub open spec fn neighbours_share_no_row(windows: Seq<Bounds>, time: Seq<i64>) -> bool {
    forall|k: int, i: int|
        0 < k < windows.len() && 0 <= i < time.len() && #[trigger] windows[k].is_member(time[i])
            ==> !windows[k - 1].is_member(time[i])
}

/// The search looks at no more rows than there are rows and windows: it
/// passes every row once, and looks once more, for each window, at the row on
/// which it rests.
pub proof fn lemma_search_is_linear(windows: Seq<Bounds>, time: Seq<i64>, n: nat)
    ensures
        rows_searched(windows, time, n) <= cursor_at(windows, time, n) + n <= time.len() + n,
    decreases n,
{
    lemma_cursor_moves_forward(windows, time, n, n);
    if n > 0 {
        lemma_search_is_linear(windows, time, (n - 1) as nat);
        lemma_cursor_moves_forward(windows, time, (n - 1) as nat, n);
    }
}

/// Where the run of the window before `n` ends: the search for window `n`
/// comes to rest there or later.
spec fn collected_up_to(windows: Seq<Bounds>, time: Seq<i64>, n: nat) -> nat {
    if n == 0 {
        0
    } else if cursor_at(windows, time, n) < time.len() {
        run_end(windows[n - 1], time, cursor_at(windows, time, n))
    } else {
        time.len()
    }
}

proof fn lemma_rows_collected(windows: Seq<Bounds>, time: Seq<i64>, n: nat)
    requires
        0 < time.len() <= u32::MAX,
        neighbours_share_no_row(windows, time),
        n <= windows.len(),
    ensures
        rows_in(window_groups(windows, time).take(n as int)) <= collected_up_to(windows, time, n)
            + n,
        collected_up_to(windows, time, n) <= time.len(),
        n < windows.len() ==> collected_up_to(windows, time, n) <= cursor_at(
            windows,
            time,
            n + 1,
        ),
    decreases n,
{
    let cursor = cursor_at(windows, time, n);
    let groups = window_groups(windows, time);
    lemma_cursor_moves_forward(windows, time, n, n);
    if n > 0 {
        let before = (n - 1) as nat;
        lemma_rows_collected(windows, time, before);
        lemma_cursor_moves_forward(windows, time, before, before);
        lemma_window_group(windows[before as int], time, cursor_at(windows, time, before));
        if cursor < time.len() {
            lemma_run_end(windows[before as int], time, cursor);
        }
        assert(groups.take(n as int).drop_last() =~= groups.take(before as int));
        assert(groups.take(n as int).last() == groups[before as int]);
    }
    if 0 < n < windows.len() {
        lemma_first_member(windows[n as int], time, cursor);
        let start = first_member(windows[n as int], time, cursor);
        if start < collected_up_to(windows, time, n) {
            assert(windows[n as int].is_member(time[start as int]));
            assert(windows[n - 1].is_member(time[start as int]));
        }
    }
}

/// Where windows that follow one another share no row, the groups hold no
/// more rows together than there are rows and windows: every row of `time`
/// at most once, and the row one past the end at most once for each window.
pub proof fn lemma_rows_collected_linear(windows: Seq<Bounds>, time: Seq<i64>)
    requires
        time.len() <= u32::MAX,
        neighbours_share_no_row(windows, time),
    ensures
        rows_in(window_groups(windows, time)) <= time.len() + windows.len(),
{
    let groups = window_groups(windows, time);
    if time.len() > 0 {
        lemma_rows_collected(windows, time, windows.len());
        assert(groups.take(windows.len() as int) =~= groups);
    }
}

/// Where windows that follow one another share no row, the whole pass is
/// linear: the rows that the search looks at and the rows that go into the
/// groups are together no more than twice the rows and windows. (Windows that
/// share rows give groups that share them, and the groups alone may then hold
/// every row once for each window.)
pub proof fn lemma_pass_is_linear(windows: Seq<Bounds>, time: Seq<i64>)
    requires
        time.len() <= u32::MAX,
        neighbours_share_no_row(windows, time),
    ensures
        rows_searched(windows, time, windows.len()) + rows_in(window_groups(windows, time)) <= 2 * (
        time.len() + windows.len()),
{
    lemma_search_is_linear(windows, time, windows.len());
    lemma_rows_collected_linear(windows, time);
}

/// Windows of a `Window` whose period is shorter than its step lie apart: no
/// timestamp is a member of two that follow one another.
pub proof fn lemma_short_windows_share_no_row(window: Window, boundary: Bounds, time: Seq<i64>)
    requires
        window.wf(),
        window.period.nsecs < window.every.nsecs,
    ensures
        neighbours_share_no_row(window.overlapping_bounds(boundary), time),
{
    let windows = window.overlapping_bounds(boundary);
    let first = window.first_overlapping(boundary);
    let e = window.every.nsecs as int;
    assert forall|k: int, i: int|
        0 < k < windows.len() && 0 <= i < time.len() && #[trigger] windows[k].is_member(
            time[i],
        ) implies !windows[k - 1].is_member(time[i]) by {
        window.lemma_overlapping_bounds(first + k, boundary);
        window.lemma_overlapping_bounds(first + k - 1, boundary);
        window.lemma_bounds_at_members(first + k, boundary, time[i]);
        window.lemma_bounds_at_members(first + k - 1, boundary, time[i]);
        assert((first + k) * e == (first + k - 1) * e + e) by (nonlinear_arith);
    }
}

/// For a `Window` whose period is shorter than its step, the pass of
/// `groupby` is linear in the rows and the windows that overlap their extent.
pub proof fn lemma_groupby_is_linear(window: Window, time: Seq<i64>)
    requires
        window.wf(),
        window.period.nsecs < window.every.nsecs,
        time.len() <= u32::MAX,
    ensures
        ({
            let windows = window.overlapping_bounds(Bounds::spanning(time));
            rows_searched(windows, time, windows.len()) + rows_in(grouping(window, time)) <= 2 * (
            time.len() + windows.len())
        }),
{
    let windows = window.overlapping_bounds(Bounds::spanning(time));
    lemma_short_windows_share_no_row(window, Bounds::spanning(time), time);
    lemma_pass_is_linear(windows, time);
}

// The result as a function of the arguments

/// What the lemmas above say of the groups, said of a result that holds them:
/// the anchors never descend; no group is empty, and its anchor is its first
/// row; the rows of a group follow one another without a gap; and every row
/// of a group is a member of the group's window, or is the row one past the
/// end.
pub proof fn lemma_groups_of_result(group_tuples: GroupTuples, windows: Seq<Bounds>, time: Seq<i64>)
    requires
        time.len() <= u32::MAX,
        group_tuples.deep_view() == window_groups(windows, time),
    ensures
        forall|i: int, j: int|
            0 <= i <= j < group_tuples.len() ==> group_tuples[i].0 <= group_tuples[j].0,
        forall|k: int|
            0 <= k < group_tuples.len() ==> group_tuples[k].1.len() > 0 && group_tuples[k].0
                == group_tuples[k].1[0],
        forall|k: int, j: int|
            0 <= k < group_tuples.len() && 0 <= j < group_tuples[k].1.len()
                ==> group_tuples[k].1[j] == group_tuples[k].0 + j,
        forall|k: int, j: int|
            0 <= k < group_tuples.len() && 0 <= j < group_tuples[k].1.len()
                ==> group_tuples[k].1[j] == time.len() || (group_tuples[k].1[j] < time.len()
                && windows[k].is_member(time[group_tuples[k].1[j] as int])),
{
    let groups = window_groups(windows, time);
    assert(group_tuples.len() == group_tuples.deep_view().len());
    assert forall|k: int| 0 <= k < group_tuples.len() implies group_tuples[k].0 == groups[k].0
        && group_tuples[k].1@ == groups[k].1 by {
        assert(group_tuples.deep_view()[k] == groups[k]);
        assert(group_tuples[k].1@ =~= group_tuples[k].1.deep_view());
    }
    assert forall|i: int, j: int| 0 <= i <= j < group_tuples.len() implies group_tuples[i].0
        <= group_tuples[j].0 by {
        lemma_anchors_ascend(windows, time, i, j);
    }
    assert forall|k: int| 0 <= k < group_tuples.len() implies group_tuples[k].1.len() > 0
        && group_tuples[k].0 == group_tuples[k].1[0] by {
        lemma_groups_nonempty(windows, time, k);
    }
    assert forall|k: int, j: int|
        0 <= k < group_tuples.len() && 0 <= j < group_tuples[k].1.len() implies group_tuples[k].1[j]
        == group_tuples[k].0 + j by {
        lemma_rows_contiguous(windows, time, k, j);
    }
    assert forall|k: int, j: int|
        0 <= k < group_tuples.len() && 0 <= j < group_tuples[k].1.len() implies group_tuples[k].1[j]
        == time.len() || (group_tuples[k].1[j] < time.len() && windows[k].is_member(
        time[group_tuples[k].1[j] as int],
    )) by {
        lemma_members_belong(windows, time, k, j);
    }
}

/// Two results with the same view hold the same groups.
proof fn lemma_same_view_same_groups(first: GroupTuples, second: GroupTuples)
    requires
        first.deep_view() == second.deep_view(),
    ensures
        first.len() == second.len(),
        forall|k: int|
            0 <= k < first.len() ==> first[k].0 == second[k].0 && first[k].1@ == second[k].1@,
{
    assert(first.len() == first.deep_view().len());
    assert(second.len() == second.deep_view().len());
    assert forall|k: int| 0 <= k < first.len() implies first[k].0 == second[k].0 && first[k].1@
        == second[k].1@ by {
        assert(first.deep_view()[k] == second.deep_view()[k]);
        assert(first[k].1@ =~= first[k].1.deep_view());
        assert(second[k].1@ =~= second[k].1.deep_view());
    }
}

/// `groupby` is a function of the window and the timestamps: whatever it
/// returns for them, it returns every time.
pub proof fn lemma_groupby_deterministic(
    window: Window,
    time: Seq<i64>,
    first: GroupTuples,
    second: GroupTuples,
)
    requires
        first.deep_view() == grouping(window, time),
        second.deep_view() == grouping(window, time),
    ensures
        first.len() == second.len(),
        forall|k: int|
            0 <= k < first.len() ==> first[k].0 == second[k].0 && first[k].1@ == second[k].1@,
{
    lemma_same_view_same_groups(first, second);
}

/// `groupby_windows` is a function of the windows and the timestamps:
/// whatever it returns for them, it returns every time.
pub proof fn lemma_groupby_windows_deterministic(
    windows: Seq<Bounds>,
    time: Seq<i64>,
    first: GroupTuples,
    second: GroupTuples,
)
    requires
        first.deep_view() == window_groups(windows, time),
        second.deep_view() == window_groups(windows, time),
    ensures
        first.len() == second.len(),
        forall|k: int|
            0 <= k < first.len() ==> first[k].0 == second[k].0 && first[k].1@ == second[k].1@,
{
    lemma_same_view_same_groups(first, second);
}

} // verus!
