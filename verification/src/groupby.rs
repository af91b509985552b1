use crate::bounds::Bounds;
use crate::lemmas::lemma_groups_of_result;
use crate::window::Window;
use vstd::prelude::*;

verus! {

/// The groups of a table, one entry for each window: the number of the first
/// row of the group, then the numbers of all its rows.
pub type GroupTuples = Vec<(u32, Vec<u32>)>;

/// The timestamps never descend from one row to a later one.
pub open spec fn sorted(time: Seq<i64>) -> bool {
    forall|i: int, j: int| 0 <= i <= j < time.len() ==> time[i] <= time[j]
}

/// The first row at or after `from` whose timestamp is a member of `bi`;
/// `time.len()` when no such row is left.
pub open spec fn first_member(bi: Bounds, time: Seq<i64>, from: nat) -> nat
    decreases time.len() - from,
{
    if from >= time.len() {
        time.len()
    } else if bi.is_member(time[from as int]) {
        from
    } else {
        first_member(bi, time, from + 1)
    }
}

/// The first row at or after `from` whose timestamp is not a member of `bi`;
/// `time.len()` when every row from `from` on is a member.
pub open spec fn run_end(bi: Bounds, time: Seq<i64>, from: nat) -> nat
    decreases time.len() - from,
{
    if from < time.len() && bi.is_member(time[from as int]) {
        run_end(bi, time, from + 1)
    } else {
        from
    }
}

/// The rows `start, start + 1, .., end - 1`.
pub open spec fn row_range(start: nat, end: nat) -> Seq<u32> {
    Seq::new((end - start) as nat, |j: int| (start + j) as u32)
}

/// The rows collected for the window `bi` when the search for its first row
/// begins at `cursor`: the unbroken run of members that begins at the first
/// member found, or the single row `time.len()`, one past the end, when the
/// search finds none.
pub open spec fn window_group(bi: Bounds, time: Seq<i64>, cursor: nat) -> Seq<u32> {
    let start = first_member(bi, time, cursor);
    if start < time.len() {
        row_range(start, run_end(bi, time, start))
    } else {
        seq![time.len() as u32]
    }
}

/// Where the cursor stands when the search reaches window `k`: at row 0 for
/// the first window, and from then on at the row where the search for the
/// window before came to rest.
pub open spec fn cursor_at(windows: Seq<Bounds>, time: Seq<i64>, k: nat) -> nat
    decreases k,
{
    if k == 0 {
        0
    } else {
        first_member(windows[k - 1], time, cursor_at(windows, time, (k - 1) as nat))
    }
}

/// The entry of window `k`: the first row of its group, and the group.
pub open spec fn group_tuple(windows: Seq<Bounds>, time: Seq<i64>, k: int) -> (u32, Seq<u32>) {
    let group = window_group(windows[k], time, cursor_at(windows, time, k as nat));
    (group[0], group)
}

/// The grouping of `time` by `windows`: nothing when there are no rows, else
/// one entry for each window, in the order of the windows.
pub open spec fn window_groups(windows: Seq<Bounds>, time: Seq<i64>) -> Seq<(u32, Seq<u32>)> {
    if time.len() == 0 {
        Seq::empty()
    } else {
        Seq::new(windows.len(), |k: int| group_tuple(windows, time, k))
    }
}

/// The grouping of `time` by the windows of `window` that overlap the extent
/// of `time`.
pub open spec fn grouping(window: Window, time: Seq<i64>) -> Seq<(u32, Seq<u32>)> {
    window_groups(window.overlapping_bounds(Bounds::spanning(time)), time)
}

/// Groups the rows of a table by windows of time. `time` holds the timestamp
/// of each row, in nanoseconds, and the caller has sorted it. The result has
/// one entry for each window of `window` that overlaps the extent of `time`,
/// earliest window first: the number of the first row of the group, and the
/// numbers of all its rows. Without rows there are no entries.
///
/// The order of `time` is not tested. On timestamps out of order nothing
/// fails, and the result is still the one stated here; but a group is then
/// not what one would ask for, the rows of its window.
///
/// A row number in a group may be `time.len()`, the row one past the end:
/// see `groupby_windows`. Test a row number against `time.len()` before
/// using it.
pub fn groupby(window: Window, time: &[i64]) -> (group_tuples: GroupTuples)
    requires
        window.wf(),
        time.len() <= u32::MAX,
    ensures
        group_tuples.deep_view() == grouping(window, time@),
        time.len() == 0 ==> group_tuples.len() == 0,
        forall|i: int, j: int|
            0 <= i <= j < group_tuples.len() ==> group_tuples[i].0 <= group_tuples[j].0,
        forall|k: int|
            0 <= k < group_tuples.len() ==> group_tuples[k].1.len() > 0 && group_tuples[k].0
                == group_tuples[k].1[0],
        forall|k: int, j: int|
            0 <= k < group_tuples.len() && 0 <= j < group_tuples[k].1.len()
                ==> group_tuples[k].1[j] == group_tuples[k].0 + j,
        forall|k: int, j: int|
            0 <= k < group_tuples.len() && 0 <= j < group_tuples[k].1.len()
                ==> group_tuples[k].1[j] == time.len() || (group_tuples[k].1[j] < time.len()
                && window.overlapping_bounds(Bounds::spanning(time@))[k].is_member(
                time[group_tuples[k].1[j] as int],
            )),
{
    let boundary = Bounds::from(time);
    let windows = window.get_overlapping_bounds(boundary);
    groupby_windows(windows.as_slice(), time)
}

/// Groups the rows of `time` by `windows`, which come in the order of their
/// starts, in one pass over both.
///
/// One cursor, `latest_start`, serves all windows. For each window it moves
/// forward, a row at a time, from where it stands to the first row that is a
/// member of the window, and rests there: the next window may start at the
/// same row. It never moves back and never beyond `time.len()`, so over all
/// windows together it moves at most `time.len()` times. From the row where
/// the cursor rests the group takes the unbroken run of members; the row at
/// which the run stops is not part of it.
///
/// Where the cursor finds no member it comes to rest at `time.len()`, one
/// past the last row, and that row number is the whole group of the window.
/// From then on the cursor stays there, and every later window gets the same
/// group, whatever its members are. So every window has a group, and no group
/// is empty.
pub fn groupby_windows(windows: &[Bounds], time: &[i64]) -> (group_tuples: GroupTuples)
    requires
        time.len() <= u32::MAX,
    ensures
        group_tuples.deep_view() == window_groups(windows@, time@),
        time.len() == 0 ==> group_tuples.len() == 0,
        forall|i: int, j: int|
            0 <= i <= j < group_tuples.len() ==> group_tuples[i].0 <= group_tuples[j].0,
        forall|k: int|
            0 <= k < group_tuples.len() ==> group_tuples[k].1.len() > 0 && group_tuples[k].0
                == group_tuples[k].1[0],
        forall|k: int, j: int|
            0 <= k < group_tuples.len() && 0 <= j < group_tuples[k].1.len()
                ==> group_tuples[k].1[j] == group_tuples[k].0 + j,
        forall|k: int, j: int|
            0 <= k < group_tuples.len() && 0 <= j < group_tuples[k].1.len()
                ==> group_tuples[k].1[j] == time.len() || (group_tuples[k].1[j] < time.len()
                && windows[k].is_member(time[group_tuples[k].1[j] as int])),
{
    if time.len() == 0 {
        return Vec::new();
    }
    let mut group_tuples: GroupTuples = Vec::with_capacity(windows.len());
    let mut latest_start: usize = 0;
    let mut k: usize = 0;
    while k < windows.len()
        invariant
            0 < time.len() <= u32::MAX,
            k <= windows.len(),
            latest_start <= time.len(),
            latest_start == cursor_at(windows@, time@, k as nat),
            group_tuples.len() == k,
            forall|j: int|
                0 <= j < k ==> #[trigger] group_tuples[j].deep_view() == group_tuple(
                    windows@,
                    time@,
                    j,
                ),
        decreases windows.len() - k,
    {
        let bi = windows[k];
        let ghost cursor = latest_start as nat;
        let mut group: Vec<u32> = Vec::new();

        // find the starting point of the window
        while latest_start < time.len() && !bi.is_member(time[latest_start])
            invariant
                cursor <= latest_start <= time.len(),
                first_member(bi, time@, cursor) == first_member(bi, time@, latest_start as nat),
            decreases time.len() - latest_start,
        {
            latest_start += 1;
        }

        // find the members of the window
        let mut i = latest_start;
        loop
            invariant_except_break
                latest_start <= i <= time.len(),
                i == time.len() ==> i == latest_start,
                i < time.len() ==> bi.is_member(time[i as int]),
                run_end(bi, time@, latest_start as nat) == run_end(bi, time@, i as nat),
                group@ == row_range(latest_start as nat, i as nat),
            invariant
                latest_start <= time.len() <= u32::MAX,
                latest_start == first_member(bi, time@, cursor),
            ensures
                group@ == window_group(bi, time@, cursor),
                group@.len() > 0,
            decreases time.len() - i,
        {
            group.push(i as u32);
            if i >= time.len() {
                // the search found no member: the row one past the end is the group
                break ;
            }
            i += 1;
            assert(run_end(bi, time@, (i - 1) as nat) == run_end(bi, time@, i as nat));
            if i >= time.len() || !bi.is_member(time[i]) {
                break ;
            }
        }
        group_tuples.push((group[0], group));
        k += 1;
    }
    proof {
        assert(group_tuples.deep_view() =~= window_groups(windows@, time@));
        lemma_groups_of_result(group_tuples, windows@, time@);
    }
    group_tuples
}

} // verus!
