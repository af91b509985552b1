use crate::bounds::{starts_ascend, Bounds};
use crate::duration::Duration;
use vstd::prelude::*;

verus! {

/// A family of equally long, equally spaced ranges of time. Window `k`, for
/// every integer `k`, begins at `offset + k * every` and ends `period` later,
/// both ends included.
#[derive(Clone, Copy, Debug, PartialEq, Eq, Structural)]
pub struct Window {
    pub every: Duration,
    pub period: Duration,
    pub offset: Duration,
}

/// The instant of 64 bits nearest to `t`.
pub open spec fn clamp_instant(t: int) -> i64 {
    if t < i64::MIN {
        i64::MIN
    } else if t > i64::MAX {
        i64::MAX
    } else {
        t as i64
    }
}

/// The instant of 64 bits nearest to `t`.
fn clamp(t: i128) -> (instant: i64)
    ensures
        instant == clamp_instant(t as int),
{
    if t < i64::MIN as i128 {
        i64::MIN
    } else if t > i64::MAX as i128 {
        i64::MAX
    } else {
        t as i64
    }
}

impl Window {
    /// Windows follow one another forward in time.
    pub open spec fn wf(&self) -> bool {
        self.every.nsecs > 0
    }

    /// The windows that begin every `every`, last for `period` and are shifted
    /// by `offset`. `every` is positive.
    pub fn new(every: Duration, period: Duration, offset: Duration) -> (window: Window)
        requires
            every.nsecs > 0,
        ensures
            window == (Window { every, period, offset }),
            window.wf(),
    {
        Window { every, period, offset }
    }

    /// The first instant of window `k`.
    pub open spec fn start_of(&self, k: int) -> int {
        self.offset.nsecs + k * self.every.nsecs
    }

    /// The last instant of window `k`.
    pub open spec fn stop_of(&self, k: int) -> int {
        self.start_of(k) + self.period.nsecs
    }

    /// Window `k` overlaps `boundary` when it begins before `boundary` ends
    /// and ends after `boundary` begins: a window that only touches the
    /// boundary at one of its ends does not overlap it.
    pub open spec fn overlaps(&self, k: int, boundary: Bounds) -> bool {
        self.start_of(k) < boundary.stop && boundary.start < self.stop_of(k)
    }

    /// The number of the earliest window that ends after `boundary` begins.
    pub open spec fn first_overlapping(&self, boundary: Bounds) -> int {
        (boundary.start - self.period.nsecs - self.offset.nsecs) / (self.every.nsecs as int) + 1
    }

    /// The number of the earliest window that does not begin before
    /// `boundary` ends.
    pub open spec fn end_overlapping(&self, boundary: Bounds) -> int {
        (boundary.stop - self.offset.nsecs - 1) / (self.every.nsecs as int) + 1
    }

    /// How many windows overlap `boundary`.
    pub open spec fn count_overlapping(&self, boundary: Bounds) -> nat {
        if self.first_overlapping(boundary) < self.end_overlapping(boundary) {
            (self.end_overlapping(boundary) - self.first_overlapping(boundary)) as nat
        } else {
            0
        }
    }

    /// Window `k` as a range of 64-bit instants. The part of a window that
    /// lies beyond the instants of 64 bits is cut off.
    pub open spec fn bounds_at(&self, k: int) -> Bounds {
        Bounds { start: clamp_instant(self.start_of(k)), stop: clamp_instant(self.stop_of(k)) }
    }

    /// The windows that overlap `boundary`, earliest first.
    pub open spec fn overlapping_bounds(&self, boundary: Bounds) -> Seq<Bounds> {
        Seq::new(
            self.count_overlapping(boundary),
            |j: int| self.bounds_at(self.first_overlapping(boundary) + j),
        )
    }

    /// The first instant of the earliest window that ends after `boundary`
    /// begins.
    fn first_start(&self, boundary: Bounds) -> (start: i128)
        requires
            self.wf(),
        ensures
            start == self.start_of(self.first_overlapping(boundary)),
            boundary.start - self.period.nsecs < start <= boundary.start - self.period.nsecs
                + self.every.nsecs,
    {
        let every = self.every.nsecs as i128;
        let before = boundary.start as i128 - self.period.nsecs as i128 - self.offset.nsecs as i128;
        let past = before.checked_rem_euclid(every).unwrap();
        proof {
            let e = every as int;
            let x = before as int;
            assert(x == e * (x / e) + x % e && 0 <= x % e < e && (x / e + 1) * e == e * (x / e) + e)
                by (nonlinear_arith)
                requires
                    e > 0,
            ;
        }
        before - past + every + self.offset.nsecs as i128
    }

    /// How many windows overlap `boundary`, as far as a `usize` can count.
    pub fn estimate_overlapping_bounds(&self, boundary: Bounds) -> (n: usize)
        requires
            self.wf(),
        ensures
            n == if self.count_overlapping(boundary) <= usize::MAX {
                self.count_overlapping(boundary)
            } else {
                usize::MAX as nat
            },
    {
        let every = self.every.nsecs as i128;
        let start = self.first_start(boundary);
        let stop = boundary.stop as i128;
        proof {
            self.lemma_end_overlapping(self.first_overlapping(boundary), boundary);
        }
        if start >= stop {
            0
        } else {
            let count = (stop - start - 1) / every + 1;
            proof {
                let e = every as int;
                let k = self.first_overlapping(boundary);
                let y = boundary.stop - self.offset.nsecs - 1;
                assert((y - k * e) / e == y / e - k) by (nonlinear_arith)
                    requires
                        e > 0,
                ;
            }
            if count > usize::MAX as i128 {
                usize::MAX
            } else {
                count as usize
            }
        }
    }

    /// The windows that overlap `boundary`, earliest first.
    pub fn get_overlapping_bounds(&self, boundary: Bounds) -> (windows: Vec<Bounds>)
        requires
            self.wf(),
        ensures
            windows@ == self.overlapping_bounds(boundary),
    {
        let every = self.every.nsecs as i128;
        let period = self.period.nsecs as i128;
        let stop = boundary.stop as i128;
        let ghost first = self.first_overlapping(boundary);
        let mut windows: Vec<Bounds> = Vec::with_capacity(self.estimate_overlapping_bounds(boundary));
        let mut start = self.first_start(boundary);
        while start < stop
            invariant
                every == self.every.nsecs > 0,
                period == self.period.nsecs,
                stop == boundary.stop,
                first == self.first_overlapping(boundary),
                start == self.start_of(first + windows.len()),
                2 * i64::MIN <= start,
                windows.len() <= self.count_overlapping(boundary),
                forall|j: int| 0 <= j < windows.len() ==> windows[j] == self.bounds_at(first + j),
            decreases self.count_overlapping(boundary) - windows.len(),
        {
            proof {
                self.lemma_end_overlapping(first + windows.len(), boundary);
                let e = every as int;
                let k = first + windows.len();
                assert((k + 1) * e == k * e + e) by (nonlinear_arith);
            }
            windows.push(Bounds::new(clamp(start), clamp(start + period)));
            start += every;
        }
        proof {
            self.lemma_end_overlapping(first + windows.len(), boundary);
        }
        windows
    }

    /// Windows from `first_overlapping` on, and no earlier ones, end after
    /// `boundary` begins.
    pub proof fn lemma_first_overlapping(&self, k: int, boundary: Bounds)
        requires
            self.wf(),
        ensures
            boundary.start < self.stop_of(k) <==> self.first_overlapping(boundary) <= k,
    {
        let e = self.every.nsecs as int;
        let x = boundary.start - self.period.nsecs - self.offset.nsecs;
        assert(x < k * e <==> x / e + 1 <= k) by (nonlinear_arith)
            requires
                e > 0,
        ;
    }

    /// Windows before `end_overlapping`, and no later ones, begin before
    /// `boundary` ends.
    pub proof fn lemma_end_overlapping(&self, k: int, boundary: Bounds)
        requires
            self.wf(),
        ensures
            self.start_of(k) < boundary.stop <==> k < self.end_overlapping(boundary),
    {
        let e = self.every.nsecs as int;
        let y = boundary.stop - self.offset.nsecs - 1;
        assert(k * e <= y <==> k < y / e + 1) by (nonlinear_arith)
            requires
                e > 0,
        ;
    }

    /// The windows listed for `boundary` are the windows that overlap it, each
    /// at the place that its number gives it.
    pub proof fn lemma_overlapping_bounds(&self, k: int, boundary: Bounds)
        requires
            self.wf(),
        ensures
            self.overlaps(k, boundary) <==> 0 <= k - self.first_overlapping(boundary)
                < self.overlapping_bounds(boundary).len(),
            self.overlaps(k, boundary) ==> self.overlapping_bounds(boundary)[k
                - self.first_overlapping(boundary)] == self.bounds_at(k),
    {
        self.lemma_first_overlapping(k, boundary);
        self.lemma_end_overlapping(k, boundary);
    }

    /// Cutting a window that overlaps `boundary` down to the instants of 64
    /// bits loses no timestamp: its members are the timestamps from its first
    /// instant to its last.
    pub proof fn lemma_bounds_at_members(&self, k: int, boundary: Bounds, t: i64)
        requires
            self.wf(),
            self.overlaps(k, boundary),
        ensures
            self.bounds_at(k).is_member(t) <==> self.start_of(k) <= t <= self.stop_of(k),
    {
    }

    /// The windows listed for `boundary` come in the order of their starts.
    pub proof fn lemma_overlapping_starts_ascend(&self, boundary: Bounds)
        requires
            self.wf(),
        ensures
            starts_ascend(self.overlapping_bounds(boundary)),
    {
        let first = self.first_overlapping(boundary);
        let e = self.every.nsecs as int;
        assert forall|i: int, j: int|
            0 <= i <= j < self.overlapping_bounds(boundary).len() implies self.overlapping_bounds(
            boundary,
        )[i].start <= self.overlapping_bounds(boundary)[j].start by {
            assert((first + i) * e <= (first + j) * e) by (nonlinear_arith)
                requires
                    i <= j,
                    e > 0,
            ;
        }
    }
}

} // verus!
