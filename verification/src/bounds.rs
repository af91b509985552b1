use vstd::prelude::*;

verus! {

/// A closed range of time, in nanoseconds: every instant from `start` to `stop`,
/// both ends included. A range whose `start` lies after its `stop` is empty.
#[derive(Clone, Copy, Debug, PartialEq, Eq, Structural)]
pub struct Bounds {
    pub start: i64,
    pub stop: i64,
}

/// The earliest of the timestamps `time`; the last instant of all when there
/// are none.
pub open spec fn earliest(time: Seq<i64>) -> i64
    decreases time.len(),
{
    if time.len() == 0 {
        i64::MAX
    } else if time.last() < earliest(time.drop_last()) {
        time.last()
    } else {
        earliest(time.drop_last())
    }
}

/// The latest of the timestamps `time`; the first instant of all when there
/// are none.
pub open spec fn latest(time: Seq<i64>) -> i64
    decreases time.len(),
{
    if time.len() == 0 {
        i64::MIN
    } else if time.last() > latest(time.drop_last()) {
        time.last()
    } else {
        latest(time.drop_last())
    }
}

/// The ranges never begin earlier from one range to a later one.
pub open spec fn starts_ascend(windows: Seq<Bounds>) -> bool {
    forall|i: int, j: int| 0 <= i <= j < windows.len() ==> windows[i].start <= windows[j].start
}

impl Bounds {
    /// The range from `start` to `stop`.
    pub fn new(start: i64, stop: i64) -> (bounds: Bounds)
        ensures
            bounds.start == start,
            bounds.stop == stop,
    {
        Bounds { start, stop }
    }

    /// The extent of the timestamps `time`: from the earliest to the latest.
    /// The extent of no timestamps is empty.
    pub open spec fn spanning(time: Seq<i64>) -> Bounds {
        Bounds { start: earliest(time), stop: latest(time) }
    }

    /// Whether the instant `t` lies in the range.
    pub open spec fn spec_is_member(&self, t: i64) -> bool {
        self.start <= t <= self.stop
    }

    /// Whether the instant `t` lies in the range.
    #[verifier::when_used_as_spec(spec_is_member)]
    pub fn is_member(&self, t: i64) -> (member: bool)
        ensures
            member == self.spec_is_member(t),
    {
        self.start <= t && t <= self.stop
    }
}

impl<'a> From<&'a [i64]> for Bounds {
    /// The extent of the timestamps `time`, in whatever order they come.
    fn from(time: &'a [i64]) -> (bounds: Bounds) {
        let mut start = i64::MAX;
        let mut stop = i64::MIN;
        let mut i: usize = 0;
        while i < time.len()
            invariant
                i <= time.len(),
                start == earliest(time@.take(i as int)),
                stop == latest(time@.take(i as int)),
            decreases time.len() - i,
        {
            assert(time@.take(i + 1).drop_last() =~= time@.take(i as int));
            if time[i] < start {
                start = time[i];
            }
            if time[i] > stop {
                stop = time[i];
            }
            i += 1;
        }
        assert(time@.take(i as int) =~= time@);
        Bounds { start, stop }
    }
}

impl<'a> vstd::std_specs::convert::FromSpecImpl<&'a [i64]> for Bounds {
    open spec fn obeys_from_spec() -> bool {
        true
    }

    open spec fn from_spec(time: &'a [i64]) -> Bounds {
        Bounds::spanning(time@)
    }
}

/// `Bounds::spanning` is the extent of the timestamps: no timestamp lies
/// outside it, and where there are timestamps both of its ends are among
/// them.
pub proof fn lemma_spanning_is_extent(time: Seq<i64>)
    ensures
        forall|i: int| 0 <= i < time.len() ==> Bounds::spanning(time).is_member(#[trigger] time[i]),
        time.len() > 0 ==> exists|i: int|
            0 <= i < time.len() && time[i] == Bounds::spanning(time).start,
        time.len() > 0 ==> exists|i: int|
            0 <= i < time.len() && time[i] == Bounds::spanning(time).stop,
    decreases time.len(),
{
    if time.len() > 0 {
        let front = time.drop_last();
        let end = time.len() - 1;
        lemma_spanning_is_extent(front);
        assert(time[end] == time.last());
        assert forall|i: int| 0 <= i < time.len() implies Bounds::spanning(time).is_member(
            #[trigger] time[i],
        ) by {
            if i < front.len() {
                assert(time[i] == front[i]);
            }
        }
        let span = Bounds::spanning(time);
        if front.len() > 0 {
            let lo = choose|i: int| 0 <= i < front.len() && front[i] == Bounds::spanning(front).start;
            let hi = choose|i: int| 0 <= i < front.len() && front[i] == Bounds::spanning(front).stop;
            assert(time[lo] == front[lo] && time[hi] == front[hi]);
            assert(time[lo] == span.start || time[end] == span.start);
            assert(time[hi] == span.stop || time[end] == span.stop);
        } else {
            assert(earliest(front) == i64::MAX && latest(front) == i64::MIN);
        }
    }
}

} // verus!
