use vstd::prelude::*;

verus! {

/// Nanoseconds in a second.
pub const NS_SECOND: i64 = 1_000_000_000;

/// A signed length of time, counted in nanoseconds.
#[derive(Clone, Copy, Debug, PartialEq, Eq, Structural)]
pub struct Duration {
    pub nsecs: i64,
}

impl Duration {
    /// A duration of `v` nanoseconds.
    pub fn from_nsecs(v: i64) -> (d: Duration)
        ensures
            d.nsecs == v,
    {
        Duration { nsecs: v }
    }

    /// A duration of `v` seconds, for every `v` whose nanoseconds fit in 64 bits.
    pub fn from_seconds(v: i64) -> (d: Duration)
        requires
            i64::MIN <= v * NS_SECOND <= i64::MAX,
        ensures
            d.nsecs == v * NS_SECOND,
    {
        Duration { nsecs: v * NS_SECOND }
    }

    /// The length in nanoseconds.
    pub fn duration(&self) -> (nsecs: i64)
        ensures
            nsecs == self.nsecs,
    {
        self.nsecs
    }
}

} // verus!
