//! Points in time: seconds since the epoch and nanoseconds within the second.

use vstd::prelude::*;

verus! {

/// A point in time as contracts see it: seconds since the UTC epoch and nanoseconds within
/// the second.
pub struct TimestampView {
    pub sec: i64,
    pub nano: u32,
}

impl TimestampView {
    /// The nanoseconds stay below one second.
    pub open spec fn wf(self) -> bool {
        self.nano < 1_000_000_000
    }

    /// Strictly earlier: by seconds, then by nanoseconds.
    pub open spec fn lt(self, other: TimestampView) -> bool {
        self.sec < other.sec || (self.sec == other.sec && self.nano < other.nano)
    }

    /// Earlier or the same.
    pub open spec fn le(self, other: TimestampView) -> bool {
        self.lt(other) || self == other
    }

    pub open spec fn zero() -> TimestampView {
        TimestampView { sec: 0, nano: 0 }
    }

    pub open spec fn min_value() -> TimestampView {
        TimestampView { sec: i64::MIN, nano: 0 }
    }

    pub open spec fn max_value() -> TimestampView {
        TimestampView { sec: i64::MAX, nano: 999_999_999 }
    }
}

/// Seconds since the UTC epoch, and nanoseconds below one second.
#[derive(Clone, Copy, Debug, PartialEq, Eq)]
pub struct Timestamp {
    sec: i64,
    nano: u32,
}

impl View for Timestamp {
    type V = TimestampView;

    closed spec fn view(&self) -> TimestampView {
        TimestampView { sec: self.sec, nano: self.nano }
    }
}

impl Timestamp {
    #[verifier::type_invariant]
    spec fn inv(self) -> bool {
        self@.wf()
    }

    /// The time `sec` seconds and `nano` nanoseconds after the epoch, or nothing where
    /// `nano` is a second or more.
    pub fn from_utc(sec: i64, nano: u32) -> (r: Option<Timestamp>)
        ensures
            nano < 1_000_000_000 ==> r is Some && r->0@ == (TimestampView { sec, nano }),
            nano >= 1_000_000_000 ==> r is None,
    {
        if nano < 1_000_000_000 {
            Some(Timestamp { sec, nano })
        } else {
            None
        }
    }

    /// The time `sec` whole seconds after the epoch.
    pub fn from_sec(sec: i64) -> (t: Timestamp)
        ensures
            t@ == (TimestampView { sec, nano: 0 }),
    {
        Timestamp { sec, nano: 0 }
    }

    /// The epoch.
    pub fn zero() -> (t: Timestamp)
        ensures
            t@ == TimestampView::zero(),
    {
        Timestamp { sec: 0, nano: 0 }
    }

    /// The earliest time there is.
    pub fn min_value() -> (t: Timestamp)
        ensures
            t@ == TimestampView::min_value(),
    {
        Timestamp { sec: i64::MIN, nano: 0 }
    }

    /// The latest time there is.
    pub fn max_value() -> (t: Timestamp)
        ensures
            t@ == TimestampView::max_value(),
    {
        Timestamp { sec: i64::MAX, nano: 999_999_999 }
    }

    /// The seconds since the epoch. Every timestamp is well formed.
    pub fn timestamp_utc(&self) -> (sec: i64)
        ensures
            sec == self@.sec,
            self@.wf(),
    {
        proof {
            use_type_invariant(self);
        }
        self.sec
    }

    /// The nanoseconds within the second.
    pub fn timestamp_subsec_nanos(&self) -> (nano: u32)
        ensures
            nano == self@.nano,
            nano < 1_000_000_000,
    {
        proof {
            use_type_invariant(self);
        }
        self.nano
    }

    /// Whether the two are the same point in time.
    pub fn same(&self, other: &Timestamp) -> (r: bool)
        ensures
            r == (self@ == other@),
    {
        self.sec == other.sec && self.nano == other.nano
    }

    /// Whether `self` is strictly earlier than `other`.
    pub fn is_before(&self, other: &Timestamp) -> (r: bool)
        ensures
            r == self@.lt(other@),
    {
        self.sec < other.sec || (self.sec == other.sec && self.nano < other.nano)
    }

    /// Whether `self` is earlier than `other` or the same.
    pub fn is_at_or_before(&self, other: &Timestamp) -> (r: bool)
        ensures
            r == self@.le(other@),
    {
        self.sec < other.sec || (self.sec == other.sec && self.nano <= other.nano)
    }
}

} // verus!
