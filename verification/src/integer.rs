//! The integers of the format: everything from the least `i64` to the greatest `u64`.

use vstd::prelude::*;

verus! {

/// The smallest integer the format can hold.
pub open spec fn int_min() -> int {
    -0x8000_0000_0000_0000
}

/// The largest integer the format can hold.
pub open spec fn int_max() -> int {
    0xffff_ffff_ffff_ffff
}

/// An integer from the smallest `i64` to the largest `u64`.
#[derive(Clone, Copy, Debug, PartialEq, Eq)]
pub struct Integer {
    n: i128,
}

impl View for Integer {
    type V = int;

    closed spec fn view(&self) -> int {
        self.n as int
    }
}

impl Integer {
    #[verifier::type_invariant]
    spec fn inv(self) -> bool {
        int_min() <= self.n <= int_max()
    }

    pub fn from_u64(n: u64) -> (r: Integer)
        ensures
            r@ == n,
    {
        Integer { n: n as i128 }
    }

    pub fn from_i64(n: i64) -> (r: Integer)
        ensures
            r@ == n,
    {
        Integer { n: n as i128 }
    }

    /// The number, in a type wide enough for every integer of the format.
    pub fn get(&self) -> (n: i128)
        ensures
            n == self@,
            int_min() <= n <= int_max(),
    {
        proof {
            use_type_invariant(self);
        }
        self.n
    }

    /// The number as a `u64`, unless it is negative.
    pub fn as_u64(&self) -> (r: Option<u64>)
        ensures
            self@ >= 0 ==> r == Some(self@ as u64),
            self@ < 0 ==> r is None,
    {
        proof {
            use_type_invariant(self);
        }
        if self.n >= 0 {
            Some(self.n as u64)
        } else {
            None
        }
    }

    /// The number as an `i64`, unless it is too large for one.
    pub fn as_i64(&self) -> (r: Option<i64>)
        ensures
            self@ <= i64::MAX ==> r == Some(self@ as i64),
            self@ > i64::MAX ==> r is None,
    {
        proof {
            use_type_invariant(self);
        }
        if self.n <= 0x7fff_ffff_ffff_ffff {
            Some(self.n as i64)
        } else {
            None
        }
    }

    pub fn same(&self, other: &Integer) -> (r: bool)
        ensures
            r == (self@ == other@),
    {
        self.n == other.n
    }

    pub fn is_less(&self, other: &Integer) -> (r: bool)
        ensures
            r == (self@ < other@),
    {
        self.n < other.n
    }
}

} // verus!
