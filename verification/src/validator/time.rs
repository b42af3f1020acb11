//! The validator for timestamps.

use vstd::prelude::*;
use crate::error::{Error, Reason};
use crate::element::Element;
use crate::format::{parse_element, ElementView};
use crate::parser::Parser;
use crate::timestamp::{Timestamp, TimestampView};
use crate::validator::Validator;

verus! {

/// Whether the flag is off.
pub fn is_false(v: &bool) -> (r: bool)
    ensures
        r == !*v,
{
    !*v
}

/// Whether the time is the epoch.
pub fn time_is_zero(v: &Timestamp) -> (r: bool)
    ensures
        r == (v@ == TimestampView::zero()),
{
    v.same(&Timestamp::zero())
}

/// Whether the time is the earliest there is.
pub fn time_is_min(v: &Timestamp) -> (r: bool)
    ensures
        r == (v@ == TimestampView::min_value()),
{
    v.same(&Timestamp::min_value())
}

/// Whether the time is the latest there is.
pub fn time_is_max(v: &Timestamp) -> (r: bool)
    ensures
        r == (v@ == TimestampView::max_value()),
{
    v.same(&Timestamp::max_value())
}

/// Validator for timestamps.
///
/// A timestamp passes if it lies within `min` and `max`, each bound exclusive where its
/// `ex_` flag is set, is on the `in` list unless that list is empty, and is not on the `nin`
/// list.
///
/// A query may use `in` and `nin` only where the schema's validator sets `query`, and bounds
/// only where it sets `ord`.
#[derive(Debug, PartialEq)]
pub struct TimeValidator {
    /// An optional comment explaining the validator.
    pub comment: String,
    /// The default value, for a reader's information.
    pub default: Timestamp,
    /// The latest time allowed.
    pub max: Timestamp,
    /// The earliest time allowed.
    pub min: Timestamp,
    /// Whether `max` itself is excluded.
    pub ex_max: bool,
    /// Whether `min` itself is excluded.
    pub ex_min: bool,
    /// The times allowed, where not empty.
    pub in_list: Vec<Timestamp>,
    /// The times not allowed.
    pub nin_list: Vec<Timestamp>,
    /// Whether queries may use `in` and `nin`.
    pub query: bool,
    /// Whether queries may use `min`, `max`, `ex_min` and `ex_max`.
    pub ord: bool,
}

impl Default for TimeValidator {
    fn default() -> (r: Self)
        ensures
            r.is_default(),
    {
        TimeValidator {
            comment: String::new(),
            default: Timestamp::zero(),
            max: Timestamp::max_value(),
            min: Timestamp::min_value(),
            ex_max: false,
            ex_min: false,
            in_list: Vec::new(),
            nin_list: Vec::new(),
            query: false,
            ord: false,
        }
    }
}

/// Whether `t` is one of `list`.
pub open spec fn time_listed(list: Seq<Timestamp>, t: TimestampView) -> bool {
    exists|i: int| 0 <= i < list.len() && (#[trigger] list[i])@ == t
}

/// Whether `t` is one of `list`.
pub fn time_in_list(list: &Vec<Timestamp>, t: &Timestamp) -> (r: bool)
    ensures
        r == time_listed(list@, t@),
{
    let mut i: usize = 0;
    while i < list.len()
        invariant
            0 <= i <= list.len(),
            forall|j: int| 0 <= j < i ==> (#[trigger] list@[j])@ != t@,
        decreases list.len() - i,
    {
        if list[i].same(t) {
            return true;
        }
        i += 1;
    }
    false
}

impl TimeValidator {
    /// That every field has its default: no comment, the epoch as default value, every time
    /// allowed, no list, no permission for queries.
    pub open spec fn is_default(self) -> bool {
        &&& self.comment@.len() == 0
        &&& self.default@ == TimestampView::zero()
        &&& self.max@ == TimestampView::max_value()
        &&& self.min@ == TimestampView::min_value()
        &&& !self.ex_max
        &&& !self.ex_min
        &&& self.in_list@.len() == 0
        &&& self.nin_list@.len() == 0
        &&& !self.query
        &&& !self.ord
    }

    /// The timestamps that pass.
    pub open spec fn accepts(self, t: TimestampView) -> bool {
        &&& if self.ex_max { t.lt(self.max@) } else { t.le(self.max@) }
        &&& if self.ex_min { self.min@.lt(t) } else { self.min@.le(t) }
        &&& self.in_list@.len() > 0 ==> time_listed(self.in_list@, t)
        &&& !time_listed(self.nin_list@, t)
    }

    /// Why the timestamp `t` does not pass, if it does not: the first of the bounds and lists
    /// that it breaks, the maximum first.
    pub open spec fn fault(self, t: TimestampView) -> Option<Reason> {
        if !(if self.ex_max { t.lt(self.max@) } else { t.le(self.max@) }) {
            Some(Reason::AboveMax)
        } else if !(if self.ex_min { self.min@.lt(t) } else { self.min@.le(t) }) {
            Some(Reason::BelowMin)
        } else if self.in_list@.len() > 0 && !time_listed(self.in_list@, t) {
            Some(Reason::NotListed)
        } else if time_listed(self.nin_list@, t) {
            Some(Reason::Forbidden)
        } else {
            None
        }
    }

    /// A timestamp passes exactly where nothing is wrong with it.
    pub proof fn lemma_fault(self, t: TimestampView)
        ensures
            self.accepts(t) <==> self.fault(t) is None,
    {
    }

    /// The queries that a schema with this validator permits, among time validators.
    pub open spec fn query_allows(self, other: TimeValidator) -> bool {
        &&& self.query || (other.in_list@.len() == 0 && other.nin_list@.len() == 0)
        &&& self.ord || (!other.ex_min && !other.ex_max && other.min@ == TimestampView::min_value()
            && other.max@ == TimestampView::max_value())
    }

    /// The queries that a schema with this validator permits: any query that asks nothing,
    /// a validator of this kind that uses only what the permissions allow, and a choice
    /// each of whose branches is permitted.
    pub open spec fn query_allows_validator(self, other: Validator) -> bool
        decreases other,
    {
        match other {
            Validator::Time(o) => self.query_allows(*o),
            Validator::Multi(list) => forall|i: int|
                0 <= i < list@.len() ==> self.query_allows_validator(#[trigger] list@[i]),
            Validator::Any => true,
            _ => false,
        }
    }

    /// A validator with the default configuration.
    pub fn new() -> (r: Self)
        ensures
            r.is_default(),
    {
        TimeValidator::default()
    }

    /// Wraps this into a `Validator`.
    pub fn build(self) -> (v: Validator)
        ensures
            v == Validator::Time(Box::new(self)),
    {
        Validator::Time(Box::new(self))
    }

    /// Checks the element at the parser's position, and moves the parser past it, whether
    /// the element passes or not; the parser stays where the bytes hold no element.
    ///
    /// Succeeds exactly where that element is a timestamp that passes; fails with the fault
    /// of the bytes where they hold no element.
    pub fn validate(&self, parser: &mut Parser) -> (r: Result<(), Error>)
        ensures
            match parse_element(old(parser)@) {
                Ok((ElementView::Timestamp(t), n)) => if self.accepts(t) {
                    r is Ok && final(parser)@ == old(parser)@.skip(n)
                } else {
                    r is Err && self.fault(t) is Some && r->Err_0 == Error::FailValidate(self.fault(t)->0)
                        && final(parser)@ == old(parser)@.skip(n)
                },
                Ok((_, n)) => r is Err && r->Err_0 == Error::FailValidate(Reason::Kind) && final(parser)@ == old(
                    parser,
                )@.skip(n),
                Err(e) => r is Err && r->Err_0 == e && final(parser)@ == old(parser)@,
            },
    {
        let elem = parser.next()?;
        let val = if let Element::Timestamp(v) = elem {
            v
        } else {
            return Err(Error::FailValidate(Reason::Kind));
        };
        // Range checks
        let max_pass = if self.ex_max {
            val.is_before(&self.max)
        } else {
            val.is_at_or_before(&self.max)
        };
        let min_pass = if self.ex_min {
            self.min.is_before(&val)
        } else {
            self.min.is_at_or_before(&val)
        };
        if !max_pass {
            return Err(Error::FailValidate(Reason::AboveMax));
        }
        if !min_pass {
            return Err(Error::FailValidate(Reason::BelowMin));
        }
        // in/nin checks
        if self.in_list.len() > 0 {
            if !time_in_list(&self.in_list, &val) {
                return Err(Error::FailValidate(Reason::NotListed));
            }
        }
        if time_in_list(&self.nin_list, &val) {
            return Err(Error::FailValidate(Reason::Forbidden));
        }
        Ok(())
    }

    /// Whether a schema with this validator permits the query `other`.
    pub fn query_check_self(&self, other: &Self) -> (r: bool)
        ensures
            r == self.query_allows(*other),
    {
        (self.query || (other.in_list.len() == 0 && other.nin_list.len() == 0)) && (self.ord || (
            !other.ex_min && !other.ex_max && time_is_min(&other.min) && time_is_max(&other.max)))
    }

    /// Whether a schema with this validator permits the query `other`.
    pub fn query_check(&self, other: &Validator) -> (r: bool)
        ensures
            r == self.query_allows_validator(*other),
        decreases other,
    {
        match other {
            Validator::Time(other) => self.query_check_self(other),
            Validator::Multi(list) => {
                let mut i: usize = 0;
                while i < list.len()
                    invariant
                        0 <= i <= list.len(),
                        other is Multi,
                        other->Multi_0 == *list,
                        forall|j: int| 0 <= j < i ==> self.query_allows_validator(#[trigger] list@[j]),
                    decreases list.len() - i,
                {
                    if !self.query_check(&list[i]) {
                        return false;
                    }
                    i += 1;
                }
                true
            },
            Validator::Any => true,
            _ => false,
        }
    }
}

} // verus!
