//! The validator for integers.

use vstd::prelude::*;
use crate::element::Element;
use crate::error::{Error, Reason};
use crate::format::{parse_element, ElementView};
use crate::integer::{int_max, int_min, Integer};
use crate::parser::Parser;
use crate::validator::Validator;

verus! {

/// Validator for integers.
///
/// An integer passes if it lies within `min` and `max`, each bound exclusive where its `ex_`
/// flag is set, is on the `in` list unless that list is empty, and is not on the `nin` list.
///
/// A query may use `in` and `nin` only where the schema's validator sets `query`, and bounds
/// only where it sets `ord`.
#[derive(Debug, PartialEq)]
pub struct IntValidator {
    /// An optional comment explaining the validator.
    pub comment: String,
    /// The largest integer allowed.
    pub max: Integer,
    /// The smallest integer allowed.
    pub min: Integer,
    /// Whether `max` itself is excluded.
    pub ex_max: bool,
    /// Whether `min` itself is excluded.
    pub ex_min: bool,
    /// The integers allowed, where not empty.
    pub in_list: Vec<Integer>,
    /// The integers not allowed.
    pub nin_list: Vec<Integer>,
    /// Whether queries may use `in` and `nin`.
    pub query: bool,
    /// Whether queries may use `min`, `max`, `ex_min` and `ex_max`.
    pub ord: bool,
}

impl Default for IntValidator {
    fn default() -> (r: Self)
        ensures
            r.is_default(),
    {
        IntValidator {
            comment: String::new(),
            max: Integer::from_u64(u64::MAX),
            min: Integer::from_i64(i64::MIN),
            ex_max: false,
            ex_min: false,
            in_list: Vec::new(),
            nin_list: Vec::new(),
            query: false,
            ord: false,
        }
    }
}

/// Whether `x` is one of `list`.
pub open spec fn int_listed(list: Seq<Integer>, x: int) -> bool {
    exists|i: int| 0 <= i < list.len() && (#[trigger] list[i])@ == x
}

/// Whether `x` is one of `list`.
pub fn int_in_list(list: &Vec<Integer>, x: &Integer) -> (r: bool)
    ensures
        r == int_listed(list@, x@),
{
    let mut i: usize = 0;
    while i < list.len()
        invariant
            0 <= i <= list.len(),
            forall|j: int| 0 <= j < i ==> (#[trigger] list@[j])@ != x@,
        decreases list.len() - i,
    {
        if list[i].same(x) {
            return true;
        }
        i += 1;
    }
    false
}

impl IntValidator {
    /// That every field has its default: no comment, every integer allowed, no list, no
    /// permission for queries.
    pub open spec fn is_default(self) -> bool {
        &&& self.comment@.len() == 0
        &&& self.max@ == int_max()
        &&& self.min@ == int_min()
        &&& !self.ex_max
        &&& !self.ex_min
        &&& self.in_list@.len() == 0
        &&& self.nin_list@.len() == 0
        &&& !self.query
        &&& !self.ord
    }

    /// The integers that pass.
    pub open spec fn accepts(self, x: int) -> bool {
        &&& if self.ex_max { x < self.max@ } else { x <= self.max@ }
        &&& if self.ex_min { self.min@ < x } else { self.min@ <= x }
        &&& self.in_list@.len() > 0 ==> int_listed(self.in_list@, x)
        &&& !int_listed(self.nin_list@, x)
    }

    /// Why the integer `x` does not pass, if it does not: the first of the bounds and lists
    /// that it breaks, the maximum first.
    pub open spec fn fault(self, x: int) -> Option<Reason> {
        if !(if self.ex_max { x < self.max@ } else { x <= self.max@ }) {
            Some(Reason::AboveMax)
        } else if !(if self.ex_min { self.min@ < x } else { self.min@ <= x }) {
            Some(Reason::BelowMin)
        } else if self.in_list@.len() > 0 && !int_listed(self.in_list@, x) {
            Some(Reason::NotListed)
        } else if int_listed(self.nin_list@, x) {
            Some(Reason::Forbidden)
        } else {
            None
        }
    }

    /// An integer passes exactly where nothing is wrong with it.
    pub proof fn lemma_fault(self, x: int)
        ensures
            self.accepts(x) <==> self.fault(x) is None,
    {
    }

    /// The queries that a schema with this validator permits, among integer validators.
    pub open spec fn query_allows(self, other: IntValidator) -> bool {
        &&& self.query || (other.in_list@.len() == 0 && other.nin_list@.len() == 0)
        &&& self.ord || (!other.ex_min && !other.ex_max && other.min@ == int_min() && other.max@
            == int_max())
    }

    /// The queries that a schema with this validator permits: any query that asks nothing,
    /// a validator of this kind that uses only what the permissions allow, and a choice
    /// each of whose branches is permitted.
    pub open spec fn query_allows_validator(self, other: Validator) -> bool
        decreases other,
    {
        match other {
            Validator::Int(o) => self.query_allows(*o),
            Validator::Multi(list) => forall|i: int|
                0 <= i < list@.len() ==> self.query_allows_validator(#[trigger] list@[i]),
            Validator::Any => true,
            _ => false,
        }
    }

    /// A validator with the default configuration.
    pub fn new() -> (r: Self)
        ensures
            r.is_default(),
    {
        IntValidator::default()
    }

    /// Sets the comment.
    pub fn comment(self, comment: &str) -> (r: Self)
        ensures
            r == (IntValidator { comment: r.comment, ..self }),
            r.comment@ == comment@,
    {
        let mut s = self;
        s.comment = comment.to_owned();
        s
    }

    /// Sets the largest integer allowed.
    pub fn max(self, max: Integer) -> (r: Self)
        ensures
            r == (IntValidator { max, ..self }),
    {
        let mut s = self;
        s.max = max;
        s
    }

    /// Sets the smallest integer allowed.
    pub fn min(self, min: Integer) -> (r: Self)
        ensures
            r == (IntValidator { min, ..self }),
    {
        let mut s = self;
        s.min = min;
        s
    }

    /// Sets whether `max` itself is excluded.
    pub fn ex_max(self, ex_max: bool) -> (r: Self)
        ensures
            r == (IntValidator { ex_max, ..self }),
    {
        let mut s = self;
        s.ex_max = ex_max;
        s
    }

    /// Sets whether `min` itself is excluded.
    pub fn ex_min(self, ex_min: bool) -> (r: Self)
        ensures
            r == (IntValidator { ex_min, ..self }),
    {
        let mut s = self;
        s.ex_min = ex_min;
        s
    }

    /// Adds an integer to the `in` list.
    pub fn in_add(self, add: Integer) -> (r: Self)
        ensures
            r == (IntValidator { in_list: r.in_list, ..self }),
            r.in_list@ == self.in_list@.push(add),
    {
        let mut s = self;
        s.in_list.push(add);
        s
    }

    /// Adds an integer to the `nin` list.
    pub fn nin_add(self, add: Integer) -> (r: Self)
        ensures
            r == (IntValidator { nin_list: r.nin_list, ..self }),
            r.nin_list@ == self.nin_list@.push(add),
    {
        let mut s = self;
        s.nin_list.push(add);
        s
    }

    /// Sets whether queries may use `in` and `nin`.
    pub fn query(self, query: bool) -> (r: Self)
        ensures
            r == (IntValidator { query, ..self }),
    {
        let mut s = self;
        s.query = query;
        s
    }

    /// Sets whether queries may use the bounds.
    pub fn ord(self, ord: bool) -> (r: Self)
        ensures
            r == (IntValidator { ord, ..self }),
    {
        let mut s = self;
        s.ord = ord;
        s
    }

    /// Wraps this into a `Validator`.
    pub fn build(self) -> (v: Validator)
        ensures
            v == Validator::Int(Box::new(self)),
    {
        Validator::Int(Box::new(self))
    }

    /// Checks the element at the parser's position, and moves the parser past it, whether
    /// the element passes or not; the parser stays where the bytes hold no element.
    ///
    /// Succeeds exactly where that element is an integer that passes; fails with the fault
    /// of the bytes where they hold no element.
    pub fn validate(&self, parser: &mut Parser) -> (r: Result<(), Error>)
        ensures
            match parse_element(old(parser)@) {
                Ok((ElementView::Int(x), n)) => if self.accepts(x) {
                    r is Ok && final(parser)@ == old(parser)@.skip(n)
                } else {
                    r is Err && self.fault(x) is Some && r->Err_0 == Error::FailValidate(self.fault(x)->0)
                        && final(parser)@ == old(parser)@.skip(n)
                },
                Ok((_, n)) => r is Err && r->Err_0 == Error::FailValidate(Reason::Kind) && final(parser)@ == old(
                    parser,
                )@.skip(n),
                Err(e) => r is Err && r->Err_0 == e && final(parser)@ == old(parser)@,
            },
    {
        let elem = parser.next()?;
        let val = if let Element::Int(v) = elem {
            v
        } else {
            return Err(Error::FailValidate(Reason::Kind));
        };
        let max_pass = if self.ex_max {
            val.is_less(&self.max)
        } else {
            !self.max.is_less(&val)
        };
        let min_pass = if self.ex_min {
            self.min.is_less(&val)
        } else {
            !val.is_less(&self.min)
        };
        if !max_pass {
            return Err(Error::FailValidate(Reason::AboveMax));
        }
        if !min_pass {
            return Err(Error::FailValidate(Reason::BelowMin));
        }
        if self.in_list.len() > 0 {
            if !int_in_list(&self.in_list, &val) {
                return Err(Error::FailValidate(Reason::NotListed));
            }
        }
        if int_in_list(&self.nin_list, &val) {
            return Err(Error::FailValidate(Reason::Forbidden));
        }
        Ok(())
    }

    /// Whether a schema with this validator permits the query `other`.
    pub fn query_check_self(&self, other: &Self) -> (r: bool)
        ensures
            r == self.query_allows(*other),
    {
        let _ = other.min.get();
        let _ = other.max.get();
        (self.query || (other.in_list.len() == 0 && other.nin_list.len() == 0)) && (self.ord || (
            !other.ex_min && !other.ex_max && other.min.same(&Integer::from_i64(i64::MIN))
                && other.max.same(&Integer::from_u64(u64::MAX))))
    }

    /// Whether a schema with this validator permits the query `other`.
    pub fn query_check(&self, other: &Validator) -> (r: bool)
        ensures
            r == self.query_allows_validator(*other),
        decreases other,
    {
        match other {
            Validator::Int(other) => self.query_check_self(other),
            Validator::Multi(list) => {
                let mut i: usize = 0;
                while i < list.len()
                    invariant
                        0 <= i <= list.len(),
                        other is Multi,
                        other->Multi_0 == *list,
                        forall|j: int| 0 <= j < i ==> self.query_allows_validator(#[trigger] list@[j]),
                    decreases list.len() - i,
                {
                    if !self.query_check(&list[i]) {
                        return false;
                    }
                    i += 1;
                }
                true
            },
            Validator::Any => true,
            _ => false,
        }
    }
}

} // verus!
