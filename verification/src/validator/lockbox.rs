//! The validator for lockboxes.

use vstd::prelude::*;
use crate::element::Element;
use crate::error::{Error, Reason};
use crate::format::{parse_element, ElementView};
use crate::parser::Parser;
use crate::validator::Validator;

verus! {

/// Validator for lockboxes.
///
/// A lockbox passes if its length in bytes lies within `min_len` and `max_len`.
///
/// A query may use lengths only where the schema's validator sets `size`.
#[derive(Debug, PartialEq)]
pub struct LockboxValidator {
    /// An optional comment explaining the validator.
    pub comment: String,
    /// The largest number of bytes allowed.
    pub max_len: u32,
    /// The smallest number of bytes allowed.
    pub min_len: u32,
    /// Whether queries may use `max_len` and `min_len`.
    pub size: bool,
}

impl Default for LockboxValidator {
    fn default() -> (r: Self)
        ensures
            r.is_default(),
    {
        LockboxValidator {
            comment: String::new(),
            max_len: u32::MAX,
            min_len: u32::MIN,
            size: false,
        }
    }
}

impl LockboxValidator {
    /// That every field has its default: no comment, every length allowed, no permission
    /// for queries.
    pub open spec fn is_default(self) -> bool {
        &&& self.comment@.len() == 0
        &&& self.max_len == u32::MAX
        &&& self.min_len == 0
        &&& !self.size
    }

    /// The lockboxes that pass.
    pub open spec fn accepts(self, x: Seq<u8>) -> bool {
        &&& self.min_len <= x.len() <= self.max_len
    }

    /// Why `x` does not pass, if it does not: the first of the lengths that it breaks, the
    /// greatest first.
    pub open spec fn fault(self, x: Seq<u8>) -> Option<Reason> {
        if x.len() > self.max_len {
            Some(Reason::TooLong)
        } else if x.len() < self.min_len {
            Some(Reason::TooShort)
        } else {
            None
        }
    }

    /// A value passes exactly where nothing is wrong with it.
    pub proof fn lemma_fault(self, x: Seq<u8>)
        ensures
            self.accepts(x) <==> self.fault(x) is None,
    {
    }

    /// The queries that a schema with this validator permits, among validators for
    /// lockboxes.
    pub open spec fn query_allows(self, other: LockboxValidator) -> bool {
        &&& self.size || (other.max_len == u32::MAX && other.min_len == 0)
    }

    /// The queries that a schema with this validator permits: any query that asks nothing,
    /// a validator of this kind that uses only what the permissions allow, and a choice
    /// each of whose branches is permitted.
    pub open spec fn query_allows_validator(self, other: Validator) -> bool
        decreases other,
    {
        match other {
            Validator::Lockbox(o) => self.query_allows(*o),
            Validator::Multi(list) => forall|i: int|
                0 <= i < list@.len() ==> self.query_allows_validator(#[trigger] list@[i]),
            Validator::Any => true,
            _ => false,
        }
    }

    /// A validator with the default configuration.
    pub fn new() -> (r: Self)
        ensures
            r.is_default(),
    {
        LockboxValidator::default()
    }

    /// Sets the comment.
    pub fn comment(self, comment: &str) -> (r: Self)
        ensures
            r == (LockboxValidator { comment: r.comment, ..self }),
            r.comment@ == comment@,
    {
        let mut s = self;
        s.comment = comment.to_owned();
        s
    }

    /// Sets the largest number of bytes allowed.
    pub fn max_len(self, max_len: u32) -> (r: Self)
        ensures
            r == (LockboxValidator { max_len, ..self }),
    {
        let mut s = self;
        s.max_len = max_len;
        s
    }

    /// Sets the smallest number of bytes allowed.
    pub fn min_len(self, min_len: u32) -> (r: Self)
        ensures
            r == (LockboxValidator { min_len, ..self }),
    {
        let mut s = self;
        s.min_len = min_len;
        s
    }

    /// Sets whether queries may use the lengths.
    pub fn size(self, size: bool) -> (r: Self)
        ensures
            r == (LockboxValidator { size, ..self }),
    {
        let mut s = self;
        s.size = size;
        s
    }

    /// Wraps this into a `Validator`.
    pub fn build(self) -> (v: Validator)
        ensures
            v == Validator::Lockbox(Box::new(self)),
    {
        Validator::Lockbox(Box::new(self))
    }

    /// What is wrong with `x`, if anything.
    pub fn find_fault(&self, x: &[u8]) -> (r: Option<Reason>)
        ensures
            r == self.fault(x@),
    {
        let n = x.len();
        if n > self.max_len as usize {
            return Some(Reason::TooLong);
        }
        if n < self.min_len as usize {
            return Some(Reason::TooShort);
        }
        None
    }

    /// Checks the element at the parser's position, and moves the parser past it, whether
    /// the element passes or not; the parser stays where the bytes hold no element.
    ///
    /// Succeeds exactly where that element is a lockbox that passes; fails with the fault
    /// of the bytes where they hold no element.
    pub fn validate(&self, parser: &mut Parser) -> (r: Result<(), Error>)
        ensures
            match parse_element(old(parser)@) {
                Ok((ElementView::Lockbox(x), n)) => if self.accepts(x) {
                    r is Ok && final(parser)@ == old(parser)@.skip(n)
                } else {
                    r is Err && self.fault(x) is Some && r->Err_0 == Error::FailValidate(self.fault(x)->0)
                        && final(parser)@ == old(parser)@.skip(n)
                },
                Ok((_, n)) => r is Err && r->Err_0 == Error::FailValidate(Reason::Kind) && final(parser)@ == old(
                    parser,
                )@.skip(n),
                Err(e) => r is Err && r->Err_0 == e && final(parser)@ == old(parser)@,
            },
    {
        let elem = parser.next()?;
        let v = if let Element::Lockbox(v) = elem {
            v
        } else {
            return Err(Error::FailValidate(Reason::Kind));
        };
        match self.find_fault(v) {
            None => Ok(()),
            Some(why) => Err(Error::FailValidate(why)),
        }
    }

    /// Whether a schema with this validator permits the query `other`.
    pub fn query_check_self(&self, other: &Self) -> (r: bool)
        ensures
            r == self.query_allows(*other),
    {
        (self.size || (other.max_len == u32::MAX && other.min_len == 0))
    }

    /// Whether a schema with this validator permits the query `other`.
    pub fn query_check(&self, other: &Validator) -> (r: bool)
        ensures
            r == self.query_allows_validator(*other),
        decreases other,
    {
        match other {
            Validator::Lockbox(other) => self.query_check_self(other),
            Validator::Multi(list) => {
                let mut i: usize = 0;
                while i < list.len()
                    invariant
                        0 <= i <= list.len(),
                        other is Multi,
                        other->Multi_0 == *list,
                        forall|j: int| 0 <= j < i ==> self.query_allows_validator(#[trigger] list@[j]),
                    decreases list.len() - i,
                {
                    if !self.query_check(&list[i]) {
                        return false;
                    }
                    i += 1;
                }
                true
            },
            Validator::Any => true,
            _ => false,
        }
    }
}

} // verus!
