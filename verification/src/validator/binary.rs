//! The validator for byte strings.

use vstd::prelude::*;
use crate::bytes::bytes_eq;
use crate::element::Element;
use crate::error::{Error, Reason};
use crate::format::{parse_element, ElementView};
use crate::parser::Parser;
use crate::validator::Validator;

verus! {

/// Validator for byte strings.
///
/// A byte string passes if its length in bytes lies within `min_len` and `max_len`, it is
/// on the `in` list unless that list is empty, and it is not on the `nin` list.
///
/// A query may use `in` and `nin` only where the schema's validator sets `query`, and
/// lengths only where it sets `size`.
#[derive(Debug, PartialEq)]
pub struct BinValidator {
    /// An optional comment explaining the validator.
    pub comment: String,
    /// The byte strings allowed, where not empty.
    pub in_list: Vec<Vec<u8>>,
    /// The byte strings not allowed.
    pub nin_list: Vec<Vec<u8>>,
    /// The largest number of bytes allowed.
    pub max_len: u32,
    /// The smallest number of bytes allowed.
    pub min_len: u32,
    /// Whether queries may use `in` and `nin`.
    pub query: bool,
    /// Whether queries may use `max_len` and `min_len`.
    pub size: bool,
}

impl Default for BinValidator {
    fn default() -> (r: Self)
        ensures
            r.is_default(),
    {
        BinValidator {
            comment: String::new(),
            in_list: Vec::new(),
            nin_list: Vec::new(),
            max_len: u32::MAX,
            min_len: u32::MIN,
            query: false,
            size: false,
        }
    }
}

/// Whether `x` is one of `list`.
pub open spec fn bin_listed(list: Seq<Vec<u8>>, x: Seq<u8>) -> bool {
    exists|i: int| 0 <= i < list.len() && (#[trigger] list[i])@ == x
}

/// Whether `x` is one of `list`.
pub fn bin_in_list(list: &Vec<Vec<u8>>, x: &[u8]) -> (r: bool)
    ensures
        r == bin_listed(list@, x@),
{
    let mut i: usize = 0;
    while i < list.len()
        invariant
            0 <= i <= list.len(),
            forall|j: int| 0 <= j < i ==> (#[trigger] list@[j])@ != x@,
        decreases list.len() - i,
    {
        if bytes_eq(list[i].as_slice(), x) {
            return true;
        }
        i += 1;
    }
    false
}

impl BinValidator {
    /// That every field has its default: no comment, every length allowed, no list, no
    /// permission for queries.
    pub open spec fn is_default(self) -> bool {
        &&& self.comment@.len() == 0
        &&& self.in_list@.len() == 0
        &&& self.nin_list@.len() == 0
        &&& self.max_len == u32::MAX
        &&& self.min_len == 0
        &&& !self.query
        &&& !self.size
    }

    /// The byte strings that pass.
    pub open spec fn accepts(self, x: Seq<u8>) -> bool {
        &&& self.min_len <= x.len() <= self.max_len
        &&& self.in_list@.len() > 0 ==> bin_listed(self.in_list@, x)
        &&& !bin_listed(self.nin_list@, x)
    }

    /// Why `x` does not pass, if it does not: the first of the lengths and lists that it
    /// breaks, the greatest length first.
    pub open spec fn fault(self, x: Seq<u8>) -> Option<Reason> {
        if x.len() > self.max_len {
            Some(Reason::TooLong)
        } else if x.len() < self.min_len {
            Some(Reason::TooShort)
        } else if self.in_list@.len() > 0 && !bin_listed(self.in_list@, x) {
            Some(Reason::NotListed)
        } else if bin_listed(self.nin_list@, x) {
            Some(Reason::Forbidden)
        } else {
            None
        }
    }

    /// A value passes exactly where nothing is wrong with it.
    pub proof fn lemma_fault(self, x: Seq<u8>)
        ensures
            self.accepts(x) <==> self.fault(x) is None,
    {
    }

    /// The queries that a schema with this validator permits, among validators for byte
    /// strings.
    pub open spec fn query_allows(self, other: BinValidator) -> bool {
        &&& self.query || (other.in_list@.len() == 0 && other.nin_list@.len() == 0)
        &&& self.size || (other.max_len == u32::MAX && other.min_len == 0)
    }

    /// The queries that a schema with this validator permits: any query that asks nothing,
    /// a validator of this kind that uses only what the permissions allow, and a choice
    /// each of whose branches is permitted.
    pub open spec fn query_allows_validator(self, other: Validator) -> bool
        decreases other,
    {
        match other {
            Validator::Bin(o) => self.query_allows(*o),
            Validator::Multi(list) => forall|i: int|
                0 <= i < list@.len() ==> self.query_allows_validator(#[trigger] list@[i]),
            Validator::Any => true,
            _ => false,
        }
    }

    /// A validator with the default configuration.
    pub fn new() -> (r: Self)
        ensures
            r.is_default(),
    {
        BinValidator::default()
    }

    /// Sets the comment.
    pub fn comment(self, comment: &str) -> (r: Self)
        ensures
            r == (BinValidator { comment: r.comment, ..self }),
            r.comment@ == comment@,
    {
        let mut s = self;
        s.comment = comment.to_owned();
        s
    }

    /// Adds a byte string to the `in` list.
    pub fn in_add(self, add: Vec<u8>) -> (r: Self)
        ensures
            r == (BinValidator { in_list: r.in_list, ..self }),
            r.in_list@ == self.in_list@.push(add),
    {
        let mut s = self;
        s.in_list.push(add);
        s
    }

    /// Adds a byte string to the `nin` list.
    pub fn nin_add(self, add: Vec<u8>) -> (r: Self)
        ensures
            r == (BinValidator { nin_list: r.nin_list, ..self }),
            r.nin_list@ == self.nin_list@.push(add),
    {
        let mut s = self;
        s.nin_list.push(add);
        s
    }

    /// Sets the largest number of bytes allowed.
    pub fn max_len(self, max_len: u32) -> (r: Self)
        ensures
            r == (BinValidator { max_len, ..self }),
    {
        let mut s = self;
        s.max_len = max_len;
        s
    }

    /// Sets the smallest number of bytes allowed.
    pub fn min_len(self, min_len: u32) -> (r: Self)
        ensures
            r == (BinValidator { min_len, ..self }),
    {
        let mut s = self;
        s.min_len = min_len;
        s
    }

    /// Sets whether queries may use `in` and `nin`.
    pub fn query(self, query: bool) -> (r: Self)
        ensures
            r == (BinValidator { query, ..self }),
    {
        let mut s = self;
        s.query = query;
        s
    }

    /// Sets whether queries may use the lengths.
    pub fn size(self, size: bool) -> (r: Self)
        ensures
            r == (BinValidator { size, ..self }),
    {
        let mut s = self;
        s.size = size;
        s
    }

    /// Wraps this into a `Validator`.
    pub fn build(self) -> (v: Validator)
        ensures
            v == Validator::Bin(Box::new(self)),
    {
        Validator::Bin(Box::new(self))
    }

    /// What is wrong with `x`, if anything.
    pub fn find_fault(&self, x: &[u8]) -> (r: Option<Reason>)
        ensures
            r == self.fault(x@),
    {
        let n = x.len();
        if n > self.max_len as usize {
            return Some(Reason::TooLong);
        }
        if n < self.min_len as usize {
            return Some(Reason::TooShort);
        }
        if self.in_list.len() > 0 && !bin_in_list(&self.in_list, x) {
            return Some(Reason::NotListed);
        }
        if bin_in_list(&self.nin_list, x) {
            return Some(Reason::Forbidden);
        }
        None
    }

    /// Checks the element at the parser's position, and moves the parser past it, whether
    /// the element passes or not; the parser stays where the bytes hold no element.
    ///
    /// Succeeds exactly where that element is a byte string that passes; fails with the
    /// fault of the bytes where they hold no element.
    pub fn validate(&self, parser: &mut Parser) -> (r: Result<(), Error>)
        ensures
            match parse_element(old(parser)@) {
                Ok((ElementView::Bin(x), n)) => if self.accepts(x) {
                    r is Ok && final(parser)@ == old(parser)@.skip(n)
                } else {
                    r is Err && self.fault(x) is Some && r->Err_0 == Error::FailValidate(self.fault(x)->0)
                        && final(parser)@ == old(parser)@.skip(n)
                },
                Ok((_, n)) => r is Err && r->Err_0 == Error::FailValidate(Reason::Kind) && final(parser)@ == old(
                    parser,
                )@.skip(n),
                Err(e) => r is Err && r->Err_0 == e && final(parser)@ == old(parser)@,
            },
    {
        let elem = parser.next()?;
        let v = if let Element::Bin(v) = elem {
            v
        } else {
            return Err(Error::FailValidate(Reason::Kind));
        };
        match self.find_fault(v) {
            None => Ok(()),
            Some(why) => Err(Error::FailValidate(why)),
        }
    }

    /// Whether a schema with this validator permits the query `other`.
    pub fn query_check_self(&self, other: &Self) -> (r: bool)
        ensures
            r == self.query_allows(*other),
    {
        (self.query || (other.in_list.len() == 0 && other.nin_list.len() == 0)) && (self.size || (other.max_len == u32::MAX && other.min_len == 0))
    }

    /// Whether a schema with this validator permits the query `other`.
    pub fn query_check(&self, other: &Validator) -> (r: bool)
        ensures
            r == self.query_allows_validator(*other),
        decreases other,
    {
        match other {
            Validator::Bin(other) => self.query_check_self(other),
            Validator::Multi(list) => {
                let mut i: usize = 0;
                while i < list.len()
                    invariant
                        0 <= i <= list.len(),
                        other is Multi,
                        other->Multi_0 == *list,
                        forall|j: int| 0 <= j < i ==> self.query_allows_validator(#[trigger] list@[j]),
                    decreases list.len() - i,
                {
                    if !self.query_check(&list[i]) {
                        return false;
                    }
                    i += 1;
                }
                true
            },
            Validator::Any => true,
            _ => false,
        }
    }
}

} // verus!
