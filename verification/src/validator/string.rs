//! The validator for strings.

use vstd::prelude::*;
use vstd::string::StringSliceAdditionalSpecFns;
use vstd::utf8::encode_utf8;
use crate::bytes::bytes_eq;
use crate::element::Element;
use crate::error::{Error, Reason};
use crate::format::{parse_element, ElementView};
use crate::parser::Parser;
use crate::validator::Validator;

verus! {

/// Validator for strings.
///
/// A string passes if its length in bytes lies within `min_len` and `max_len`, it is on the
/// `in` list unless that list is empty, and it is not on the `nin` list.
///
/// A query may use `in` and `nin` only where the schema's validator sets `query`, and
/// lengths only where it sets `size`.
#[derive(Debug, PartialEq)]
pub struct StrValidator {
    /// An optional comment explaining the validator.
    pub comment: String,
    /// The strings allowed, where not empty.
    pub in_list: Vec<String>,
    /// The strings not allowed.
    pub nin_list: Vec<String>,
    /// The largest number of bytes allowed.
    pub max_len: u32,
    /// The smallest number of bytes allowed.
    pub min_len: u32,
    /// Whether queries may use `in` and `nin`.
    pub query: bool,
    /// Whether queries may use `max_len` and `min_len`.
    pub size: bool,
}

impl Default for StrValidator {
    fn default() -> (r: Self)
        ensures
            r.is_default(),
    {
        StrValidator {
            comment: String::new(),
            in_list: Vec::new(),
            nin_list: Vec::new(),
            max_len: u32::MAX,
            min_len: u32::MIN,
            query: false,
            size: false,
        }
    }
}

/// Whether the string with the bytes `s` is one of `list`.
pub open spec fn str_listed(list: Seq<String>, s: Seq<u8>) -> bool {
    exists|i: int| 0 <= i < list.len() && encode_utf8((#[trigger] list[i])@) == s
}

/// Whether `s` is one of `list`.
pub fn str_in_list(list: &Vec<String>, s: &str) -> (r: bool)
    ensures
        r == str_listed(list@, s.spec_bytes()),
{
    let mut i: usize = 0;
    while i < list.len()
        invariant
            0 <= i <= list.len(),
            forall|j: int| 0 <= j < i ==> encode_utf8((#[trigger] list@[j])@) != s.spec_bytes(),
        decreases list.len() - i,
    {
        if bytes_eq(list[i].as_str().as_bytes(), s.as_bytes()) {
            return true;
        }
        i += 1;
    }
    false
}

impl StrValidator {
    /// That every field has its default: no comment, every length allowed, no list, no
    /// permission for queries.
    pub open spec fn is_default(self) -> bool {
        &&& self.comment@.len() == 0
        &&& self.in_list@.len() == 0
        &&& self.nin_list@.len() == 0
        &&& self.max_len == u32::MAX
        &&& self.min_len == 0
        &&& !self.query
        &&& !self.size
    }

    /// The strings that pass, each given as its bytes.
    pub open spec fn accepts(self, s: Seq<u8>) -> bool {
        &&& self.min_len <= s.len() <= self.max_len
        &&& self.in_list@.len() > 0 ==> str_listed(self.in_list@, s)
        &&& !str_listed(self.nin_list@, s)
    }

    /// Why the string with the bytes `s` does not pass, if it does not: the first of the
    /// lengths and lists that it breaks, the greatest length first.
    pub open spec fn fault(self, s: Seq<u8>) -> Option<Reason> {
        if s.len() > self.max_len {
            Some(Reason::TooLong)
        } else if s.len() < self.min_len {
            Some(Reason::TooShort)
        } else if self.in_list@.len() > 0 && !str_listed(self.in_list@, s) {
            Some(Reason::NotListed)
        } else if str_listed(self.nin_list@, s) {
            Some(Reason::Forbidden)
        } else {
            None
        }
    }

    /// A string passes exactly where nothing is wrong with it.
    pub proof fn lemma_fault(self, s: Seq<u8>)
        ensures
            self.accepts(s) <==> self.fault(s) is None,
    {
    }

    /// The queries that a schema with this validator permits, among string validators.
    pub open spec fn query_allows(self, other: StrValidator) -> bool {
        &&& self.query || (other.in_list@.len() == 0 && other.nin_list@.len() == 0)
        &&& self.size || (other.max_len == u32::MAX && other.min_len == 0)
    }

    /// The queries that a schema with this validator permits: any query that asks nothing,
    /// a validator of this kind that uses only what the permissions allow, and a choice
    /// each of whose branches is permitted.
    pub open spec fn query_allows_validator(self, other: Validator) -> bool
        decreases other,
    {
        match other {
            Validator::Str(o) => self.query_allows(*o),
            Validator::Multi(list) => forall|i: int|
                0 <= i < list@.len() ==> self.query_allows_validator(#[trigger] list@[i]),
            Validator::Any => true,
            _ => false,
        }
    }

    /// A validator with the default configuration.
    pub fn new() -> (r: Self)
        ensures
            r.is_default(),
    {
        StrValidator::default()
    }

    /// Sets the comment.
    pub fn comment(self, comment: &str) -> (r: Self)
        ensures
            r == (StrValidator { comment: r.comment, ..self }),
            r.comment@ == comment@,
    {
        let mut s = self;
        s.comment = comment.to_owned();
        s
    }

    /// Adds a string to the `in` list.
    pub fn in_add(self, add: &str) -> (r: Self)
        ensures
            r == (StrValidator { in_list: r.in_list, ..self }),
            r.in_list@.len() == self.in_list@.len() + 1,
            r.in_list@.drop_last() == self.in_list@,
            r.in_list@.last()@ == add@,
    {
        let mut s = self;
        s.in_list.push(add.to_owned());
        assert(s.in_list@.drop_last() =~= self.in_list@);
        s
    }

    /// Adds a string to the `nin` list.
    pub fn nin_add(self, add: &str) -> (r: Self)
        ensures
            r == (StrValidator { nin_list: r.nin_list, ..self }),
            r.nin_list@.len() == self.nin_list@.len() + 1,
            r.nin_list@.drop_last() == self.nin_list@,
            r.nin_list@.last()@ == add@,
    {
        let mut s = self;
        s.nin_list.push(add.to_owned());
        assert(s.nin_list@.drop_last() =~= self.nin_list@);
        s
    }

    /// Sets the largest number of bytes allowed.
    pub fn max_len(self, max_len: u32) -> (r: Self)
        ensures
            r == (StrValidator { max_len, ..self }),
    {
        let mut s = self;
        s.max_len = max_len;
        s
    }

    /// Sets the smallest number of bytes allowed.
    pub fn min_len(self, min_len: u32) -> (r: Self)
        ensures
            r == (StrValidator { min_len, ..self }),
    {
        let mut s = self;
        s.min_len = min_len;
        s
    }

    /// Sets whether queries may use `in` and `nin`.
    pub fn query(self, query: bool) -> (r: Self)
        ensures
            r == (StrValidator { query, ..self }),
    {
        let mut s = self;
        s.query = query;
        s
    }

    /// Sets whether queries may use the lengths.
    pub fn size(self, size: bool) -> (r: Self)
        ensures
            r == (StrValidator { size, ..self }),
    {
        let mut s = self;
        s.size = size;
        s
    }

    /// Wraps this into a `Validator`.
    pub fn build(self) -> (v: Validator)
        ensures
            v == Validator::Str(Box::new(self)),
    {
        Validator::Str(Box::new(self))
    }

    /// What is wrong with the string, if anything.
    pub fn find_fault(&self, s: &str) -> (r: Option<Reason>)
        ensures
            r == self.fault(s.spec_bytes()),
    {
        let n = s.as_bytes().len();
        if n > self.max_len as usize {
            return Some(Reason::TooLong);
        }
        if n < self.min_len as usize {
            return Some(Reason::TooShort);
        }
        if self.in_list.len() > 0 && !str_in_list(&self.in_list, s) {
            return Some(Reason::NotListed);
        }
        if str_in_list(&self.nin_list, s) {
            return Some(Reason::Forbidden);
        }
        None
    }

    /// Whether the string passes.
    pub fn check(&self, s: &str) -> (r: bool)
        ensures
            r == self.accepts(s.spec_bytes()),
    {
        self.find_fault(s).is_none()
    }

    /// Checks the element at the parser's position, and moves the parser past it, whether
    /// the element passes or not; the parser stays where the bytes hold no element.
    ///
    /// Succeeds exactly where that element is a string that passes; fails with the fault of
    /// the bytes where they hold no element.
    pub fn validate(&self, parser: &mut Parser) -> (r: Result<(), Error>)
        ensures
            match parse_element(old(parser)@) {
                Ok((ElementView::Str(s), n)) => if self.accepts(s) {
                    r is Ok && final(parser)@ == old(parser)@.skip(n)
                } else {
                    r is Err && self.fault(s) is Some && r->Err_0 == Error::FailValidate(self.fault(s)->0)
                        && final(parser)@ == old(parser)@.skip(n)
                },
                Ok((_, n)) => r is Err && r->Err_0 == Error::FailValidate(Reason::Kind) && final(parser)@ == old(
                    parser,
                )@.skip(n),
                Err(e) => r is Err && r->Err_0 == e && final(parser)@ == old(parser)@,
            },
    {
        let elem = parser.next()?;
        let val = if let Element::Str(v) = elem {
            v
        } else {
            return Err(Error::FailValidate(Reason::Kind));
        };
        match self.find_fault(val) {
            None => Ok(()),
            Some(why) => Err(Error::FailValidate(why)),
        }
    }

    /// Whether a schema with this validator permits the query `other`.
    pub fn query_check_self(&self, other: &Self) -> (r: bool)
        ensures
            r == self.query_allows(*other),
    {
        (self.query || (other.in_list.len() == 0 && other.nin_list.len() == 0)) && (self.size || (
            other.max_len == u32::MAX && other.min_len == 0))
    }

    /// Whether a schema with this validator permits the query `other`.
    pub fn query_check(&self, other: &Validator) -> (r: bool)
        ensures
            r == self.query_allows_validator(*other),
        decreases other,
    {
        match other {
            Validator::Str(other) => self.query_check_self(other),
            Validator::Multi(list) => {
                let mut i: usize = 0;
                while i < list.len()
                    invariant
                        0 <= i <= list.len(),
                        other is Multi,
                        other->Multi_0 == *list,
                        forall|j: int| 0 <= j < i ==> self.query_allows_validator(#[trigger] list@[j]),
                    decreases list.len() - i,
                {
                    if !self.query_check(&list[i]) {
                        return false;
                    }
                    i += 1;
                }
                true
            },
            Validator::Any => true,
            _ => false,
        }
    }
}

} // verus!
