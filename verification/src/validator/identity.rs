//! The validator for identities.

use vstd::prelude::*;
use crate::crypto::key::{Identity, IdentityView};
use crate::element::Element;
use crate::error::{Error, Reason};
use crate::format::{parse_element, ElementView};
use crate::parser::Parser;
use crate::validator::Validator;

verus! {

/// Validator for identities.
///
/// An identity passes if it is on the `in` list unless that list is empty, and it is not on
/// the `nin` list.
///
/// A query may use `in` and `nin` only where the schema's validator sets `query`.
#[derive(Debug, PartialEq)]
pub struct IdentityValidator {
    /// An optional comment explaining the validator.
    pub comment: String,
    /// The identities allowed, where not empty.
    pub in_list: Vec<Identity>,
    /// The identities not allowed.
    pub nin_list: Vec<Identity>,
    /// Whether queries may use `in` and `nin`.
    pub query: bool,
}

impl Default for IdentityValidator {
    fn default() -> (r: Self)
        ensures
            r.is_default(),
    {
        IdentityValidator {
            comment: String::new(),
            in_list: Vec::new(),
            nin_list: Vec::new(),
            query: false,
        }
    }
}

/// Whether `x` is one of `list`.
pub open spec fn identity_listed(list: Seq<Identity>, x: IdentityView) -> bool {
    exists|i: int| 0 <= i < list.len() && (#[trigger] list[i])@ == x
}

/// Whether `x` is one of `list`.
pub fn identity_in_list(list: &Vec<Identity>, x: &Identity) -> (r: bool)
    ensures
        r == identity_listed(list@, x@),
{
    let mut i: usize = 0;
    while i < list.len()
        invariant
            0 <= i <= list.len(),
            forall|j: int| 0 <= j < i ==> (#[trigger] list@[j])@ != x@,
        decreases list.len() - i,
    {
        if list[i].same(x) {
            return true;
        }
        i += 1;
    }
    false
}

impl IdentityValidator {
    /// That every field has its default: no comment, no list, no permission for queries.
    pub open spec fn is_default(self) -> bool {
        &&& self.comment@.len() == 0
        &&& self.in_list@.len() == 0
        &&& self.nin_list@.len() == 0
        &&& !self.query
    }

    /// The identities that pass.
    pub open spec fn accepts(self, x: IdentityView) -> bool {
        &&& self.in_list@.len() > 0 ==> identity_listed(self.in_list@, x)
        &&& !identity_listed(self.nin_list@, x)
    }

    /// Why `x` does not pass, if it does not: the first of the lists that it breaks, the
    /// list of what is allowed first.
    pub open spec fn fault(self, x: IdentityView) -> Option<Reason> {
        if self.in_list@.len() > 0 && !identity_listed(self.in_list@, x) {
            Some(Reason::NotListed)
        } else if identity_listed(self.nin_list@, x) {
            Some(Reason::Forbidden)
        } else {
            None
        }
    }

    /// A value passes exactly where nothing is wrong with it.
    pub proof fn lemma_fault(self, x: IdentityView)
        ensures
            self.accepts(x) <==> self.fault(x) is None,
    {
    }

    /// The queries that a schema with this validator permits, among validators for
    /// identities.
    pub open spec fn query_allows(self, other: IdentityValidator) -> bool {
        &&& self.query || (other.in_list@.len() == 0 && other.nin_list@.len() == 0)
    }

    /// The queries that a schema with this validator permits: any query that asks nothing,
    /// a validator of this kind that uses only what the permissions allow, and a choice
    /// each of whose branches is permitted.
    pub open spec fn query_allows_validator(self, other: Validator) -> bool
        decreases other,
    {
        match other {
            Validator::Identity(o) => self.query_allows(*o),
            Validator::Multi(list) => forall|i: int|
                0 <= i < list@.len() ==> self.query_allows_validator(#[trigger] list@[i]),
            Validator::Any => true,
            _ => false,
        }
    }

    /// A validator with the default configuration.
    pub fn new() -> (r: Self)
        ensures
            r.is_default(),
    {
        IdentityValidator::default()
    }

    /// Sets the comment.
    pub fn comment(self, comment: &str) -> (r: Self)
        ensures
            r == (IdentityValidator { comment: r.comment, ..self }),
            r.comment@ == comment@,
    {
        let mut s = self;
        s.comment = comment.to_owned();
        s
    }

    /// Adds an identity to the `in` list.
    pub fn in_add(self, add: Identity) -> (r: Self)
        ensures
            r == (IdentityValidator { in_list: r.in_list, ..self }),
            r.in_list@ == self.in_list@.push(add),
    {
        let mut s = self;
        s.in_list.push(add);
        s
    }

    /// Adds an identity to the `nin` list.
    pub fn nin_add(self, add: Identity) -> (r: Self)
        ensures
            r == (IdentityValidator { nin_list: r.nin_list, ..self }),
            r.nin_list@ == self.nin_list@.push(add),
    {
        let mut s = self;
        s.nin_list.push(add);
        s
    }

    /// Sets whether queries may use `in` and `nin`.
    pub fn query(self, query: bool) -> (r: Self)
        ensures
            r == (IdentityValidator { query, ..self }),
    {
        let mut s = self;
        s.query = query;
        s
    }

    /// Wraps this into a `Validator`.
    pub fn build(self) -> (v: Validator)
        ensures
            v == Validator::Identity(Box::new(self)),
    {
        Validator::Identity(Box::new(self))
    }

    /// What is wrong with `x`, if anything.
    pub fn find_fault(&self, x: &Identity) -> (r: Option<Reason>)
        ensures
            r == self.fault(x@),
    {
        if self.in_list.len() > 0 && !identity_in_list(&self.in_list, x) {
            return Some(Reason::NotListed);
        }
        if identity_in_list(&self.nin_list, x) {
            return Some(Reason::Forbidden);
        }
        None
    }

    /// Checks the element at the parser's position, and moves the parser past it, whether
    /// the element passes or not; the parser stays where the bytes hold no element.
    ///
    /// Succeeds exactly where that element is an identity that passes; fails with the fault
    /// of the bytes where they hold no element.
    pub fn validate(&self, parser: &mut Parser) -> (r: Result<(), Error>)
        ensures
            match parse_element(old(parser)@) {
                Ok((ElementView::Identity(x), n)) => if self.accepts(x) {
                    r is Ok && final(parser)@ == old(parser)@.skip(n)
                } else {
                    r is Err && self.fault(x) is Some && r->Err_0 == Error::FailValidate(self.fault(x)->0)
                        && final(parser)@ == old(parser)@.skip(n)
                },
                Ok((_, n)) => r is Err && r->Err_0 == Error::FailValidate(Reason::Kind) && final(parser)@ == old(
                    parser,
                )@.skip(n),
                Err(e) => r is Err && r->Err_0 == e && final(parser)@ == old(parser)@,
            },
    {
        let elem = parser.next()?;
        let v = if let Element::Identity(v) = elem {
            v
        } else {
            return Err(Error::FailValidate(Reason::Kind));
        };
        match self.find_fault(&v) {
            None => Ok(()),
            Some(why) => Err(Error::FailValidate(why)),
        }
    }

    /// Whether a schema with this validator permits the query `other`.
    pub fn query_check_self(&self, other: &Self) -> (r: bool)
        ensures
            r == self.query_allows(*other),
    {
        (self.query || (other.in_list.len() == 0 && other.nin_list.len() == 0))
    }

    /// Whether a schema with this validator permits the query `other`.
    pub fn query_check(&self, other: &Validator) -> (r: bool)
        ensures
            r == self.query_allows_validator(*other),
        decreases other,
    {
        match other {
            Validator::Identity(other) => self.query_check_self(other),
            Validator::Multi(list) => {
                let mut i: usize = 0;
                while i < list.len()
                    invariant
                        0 <= i <= list.len(),
                        other is Multi,
                        other->Multi_0 == *list,
                        forall|j: int| 0 <= j < i ==> self.query_allows_validator(#[trigger] list@[j]),
                    decreases list.len() - i,
                {
                    if !self.query_check(&list[i]) {
                        return false;
                    }
                    i += 1;
                }
                true
            },
            Validator::Any => true,
            _ => false,
        }
    }
}

} // verus!
