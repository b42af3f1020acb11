//! The validator for hashes.

use vstd::prelude::*;
use crate::crypto::hash;
use crate::element::Element;
use crate::error::{Error, Reason};
use crate::format::{parse_element, ElementView};
use crate::parser::Parser;
use crate::crypto::hash::HashView;
use crate::validator::checklist::{copy_hashes, hashes_view, Checklist};
use crate::validator::deferred::checklist_with;
use crate::validator::Validator;

verus! {

/// Validator for hashes.
///
/// Every hash passes. Where `schema` is not empty, the document that the hash names must
/// stand under one of those schemas; that cannot be seen from the value, so it is put on the
/// checklist for the caller to settle.
///
/// A query may use `schema` only where the schema's validator sets `schema_ok`.
#[derive(Debug, PartialEq)]
pub struct HashValidator {
    /// An optional comment explaining the validator.
    pub comment: String,
    /// The schemas of which the document that the hash names must have one, where not
    /// empty.
    pub schema: Vec<hash::Hash>,
    /// Whether queries may use `schema`.
    pub schema_ok: bool,
}

impl Default for HashValidator {
    fn default() -> (r: Self)
        ensures
            r.is_default(),
    {
        HashValidator { comment: String::new(), schema: Vec::new(), schema_ok: false }
    }
}

impl HashValidator {
    /// That every field has its default: no comment, no schema asked for, no permission for
    /// queries.
    pub open spec fn is_default(self) -> bool {
        &&& self.comment@.len() == 0
        &&& self.schema@.len() == 0
        &&& !self.schema_ok
    }

    /// The queries that a schema with this validator permits, among hash validators.
    pub open spec fn query_allows(self, other: HashValidator) -> bool {
        self.schema_ok || other.schema@.len() == 0
    }

    /// The queries that a schema with this validator permits: any query that asks nothing,
    /// a validator of this kind that uses only what the permissions allow, and a choice
    /// each of whose branches is permitted.
    pub open spec fn query_allows_validator(self, other: Validator) -> bool
        decreases other,
    {
        match other {
            Validator::Hash(o) => self.query_allows(*o),
            Validator::Multi(list) => forall|i: int|
                0 <= i < list@.len() ==> self.query_allows_validator(#[trigger] list@[i]),
            Validator::Any => true,
            _ => false,
        }
    }

    /// A validator with the default configuration.
    pub fn new() -> (r: Self)
        ensures
            r.is_default(),
    {
        Self::default()
    }

    /// Sets the comment.
    pub fn comment(self, comment: &str) -> (r: Self)
        ensures
            r == (HashValidator { comment: r.comment, ..self }),
            r.comment@ == comment@,
    {
        let mut s = self;
        s.comment = comment.to_owned();
        s
    }

    /// Adds a schema under which the document that the hash names may stand.
    pub fn schema_add(self, schema: hash::Hash) -> (r: Self)
        ensures
            r == (HashValidator { schema: r.schema, ..self }),
            r.schema@ == self.schema@.push(schema),
    {
        let mut s = self;
        s.schema.push(schema);
        s
    }

    /// Sets whether queries may use `schema`.
    pub fn schema_ok(self, schema_ok: bool) -> (r: Self)
        ensures
            r == (HashValidator { schema_ok, ..self }),
    {
        let mut s = self;
        s.schema_ok = schema_ok;
        s
    }

    /// Wraps this into a `Validator`.
    pub fn build(self) -> (v: Validator)
        ensures
            v == Validator::Hash(Box::new(self)),
    {
        Validator::Hash(Box::new(self))
    }

    /// Checks the element at the parser's position, and moves the parser past it, whether
    /// the element passes or not; the parser stays where the bytes hold no element.
    ///
    /// Succeeds exactly where that element is a hash. Where schemas are asked for and there
    /// is a checklist, the hash goes on the checklist with them; nothing else is put on it.
    pub fn validate(&self, parser: &mut Parser, checklist: Option<Checklist>) -> (r: Result<
        Option<Checklist>,
        Error,
    >)
        ensures
            match parse_element(old(parser)@) {
                Ok((ElementView::Hash(h), n)) => {
                    &&& r is Ok
                    &&& final(parser)@ == old(parser)@.skip(n)
                    &&& checklist_with(
                        checklist,
                        r->Ok_0,
                        if self.schema@.len() == 0 {
                            Seq::empty()
                        } else {
                            seq![(h, hashes_view(self.schema@))]
                        },
                    )
                },
                Ok((_, n)) => r is Err && r->Err_0 == Error::FailValidate(Reason::Kind) && final(parser)@ == old(
                    parser,
                )@.skip(n),
                Err(e) => r is Err && r->Err_0 == e && final(parser)@ == old(parser)@,
            },
    {
        let elem = parser.next()?;
        let val = if let Element::Hash(v) = elem {
            v
        } else {
            return Err(Error::FailValidate(Reason::Kind));
        };
        match checklist {
            Some(c) => {
                let mut c = c;
                let ghost before = c@;
                if self.schema.len() > 0 {
                    c.add(val, copy_hashes(&self.schema));
                    assert(c@ =~= before + seq![(val@, hashes_view(self.schema@))]);
                } else {
                    assert(c@ =~= before + Seq::<(HashView, Seq<HashView>)>::empty());
                }
                Ok(Some(c))
            },
            None => Ok(None),
        }
    }

    /// Whether a schema with this validator permits the query `other`.
    pub fn query_check_self(&self, other: &Self) -> (r: bool)
        ensures
            r == self.query_allows(*other),
    {
        self.schema_ok || other.schema.len() == 0
    }

    /// Whether a schema with this validator permits the query `other`.
    pub fn query_check(&self, other: &Validator) -> (r: bool)
        ensures
            r == self.query_allows_validator(*other),
        decreases other,
    {
        match other {
            Validator::Hash(other) => self.query_check_self(other),
            Validator::Multi(list) => {
                let mut i: usize = 0;
                while i < list.len()
                    invariant
                        0 <= i <= list.len(),
                        other is Multi,
                        other->Multi_0 == *list,
                        forall|j: int| 0 <= j < i ==> self.query_allows_validator(#[trigger] list@[j]),
                    decreases list.len() - i,
                {
                    if !self.query_check(&list[i]) {
                        return false;
                    }
                    i += 1;
                }
                true
            },
            Validator::Any => true,
            _ => false,
        }
    }
}

} // verus!
