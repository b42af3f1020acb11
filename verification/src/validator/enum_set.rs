//! The validator for enums: one of a set of named variants, with or without data.

use vstd::prelude::*;
use vstd::string::StringSliceAdditionalSpecFns;
use vstd::utf8::encode_utf8;
use crate::assoc::{assoc_find, assoc_insert, find_key, held, lemma_find_from, names_ascending};
use crate::codec::{lemma_encode_parse_value, parse_entries, parse_value};
use crate::element::Element;
use crate::error::{Error, Reason};
use crate::format::{lemma_encode_parse_element, parse_element};
use crate::parser::Parser;
use crate::validator::checklist::Checklist;
use crate::validator::deferred::{enum_deferred, lemma_with_nothing};
use crate::validator::rules::{enum_accepts, enum_depth_suffices, passes, validated};
use crate::validator::{Types, Validator};
use crate::value::ValueView;

verus! {

/// Whether the flag is off.
pub fn is_false(v: &bool) -> (r: bool)
    ensures
        r == !*v,
{
    !*v
}

/// "Enum" validator, which picks a validator by the variant that a value names.
///
/// It expects an enum as it is written: a string alone, for a variant without data, or an
/// object with a single key-value pair, the key naming the variant and the value being its
/// data. The variant must be listed in `var`. A variant without data must be listed without
/// a validator; the data of one with data must pass the validator it is listed with.
///
/// A query must be an enum validator itself, or ask nothing. It may list fewer variants than
/// the schema's validator, but none that the schema's does not list; a variant without
/// validator must be one on both sides, and the validator of any other must be permitted by
/// the schema's validator for that variant.
#[derive(Debug, PartialEq)]
pub struct EnumValidator {
    /// An optional comment explaining the validator.
    comment: String,
    /// Whether the enum is meant to grow in later versions of the schema.
    extend: bool,
    /// The variants, each with the validator of its data, in the ascending order of their
    /// names, so that no name occurs twice.
    var: Vec<(String, Option<Validator>)>,
}

impl Default for EnumValidator {
    fn default() -> (r: Self)
        ensures
            r.is_default(),
    {
        EnumValidator { comment: String::new(), extend: false, var: Vec::new() }
    }
}

impl EnumValidator {
    /// That every field has its default: no comment, not extensible, no variant.
    pub open spec fn is_default(self) -> bool {
        &&& self.spec_comment().len() == 0
        &&& !self.spec_extend()
        &&& self.spec_var().len() == 0
    }

    /// Make a new validator with the default configuration.
    pub fn new() -> (r: Self)
        ensures
            r.is_default(),
    {
        Self::default()
    }

    #[verifier::type_invariant]
    spec fn inv(self) -> bool {
        names_ascending(self.var@)
    }

    /// The comment.
    pub closed spec fn spec_comment(self) -> Seq<char> {
        self.comment@
    }

    /// Whether the enum is meant to grow.
    pub closed spec fn spec_extend(self) -> bool {
        self.extend
    }

    /// The variants, each with the validator of its data.
    pub closed spec fn spec_var(self) -> Seq<(String, Option<Validator>)> {
        self.var@
    }

    /// The variants are parts of the validator, and so are their validators.
    pub proof fn lemma_var_decreases(self, i: int)
        ensures
            decreases_to!(self => self.spec_var()),
            0 <= i < self.spec_var().len() ==> decreases_to!(self => self.spec_var()[i]),
            0 <= i < self.spec_var().len() && self.spec_var()[i].1 is Some ==> decreases_to!(self => self.spec_var()[i].1->0),
    {
        assert(decreases_to!(self => self.var));
        assert(decreases_to!(self.var => self.var@));
        if 0 <= i < self.var@.len() {
            assert(decreases_to!(self.var@ => self.var@[i]));
            assert(decreases_to!(self.var@[i] => self.var@[i].1));
            if self.var@[i].1 is Some {
                assert(decreases_to!(self.var@[i].1 => self.var@[i].1->0));
            }
        }
    }

    /// The validator of the given parts. The names of the variants ascend.
    pub(crate) fn from_parts(comment: String, extend: bool, var: Vec<(String, Option<Validator>)>) -> (r: Self)
        requires
            names_ascending(var@),
        ensures
            r.spec_comment() == comment@,
            r.spec_extend() == extend,
            r.spec_var() == var@,
    {
        EnumValidator { comment, extend, var }
    }

    /// Set a comment for the validator.
    pub fn comment(self, comment: &str) -> (r: Self)
        ensures
            r.spec_comment() == comment@,
            r.spec_extend() == self.spec_extend(),
            r.spec_var() == self.spec_var(),
    {
        proof {
            use_type_invariant(&self);
        }
        let EnumValidator { comment: _, extend, var } = self;
        EnumValidator { comment: comment.to_owned(), extend, var }
    }

    /// Mark whether or not the enum can be extended.
    pub fn extensible(self, extend: bool) -> (r: Self)
        ensures
            r.spec_comment() == self.spec_comment(),
            r.spec_extend() == extend,
            r.spec_var() == self.spec_var(),
    {
        proof {
            use_type_invariant(&self);
        }
        let EnumValidator { comment, extend: _, var } = self;
        EnumValidator { comment, extend, var }
    }

    /// Add a variant to the set, in place of the one of that name if there is one. The
    /// variants stay in the ascending order of their names.
    pub fn insert(self, variant: &str, validator: Option<Validator>) -> (r: Self)
        ensures
            r.spec_comment() == self.spec_comment(),
            r.spec_extend() == self.spec_extend(),
            held(r.spec_var()) == held(self.spec_var()).insert(encode_utf8(variant@), validator),
            names_ascending(r.spec_var()),
    {
        proof {
            use_type_invariant(&self);
        }
        let EnumValidator { comment, extend, var } = self;
        let mut var = var;
        assoc_insert(&mut var, variant.to_owned(), validator);
        EnumValidator { comment, extend, var }
    }

    /// Wraps this into a `Validator`.
    pub fn build(self) -> (v: Validator)
        ensures
            v == Validator::Enum(self),
    {
        Validator::Enum(self)
    }

    /// The comment.
    pub fn get_comment(&self) -> (c: &String)
        ensures
            c@ == self.spec_comment(),
    {
        &self.comment
    }

    /// Whether the enum is meant to grow in later versions of the schema.
    pub fn is_extensible(&self) -> (b: bool)
        ensures
            b == self.spec_extend(),
    {
        self.extend
    }

    /// All the variants with their validators, in the ascending order of their names: no
    /// name occurs twice.
    pub fn iter(&self) -> (list: &Vec<(String, Option<Validator>)>)
        ensures
            list@ == self.spec_var(),
            names_ascending(list@),
    {
        proof {
            use_type_invariant(self);
        }
        &self.var
    }

    /// All the validators in this enum, in the order of their variants' names.
    pub fn values(&self) -> (list: Vec<&Option<Validator>>)
        ensures
            list@.len() == self.spec_var().len(),
            forall|i: int| 0 <= i < list@.len() ==> *(#[trigger] list@[i]) == self.spec_var()[i].1,
    {
        let mut list: Vec<&Option<Validator>> = Vec::new();
        let mut i: usize = 0;
        while i < self.var.len()
            invariant
                0 <= i <= self.spec_var().len(),
                list@.len() == i,
                forall|j: int| 0 <= j < i ==> *(#[trigger] list@[j]) == self.spec_var()[j].1,
            decreases self.spec_var().len() - i,
        {
            list.push(&self.var[i].1);
            i += 1;
        }
        list
    }

    /// Checks the value at the parser's position: a string that names a variant without
    /// data, or an object of one pair that names a variant and holds its data.
    ///
    /// Succeeds exactly where the bytes at the parser hold a value that this validator
    /// passes, validators leading into one another at most `depth` deep.
    pub fn validate<'a>(&self, types: &Types, parser: Parser<'a>, checklist: Option<Checklist>, depth: usize) -> (r:
        Result<(Parser<'a>, Option<Checklist>), Error>)
        ensures
            validated(
                r,
                depth > 0 && parse_value(parser@, depth as nat) is Ok && enum_accepts(
                    *self,
                    types@,
                    parse_value(parser@, depth as nat)->Ok_0.0,
                    (depth - 1) as nat,
                ),
                parser@,
                depth as nat,
                checklist,
                enum_deferred(*self, types@, parse_value(parser@, depth as nat)->Ok_0.0, (depth - 1) as nat),
                depth > 0 && enum_depth_suffices(
                    *self,
                    types@,
                    parse_value(parser@, depth as nat)->Ok_0.0,
                    (depth - 1) as nat,
                ),
            ),
        decreases depth, 0nat,
    {
        let ghost b = parser@;
        let ghost d = depth as nat;
        if depth == 0 {
            return Err(Error::DepthExceeded);
        }
        proof {
            reveal_with_fuel(parse_entries, 3);
            lemma_with_nothing(checklist, checklist);
            if parse_value(b, d) is Ok {
                crate::codec::lemma_parse_head(b, d);
            }
            if parse_element(b) is Ok {
                lemma_encode_parse_element(b);
            }
        }
        let mut parser = parser;
        // Get the enum itself, which should be a map with 1 key-value pair or a string.
        let elem = parser.next()?;
        let (key, has_value) = match elem {
            Element::Str(v) => (v, false),
            Element::Obj(n) => {
                if n != 1 {
                    return Err(Error::FailValidate(Reason::Kind));
                }
                proof {
                    if parse_element(parser@) is Ok {
                        lemma_encode_parse_element(parser@);
                    }
                }
                let key = parser.next()?;
                if let Element::Str(key) = key {
                    (key, true)
                } else {
                    return Err(Error::FailValidate(Reason::Kind));
                }
            },
            _ => {
                return Err(Error::FailValidate(Reason::Kind));
            },
        };
        // Find the matching validator and verify the (possible) content against it
        let k = match assoc_find(&self.var, key) {
            Some(k) => k,
            None => {
                return Err(Error::FailValidate(Reason::Variant));
            },
        };
        proof {
            lemma_find_from(self.spec_var(), key.spec_bytes(), 0);
        }
        match (&self.var[k].1, has_value) {
            (None, false) => Ok((parser, checklist)),
            (None, true) => Err(Error::FailValidate(Reason::Variant)),
            (Some(_), false) => Err(Error::FailValidate(Reason::Variant)),
            (Some(validator), true) => {
                let visited: Vec<usize> = Vec::new();
                assert(visited@ =~= Seq::empty());
                let ghost b2 = parser@;
                let r = validator.validate_within(types, parser, checklist, &visited, depth - 1);
                proof {
                    if parse_value(b2, (d - 1) as nat) is Ok {
                        lemma_encode_parse_value(b2, (d - 1) as nat);
                        let (val, m) = parse_value(b2, (d - 1) as nat)->Ok_0;
                        let h = parse_element(b)->Ok_0.1;
                        let kn = parse_element(b.skip(h))->Ok_0.1;
                        assert(b2 == b.skip(h).skip(kn));
                        assert(b.skip(h).skip(kn + m) =~= b2.skip(m));
                        assert(b2.skip(m) =~= b.skip(h + kn + m));
                        let entries = seq![(key.spec_bytes(), val)] + Seq::<(Seq<u8>, ValueView)>::empty();
                        assert(entries[0] == (key.spec_bytes(), val));
                        assert(parse_entries(b.skip(h), 1, (d - 1) as nat, None) == Ok::<
                            (Seq<(Seq<u8>, ValueView)>, int),
                            Error,
                        >((entries, kn + m + 0)));
                    }
                }
                r
            },
        }
    }

    /// The queries that a schema with this validator permits: any query that asks nothing;
    /// enum validators all of whose variants this one lists, a variant without validator
    /// as one without, and any other with a validator that permits the query's; and a
    /// choice each of whose branches it permits, with one level of depth less.
    pub open spec fn query_allows(self, types: Seq<(String, Validator)>, other: Validator, depth: nat) -> bool
        decreases depth, 1nat,
    {
        match other {
            Validator::Enum(o) => forall|i: int|
                0 <= i < o.spec_var().len() ==> self.variant_allows(types, #[trigger] o.spec_var()[i], depth),
            Validator::Multi(list) => depth > 0 && forall|i: int|
                0 <= i < list@.len() ==> self.query_allows(types, #[trigger] list@[i], (depth - 1) as nat),
            Validator::Any => true,
            _ => false,
        }
    }

    /// Whether this validator permits a query to list the variant `item`.
    pub open spec fn variant_allows(
        self,
        types: Seq<(String, Validator)>,
        item: (String, Option<Validator>),
        depth: nat,
    ) -> bool
        decreases depth, 0nat,
    {
        match find_key(self.spec_var(), encode_utf8(item.0@)) {
            None => false,
            Some(k) => 0 <= k < self.spec_var().len() && match (self.spec_var()[k].1, item.1) {
                (Some(mine), Some(theirs)) => if depth == 0 {
                    false
                } else {
                    crate::validator::query::allows(mine, types, theirs, (depth - 1) as nat)
                },
                (None, None) => true,
                _ => false,
            },
        }
    }

    /// Whether a schema with this validator permits the query `other`.
    pub fn query_check(&self, types: &Types, other: &Validator, depth: usize) -> (r: bool)
        ensures
            r == self.query_allows(types@, *other, depth as nat),
        decreases depth, 1nat,
    {
        match other {
            Validator::Enum(other_enum) => {
                // For each entry in the query's enum, make sure it:
                // 1. Has a corresponding entry in our enum
                // 2. That our enum's matching validator would allow the query's validator
                //    for that enum.
                // 3. If both have a "None" instead of a validator, that's also OK
                let mut i: usize = 0;
                while i < other_enum.var.len()
                    invariant
                        0 <= i <= other_enum.spec_var().len(),
                        other is Enum,
                        other->Enum_0 == *other_enum,
                        forall|j: int|
                            0 <= j < i ==> self.variant_allows(
                                types@,
                                #[trigger] other_enum.spec_var()[j],
                                depth as nat,
                            ),
                    decreases other_enum.spec_var().len() - i,
                {
                    let item = &other_enum.var[i];
                    let ok = match assoc_find(&self.var, item.0.as_str()) {
                        None => false,
                        Some(k) => {
                            proof {
                                lemma_find_from(self.spec_var(), encode_utf8(item.0@), 0);
                            }
                            match (&self.var[k].1, &item.1) {
                                (Some(validator), Some(other_v)) => depth > 0
                                    && validator.query_check_within(types, other_v, depth - 1),
                                (None, None) => true,
                                _ => false,
                            }
                        },
                    };
                    if !ok {
                        assert(!self.variant_allows(types@, other_enum.spec_var()[i as int], depth as nat));
                        return false;
                    }
                    i += 1;
                }
                true
            },
            Validator::Multi(list) => {
                if depth == 0 {
                    return false;
                }
                let mut i: usize = 0;
                while i < list.len()
                    invariant
                        0 <= i <= list.len(),
                        depth > 0,
                        other is Multi,
                        other->Multi_0 == *list,
                        forall|j: int|
                            0 <= j < i ==> self.query_allows(types@, #[trigger] list@[j], (depth - 1) as nat),
                    decreases list.len() - i,
                {
                    if !self.query_check(types, &list[i], depth - 1) {
                        return false;
                    }
                    i += 1;
                }
                true
            },
            Validator::Any => true,
            _ => false,
        }
    }
}

} // verus!
