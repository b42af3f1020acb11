//! Validators: what a schema says of a value, and what it lets a query ask.

pub mod array;
pub mod binary;
pub mod boolean;
pub mod checklist;
pub mod deferred;
pub mod enum_set;
pub mod hash;
pub mod identity;
pub mod integer;
pub mod lockbox;
pub mod obj;
pub mod query;
pub mod reading;
pub mod refine;
pub mod rules;
pub mod schema_form;
pub mod serial;
pub mod serial_kinds;
pub mod string;
pub mod time;
pub mod written;

use vstd::prelude::*;
use vstd::string::StringSliceAdditionalSpecFns;
use vstd::utf8::encode_utf8;
use crate::assoc::{assoc_find, find_key, held, lemma_find_from, names_ascending};
use crate::codec::{
    lemma_encode_parse_value, lemma_parse_at_depth, lemma_parse_deeper, lemma_parse_fault_deeper, parse_value,
};
use crate::element::Element;
use crate::error::{Error, Reason};
use crate::format::{lemma_encode_parse_element, parse_element};
use crate::parser::Parser;
use crate::validator::array::index_in_list;
use crate::validator::checklist::{copy_checklist, Checklist};
use crate::validator::deferred::{deferred, lemma_first_accepting, lemma_with_nothing};
use crate::validator::rules::{
    accepts, depth_suffices, lemma_accepts_fits, passes, type_visited, validated,
};
use crate::MAX_DEPTH;
use crate::validator::array::ArrayValidator;
use crate::validator::binary::BinValidator;
use crate::validator::boolean::BoolValidator;
use crate::validator::identity::IdentityValidator;
use crate::validator::lockbox::LockboxValidator;
use crate::validator::enum_set::EnumValidator;
use crate::validator::hash::HashValidator;
use crate::validator::integer::IntValidator;
use crate::validator::obj::ObjValidator;
use crate::validator::string::StrValidator;
use crate::validator::time::TimeValidator;

verus! {

/// A node of the grammar that a schema lays over values.
#[derive(Debug, PartialEq)]
pub enum Validator {
    /// Passes only null.
    Null,
    /// Passes booleans, as its configuration says.
    Bool(Box<BoolValidator>),
    /// Passes integers, as its configuration says.
    Int(Box<IntValidator>),
    /// Passes 32-bit floats.
    F32,
    /// Passes 64-bit floats.
    F64,
    /// Passes strings, as its configuration says.
    Str(Box<StrValidator>),
    /// Passes byte strings, as its configuration says.
    Bin(Box<BinValidator>),
    /// Passes arrays, as its configuration says.
    Array(Box<ArrayValidator>),
    /// Passes objects, as its configuration says.
    Obj(Box<ObjValidator>),
    /// Passes hashes, and notes what must hold of the documents they name.
    Hash(Box<HashValidator>),
    /// Passes identities, as its configuration says.
    Identity(Box<IdentityValidator>),
    /// Passes lockboxes, as its configuration says.
    Lockbox(Box<LockboxValidator>),
    /// Passes timestamps, as its configuration says.
    Time(Box<TimeValidator>),
    /// Passes enums as they are written, as its configuration says.
    Enum(EnumValidator),
    /// Passes what any of the branches passes.
    Multi(Vec<Validator>),
    /// Passes what the validator of that name in the table of types passes.
    Ref(String),
    /// Passes any value.
    Any,
}


/// The table of types: validators by name, for `Validator::Ref` to look up. The names stand
/// in ascending order, so that none occurs twice.
#[derive(Debug, PartialEq)]
pub struct Types {
    list: Vec<(String, Validator)>,
}

impl View for Types {
    type V = Seq<(String, Validator)>;

    closed spec fn view(&self) -> Seq<(String, Validator)> {
        self.list@
    }
}

impl Types {
    #[verifier::type_invariant]
    spec fn inv(self) -> bool {
        names_ascending(self.list@)
    }

    /// A table without any type.
    pub fn new() -> (t: Types)
        ensures
            t@.len() == 0,
    {
        Types { list: Vec::new() }
    }

    /// The table of the validators of `list`, whose names ascend.
    pub(crate) fn from_list(list: Vec<(String, Validator)>) -> (t: Types)
        requires
            names_ascending(list@),
        ensures
            t@ == list@,
    {
        Types { list }
    }

    /// How many types the table holds. Their names ascend.
    pub fn len(&self) -> (n: usize)
        ensures
            n == self@.len(),
            names_ascending(self@),
    {
        proof {
            use_type_invariant(self);
        }
        self.list.len()
    }

    /// Where the table holds the type `name`, if it does.
    pub fn find(&self, name: &str) -> (r: Option<usize>)
        ensures
            match r {
                Some(i) => find_key(self@, name.spec_bytes()) == Some(i as int) && i < self@.len(),
                None => find_key(self@, name.spec_bytes()) is None,
            },
    {
        assoc_find(&self.list, name)
    }

    /// The validator at position `i`.
    pub fn get(&self, i: usize) -> (v: &Validator)
        requires
            i < self@.len(),
        ensures
            *v == self@[i as int].1,
    {
        &self.list[i].1
    }

    /// Puts `validator` into the table under `name`, in place of what was there under it.
    pub fn insert(&mut self, name: &str, validator: Validator)
        ensures
            find_key(final(self)@, encode_utf8(name@)) is Some,
            final(self)@[find_key(final(self)@, encode_utf8(name@))->0].1 == validator,
            held(final(self)@) == held(old(self)@).insert(encode_utf8(name@), validator),
    {
        proof {
            use_type_invariant(&*self);
        }
        let mut taken = Types { list: Vec::new() };
        core::mem::swap(self, &mut taken);
        let Types { list } = taken;
        let mut list = list;
        let ghost key = encode_utf8(name@);
        let ghost before = list@;
        let owned = name.to_owned();
        let ghost item = (owned, validator);
        crate::assoc::assoc_insert(&mut list, owned, validator);
        proof {
            lemma_find_from(before, key, 0);
            lemma_find_from(list@, key, 0);
            match find_key(before, key) {
                Some(k) => {
                    assert(list@[k] == item);
                },
                None => {
                    let pos = choose|pos: int| 0 <= pos <= before.len() && list@ == #[trigger] before.insert(pos, item);
                    assert(list@[pos] == item);
                    assert forall|j: int| 0 <= j < list@.len() && j != pos implies encode_utf8(
                        (#[trigger] list@[j]).0@,
                    ) != key by {
                        if j < pos {
                            assert(list@[j] == before[j]);
                        } else {
                            assert(list@[j] == before[j - 1]);
                        }
                    }
                },
            }
        }
        *self = Types { list };
    }
}

/// A copy of a list of positions with one more at its end.
fn with_index(list: &Vec<usize>, x: usize) -> (r: Vec<usize>)
    ensures
        r@ == list@.push(x),
{
    let mut r: Vec<usize> = Vec::new();
    let mut i: usize = 0;
    while i < list.len()
        invariant
            0 <= i <= list.len(),
            r@ == list@.take(i as int),
        decreases list.len() - i,
    {
        r.push(list[i]);
        assert(list@.take(i + 1) =~= list@.take(i as int).push(list@[i as int]));
        i += 1;
    }
    assert(list@.take(list@.len() as int) =~= list@);
    r.push(x);
    r
}

/// Whether the element is of the kind that the validator, one without configuration, passes.
fn kind_matches(v: &Validator, e: &Element<'_>) -> (r: bool)
    requires
        v is Null || v is F32 || v is F64,
    ensures
        r == match v {
            Validator::Null => e@ is Null,
            Validator::F32 => e@ is F32,
            _ => e@ is F64,
        },
{
    match (v, e) {
        (Validator::Null, Element::Null) => true,
        (Validator::F32, Element::F32(_)) => true,
        (Validator::F64, Element::F64(_)) => true,
        _ => false,
    }
}

impl Validator {
    /// Checks the value at the parser's position against this validator, with `types` to
    /// look names up in. Gives the parser as it stands after the value and the checklist
    /// with what was found to settle later.
    ///
    /// Succeeds exactly where the bytes at the parser hold a value that this validator
    /// passes, validators leading into one another at most `MAX_DEPTH` deep.
    pub fn validate<'a>(&self, types: &Types, parser: Parser<'a>, checklist: Option<Checklist>) -> (r: Result<
        (Parser<'a>, Option<Checklist>),
        Error,
    >)
        ensures
            validated(
                r,
                passes(*self, types@, parser@, Seq::empty(), MAX_DEPTH as nat),
                parser@,
                MAX_DEPTH as nat,
                checklist,
                deferred(
                    *self,
                    types@,
                    parse_value(parser@, MAX_DEPTH as nat)->Ok_0.0,
                    Seq::empty(),
                    MAX_DEPTH as nat,
                ),
                depth_suffices(
                    *self,
                    types@,
                    parse_value(parser@, MAX_DEPTH as nat)->Ok_0.0,
                    Seq::empty(),
                    MAX_DEPTH as nat,
                ),
            ),
    {
        let visited: Vec<usize> = Vec::new();
        assert(visited@ =~= Seq::empty());
        self.validate_within(types, parser, checklist, &visited, MAX_DEPTH)
    }

    /// Checks the value at the parser's position against this validator, which may lead
    /// into others `depth` deep. `visited` holds the types, by their positions in the
    /// table, that have been entered at this very value.
    pub fn validate_within<'a>(
        &self,
        types: &Types,
        parser: Parser<'a>,
        checklist: Option<Checklist>,
        visited: &Vec<usize>,
        depth: usize,
    ) -> (r: Result<(Parser<'a>, Option<Checklist>), Error>)
        ensures
            validated(
                r,
                passes(*self, types@, parser@, visited@, depth as nat),
                parser@,
                depth as nat,
                checklist,
                deferred(*self, types@, parse_value(parser@, depth as nat)->Ok_0.0, visited@, depth as nat),
                depth_suffices(*self, types@, parse_value(parser@, depth as nat)->Ok_0.0, visited@, depth as nat),
            ),
        decreases depth, 1nat,
    {
        let ghost b = parser@;
        let ghost d = depth as nat;
        proof {
            lemma_with_nothing(checklist, checklist);
            if parse_value(b, d) is Ok {
                lemma_encode_parse_value(b, d);
            }
            if parse_element(b) is Ok {
                lemma_encode_parse_element(b);
            }
        }
        match self {
            Validator::Any => {
                let mut p = parser;
                p.skip_value(depth)?;
                Ok((p, checklist))
            },
            Validator::Int(iv) => {
                let mut p = parser;
                iv.validate(&mut p)?;
                Ok((p, checklist))
            },
            Validator::Str(sv) => {
                let mut p = parser;
                sv.validate(&mut p)?;
                Ok((p, checklist))
            },
            Validator::Time(tv) => {
                let mut p = parser;
                tv.validate(&mut p)?;
                Ok((p, checklist))
            },
            Validator::Bool(bv) => {
                let mut p = parser;
                bv.validate(&mut p)?;
                Ok((p, checklist))
            },
            Validator::Bin(bv) => {
                let mut p = parser;
                bv.validate(&mut p)?;
                Ok((p, checklist))
            },
            Validator::Identity(iv) => {
                let mut p = parser;
                iv.validate(&mut p)?;
                Ok((p, checklist))
            },
            Validator::Lockbox(lv) => {
                let mut p = parser;
                lv.validate(&mut p)?;
                Ok((p, checklist))
            },
            Validator::Hash(hv) => {
                let mut p = parser;
                let c = hv.validate(&mut p, checklist)?;
                Ok((p, c))
            },
            Validator::Array(av) => av.validate(types, parser, checklist, depth),
            Validator::Obj(ov) => ov.validate(types, parser, checklist, depth),
            Validator::Enum(ev) => ev.validate(types, parser, checklist, depth),
            Validator::Multi(list) => {
                if depth == 0 {
                    return Err(Error::DepthExceeded);
                }
                let mut i: usize = 0;
                while i < list.len()
                    invariant
                        0 <= i <= list.len(),
                        depth > 0,
                        b == parser@,
                        self is Multi,
                        self->Multi_0 == *list,
                        d == depth as nat,
                        forall|j: int|
                            0 <= j < i ==> !passes(#[trigger] list@[j], types@, b, visited@, (depth - 1) as nat),
                    decreases list.len() - i,
                {
                    let copy = copy_checklist(&checklist);
                    let ghost copied = copy;
                    let attempt = list[i].validate_within(types, parser, copy, visited, depth - 1);
                    match attempt {
                        Ok((p, c)) => {
                            proof {
                                lemma_parse_deeper(b, (depth - 1) as nat, depth as nat);
                                assert(accepts(
                                    list@[i as int],
                                    types@,
                                    parse_value(b, depth as nat)->Ok_0.0,
                                    visited@,
                                    (depth - 1) as nat,
                                ));
                                let x = parse_value(b, d)->Ok_0.0;
                                assert forall|j: int| 0 <= j < i implies !accepts(
                                    #[trigger] list@[j],
                                    types@,
                                    x,
                                    visited@,
                                    (d - 1) as nat,
                                ) by {
                                    assert(!passes(list@[j], types@, b, visited@, (d - 1) as nat));
                                }
                                lemma_first_accepting(list@, types@, x, visited@, (d - 1) as nat, 0, i as int);
                            }
                            return Ok((p, c));
                        },
                        Err(_) => {},
                    }
                    i += 1;
                }
                proof {
                    if passes(*self, types@, b, visited@, d) {
                        let x = parse_value(b, d)->Ok_0.0;
                        let k = choose|k: int|
                            0 <= k < list@.len() && accepts(#[trigger] list@[k], types@, x, visited@, (d - 1) as nat);
                        lemma_accepts_fits(list@[k], types@, x, visited@, (d - 1) as nat);
                        lemma_parse_at_depth(b, d, (d - 1) as nat);
                        assert(passes(list@[k], types@, b, visited@, (d - 1) as nat));
                    }
                }
                Err(Error::FailValidate(Reason::NoBranch))
            },
            Validator::Ref(name) => {
                if depth == 0 {
                    return Err(Error::DepthExceeded);
                }
                let idx = match types.find(name.as_str()) {
                    Some(idx) => idx,
                    None => {
                        return Err(Error::FailValidate(Reason::NoType));
                    },
                };
                if index_in_list(visited, idx) {
                    let mut p = parser;
                    p.skip_value(depth)?;
                    Ok((p, checklist))
                } else {
                    let entered = with_index(visited, idx);
                    let r = types.get(idx).validate_within(types, parser, checklist, &entered, depth - 1);
                    proof {
                        let inner = types@[idx as int].1;
                        lemma_find_from(types@, encode_utf8(name@), 0);
                        if parse_value(b, d) is Ok && depth_suffices(*self, types@, parse_value(b, d)->Ok_0.0, visited@, d) {
                            let x = parse_value(b, d)->Ok_0.0;
                            assert(!type_visited(visited@, idx as int));
                            assert(depth_suffices(inner, types@, x, visited@.push(idx), (d - 1) as nat));
                            assert(x.fits((d - 1) as nat));
                            lemma_parse_at_depth(b, d, (d - 1) as nat);
                        }
                        if r is Err && parse_value(b, (d - 1) as nat) is Err && parse_value(b, (d - 1) as nat)->Err_0
                            != Error::DepthExceeded {
                            lemma_parse_fault_deeper(b, (d - 1) as nat, d);
                        }
                        if r is Ok {
                            lemma_parse_deeper(b, (d - 1) as nat, d);
                        } else if passes(*self, types@, b, visited@, d) {
                            let x = parse_value(b, d)->Ok_0.0;
                            lemma_accepts_fits(inner, types@, x, entered@, (d - 1) as nat);
                            lemma_parse_at_depth(b, d, (d - 1) as nat);
                        }
                    }
                    r
                }
            },
            _ => {
                let mut p = parser;
                let e = p.next()?;
                if kind_matches(self, &e) {
                    Ok((p, checklist))
                } else {
                    Err(Error::FailValidate(Reason::Kind))
                }
            },
        }
    }
}

} // verus!
