//! The validator for objects.

use vstd::prelude::*;
use vstd::string::StringSliceAdditionalSpecFns;
use vstd::utf8::encode_utf8;
use crate::assoc::{assoc_find, find_key, held, lemma_find_from, names_ascending, Named};
use crate::bytes::{bytes_eq, bytes_lt};
use crate::codec::{lemma_encode_parse_value, lemma_parse_head, parse_entries, parse_value};
use crate::element::Element;
use crate::error::{Error, Reason};
use crate::format::{lemma_encode_parse_element, parse_element, ElementView};
use crate::parser::Parser;
use crate::validator::array::sub_allows;
use crate::validator::checklist::Checklist;
use crate::validator::deferred::{checklist_with, deferred, lemma_with_more, lemma_with_nothing, obj_deferred};
use crate::validator::rules::{entry_accepts, has_key, obj_accepts, obj_depth_suffices, validated};
use crate::validator::string::StrValidator;
use crate::validator::{Types, Validator};
use crate::value::ValueView;

verus! {

/// Validator for objects.
///
/// An object passes if it has at least `min_len` and at most `max_len` key-value pairs, it
/// has every key of `req`, every key passes `keys` where that is set, and every value passes
/// the validator that its key leads to: the one under that key in `req`, else in `opt`, else
/// `values` where that is set. A value whose key leads to none passes only where
/// `unknown_ok` is set.
///
/// A query may use the lengths only where the schema's validator sets `size`, and `req`,
/// `opt`, `keys`, `values` and `unknown_ok` only where it sets `obj_ok`. The validators inside
/// the query must in turn be permitted by the schema's validator for the same key.
#[derive(Debug, PartialEq)]
pub struct ObjValidator {
    /// An optional comment explaining the validator.
    pub comment: String,
    /// The keys that must be there, each with the validator of its value, in the order of
    /// the keys.
    pub req: Named<Validator>,
    /// The keys that may be there, each with the validator of its value, in the order of the
    /// keys.
    pub opt: Named<Validator>,
    /// The validator that every key must pass, if there is one.
    pub keys: Option<StrValidator>,
    /// The validator for the values of keys that are in neither `req` nor `opt`, if there is
    /// one.
    pub values: Option<Box<Validator>>,
    /// Whether keys that lead to no validator are let through with any value.
    pub unknown_ok: bool,
    /// The largest number of key-value pairs allowed.
    pub max_len: u32,
    /// The smallest number of key-value pairs allowed.
    pub min_len: u32,
    /// Whether queries may use `max_len` and `min_len`.
    pub size: bool,
    /// Whether queries may use `req`, `opt`, `keys`, `values` and `unknown_ok`.
    pub obj_ok: bool,
}

impl Default for ObjValidator {
    fn default() -> (r: Self)
        ensures
            r.is_default(),
    {
        ObjValidator {
            comment: String::new(),
            req: Named::new(),
            opt: Named::new(),
            keys: None,
            values: None,
            unknown_ok: false,
            max_len: u32::MAX,
            min_len: u32::MIN,
            size: false,
            obj_ok: false,
        }
    }
}

impl ObjValidator {
    /// That every field has its default: no comment, no key known, any length allowed, no
    /// permission for queries.
    pub open spec fn is_default(self) -> bool {
        &&& self.comment@.len() == 0
        &&& self.req@.len() == 0
        &&& self.opt@.len() == 0
        &&& self.keys is None
        &&& self.values is None
        &&& !self.unknown_ok
        &&& self.max_len == u32::MAX
        &&& self.min_len == 0
        &&& !self.size
        &&& !self.obj_ok
    }

    /// A validator with the default configuration.
    pub fn new() -> (r: Self)
        ensures
            r.is_default(),
    {
        Self::default()
    }

    /// Sets the comment.
    pub fn comment(self, comment: &str) -> (r: Self)
        ensures
            r == (ObjValidator { comment: r.comment, ..self }),
            r.comment@ == comment@,
    {
        let mut s = self;
        s.comment = comment.to_owned();
        s
    }

    /// Adds a key that must be there, with the validator of its value.
    pub fn req_add(self, key: &str, validator: Validator) -> (r: Self)
        ensures
            r == (ObjValidator { req: r.req, ..self }),
            held(r.req@) == held(self.req@).insert(key.spec_bytes(), validator),
            names_ascending(r.req@),
    {
        let mut s = self;
        let mut taken: Named<Validator> = Named::new();
        core::mem::swap(&mut s.req, &mut taken);
        s.req = taken.with(key.to_owned(), validator);
        s
    }

    /// Adds a key that may be there, with the validator of its value.
    pub fn opt_add(self, key: &str, validator: Validator) -> (r: Self)
        ensures
            r == (ObjValidator { opt: r.opt, ..self }),
            held(r.opt@) == held(self.opt@).insert(key.spec_bytes(), validator),
            names_ascending(r.opt@),
    {
        let mut s = self;
        let mut taken: Named<Validator> = Named::new();
        core::mem::swap(&mut s.opt, &mut taken);
        s.opt = taken.with(key.to_owned(), validator);
        s
    }

    /// Sets the validator that every key must pass.
    pub fn keys(self, keys: StrValidator) -> (r: Self)
        ensures
            r == (ObjValidator { keys: Some(keys), ..self }),
    {
        let mut s = self;
        s.keys = Some(keys);
        s
    }

    /// Sets the validator for the values of keys that are in neither `req` nor `opt`.
    pub fn values(self, values: Validator) -> (r: Self)
        ensures
            r == (ObjValidator { values: Some(Box::new(values)), ..self }),
    {
        let mut s = self;
        s.values = Some(Box::new(values));
        s
    }

    /// Sets whether keys that lead to no validator are let through.
    pub fn unknown_ok(self, unknown_ok: bool) -> (r: Self)
        ensures
            r == (ObjValidator { unknown_ok, ..self }),
    {
        let mut s = self;
        s.unknown_ok = unknown_ok;
        s
    }

    /// Sets the largest number of key-value pairs allowed.
    pub fn max_len(self, max_len: u32) -> (r: Self)
        ensures
            r == (ObjValidator { max_len, ..self }),
    {
        let mut s = self;
        s.max_len = max_len;
        s
    }

    /// Sets the smallest number of key-value pairs allowed.
    pub fn min_len(self, min_len: u32) -> (r: Self)
        ensures
            r == (ObjValidator { min_len, ..self }),
    {
        let mut s = self;
        s.min_len = min_len;
        s
    }

    /// Sets whether queries may use the lengths.
    pub fn size(self, size: bool) -> (r: Self)
        ensures
            r == (ObjValidator { size, ..self }),
    {
        let mut s = self;
        s.size = size;
        s
    }

    /// Sets whether queries may use the keys and their validators.
    pub fn obj_ok(self, obj_ok: bool) -> (r: Self)
        ensures
            r == (ObjValidator { obj_ok, ..self }),
    {
        let mut s = self;
        s.obj_ok = obj_ok;
        s
    }

    /// Wraps this into a `Validator`.
    pub fn build(self) -> (v: Validator)
        ensures
            v == Validator::Obj(Box::new(self)),
    {
        Validator::Obj(Box::new(self))
    }

    /// The validator that the key with the bytes `key` leads to: the one under that key in
    /// `req`, else in `opt`, else `values`.
    pub open spec fn route(self, key: Seq<u8>) -> Option<Validator> {
        match find_key(self.req@, key) {
            Some(j) => if 0 <= j < self.req@.len() { Some(self.req@[j].1) } else { None },
            None => match find_key(self.opt@, key) {
                Some(j) => if 0 <= j < self.opt@.len() { Some(self.opt@[j].1) } else { None },
                None => match self.values {
                    Some(v) => Some(*v),
                    None => None,
                },
            },
        }
    }

    /// The validator that `key` leads to.
    fn find_route(&self, key: &str) -> (r: Option<&Validator>)
        ensures
            match self.route(key.spec_bytes()) {
                Some(v) => r is Some && *r->0 == v,
                None => r is None,
            },
    {
        proof {
            lemma_find_from(self.req@, key.spec_bytes(), 0);
            lemma_find_from(self.opt@, key.spec_bytes(), 0);
        }
        match assoc_find(self.req.list(), key) {
            Some(j) => Some(&self.req.list()[j].1),
            None => match assoc_find(self.opt.list(), key) {
                Some(j) => Some(&self.opt.list()[j].1),
                None => match &self.values {
                    Some(v) => Some(&**v),
                    None => None,
                },
            },
        }
    }

    /// Checks the value at the parser's position: an object whose length, keys and values
    /// are as this validator says.
    ///
    /// Succeeds exactly where the bytes at the parser hold an object that this validator
    /// passes, validators leading into one another at most `depth` deep.
    pub fn validate<'a>(&self, types: &Types, parser: Parser<'a>, checklist: Option<Checklist>, depth: usize) -> (r:
        Result<(Parser<'a>, Option<Checklist>), Error>)
        ensures
            validated(
                r,
                depth > 0 && parse_value(parser@, depth as nat) is Ok && parse_value(parser@, depth as nat)->Ok_0.0 is Obj
                    && obj_accepts(
                    *self,
                    types@,
                    parse_value(parser@, depth as nat)->Ok_0.0->Obj_0,
                    (depth - 1) as nat,
                ),
                parser@,
                depth as nat,
                checklist,
                obj_deferred(*self, types@, parse_value(parser@, depth as nat)->Ok_0.0->Obj_0, (depth - 1) as nat),
                depth > 0 && (parse_value(parser@, depth as nat)->Ok_0.0 is Obj ==> obj_depth_suffices(
                    *self,
                    types@,
                    parse_value(parser@, depth as nat)->Ok_0.0->Obj_0,
                    (depth - 1) as nat,
                )),
            ),
            depth > 0 ==> match parse_element(parser@) {
                Ok((ElementView::Obj(n), _)) => {
                    &&& n > self.max_len ==> r is Err && r->Err_0 == Error::FailValidate(Reason::TooLong)
                    &&& self.max_len >= n && n < self.min_len ==> r is Err && r->Err_0 == Error::FailValidate(
                        Reason::TooShort,
                    )
                },
                Ok(_) => r is Err && r->Err_0 == Error::FailValidate(Reason::Kind),
                Err(e) => r is Err && r->Err_0 == e,
            },
        decreases depth, 0nat,
    {
        let ghost b = parser@;
        let ghost d = depth as nat;
        let ghost first = checklist;
        if depth == 0 {
            return Err(Error::DepthExceeded);
        }
        let ghost d1 = (depth - 1) as nat;
        proof {
            lemma_with_nothing(first, first);
            if parse_value(b, d) is Ok {
                lemma_parse_head(b, d);
                lemma_encode_parse_value(b, d);
            }
            if parse_element(b) is Ok {
                lemma_encode_parse_element(b);
            }
        }
        let mut cur = parser;
        let elem = cur.next()?;
        let len = if let Element::Obj(len) = elem {
            len
        } else {
            return Err(Error::FailValidate(Reason::Kind));
        };
        let ghost h = parse_element(b)->Ok_0.1;
        let ghost b1 = cur@;
        if len > self.max_len as usize {
            return Err(Error::FailValidate(Reason::TooLong));
        }
        if len < self.min_len as usize {
            return Err(Error::FailValidate(Reason::TooShort));
        }
        let mut req_seen: Vec<bool> = vec![false; self.req.len()];
        let mut todo = checklist;
        let visited: Vec<usize> = Vec::new();
        let mut last: &[u8] = cur.remaining();
        let ghost mut prev: Option<Seq<u8>> = None;
        let ghost mut seen: Seq<(Seq<u8>, ValueView)> = Seq::empty();
        let ghost mut off: int = 0;
        let mut i: usize = 0;
        proof {
            assert(visited@ =~= Seq::empty());
            assert(b1.skip(0) =~= b1);
            match parse_entries(b1, len as nat, d1, None) {
                Ok((rest, m)) => {
                    assert(seen + rest =~= rest);
                },
                Err(_) => {},
            }
        }
        while i < len
            invariant
                0 <= i <= len,
                depth > 0,
                d1 == (depth - 1) as nat,
                visited@ == Seq::<usize>::empty(),
                b == parser@,
                d == depth as nat,
                first == checklist,
                len < 0x1_0000_0000,
                parse_element(b) is Ok && parse_element(b)->Ok_0.0 == ElementView::Obj(len as nat),
                self.min_len <= len <= self.max_len,
                parse_value(b, d) is Ok ==> parse_entries(b1, len as nat, d1, None) is Ok && parse_value(b, d)->Ok_0.0
                    == ValueView::Obj(parse_entries(b1, len as nat, d1, None)->Ok_0.0),
                0 <= off <= b1.len(),
                cur@ == b1.skip(off),
                seen.len() == i,
                req_seen@.len() == self.req@.len(),
                i == 0 ==> prev is None,
                i > 0 ==> prev == Some(last@),
                checklist_with(first, todo, obj_deferred(*self, types@, seen, d1)),
                match parse_entries(cur@, (len - i) as nat, d1, prev) {
                    Ok((rest, m)) => parse_entries(b1, len as nat, d1, None) == Ok::<
                        (Seq<(Seq<u8>, ValueView)>, int),
                        Error,
                    >((seen + rest, off + m)),
                    Err(e) => parse_entries(b1, len as nat, d1, None) == Err::<(Seq<(Seq<u8>, ValueView)>, int), Error>(
                        e,
                    ),
                },
                parse_entries(b1, len as nat, d1, None) matches Err(e) ==> parse_value(b, d) == Err::<
                    (ValueView, int),
                    Error,
                >(e),
                forall|j: int|
                    0 <= j < i ==> entry_accepts(*self, types@, (#[trigger] seen[j]).0, seen[j].1, d1),
                forall|k: int|
                    0 <= k < self.req@.len() ==> (#[trigger] req_seen@[k]) == (exists|j: int|
                        0 <= j < seen.len() && find_key(self.req@, (#[trigger] seen[j]).0) == Some(k)),
            decreases len - i,
        {
            let ghost at = cur@;
            proof {
                if parse_element(at) is Ok {
                    lemma_encode_parse_element(at);
                }
            }
            let key = match cur.next()? {
                Element::Str(key) => key,
                _ => {
                    return Err(Error::KeyNotStr);
                },
            };
            let ghost kn = parse_element(at)->Ok_0.1;
            let ghost kb = key.spec_bytes();
            if i > 0 {
                if bytes_eq(last, key.as_bytes()) {
                    return Err(Error::DuplicateKey);
                }
                if !bytes_lt(last, key.as_bytes()) {
                    return Err(Error::KeyOrder);
                }
            }
            let ghost vb = cur@;
            proof {
                if parse_value(vb, d1) is Ok {
                    lemma_encode_parse_value(vb, d1);
                }
            }
            if let Some(kv) = &self.keys {
                if !kv.check(key) {
                    proof {
                        if parse_entries(b1, len as nat, d1, None) is Ok && parse_value(vb, d1) is Ok {
                            let x = parse_value(vb, d1)->Ok_0.0;
                            let rest = parse_entries(at, (len - i) as nat, d1, prev)->Ok_0.0;
                            assert(rest[0] == (kb, x));
                            let all = seen + rest;
                            assert(all[i as int] == (kb, x));
                            assert(!entry_accepts(*self, types@, all[i as int].0, all[i as int].1, d1));
                        }
                    }
                    return Err(Error::FailValidate(Reason::BadKey));
                }
            }
            proof {
                lemma_find_from(self.req@, kb, 0);
            }
            let found_req = assoc_find(self.req.list(), key);
            let ghost mid = todo;
            let outcome = match self.find_route(key) {
                Some(validator) => validator.validate_within(types, cur, todo, &visited, depth - 1),
                None => {
                    if self.unknown_ok {
                        let mut p = cur;
                        match p.skip_value(depth - 1) {
                            Ok(()) => Ok((p, todo)),
                            Err(e) => Err(e),
                        }
                    } else {
                        Err(Error::FailValidate(Reason::UnknownKey))
                    }
                },
            };
            let (p, c) = match outcome {
                Ok(x) => x,
                Err(e) => {
                    proof {
                        if parse_entries(b1, len as nat, d1, None) is Ok && parse_value(vb, d1) is Ok {
                            let x = parse_value(vb, d1)->Ok_0.0;
                            let rest = parse_entries(at, (len - i) as nat, d1, prev)->Ok_0.0;
                            assert(rest[0] == (kb, x));
                            let all = seen + rest;
                            assert(all[i as int] == (kb, x));
                            assert(!entry_accepts(*self, types@, all[i as int].0, all[i as int].1, d1));
                        }
                    }
                    return Err(e);
                },
            };
            proof {
                let (x, n) = parse_value(vb, d1)->Ok_0;
                let next = seen.push((kb, x));
                let own = match self.route(kb) {
                    Some(v) => deferred(v, types@, x, Seq::empty(), d1),
                    None => Seq::empty(),
                };
                lemma_with_nothing(mid, mid);
                assert(checklist_with(mid, c, own));
                lemma_with_more(first, mid, c, obj_deferred(*self, types@, seen, d1), own);
                assert(next.drop_last() =~= seen);
                assert(next.last() == (kb, x));
                assert(obj_deferred(*self, types@, next, d1) == obj_deferred(*self, types@, seen, d1) + own);
                assert(vb == at.skip(kn));
                assert(0 <= kn <= at.len());
                assert(0 <= n <= vb.len());
                assert(at.skip(kn).skip(n) =~= at.skip(kn + n));
                assert(b1.skip(off).skip(kn + n) =~= b1.skip(off + kn + n));
                assert(at.skip(kn + n) =~= b1.skip(off + kn + n));
                assert(vb.skip(n) =~= b1.skip(off + kn + n));
                match parse_entries(at.skip(kn + n), (len - i - 1) as nat, d1, Some(kb)) {
                    Ok((rest, m)) => {
                        assert(next + rest =~= seen + (seq![(kb, x)] + rest));
                    },
                    Err(_) => {},
                }
                assert forall|j: int| 0 <= j < i + 1 implies entry_accepts(
                    *self,
                    types@,
                    (#[trigger] next[j]).0,
                    next[j].1,
                    d1,
                ) by {
                    if j < i {
                        assert(next[j] == seen[j]);
                    }
                }
            }
            let ghost seen_before = req_seen@;
            match found_req {
                Some(j) => {
                    req_seen[j] = true;
                },
                None => {},
            }
            proof {
                let x = parse_value(vb, d1)->Ok_0.0;
                let next = seen.push((kb, x));
                assert forall|k: int| 0 <= k < self.req@.len() implies (#[trigger] req_seen@[k]) == (exists|j: int|

                    0 <= j < next.len() && find_key(self.req@, (#[trigger] next[j]).0) == Some(k)) by {
                    if seen_before[k] {
                        let w = choose|w: int|
                            0 <= w < seen.len() && find_key(self.req@, (#[trigger] seen[w]).0) == Some(k);
                        assert(next[w] == seen[w]);
                    }
                    if find_key(self.req@, kb) == Some(k) {
                        assert(next[i as int] == (kb, x));
                    }
                    if exists|j: int| 0 <= j < next.len() && find_key(self.req@, (#[trigger] next[j]).0) == Some(k) {
                        let w = choose|w: int|
                            0 <= w < next.len() && find_key(self.req@, (#[trigger] next[w]).0) == Some(k);
                        if w < i {
                            assert(next[w] == seen[w]);
                        } else {
                            assert(next[w] == (kb, x));
                        }
                    }
                }
                seen = next;
                off = off + kn + parse_value(vb, d1)->Ok_0.1;
                prev = Some(kb);
            }
            last = key.as_bytes();
            cur = p;
            todo = c;
            i += 1;
        }
        proof {
            assert(seen + Seq::<(Seq<u8>, ValueView)>::empty() =~= seen);
            assert(b1.skip(off) =~= b.skip(h + off));
        }
        // Every required key must have been there
        let mut k: usize = 0;
        while k < self.req.len()
            invariant
                0 <= k <= self.req@.len(),
                req_seen@.len() == self.req@.len(),
                b == parser@,
                d == depth as nat,
                depth > 0,
                parse_element(b) is Ok && parse_element(b)->Ok_0.0 == ElementView::Obj(len as nat),
                self.min_len <= len <= self.max_len,
                parse_value(b, d) is Ok ==> parse_value(b, d)->Ok_0.0 == ValueView::Obj(seen),
                forall|q: int|
                    0 <= q < self.req@.len() ==> (#[trigger] req_seen@[q]) == (exists|j: int|
                        0 <= j < seen.len() && find_key(self.req@, (#[trigger] seen[j]).0) == Some(q)),
                forall|j: int| 0 <= j < k ==> has_key(seen, encode_utf8((#[trigger] self.req@[j]).0@)),
            decreases self.req@.len() - k,
        {
            let name = self.req.list()[k].0.as_str();
            proof {
                lemma_find_from(self.req@, name.spec_bytes(), 0);
            }
            let at = match assoc_find(self.req.list(), name) {
                Some(at) => at,
                None => {
                    assert(false);
                    return Err(Error::FailValidate(Reason::MissingKey));
                },
            };
            if !req_seen[at] {
                proof {
                    if has_key(seen, name.spec_bytes()) {
                        let w = choose|w: int| 0 <= w < seen.len() && (#[trigger] seen[w]).0 == name.spec_bytes();
                        assert(find_key(self.req@, seen[w].0) == Some(at as int));
                    }
                    assert(!has_key(seen, encode_utf8(self.req@[k as int].0@)));
                }
                return Err(Error::FailValidate(Reason::MissingKey));
            }
            proof {
                let w = choose|w: int|
                    0 <= w < seen.len() && find_key(self.req@, (#[trigger] seen[w]).0) == Some(at as int);
                lemma_find_from(self.req@, seen[w].0, 0);
                assert(seen[w].0 == name.spec_bytes());
            }
            k += 1;
        }
        Ok((cur, todo))
    }

    /// The queries that a schema with this validator permits, among object validators: those
    /// that use no more than the permissions allow, and whose own validators are permitted
    /// in turn, each by the validator that its key leads to here.
    pub open spec fn query_allows(self, types: Seq<(String, Validator)>, other: ObjValidator, depth: nat) -> bool
        decreases depth, 2nat,
    {
        &&& self.size || (other.max_len == u32::MAX && other.min_len == 0)
        &&& self.obj_ok || (other.req@.len() == 0 && other.opt@.len() == 0 && other.keys is None
            && other.values is None && !other.unknown_ok)
        &&& self.obj_ok ==> {
            &&& forall|i: int|
                0 <= i < other.req@.len() ==> self.key_allows(types, #[trigger] other.req@[i], depth)
            &&& forall|i: int|
                0 <= i < other.opt@.len() ==> self.key_allows(types, #[trigger] other.opt@[i], depth)
            &&& other.values is Some ==> self.values is Some && sub_allows(
                *self.values->0,
                types,
                *other.values->0,
                depth,
            )
            &&& other.keys is Some ==> self.keys is Some && self.keys->0.query_allows(other.keys->0)
            &&& other.unknown_ok ==> self.unknown_ok
        }
    }

    /// Whether this validator permits a query to put the validator of `item` on the key of
    /// `item`: the validator that the key leads to here must permit it.
    pub open spec fn key_allows(self, types: Seq<(String, Validator)>, item: (String, Validator), depth: nat) -> bool
        decreases depth, 1nat,
    {
        match self.route(encode_utf8(item.0@)) {
            Some(mine) => sub_allows(mine, types, item.1, depth),
            None => false,
        }
    }

    /// The queries that a schema with this validator permits: any query that asks nothing,
    /// an object validator that it permits, and a choice each of whose branches it permits,
    /// with one level of depth less.
    pub open spec fn query_allows_validator(self, types: Seq<(String, Validator)>, other: Validator, depth: nat) -> bool
        decreases depth, 3nat,
    {
        match other {
            Validator::Obj(o) => self.query_allows(types, *o, depth),
            Validator::Multi(list) => depth > 0 && forall|i: int|
                0 <= i < list@.len() ==> self.query_allows_validator(types, #[trigger] list@[i], (depth - 1) as nat),
            Validator::Any => true,
            _ => false,
        }
    }

    /// Whether every validator of `list` is permitted on its key.
    fn keys_check(&self, types: &Types, list: &Vec<(String, Validator)>, depth: usize) -> (r: bool)
        ensures
            r == (forall|i: int| 0 <= i < list@.len() ==> self.key_allows(types@, #[trigger] list@[i], depth as nat)),
        decreases depth, 1nat,
    {
        let mut i: usize = 0;
        while i < list.len()
            invariant
                0 <= i <= list.len(),
                forall|j: int| 0 <= j < i ==> self.key_allows(types@, #[trigger] list@[j], depth as nat),
            decreases list.len() - i,
        {
            let ok = match self.find_route(list[i].0.as_str()) {
                Some(mine) => depth > 0 && mine.query_check_within(types, &list[i].1, depth - 1),
                None => false,
            };
            if !ok {
                assert(!self.key_allows(types@, list@[i as int], depth as nat));
                return false;
            }
            i += 1;
        }
        true
    }

    fn query_check_self(&self, types: &Types, other: &ObjValidator, depth: usize) -> (r: bool)
        ensures
            r == self.query_allows(types@, *other, depth as nat),
        decreases depth, 2nat,
    {
        if !(self.size || (other.max_len == u32::MAX && other.min_len == 0)) {
            return false;
        }
        if !self.obj_ok {
            return other.req.len() == 0 && other.opt.len() == 0 && other.keys.is_none() && other.values.is_none()
                && !other.unknown_ok;
        }
        if !self.keys_check(types, other.req.list(), depth) || !self.keys_check(types, other.opt.list(), depth) {
            return false;
        }
        let values_ok = match (&self.values, &other.values) {
            (_, None) => true,
            (Some(mine), Some(theirs)) => depth > 0 && mine.query_check_within(types, theirs, depth - 1),
            (None, Some(_)) => false,
        };
        let keys_ok = match (&self.keys, &other.keys) {
            (_, None) => true,
            (Some(mine), Some(theirs)) => mine.query_check_self(theirs),
            (None, Some(_)) => false,
        };
        values_ok && keys_ok && (!other.unknown_ok || self.unknown_ok)
    }

    /// Whether a schema with this validator permits the query `other`.
    pub fn query_check(&self, types: &Types, other: &Validator, depth: usize) -> (r: bool)
        ensures
            r == self.query_allows_validator(types@, *other, depth as nat),
        decreases depth, 3nat,
    {
        match other {
            Validator::Obj(other) => self.query_check_self(types, other, depth),
            Validator::Multi(list) => {
                if depth == 0 {
                    return false;
                }
                let mut i: usize = 0;
                while i < list.len()
                    invariant
                        0 <= i <= list.len(),
                        depth > 0,
                        other is Multi,
                        other->Multi_0 == *list,
                        forall|j: int|
                            0 <= j < i ==> self.query_allows_validator(
                                types@,
                                #[trigger] list@[j],
                                (depth - 1) as nat,
                            ),
                    decreases list.len() - i,
                {
                    if !self.query_check(types, &list[i], depth - 1) {
                        return false;
                    }
                    i += 1;
                }
                true
            },
            Validator::Any => true,
            _ => false,
        }
    }
}

} // verus!
