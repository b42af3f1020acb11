//! Which queries a schema's validator permits.

use vstd::prelude::*;
use vstd::utf8::encode_utf8;
use crate::assoc::{find_key, lemma_find_from};
use crate::validator::{Types, Validator};
use crate::MAX_DEPTH;

verus! {

/// Whether `a` and `b` are validators of the same kind.
pub open spec fn same_kind(a: Validator, b: Validator) -> bool {
    match a {
        Validator::Null => b is Null,
        Validator::F32 => b is F32,
        Validator::F64 => b is F64,
        _ => false,
    }
}

/// What a validator without configuration permits a query to be: one that asks nothing, a
/// validator of its kind, or a choice each of whose branches it permits.
pub open spec fn kind_allows(mine: Validator, theirs: Validator) -> bool
    decreases theirs,
{
    match theirs {
        Validator::Any => true,
        Validator::Multi(list) => forall|i: int| 0 <= i < list@.len() ==> kind_allows(mine, #[trigger] list@[i]),
        _ => same_kind(mine, theirs),
    }
}

/// Whether a schema with the validator `mine` permits the query `theirs`, validators leading
/// into one another at most `depth` deep.
///
/// A validator that passes anything permits any query. A choice permits what one of its
/// branches permits. A name permits the same name, and otherwise what the validator under
/// it permits. Every other validator permits queries of its own kind, as far as its
/// permissions go.
pub open spec fn allows(mine: Validator, types: Seq<(String, Validator)>, theirs: Validator, depth: nat) -> bool
    decreases depth, 4nat,
{
    match mine {
        Validator::Any => true,
        Validator::Int(v) => v.query_allows_validator(theirs),
        Validator::Str(v) => v.query_allows_validator(theirs),
        Validator::Time(v) => v.query_allows_validator(theirs),
        Validator::Hash(v) => v.query_allows_validator(theirs),
        Validator::Bool(v) => v.query_allows_validator(theirs),
        Validator::Bin(v) => v.query_allows_validator(theirs),
        Validator::Identity(v) => v.query_allows_validator(theirs),
        Validator::Lockbox(v) => v.query_allows_validator(theirs),
        Validator::Array(v) => v.query_allows_validator(types, theirs, depth),
        Validator::Obj(v) => v.query_allows_validator(types, theirs, depth),
        Validator::Enum(v) => v.query_allows(types, theirs, depth),
        Validator::Multi(list) => if depth == 0 {
            false
        } else {
            exists|i: int| 0 <= i < list@.len() && allows(#[trigger] list@[i], types, theirs, (depth - 1) as nat)
        },
        Validator::Ref(name) => if depth == 0 {
            false
        } else {
            match theirs {
                Validator::Ref(other_name) => encode_utf8(name@) == encode_utf8(other_name@),
                _ => match find_key(types, encode_utf8(name@)) {
                    Some(k) => 0 <= k < types.len() && allows(types[k].1, types, theirs, (depth - 1) as nat),
                    None => false,
                },
            }
        },
        _ => kind_allows(mine, theirs),
    }
}

/// Whether `a` and `b` are validators of the same kind.
fn is_same_kind(a: &Validator, b: &Validator) -> (r: bool)
    ensures
        r == same_kind(*a, *b),
{
    match (a, b) {
        (Validator::Null, Validator::Null) => true,
        (Validator::F32, Validator::F32) => true,
        (Validator::F64, Validator::F64) => true,
        _ => false,
    }
}

/// What a validator without configuration permits a query to be.
fn kind_query_check(mine: &Validator, theirs: &Validator) -> (r: bool)
    ensures
        r == kind_allows(*mine, *theirs),
    decreases theirs,
{
    match theirs {
        Validator::Any => true,
        Validator::Multi(list) => {
            let mut i: usize = 0;
            while i < list.len()
                invariant
                    0 <= i <= list.len(),
                    theirs is Multi,
                    theirs->Multi_0 == *list,
                    forall|j: int| 0 <= j < i ==> kind_allows(*mine, #[trigger] list@[j]),
                decreases list.len() - i,
            {
                if !kind_query_check(mine, &list[i]) {
                    return false;
                }
                i += 1;
            }
            true
        },
        _ => is_same_kind(mine, theirs),
    }
}

impl Validator {
    /// Whether a schema with this validator permits the query `other`. A query that is not
    /// permitted is to be refused before it is run.
    pub fn query_check(&self, types: &Types, other: &Validator) -> (r: bool)
        ensures
            r == allows(*self, types@, *other, MAX_DEPTH as nat),
    {
        self.query_check_within(types, other, MAX_DEPTH)
    }

    /// Whether a schema with this validator permits the query `other`, validators leading
    /// into one another at most `depth` deep.
    pub fn query_check_within(&self, types: &Types, other: &Validator, depth: usize) -> (r: bool)
        ensures
            r == allows(*self, types@, *other, depth as nat),
        decreases depth, 4nat,
    {
        match self {
            Validator::Any => true,
            Validator::Int(v) => v.query_check(other),
            Validator::Str(v) => v.query_check(other),
            Validator::Time(v) => v.query_check(other),
            Validator::Hash(v) => v.query_check(other),
            Validator::Bool(v) => v.query_check(other),
            Validator::Bin(v) => v.query_check(other),
            Validator::Identity(v) => v.query_check(other),
            Validator::Lockbox(v) => v.query_check(other),
            Validator::Array(v) => v.query_check(types, other, depth),
            Validator::Obj(v) => v.query_check(types, other, depth),
            Validator::Enum(v) => v.query_check(types, other, depth),
            Validator::Multi(list) => {
                if depth == 0 {
                    return false;
                }
                let mut i: usize = 0;
                while i < list.len()
                    invariant
                        0 <= i <= list.len(),
                        depth > 0,
                        self is Multi,
                        self->Multi_0 == *list,
                        forall|j: int|
                            0 <= j < i ==> !allows(#[trigger] list@[j], types@, *other, (depth - 1) as nat),
                    decreases list.len() - i,
                {
                    if list[i].query_check_within(types, other, depth - 1) {
                        return true;
                    }
                    i += 1;
                }
                false
            },
            Validator::Ref(name) => {
                if depth == 0 {
                    return false;
                }
                match other {
                    Validator::Ref(other_name) => crate::bytes::bytes_eq(
                        name.as_str().as_bytes(),
                        other_name.as_str().as_bytes(),
                    ),
                    _ => match types.find(name.as_str()) {
                        Some(k) => {
                            proof {
                                lemma_find_from(types@, encode_utf8(name@), 0);
                            }
                            types.get(k).query_check_within(types, other, depth - 1)
                        },
                        None => false,
                    },
                }
            },
            _ => kind_query_check(self, other),
        }
    }
}

} // verus!
