//! A cursor over the bytes of values, read one element at a time.

use vstd::prelude::*;
use vstd::slice::slice_subrange;
use crate::codec::{lemma_encode_parse_value, parse_value};
use crate::decode::{read_value_within, verify_value_within};
use crate::element::{read_element, Element};
use crate::error::Error;
use crate::format::{lemma_encode_parse_element, parse_element};
use crate::value::Value;

verus! {

/// A position in the bytes of values. A copy of a parser is a position to come back to.
#[derive(Clone, Copy, Debug)]
pub struct Parser<'a> {
    buf: &'a [u8],
}

impl<'a> View for Parser<'a> {
    type V = Seq<u8>;

    /// The bytes not read yet.
    closed spec fn view(&self) -> Seq<u8> {
        self.buf@
    }
}

impl<'a> Parser<'a> {
    /// A parser at the start of `buf`.
    pub fn new(buf: &'a [u8]) -> (p: Parser<'a>)
        ensures
            p@ == buf@,
    {
        Parser { buf }
    }

    /// The bytes not read yet.
    pub fn remaining(&self) -> (b: &'a [u8])
        ensures
            b@ == self@,
    {
        self.buf
    }

    /// The element at the parser's position; the parser stays where it is.
    pub fn peek(&self) -> (r: Result<Element<'a>, Error>)
        ensures
            match parse_element(self@) {
                Ok((e, n)) => r is Ok && r->Ok_0@ == e,
                Err(e) => r is Err && r->Err_0 == e,
            },
    {
        match read_element(self.buf) {
            Ok((e, _)) => Ok(e),
            Err(e) => Err(e),
        }
    }

    /// The element at the parser's position; the parser moves past it. Of an array or
    /// object that is the header: the parser then stands at the first item or key.
    pub fn next(&mut self) -> (r: Result<Element<'a>, Error>)
        ensures
            match parse_element(old(self)@) {
                Ok((e, n)) => r is Ok && r->Ok_0@ == e && final(self)@ == old(self)@.skip(n),
                Err(e) => r is Err && r->Err_0 == e && final(self)@ == old(self)@,
            },
    {
        match read_element(self.buf) {
            Ok((e, n)) => {
                proof {
                    lemma_encode_parse_element(self.buf@);
                }
                let rest = slice_subrange(self.buf, n, self.buf.len());
                assert(rest@ =~= self.buf@.skip(n as int));
                self.buf = rest;
                Ok(e)
            },
            Err(e) => Err(e),
        }
    }

    /// Moves past the value at the parser's position, arrays and objects nesting at most
    /// `depth` deep in it.
    pub fn skip_value(&mut self, depth: usize) -> (r: Result<(), Error>)
        ensures
            match parse_value(old(self)@, depth as nat) {
                Ok((v, n)) => r is Ok && final(self)@ == old(self)@.skip(n),
                Err(e) => r is Err && r->Err_0 == e && final(self)@ == old(self)@,
            },
    {
        match verify_value_within(self.buf, depth) {
            Ok(n) => {
                proof {
                    lemma_encode_parse_value(self.buf@, depth as nat);
                }
                let rest = slice_subrange(self.buf, n, self.buf.len());
                assert(rest@ =~= self.buf@.skip(n as int));
                self.buf = rest;
                Ok(())
            },
            Err(e) => Err(e),
        }
    }

    /// Reads the value at the parser's position, arrays and objects nesting at most `depth`
    /// deep in it; the parser moves past it.
    pub fn read_value(&mut self, depth: usize) -> (r: Result<Value, Error>)
        ensures
            match parse_value(old(self)@, depth as nat) {
                Ok((v, n)) => r is Ok && r->Ok_0@ == v && final(self)@ == old(self)@.skip(n),
                Err(e) => r is Err && r->Err_0 == e && final(self)@ == old(self)@,
            },
    {
        match read_value_within(self.buf, depth) {
            Ok((v, n)) => {
                proof {
                    lemma_encode_parse_value(self.buf@, depth as nat);
                }
                let rest = slice_subrange(self.buf, n, self.buf.len());
                assert(rest@ =~= self.buf@.skip(n as int));
                self.buf = rest;
                Ok(v)
            },
            Err(e) => Err(e),
        }
    }
}

} // verus!
