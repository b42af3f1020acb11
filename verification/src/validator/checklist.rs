//! The list of what validation leaves for the caller to settle.

use vstd::prelude::*;
use crate::crypto::hash;
use crate::crypto::hash::HashView;

verus! {

/// Something that validation could not settle by itself: the document with the hash `hash`
/// must be looked up, and must stand under one of the schemas in `schema`.
#[derive(Debug, PartialEq)]
pub struct ChecklistItem {
    /// The hash that was found in the value.
    pub hash: hash::Hash,
    /// The schemas of which the document with that hash must have one.
    pub schema: Vec<hash::Hash>,
}

/// What contracts see of a list of schemas.
pub open spec fn hashes_view(list: Seq<hash::Hash>) -> Seq<HashView> {
    Seq::new(list.len(), |i: int| list[i]@)
}

/// A copy of a list of hashes.
pub fn copy_hashes(list: &Vec<hash::Hash>) -> (c: Vec<hash::Hash>)
    ensures
        hashes_view(c@) == hashes_view(list@),
{
    let mut c: Vec<hash::Hash> = Vec::new();
    let mut i: usize = 0;
    while i < list.len()
        invariant
            0 <= i <= list.len(),
            c@.len() == i,
            forall|j: int| 0 <= j < i ==> c@[j]@ == list@[j]@,
        decreases list.len() - i,
    {
        c.push(list[i].clone());
        i += 1;
    }
    assert(hashes_view(c@) =~= hashes_view(list@));
    c
}

/// What validation leaves for later: the constraints it met that need a look at other
/// documents.
#[derive(Debug, PartialEq)]
pub struct Checklist {
    list: Vec<ChecklistItem>,
}

impl View for Checklist {
    type V = Seq<(HashView, Seq<HashView>)>;

    closed spec fn view(&self) -> Seq<(HashView, Seq<HashView>)> {
        Seq::new(self.list@.len(), |i: int| (self.list@[i].hash@, hashes_view(self.list@[i].schema@)))
    }
}

impl Checklist {
    /// A list with nothing on it.
    pub fn new() -> (c: Checklist)
        ensures
            c@ == Seq::<(HashView, Seq<HashView>)>::empty(),
    {
        let c = Checklist { list: Vec::new() };
        assert(c@ =~= Seq::empty());
        c
    }

    /// How many constraints are on the list.
    pub fn len(&self) -> (n: usize)
        ensures
            n == self@.len(),
    {
        self.list.len()
    }

    /// The constraint at position `i`.
    pub fn get(&self, i: usize) -> (item: &ChecklistItem)
        requires
            i < self@.len(),
        ensures
            (item.hash@, hashes_view(item.schema@)) == self@[i as int],
    {
        &self.list[i]
    }

    /// Puts one more constraint at the end of the list.
    pub fn add(&mut self, hash: hash::Hash, schema: Vec<hash::Hash>)
        ensures
            final(self)@ == old(self)@.push((hash@, hashes_view(schema@))),
    {
        self.list.push(ChecklistItem { hash, schema });
        assert(self@ =~= old(self)@.push((hash@, hashes_view(schema@))));
    }

    /// A copy of the list.
    pub fn copy(&self) -> (c: Checklist)
        ensures
            c@ == self@,
    {
        let mut list: Vec<ChecklistItem> = Vec::new();
        let mut i: usize = 0;
        while i < self.list.len()
            invariant
                0 <= i <= self.list@.len(),
                list@.len() == i,
                forall|j: int|
                    0 <= j < i ==> list@[j].hash@ == self.list@[j].hash@ && hashes_view(list@[j].schema@)
                        == hashes_view(self.list@[j].schema@),
            decreases self.list@.len() - i,
        {
            let item = &self.list[i];
            list.push(ChecklistItem { hash: item.hash.clone(), schema: copy_hashes(&item.schema) });
            i += 1;
        }
        let c = Checklist { list };
        assert(c@ =~= self@);
        c
    }
}

/// A copy of a list that may not be there.
pub fn copy_checklist(c: &Option<Checklist>) -> (r: Option<Checklist>)
    ensures
        match c {
            Some(x) => r is Some && r->0@ == x@,
            None => r is None,
        },
{
    match c {
        Some(x) => Some(x.copy()),
        None => None,
    }
}

} // verus!
