//! A character vector as exchanged with a host environment: an ordered list
//! of entries, each either a string or missing.

use vstd::prelude::*;

verus! {

/// Wraps a list of optional strings, where a missing entry stands for a
/// value the host left out.
pub struct CharVec {
    items: Vec<Option<String>>,
}

/// The abstract value of one entry: the string's characters, or nothing.
pub open spec fn entry_view(o: Option<String>) -> Option<Seq<char>> {
    match o {
        Some(s) => Some(s@),
        None => None,
    }
}

impl View for CharVec {
    type V = Seq<Option<Seq<char>>>;

    closed spec fn view(&self) -> Seq<Option<Seq<char>>> {
        self.items@.map_values(|o: Option<String>| entry_view(o))
    }
}

impl CharVec {
    /// An empty character vector.
    pub fn new() -> (r: Self)
        ensures
            r@ == Seq::<Option<Seq<char>>>::empty(),
    {
        let r = CharVec { items: Vec::new() };
        proof {
            assert(r@ =~= Seq::<Option<Seq<char>>>::empty());
        }
        r
    }

    /// Wraps a list of optional strings as it stands.
    pub fn from_items(items: Vec<Option<String>>) -> (r: Self)
        ensures
            r@ == items@.map_values(|o: Option<String>| entry_view(o)),
    {
        CharVec { items }
    }

    /// The wrapped list, unchanged.
    pub fn into_items(self) -> (r: Vec<Option<String>>)
        ensures
            r@.map_values(|o: Option<String>| entry_view(o)) == self@,
    {
        self.items
    }

    /// How many entries the vector holds, missing ones included.
    pub fn len(&self) -> (r: usize)
        ensures
            r == self@.len(),
    {
        self.items.len()
    }

    /// Appends one entry.
    pub fn push(&mut self, item: Option<String>)
        ensures
            final(self)@ == old(self)@.push(entry_view(item)),
    {
        self.items.push(item);
        proof {
            assert(self@ =~= old(self)@.push(entry_view(item)));
        }
    }

    /// A reference to the entry at `i`.
    pub fn get(&self, i: usize) -> (r: &Option<String>)
        requires
            i < self@.len(),
        ensures
            entry_view(*r) == self@[i as int],
    {
        &self.items[i]
    }
}

} // verus!
