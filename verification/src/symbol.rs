//! Named variables.

use vstd::prelude::*;

verus! {

/// An atomic named variable. Two symbols are the same when their names are.
#[derive(Debug, Hash)]
pub struct Symbol {
    name: String,
}

impl View for Symbol {
    type V = Seq<char>;

    /// The name of the symbol.
    closed spec fn view(&self) -> Seq<char> {
        self.name@
    }
}

impl Symbol {
    /// A symbol with the given name.
    pub fn new(name: String) -> (symbol: Symbol)
        ensures
            symbol@ == name@,
    {
        Symbol { name }
    }

    /// Whether the two symbols have the same name.
    pub(crate) fn same_name(&self, other: &Symbol) -> (same: bool)
        ensures
            same == (self@ == other@),
    {
        self.name == other.name
    }

    /// The name of the symbol.
    pub fn to_string(&self) -> (text: String)
        ensures
            text@ == self@,
    {
        self.name.clone()
    }
}

impl Clone for Symbol {
    fn clone(&self) -> (copy: Symbol)
        ensures
            copy@ == self@,
    {
        Symbol { name: self.name.clone() }
    }
}

} // verus!
