//! Integer-indexed grammar symbols.

use vstd::prelude::*;

verus! {

/// Identity of a symbol within one grammar instance.
///
/// A symbol is nothing more than a dense index. Distinct external and
/// internal id-spaces are related by the symbol maps of a prepared grammar.
#[derive(Copy, Clone, Debug, PartialEq, Eq, Structural)]
pub struct Symbol(pub u32);

impl Symbol {
    /// The symbol's numeric value as a `usize` index.
    pub fn usize(self) -> (r: usize)
        ensures
            r == self.0 as usize,
    {
        self.0 as usize
    }

    /// The symbol with the given numeric value.
    pub fn from_u32(n: u32) -> (r: Symbol)
        ensures
            r.0 == n,
    {
        Symbol(n)
    }
}

} // verus!
