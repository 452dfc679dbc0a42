//! Opaque handles into the forest's node storage.

use vstd::prelude::*;

use crate::symbol::Symbol;

verus! {

/// The reserved handle value that stands for "no node".
pub const NULL_HANDLE: u32 = 0xFFFF_FFFF;

/// A position in the forest's node storage.
///
/// Handle values below [`NULL_HANDLE`] address real nodes; the value
/// [`NULL_HANDLE`] itself is reserved and stands for the absence of a node.
#[derive(Copy, Clone, Debug, PartialEq, Eq, Structural)]
pub struct NodeHandle(pub u32);

impl NodeHandle {
    /// The handle under which a nulling leaf for `symbol` is filed.
    pub fn nulling(symbol: Symbol) -> (r: NodeHandle)
        ensures
            r.0 == symbol.0,
    {
        NodeHandle(symbol.0)
    }

    /// The handle's numeric value as a `usize` index.
    pub fn usize(self) -> (r: usize)
        ensures
            r == self.0 as usize,
    {
        self.0 as usize
    }

    /// `None` for the reserved null handle, `Some(self)` otherwise.
    pub fn to_option(self) -> (r: Option<NodeHandle>)
        ensures
            self.0 == NULL_HANDLE ==> r is None,
            self.0 != NULL_HANDLE ==> r == Some(self),
    {
        if self.0 == NULL_HANDLE {
            None
        } else {
            Some(self)
        }
    }
}

} // verus!
