//! The forest interface seen by the recognizer, and the forest that
//! discards every derivation.

use vstd::prelude::*;

use crate::symbol::Symbol;

verus! {

/// A completed recognition item handed to the forest: which symbol was
/// completed, at which origin earleme, and from which child nodes.
#[derive(Copy, Clone, Debug, PartialEq, Eq)]
pub struct CompletedItem<N> {
    /// The completed left-hand side symbol.
    pub lhs: Symbol,
    /// The earleme the completed item originated at.
    pub origin: u32,
    /// The node of the left factor.
    pub left_node: N,
    /// The node of the right factor, for binary rules.
    pub right_node: Option<N>,
}

/// What the recognizer asks of a forest: record leaves, nulling symbols and
/// summands, and seal a group of summands into a sum.
pub trait Forest {
    /// The handle by which the forest names its nodes.
    type NodeRef;

    /// The value attached to a scanned leaf.
    type LeafValue;

    /// Records a leaf for `sym` scanned at `earleme`.
    fn leaf(&mut self, sym: Symbol, earleme: u32, value: Self::LeafValue);

    /// Records a nulling leaf for `sym`.
    fn nulling(&self, sym: Symbol);

    /// Stages one summand of the completion being built.
    fn push_summand(&mut self, item: CompletedItem<Self::NodeRef>);

    /// Seals the staged summands into a sum for `lhs_sym` at `origin`.
    fn sum(&mut self, lhs_sym: Symbol, origin: u32) -> Self::NodeRef;
}

/// A forest that records nothing.
pub struct NullForest;

impl Forest for NullForest {
    type NodeRef = ();

    type LeafValue = ();

    fn leaf(&mut self, _sym: Symbol, _earleme: u32, _value: ()) {
    }

    fn nulling(&self, _sym: Symbol) {
    }

    fn push_summand(&mut self, _item: CompletedItem<()>) {
    }

    fn sum(&mut self, _lhs_sym: Symbol, _origin: u32) -> () {
        ()
    }
}

} // verus!
