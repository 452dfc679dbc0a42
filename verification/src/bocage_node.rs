//! Forest nodes and their packed three-word representation.
//!
//! A logical [`Node`] is packed into three 32-bit words; the top two bits of
//! the head word carry a tag that identifies the variant. Decoding erases
//! the tag, so a well-formed node keeps its head value below the tag bits.

use vstd::prelude::*;

use crate::node_handle::{NodeHandle, NULL_HANDLE};
use crate::symbol::Symbol;

verus! {

/// The value of a word's tag portion for each variant times one, i.e. the
/// divisor that splits a head word into payload and tag.
pub const TAG_UNIT: u32 = 0x4000_0000;

/// The `values` word reserved to mark a nulling leaf.
pub const NULL_VALUES: u32 = 0xFFFF_FFFF;

/// A logical forest node.
///
/// `Sum`/`Product` are better known in the literature as `OR`/`AND` nodes.
#[derive(Copy, Clone, Debug, PartialEq, Eq)]
pub enum Node {
    /// A choice among `count` product nodes that immediately follow.
    Sum { nonterminal: Symbol, count: u32 },
    /// One factorization of a rule application.
    Product { action: u32, left_factor: NodeHandle, right_factor: Option<NodeHandle> },
    /// A leaf for a symbol derived through epsilon-only productions.
    NullingLeaf { symbol: Symbol },
    /// A leaf carrying an evaluation slot.
    Evaluated { symbol: Symbol, values: u32 },
}

/// A node packed into three 32-bit words.
#[derive(Clone, Copy, Debug, PartialEq, Eq, Structural)]
pub struct CompactNode {
    /// Head word: payload plus `tag * TAG_UNIT`.
    pub word0: u32,
    /// Second payload word.
    pub word1: u32,
    /// Third payload word.
    pub word2: u32,
}

/// The variant of a packed node, carried in the top two bits of its head
/// word.
#[derive(Copy, Clone, Debug, PartialEq, Eq, Structural)]
pub enum Tag {
    /// A nulling or evaluated leaf.
    Leaf,
    /// A sum node.
    Sum,
    /// A product node.
    Product,
}

impl Tag {
    /// The tag encoded in a head word, if its tag bits are valid.
    pub open spec fn spec_from_u32(n: u32) -> Option<Tag> {
        let bits = n / TAG_UNIT;
        if bits == 0 {
            Some(Tag::Leaf)
        } else if bits == 1 {
            Some(Tag::Sum)
        } else if bits == 2 {
            Some(Tag::Product)
        } else {
            None
        }
    }

    /// Reads the tag bits of a head word.
    pub fn from_u32(n: u32) -> (r: Option<Tag>)
        ensures
            r == Tag::spec_from_u32(n),
    {
        let bits = n / TAG_UNIT;
        if bits == 0 {
            Some(Tag::Leaf)
        } else if bits == 1 {
            Some(Tag::Sum)
        } else if bits == 2 {
            Some(Tag::Product)
        } else {
            None
        }
    }

    /// The tag's value in a head word.
    pub fn as_u32(&self) -> (r: u32)
        ensures
            Tag::spec_from_u32(r) == Some(*self),
            r % TAG_UNIT == 0,
    {
        match *self {
            Tag::Leaf => 0,
            Tag::Sum => TAG_UNIT,
            Tag::Product => 2 * TAG_UNIT,
        }
    }
}

/// Which inputs the packed representation can hold exactly: payloads must
/// leave the head word's two tag bits free, a product's right factor must
/// not collide with the reserved null handle, and an evaluated leaf must
/// not collide with the reserved nulling mark.
pub open spec fn node_wf(node: Node) -> bool {
    match node {
        Node::Sum { nonterminal, count } => nonterminal.0 < TAG_UNIT,
        Node::Product { action, left_factor, right_factor } => {
            &&& action < TAG_UNIT
            &&& right_factor != Some(NodeHandle(NULL_HANDLE))
        },
        Node::NullingLeaf { symbol } => symbol.0 < TAG_UNIT,
        Node::Evaluated { symbol, values } => symbol.0 < TAG_UNIT && values != NULL_VALUES,
    }
}

/// What a packed node means: the tag is the head word divided by
/// [`TAG_UNIT`], the payload is the remainder.
pub open spec fn decode(c: CompactNode) -> Node
    recommends
        c.word0 / TAG_UNIT != 3,
{
    let tag = c.word0 / TAG_UNIT;
    let payload = c.word0 % TAG_UNIT;
    if tag == 0 {
        if c.word1 == NULL_VALUES {
            Node::NullingLeaf { symbol: Symbol(payload) }
        } else {
            Node::Evaluated { symbol: Symbol(payload), values: c.word1 }
        }
    } else if tag == 1 {
        Node::Sum { nonterminal: Symbol(payload), count: c.word1 }
    } else {
        Node::Product {
            action: payload,
            left_factor: NodeHandle(c.word1),
            right_factor: if c.word2 == NULL_HANDLE {
                None
            } else {
                Some(NodeHandle(c.word2))
            },
        }
    }
}

/// The packing of a node, word for word.
pub open spec fn encode(node: Node) -> CompactNode {
    match node {
        Node::Product { action, left_factor, right_factor } => {
            let right = match right_factor {
                Some(handle) => handle,
                None => NodeHandle(NULL_HANDLE),
            };
            CompactNode {
                word0: (action + 2 * TAG_UNIT) as u32,
                word1: left_factor.0,
                word2: right.0,
            }
        },
        Node::Sum { nonterminal, count } => {
            CompactNode { word0: (nonterminal.0 + TAG_UNIT) as u32, word1: count, word2: 0 }
        },
        Node::NullingLeaf { symbol } => {
            CompactNode { word0: symbol.0, word1: NULL_VALUES, word2: 0 }
        },
        Node::Evaluated { symbol, values } => {
            CompactNode { word0: symbol.0, word1: values, word2: 0 }
        },
    }
}

impl Node {
    /// Packs this node into three words.
    pub fn compact(self) -> (r: CompactNode)
        requires
            node_wf(self),
        ensures
            r == encode(self),
            r.word0 / TAG_UNIT != 3,
            decode(r) == self,
    {
        match self {
            Node::Product { left_factor, right_factor, action } => {
                let right = match right_factor {
                    Some(handle) => handle,
                    None => NodeHandle(NULL_HANDLE),
                };
                CompactNode { word0: action + 2 * TAG_UNIT, word1: left_factor.0, word2: right.0 }
            },
            Node::Sum { nonterminal, count } => {
                CompactNode { word0: nonterminal.0 + TAG_UNIT, word1: count, word2: 0 }
            },
            Node::NullingLeaf { symbol } => {
                CompactNode { word0: symbol.0, word1: NULL_VALUES, word2: 0 }
            },
            Node::Evaluated { symbol, values } => {
                CompactNode { word0: symbol.0, word1: values, word2: 0 }
            },
        }
    }
}

impl CompactNode {
    /// Overwrites this packed node with the packing of `node`.
    pub fn set(&mut self, node: Node)
        requires
            node_wf(node),
        ensures
            final(self).word0 / TAG_UNIT != 3,
            decode(*final(self)) == node,
    {
        *self = node.compact();
    }

    /// Unpacks this node.
    pub fn expand(&self) -> (r: Node)
        requires
            self.word0 / TAG_UNIT != 3,
        ensures
            r == decode(*self),
    {
        let tag = self.word0 / TAG_UNIT;
        let payload = self.word0 % TAG_UNIT;
        if tag == 0 {
            if self.word1 == NULL_VALUES {
                Node::NullingLeaf { symbol: Symbol(payload) }
            } else {
                Node::Evaluated { symbol: Symbol(payload), values: self.word1 }
            }
        } else if tag == 1 {
            Node::Sum { nonterminal: Symbol(payload), count: self.word1 }
        } else {
            Node::Product {
                action: payload,
                left_factor: NodeHandle(self.word1),
                right_factor: NodeHandle(self.word2).to_option(),
            }
        }
    }
}

/// Round trip: packing a well-formed node and unpacking it gives the node
/// back, with a stored null right factor standing for `None`.
pub proof fn lemma_compact_expand_round_trip(node: Node)
    requires
        node_wf(node),
    ensures
        decode(encode(node)) == node,
{
}

} // verus!
