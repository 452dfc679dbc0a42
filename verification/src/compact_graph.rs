//! The append-only forest graph over tag-packed 16-bit words.
//!
//! A node occupies one to six words. The head word carries a tag in its
//! upper bits that identifies the layout; small layouts pack factor handles
//! as backward distances from the node's own position. `0xFFFF` is the
//! `Nop` padding word left behind by in-place rewrites.

use vstd::prelude::*;

use crate::node_handle::{NodeHandle, NULL_HANDLE};
use crate::symbol::Symbol;

verus! {

/// The layout of one packed node, carried in the head word's upper bits.
#[derive(Copy, Clone, Debug, PartialEq, Eq, Structural)]
pub enum Tag {
    /// One word: a sum with nonterminal below 256 and count below 32.
    SmallSum,
    /// One word: a unary product with distance below 32 and action below 256.
    SmallLink,
    /// Two words: a unary product with distance below 2^13 and any 16-bit action.
    MediumLink,
    /// Two words: a binary product with both distances small.
    SmallProduct,
    /// One word: an evaluated leaf with symbol below 2^12.
    SmallLeaf,
    /// One word: a nulling leaf with symbol below 2^12.
    SmallNullingLeaf,
    /// Four words: an evaluated leaf with a full symbol.
    Leaf,
    /// Four words: a sum with a full count and nonterminal.
    Sum,
    /// Six words: a full product with a 32-bit action and two handles.
    Product,
    /// One padding word after an in-place rewrite.
    Nop,
}

/// A logical node of the packed forest graph.
#[derive(Copy, Clone, Debug, PartialEq, Eq)]
pub enum Node {
    /// A choice among `count` product nodes that immediately follow.
    Sum { count: u32, nonterminal: Symbol },
    /// One factorization of a rule application.
    Product { action: u32, left_factor: NodeHandle, right_factor: Option<NodeHandle> },
    /// A leaf for a symbol derived through epsilon-only productions.
    NullingLeaf { symbol: Symbol },
    /// A leaf for a scanned symbol.
    Evaluated { symbol: Symbol },
}

impl Tag {
    /// How many words a node of this layout occupies.
    pub open spec fn spec_size(self) -> int {
        match self {
            Tag::SmallSum => 1,
            Tag::SmallLink => 1,
            Tag::MediumLink => 2,
            Tag::SmallProduct => 2,
            Tag::SmallLeaf => 1,
            Tag::SmallNullingLeaf => 1,
            Tag::Leaf => 4,
            Tag::Sum => 4,
            Tag::Product => 6,
            Tag::Nop => 1,
        }
    }

    /// The tag's value in a head word.
    pub open spec fn spec_to_u16(self) -> u16 {
        match self {
            Tag::SmallSum => 0x0000,
            Tag::SmallLink => 0x2000,
            Tag::MediumLink => 0x4000,
            Tag::SmallProduct => 0x6000,
            Tag::SmallLeaf => 0x8000,
            Tag::SmallNullingLeaf => 0x9000,
            Tag::Leaf => 0xA000,
            Tag::Sum => 0xE000,
            Tag::Product => 0xC000,
            Tag::Nop => 0xFFFF,
        }
    }

    /// The bits of a head word that belong to this tag.
    pub open spec fn spec_mask(self) -> u16 {
        match self {
            Tag::SmallLeaf => 0xF000,
            Tag::SmallNullingLeaf => 0xF000,
            Tag::Nop => 0xFFFF,
            _ => 0xE000,
        }
    }

    /// The tag of the given head word, if the word is a valid head.
    pub open spec fn spec_from_u16(num: u16) -> Option<Tag> {
        if num == 0xFFFF {
            Some(Tag::Nop)
        } else {
            let t = num / 0x1000;
            if t < 2 {
                Some(Tag::SmallSum)
            } else if t < 4 {
                Some(Tag::SmallLink)
            } else if t < 6 {
                Some(Tag::MediumLink)
            } else if t < 8 {
                Some(Tag::SmallProduct)
            } else if t == 8 {
                Some(Tag::SmallLeaf)
            } else if t == 9 {
                Some(Tag::SmallNullingLeaf)
            } else if t < 12 {
                Some(Tag::Leaf)
            } else if t < 14 {
                Some(Tag::Product)
            } else {
                Some(Tag::Sum)
            }
        }
    }

    /// Reads the tag out of a head word.
    pub fn from_u16(num: u16) -> (r: Option<Tag>)
        ensures
            r == Tag::spec_from_u16(num),
    {
        if num == 0xFFFF {
            Some(Tag::Nop)
        } else {
            let t = num / 0x1000;
            if t < 2 {
                Some(Tag::SmallSum)
            } else if t < 4 {
                Some(Tag::SmallLink)
            } else if t < 6 {
                Some(Tag::MediumLink)
            } else if t < 8 {
                Some(Tag::SmallProduct)
            } else if t == 8 {
                Some(Tag::SmallLeaf)
            } else if t == 9 {
                Some(Tag::SmallNullingLeaf)
            } else if t < 12 {
                Some(Tag::Leaf)
            } else if t < 14 {
                Some(Tag::Product)
            } else {
                Some(Tag::Sum)
            }
        }
    }

    /// The tag's value in a head word.
    pub fn to_u16(self) -> (r: u16)
        ensures
            r == self.spec_to_u16(),
    {
        match self {
            Tag::SmallSum => 0x0000,
            Tag::SmallLink => 0x2000,
            Tag::MediumLink => 0x4000,
            Tag::SmallProduct => 0x6000,
            Tag::SmallLeaf => 0x8000,
            Tag::SmallNullingLeaf => 0x9000,
            Tag::Leaf => 0xA000,
            Tag::Sum => 0xE000,
            Tag::Product => 0xC000,
            Tag::Nop => 0xFFFF,
        }
    }

    /// The bits of a head word that belong to this tag.
    pub fn mask(self) -> (r: u16)
        ensures
            r == self.spec_mask(),
    {
        match self {
            Tag::SmallLeaf => 0xF000,
            Tag::SmallNullingLeaf => 0xF000,
            Tag::Nop => 0xFFFF,
            _ => 0xE000,
        }
    }

    /// How many words a node of this layout occupies.
    pub fn size(self) -> (r: usize)
        ensures
            r == self.spec_size(),
    {
        match self {
            Tag::SmallSum => 1,
            Tag::SmallLink => 1,
            Tag::MediumLink => 2,
            Tag::SmallProduct => 2,
            Tag::SmallLeaf => 1,
            Tag::SmallNullingLeaf => 1,
            Tag::Leaf => 4,
            Tag::Sum => 4,
            Tag::Product => 6,
            Tag::Nop => 1,
        }
    }
}

/// The smallest layout that holds `node` when it sits at position `pos`.
pub open spec fn classify(node: Node, pos: int) -> Tag {
    match node {
        Node::Product { action, left_factor, right_factor } => match right_factor {
            Some(handle) => {
                if pos - handle.0 < 32 && pos - left_factor.0 < 256 && action < 0x10000 {
                    Tag::SmallProduct
                } else {
                    Tag::Product
                }
            },
            None => {
                if pos - left_factor.0 < 32 && action < 256 {
                    Tag::SmallLink
                } else if pos - left_factor.0 < 0x2000 && action < 0x10000 {
                    Tag::MediumLink
                } else {
                    Tag::Product
                }
            },
        },
        Node::NullingLeaf { symbol } => {
            if symbol.0 < 0x1000 {
                Tag::SmallNullingLeaf
            } else {
                Tag::Leaf
            }
        },
        Node::Evaluated { symbol } => {
            if symbol.0 < 0x1000 {
                Tag::SmallLeaf
            } else {
                Tag::Leaf
            }
        },
        Node::Sum { count, nonterminal } => {
            if count < 32 && nonterminal.0 < 256 {
                Tag::SmallSum
            } else {
                Tag::Sum
            }
        },
    }
}

/// Which nodes the packed representation can hold exactly at position `pos`:
/// factors must point strictly backward, a full product's action must leave
/// room for the tag, a full sum's low count word must not collide with the
/// tag or the padding word, and a nulling leaf must fit the small layout
/// (the full leaf layout does not record nulling).
pub open spec fn node_fits(node: Node, pos: int) -> bool {
    match node {
        Node::Sum { count, nonterminal } => count % 0x10000 < 0x1FFF,
        Node::Product { action, left_factor, right_factor } => {
            &&& action < 0x2000_0000
            &&& left_factor.0 < pos
            &&& (right_factor matches Some(r) ==> r.0 < pos)
        },
        Node::NullingLeaf { symbol } => symbol.0 < 0x1000,
        Node::Evaluated { symbol } => symbol.0 % 0x10000 < 0x2000,
    }
}

/// The packed words of `node` at position `pos`.
pub open spec fn enc(node: Node, pos: int) -> Seq<u16>
    recommends
        node_fits(node, pos),
{
    match node {
        Node::Sum { count, nonterminal } => {
            if classify(node, pos) == Tag::SmallSum {
                seq![(nonterminal.0 + count * 256) as u16]
            } else {
                seq![
                    (count % 0x10000 + 0xE000) as u16,
                    (count / 0x10000) as u16,
                    (nonterminal.0 % 0x10000) as u16,
                    (nonterminal.0 / 0x10000) as u16,
                ]
            }
        },
        Node::Product { action, left_factor, right_factor } => {
            let tag = classify(node, pos);
            if tag == Tag::SmallLink {
                seq![(action + (pos - left_factor.0) * 256 + 0x2000) as u16]
            } else if tag == Tag::MediumLink {
                seq![((pos - left_factor.0) + 0x4000) as u16, action as u16]
            } else if tag == Tag::SmallProduct {
                seq![
                    ((pos - left_factor.0) + (pos - (right_factor->Some_0).0) * 256 + 0x6000) as u16,
                    action as u16,
                ]
            } else {
                let right = match right_factor {
                    Some(r) => r.0,
                    None => NULL_HANDLE,
                };
                seq![
                    (action / 0x10000 + 0xC000) as u16,
                    (action % 0x10000) as u16,
                    (left_factor.0 % 0x10000) as u16,
                    (left_factor.0 / 0x10000) as u16,
                    (right % 0x10000) as u16,
                    (right / 0x10000) as u16,
                ]
            }
        },
        Node::NullingLeaf { symbol } => {
            if symbol.0 < 0x1000 {
                seq![(symbol.0 + 0x9000) as u16]
            } else {
                seq![(symbol.0 % 0x10000 + 0xA000) as u16, (symbol.0 / 0x10000) as u16, 0u16, 0u16]
            }
        },
        Node::Evaluated { symbol } => {
            if symbol.0 < 0x1000 {
                seq![(symbol.0 + 0x8000) as u16]
            } else {
                seq![(symbol.0 % 0x10000 + 0xA000) as u16, (symbol.0 / 0x10000) as u16, 0u16, 0u16]
            }
        },
    }
}

/// The node meant by the packed words starting at `w[0]`, read as if they
/// sat at position `pos`.
pub open spec fn decode_words(w: Seq<u16>, pos: int) -> Node
    recommends
        w.len() >= 1,
        w[0] != 0xFFFF,
{
    let h = w[0] as int;
    let t = h / 0x1000;
    if t < 2 {
        let v = h % 0x2000;
        Node::Sum { count: (v / 256) as u32, nonterminal: Symbol((v % 256) as u32) }
    } else if t < 4 {
        let v = h % 0x2000;
        Node::Product {
            action: (v % 256) as u32,
            left_factor: NodeHandle((pos - v / 256) as u32),
            right_factor: None,
        }
    } else if t < 6 {
        let v = h % 0x2000;
        Node::Product {
            action: w[1] as u32,
            left_factor: NodeHandle((pos - v) as u32),
            right_factor: None,
        }
    } else if t < 8 {
        let v = h % 0x2000;
        Node::Product {
            action: w[1] as u32,
            left_factor: NodeHandle((pos - v % 256) as u32),
            right_factor: Some(NodeHandle((pos - v / 256) as u32)),
        }
    } else if t == 8 {
        Node::Evaluated { symbol: Symbol((h % 0x1000) as u32) }
    } else if t == 9 {
        Node::NullingLeaf { symbol: Symbol((h % 0x1000) as u32) }
    } else if t < 12 {
        Node::Evaluated { symbol: Symbol((h % 0x2000 + w[1] * 0x10000) as u32) }
    } else if t < 14 {
        let right = (w[4] + w[5] * 0x10000) as u32;
        Node::Product {
            action: ((h % 0x2000) * 0x10000 + w[1]) as u32,
            left_factor: NodeHandle((w[2] + w[3] * 0x10000) as u32),
            right_factor: if right == NULL_HANDLE {
                None
            } else {
                Some(NodeHandle(right))
            },
        }
    } else {
        Node::Sum {
            count: (h % 0x2000 + w[1] * 0x10000) as u32,
            nonterminal: Symbol((w[2] + w[3] * 0x10000) as u32),
        }
    }
}

/// A node's layout only shrinks or keeps its conditions when the node moves
/// to a later position: backward factors stay backward.
pub proof fn lemma_fits_monotone(node: Node, p: int, q: int)
    requires
        node_fits(node, p),
        p <= q,
    ensures
        node_fits(node, q),
{
}

/// A well-formed encoding starts with a head word that is never mistaken
/// for padding, has the length its tag announces, and decodes to the node
/// it was made from.
pub proof fn lemma_enc_decode(node: Node, pos: int)
    requires
        node_fits(node, pos),
        0 <= pos <= 0xFFFF_FFFF,
    ensures
        enc(node, pos).len() == classify(node, pos).spec_size(),
        enc(node, pos)[0] != 0xFFFF,
        Tag::spec_from_u16(enc(node, pos)[0]) == Some(classify(node, pos)),
        decode_words(enc(node, pos), pos) == node,
{
    let w = enc(node, pos);
    match node {
        Node::Sum { count, nonterminal } => {
            if classify(node, pos) == Tag::SmallSum {
                let v = nonterminal.0 + count * 256;
                assert(count < 32 && nonterminal.0 < 256);
                assert(v < 0x2000);
                assert(w[0] == v as u16);
                assert(v % 0x2000 == v && v % 256 == nonterminal.0 && v / 256 == count) by (nonlinear_arith)
                    requires
                        v == nonterminal.0 + count * 256,
                        count < 32,
                        nonterminal.0 < 256,
                ;
            } else {
                let lo = count % 0x10000;
                let hi = count / 0x10000;
                assert(lo < 0x1FFF);
                assert(lo + 0xE000 < 0x10000);
                let h = (lo + 0xE000) as int;
                assert(h / 0x1000 >= 14);
                assert(h % 0x2000 == lo);
                assert(lo + hi * 0x10000 == count) by (nonlinear_arith)
                    requires
                        lo == count % 0x10000,
                        hi == count / 0x10000,
                ;
                assert(nonterminal.0 % 0x10000 + (nonterminal.0 / 0x10000) * 0x10000
                    == nonterminal.0) by (nonlinear_arith);
            }
        },
        Node::Product { action, left_factor, right_factor } => {
            let tag = classify(node, pos);
            if tag == Tag::SmallLink {
                let d = pos - left_factor.0;
                let v = action + d * 256;
                assert(0 < d < 32 && action < 256);
                assert(v + 0x2000 < 0x4000);
                let h = v + 0x2000;
                assert(2 <= h / 0x1000 < 4);
                assert(h % 0x2000 == v);
                assert(v % 256 == action && v / 256 == d) by (nonlinear_arith)
                    requires
                        v == action + d * 256,
                        action < 256,
                        0 < d < 32,
                ;
            } else if tag == Tag::MediumLink {
                let d = pos - left_factor.0;
                assert(0 < d < 0x2000 && action < 0x10000);
                let h = d + 0x4000;
                assert(4 <= h / 0x1000 < 6);
                assert(h % 0x2000 == d);
            } else if tag == Tag::SmallProduct {
                let r = (right_factor->Some_0).0;
                let dl = pos - left_factor.0;
                let dr = pos - r;
                let v = dl + dr * 256;
                assert(0 < dl < 256 && 0 < dr < 32 && action < 0x10000);
                assert(v + 0x6000 < 0x8000);
                let h = v + 0x6000;
                assert(6 <= h / 0x1000 < 8);
                assert(h % 0x2000 == v);
                assert(v % 256 == dl && v / 256 == dr) by (nonlinear_arith)
                    requires
                        v == dl + dr * 256,
                        0 < dl < 256,
                        0 < dr < 32,
                ;
            } else {
                let ahi = action / 0x10000;
                let alo = action % 0x10000;
                assert(ahi < 0x2000);
                let h = ahi + 0xC000;
                assert(12 <= h / 0x1000 < 14);
                assert(h % 0x2000 == ahi);
                assert(ahi * 0x10000 + alo == action) by (nonlinear_arith)
                    requires
                        ahi == action / 0x10000,
                        alo == action % 0x10000,
                ;
                assert(left_factor.0 % 0x10000 + (left_factor.0 / 0x10000) * 0x10000
                    == left_factor.0) by (nonlinear_arith);
                let right = match right_factor {
                    Some(r) => r.0,
                    None => NULL_HANDLE,
                };
                assert(right % 0x10000 + (right / 0x10000) * 0x10000 == right) by (nonlinear_arith);
                if right_factor is Some {
                    assert(right < pos <= u32::MAX);
                    assert(right != NULL_HANDLE);
                }
            }
        },
        Node::NullingLeaf { symbol } => {
            assert(symbol.0 < 0x1000);
            let h = symbol.0 + 0x9000;
            assert(h / 0x1000 == 9);
            assert(h % 0x1000 == symbol.0);
        },
        Node::Evaluated { symbol } => {
            if symbol.0 < 0x1000 {
                let h = symbol.0 + 0x8000;
                assert(h / 0x1000 == 8);
                assert(h % 0x1000 == symbol.0);
            } else {
                let lo = symbol.0 % 0x10000;
                let hi = symbol.0 / 0x10000;
                assert(lo < 0x2000);
                let h = lo + 0xA000;
                assert(h < 0xC000);
                assert(10 <= h / 0x1000 < 12);
                assert(h % 0x2000 == lo);
                assert(lo + hi * 0x10000 == symbol.0) by (nonlinear_arith)
                    requires
                        lo == symbol.0 % 0x10000,
                        hi == symbol.0 / 0x10000,
                ;
            }
        },
    }
}

impl Node {
    /// The smallest layout that holds this node at `position`.
    pub fn classify(self, position: u32) -> (t: Tag)
        requires
            node_fits(self, position as int),
        ensures
            t == classify(self, position as int),
    {
        match self {
            Node::Product { action, left_factor, right_factor } => match right_factor {
                Some(handle) => {
                    if position - handle.0 < 32 && position - left_factor.0 < 256 && action
                        < 0x10000 {
                        Tag::SmallProduct
                    } else {
                        Tag::Product
                    }
                },
                None => {
                    if position - left_factor.0 < 32 && action < 256 {
                        Tag::SmallLink
                    } else if position - left_factor.0 < 0x2000 && action < 0x10000 {
                        Tag::MediumLink
                    } else {
                        Tag::Product
                    }
                },
            },
            Node::NullingLeaf { symbol } => {
                if symbol.0 < 0x1000 {
                    Tag::SmallNullingLeaf
                } else {
                    Tag::Leaf
                }
            },
            Node::Evaluated { symbol } => {
                if symbol.0 < 0x1000 {
                    Tag::SmallLeaf
                } else {
                    Tag::Leaf
                }
            },
            Node::Sum { count, nonterminal } => {
                if count < 32 && nonterminal.0 < 256 {
                    Tag::SmallSum
                } else {
                    Tag::Sum
                }
            },
        }
    }
}

/// The packed words of a node, ready to append at `position`.
fn encode_node(node: Node, position: u32) -> (w: Vec<u16>)
    requires
        node_fits(node, position as int),
    ensures
        w@ == enc(node, position as int),
{
    let ghost pos = position as int;
    let mut w: Vec<u16> = Vec::new();
    match node {
        Node::Sum { count, nonterminal } => {
            if count < 32 && nonterminal.0 < 256 {
                w.push((nonterminal.0 + count * 256) as u16);
            } else {
                w.push((count % 0x10000 + 0xE000) as u16);
                w.push((count / 0x10000) as u16);
                w.push((nonterminal.0 % 0x10000) as u16);
                w.push((nonterminal.0 / 0x10000) as u16);
            }
        },
        Node::Product { action, left_factor, right_factor } => {
            let is_small = match right_factor {
                Some(handle) => position - handle.0 < 32 && position - left_factor.0 < 256
                    && action < 0x10000,
                None => false,
            };
            let is_small_link = right_factor.is_none() && position - left_factor.0 < 32 && action
                < 256;
            let is_medium_link = right_factor.is_none() && position - left_factor.0 < 0x2000
                && action < 0x10000;
            if is_small_link {
                w.push((action + (position - left_factor.0) * 256 + 0x2000) as u16);
            } else if is_medium_link {
                w.push(((position - left_factor.0) + 0x4000) as u16);
                w.push(action as u16);
            } else if is_small {
                let right = match right_factor {
                    Some(handle) => handle.0,
                    None => 0,
                };
                w.push(
                    ((position - left_factor.0) + (position - right) * 256 + 0x6000) as u16,
                );
                w.push(action as u16);
            } else {
                let right = match right_factor {
                    Some(handle) => handle.0,
                    None => NULL_HANDLE,
                };
                w.push((action / 0x10000 + 0xC000) as u16);
                w.push((action % 0x10000) as u16);
                w.push((left_factor.0 % 0x10000) as u16);
                w.push((left_factor.0 / 0x10000) as u16);
                w.push((right % 0x10000) as u16);
                w.push((right / 0x10000) as u16);
            }
        },
        Node::NullingLeaf { symbol } => {
            w.push((symbol.0 + 0x9000) as u16);
        },
        Node::Evaluated { symbol } => {
            if symbol.0 < 0x1000 {
                w.push((symbol.0 + 0x8000) as u16);
            } else {
                w.push((symbol.0 % 0x10000 + 0xA000) as u16);
                w.push((symbol.0 / 0x10000) as u16);
                w.push(0u16);
                w.push(0u16);
            }
        },
    }
    proof {
        assert(w@ =~= enc(node, pos));
    }
    w
}

/// One recorded node of the graph: where its encoding starts, how many
/// words it owns (its encoding plus any padding behind it), and its meaning.
pub ghost struct NodeRecord {
    /// First word of the encoding.
    pub pos: int,
    /// Words owned, encoding and padding together.
    pub footprint: int,
    /// The node stored there.
    pub node: Node,
}

/// The packed forest graph: an append-only buffer of 16-bit words.
pub struct Graph {
    vec: Vec<u16>,
    records: Ghost<Seq<NodeRecord>>,
}

impl Graph {
    /// How many words the graph holds.
    pub closed spec fn size_words(&self) -> int {
        self.vec@.len() as int
    }

    /// How many nodes have been recorded.
    pub closed spec fn node_count(&self) -> int {
        self.records@.len() as int
    }

    /// Where node `i` starts.
    pub closed spec fn node_pos(&self, i: int) -> int {
        self.records@[i].pos
    }

    /// Node `i` itself.
    pub closed spec fn node_at(&self, i: int) -> Node {
        self.records@[i].node
    }

    /// The words node `i` owns, encoding and padding together.
    pub closed spec fn footprint(&self, i: int) -> int {
        self.records@[i].footprint
    }

    /// Whether some node starts at word position `p`.
    pub open spec fn is_node_pos(&self, p: int) -> bool {
        exists|i: int| 0 <= i < self.node_count() && #[trigger] self.node_pos(i) == p
    }

    /// The index of the node that starts at word position `p`.
    pub open spec fn index_of_pos(&self, p: int) -> int {
        choose|i: int| 0 <= i < self.node_count() && #[trigger] self.node_pos(i) == p
    }

    /// Record `i` matches the buffer: its node fits at its position, its
    /// encoding sits there word for word, and the rest of its footprint is
    /// padding.
    spec fn rec_wf(&self, i: int) -> bool {
        let r = self.records@[i];
        let size = classify(r.node, r.pos).spec_size();
        &&& node_fits(r.node, r.pos)
        &&& 0 <= r.pos
        &&& size <= r.footprint
        &&& r.pos + r.footprint <= self.vec@.len()
        &&& self.vec@.subrange(r.pos, r.pos + size) == enc(r.node, r.pos)
        &&& forall|j: int| r.pos + size <= j < r.pos + r.footprint ==> self.vec@[j] == 0xFFFF
    }

    /// The whole graph is a gap-free chain of recorded nodes.
    pub closed spec fn wf(&self) -> bool {
        &&& self.vec@.len() <= 0xFFFF_FFFE
        &&& (self.records@.len() == 0 ==> self.vec@.len() == 0)
        &&& (self.records@.len() > 0 ==> self.records@[0].pos == 0 && self.records@.last().pos
            + self.records@.last().footprint == self.vec@.len())
        &&& forall|i: int|
            0 <= i < self.records@.len() - 1 ==> #[trigger] self.records@[i].pos
                + self.records@[i].footprint == self.records@[i + 1].pos
        &&& forall|i: int| 0 <= i < self.records@.len() ==> #[trigger] self.rec_wf(i)
    }

    /// A fresh, empty graph.
    pub fn with_capacity(capacity: usize) -> (r: Graph)
        ensures
            r.wf(),
            r.node_count() == 0,
            r.size_words() == 0,
    {
        Graph { vec: Vec::with_capacity(capacity), records: Ghost(Seq::empty()) }
    }

    /// Appends a node, classified into the smallest layout that holds it,
    /// and returns its handle.
    pub fn push(&mut self, node: Node) -> (h: NodeHandle)
        requires
            old(self).wf(),
            node_fits(node, old(self).size_words()),
            old(self).size_words() + 6 <= 0xFFFF_FFFE,
        ensures
            final(self).wf(),
            h.0 == old(self).size_words(),
            final(self).node_count() == old(self).node_count() + 1,
            final(self).node_pos(old(self).node_count()) == old(self).size_words(),
            final(self).node_at(old(self).node_count()) == node,
            final(self).footprint(old(self).node_count()) == classify(
                node,
                old(self).size_words(),
            ).spec_size(),
            final(self).size_words() == old(self).size_words() + classify(
                node,
                old(self).size_words(),
            ).spec_size(),
            forall|i: int|
                0 <= i < old(self).node_count() ==> final(self).node_pos(i) == old(self).node_pos(
                    i,
                ) && final(self).node_at(i) == old(self).node_at(i) && final(self).footprint(i)
                    == old(self).footprint(i),
    {
        let position = self.vec.len();
        let ghost pos = position as int;
        let mut w = encode_node(node, position as u32);
        proof {
            lemma_enc_decode(node, pos);
        }
        let ghost old_vec = self.vec@;
        self.vec.append(&mut w);
        proof {
            let size = classify(node, pos).spec_size();
            let rec = NodeRecord { pos, footprint: size, node };
            self.records@ = self.records@.push(rec);
            let n = self.records@.len() - 1;
            assert(self.vec@.subrange(pos, pos + size) =~= enc(node, pos));
            assert forall|i: int| 0 <= i < n implies #[trigger] self.rec_wf(i) by {
                let r = self.records@[i];
                let s = classify(r.node, r.pos).spec_size();
                assert(old(self).rec_wf(i));
                assert(self.vec@.subrange(r.pos, r.pos + s) =~= old_vec.subrange(r.pos, r.pos + s));
            }
            assert(self.rec_wf(n));
            assert(self.wf());
        }
        NodeHandle(position as u32)
    }

    /// Reads the node whose encoding starts at `handle`.
    pub fn get(&self, handle: NodeHandle) -> (r: Node)
        requires
            self.wf(),
            self.is_node_pos(handle.0 as int),
        ensures
            r == self.node_at(self.index_of_pos(handle.0 as int)),
    {
        let ghost i = self.index_of_pos(handle.0 as int);
        let ghost node = self.node_at(i);
        let ghost pos = handle.0 as int;
        let ghost size = classify(node, pos).spec_size();
        let ghost w = self.vec@.subrange(pos, pos + size);
        proof {
            assert(self.rec_wf(i));
            lemma_enc_decode(node, pos);
            assert forall|k: int| 0 <= k < size implies w[k] == self.vec@[pos + k] by {}
        }
        let position = handle.0 as usize;
        let head = self.vec[position];
        let tag = Tag::from_u16(head);
        proof {
            assert(head == w[0]);
            assert(Tag::spec_from_u16(head) == Some(classify(node, pos)));
        }
        match tag {
            Some(Tag::SmallSum) => {
                let v = head % 0x2000;
                Node::Sum { count: (v / 256) as u32, nonterminal: Symbol((v % 256) as u32) }
            },
            Some(Tag::SmallLink) => {
                let v = head % 0x2000;
                let left = ((position as i64) - ((v / 256) as i64)) as u32;
                Node::Product {
                    action: (v % 256) as u32,
                    left_factor: NodeHandle(left),
                    right_factor: None,
                }
            },
            Some(Tag::MediumLink) => {
                let v = head % 0x2000;
                let action = self.vec[position + 1] as u32;
                let left = ((position as i64) - (v as i64)) as u32;
                proof {
                    assert(self.vec@[pos + 1] == w[1]);
                }
                Node::Product { action, left_factor: NodeHandle(left), right_factor: None }
            },
            Some(Tag::SmallProduct) => {
                let v = head % 0x2000;
                let action = self.vec[position + 1] as u32;
                let left = ((position as i64) - ((v % 256) as i64)) as u32;
                let right = ((position as i64) - ((v / 256) as i64)) as u32;
                proof {
                    assert(self.vec@[pos + 1] == w[1]);
                }
                Node::Product {
                    action,
                    left_factor: NodeHandle(left),
                    right_factor: Some(NodeHandle(right)),
                }
            },
            Some(Tag::SmallLeaf) => Node::Evaluated { symbol: Symbol((head % 0x1000) as u32) },
            Some(Tag::SmallNullingLeaf) => Node::NullingLeaf {
                symbol: Symbol((head % 0x1000) as u32),
            },
            Some(Tag::Leaf) => {
                let w1 = self.vec[position + 1];
                proof {
                    assert(self.vec@[pos + 1] == w[1]);
                }
                Node::Evaluated {
                    symbol: Symbol((head % 0x2000) as u32 + (w1 as u32) * 0x10000),
                }
            },
            Some(Tag::Product) => {
                let w1 = self.vec[position + 1];
                let w2 = self.vec[position + 2];
                let w3 = self.vec[position + 3];
                let w4 = self.vec[position + 4];
                let w5 = self.vec[position + 5];
                proof {
                    assert(self.vec@[pos + 1] == w[1]);
                    assert(self.vec@[pos + 2] == w[2]);
                    assert(self.vec@[pos + 3] == w[3]);
                    assert(self.vec@[pos + 4] == w[4]);
                    assert(self.vec@[pos + 5] == w[5]);
                }
                let action = ((head % 0x2000) as u32) * 0x10000 + w1 as u32;
                let left = w2 as u32 + (w3 as u32) * 0x10000;
                let right = w4 as u32 + (w5 as u32) * 0x10000;
                Node::Product {
                    action,
                    left_factor: NodeHandle(left),
                    right_factor: NodeHandle(right).to_option(),
                }
            },
            Some(Tag::Sum) => {
                let w1 = self.vec[position + 1];
                let w2 = self.vec[position + 2];
                let w3 = self.vec[position + 3];
                proof {
                    assert(self.vec@[pos + 1] == w[1]);
                    assert(self.vec@[pos + 2] == w[2]);
                    assert(self.vec@[pos + 3] == w[3]);
                }
                Node::Sum {
                    count: (head % 0x2000) as u32 + (w1 as u32) * 0x10000,
                    nonterminal: Symbol(w2 as u32 + (w3 as u32) * 0x10000),
                }
            },
            _ => {
                proof {
                    assert(false);
                }
                Node::Sum { count: 0, nonterminal: Symbol(0) }
            },
        }
    }
}

impl Graph {
    /// Records never overlap: an earlier record's words end before a later
    /// record's words begin.
    proof fn lemma_positions_ordered(&self, j: int, k: int)
        requires
            self.wf(),
            0 <= j < k < self.node_count(),
        ensures
            self.node_pos(j) + self.footprint(j) <= self.node_pos(k),
        decreases k - j,
    {
        if j + 1 == k {
        } else {
            self.lemma_positions_ordered(j + 1, k);
            assert(self.rec_wf(j + 1));
        }
    }

    /// Walks past the padding that follows the encoding of node `i`,
    /// stopping at the next node's head word or at the end of the buffer.
    fn advance_past_padding(&self, p: usize, Ghost(i): Ghost<int>) -> (q: usize)
        requires
            self.wf(),
            0 <= i < self.node_count(),
            p == self.node_pos(i) + classify(self.node_at(i), self.node_pos(i)).spec_size(),
        ensures
            q == self.node_pos(i) + self.footprint(i),
    {
        let ghost fp_end = self.node_pos(i) + self.footprint(i);
        proof {
            assert(self.rec_wf(i));
            if i + 1 < self.node_count() {
                assert(self.rec_wf(i + 1));
                lemma_enc_decode(self.node_at(i + 1), self.node_pos(i + 1));
                assert(self.vec@[self.node_pos(i + 1)] == enc(
                    self.node_at(i + 1),
                    self.node_pos(i + 1),
                )[0]);
            }
        }
        let mut q = p;
        while q < self.vec.len() && self.vec[q] == 0xFFFF
            invariant
                self.wf(),
                0 <= i < self.node_count(),
                self.rec_wf(i),
                p <= q <= fp_end,
                fp_end == self.node_pos(i) + self.footprint(i),
                p == self.node_pos(i) + classify(self.node_at(i), self.node_pos(i)).spec_size(),
                fp_end <= self.vec@.len(),
                i + 1 < self.node_count() ==> fp_end == self.node_pos(i + 1) && self.vec@[fp_end]
                    != 0xFFFF,
                i + 1 == self.node_count() ==> fp_end == self.vec@.len(),
            decreases fp_end - q,
        {
            q += 1;
        }
        proof {
            if q < fp_end {
                assert(self.vec@[q as int] == 0xFFFF);
                assert(false);
            }
        }
        q
    }

    /// Rewrites the node at `handle` in place. A longer encoding than the
    /// node's current footprint is taken only for the most recently pushed
    /// node, whose words end the buffer.
    pub fn set_up(&mut self, handle: NodeHandle, node: Node)
        requires
            old(self).wf(),
            old(self).is_node_pos(handle.0 as int),
            node_fits(node, handle.0 as int),
            classify(node, handle.0 as int).spec_size() <= old(self).footprint(
                old(self).index_of_pos(handle.0 as int),
            ) || old(self).index_of_pos(handle.0 as int) == old(self).node_count() - 1,
            old(self).size_words() + 6 <= 0xFFFF_FFFE,
        ensures
            final(self).wf(),
            final(self).node_count() == old(self).node_count(),
            final(self).node_at(old(self).index_of_pos(handle.0 as int)) == node,
            forall|j: int|
                0 <= j < old(self).node_count() ==> final(self).node_pos(j) == old(self).node_pos(
                    j,
                ),
            forall|j: int|
                0 <= j < old(self).node_count() && j != old(self).index_of_pos(handle.0 as int)
                    ==> final(self).node_at(j) == old(self).node_at(j),
    {
        let ghost i = old(self).index_of_pos(handle.0 as int);
        let ghost pos = handle.0 as int;
        proof {
            assert(0 <= i < old(self).node_count() && old(self).node_pos(i) == handle.0 as int);
            assert(self.rec_wf(i));
            lemma_enc_decode(node, pos);
        }
        let position = handle.0 as usize;
        let old_node = self.get(handle);
        let old_size = old_node.classify(handle.0).size();
        let fp_end = self.advance_past_padding(position + old_size, Ghost(i));
        let mut w = encode_node(node, handle.0 as u32);
        let new_size = w.len();
        if new_size <= fp_end - position {
            let ghost old_vec = self.vec@;
            let mut k: usize = 0;
            while k < new_size
                invariant
                    0 <= k <= new_size,
                    new_size == w@.len(),
                    w@ == enc(node, position as int),
                    position + new_size <= fp_end <= old_vec.len(),
                    self.records@ == old(self).records@,
                    self.vec@.len() == old_vec.len(),
                    forall|m: int| 0 <= m < k ==> self.vec@[position + m] == w@[m],
                    forall|m: int|
                        0 <= m < old_vec.len() && !(position <= m < position + k)
                            ==> self.vec@[m] == old_vec[m],
                decreases new_size - k,
            {
                let word = w[k];
                self.vec[position + k] = word;
                k += 1;
            }
            let mut q = position + new_size;
            while q < fp_end
                invariant
                    position + new_size <= q <= fp_end <= old_vec.len(),
                    new_size == w@.len(),
                    w@ == enc(node, position as int),
                    self.records@ == old(self).records@,
                    self.vec@.len() == old_vec.len(),
                    forall|m: int| 0 <= m < new_size ==> self.vec@[position + m] == w@[m],
                    forall|m: int|
                        position + new_size <= m < q ==> self.vec@[m] == 0xFFFF,
                    forall|m: int|
                        0 <= m < old_vec.len() && !(position <= m < q) ==> self.vec@[m]
                            == old_vec[m],
                decreases fp_end - q,
            {
                self.vec[q] = 0xFFFF;
                q += 1;
            }
            proof {
                let r = self.records@[i];
                self.records@ = self.records@.update(
                    i,
                    NodeRecord { pos, footprint: r.footprint, node },
                );
                assert(self.vec@.subrange(pos, pos + new_size) =~= w@);
                assert(self.rec_wf(i));
                assert forall|j: int|
                    0 <= j < self.records@.len() && j != i implies #[trigger] self.rec_wf(j) by {
                    assert(old(self).rec_wf(j));
                    let rj = self.records@[j];
                    let sj = classify(rj.node, rj.pos).spec_size();
                    if j < i {
                        old(self).lemma_positions_ordered(j, i);
                    } else {
                        old(self).lemma_positions_ordered(i, j);
                    }
                    assert(fp_end == position + old(self).footprint(i));
                    assert(rj.pos + rj.footprint <= position || fp_end <= rj.pos);
                    assert forall|m: int| rj.pos <= m < rj.pos + rj.footprint implies
                        self.vec@[m] == old_vec[m] by {}
                    assert(self.vec@.subrange(rj.pos, rj.pos + sj) =~= old_vec.subrange(
                        rj.pos,
                        rj.pos + sj,
                    ));
                    assert forall|m: int|
                        rj.pos + sj <= m < rj.pos + rj.footprint implies self.vec@[m]
                        == 0xFFFF by {
                        assert(old(self).vec@[m] == 0xFFFF);
                        assert(old_vec[m] == old(self).vec@[m]);
                        assert(self.vec@[m] == old_vec[m]);
                    }
                }
                assert(self.wf());
            }
        } else {
            let ghost old_vec = self.vec@;
            proof {
                if i < self.records@.len() - 1 {
                    assert(false);
                }
                assert(pos + old(self).footprint(i) == old_vec.len());
            }
            self.vec.truncate(position);
            self.vec.append(&mut w);
            proof {
                self.records@ = self.records@.update(
                    i,
                    NodeRecord { pos, footprint: new_size as int, node },
                );
                assert(self.vec@.subrange(pos, pos + new_size) =~= enc(node, pos));
                assert(self.rec_wf(i));
                assert forall|j: int|
                    0 <= j < self.records@.len() && j != i implies #[trigger] self.rec_wf(j) by {
                    assert(old(self).rec_wf(j));
                    old(self).lemma_positions_ordered(j, i);
                    let rj = self.records@[j];
                    let sj = classify(rj.node, rj.pos).spec_size();
                    assert(self.vec@.subrange(rj.pos, rj.pos + sj) =~= old_vec.subrange(
                        rj.pos,
                        rj.pos + sj,
                    ));
                }
                assert(self.wf());
            }
        }
    }

    /// Writes a sum header followed by its product summands, contiguously:
    /// the summand nodes occupy exactly the records after the header.
    pub fn push_sum(&mut self, nonterminal: Symbol, summands: &Vec<Node>) -> (h: NodeHandle)
        requires
            old(self).wf(),
            summands@.len() < 0x1FFF,
            forall|k: int|
                0 <= k < summands@.len() ==> ((#[trigger] summands@[k]) matches Node::Product {
                    ..
                }) && node_fits(summands@[k], old(self).size_words()),
            old(self).size_words() + 6 * (summands@.len() + 1) <= 0xFFFF_FFFE,
        ensures
            final(self).wf(),
            h.0 == old(self).size_words(),
            final(self).node_count() == old(self).node_count() + 1 + summands@.len(),
            final(self).node_pos(old(self).node_count()) == h.0,
            final(self).node_at(old(self).node_count()) == (Node::Sum {
                count: summands@.len() as u32,
                nonterminal,
            }),
            forall|k: int|
                0 <= k < summands@.len() ==> final(self).node_at(old(self).node_count() + 1 + k)
                    == summands@[k],
            forall|i: int|
                0 <= i < old(self).node_count() ==> final(self).node_pos(i) == old(self).node_pos(
                    i,
                ) && final(self).node_at(i) == old(self).node_at(i),
    {
        let count = summands.len() as u32;
        let h = self.push(Node::Sum { count, nonterminal });
        let mut k: usize = 0;
        while k < summands.len()
            invariant
                self.wf(),
                0 <= k <= summands@.len(),
                summands@.len() < 0x1FFF,
                forall|m: int|
                    0 <= m < summands@.len() ==> ((#[trigger] summands@[m]) matches Node::Product {
                        ..
                    }) && node_fits(summands@[m], old(self).size_words()),
                old(self).size_words() <= self.size_words(),
                self.size_words() + 6 * (summands@.len() - k) <= 0xFFFF_FFFE,
                self.node_count() == old(self).node_count() + 1 + k,
                self.node_pos(old(self).node_count()) == h.0,
                h.0 == old(self).size_words(),
                self.node_at(old(self).node_count()) == (Node::Sum {
                    count: summands@.len() as u32,
                    nonterminal,
                }),
                forall|m: int|
                    0 <= m < k ==> self.node_at(old(self).node_count() + 1 + m) == summands@[m],
                forall|i: int|
                    0 <= i < old(self).node_count() ==> self.node_pos(i) == old(self).node_pos(i)
                        && self.node_at(i) == old(self).node_at(i),
            decreases summands@.len() - k,
        {
            let node = summands[k];
            proof {
                lemma_fits_monotone(node, old(self).size_words(), self.size_words());
            }
            self.push(node);
            k += 1;
        }
        h
    }
}

impl<'a> Iter<'a> {
    /// The iterator sits on the graph's node `index`, or one past the last
    /// node, with its cursor at that node's first word.
    pub open spec fn wf_iter(&self) -> bool {
        &&& self.graph.wf()
        &&& 0 <= self.index@ <= self.graph.node_count()
        &&& (self.index@ < self.graph.node_count() ==> self.handle.0 == self.graph.node_pos(
            self.index@,
        ))
        &&& (self.index@ == self.graph.node_count() ==> self.handle.0
            == self.graph.size_words())
    }

    /// Reads the node under the cursor and moves to the next one, skipping
    /// the padding in between; `None` once every node has been yielded.
    pub fn next(&mut self) -> (r: Option<Node>)
        requires
            old(self).wf_iter(),
        ensures
            final(self).wf_iter(),
            final(self).graph == old(self).graph,
            old(self).index@ == old(self).graph.node_count() ==> r is None && final(self).index@
                == old(self).index@,
            old(self).index@ < old(self).graph.node_count() ==> r == Some(
                old(self).graph.node_at(old(self).index@),
            ) && final(self).index@ == old(self).index@ + 1,
    {
        let ghost i = self.index@;
        proof {
            if i < self.graph.node_count() {
                assert(self.graph.rec_wf(i));
            }
        }
        if self.handle.usize() == self.graph.size_words_exec() {
            proof {
                if i < self.graph.node_count() {
                    self.graph.lemma_last_covers(i);
                    assert(false);
                }
            }
            None
        } else {
            let node = self.graph.get(self.handle);
            proof {
                let j = self.graph.index_of_pos(self.handle.0 as int);
                self.graph.lemma_pos_index_unique(i, j);
            }
            let size = node.classify(self.handle.0).size();
            let after = self.graph.advance_past_padding(
                self.handle.usize() + size,
                Ghost(i),
            );
            self.handle = NodeHandle(after as u32);
            proof {
                self.index@ = i + 1;
                if i + 1 < self.graph.node_count() {
                    assert(self.graph.rec_wf(i + 1));
                }
            }
            Some(node)
        }
    }

    /// Reads the node under the cursor without moving.
    pub fn peek(&self) -> (r: Option<Node>)
        requires
            self.wf_iter(),
        ensures
            self.index@ == self.graph.node_count() ==> r is None,
            self.index@ < self.graph.node_count() ==> r == Some(
                self.graph.node_at(self.index@),
            ),
    {
        let mut copy = *self;
        copy.next()
    }
}

impl Graph {
    /// The number of words held, as the next free position.
    pub fn size_words_exec(&self) -> (r: usize)
        ensures
            r == self.size_words(),
    {
        self.vec.len()
    }

    /// Two node indices with one starting position are the same index.
    proof fn lemma_pos_index_unique(&self, i: int, j: int)
        requires
            self.wf(),
            0 <= i < self.node_count(),
            0 <= j < self.node_count(),
            self.node_pos(i) == self.node_pos(j),
        ensures
            i == j,
    {
        if i < j {
            self.lemma_positions_ordered(i, j);
            assert(self.rec_wf(i));
        } else if j < i {
            self.lemma_positions_ordered(j, i);
            assert(self.rec_wf(j));
        }
    }

    /// A node that is not the last one starts before the last node ends:
    /// so a cursor on node `i` never sits at the buffer's end.
    proof fn lemma_last_covers(&self, i: int)
        requires
            self.wf(),
            0 <= i < self.node_count(),
        ensures
            self.node_pos(i) < self.size_words(),
    {
        assert(self.rec_wf(i));
        if i < self.node_count() - 1 {
            self.lemma_positions_ordered(i, self.node_count() - 1);
            assert(self.rec_wf(self.node_count() - 1));
            lemma_enc_decode(self.node_at(i), self.node_pos(i));
        } else {
            lemma_enc_decode(self.node_at(i), self.node_pos(i));
        }
    }

    /// A lazy cursor over the nodes stored from `handle` on.
    pub fn iter_from<'a>(&'a self, handle: NodeHandle) -> (r: Iter<'a>)
        requires
            self.wf(),
            self.is_node_pos(handle.0 as int) || handle.0 == self.size_words(),
        ensures
            r.graph == self,
            r.wf_iter(),
            r.handle == handle,
            handle.0 == self.size_words() && !self.is_node_pos(handle.0 as int)
                ==> r.index@ == self.node_count(),
            self.is_node_pos(handle.0 as int) ==> r.index@ == self.index_of_pos(
                handle.0 as int,
            ),
    {
        let ghost i = if self.is_node_pos(handle.0 as int) {
            self.index_of_pos(handle.0 as int)
        } else {
            self.node_count()
        };
        Iter { graph: self, handle, index: Ghost(i) }
    }
}

/// A cursor over the nodes of a [`Graph`], yielding them in storage order.
#[derive(Clone, Copy)]
pub struct Iter<'a> {
    /// The graph walked over.
    pub graph: &'a Graph,
    /// The cursor: the first word of the next node to yield.
    pub handle: NodeHandle,
    /// Which node the cursor sits on.
    pub index: Ghost<int>,
}

/// Every factor handle stored in a product points strictly backward: to a
/// position before the product's own.
pub proof fn lemma_product_factors_point_backward(g: Graph, i: int)
    requires
        g.wf(),
        0 <= i < g.node_count(),
    ensures
        g.node_at(i) matches Node::Product { left_factor, right_factor, .. } ==> {
            &&& left_factor.0 < g.node_pos(i)
            &&& (right_factor matches Some(r) ==> r.0 < g.node_pos(i))
        },
{
    assert(g.rec_wf(i));
}

} // verus!
