use gearley::bocage_node::{CompactNode, Node, Tag, NULL_VALUES};
use gearley::node_handle::{NodeHandle, NULL_HANDLE};
use gearley::symbol::Symbol;

#[test]
fn handle_to_option_maps_null_to_none() {
    assert_eq!(NodeHandle(NULL_HANDLE).to_option(), None);
    assert_eq!(NodeHandle(7).to_option(), Some(NodeHandle(7)));
    assert_eq!(NodeHandle::nulling(Symbol(3)), NodeHandle(3));
    assert_eq!(NodeHandle(12).usize(), 12);
}

#[test]
fn sum_round_trip() {
    let node = Node::Sum { nonterminal: Symbol(77), count: 4 };
    let packed = node.compact();
    assert_eq!(packed.expand(), node);
}

#[test]
fn product_round_trip_with_both_factors() {
    let node = Node::Product {
        action: 0x1234_5678,
        left_factor: NodeHandle(3),
        right_factor: Some(NodeHandle(9)),
    };
    let packed = node.compact();
    assert_eq!(packed.expand(), node);
}

#[test]
fn product_round_trip_without_right_factor() {
    let node = Node::Product { action: 1, left_factor: NodeHandle(0), right_factor: None };
    let packed = node.compact();
    assert_eq!(packed.expand(), node);
}

#[test]
fn nulling_leaf_round_trip() {
    let node = Node::NullingLeaf { symbol: Symbol(0x3FFF_FFFF - 1) };
    let packed = node.compact();
    assert_eq!(packed.expand(), node);
}

#[test]
fn evaluated_round_trip() {
    let node = Node::Evaluated { symbol: Symbol(5), values: 42 };
    let packed = node.compact();
    assert_eq!(packed.expand(), node);
    // the reserved values word marks a nulling leaf instead
    let nulling = Node::NullingLeaf { symbol: Symbol(5) };
    let packed = nulling.compact();
    assert_eq!(packed.word1, NULL_VALUES);
    assert_eq!(packed.expand(), nulling);
}

#[test]
fn set_overwrites_in_place() {
    let first = Node::Evaluated { symbol: Symbol(1), values: 1 };
    let mut packed: CompactNode = first.compact();
    let second = Node::Sum { nonterminal: Symbol(2), count: 2 };
    packed.set(second);
    assert_eq!(packed.expand(), second);
}

#[test]
fn tag_bits_round_trip() {
    for tag in [Tag::Leaf, Tag::Sum, Tag::Product] {
        assert_eq!(Tag::from_u32(tag.as_u32()), Some(tag));
    }
    assert_eq!(Tag::from_u32(0xC000_0000), None);
    // a packed sum's head word carries the sum tag
    let packed = gearley::bocage_node::Node::Sum {
        nonterminal: gearley::symbol::Symbol(1),
        count: 2,
    }
    .compact();
    assert_eq!(Tag::from_u32(packed.word0), Some(Tag::Sum));
}
