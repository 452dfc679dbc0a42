use gearley::compact_graph::{Graph, Node, Tag};
use gearley::node_handle::NodeHandle;
use gearley::symbol::Symbol;

#[test]
fn tag_word_round_trip() {
    let tags = [
        Tag::SmallSum,
        Tag::SmallLink,
        Tag::MediumLink,
        Tag::SmallProduct,
        Tag::SmallLeaf,
        Tag::SmallNullingLeaf,
        Tag::Leaf,
        Tag::Sum,
        Tag::Product,
        Tag::Nop,
    ];
    for &tag in tags.iter() {
        assert_eq!(Tag::from_u16(tag.to_u16()), Some(tag));
        assert!(tag.size() >= 1 && tag.size() <= 6);
        assert_eq!(tag.to_u16() & tag.mask(), tag.to_u16());
    }
    assert_eq!(Tag::SmallSum.size(), 1);
    assert_eq!(Tag::MediumLink.size(), 2);
    assert_eq!(Tag::Leaf.size(), 4);
    assert_eq!(Tag::Sum.size(), 4);
    assert_eq!(Tag::Product.size(), 6);
}

#[test]
fn push_and_get_every_layout() {
    let mut g = Graph::with_capacity(64);
    let small_leaf = Node::Evaluated { symbol: Symbol(7) };
    let big_leaf = Node::Evaluated { symbol: Symbol(0x11000) };
    let small_nulling = Node::NullingLeaf { symbol: Symbol(3) };
    let small_sum = Node::Sum { count: 2, nonterminal: Symbol(9) };
    let big_sum = Node::Sum { count: 700, nonterminal: Symbol(0x10000) };
    let h0 = g.push(small_leaf);
    let h1 = g.push(big_leaf);
    let h2 = g.push(small_nulling);
    let h3 = g.push(small_sum);
    let h4 = g.push(big_sum);
    let small_link = Node::Product { action: 3, left_factor: h0, right_factor: None };
    let h5 = g.push(small_link);
    let small_product = Node::Product { action: 100, left_factor: h1, right_factor: Some(h2) };
    let h6 = g.push(small_product);
    let full_product = Node::Product {
        action: 0x1234_5678,
        left_factor: h0,
        right_factor: Some(h3),
    };
    let h7 = g.push(full_product);
    assert_eq!(g.get(h0), small_leaf);
    assert_eq!(g.get(h1), big_leaf);
    assert_eq!(g.get(h2), small_nulling);
    assert_eq!(g.get(h3), small_sum);
    assert_eq!(g.get(h4), big_sum);
    assert_eq!(g.get(h5), small_link);
    assert_eq!(g.get(h6), small_product);
    assert_eq!(g.get(h7), full_product);
}

#[test]
fn medium_link_layout() {
    let mut g = Graph::with_capacity(0);
    let mut h0 = None;
    // push enough one-word leaves that the link's distance exceeds the
    // small layout but fits the medium one
    for i in 0..40u32 {
        let h = g.push(Node::Evaluated { symbol: Symbol(i) });
        if i == 0 {
            h0 = Some(h);
        }
    }
    let left = h0.unwrap();
    let medium = Node::Product { action: 77, left_factor: left, right_factor: None };
    let h = g.push(medium);
    assert_eq!(g.get(h), medium);
}

#[test]
fn iter_yields_nodes_in_storage_order() {
    let mut g = Graph::with_capacity(0);
    let a = Node::Evaluated { symbol: Symbol(1) };
    let b = Node::Sum { count: 40, nonterminal: Symbol(2) };
    let c = Node::NullingLeaf { symbol: Symbol(3) };
    let ha = g.push(a);
    let _hb = g.push(b);
    let _hc = g.push(c);
    let mut iter = g.iter_from(ha);
    assert_eq!(iter.peek(), Some(a));
    assert_eq!(iter.next(), Some(a));
    assert_eq!(iter.next(), Some(b));
    assert_eq!(iter.next(), Some(c));
    assert_eq!(iter.next(), None);
    assert_eq!(iter.next(), None);
}

#[test]
fn set_up_rewrites_with_padding() {
    let mut g = Graph::with_capacity(0);
    let h0 = g.push(Node::Evaluated { symbol: Symbol(1) });
    // a big sum occupies four words
    let h1 = g.push(Node::Sum { count: 40, nonterminal: Symbol(2) });
    let h2 = g.push(Node::Evaluated { symbol: Symbol(3) });
    // rewrite the middle node to a one-word layout; the rest of its
    // footprint becomes padding that iteration skips
    let small = Node::Sum { count: 2, nonterminal: Symbol(8) };
    g.set_up(h1, small);
    assert_eq!(g.get(h1), small);
    assert_eq!(g.get(h0), Node::Evaluated { symbol: Symbol(1) });
    assert_eq!(g.get(h2), Node::Evaluated { symbol: Symbol(3) });
    let mut iter = g.iter_from(h0);
    assert_eq!(iter.next(), Some(Node::Evaluated { symbol: Symbol(1) }));
    assert_eq!(iter.next(), Some(small));
    assert_eq!(iter.next(), Some(Node::Evaluated { symbol: Symbol(3) }));
    assert_eq!(iter.next(), None);
}

#[test]
fn set_up_grows_the_last_node() {
    let mut g = Graph::with_capacity(0);
    let h0 = g.push(Node::Evaluated { symbol: Symbol(1) });
    let h1 = g.push(Node::Sum { count: 1, nonterminal: Symbol(2) });
    let big = Node::Sum { count: 500, nonterminal: Symbol(0x20000) };
    g.set_up(h1, big);
    assert_eq!(g.get(h1), big);
    assert_eq!(g.get(h0), Node::Evaluated { symbol: Symbol(1) });
}

#[test]
fn sum_header_is_followed_by_its_products() {
    let mut g = Graph::with_capacity(0);
    let l0 = g.push(Node::Evaluated { symbol: Symbol(1) });
    let l1 = g.push(Node::Evaluated { symbol: Symbol(2) });
    let summands = vec![
        Node::Product { action: 0, left_factor: l0, right_factor: Some(l1) },
        Node::Product { action: 1, left_factor: l1, right_factor: None },
    ];
    let h = g.push_sum(Symbol(5), &summands);
    let mut iter = g.iter_from(h);
    assert_eq!(iter.next(), Some(Node::Sum { count: 2, nonterminal: Symbol(5) }));
    assert_eq!(iter.next(), Some(summands[0]));
    assert_eq!(iter.next(), Some(summands[1]));
    assert_eq!(iter.next(), None);
}

#[test]
fn product_factors_point_backward() {
    let mut g = Graph::with_capacity(0);
    let l0 = g.push(Node::Evaluated { symbol: Symbol(1) });
    let l1 = g.push(Node::Evaluated { symbol: Symbol(2) });
    let p = g.push(Node::Product { action: 9, left_factor: l0, right_factor: Some(l1) });
    match g.get(p) {
        Node::Product { left_factor, right_factor, .. } => {
            assert!(left_factor.0 < p.0);
            assert!(right_factor.unwrap().0 < p.0);
        },
        other => panic!("expected a product, got {:?}", other),
    }
}
