use gearley::null_forest::{CompletedItem, Forest, NullForest};
use gearley::symbol::Symbol;

#[test]
fn null_forest_discards_everything() {
    let mut forest = NullForest;
    forest.leaf(Symbol(1), 0, ());
    forest.nulling(Symbol(2));
    forest.push_summand(CompletedItem { lhs: Symbol(3), origin: 0, left_node: (), right_node: None });
    forest.push_summand(CompletedItem {
        lhs: Symbol(3),
        origin: 0,
        left_node: (),
        right_node: Some(()),
    });
    let node = forest.sum(Symbol(3), 0);
    assert_eq!(node, ());
}
