use annotation_store::marks::Node;
use annotation_store::marks::mark_main;

#[test]
fn mark_main_walk_runs() {
    mark_main();
}

#[test]
fn transitions_chain_from_a_fresh_node() {
    // The marks are ghost state, checked statically: the chain below is
    // legal because each gate's marks were recorded earlier in the chain.
    let node = Node::default();
    node.bar().foo().only_on_food_and_bard();
    node.foo().only_on_food();
    node.only_on_nil();
}
