use annotation_store::ast::Type;
use annotation_store::node::Node;
use annotation_store::node::PreconditionViolation;

#[test]
fn test_add_get_annotation() {
    let node: Node<i32, Type> = Node::new(0);
    let mut node = node.add_annotation("Type".to_string(), Type::I32);
    let _: &Type = node.get_annotation(&"Type".to_string());
    node.change_annotation("Type".to_string(), Type::F32);
}

#[test]
fn add_then_get_returns_value() {
    let node: Node<i32, Type> = Node::new(7);
    let node = node.add_annotation("Type".to_string(), Type::I32);
    let got = node.get_annotation(&"Type".to_string());
    assert!(matches!(got, Type::I32));
    assert_eq!(node.node, 7);
}

#[test]
fn second_checked_add_rejected() {
    let node: Node<i32, Type> = Node::new(0);
    let node = node.add_annotation("Type".to_string(), Type::I32);
    let second = node.try_add_annotation("Type".to_string(), Type::F32);
    assert!(matches!(second, Err(PreconditionViolation)));
}

#[test]
fn change_replaces_value_and_keeps_history() {
    let node: Node<i32, Type> = Node::new(0);
    let mut node = node.add_annotation("Type".to_string(), Type::I32);
    assert_eq!(node.history_len(), 1);
    node.change_annotation("Type".to_string(), Type::F32);
    assert_eq!(node.history_len(), 1);
    let got = node.get_annotation(&"Type".to_string());
    assert!(matches!(got, Type::F32));
}

#[test]
fn unchecked_add_is_invisible_to_phase() {
    let mut node: Node<i32, Type> = Node::new(0);
    node.add_annotation_unchecked("Type".to_string(), Type::I32);
    assert_eq!(node.history_len(), 0);
    let unchecked = node.get_annotation_unchecked(&"Type".to_string());
    assert!(matches!(unchecked, Some(Type::I32)));
    let checked = node.try_get_annotation(&"Type".to_string());
    assert!(matches!(checked, Err(PreconditionViolation)));
}

#[test]
fn get_unchecked_on_fresh_store_misses() {
    let node: Node<i32, Type> = Node::new(0);
    assert!(node.get_annotation_unchecked(&"Type".to_string()).is_none());
    assert!(matches!(
        node.try_get_annotation(&"Type".to_string()),
        Err(PreconditionViolation)
    ));
}

#[test]
fn try_change_on_absent_kind_rejected() {
    let mut node: Node<i32, Type> = Node::new(0);
    let r = node.try_change_annotation("Type".to_string(), Type::F32);
    assert!(matches!(r, Err(PreconditionViolation)));
    assert_eq!(node.history_len(), 0);
}

#[test]
fn try_operations_succeed_once_kind_is_recorded() {
    let node: Node<i32, Type> = Node::new(0);
    let mut node = match node.try_add_annotation("Type".to_string(), Type::I32) {
        Ok(n) => n,
        Err(_) => panic!("first checked insertion must be accepted"),
    };
    let r = node.try_change_annotation("Type".to_string(), Type::Unit);
    assert!(r.is_ok());
    let got = node.try_get_annotation(&"Type".to_string());
    assert!(matches!(got, Ok(Type::Unit)));
}

#[test]
fn single_marker_store_walkthrough() {
    // markers = {Type}, depth 1: the one admissible fact gates the walk.
    let store0: Node<i32, Type> = Node::new(0);
    let store1 = store0.add_annotation("Type".to_string(), Type::I32);
    assert!(matches!(store1.get_annotation(&"Type".to_string()), Type::I32));
    let mut store2 = store1;
    store2.change_annotation("Type".to_string(), Type::F32);
    assert!(matches!(store2.get_annotation(&"Type".to_string()), Type::F32));
    let rejected = store2.try_add_annotation("Type".to_string(), Type::I32);
    assert!(matches!(rejected, Err(PreconditionViolation)));
}

#[test]
fn distinct_kinds_each_added_once() {
    let node: Node<i32, Type> = Node::new(3);
    let node = node.add_annotation("Type".to_string(), Type::I32);
    let node = node.add_annotation("Scope".to_string(), Type::Unit);
    assert_eq!(node.history_len(), 2);
    assert!(matches!(node.get_annotation(&"Type".to_string()), Type::I32));
    assert!(matches!(node.get_annotation(&"Scope".to_string()), Type::Unit));
}
