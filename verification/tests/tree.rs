use morse::BinaryTree;

#[test]
fn new_node_is_a_leaf() {
    let leaf = BinaryTree::new('e');
    assert_eq!(leaf.value, 'e');
    assert!(leaf.left.is_none());
    assert!(leaf.right.is_none());
}

#[test]
fn left_attaches_the_dot_subtree() {
    let tree = BinaryTree::new(' ').left(BinaryTree::new('e'));
    assert_eq!(tree.value, ' ');
    assert_eq!(tree.left.as_ref().map(|node| node.value), Some('e'));
    assert!(tree.right.is_none());
}

#[test]
fn right_attaches_the_dash_subtree() {
    let tree = BinaryTree::new(' ').right(BinaryTree::new('t'));
    assert_eq!(tree.value, ' ');
    assert!(tree.left.is_none());
    assert_eq!(tree.right.as_ref().map(|node| node.value), Some('t'));
}

#[test]
fn builders_chain_and_keep_the_other_side() {
    let tree = BinaryTree::new(' ')
        .left(BinaryTree::new('e').left(BinaryTree::new('i')))
        .right(BinaryTree::new('t'));
    let dot = tree.left.as_ref().unwrap();
    assert_eq!(dot.value, 'e');
    assert_eq!(dot.left.as_ref().map(|node| node.value), Some('i'));
    assert!(dot.right.is_none());
    assert_eq!(tree.right.as_ref().map(|node| node.value), Some('t'));
}

#[test]
fn attaching_again_replaces_the_subtree() {
    let tree = BinaryTree::new(' ')
        .left(BinaryTree::new('a').left(BinaryTree::new('b')))
        .left(BinaryTree::new('e'));
    let dot = tree.left.as_ref().unwrap();
    assert_eq!(dot.value, 'e');
    assert!(dot.left.is_none());

    let tree = BinaryTree::new(' ').right(BinaryTree::new('m')).right(BinaryTree::new('t'));
    assert_eq!(tree.right.as_ref().map(|node| node.value), Some('t'));
}

#[test]
fn tree_holds_symbols_of_any_type() {
    let tree = BinaryTree::new(0u32).left(BinaryTree::new(1)).right(BinaryTree::new(2));
    assert_eq!(tree.value, 0);
    assert_eq!(tree.left.map(|node| node.value), Some(1));
    assert_eq!(tree.right.map(|node| node.value), Some(2));
}
