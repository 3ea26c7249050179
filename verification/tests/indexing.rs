use merkle_tree::indexing::Ancestors;
use merkle_tree::indexing::convert_index_to_last_level;
use merkle_tree::indexing::is_ancestor_of_any;
use merkle_tree::indexing::is_left_child;
use merkle_tree::indexing::is_root;
use merkle_tree::indexing::is_strict_ancestor;
use merkle_tree::indexing::left_child;
use merkle_tree::indexing::parent;
use merkle_tree::indexing::right_child;
use merkle_tree::indexing::sibling;
use merkle_tree::indexing::tree_depth;

#[test]
fn child_and_parent_arithmetic() {
    assert_eq!(left_child(0), 1);
    assert_eq!(right_child(0), 2);
    assert_eq!(left_child(2), 5);
    assert_eq!(right_child(2), 6);
    assert_eq!(parent(0), None);
    assert_eq!(parent(1), Some(0));
    assert_eq!(parent(2), Some(0));
    assert_eq!(parent(6), Some(2));
    assert!(is_root(0));
    assert!(!is_root(3));
    assert!(is_left_child(1));
    assert!(!is_left_child(2));
}

#[test]
fn sibling_pairs() {
    assert_eq!(sibling(0), None);
    assert_eq!(sibling(1), Some(2));
    assert_eq!(sibling(2), Some(1));
    assert_eq!(sibling(5), Some(6));
    assert_eq!(sibling(6), Some(5));
}

#[test]
fn depth_from_size() {
    assert_eq!(tree_depth(1), 0);
    assert_eq!(tree_depth(3), 1);
    assert_eq!(tree_depth(7), 2);
    assert_eq!(tree_depth(15), 3);
}

#[test]
fn last_level_conversion() {
    assert_eq!(convert_index_to_last_level(0, 0), 0);
    assert_eq!(convert_index_to_last_level(0, 2), 3);
    assert_eq!(convert_index_to_last_level(2, 2), 5);
    assert_eq!(convert_index_to_last_level(1, 3), 8);
}

#[test]
fn ancestors_walk_to_root() {
    let mut a = Ancestors(6);
    assert_eq!(a.next(), Some(2));
    assert_eq!(a.next(), Some(0));
    assert_eq!(a.next(), None);
    assert_eq!(a.next(), None);
}

#[test]
fn strict_ancestor_checks() {
    assert!(is_strict_ancestor(0, 6));
    assert!(is_strict_ancestor(2, 6));
    assert!(!is_strict_ancestor(6, 6));
    assert!(!is_strict_ancestor(1, 6));
    assert!(!is_strict_ancestor(5, 2));
    assert!(is_ancestor_of_any(1, 3, 2));
    assert!(!is_ancestor_of_any(2, 3, 2));
    assert!(!is_ancestor_of_any(1, 3, 0));
}
