use liquidium_test_backend::expiry::ExpiryResource;
use liquidium_test_backend::redblack::RedBlackTree;

#[test]
fn new_tree_is_empty() {
    let t: RedBlackTree<u64> = RedBlackTree::new();
    assert_eq!(t.len(), 0);
    assert!(t.is_empty());
    assert!(t.inorder_traversal().is_empty());
    assert!(!t.contains(&5));
}

#[test]
fn insert_keeps_sorted_order() {
    let mut t = RedBlackTree::new();
    for v in [50u64, 20, 80, 10, 30, 70, 90, 60, 40, 5, 1, 100] {
        t.insert(v);
    }
    let items: Vec<u64> = t.inorder_traversal().into_iter().copied().collect();
    assert_eq!(items, vec![1, 5, 10, 20, 30, 40, 50, 60, 70, 80, 90, 100]);
    assert_eq!(t.len(), 12);
    for v in [1u64, 5, 10, 20, 30, 40, 50, 60, 70, 80, 90, 100] {
        assert!(t.contains(&v));
    }
    assert!(!t.contains(&15));
    assert!(!t.contains(&101));
}

#[test]
fn ascending_inserts_stay_searchable() {
    let mut t = RedBlackTree::new();
    for v in 0u64..200 {
        t.insert(v);
    }
    let items: Vec<u64> = t.inorder_traversal().into_iter().copied().collect();
    assert_eq!(items, (0u64..200).collect::<Vec<_>>());
    assert!(t.contains(&0) && t.contains(&199) && !t.contains(&200));
}

#[test]
fn equal_keys_are_all_kept() {
    let mut t = RedBlackTree::new();
    t.insert(7u64);
    t.insert(3u64);
    t.insert(7u64);
    assert_eq!(t.len(), 3);
    assert_eq!(t.inorder_traversal(), vec![&3, &7, &7]);
    assert!(!t.is_empty());
    let removed = t.remove_less_than_or_equal(&7);
    assert_eq!(removed, vec![3, 7, 7]);
    assert!(t.is_empty());
}

#[test]
fn remove_less_than_or_equal_splits_the_tree() {
    let mut t = RedBlackTree::new();
    for v in [50u64, 20, 80, 10, 30, 70, 90] {
        t.insert(v);
    }
    let removed = t.remove_less_than_or_equal(&30);
    assert_eq!(removed, vec![10, 20, 30]);
    let rest: Vec<u64> = t.inorder_traversal().into_iter().copied().collect();
    assert_eq!(rest, vec![50, 70, 80, 90]);
    assert_eq!(t.len(), 4);
    assert!(!t.contains(&30));
    assert!(t.contains(&50));
}

#[test]
fn remove_bound_between_keys_and_beyond_all() {
    let mut t = RedBlackTree::new();
    for v in [5u64, 15, 25] {
        t.insert(v);
    }
    assert_eq!(t.remove_less_than_or_equal(&4), Vec::<u64>::new());
    assert_eq!(t.len(), 3);
    assert_eq!(t.remove_less_than_or_equal(&16), vec![5, 15]);
    assert_eq!(t.remove_less_than_or_equal(&u64::MAX), vec![25]);
    assert!(t.is_empty());
    t.insert(3);
    assert_eq!(t.len(), 1);
    assert!(t.contains(&3));
}

#[test]
fn expiry_resources_ordered_by_expiration() {
    let mut t = RedBlackTree::new();
    t.insert(ExpiryResource { expiration: 300, data: Some("c".to_string()) });
    t.insert(ExpiryResource { expiration: 100, data: Some("a".to_string()) });
    t.insert(ExpiryResource { expiration: 200, data: Some("b".to_string()) });
    // same expiration as an existing record: both records are kept, in insertion order
    t.insert(ExpiryResource { expiration: 200, data: Some("dup".to_string()) });
    let probe = ExpiryResource { expiration: 200, data: None };
    assert!(t.contains(&probe));
    let removed = t.remove_less_than_or_equal(&probe);
    let ids: Vec<String> = removed.into_iter().map(|r| r.data.unwrap()).collect();
    assert_eq!(ids, vec!["a".to_string(), "b".to_string(), "dup".to_string()]);
    assert_eq!(t.len(), 1);
    let rest: Vec<u64> = t.inorder_traversal().into_iter().map(|r| r.expiration).collect();
    assert_eq!(rest, vec![300]);
}

#[test]
fn expiry_resource_compares_by_expiration() {
    let a = ExpiryResource { expiration: 5, data: Some(1u8) };
    let b = ExpiryResource { expiration: 5, data: Some(2u8) };
    let c = ExpiryResource { expiration: 9, data: None };
    assert!(a == b);
    assert!(a != c);
    assert_eq!(a.partial_cmp(&c), Some(std::cmp::Ordering::Less));
    assert_eq!(c.partial_cmp(&a), Some(std::cmp::Ordering::Greater));
    assert_eq!(a.partial_cmp(&b), Some(std::cmp::Ordering::Equal));
}
