use tinae::sub_assets::SubAssets;

#[test]
fn children_of_unknown_parent_is_empty() {
    let g = SubAssets::new();
    assert_eq!(g.children(42), Vec::<u64>::new());

    let mut g2 = SubAssets::new();
    g2.add(1, 2);
    g2.add(2, 3);
    assert_eq!(g2.children(42), Vec::<u64>::new());
}

#[test]
fn add_reports_new_pairs_only() {
    let mut g = SubAssets::new();
    assert!(g.add(1, 2));
    assert!(!g.add(1, 2));
    assert!(g.add(1, 3));
    assert!(g.add(2, 2));
}

#[test]
fn remove_succeeds_exactly_once() {
    let mut g = SubAssets::new();
    g.add(1, 2);
    assert!(g.remove(1, 2));
    assert!(!g.remove(1, 2));
    assert!(!g.remove(1, 2));
}

#[test]
fn remove_of_absent_pair_is_false() {
    let mut g = SubAssets::new();
    assert!(!g.remove(1, 2));
    g.add(1, 2);
    assert!(!g.remove(1, 3));
    assert!(!g.remove(2, 2));
}

#[test]
fn empty_parent_entry_is_dropped() {
    let mut g = SubAssets::new();
    g.add(1, 2);
    g.remove(1, 2);
    // The parent was dropped with its last child, so the pair counts as new.
    assert!(g.add(1, 2));
}

#[test]
fn remove_all_spares_the_sibling() {
    let mut g = SubAssets::new();
    g.add(1, 2);
    g.add(1, 3);
    assert!(g.remove_all(2));
    assert_eq!(g.children(1), vec![3]);
    assert!(!g.remove_all(2));
}

#[test]
fn remove_all_reaches_every_parent() {
    let mut g = SubAssets::new();
    g.add(1, 9);
    g.add(2, 9);
    g.add(3, 8);
    assert!(g.remove_all(9));
    assert_eq!(g.children(1), Vec::<u64>::new());
    assert_eq!(g.children(2), Vec::<u64>::new());
    assert_eq!(g.children(3), vec![8]);
}

#[test]
fn clear_drops_all_children() {
    let mut g = SubAssets::new();
    g.add(1, 2);
    g.add(1, 3);
    g.add(4, 5);
    g.clear(1);
    assert_eq!(g.children(1), Vec::<u64>::new());
    assert_eq!(g.children(4), vec![5]);
    // Clearing an unknown parent is a no-op.
    g.clear(77);
    assert_eq!(g.children(4), vec![5]);
}

#[test]
fn children_expands_descendants_before_their_parent() {
    let mut g = SubAssets::new();
    g.add(1, 2);
    g.add(2, 3);
    // 3 is expanded ahead of its parent 2.
    assert_eq!(g.children(1), vec![3, 2]);
}

#[test]
fn children_expands_nested_subtrees_in_order() {
    let mut g = SubAssets::new();
    g.add(1, 2);
    g.add(1, 5);
    g.add(2, 3);
    g.add(2, 4);
    g.add(5, 6);
    // For each child of 1 in registration order: its subtree first, itself after.
    assert_eq!(g.children(1), vec![3, 4, 2, 6, 5]);
    assert_eq!(g.children(2), vec![3, 4]);
    assert_eq!(g.children(5), vec![6]);
}

#[test]
fn apply_discovery_registers_and_disposes() {
    let mut g = SubAssets::new();
    g.add(1, 2);
    let created = vec![(1, 3), (4, 5), (1, 3)];
    let disposed = vec![2, 5];
    g.apply_discovery(&created, &disposed);
    assert_eq!(g.children(1), vec![3]);
    assert_eq!(g.children(4), Vec::<u64>::new());
}
