use tracer_core::bvh::{build, BvhItem, BvhTree};

fn item(id: usize, key: u64) -> BvhItem {
    BvhItem {
        id,
        key_x: key,
        key_y: key,
        key_z: key,
    }
}

fn collect_leaf_ids(tree: &BvhTree, out: &mut Vec<usize>) {
    match tree {
        BvhTree::Leaf { id } => out.push(*id),
        BvhTree::Node { left, right, .. } => {
            collect_leaf_ids(left, out);
            collect_leaf_ids(right, out);
        }
    }
}

fn leaf_count(tree: &BvhTree) -> usize {
    match tree {
        BvhTree::Leaf { .. } => 1,
        BvhTree::Node { left, right, .. } => leaf_count(left) + leaf_count(right),
    }
}

fn assert_median_shape(tree: &BvhTree) {
    if let BvhTree::Node { axis, left, right } = tree {
        assert!(*axis < 3);
        let n = leaf_count(left) + leaf_count(right);
        assert_eq!(leaf_count(left), n / 2);
        assert_median_shape(left);
        assert_median_shape(right);
    }
}

#[test]
fn one_primitive_builds_a_leaf() {
    let mut items = vec![item(7, 0)];
    let tree = build(&mut items);
    assert!(matches!(tree, BvhTree::Leaf { id: 7 }));
}

#[test]
fn equal_keys_keep_their_order() {
    // All keys equal on every axis: the stable ordering never swaps.
    let mut items = vec![item(3, 5), item(1, 5), item(2, 5), item(0, 5)];
    let tree = build(&mut items);
    let mut ids = Vec::new();
    collect_leaf_ids(&tree, &mut ids);
    assert_eq!(ids, vec![3, 1, 2, 0]);
}

#[test]
fn leaves_follow_the_keys() {
    // Keys identical across the axes, so whichever axis each split
    // draws, the leaves read in ascending key order.
    let mut items = vec![
        item(0, 50),
        item(1, 40),
        item(2, 30),
        item(3, 20),
        item(4, 10),
    ];
    let tree = build(&mut items);
    let mut ids = Vec::new();
    collect_leaf_ids(&tree, &mut ids);
    assert_eq!(ids, vec![4, 3, 2, 1, 0]);
}

#[test]
fn leaves_mirror_the_reordered_list() {
    let mut items = vec![
        item(10, 9),
        item(11, 2),
        item(12, 7),
        item(13, 4),
        item(14, 1),
        item(15, 8),
    ];
    let tree = build(&mut items);
    let mut ids = Vec::new();
    collect_leaf_ids(&tree, &mut ids);
    let list_ids: Vec<usize> = items.iter().map(|it| it.id).collect();
    assert_eq!(ids, list_ids);

    let mut sorted = ids.clone();
    sorted.sort();
    assert_eq!(sorted, vec![10, 11, 12, 13, 14, 15]);
}

#[test]
fn splits_sit_at_the_median() {
    let mut items: Vec<BvhItem> = (0..13).map(|i| item(i, (i as u64) * 3 % 7)).collect();
    let tree = build(&mut items);
    assert_eq!(leaf_count(&tree), 13);
    assert_median_shape(&tree);
}
