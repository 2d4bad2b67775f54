use pocket3d::skin::{append_primitive, joint_parents, node_joint_map, node_parent_map, remap_joints};

#[test]
fn nodes_map_to_the_last_joint_listing_them() {
    let m = node_joint_map(&[3, 0, 3, 9], 4);
    assert_eq!(m, vec![1, usize::MAX, usize::MAX, 2]);
    assert_eq!(node_joint_map(&[], 2), vec![usize::MAX, usize::MAX]);
}

#[test]
fn parents_come_from_the_children_lists() {
    // node 0 -> {1, 2}, node 2 -> {3}, node 3 lists an out-of-range child.
    let children = vec![vec![1, 2], vec![], vec![3], vec![7]];
    assert_eq!(node_parent_map(&children), vec![usize::MAX, 0, 0, 2]);
}

#[test]
fn joint_parents_skip_non_joint_ancestors() {
    // Nodes: 0 armature (not a joint), 1 hip, 2 spine, 3 head.
    let children = vec![vec![1], vec![2], vec![3], vec![]];
    let joint_nodes = [1usize, 2, 3];
    let parents = node_parent_map(&children);
    let joints = node_joint_map(&joint_nodes, children.len());
    assert_eq!(joint_parents(&joint_nodes, &parents, &joints), vec![None, Some(0), Some(1)]);
}

#[test]
fn joint_indices_are_remapped_with_zero_for_unknown() {
    assert_eq!(remap_joints([0, 1, 2, 7], &[2, 0, 1]), [2, 0, 1, 0]);
}

#[test]
fn primitives_are_rebased_into_one_index_buffer() {
    let mut indices = vec![0, 1, 2];
    let s = append_primitive(&mut indices, &[0, 2, 1], 3);
    assert_eq!(indices, vec![0, 1, 2, 3, 5, 4]);
    assert_eq!((s.material, s.index_start, s.index_count), (0, 3, 3));
    let e = append_primitive(&mut indices, &[], 10);
    assert_eq!((e.index_start, e.index_count), (6, 0));
}
