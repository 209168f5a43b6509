use rikka::renderer::scene::Hierarchy;
use rikka::renderer::scene::SceneHierarchy;
use rikka::renderer::scene::TransformUpdate;
use rikka::renderer::scene::INVALID_INDEX;

fn node_of(update: &TransformUpdate) -> usize {
    match update {
        TransformUpdate::Root { node } => *node,
        TransformUpdate::Child { node, .. } => *node,
    }
}

#[test]
fn hierarchy_new_and_default() {
    let h = Hierarchy::new(3, 2);
    assert_eq!(h.parent, 3);
    assert_eq!(h.level, 2);
    assert_eq!(h.first_child, INVALID_INDEX);
    assert_eq!(h.next_sibling, INVALID_INDEX);
    assert_eq!(h.last_sibling, INVALID_INDEX);
    let d = Hierarchy::default();
    assert_eq!(d.parent, INVALID_INDEX);
    assert_eq!(d.level, 0);
}

#[test]
fn with_num_nodes_makes_unlinked_roots() {
    let scene = SceneHierarchy::with_num_nodes(3);
    assert_eq!(scene.nodes_hierarchy.len(), 3);
    for h in &scene.nodes_hierarchy {
        assert_eq!(*h, Hierarchy::default());
    }
    assert_eq!(scene.changed_nodes.len(), 32);
}

#[test]
fn add_node_links_children_in_order() {
    let mut scene = SceneHierarchy::new();
    let root = scene.add_node(INVALID_INDEX, 0);
    let a = scene.add_node(root, 1);
    let b = scene.add_node(root, 1);
    let c = scene.add_node(root, 1);
    assert_eq!((root, a, b, c), (0, 1, 2, 3));
    let h = &scene.nodes_hierarchy;
    assert_eq!(h[root].first_child, a);
    assert_eq!(h[a].next_sibling, b);
    assert_eq!(h[b].next_sibling, c);
    assert_eq!(h[c].next_sibling, INVALID_INDEX);
    // Every child records the last child of the list.
    assert_eq!(h[a].last_sibling, c);
    assert_eq!(h[b].last_sibling, c);
    assert_eq!(h[c].last_sibling, c);
    assert_eq!(h[a].parent, root);
}

#[test]
fn set_hierarchy_moves_a_root_under_a_parent() {
    let mut scene = SceneHierarchy::with_num_nodes(2);
    scene.set_hierarchy(1, 0, 1);
    let h = &scene.nodes_hierarchy;
    assert_eq!(h[0].first_child, 1);
    assert_eq!(h[1].parent, 0);
    assert_eq!(h[1].level, 1);
    assert_eq!(h[1].last_sibling, 1);
}

#[test]
fn marked_subtree_updates_parents_first() {
    let mut scene = SceneHierarchy::new();
    let root = scene.add_node(INVALID_INDEX, 0);
    let a = scene.add_node(root, 1);
    let b = scene.add_node(root, 1);
    let a_child = scene.add_node(a, 2);
    let other_root = scene.add_node(INVALID_INDEX, 0);
    scene.mark_changed(root);
    let updates = scene.take_transform_updates();
    let nodes: Vec<usize> = updates.iter().map(node_of).collect();
    // Level by level: the root, then its children, then the grandchild.
    assert_eq!(nodes, vec![root, a, b, a_child]);
    assert_eq!(updates[0], TransformUpdate::Root { node: root });
    assert_eq!(updates[1], TransformUpdate::Child { node: a, parent: root });
    assert_eq!(updates[3], TransformUpdate::Child { node: a_child, parent: a });
    assert!(!nodes.contains(&other_root));
    // The changed lists are empty afterwards.
    assert!(scene.take_transform_updates().is_empty());
}

#[test]
fn marking_a_child_leaves_its_parent_and_siblings() {
    let mut scene = SceneHierarchy::new();
    let root = scene.add_node(INVALID_INDEX, 0);
    let a = scene.add_node(root, 1);
    let b = scene.add_node(root, 1);
    let a_child = scene.add_node(a, 2);
    scene.mark_changed(a);
    let nodes: Vec<usize> = scene.take_transform_updates().iter().map(node_of).collect();
    assert_eq!(nodes, vec![a, a_child]);
    assert!(!nodes.contains(&b));
}
