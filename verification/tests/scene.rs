use asteria::scene::{NodeState, SceneGraph, SceneNode, SceneNodeId};

fn node(parent: Option<u32>, z: u32, seg: u16, dirty: bool) -> SceneNode {
    SceneNode {
        parent: parent.map(SceneNodeId),
        z_order: z,
        segment_id: seg,
        dirty,
        state: NodeState::Normal,
        link_url: None,
    }
}

fn chain() -> SceneGraph {
    let mut g = SceneGraph::new();
    g.push(node(None, 0, 0, false));
    g.push(node(Some(0), 1, 0, false));
    g.push(node(Some(1), 2, 1, false));
    g
}

#[test]
fn scene_node_id_index() {
    assert_eq!(SceneNodeId(7).index(), 7);
}

#[test]
fn scene_push_returns_sequential_ids() {
    let mut g = SceneGraph::with_capacity(4);
    assert!(g.is_empty());
    assert_eq!(g.push(node(None, 0, 0, true)), SceneNodeId(0));
    assert_eq!(g.push(node(Some(0), 1, 0, true)), SceneNodeId(1));
    assert_eq!(g.len(), 2);
    g.clear();
    assert!(g.is_empty());
}

#[test]
fn scene_invalidate_marks_all_ancestors() {
    let mut g = chain();
    g.invalidate(SceneNodeId(2));
    assert!(g.nodes.iter().all(|n| n.dirty));
    assert_eq!(g.dirty_count(), 3);
}

#[test]
fn scene_invalidate_stops_at_dirty_ancestor() {
    let mut g = chain();
    g.nodes[1].dirty = true;
    g.invalidate(SceneNodeId(2));
    assert!(g.nodes[2].dirty);
    assert!(g.nodes[1].dirty);
    // The walk stops at the already-dirty parent; the root stays clean.
    assert!(!g.nodes[0].dirty);
}

#[test]
fn scene_invalidate_unknown_id_is_ignored() {
    let mut g = chain();
    g.invalidate(SceneNodeId(9));
    assert_eq!(g.dirty_count(), 0);
}

#[test]
fn scene_invalidate_survives_parent_cycle() {
    let mut g = SceneGraph::new();
    g.push(node(Some(1), 0, 0, false));
    g.push(node(Some(0), 0, 0, false));
    g.invalidate(SceneNodeId(0));
    assert_eq!(g.dirty_count(), 2);
}

#[test]
fn scene_dirty_queries() {
    let mut g = SceneGraph::new();
    g.push(node(None, 0, 3, true));
    g.push(node(Some(0), 1, 1, false));
    g.push(node(Some(0), 2, 1, true));
    g.push(node(Some(0), 3, 3, true));
    g.push(node(Some(0), 4, 2, false));
    assert_eq!(g.dirty_nodes(), vec![SceneNodeId(0), SceneNodeId(2), SceneNodeId(3)]);
    assert_eq!(g.dirty_segments(), vec![1, 3]);
    assert_eq!(g.nodes_in_segment(1), vec![SceneNodeId(1), SceneNodeId(2)]);
    assert!(g.is_segment_dirty(3));
    assert!(!g.is_segment_dirty(2));
    g.clear_dirty();
    assert_eq!(g.dirty_count(), 0);
    assert!(g.dirty_segments().is_empty());
}

#[test]
fn scene_set_node_state_invalidates_on_change() {
    let mut g = chain();
    assert!(g.set_node_state(SceneNodeId(2), NodeState::Hovered));
    assert_eq!(g.nodes[2].state, NodeState::Hovered);
    assert_eq!(g.dirty_count(), 3);
    g.clear_dirty();
    assert!(!g.set_node_state(SceneNodeId(2), NodeState::Hovered));
    assert_eq!(g.dirty_count(), 0);
    assert!(!g.set_node_state(SceneNodeId(5), NodeState::Active));
}

#[test]
fn scene_topmost_prefers_last_of_highest() {
    let mut g = SceneGraph::new();
    g.push(node(None, 1, 0, false));
    g.push(node(None, 5, 0, false));
    g.push(node(None, 5, 0, false));
    g.push(node(None, 9, 0, false));
    assert_eq!(g.topmost(&[true, true, true, false]), Some(SceneNodeId(2)));
    assert_eq!(g.topmost(&[true, false, false, false]), Some(SceneNodeId(0)));
    assert_eq!(g.topmost(&[false, false, false, false]), None);
}

#[test]
fn scene_node_url() {
    let mut g = SceneGraph::default();
    let mut linked = node(None, 0, 0, false);
    linked.link_url = Some("https://example.com".to_string());
    g.push(linked);
    g.push(node(None, 0, 0, false));
    assert_eq!(g.node_url(SceneNodeId(0)), Some("https://example.com"));
    assert_eq!(g.node_url(SceneNodeId(1)), None);
    assert_eq!(g.node_url(SceneNodeId(2)), None);
}
