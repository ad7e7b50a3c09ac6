use apollo::graph::{GraphData, GraphEdge, GraphNode};
use apollo::layout::{
    LayoutPoint, LayoutResult, assign_levels, ceil_sqrt, levels_settle, depths_from_root, facet_cells, facet_grid, layer_count,
    layer_slots, straight_routes,
};
use apollo::tree::{TreeData, TreeNode};

fn path_graph() -> GraphData {
    GraphData::directed(
        vec![GraphNode::new("a"), GraphNode::new("b"), GraphNode::new("c")],
        vec![GraphEdge::new("a", "b"), GraphEdge::new("b", "c")],
    )
    .unwrap()
}

#[test]
fn levels_follow_longest_path_on_a_dag() {
    assert_eq!(assign_levels(&path_graph()), vec![0, 1, 2]);
    let g = GraphData::directed(
        vec![GraphNode::new("a"), GraphNode::new("b"), GraphNode::new("c"), GraphNode::new("d")],
        vec![GraphEdge::new("a", "c"), GraphEdge::new("a", "b"), GraphEdge::new("b", "c"), GraphEdge::new("d", "c")],
    )
    .unwrap();
    assert!(levels_settle(&g));
    assert_eq!(assign_levels(&g), vec![0, 1, 2, 0]);
}

#[test]
fn levels_of_undirected_graph_are_bfs_distances() {
    let g = GraphData::undirected(
        vec![GraphNode::new("a"), GraphNode::new("b"), GraphNode::new("c"), GraphNode::new("d"), GraphNode::new("e")],
        vec![GraphEdge::new("c", "b"), GraphEdge::new("a", "b"), GraphEdge::new("a", "c"), GraphEdge::new("c", "d")],
    )
    .unwrap();
    assert!(levels_settle(&g));
    assert_eq!(assign_levels(&g), vec![0, 1, 1, 2, 0]);
}

#[test]
fn levels_do_not_settle_when_a_cycle_is_reached() {
    let g = GraphData::directed(
        vec![GraphNode::new("s"), GraphNode::new("a"), GraphNode::new("b")],
        vec![GraphEdge::new("s", "a"), GraphEdge::new("a", "b"), GraphEdge::new("b", "a")],
    )
    .unwrap();
    assert!(!levels_settle(&g));
    let unreached = GraphData::directed(
        vec![GraphNode::new("s"), GraphNode::new("a"), GraphNode::new("b")],
        vec![GraphEdge::new("a", "b"), GraphEdge::new("b", "a")],
    )
    .unwrap();
    assert!(levels_settle(&unreached));
    assert_eq!(assign_levels(&unreached), vec![0, 0, 0]);
}

#[test]
fn depths_count_parent_steps() {
    let tree = TreeData::new(
        "r",
        vec![TreeNode::child("c", "a"), TreeNode::root("r"), TreeNode::child("a", "r"), TreeNode::child("b", "r")],
    )
    .unwrap();
    assert_eq!(depths_from_root(&tree), vec![2, 0, 1, 1]);
}

#[test]
fn ceil_sqrt_values() {
    assert_eq!(ceil_sqrt(0), 0);
    assert_eq!(ceil_sqrt(1), 1);
    assert_eq!(ceil_sqrt(2), 2);
    assert_eq!(ceil_sqrt(4), 2);
    assert_eq!(ceil_sqrt(5), 3);
    assert_eq!(ceil_sqrt(9), 3);
    assert_eq!(ceil_sqrt(10), 4);
    assert_eq!(ceil_sqrt(usize::MAX), 1usize << (usize::BITS / 2));
}

#[test]
fn facet_grid_shapes() {
    assert_eq!(facet_grid(1, None), (1, 1));
    assert_eq!(facet_grid(2, None), (2, 1));
    assert_eq!(facet_grid(5, None), (3, 2));
    assert_eq!(facet_grid(5, Some(2)), (2, 3));
    assert_eq!(facet_grid(3, Some(0)), (1, 3));
}

#[test]
fn facet_cells_run_from_the_top_left() {
    let cells = facet_cells(5, 3, 2);
    assert_eq!(cells, vec![(0, 1), (1, 1), (2, 1), (0, 0), (1, 0)]);
}

fn pt(x: f64, y: f64) -> LayoutPoint {
    LayoutPoint { x: x.to_bits(), y: y.to_bits() }
}

#[test]
fn straight_routes_skip_unplaced_ends() {
    let positions = vec![("a".to_string(), pt(0.0, 0.0)), ("b".to_string(), pt(1.0, 2.0))];
    let routes = straight_routes(
        vec![("a".to_string(), "b".to_string()), ("a".to_string(), "z".to_string())],
        &positions,
    );
    assert_eq!(routes.len(), 1);
    assert_eq!(routes[0].points, vec![pt(0.0, 0.0), pt(1.0, 2.0)]);
    let result = LayoutResult { positions, routes };
    assert_eq!(result.position_of("b"), Some(pt(1.0, 2.0)));
    assert_eq!(result.position_of("z"), None);
}

#[test]
fn layer_slots_number_nodes_within_each_layer() {
    let levels = vec![0, 1, 2, 1, 0, 1];
    assert_eq!(layer_slots(&levels), vec![(0, 2), (0, 3), (0, 1), (1, 3), (1, 2), (2, 3)]);
    assert_eq!(layer_count(&levels), 3);
    assert!(layer_slots(&Vec::new()).is_empty());
    assert_eq!(layer_count(&Vec::new()), 1);
    assert_eq!(layer_count(&vec![0, 0]), 1);
}

#[test]
fn layered_slots_of_a_dag_follow_declaration_order() {
    let g = GraphData::directed(
        vec![GraphNode::new("a"), GraphNode::new("b"), GraphNode::new("c"), GraphNode::new("d")],
        vec![GraphEdge::new("a", "c"), GraphEdge::new("a", "b"), GraphEdge::new("b", "c"), GraphEdge::new("d", "c")],
    )
    .unwrap();
    let levels = assign_levels(&g);
    assert_eq!(layer_slots(&levels), vec![(0, 2), (0, 1), (0, 1), (1, 2)]);
    assert_eq!(layer_count(&levels), 3);
}
