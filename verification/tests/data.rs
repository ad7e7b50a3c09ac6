use apollo::graph::{GraphData, GraphEdge, GraphNode};
use apollo::grid::GridData;
use apollo::table::ColumnTable;
use apollo::tree::{TreeData, TreeNode};
use apollo::types::Vec3;
use apollo::DiagnosticCode;

fn bits(v: &[f64]) -> Vec<u64> {
    v.iter().map(|x| x.to_bits()).collect()
}

#[test]
fn graph_rejects_unknown_endpoint() {
    let err = GraphData::undirected(vec![GraphNode::new("a")], vec![GraphEdge::new("a", "b")]).unwrap_err();
    assert_eq!(err.code, DiagnosticCode::UnknownColumn);
}

#[test]
fn table_builds_aligned_float_columns() {
    let table = ColumnTable::new()
        .push_float("x", bits(&[1.0, 2.0, 3.0]))
        .unwrap()
        .push_float("y", bits(&[4.0, 5.0, 6.0]))
        .unwrap();
    assert_eq!(table.row_count(), 3);
    assert!(table.validate().is_ok());
    assert_eq!(f64::from_bits(table.float_column("x").unwrap().values[1]), 2.0);
}

#[test]
fn table_rejects_length_mismatch() {
    let err = ColumnTable::new()
        .push_float("x", bits(&[1.0, 2.0]))
        .unwrap()
        .push_float("y", bits(&[3.0]))
        .unwrap_err();
    assert_eq!(err.code, DiagnosticCode::ColumnLengthMismatch);
}

#[test]
fn tree_accepts_small_tree() {
    let tree = TreeData::new(
        "r",
        vec![TreeNode::root("r"), TreeNode::child("a", "r"), TreeNode::child("b", "r"), TreeNode::child("c", "a")],
    )
    .unwrap();
    assert_eq!(tree.edges().len(), 3);
}

#[test]
fn tree_rejects_forest() {
    let err = TreeData::new("r", vec![TreeNode::root("r"), TreeNode::root("orphan")]).unwrap_err();
    assert_eq!(err.code, DiagnosticCode::ValidationFailed);
}

#[test]
fn triangulates_2x2() {
    let grid = GridData::new(bits(&[0.0, 1.0]), bits(&[0.0, 1.0]), bits(&[0.0, 0.0, 0.0, 1.0])).unwrap();
    let (pos, idx) = grid.triangulate();
    assert_eq!(pos.len(), 4);
    assert_eq!(idx.len(), 6);
}

#[test]
fn grid_triangulation_orders_cells_row_major() {
    let grid = GridData::new(bits(&[0.0, 1.0, 2.0]), bits(&[0.0, 1.0]), bits(&[0.0, 1.0, 2.0, 3.0, 4.0, 5.0])).unwrap();
    let (pos, idx) = grid.triangulate();
    assert_eq!(pos.len(), 6);
    assert_eq!(pos[4], Vec3 { x: 1.0f64.to_bits(), y: 1.0f64.to_bits(), z: 4.0f64.to_bits() });
    assert_eq!(idx, vec![0, 1, 4, 0, 4, 3, 1, 2, 5, 1, 5, 4]);
    assert!(idx.iter().all(|&i| i < 6));
}

#[test]
fn grid_rejects_small_mismatched_and_non_finite() {
    let err = GridData::new(bits(&[0.0]), bits(&[0.0, 1.0]), bits(&[0.0, 1.0])).unwrap_err();
    assert_eq!(err.code, DiagnosticCode::ValidationFailed);
    assert_eq!(err.message, "GridData 至少需要 2×2 采样");
    let err = GridData::new(bits(&[0.0, 1.0]), bits(&[0.0, 1.0]), bits(&[0.0, 1.0, 2.0])).unwrap_err();
    assert_eq!(err.code, DiagnosticCode::ColumnLengthMismatch);
    assert_eq!(err.message, "z 长度 3 与 nx*ny=4 不一致");
    let err = GridData::new(bits(&[0.0, f64::NAN]), bits(&[0.0, 1.0]), bits(&[0.0; 4])).unwrap_err();
    assert_eq!(err.message, "GridData.x 含非有限值");
    assert_eq!(err.params, vec![("field".to_string(), "x".to_string())]);
    let err = GridData::new(bits(&[0.0, 1.0]), bits(&[0.0, 1.0]), bits(&[0.0, 0.0, f64::INFINITY, 0.0])).unwrap_err();
    assert_eq!(err.message, "GridData.z 含非有限值");
}

#[test]
fn grid_z_at_reads_row_major() {
    let grid = GridData::new(bits(&[0.0, 1.0]), bits(&[0.0, 1.0]), bits(&[0.0, 1.0, 2.0, 3.0])).unwrap();
    assert_eq!(f64::from_bits(grid.z_at(1, 1)), 3.0);
    assert_eq!(f64::from_bits(grid.z_at(0, 1)), 2.0);
    assert_eq!(grid.nx(), 2);
    assert_eq!(grid.ny(), 2);
}

#[test]
fn table_insert_errors_carry_parameters() {
    let err = ColumnTable::new().push_float("x", vec![]).unwrap_err();
    assert_eq!(err.code, DiagnosticCode::EmptyData);
    assert_eq!(err.message, "列 `x` 为空");
    let err = ColumnTable::new()
        .push_float("x", bits(&[1.0]))
        .unwrap()
        .push_string("x", vec!["a".to_string()])
        .unwrap_err();
    assert_eq!(err.code, DiagnosticCode::ValidationFailed);
    assert_eq!(err.message, "列名重复：`x`");
    let err = ColumnTable::new()
        .push_float("x", bits(&[1.0, 2.0]))
        .unwrap()
        .push_float("y", bits(&[3.0]))
        .unwrap_err();
    assert_eq!(err.message, "列 `y` 长度 1 与既有列长度 2 不一致");
    assert_eq!(
        err.params,
        vec![
            ("column".to_string(), "y".to_string()),
            ("len".to_string(), "1".to_string()),
            ("expected_len".to_string(), "2".to_string())
        ]
    );
}

#[test]
fn table_lookup_and_kinds() {
    let table = ColumnTable::new()
        .push_float("x", bits(&[1.0, 2.0]))
        .unwrap()
        .push_string("g", vec!["a".to_string(), "b".to_string()])
        .unwrap();
    assert_eq!(table.column("nope").unwrap_err().message, "未知列 `nope`");
    assert_eq!(table.float_column("g").unwrap_err().message, "列 `g` 不是浮点列");
    assert_eq!(table.string_column("x").unwrap_err().message, "列 `x` 不是字符串列");
    assert_eq!(table.string_column("g").unwrap().values, vec!["a".to_string(), "b".to_string()]);
    assert!(ColumnTable::new().validate().is_err());
    assert_eq!(ColumnTable::new().row_count(), 0);
}

#[test]
fn table_select_rows_keeps_order_and_checks_range() {
    let table = ColumnTable::new()
        .push_float("x", bits(&[1.0, 2.0, 3.0]))
        .unwrap()
        .push_string("g", vec!["a".to_string(), "b".to_string(), "c".to_string()])
        .unwrap();
    let sub = table.select_rows(&[2, 0]).unwrap();
    assert_eq!(sub.row_count(), 2);
    assert_eq!(sub.float_column("x").unwrap().values, bits(&[3.0, 1.0]));
    assert_eq!(sub.string_column("g").unwrap().values, vec!["c".to_string(), "a".to_string()]);
    let err = table.select_rows(&[0, 5]).unwrap_err();
    assert_eq!(err.code, DiagnosticCode::ValidationFailed);
    assert_eq!(err.message, "行索引 5 越界（行数 3）");
    assert_eq!(table.select_rows(&[]).unwrap_err().code, DiagnosticCode::EmptyData);
}

#[test]
fn graph_validation_reports_first_problem() {
    let err = GraphData::directed(vec![], vec![]).unwrap_err();
    assert_eq!(err.code, DiagnosticCode::EmptyData);
    let err = GraphData::directed(vec![GraphNode::new("a"), GraphNode::new("a")], vec![]).unwrap_err();
    assert_eq!(err.code, DiagnosticCode::ValidationFailed);
    let err = GraphData::directed(vec![GraphNode::new("")], vec![]).unwrap_err();
    assert_eq!(err.code, DiagnosticCode::ValidationFailed);
    let err = GraphData::directed(vec![GraphNode::new("a")], vec![GraphEdge::new("z", "a")]).unwrap_err();
    assert_eq!(err.code, DiagnosticCode::UnknownColumn);
    assert_eq!(err.params, vec![("node".to_string(), "z".to_string())]);
}

#[test]
fn graph_adjacency_lists_both_directions_when_undirected() {
    let g = GraphData::undirected(
        vec![GraphNode::new("a"), GraphNode::new("b"), GraphNode::new("c")],
        vec![GraphEdge::new("a", "b"), GraphEdge::new("a", "c")],
    )
    .unwrap();
    let adj = g.adjacency();
    let get = |k: &str| adj.iter().find(|(key, _)| key == k).map(|(_, v)| v.clone()).unwrap();
    assert_eq!(get("a"), vec!["b".to_string(), "c".to_string()]);
    assert_eq!(get("b"), vec!["a".to_string()]);
    assert_eq!(get("c"), vec!["a".to_string()]);
    let d = GraphData::directed(
        vec![GraphNode::new("a"), GraphNode::new("b")],
        vec![GraphEdge::new("a", "b")],
    )
    .unwrap();
    let adj = d.adjacency();
    let get = |k: &str| adj.iter().find(|(key, _)| key == k).map(|(_, v)| v.clone()).unwrap();
    assert_eq!(get("a"), vec!["b".to_string()]);
    assert!(get("b").is_empty());
}

#[test]
fn tree_validation_errors() {
    assert_eq!(TreeData::new("r", vec![]).unwrap_err().code, DiagnosticCode::EmptyData);
    let err = TreeData::new("r", vec![TreeNode::root("x")]).unwrap_err();
    assert_eq!(err.message, "根 `r` 不在节点列表中");
    let err = TreeData::new("r", vec![TreeNode::child("r", "x")]).unwrap_err();
    assert_eq!(err.message, "声明的根不能有 parent");
    let err = TreeData::new("r", vec![TreeNode::root("r"), TreeNode::root("o")]).unwrap_err();
    assert_eq!(err.message, "树必须恰好一个根，当前 2 个（森林请用显式 ForestData，禁止静默选根）");
    let err = TreeData::new("r", vec![TreeNode::root("r"), TreeNode::child("a", "zz")]).unwrap_err();
    assert_eq!(err.code, DiagnosticCode::UnknownColumn);
    assert_eq!(err.message, "父节点 `zz` 不存在");
    let err = TreeData::new(
        "r",
        vec![TreeNode::root("r"), TreeNode::child("a", "b"), TreeNode::child("b", "a")],
    )
    .unwrap_err();
    assert_eq!(err.message, "树存在环");
    assert_eq!(err.params, vec![("node".to_string(), "a".to_string())]);
}

#[test]
fn tree_children_map_in_declaration_order() {
    let tree = TreeData::new(
        "r",
        vec![TreeNode::root("r"), TreeNode::child("a", "r"), TreeNode::child("b", "r"), TreeNode::child("c", "a")],
    )
    .unwrap();
    let map = tree.children_map();
    let get = |k: &str| map.iter().find(|(key, _)| key == k).map(|(_, v)| v.clone()).unwrap();
    assert_eq!(get("r"), vec!["a".to_string(), "b".to_string()]);
    assert_eq!(get("a"), vec!["c".to_string()]);
    assert!(get("c").is_empty());
    assert_eq!(map.len(), 4);
    let edges = tree.edges();
    assert_eq!(edges.len(), tree.nodes.len() - 1);
    assert_eq!((edges[2].parent.as_str(), edges[2].child.as_str()), ("a", "c"));
}
