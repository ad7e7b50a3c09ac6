use apollo::graph::{GraphData, GraphEdge, GraphNode};
use apollo::grid::GridData;
use apollo::mapping::{AestheticExpr, Mapping};
use apollo::plot::{
    CoordinateSpec, FacetSpec, GeomSpec, LayerSpec, PlotSpec, ScaleKind, ScaleSpec, ThemeSpec, scale_for,
};
use apollo::table::ColumnTable;
use apollo::tree::{TreeData, TreeNode};
use apollo::types::Interval;
use apollo::validate::validate_plot;
use apollo::DiagnosticCode;

fn bits(v: &[f64]) -> Vec<u64> {
    v.iter().map(|x| x.to_bits()).collect()
}

fn sample_table() -> ColumnTable {
    ColumnTable::new()
        .push_float("x", bits(&[0.0, 1.0, 2.0]))
        .unwrap()
        .push_float("y", bits(&[0.0, 1.0, 0.0]))
        .unwrap()
}

fn labelled_table() -> ColumnTable {
    ColumnTable::new()
        .push_float("x", bits(&[0.0, 1.0]))
        .unwrap()
        .push_float("y", bits(&[1.0, 2.0]))
        .unwrap()
        .push_string("g", vec!["a".into(), "b".into()])
        .unwrap()
}

#[test]
fn validate_accepts_point_and_bar() {
    let point = PlotSpec::new(sample_table()).mapping(Mapping::xy("x", "y")).layer(LayerSpec::geom_point());
    let bar = PlotSpec::new(sample_table()).mapping(Mapping::xy("x", "y")).layer(LayerSpec::geom_bar());
    assert!(validate_plot(&point).is_ok());
    assert!(validate_plot(&bar).is_ok());
}

#[test]
fn validate_accepts_text_with_label_column() {
    let table = ColumnTable::new()
        .push_float("x", bits(&[0.0, 1.0]))
        .unwrap()
        .push_float("y", bits(&[1.0, 2.0]))
        .unwrap()
        .push_string("lab", vec!["a".into(), "b".into()])
        .unwrap();
    let mut mapping = Mapping::xy("x", "y");
    mapping.label = Some(AestheticExpr::column("lab"));
    let plot = PlotSpec::new(table).mapping(mapping).layer(LayerSpec::geom_text());
    assert!(validate_plot(&plot).is_ok());
}

#[test]
fn validate_rejects_missing_y() {
    let mut mapping = Mapping::default();
    mapping.x = Some(AestheticExpr::column("x"));
    let plot = PlotSpec::new(sample_table()).mapping(mapping).layer(LayerSpec::geom_line());
    let err = validate_plot(&plot).unwrap_err();
    assert_eq!(err.code, DiagnosticCode::MissingMapping);
}

#[test]
fn validate_rejects_bar_with_log_y() {
    let plot = PlotSpec::new(sample_table())
        .mapping(Mapping::xy("x", "y"))
        .scale(ScaleSpec::log10_y().with_domain(Interval::new(1.0f64.to_bits(), 10.0f64.to_bits())))
        .layer(LayerSpec::geom_bar());
    let err = validate_plot(&plot).unwrap_err();
    assert_eq!(err.code, DiagnosticCode::UnsupportedSpec);
}

#[test]
fn validate_accepts_facet_wrap() {
    let plot = PlotSpec::new(labelled_table())
        .mapping(Mapping::xy("x", "y"))
        .facets(FacetSpec::wrap("g"))
        .layer(LayerSpec::geom_point());
    assert!(validate_plot(&plot).is_ok());
}

#[test]
fn validate_accepts_surface_grid() {
    let grid = GridData::new(bits(&[0.0, 1.0]), bits(&[0.0, 1.0]), bits(&[0.0, 0.0, 0.0, 1.0])).unwrap();
    let plot = PlotSpec::from_grid(grid).layer(LayerSpec::geom_surface());
    assert!(validate_plot(&plot).is_ok());
}

#[test]
fn validate_accepts_graph_and_tree() {
    let graph =
        GraphData::undirected(vec![GraphNode::new("a"), GraphNode::new("b")], vec![GraphEdge::new("a", "b")]).unwrap();
    let gplot = PlotSpec::from_graph(graph).layer(LayerSpec::geom_edge()).layer(LayerSpec::geom_node());
    assert!(validate_plot(&gplot).is_ok());

    let tree = TreeData::new("r", vec![TreeNode::root("r"), TreeNode::child("a", "r")]).unwrap();
    let tplot = PlotSpec::from_tree(tree).layer(LayerSpec::geom_tree_edge()).layer(LayerSpec::geom_tree_node());
    assert!(validate_plot(&tplot).is_ok());
}

#[test]
fn validate_requires_a_layer() {
    let err = validate_plot(&PlotSpec::new(sample_table())).unwrap_err();
    assert_eq!(err.code, DiagnosticCode::InvalidLayer);
    assert_eq!(err.message, "至少需要一个图层");
}

#[test]
fn validate_names_the_failing_layer() {
    let plot = PlotSpec::new(sample_table())
        .mapping(Mapping::xy("x", "y"))
        .layer(LayerSpec::geom_point())
        .layer(LayerSpec::geom_surface());
    let err = validate_plot(&plot).unwrap_err();
    assert_eq!(err.code, DiagnosticCode::UnsupportedSpec);
    assert_eq!(err.message, "三维 geom 需要 cartesian3d");
    assert_eq!(err.params, vec![("layer".to_string(), "1".to_string())]);

    let plot = PlotSpec::new(sample_table()).layer(LayerSpec::geom_point().mapping(Mapping::xy("x", "nope")));
    let err = validate_plot(&plot).unwrap_err();
    assert_eq!(err.code, DiagnosticCode::UnknownColumn);
    assert_eq!(err.message, "未知列 `nope`");

    let mut mapping = Mapping::default();
    mapping.y = Some(AestheticExpr::column("y"));
    let plot = PlotSpec::new(sample_table()).mapping(mapping).layer(LayerSpec::geom_bar());
    let err = validate_plot(&plot).unwrap_err();
    assert_eq!(err.message, "geom_bar 需要 x mapping");
    assert_eq!(
        err.params,
        vec![("layer".to_string(), "0".to_string()), ("aesthetic".to_string(), "x".to_string())]
    );
}

#[test]
fn validate_rejects_non_positive_log_domain() {
    let plot = PlotSpec::new(sample_table())
        .mapping(Mapping::xy("x", "y"))
        .scale(ScaleSpec::log10_x().with_domain(Interval::new(0.0f64.to_bits(), 10.0f64.to_bits())))
        .layer(LayerSpec::geom_point());
    let err = validate_plot(&plot).unwrap_err();
    assert_eq!(err.code, DiagnosticCode::ValidationFailed);
    assert_eq!(err.message, "log10 scale 的 domain 必须为正");
    assert_eq!(err.params, vec![("aesthetic".to_string(), "x".to_string())]);

    let neg = PlotSpec::new(sample_table())
        .mapping(Mapping::xy("x", "y"))
        .scale(ScaleSpec::log10_x().with_domain(Interval::new((-1.0f64).to_bits(), 10.0f64.to_bits())))
        .layer(LayerSpec::geom_point());
    assert!(validate_plot(&neg).is_err());

    let ok = PlotSpec::new(sample_table())
        .mapping(Mapping::xy("x", "y"))
        .scale(ScaleSpec::log10_x().with_domain(Interval::new(0.5f64.to_bits(), 10.0f64.to_bits())))
        .layer(LayerSpec::geom_point());
    assert!(validate_plot(&ok).is_ok());
}

#[test]
fn validate_text_needs_label_or_constant() {
    let plot = PlotSpec::new(sample_table()).mapping(Mapping::xy("x", "y")).layer(LayerSpec::geom_text());
    let err = validate_plot(&plot).unwrap_err();
    assert_eq!(err.code, DiagnosticCode::MissingMapping);
    assert_eq!(err.message, "geom_text 需要 label mapping 或常量 text");
    let mut layer = LayerSpec::geom_text();
    if let GeomSpec::Text(t) = &mut layer.geom {
        t.text = Some("hi".to_string());
    }
    let plot = PlotSpec::new(sample_table()).mapping(Mapping::xy("x", "y")).layer(layer);
    assert!(validate_plot(&plot).is_ok());
}

#[test]
fn validate_facets_and_coordinates() {
    let plot = PlotSpec::new(labelled_table())
        .mapping(Mapping::xy("x", "y"))
        .facets(FacetSpec::Wrap { column: "g".to_string(), ncol: Some(0) })
        .layer(LayerSpec::geom_point());
    assert_eq!(validate_plot(&plot).unwrap_err().message, "facet ncol 不能为 0");
    let plot = PlotSpec::new(labelled_table())
        .mapping(Mapping::xy("x", "y"))
        .facets(FacetSpec::wrap("x"))
        .layer(LayerSpec::geom_point());
    assert_eq!(validate_plot(&plot).unwrap_err().message, "列 `x` 不是字符串列");
    let plot = PlotSpec::new(sample_table()).coordinates(CoordinateSpec::graph_space()).layer(LayerSpec::geom_node());
    assert_eq!(validate_plot(&plot).unwrap_err().message, "graph-space 需要 GraphData");
    let plot = PlotSpec::new(sample_table())
        .mapping(Mapping::xy("x", "y"))
        .coordinates(CoordinateSpec::cartesian_3d())
        .layer(LayerSpec::geom_surface());
    assert_eq!(validate_plot(&plot).unwrap_err().message, "geom_surface 需要 GridData");
}

#[test]
fn validate_point_cloud_needs_z() {
    let table = ColumnTable::new()
        .push_float("x", bits(&[0.0]))
        .unwrap()
        .push_float("y", bits(&[0.0]))
        .unwrap()
        .push_float("z", bits(&[0.0]))
        .unwrap();
    let plot = PlotSpec::new(table)
        .mapping(Mapping::xy("x", "y"))
        .coordinates(CoordinateSpec::cartesian_3d())
        .layer(LayerSpec::geom_point3d());
    assert_eq!(validate_plot(&plot).unwrap_err().message, "geom_point3d 需要 z mapping");
}

#[test]
fn mapping_merge_prefers_overlay() {
    let base = Mapping::xy("x", "y");
    let mut overlay = Mapping::default();
    overlay.y = Some(AestheticExpr::column("y2"));
    let m = base.merge(&overlay);
    assert_eq!(m.x.as_ref().unwrap().column_name(), "x");
    assert_eq!(m.y.as_ref().unwrap().column_name(), "y2");
    assert!(m.z.is_none());
    let same = base.merge(&Mapping::default());
    assert_eq!(same.y.as_ref().unwrap().column_name(), "y");
}

#[test]
fn scale_replaces_same_aesthetic() {
    let plot = PlotSpec::new(sample_table()).scale(ScaleSpec::log10_y());
    assert_eq!(plot.scales.len(), 2);
    assert_eq!(plot.scales[1].kind, ScaleKind::Log10);
    let plot = plot.scale(ScaleSpec::continuous_x().with_domain(Interval::new(0, 1)));
    assert_eq!(plot.scales.len(), 2);
    let mut z = ScaleSpec::continuous_x();
    z.aesthetic = "z".to_string();
    let plot = plot.scale(z);
    assert_eq!(plot.scales.len(), 3);
}

#[test]
fn facet_wrap_ncol_is_at_least_one() {
    match FacetSpec::wrap_ncol("g", 0) {
        FacetSpec::Wrap { column, ncol } => {
            assert_eq!(column, "g");
            assert_eq!(ncol, Some(1));
        }
    }
}

#[test]
fn themes_differ_in_background() {
    let light = ThemeSpec::light();
    let dark = ThemeSpec::dark();
    assert_eq!(f32::from_bits(light.background.r), 1.0);
    assert_eq!(f32::from_bits(dark.background.r), 0.12);
    assert!(light.panel_fill.is_none());
    assert!(dark.panel_fill.is_some());
    assert_eq!(f64::from_bits(light.margin.0), 48.0);
}

#[test]
fn the_last_scale_for_an_aesthetic_governs() {
    let scales = vec![ScaleSpec::continuous_x(), ScaleSpec::log10_y(), ScaleSpec::log10_x()];
    assert_eq!(scale_for(&scales, "x"), Some(2));
    assert_eq!(scale_for(&scales, "y"), Some(1));
    assert_eq!(scale_for(&scales, "z"), None);
    assert_eq!(scale_for(&Vec::new(), "x"), None);
}
