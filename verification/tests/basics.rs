use apollo::assoc::{append_value, ensure_key, find_key};
use apollo::column::{Column, FloatColumn, StringColumn};
use apollo::graph::GraphNode;
use apollo::plot::{
    Camera3dSpec, CoordinateSpec, GeomSpec, GraphLayoutKind, ThemeSpec, TreeLayoutKind,
};
use apollo::raster::{RgbaImage, fill_disc, image_from_readback, padded_row_bytes};
use apollo::types::{
    Diagnostic, DiagnosticCode, Interval, Rgba, bits_finite, bits_le_zero, cat2, cat3, cat5, decimal_string,
    decimal_string_wide,
};
use apollo::plot::PlotSpec;
use apollo::table::ColumnTable;

#[test]
fn decimal_and_concatenation() {
    assert_eq!(decimal_string(0), "0");
    assert_eq!(decimal_string(907), "907");
    assert_eq!(decimal_string_wide(18_446_744_073_709_551_616), "18446744073709551616");
    assert_eq!(cat2("a", "bc"), "abc");
    assert_eq!(cat3("列 `", "x", "`"), "列 `x`");
    assert_eq!(cat5("a", "b", "c", "d", "e"), "abcde");
}

#[test]
fn float_bit_predicates() {
    assert!(bits_finite(1.5f64.to_bits()));
    assert!(!bits_finite(f64::INFINITY.to_bits()));
    assert!(!bits_finite(f64::NAN.to_bits()));
    assert!(bits_le_zero(0.0f64.to_bits()));
    assert!(bits_le_zero((-0.0f64).to_bits()));
    assert!(bits_le_zero((-2.0f64).to_bits()));
    assert!(!bits_le_zero(2.0f64.to_bits()));
    assert!(!bits_le_zero(f64::NAN.to_bits()));
    assert!(bits_le_zero(f64::NEG_INFINITY.to_bits()));
}

#[test]
fn diagnostics_keep_parameters_in_order() {
    let d = Diagnostic::error(DiagnosticCode::RenderFailed, "m".to_string())
        .with_param("a", "1".to_string())
        .with_param("b", "2".to_string());
    assert_eq!(d.code, DiagnosticCode::RenderFailed);
    assert_eq!(d.params, vec![("a".to_string(), "1".to_string()), ("b".to_string(), "2".to_string())]);
}

#[test]
fn colours_are_f32_bit_patterns() {
    assert_eq!(f32::from_bits(Rgba::white().r), 1.0);
    assert_eq!(f32::from_bits(Rgba::black().g), 0.0);
    assert_eq!(f32::from_bits(Rgba::black().a), 1.0);
}

#[test]
fn association_lists_group_values_by_key() {
    let mut list = Vec::new();
    let a = ensure_key(&mut list, "a");
    append_value(&mut list, a, "x".to_string());
    let b = ensure_key(&mut list, "b");
    let a2 = ensure_key(&mut list, "a");
    assert_eq!(a, a2);
    append_value(&mut list, a2, "y".to_string());
    assert_eq!(list.len(), 2);
    assert_eq!(find_key(&list, "a"), Some(a));
    assert_eq!(find_key(&list, "b"), Some(b));
    assert_eq!(find_key(&list, "c"), None);
    assert_eq!(list[a].1, vec!["x".to_string(), "y".to_string()]);
    assert!(list[b].1.is_empty());
}

#[test]
fn columns_report_their_kind() {
    let f = Column::Float(FloatColumn::new("x", vec![1, 2]));
    let s = Column::String(StringColumn::new("g", vec!["a".to_string()]));
    assert_eq!(f.as_float().unwrap().values, vec![1, 2]);
    assert_eq!(f.as_string().unwrap_err().message, "列 `x` 不是字符串列");
    assert_eq!(s.as_string().unwrap().values, vec!["a".to_string()]);
    assert_eq!(s.as_float().unwrap_err().message, "列 `g` 不是浮点列");
    assert_eq!(f.name(), "x");
    let table = ColumnTable::new().push_float("x", vec![1]).unwrap();
    assert_eq!(table.columns().len(), 1);
}

#[test]
fn labelled_graph_nodes() {
    let n = GraphNode::with_label("a", "Alpha");
    assert_eq!(n.id, "a");
    assert_eq!(n.label.as_deref(), Some("Alpha"));
}

#[test]
fn coordinate_constructors_and_accessors() {
    let c = CoordinateSpec::cartesian_limits(Some(Interval::new(0, 1)), None);
    assert!(!c.as_cartesian2d().unwrap().flip);
    assert!(c.as_cartesian2d().unwrap().xlim.is_some());
    assert!(c.as_cartesian3d().is_none());
    assert!(CoordinateSpec::cartesian_flip().as_cartesian2d().unwrap().flip);
    let cam = Camera3dSpec::perspective_default();
    match cam {
        Camera3dSpec::Perspective { eye, fovy_degrees, .. } => {
            assert_eq!(f64::from_bits(eye.x), 2.5);
            assert_eq!(f64::from_bits(eye.y), 2.0);
            assert_eq!(f64::from_bits(fovy_degrees), 45.0);
        }
        _ => panic!("perspective camera expected"),
    }
    assert!(CoordinateSpec::cartesian_3d_camera(cam).as_cartesian3d().is_some());
    let g = CoordinateSpec::graph_space_with(GraphLayoutKind::Layered);
    assert_eq!(g.as_graph_space().unwrap().algorithm, GraphLayoutKind::Layered);
    assert!(g.as_tree_space().is_none());
    let t = CoordinateSpec::tree_space_with(TreeLayoutKind::Radial);
    assert_eq!(t.as_tree_space().unwrap().algorithm, TreeLayoutKind::Radial);
    assert!(CoordinateSpec::tree_space().as_tree_space().is_some());
}

#[test]
fn geometry_defaults() {
    assert!(matches!(GeomSpec::line(), GeomSpec::Line(l) if f32::from_bits(l.linewidth) == 1.0));
    assert!(matches!(GeomSpec::surface(), GeomSpec::Surface(_)));
    assert!(matches!(GeomSpec::point3d(), GeomSpec::Point3d(_)));
    assert!(matches!(GeomSpec::tree_node(), GeomSpec::TreeNode(_)));
    assert!(matches!(GeomSpec::tree_edge(), GeomSpec::TreeEdge(_)));
    let plot = PlotSpec::new(ColumnTable::new().push_float("x", vec![1]).unwrap()).theme(ThemeSpec::dark());
    assert_eq!(plot.theme.background, ThemeSpec::dark().background);
}

#[test]
fn disc_paints_pixels_within_the_radius() {
    let mut img = RgbaImage::filled(7, 7, [255, 255, 255, 255]);
    fill_disc(&mut img, 3, 3, 1, [0, 0, 0, 255]);
    assert_eq!(img.non_white_count(), 5);
    fill_disc(&mut img, 3, 3, 2, [0, 0, 0, 255]);
    assert_eq!(img.non_white_count(), 13);
    fill_disc(&mut img, 0, 0, -1, [9, 9, 9, 255]);
    assert_eq!(img.get(0, 0), Some([255, 255, 255, 255]));
}

#[test]
fn readback_rows_are_unpadded_and_flipped() {
    assert_eq!(padded_row_bytes(3, 256), 256);
    assert_eq!(padded_row_bytes(64, 256), 256);
    assert_eq!(padded_row_bytes(65, 256), 512);
    // Two rows of one pixel with a stride of 8 bytes; the last row comes first in the image.
    let data = [1, 2, 3, 4, 0, 0, 0, 0, 5, 6, 7, 8, 0, 0, 0, 0];
    let img = image_from_readback(&data, 1, 2, 8);
    assert_eq!(img.get(0, 0), Some([5, 6, 7, 8]));
    assert_eq!(img.get(0, 1), Some([1, 2, 3, 4]));
}

#[test]
fn columns_convert_from_either_kind() {
    let f: Column = FloatColumn::new("x", vec![7]).into();
    assert_eq!(f.name(), "x");
    assert_eq!(f.as_float().unwrap().values, vec![7]);
    let s = Column::from(StringColumn::new("g", vec!["a".to_string(), "b".to_string()]));
    assert_eq!(s.len(), 2);
    assert!(s.as_float().is_err());
}
