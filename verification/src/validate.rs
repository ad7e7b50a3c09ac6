//! Checking a plot specification before it is compiled.
use vstd::prelude::*;
use crate::column::ColumnView;
use crate::graph::{graph_error, graph_valid};
use crate::grid::{grid_error, grid_valid};
use crate::mapping::{Mapping, MappingView, merged};
use crate::plot::{DataRef, FacetSpec, GeomSpec, GeomText, LayerSpec, PlotSpec, ScaleKind, ScaleSpec};
use crate::table::{ColumnTable, float_named, float_named_error, text_named, text_named_error};
use crate::tree::{tree_error, tree_valid};
use crate::types::{Diagnostic, DiagnosticCode, bits_le_zero, cat2, decimal, decimal_string, f64_le_zero, str_eq};

verus! {

broadcast use vstd::string::to_string_from_display_ensures_for_str;

/// The `layer` parameter naming layer `i`.
pub open spec fn layer_param(i: int) -> (Seq<char>, Seq<char>) {
    ("layer"@, decimal(i as nat))
}

/// The name a geometry goes by in messages.
pub open spec fn geom_label(g: GeomSpec) -> Seq<char> {
    match g {
        GeomSpec::Line(_) => "geom_line"@,
        GeomSpec::Point(_) => "geom_point"@,
        GeomSpec::Bar(_) => "geom_bar"@,
        GeomSpec::Text(_) => "geom_text"@,
        GeomSpec::Surface(_) => "geom_surface"@,
        GeomSpec::Point3d(_) => "geom_point3d"@,
        GeomSpec::Node(_) => "geom_node"@,
        GeomSpec::Edge(_) => "geom_edge"@,
        GeomSpec::TreeNode(_) => "geom_tree_node"@,
        GeomSpec::TreeEdge(_) => "geom_tree_edge"@,
    }
}

/// The mapping a layer sees: its own channels over the plot's.
pub open spec fn layer_mapping(p: PlotSpec, i: int) -> MappingView {
    merged(p.mapping@, p.layers@[i].mapping@)
}

/// x and y are mapped to numeric columns.
pub open spec fn xy_ok(cols: Seq<ColumnView>, m: MappingView) -> bool {
    &&& m.0 is Some
    &&& m.1 is Some
    &&& float_named(cols, m.0->0)
    &&& float_named(cols, m.1->0)
}

/// The diagnostic for x/y mappings that are missing or not numeric.
pub open spec fn xy_error(cols: Seq<ColumnView>, m: MappingView, i: int, geom: Seq<char>, d: Diagnostic) -> bool {
    if m.0 is None {
        d.matches(DiagnosticCode::MissingMapping, geom + " 需要 x mapping"@, seq![layer_param(i), ("aesthetic"@, "x"@)])
    } else if m.1 is None {
        d.matches(DiagnosticCode::MissingMapping, geom + " 需要 y mapping"@, seq![layer_param(i), ("aesthetic"@, "y"@)])
    } else if !float_named(cols, m.0->0) {
        float_named_error(cols, m.0->0, d)
    } else {
        float_named_error(cols, m.1->0, d)
    }
}

/// x, y and z are mapped to numeric columns.
pub open spec fn xyz_ok(cols: Seq<ColumnView>, m: MappingView) -> bool {
    xy_ok(cols, m) && m.2 is Some && float_named(cols, m.2->0)
}

/// The diagnostic for x/y/z mappings that are missing or not numeric.
pub open spec fn xyz_error(cols: Seq<ColumnView>, m: MappingView, i: int, d: Diagnostic) -> bool {
    if !xy_ok(cols, m) {
        xy_error(cols, m, i, "geom_point3d"@, d)
    } else if m.2 is None {
        d.matches(
            DiagnosticCode::MissingMapping,
            "geom_point3d 需要 z mapping"@,
            seq![layer_param(i), ("aesthetic"@, "z"@)],
        )
    } else {
        float_named_error(cols, m.2->0, d)
    }
}

/// A text layer has numeric x and y and either a text label column or constant text.
pub open spec fn text_ok(cols: Seq<ColumnView>, m: MappingView, t: GeomText) -> bool {
    &&& xy_ok(cols, m)
    &&& match m.9 {
        Some(label) => text_named(cols, label),
        None => t.text is Some,
    }
}

/// The diagnostic for a text layer that `text_ok` refuses.
pub open spec fn text_error(cols: Seq<ColumnView>, m: MappingView, t: GeomText, i: int, d: Diagnostic) -> bool {
    if !xy_ok(cols, m) {
        xy_error(cols, m, i, "geom_text"@, d)
    } else {
        match m.9 {
            Some(label) => text_named_error(cols, label, d),
            None => d.matches(
                DiagnosticCode::MissingMapping,
                "geom_text 需要 label mapping 或常量 text"@,
                seq![layer_param(i), ("aesthetic"@, "label"@)],
            ),
        }
    }
}

/// Some scale is a log10 scale for y.
pub open spec fn has_log_y(scales: Seq<ScaleSpec>) -> bool {
    exists|k: int| 0 <= k < scales.len() && #[trigger] scales[k].aesthetic@ == "y"@ && scales[k].kind == ScaleKind::Log10
}

/// A log10 scale with an explicit domain that is not positive.
pub open spec fn scale_bad(s: ScaleSpec) -> bool {
    s.domain matches Some(dm) && s.kind == ScaleKind::Log10 && (f64_le_zero(dm.min) || f64_le_zero(dm.max))
}

/// The facet column is a text column and the column count is not zero.
pub open spec fn facets_ok(cols: Seq<ColumnView>, f: Option<FacetSpec>) -> bool {
    match f {
        None => true,
        Some(FacetSpec::Wrap { column, ncol }) => text_named(cols, column@) && ncol != Some(0usize),
    }
}

/// The diagnostic for facets that `facets_ok` refuses.
pub open spec fn facets_error(cols: Seq<ColumnView>, f: Option<FacetSpec>, d: Diagnostic) -> bool {
    match f {
        None => false,
        Some(FacetSpec::Wrap { column, ncol }) => if !text_named(cols, column@) {
            text_named_error(cols, column@, d)
        } else {
            d.matches(DiagnosticCode::ValidationFailed, "facet ncol 不能为 0"@, seq![])
        },
    }
}

/// What layer `i` needs in two-dimensional Cartesian coordinates over a table with columns `cols`.
pub open spec fn layer_2d_ok(cols: Seq<ColumnView>, p: PlotSpec, i: int) -> bool {
    let l = p.layers@[i];
    let m = layer_mapping(p, i);
    match l.geom {
        GeomSpec::Line(_) | GeomSpec::Point(_) => xy_ok(cols, m),
        GeomSpec::Bar(_) => xy_ok(cols, m) && !has_log_y(p.scales@),
        GeomSpec::Text(t) => text_ok(cols, m, t),
        _ => false,
    }
}

/// The diagnostic for a layer that `layer_2d_ok` refuses.
pub open spec fn layer_2d_error(cols: Seq<ColumnView>, p: PlotSpec, i: int, d: Diagnostic) -> bool {
    let l = p.layers@[i];
    let m = layer_mapping(p, i);
    match l.geom {
        GeomSpec::Line(_) | GeomSpec::Point(_) => xy_error(cols, m, i, geom_label(l.geom), d),
        GeomSpec::Bar(_) => if !xy_ok(cols, m) {
            xy_error(cols, m, i, "geom_bar"@, d)
        } else {
            d.matches(DiagnosticCode::UnsupportedSpec, "geom_bar 暂不支持 log10 y scale"@, seq![layer_param(i)])
        },
        GeomSpec::Text(t) => text_error(cols, m, t, i, d),
        GeomSpec::Surface(_) | GeomSpec::Point3d(_) => d.matches(
            DiagnosticCode::UnsupportedSpec,
            "三维 geom 需要 cartesian3d"@,
            seq![layer_param(i)],
        ),
        _ => d.matches(DiagnosticCode::UnsupportedSpec, "图/树 geom 需要对应坐标系"@, seq![layer_param(i)]),
    }
}

/// What layer `i` needs in three-dimensional Cartesian coordinates.
pub open spec fn layer_3d_ok(p: PlotSpec, i: int) -> bool {
    match p.layers@[i].geom {
        GeomSpec::Surface(_) => p.data matches DataRef::Grid(g) && grid_valid(g.x@, g.y@, g.z@),
        GeomSpec::Point3d(_) => p.data matches DataRef::Table(t) && t@.len() > 0 && xyz_ok(t@, layer_mapping(p, i)),
        _ => false,
    }
}

/// The diagnostic for a layer that `layer_3d_ok` refuses.
pub open spec fn layer_3d_error(p: PlotSpec, i: int, d: Diagnostic) -> bool {
    match p.layers@[i].geom {
        GeomSpec::Surface(_) => match p.data {
            DataRef::Grid(g) => grid_error(g.x@, g.y@, g.z@, d),
            _ => d.matches(DiagnosticCode::UnsupportedSpec, "geom_surface 需要 GridData"@, seq![layer_param(i)]),
        },
        GeomSpec::Point3d(_) => match p.data {
            DataRef::Table(t) => if t@.len() == 0 {
                d.matches(DiagnosticCode::EmptyData, "表没有任何列"@, seq![])
            } else {
                xyz_error(t@, layer_mapping(p, i), i, d)
            },
            _ => d.matches(DiagnosticCode::UnsupportedSpec, "geom_point3d 需要 ColumnTable"@, seq![layer_param(i)]),
        },
        _ => d.matches(DiagnosticCode::UnsupportedSpec, "三维坐标系仅支持 surface / point3d"@, seq![layer_param(i)]),
    }
}

/// Layer `i` passes the checks of the plot's coordinate system.
pub open spec fn layer_ok(p: PlotSpec, i: int) -> bool {
    &&& p.layers@[i].data is None
    &&& match p.coordinates {
        crate::plot::CoordinateSpec::Cartesian2d(_) => p.data matches DataRef::Table(t) && layer_2d_ok(t@, p, i),
        crate::plot::CoordinateSpec::Cartesian3d(_) => layer_3d_ok(p, i),
        crate::plot::CoordinateSpec::GraphSpace(_) => p.layers@[i].geom is Node || p.layers@[i].geom is Edge,
        crate::plot::CoordinateSpec::TreeSpace(_) => p.layers@[i].geom is TreeNode || p.layers@[i].geom is TreeEdge,
    }
}

/// The diagnostic for a layer that `layer_ok` refuses.
pub open spec fn layer_error(p: PlotSpec, i: int, d: Diagnostic) -> bool {
    if p.layers@[i].data is Some {
        d.matches(DiagnosticCode::UnsupportedSpec, "尚未支持层级覆盖数据"@, seq![layer_param(i)])
    } else {
        match p.coordinates {
            crate::plot::CoordinateSpec::Cartesian2d(_) => p.data matches DataRef::Table(t) && layer_2d_error(
                t@,
                p,
                i,
                d,
            ),
            crate::plot::CoordinateSpec::Cartesian3d(_) => layer_3d_error(p, i, d),
            crate::plot::CoordinateSpec::GraphSpace(_) => d.matches(
                DiagnosticCode::UnsupportedSpec,
                "graph-space 仅支持 geom_node / geom_edge"@,
                seq![layer_param(i)],
            ),
            crate::plot::CoordinateSpec::TreeSpace(_) => d.matches(
                DiagnosticCode::UnsupportedSpec,
                "tree-space 仅支持 geom_tree_node / geom_tree_edge"@,
                seq![layer_param(i)],
            ),
        }
    }
}

/// `i` is the first layer that `layer_ok` refuses.
pub open spec fn first_bad_layer(p: PlotSpec, i: int) -> bool {
    &&& 0 <= i < p.layers@.len()
    &&& !layer_ok(p, i)
    &&& forall|k: int| 0 <= k < i ==> #[trigger] layer_ok(p, k)
}

/// Every layer passes.
pub open spec fn layers_ok(p: PlotSpec) -> bool {
    forall|i: int| 0 <= i < p.layers@.len() ==> #[trigger] layer_ok(p, i)
}

/// `k` is the first scale that `scale_bad` finds.
pub open spec fn first_bad_scale(scales: Seq<ScaleSpec>, k: int) -> bool {
    &&& 0 <= k < scales.len()
    &&& scale_bad(scales[k])
    &&& forall|q: int| 0 <= q < k ==> !#[trigger] scale_bad(scales[q])
}

/// The plot-wide checks of the coordinate system, made before the layers.
pub open spec fn stage_ok(p: PlotSpec) -> bool {
    match p.coordinates {
        crate::plot::CoordinateSpec::Cartesian2d(_) => match p.data {
            DataRef::Table(t) => t@.len() > 0 && (forall|k: int| 0 <= k < p.scales@.len() ==> !#[trigger] scale_bad(
                p.scales@[k],
            )) && facets_ok(t@, p.facets),
            _ => false,
        },
        crate::plot::CoordinateSpec::Cartesian3d(_) => p.facets is None,
        crate::plot::CoordinateSpec::GraphSpace(_) => p.data matches DataRef::Graph(g) && graph_valid(g.ids(), g.pairs())
            && p.facets is None,
        crate::plot::CoordinateSpec::TreeSpace(_) => p.data matches DataRef::Tree(t) && tree_valid(
            t.root@,
            t.ids(),
            t.parents(),
        ) && p.facets is None,
    }
}

/// The diagnostic for plot-wide checks that `stage_ok` refuses.
pub open spec fn stage_error(p: PlotSpec, d: Diagnostic) -> bool {
    match p.coordinates {
        crate::plot::CoordinateSpec::Cartesian2d(_) => match p.data {
            DataRef::Table(t) => if t@.len() == 0 {
                d.matches(DiagnosticCode::EmptyData, "表没有任何列"@, seq![])
            } else if exists|k: int| first_bad_scale(p.scales@, k) {
                exists|k: int| #[trigger]
                    first_bad_scale(p.scales@, k) && d.matches(
                        DiagnosticCode::ValidationFailed,
                        "log10 scale 的 domain 必须为正"@,
                        seq![("aesthetic"@, p.scales@[k].aesthetic@)],
                    )
            } else {
                facets_error(t@, p.facets, d)
            },
            _ => d.matches(DiagnosticCode::UnsupportedSpec, "二维图需要 ColumnTable"@, seq![]),
        },
        crate::plot::CoordinateSpec::Cartesian3d(_) => d.matches(DiagnosticCode::UnsupportedSpec, "三维图暂不支持分面"@, seq![]),
        crate::plot::CoordinateSpec::GraphSpace(_) => match p.data {
            DataRef::Graph(g) => if !graph_valid(g.ids(), g.pairs()) {
                graph_error(g.ids(), g.pairs(), d)
            } else {
                d.matches(DiagnosticCode::UnsupportedSpec, "图布局暂不支持分面"@, seq![])
            },
            _ => d.matches(DiagnosticCode::UnsupportedSpec, "graph-space 需要 GraphData"@, seq![]),
        },
        crate::plot::CoordinateSpec::TreeSpace(_) => match p.data {
            DataRef::Tree(t) => if !tree_valid(t.root@, t.ids(), t.parents()) {
                tree_error(t.root@, t.ids(), t.parents(), d)
            } else {
                d.matches(DiagnosticCode::UnsupportedSpec, "树布局暂不支持分面"@, seq![])
            },
            _ => d.matches(DiagnosticCode::UnsupportedSpec, "tree-space 需要 TreeData"@, seq![]),
        },
    }
}

/// A plot that can go on to compilation: some layer, the plot-wide checks of
/// its coordinate system, and every layer's checks.
pub open spec fn plot_ok(p: PlotSpec) -> bool {
    p.layers@.len() > 0 && stage_ok(p) && layers_ok(p)
}

/// The diagnostic `validate_plot` gives for a plot that `plot_ok` refuses:
/// the first check that fails, in the order above.
pub open spec fn plot_error(p: PlotSpec, d: Diagnostic) -> bool {
    if p.layers@.len() == 0 {
        d.matches(DiagnosticCode::InvalidLayer, "至少需要一个图层"@, seq![])
    } else if !stage_ok(p) {
        stage_error(p, d)
    } else {
        exists|i: int| #[trigger] first_bad_layer(p, i) && layer_error(p, i, d)
    }
}

/// Checks a plot specification before compilation.
pub fn validate_plot(spec: &PlotSpec) -> (r: Result<(), Diagnostic>)
    ensures
        r is Ok <==> plot_ok(*spec),
        r matches Err(d) ==> plot_error(*spec, d),
{
    if spec.layers.len() == 0 {
        return Err(Diagnostic::error(DiagnosticCode::InvalidLayer, "至少需要一个图层".to_string()));
    }
    let r = match &spec.coordinates {
        crate::plot::CoordinateSpec::Cartesian2d(_) => validate_2d(spec),
        crate::plot::CoordinateSpec::Cartesian3d(_) => validate_3d(spec),
        crate::plot::CoordinateSpec::GraphSpace(_) => validate_graph(spec),
        crate::plot::CoordinateSpec::TreeSpace(_) => validate_tree(spec),
    };
    r
}

/// What each stage check promises.
pub open spec fn stage_result(p: PlotSpec, r: Result<(), Diagnostic>) -> bool {
    &&& r is Ok <==> stage_ok(p) && layers_ok(p)
    &&& r matches Err(d) ==> if !stage_ok(p) {
        stage_error(p, d)
    } else {
        exists|i: int| #[trigger] first_bad_layer(p, i) && layer_error(p, i, d)
    }
}

/// Walks the layers in order and reports the first one that fails.
fn check_layers(spec: &PlotSpec) -> (r: Result<(), Diagnostic>)
    requires
        stage_ok(*spec),
    ensures
        stage_result(*spec, r),
{
    let mut i: usize = 0;
    while i < spec.layers.len()
        invariant
            i <= spec.layers@.len(),
            stage_ok(*spec),
            forall|k: int| 0 <= k < i ==> #[trigger] layer_ok(*spec, k),
        decreases spec.layers@.len() - i,
    {
        match check_layer(spec, i) {
            Some(d) => {
                assert(first_bad_layer(*spec, i as int));
                return Err(d);
            },
            None => {},
        }
        i = i + 1;
    }
    Ok(())
}

/// The index of a layer, in decimal.
fn index_text(i: usize) -> (s: String)
    ensures
        s@ == decimal(i as nat),
{
    decimal_string(i)
}

/// Checks layer `i` against the coordinate system; `None` when it passes.
fn check_layer(spec: &PlotSpec, i: usize) -> (r: Option<Diagnostic>)
    requires
        i < spec.layers@.len(),
        stage_ok(*spec),
    ensures
        r is None <==> layer_ok(*spec, i as int),
        r matches Some(d) ==> layer_error(*spec, i as int, d),
{
    let layer = &spec.layers[i];
    if layer.data.is_some() {
        return Some(Diagnostic::error(DiagnosticCode::UnsupportedSpec, "尚未支持层级覆盖数据".to_string())
            .with_param("layer", index_text(i)));
    }
    match &spec.coordinates {
        crate::plot::CoordinateSpec::Cartesian2d(_) => match &spec.data {
            DataRef::Table(table) => check_layer_2d(spec, table, i),
            _ => {
                assert(false);
                None
            },
        },
        crate::plot::CoordinateSpec::Cartesian3d(_) => check_layer_3d(spec, i),
        crate::plot::CoordinateSpec::GraphSpace(_) => match &layer.geom {
            GeomSpec::Node(_) | GeomSpec::Edge(_) => None,
            _ => Some(Diagnostic::error(
                DiagnosticCode::UnsupportedSpec,
                "graph-space 仅支持 geom_node / geom_edge".to_string(),
            ).with_param("layer", index_text(i))),
        },
        crate::plot::CoordinateSpec::TreeSpace(_) => match &layer.geom {
            GeomSpec::TreeNode(_) | GeomSpec::TreeEdge(_) => None,
            _ => Some(Diagnostic::error(
                DiagnosticCode::UnsupportedSpec,
                "tree-space 仅支持 geom_tree_node / geom_tree_edge".to_string(),
            ).with_param("layer", index_text(i))),
        },
    }
}

/// The name a geometry goes by in messages.
fn layer_name(geom: &GeomSpec) -> (s: &'static str)
    ensures
        s@ == geom_label(*geom),
{
    match geom {
        GeomSpec::Line(_) => "geom_line",
        GeomSpec::Point(_) => "geom_point",
        GeomSpec::Bar(_) => "geom_bar",
        GeomSpec::Text(_) => "geom_text",
        GeomSpec::Surface(_) => "geom_surface",
        GeomSpec::Point3d(_) => "geom_point3d",
        GeomSpec::Node(_) => "geom_node",
        GeomSpec::Edge(_) => "geom_edge",
        GeomSpec::TreeNode(_) => "geom_tree_node",
        GeomSpec::TreeEdge(_) => "geom_tree_edge",
    }
}

/// Whether some scale is a log10 scale for y.
fn any_log_y(scales: &Vec<ScaleSpec>) -> (b: bool)
    ensures
        b == has_log_y(scales@),
{
    let mut k: usize = 0;
    while k < scales.len()
        invariant
            k <= scales@.len(),
            forall|q: int| 0 <= q < k ==> !(#[trigger] scales@[q].aesthetic@ == "y"@ && scales@[q].kind == ScaleKind::Log10),
        decreases scales@.len() - k,
    {
        if str_eq(scales[k].aesthetic.as_str(), "y") && scales[k].kind == ScaleKind::Log10 {
            return true;
        }
        k = k + 1;
    }
    false
}

fn check_layer_2d(spec: &PlotSpec, table: &ColumnTable, i: usize) -> (r: Option<Diagnostic>)
    requires
        i < spec.layers@.len(),
        spec.data == DataRef::Table(*table),
    ensures
        r is None <==> layer_2d_ok(table@, *spec, i as int),
        r matches Some(d) ==> layer_2d_error(table@, *spec, i as int, d),
{
    let layer = &spec.layers[i];
    let r = match &layer.geom {
        GeomSpec::Line(_) | GeomSpec::Point(_) | GeomSpec::Bar(_) => validate_xy_layer(
            table,
            &spec.mapping,
            &layer.mapping,
            i,
            layer_name(&layer.geom),
        ),
        GeomSpec::Text(text) => validate_text_layer(table, &spec.mapping, &layer.mapping, text, i),
        GeomSpec::Surface(_) | GeomSpec::Point3d(_) => {
            return Some(Diagnostic::error(DiagnosticCode::UnsupportedSpec, "三维 geom 需要 cartesian3d".to_string())
                .with_param("layer", index_text(i)));
        },
        _ => {
            return Some(Diagnostic::error(DiagnosticCode::UnsupportedSpec, "图/树 geom 需要对应坐标系".to_string())
                .with_param("layer", index_text(i)));
        },
    };
    match r {
        Err(d) => Some(d),
        Ok(()) => {
            let is_bar = match &layer.geom {
                GeomSpec::Bar(_) => true,
                _ => false,
            };
            if is_bar && any_log_y(&spec.scales) {
                Some(Diagnostic::error(DiagnosticCode::UnsupportedSpec, "geom_bar 暂不支持 log10 y scale".to_string())
                    .with_param("layer", index_text(i)))
            } else {
                None
            }
        },
    }
}

fn check_layer_3d(spec: &PlotSpec, i: usize) -> (r: Option<Diagnostic>)
    requires
        i < spec.layers@.len(),
    ensures
        r is None <==> layer_3d_ok(*spec, i as int),
        r matches Some(d) ==> layer_3d_error(*spec, i as int, d),
{
    let layer = &spec.layers[i];
    match &layer.geom {
        GeomSpec::Surface(_) => match &spec.data {
            DataRef::Grid(grid) => match grid.validate() {
                Ok(()) => None,
                Err(d) => Some(d),
            },
            _ => Some(Diagnostic::error(DiagnosticCode::UnsupportedSpec, "geom_surface 需要 GridData".to_string())
                .with_param("layer", index_text(i))),
        },
        GeomSpec::Point3d(_) => match &spec.data {
            DataRef::Table(table) => match table.validate() {
                Err(d) => Some(d),
                Ok(()) => match validate_xyz_layer(table, &spec.mapping, &layer.mapping, i) {
                    Ok(()) => None,
                    Err(d) => Some(d),
                },
            },
            _ => Some(Diagnostic::error(DiagnosticCode::UnsupportedSpec, "geom_point3d 需要 ColumnTable".to_string())
                .with_param("layer", index_text(i))),
        },
        _ => Some(Diagnostic::error(DiagnosticCode::UnsupportedSpec, "三维坐标系仅支持 surface / point3d".to_string())
            .with_param("layer", index_text(i))),
    }
}

fn validate_2d(spec: &PlotSpec) -> (r: Result<(), Diagnostic>)
    requires
        spec.coordinates is Cartesian2d,
    ensures
        stage_result(*spec, r),
{
    let table = match &spec.data {
        DataRef::Table(table) => table,
        _ => {
            return Err(Diagnostic::error(DiagnosticCode::UnsupportedSpec, "二维图需要 ColumnTable".to_string()));
        },
    };
    match table.validate() {
        Err(d) => {
            return Err(d);
        },
        Ok(()) => {},
    }
    let mut k: usize = 0;
    while k < spec.scales.len()
        invariant
            k <= spec.scales@.len(),
            spec.coordinates is Cartesian2d,
            spec.data == DataRef::Table(*table),
            table@.len() > 0,
            forall|q: int| 0 <= q < k ==> !#[trigger] scale_bad(spec.scales@[q]),
        decreases spec.scales@.len() - k,
    {
        let scale = &spec.scales[k];
        match scale.domain {
            Some(domain) => {
                if scale.kind == ScaleKind::Log10 && (bits_le_zero(domain.min) || bits_le_zero(domain.max)) {
                    assert(first_bad_scale(spec.scales@, k as int));
                    return Err(Diagnostic::error(DiagnosticCode::ValidationFailed, "log10 scale 的 domain 必须为正".to_string())
                        .with_param("aesthetic", scale.aesthetic.clone()));
                }
            },
            None => {},
        }
        k = k + 1;
    }
    proof {
        if exists|k: int| first_bad_scale(spec.scales@, k) {
            let k = choose|k: int| first_bad_scale(spec.scales@, k);
            assert(!scale_bad(spec.scales@[k]));
        }
    }
    match &spec.facets {
        Some(facets) => match validate_facets(table, facets) {
            Err(d) => {
                return Err(d);
            },
            Ok(()) => {},
        },
        None => {},
    }
    check_layers(spec)
}

fn validate_3d(spec: &PlotSpec) -> (r: Result<(), Diagnostic>)
    requires
        spec.coordinates is Cartesian3d,
    ensures
        stage_result(*spec, r),
{
    if spec.facets.is_some() {
        return Err(Diagnostic::error(DiagnosticCode::UnsupportedSpec, "三维图暂不支持分面".to_string()));
    }
    check_layers(spec)
}

fn validate_graph(spec: &PlotSpec) -> (r: Result<(), Diagnostic>)
    requires
        spec.coordinates is GraphSpace,
    ensures
        stage_result(*spec, r),
{
    let graph = match &spec.data {
        DataRef::Graph(graph) => graph,
        _ => {
            return Err(Diagnostic::error(DiagnosticCode::UnsupportedSpec, "graph-space 需要 GraphData".to_string()));
        },
    };
    match graph.validate() {
        Err(d) => {
            return Err(d);
        },
        Ok(()) => {},
    }
    if spec.facets.is_some() {
        return Err(Diagnostic::error(DiagnosticCode::UnsupportedSpec, "图布局暂不支持分面".to_string()));
    }
    check_layers(spec)
}

fn validate_tree(spec: &PlotSpec) -> (r: Result<(), Diagnostic>)
    requires
        spec.coordinates is TreeSpace,
    ensures
        stage_result(*spec, r),
{
    let tree = match &spec.data {
        DataRef::Tree(tree) => tree,
        _ => {
            return Err(Diagnostic::error(DiagnosticCode::UnsupportedSpec, "tree-space 需要 TreeData".to_string()));
        },
    };
    match tree.validate() {
        Err(d) => {
            return Err(d);
        },
        Ok(()) => {},
    }
    if spec.facets.is_some() {
        return Err(Diagnostic::error(DiagnosticCode::UnsupportedSpec, "树布局暂不支持分面".to_string()));
    }
    check_layers(spec)
}

fn validate_facets(table: &ColumnTable, facets: &FacetSpec) -> (r: Result<(), Diagnostic>)
    ensures
        r is Ok <==> facets_ok(table@, Some(*facets)),
        r matches Err(d) ==> facets_error(table@, Some(*facets), d),
{
    match facets {
        FacetSpec::Wrap { column, ncol } => {
            match table.string_column(column.as_str()) {
                Err(d) => {
                    return Err(d);
                },
                Ok(_) => {},
            }
            match ncol {
                Some(n) => {
                    if *n == 0 {
                        return Err(Diagnostic::error(DiagnosticCode::ValidationFailed, "facet ncol 不能为 0".to_string()));
                    }
                },
                None => {},
            }
            Ok(())
        },
    }
}

fn validate_xy_layer(
    table: &ColumnTable,
    plot_mapping: &Mapping,
    layer_mapping: &Mapping,
    layer_index: usize,
    geom_name: &str,
) -> (r: Result<(), Diagnostic>)
    ensures
        r is Ok <==> xy_ok(table@, merged(plot_mapping@, layer_mapping@)),
        r matches Err(d) ==> xy_error(table@, merged(plot_mapping@, layer_mapping@), layer_index as int, geom_name@, d),
{
    let mapping = plot_mapping.merge(layer_mapping);
    let x = match &mapping.x {
        Some(x) => x,
        None => {
            return Err(Diagnostic::error(DiagnosticCode::MissingMapping, cat2(geom_name, " 需要 x mapping"))
                .with_param("layer", index_text(layer_index))
                .with_param("aesthetic", "x".to_string()));
        },
    };
    let y = match &mapping.y {
        Some(y) => y,
        None => {
            return Err(Diagnostic::error(DiagnosticCode::MissingMapping, cat2(geom_name, " 需要 y mapping"))
                .with_param("layer", index_text(layer_index))
                .with_param("aesthetic", "y".to_string()));
        },
    };
    match table.float_column(x.column_name()) {
        Err(d) => {
            return Err(d);
        },
        Ok(_) => {},
    }
    match table.float_column(y.column_name()) {
        Err(d) => Err(d),
        Ok(_) => Ok(()),
    }
}

fn validate_xyz_layer(table: &ColumnTable, plot_mapping: &Mapping, layer_mapping: &Mapping, layer_index: usize) -> (r:
    Result<(), Diagnostic>)
    ensures
        r is Ok <==> xyz_ok(table@, merged(plot_mapping@, layer_mapping@)),
        r matches Err(d) ==> xyz_error(table@, merged(plot_mapping@, layer_mapping@), layer_index as int, d),
{
    match validate_xy_layer(table, plot_mapping, layer_mapping, layer_index, "geom_point3d") {
        Err(d) => {
            return Err(d);
        },
        Ok(()) => {},
    }
    let mapping = plot_mapping.merge(layer_mapping);
    let z = match &mapping.z {
        Some(z) => z,
        None => {
            return Err(Diagnostic::error(DiagnosticCode::MissingMapping, "geom_point3d 需要 z mapping".to_string())
                .with_param("layer", index_text(layer_index))
                .with_param("aesthetic", "z".to_string()));
        },
    };
    match table.float_column(z.column_name()) {
        Err(d) => Err(d),
        Ok(_) => Ok(()),
    }
}

fn validate_text_layer(
    table: &ColumnTable,
    plot_mapping: &Mapping,
    layer_mapping: &Mapping,
    text: &GeomText,
    layer_index: usize,
) -> (r: Result<(), Diagnostic>)
    ensures
        r is Ok <==> text_ok(table@, merged(plot_mapping@, layer_mapping@), *text),
        r matches Err(d) ==> text_error(table@, merged(plot_mapping@, layer_mapping@), *text, layer_index as int, d),
{
    match validate_xy_layer(table, plot_mapping, layer_mapping, layer_index, "geom_text") {
        Err(d) => {
            return Err(d);
        },
        Ok(()) => {},
    }
    let mapping = plot_mapping.merge(layer_mapping);
    match &mapping.label {
        Some(label) => match table.string_column(label.column_name()) {
            Err(d) => Err(d),
            Ok(_) => Ok(()),
        },
        None => match &text.text {
            Some(_) => Ok(()),
            None => Err(Diagnostic::error(
                DiagnosticCode::MissingMapping,
                "geom_text 需要 label mapping 或常量 text".to_string(),
            ).with_param("layer", index_text(layer_index)).with_param("aesthetic", "label".to_string())),
        },
    }
}

/// In two-dimensional Cartesian coordinates the scales never decide a line or
/// point layer: such a layer (with no data of its own) whose x and y map to
/// numeric columns is accepted, and two plots that differ only in their
/// scales accept or refuse it alike. A log10 y scale refuses bar layers.
pub proof fn log_y_refuses_bars_only(p: PlotSpec, q: PlotSpec, i: int)
    requires
        0 <= i < p.layers@.len(),
        p.coordinates is Cartesian2d,
        q.data == p.data,
        q.mapping == p.mapping,
        q.layers == p.layers,
        q.coordinates == p.coordinates,
    ensures
        (p.layers@[i].geom is Line || p.layers@[i].geom is Point) ==> layer_ok(p, i) == layer_ok(q, i),
        (p.layers@[i].geom is Line || p.layers@[i].geom is Point) && p.layers@[i].data is None && (p.data matches DataRef::Table(t)
            && xy_ok(t@, layer_mapping(p, i))) ==> layer_ok(p, i),
        p.layers@[i].geom is Bar && has_log_y(p.scales@) ==> !layer_ok(p, i),
{
}

} // verus!
