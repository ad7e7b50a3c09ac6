//! Plot specifications: layers (stat, geom, position), scales, coordinates,
//! facets and theme, over one of the four kinds of data.
//!
//! Sizes, widths and other real parameters are IEEE-754 bit patterns
//! (`f32::to_bits` / `f64::to_bits`); the specification logic never computes on them.
use vstd::prelude::*;
use crate::graph::GraphData;
use crate::grid::GridData;
use crate::mapping::{Mapping, unmapped};
use crate::table::ColumnTable;
use crate::tree::TreeData;
use crate::types::{F32_ONE, Interval, Rgba, Vec3, str_eq};

verus! {

broadcast use vstd::string::to_string_from_display_ensures_for_str;

/// Facet layout.
#[derive(Debug)]
pub enum FacetSpec {
    /// Wrap panels by the levels of one text column (`facet_wrap`).
    Wrap {
        /// The text column whose levels make the panels.
        column: String,
        /// Number of columns; `None` takes the ceiling of the square root of the panel count.
        ncol: Option<usize>,
    },
}

impl FacetSpec {
    /// Wrap by `column`, columns chosen automatically.
    pub fn wrap(column: &str) -> (f: FacetSpec)
        ensures
            f matches FacetSpec::Wrap { column: c, ncol } && c@ == column@ && ncol is None,
    {
        FacetSpec::Wrap { column: column.to_string(), ncol: None }
    }

    /// Wrap by `column` in `ncol` columns (at least one).
    pub fn wrap_ncol(column: &str, ncol: usize) -> (f: FacetSpec)
        ensures
            f matches FacetSpec::Wrap { column: c, ncol: n } && c@ == column@ && n == Some(
                if ncol >= 1 { ncol } else { 1usize },
            ),
    {
        FacetSpec::Wrap { column: column.to_string(), ncol: Some(if ncol >= 1 { ncol } else { 1 }) }
    }
}

/// Scale kind.
#[derive(Debug, Clone, Copy, PartialEq, Eq, Structural)]
pub enum ScaleKind {
    /// Continuous linear.
    Continuous,
    /// Base-10 logarithm (its domain must be positive).
    Log10,
}

/// One scale.
#[derive(Debug)]
pub struct ScaleSpec {
    /// The aesthetic it serves, such as `x` or `y`.
    pub aesthetic: String,
    /// Kind.
    pub kind: ScaleKind,
    /// Explicit domain; `None` infers it from the data.
    pub domain: Option<Interval>,
}

impl ScaleSpec {
    /// Continuous x scale.
    pub fn continuous_x() -> (s: ScaleSpec)
        ensures
            s.aesthetic@ == "x"@ && s.kind == ScaleKind::Continuous && s.domain is None,
    {
        ScaleSpec { aesthetic: "x".to_string(), kind: ScaleKind::Continuous, domain: None }
    }

    /// Continuous y scale.
    pub fn continuous_y() -> (s: ScaleSpec)
        ensures
            s.aesthetic@ == "y"@ && s.kind == ScaleKind::Continuous && s.domain is None,
    {
        ScaleSpec { aesthetic: "y".to_string(), kind: ScaleKind::Continuous, domain: None }
    }

    /// Log10 y scale.
    pub fn log10_y() -> (s: ScaleSpec)
        ensures
            s.aesthetic@ == "y"@ && s.kind == ScaleKind::Log10 && s.domain is None,
    {
        ScaleSpec { aesthetic: "y".to_string(), kind: ScaleKind::Log10, domain: None }
    }

    /// Log10 x scale.
    pub fn log10_x() -> (s: ScaleSpec)
        ensures
            s.aesthetic@ == "x"@ && s.kind == ScaleKind::Log10 && s.domain is None,
    {
        ScaleSpec { aesthetic: "x".to_string(), kind: ScaleKind::Log10, domain: None }
    }

    /// Sets an explicit domain.
    pub fn with_domain(self, domain: Interval) -> (s: ScaleSpec)
        ensures
            s.aesthetic@ == self.aesthetic@ && s.kind == self.kind && s.domain == Some(domain),
    {
        ScaleSpec { aesthetic: self.aesthetic, kind: self.kind, domain: Some(domain) }
    }
}

/// Statistical transform.
#[derive(Debug, Clone, Copy, PartialEq, Eq, Structural)]
pub enum StatSpec {
    /// Pass the data through.
    Identity,
}

/// Line geometry.
#[derive(Debug, Clone, Copy, PartialEq, Eq, Structural)]
pub struct GeomLine {
    /// Line width in scene units, as `f32::to_bits`.
    pub linewidth: u32,
}

/// Point geometry.
#[derive(Debug, Clone, Copy, PartialEq, Eq, Structural)]
pub struct GeomPoint {
    /// Point radius in scene units, as `f32::to_bits`.
    pub size: u32,
}

/// Bar geometry.
#[derive(Debug, Clone, Copy, PartialEq, Eq, Structural)]
pub struct GeomBar {
    /// Bar width in data-x units, as `f64::to_bits`.
    pub width: u64,
}

/// Text geometry.
#[derive(Debug)]
pub struct GeomText {
    /// Font size in scene units, as `f32::to_bits`.
    pub size: u32,
    /// Constant text used when no `label` is mapped.
    pub text: Option<String>,
}

/// Surface geometry (draws `GridData`).
#[derive(Debug, Clone, Copy, PartialEq, Eq, Structural)]
pub struct GeomSurface {}

/// Three-dimensional point cloud (x/y/z mappings of a table).
#[derive(Debug, Clone, Copy, PartialEq, Eq, Structural)]
pub struct GeomPoint3d {
    /// Point radius, as `f32::to_bits`.
    pub size: u32,
}

/// Graph node.
#[derive(Debug, Clone, Copy, PartialEq, Eq, Structural)]
pub struct GeomNode {
    /// Radius, as `f32::to_bits`.
    pub size: u32,
}

/// Graph edge.
#[derive(Debug, Clone, Copy, PartialEq, Eq, Structural)]
pub struct GeomEdge {
    /// Line width, as `f32::to_bits`.
    pub linewidth: u32,
}

/// Tree node.
#[derive(Debug, Clone, Copy, PartialEq, Eq, Structural)]
pub struct GeomTreeNode {
    /// Radius, as `f32::to_bits`.
    pub size: u32,
}

/// Tree edge.
#[derive(Debug, Clone, Copy, PartialEq, Eq, Structural)]
pub struct GeomTreeEdge {
    /// Line width, as `f32::to_bits`.
    pub linewidth: u32,
}

/// `1.0f32`.
pub const UNIT_WIDTH: u32 = 0x3f80_0000u32;

/// `3.0f32`.
pub const POINT_SIZE: u32 = 0x4040_0000u32;

/// `4.0f32`.
pub const NODE_SIZE: u32 = 0x4080_0000u32;

/// `12.0f32`.
pub const TEXT_SIZE: u32 = 0x4140_0000u32;

/// `0.8f64`.
pub const BAR_WIDTH: u64 = 0x3fe9_9999_9999_999au64;

/// Geometric mark.
#[derive(Debug)]
pub enum GeomSpec {
    /// Polyline.
    Line(GeomLine),
    /// Scatter points.
    Point(GeomPoint),
    /// Bars.
    Bar(GeomBar),
    /// Text.
    Text(GeomText),
    /// Surface.
    Surface(GeomSurface),
    /// Point cloud.
    Point3d(GeomPoint3d),
    /// Graph nodes.
    Node(GeomNode),
    /// Graph edges.
    Edge(GeomEdge),
    /// Tree nodes.
    TreeNode(GeomTreeNode),
    /// Tree edges.
    TreeEdge(GeomTreeEdge),
}

impl GeomSpec {
    /// Default line.
    pub fn line() -> (g: GeomSpec)
        ensures
            g == GeomSpec::Line(GeomLine { linewidth: UNIT_WIDTH }),
    {
        GeomSpec::Line(GeomLine { linewidth: UNIT_WIDTH })
    }

    /// Default points.
    pub fn point() -> (g: GeomSpec)
        ensures
            g == GeomSpec::Point(GeomPoint { size: POINT_SIZE }),
    {
        GeomSpec::Point(GeomPoint { size: POINT_SIZE })
    }

    /// Default bars.
    pub fn bar() -> (g: GeomSpec)
        ensures
            g == GeomSpec::Bar(GeomBar { width: BAR_WIDTH }),
    {
        GeomSpec::Bar(GeomBar { width: BAR_WIDTH })
    }

    /// Default text.
    pub fn text() -> (g: GeomSpec)
        ensures
            g matches GeomSpec::Text(t) && t.size == TEXT_SIZE && t.text is None,
    {
        GeomSpec::Text(GeomText { size: TEXT_SIZE, text: None })
    }

    /// Default surface.
    pub fn surface() -> (g: GeomSpec)
        ensures
            g == GeomSpec::Surface(GeomSurface {}),
    {
        GeomSpec::Surface(GeomSurface {})
    }

    /// Default point cloud.
    pub fn point3d() -> (g: GeomSpec)
        ensures
            g == GeomSpec::Point3d(GeomPoint3d { size: POINT_SIZE }),
    {
        GeomSpec::Point3d(GeomPoint3d { size: POINT_SIZE })
    }

    /// Default graph nodes.
    pub fn node() -> (g: GeomSpec)
        ensures
            g == GeomSpec::Node(GeomNode { size: NODE_SIZE }),
    {
        GeomSpec::Node(GeomNode { size: NODE_SIZE })
    }

    /// Default graph edges.
    pub fn edge() -> (g: GeomSpec)
        ensures
            g == GeomSpec::Edge(GeomEdge { linewidth: UNIT_WIDTH }),
    {
        GeomSpec::Edge(GeomEdge { linewidth: UNIT_WIDTH })
    }

    /// Default tree nodes.
    pub fn tree_node() -> (g: GeomSpec)
        ensures
            g == GeomSpec::TreeNode(GeomTreeNode { size: NODE_SIZE }),
    {
        GeomSpec::TreeNode(GeomTreeNode { size: NODE_SIZE })
    }

    /// Default tree edges.
    pub fn tree_edge() -> (g: GeomSpec)
        ensures
            g == GeomSpec::TreeEdge(GeomTreeEdge { linewidth: UNIT_WIDTH }),
    {
        GeomSpec::TreeEdge(GeomTreeEdge { linewidth: UNIT_WIDTH })
    }
}

/// Position adjustment.
#[derive(Debug, Clone, Copy, PartialEq, Eq, Structural)]
pub enum PositionSpec {
    /// No adjustment.
    Identity,
}

/// Constant layer parameters (none yet).
#[derive(Debug, Clone, Copy, PartialEq, Eq, Structural)]
pub struct LayerParameters {}

/// One layer.
#[derive(Debug)]
pub struct LayerSpec {
    /// Key of layer-specific data; `None` uses the plot's data.
    pub data: Option<String>,
    /// Layer mapping, merged over the plot mapping.
    pub mapping: Mapping,
    /// Statistical transform.
    pub stat: StatSpec,
    /// Geometry.
    pub geom: GeomSpec,
    /// Position adjustment.
    pub position: PositionSpec,
    /// Constant parameters.
    pub parameters: LayerParameters,
}

/// A fresh layer drawing `geom`: plot data, nothing mapped, identity stat and position.
pub open spec fn fresh_layer(l: LayerSpec, geom: GeomSpec) -> bool {
    &&& l.data is None
    &&& l.mapping@ == unmapped()
    &&& l.stat == StatSpec::Identity
    &&& l.geom == geom
    &&& l.position == PositionSpec::Identity
}

impl LayerSpec {
    fn base(geom: GeomSpec) -> (l: LayerSpec)
        ensures
            fresh_layer(l, geom),
    {
        LayerSpec {
            data: None,
            mapping: Mapping::default(),
            stat: StatSpec::Identity,
            geom,
            position: PositionSpec::Identity,
            parameters: LayerParameters {},
        }
    }

    /// A line layer.
    pub fn geom_line() -> (l: LayerSpec)
        ensures
            fresh_layer(l, GeomSpec::Line(GeomLine { linewidth: UNIT_WIDTH })),
    {
        LayerSpec::base(GeomSpec::line())
    }

    /// A point layer.
    pub fn geom_point() -> (l: LayerSpec)
        ensures
            fresh_layer(l, GeomSpec::Point(GeomPoint { size: POINT_SIZE })),
    {
        LayerSpec::base(GeomSpec::point())
    }

    /// A bar layer.
    pub fn geom_bar() -> (l: LayerSpec)
        ensures
            fresh_layer(l, GeomSpec::Bar(GeomBar { width: BAR_WIDTH })),
    {
        LayerSpec::base(GeomSpec::bar())
    }

    /// A text layer.
    pub fn geom_text() -> (l: LayerSpec)
        ensures
            l.data is None && l.mapping@ == unmapped() && l.stat == StatSpec::Identity && l.position
                == PositionSpec::Identity,
            l.geom matches GeomSpec::Text(t) && t.size == TEXT_SIZE && t.text is None,
    {
        LayerSpec::base(GeomSpec::text())
    }

    /// A surface layer.
    pub fn geom_surface() -> (l: LayerSpec)
        ensures
            fresh_layer(l, GeomSpec::Surface(GeomSurface {})),
    {
        LayerSpec::base(GeomSpec::surface())
    }

    /// A point-cloud layer.
    pub fn geom_point3d() -> (l: LayerSpec)
        ensures
            fresh_layer(l, GeomSpec::Point3d(GeomPoint3d { size: POINT_SIZE })),
    {
        LayerSpec::base(GeomSpec::point3d())
    }

    /// A graph-node layer.
    pub fn geom_node() -> (l: LayerSpec)
        ensures
            fresh_layer(l, GeomSpec::Node(GeomNode { size: NODE_SIZE })),
    {
        LayerSpec::base(GeomSpec::node())
    }

    /// A graph-edge layer.
    pub fn geom_edge() -> (l: LayerSpec)
        ensures
            fresh_layer(l, GeomSpec::Edge(GeomEdge { linewidth: UNIT_WIDTH })),
    {
        LayerSpec::base(GeomSpec::edge())
    }

    /// A tree-node layer.
    pub fn geom_tree_node() -> (l: LayerSpec)
        ensures
            fresh_layer(l, GeomSpec::TreeNode(GeomTreeNode { size: NODE_SIZE })),
    {
        LayerSpec::base(GeomSpec::tree_node())
    }

    /// A tree-edge layer.
    pub fn geom_tree_edge() -> (l: LayerSpec)
        ensures
            fresh_layer(l, GeomSpec::TreeEdge(GeomTreeEdge { linewidth: UNIT_WIDTH })),
    {
        LayerSpec::base(GeomSpec::tree_edge())
    }

    /// Replaces the layer mapping.
    pub fn mapping(self, mapping: Mapping) -> (l: LayerSpec)
        ensures
            l.data == self.data && l.mapping == mapping && l.stat == self.stat && l.geom == self.geom
                && l.position == self.position,
    {
        LayerSpec {
            data: self.data,
            mapping,
            stat: self.stat,
            geom: self.geom,
            position: self.position,
            parameters: self.parameters,
        }
    }
}

/// Two-dimensional Cartesian coordinates.
#[derive(Debug, Clone, Copy, PartialEq, Eq, Structural)]
pub struct Cartesian2d {
    /// x limits overriding the scale or data domain.
    pub xlim: Option<Interval>,
    /// y limits overriding the scale or data domain.
    pub ylim: Option<Interval>,
    /// Swap the scene directions of x and y.
    pub flip: bool,
}

/// A camera for three-dimensional plots; every real is an `f64` bit pattern.
#[derive(Debug, Clone, Copy, PartialEq, Eq, Structural)]
pub enum Camera3dSpec {
    /// Perspective projection.
    Perspective {
        /// Eye position.
        eye: Vec3,
        /// Look-at point.
        target: Vec3,
        /// Up direction.
        up: Vec3,
        /// Vertical field of view in degrees.
        fovy_degrees: u64,
        /// Near plane.
        near: u64,
        /// Far plane.
        far: u64,
    },
    /// Orthographic projection.
    Orthographic {
        /// Eye position.
        eye: Vec3,
        /// Look-at point.
        target: Vec3,
        /// Up direction.
        up: Vec3,
        /// Half of the visible height.
        half_extent_y: u64,
        /// Near plane.
        near: u64,
        /// Far plane.
        far: u64,
    },
}

/// The default perspective camera: eye `(2.5, 2, 2.5)`, looking at the
/// origin, y up, 45 degrees, planes at 0.1 and 100.
pub open spec fn default_camera() -> Camera3dSpec {
    Camera3dSpec::Perspective {
        eye: Vec3 { x: 0x4004_0000_0000_0000u64, y: 0x4000_0000_0000_0000u64, z: 0x4004_0000_0000_0000u64 },
        target: Vec3 { x: 0, y: 0, z: 0 },
        up: Vec3 { x: 0, y: 0x3ff0_0000_0000_0000u64, z: 0 },
        fovy_degrees: 0x4046_8000_0000_0000u64,
        near: 0x3fb9_9999_9999_999au64,
        far: 0x4059_0000_0000_0000u64,
    }
}

impl Camera3dSpec {
    /// The default perspective camera.
    pub fn perspective_default() -> (c: Camera3dSpec)
        ensures
            c == default_camera(),
    {
        Camera3dSpec::Perspective {
            eye: Vec3 { x: 0x4004_0000_0000_0000u64, y: 0x4000_0000_0000_0000u64, z: 0x4004_0000_0000_0000u64 },
            target: Vec3 { x: 0, y: 0, z: 0 },
            up: Vec3 { x: 0, y: 0x3ff0_0000_0000_0000u64, z: 0 },
            fovy_degrees: 0x4046_8000_0000_0000u64,
            near: 0x3fb9_9999_9999_999au64,
            far: 0x4059_0000_0000_0000u64,
        }
    }
}

/// Three-dimensional Cartesian coordinates.
#[derive(Debug, Clone, Copy, PartialEq, Eq, Structural)]
pub struct Cartesian3d {
    /// The camera.
    pub camera: Camera3dSpec,
}

/// Graph layout algorithm.
#[derive(Debug, Clone, Copy, PartialEq, Eq, Structural)]
pub enum GraphLayoutKind {
    /// Nodes on a circle.
    Circular,
    /// Nodes on a grid, in declaration order.
    Grid,
    /// Layers by longest path (directed) or breadth-first distance (undirected).
    Layered,
    /// Deterministic force-directed placement.
    Force {
        /// Iterations.
        iterations: u32,
    },
}

/// Tree layout algorithm.
#[derive(Debug, Clone, Copy, PartialEq, Eq, Structural)]
pub enum TreeLayoutKind {
    /// Tidy tree.
    Tidy,
    /// Radial tree.
    Radial,
}

/// Graph coordinates.
#[derive(Debug, Clone, Copy, PartialEq, Eq, Structural)]
pub struct GraphSpace {
    /// Layout algorithm.
    pub algorithm: GraphLayoutKind,
}

/// Tree coordinates.
#[derive(Debug, Clone, Copy, PartialEq, Eq, Structural)]
pub struct TreeSpace {
    /// Layout algorithm.
    pub algorithm: TreeLayoutKind,
}

/// Coordinate system.
#[derive(Debug, Clone, Copy, PartialEq, Eq, Structural)]
pub enum CoordinateSpec {
    /// Two-dimensional Cartesian.
    Cartesian2d(Cartesian2d),
    /// Three-dimensional Cartesian.
    Cartesian3d(Cartesian3d),
    /// Graph layout space.
    GraphSpace(GraphSpace),
    /// Tree layout space.
    TreeSpace(TreeSpace),
}

impl CoordinateSpec {
    /// Plain two-dimensional Cartesian coordinates.
    pub fn cartesian_2d() -> (c: CoordinateSpec)
        ensures
            c == CoordinateSpec::Cartesian2d(Cartesian2d { xlim: None, ylim: None, flip: false }),
    {
        CoordinateSpec::Cartesian2d(Cartesian2d { xlim: None, ylim: None, flip: false })
    }

    /// Cartesian coordinates with explicit limits.
    pub fn cartesian_limits(xlim: Option<Interval>, ylim: Option<Interval>) -> (c: CoordinateSpec)
        ensures
            c == CoordinateSpec::Cartesian2d(Cartesian2d { xlim, ylim, flip: false }),
    {
        CoordinateSpec::Cartesian2d(Cartesian2d { xlim, ylim, flip: false })
    }

    /// Cartesian coordinates with x and y swapped.
    pub fn cartesian_flip() -> (c: CoordinateSpec)
        ensures
            c == CoordinateSpec::Cartesian2d(Cartesian2d { xlim: None, ylim: None, flip: true }),
    {
        CoordinateSpec::Cartesian2d(Cartesian2d { xlim: None, ylim: None, flip: true })
    }

    /// Three-dimensional Cartesian coordinates with the default camera.
    pub fn cartesian_3d() -> (c: CoordinateSpec)
        ensures
            c == CoordinateSpec::Cartesian3d(Cartesian3d { camera: default_camera() }),
    {
        CoordinateSpec::Cartesian3d(Cartesian3d { camera: Camera3dSpec::perspective_default() })
    }

    /// Three-dimensional Cartesian coordinates with a given camera.
    pub fn cartesian_3d_camera(camera: Camera3dSpec) -> (c: CoordinateSpec)
        ensures
            c == CoordinateSpec::Cartesian3d(Cartesian3d { camera }),
    {
        CoordinateSpec::Cartesian3d(Cartesian3d { camera })
    }

    /// Graph space with the circular layout.
    pub fn graph_space() -> (c: CoordinateSpec)
        ensures
            c == CoordinateSpec::GraphSpace(GraphSpace { algorithm: GraphLayoutKind::Circular }),
    {
        CoordinateSpec::GraphSpace(GraphSpace { algorithm: GraphLayoutKind::Circular })
    }

    /// Graph space with a given layout.
    pub fn graph_space_with(algorithm: GraphLayoutKind) -> (c: CoordinateSpec)
        ensures
            c == CoordinateSpec::GraphSpace(GraphSpace { algorithm }),
    {
        CoordinateSpec::GraphSpace(GraphSpace { algorithm })
    }

    /// Tree space with the tidy layout.
    pub fn tree_space() -> (c: CoordinateSpec)
        ensures
            c == CoordinateSpec::TreeSpace(TreeSpace { algorithm: TreeLayoutKind::Tidy }),
    {
        CoordinateSpec::TreeSpace(TreeSpace { algorithm: TreeLayoutKind::Tidy })
    }

    /// Tree space with a given layout.
    pub fn tree_space_with(algorithm: TreeLayoutKind) -> (c: CoordinateSpec)
        ensures
            c == CoordinateSpec::TreeSpace(TreeSpace { algorithm }),
    {
        CoordinateSpec::TreeSpace(TreeSpace { algorithm })
    }

    /// The two-dimensional Cartesian payload.
    pub fn as_cartesian2d(&self) -> (r: Option<&Cartesian2d>)
        ensures
            match *self {
                CoordinateSpec::Cartesian2d(c) => r == Some(&c),
                _ => r is None,
            },
    {
        match self {
            CoordinateSpec::Cartesian2d(c) => Some(c),
            _ => None,
        }
    }

    /// The three-dimensional Cartesian payload.
    pub fn as_cartesian3d(&self) -> (r: Option<&Cartesian3d>)
        ensures
            match *self {
                CoordinateSpec::Cartesian3d(c) => r == Some(&c),
                _ => r is None,
            },
    {
        match self {
            CoordinateSpec::Cartesian3d(c) => Some(c),
            _ => None,
        }
    }

    /// The graph-space payload.
    pub fn as_graph_space(&self) -> (r: Option<&GraphSpace>)
        ensures
            match *self {
                CoordinateSpec::GraphSpace(c) => r == Some(&c),
                _ => r is None,
            },
    {
        match self {
            CoordinateSpec::GraphSpace(c) => Some(c),
            _ => None,
        }
    }

    /// The tree-space payload.
    pub fn as_tree_space(&self) -> (r: Option<&TreeSpace>)
        ensures
            match *self {
                CoordinateSpec::TreeSpace(c) => r == Some(&c),
                _ => r is None,
            },
    {
        match self {
            CoordinateSpec::TreeSpace(c) => Some(c),
            _ => None,
        }
    }
}

/// Plot theme; every real is an IEEE-754 bit pattern.
#[derive(Debug, Clone, Copy)]
pub struct ThemeSpec {
    /// Viewport background.
    pub background: Rgba,
    /// Default foreground for strokes, fills and text.
    pub foreground: Rgba,
    /// Axis colour.
    pub axis_stroke: Rgba,
    /// Optional panel fill; `None` draws none.
    pub panel_fill: Option<Rgba>,
    /// Outer margins (left, bottom, right, top), as `f64::to_bits`.
    pub margin: (u64, u64, u64, u64),
    /// Gap between facet panels, as `f64::to_bits`.
    pub facet_gap: u64,
    /// Facet title font size, as `f32::to_bits`.
    pub facet_label_size: u32,
}

/// The margins (48, 36, 16, 16) of both themes.
pub open spec fn theme_margin() -> (u64, u64, u64, u64) {
    (0x4048_0000_0000_0000u64, 0x4042_0000_0000_0000u64, 0x4030_0000_0000_0000u64, 0x4030_0000_0000_0000u64)
}

/// The light theme: black on white, no panel fill.
pub open spec fn light_theme() -> ThemeSpec {
    ThemeSpec {
        background: Rgba { r: F32_ONE, g: F32_ONE, b: F32_ONE, a: F32_ONE },
        foreground: Rgba { r: 0, g: 0, b: 0, a: F32_ONE },
        axis_stroke: Rgba { r: 0, g: 0, b: 0, a: F32_ONE },
        panel_fill: None,
        margin: theme_margin(),
        facet_gap: 0x4020_0000_0000_0000u64,
        facet_label_size: 0x4120_0000u32,
    }
}

/// The dark theme: light grey on near-black, with a panel fill.
pub open spec fn dark_theme() -> ThemeSpec {
    ThemeSpec {
        background: Rgba { r: 0x3df5_c28fu32, g: 0x3df5_c28fu32, b: 0x3e0f_5c29u32, a: F32_ONE },
        foreground: Rgba { r: 0x3f6b_851fu32, g: 0x3f6b_851fu32, b: 0x3f70_a3d7u32, a: F32_ONE },
        axis_stroke: Rgba { r: 0x3f40_0000u32, g: 0x3f40_0000u32, b: 0x3f47_ae14u32, a: F32_ONE },
        panel_fill: Some(Rgba { r: 0x3e38_51ecu32, g: 0x3e38_51ecu32, b: 0x3e4c_cccdu32, a: F32_ONE }),
        margin: theme_margin(),
        facet_gap: 0x4020_0000_0000_0000u64,
        facet_label_size: 0x4120_0000u32,
    }
}

impl ThemeSpec {
    /// The light theme.
    pub fn light() -> (t: ThemeSpec)
        ensures
            t == light_theme(),
    {
        ThemeSpec {
            background: Rgba::white(),
            foreground: Rgba::black(),
            axis_stroke: Rgba::black(),
            panel_fill: None,
            margin: (0x4048_0000_0000_0000u64, 0x4042_0000_0000_0000u64, 0x4030_0000_0000_0000u64, 0x4030_0000_0000_0000u64),
            facet_gap: 0x4020_0000_0000_0000u64,
            facet_label_size: 0x4120_0000u32,
        }
    }

    /// The dark theme.
    pub fn dark() -> (t: ThemeSpec)
        ensures
            t == dark_theme(),
    {
        ThemeSpec {
            background: Rgba { r: 0x3df5_c28fu32, g: 0x3df5_c28fu32, b: 0x3e0f_5c29u32, a: F32_ONE },
            foreground: Rgba { r: 0x3f6b_851fu32, g: 0x3f6b_851fu32, b: 0x3f70_a3d7u32, a: F32_ONE },
            axis_stroke: Rgba { r: 0x3f40_0000u32, g: 0x3f40_0000u32, b: 0x3f47_ae14u32, a: F32_ONE },
            panel_fill: Some(Rgba { r: 0x3e38_51ecu32, g: 0x3e38_51ecu32, b: 0x3e4c_cccdu32, a: F32_ONE }),
            margin: (0x4048_0000_0000_0000u64, 0x4042_0000_0000_0000u64, 0x4030_0000_0000_0000u64, 0x4030_0000_0000_0000u64),
            facet_gap: 0x4020_0000_0000_0000u64,
            facet_label_size: 0x4120_0000u32,
        }
    }
}

impl Default for ThemeSpec {
    fn default() -> (t: ThemeSpec)
        ensures
            t == light_theme(),
    {
        ThemeSpec::light()
    }
}

/// The plot's main data.
#[derive(Debug)]
pub enum DataRef {
    /// Columnar table.
    Table(ColumnTable),
    /// Regular grid (surface).
    Grid(GridData),
    /// Graph.
    Graph(GraphData),
    /// Tree.
    Tree(TreeData),
}

/// A declarative plot specification.
#[derive(Debug)]
pub struct PlotSpec {
    /// Main data.
    pub data: DataRef,
    /// Plot-level mapping.
    pub mapping: Mapping,
    /// Layers.
    pub layers: Vec<LayerSpec>,
    /// Scales.
    pub scales: Vec<ScaleSpec>,
    /// Coordinate system.
    pub coordinates: CoordinateSpec,
    /// Optional facets.
    pub facets: Option<FacetSpec>,
    /// Theme.
    pub theme: ThemeSpec,
}

/// The aesthetics of a scale list, in order.
pub open spec fn scale_names(scales: Seq<ScaleSpec>) -> Seq<Seq<char>> {
    scales.map_values(|s: ScaleSpec| s.aesthetic@)
}

/// A plot over `data` with nothing mapped, no layers, no facets and the light theme.
pub open spec fn blank_plot(p: PlotSpec) -> bool {
    &&& p.mapping@ == unmapped()
    &&& p.layers@.len() == 0
    &&& p.facets is None
    &&& p.theme == light_theme()
}

impl PlotSpec {
    /// A plot over a table: continuous x and y scales, two-dimensional Cartesian coordinates.
    pub fn new(table: ColumnTable) -> (p: PlotSpec)
        ensures
            blank_plot(p),
            p.data matches DataRef::Table(t) && t@ == table@,
            scale_names(p.scales@) == seq!["x"@, "y"@],
            forall|i: int| 0 <= i < p.scales@.len() ==> #[trigger] p.scales@[i].kind == ScaleKind::Continuous
                && p.scales@[i].domain is None,
            p.coordinates == CoordinateSpec::Cartesian2d(Cartesian2d { xlim: None, ylim: None, flip: false }),
    {
        let scales = vec![ScaleSpec::continuous_x(), ScaleSpec::continuous_y()];
        assert(scale_names(scales@) =~= seq!["x"@, "y"@]);
        PlotSpec {
            data: DataRef::Table(table),
            mapping: Mapping::default(),
            layers: Vec::new(),
            scales,
            coordinates: CoordinateSpec::cartesian_2d(),
            facets: None,
            theme: ThemeSpec::light(),
        }
    }

    /// A three-dimensional plot over a grid, no scales, default camera.
    pub fn from_grid(grid: GridData) -> (p: PlotSpec)
        ensures
            blank_plot(p),
            p.data matches DataRef::Grid(g) && g.x@ == grid.x@ && g.y@ == grid.y@ && g.z@ == grid.z@,
            p.scales@.len() == 0,
            p.coordinates == CoordinateSpec::Cartesian3d(Cartesian3d { camera: default_camera() }),
    {
        PlotSpec {
            data: DataRef::Grid(grid),
            mapping: Mapping::default(),
            layers: Vec::new(),
            scales: Vec::new(),
            coordinates: CoordinateSpec::cartesian_3d(),
            facets: None,
            theme: ThemeSpec::light(),
        }
    }

    /// A plot over a graph, no scales, circular layout.
    pub fn from_graph(graph: GraphData) -> (p: PlotSpec)
        ensures
            blank_plot(p),
            p.data matches DataRef::Graph(g) && g.nodes@ == graph.nodes@ && g.edges@ == graph.edges@ && g.directed
                == graph.directed,
            p.scales@.len() == 0,
            p.coordinates == CoordinateSpec::GraphSpace(GraphSpace { algorithm: GraphLayoutKind::Circular }),
    {
        PlotSpec {
            data: DataRef::Graph(graph),
            mapping: Mapping::default(),
            layers: Vec::new(),
            scales: Vec::new(),
            coordinates: CoordinateSpec::graph_space(),
            facets: None,
            theme: ThemeSpec::light(),
        }
    }

    /// A plot over a tree, no scales, tidy layout.
    pub fn from_tree(tree: TreeData) -> (p: PlotSpec)
        ensures
            blank_plot(p),
            p.data matches DataRef::Tree(t) && t.root@ == tree.root@ && t.nodes@ == tree.nodes@,
            p.scales@.len() == 0,
            p.coordinates == CoordinateSpec::TreeSpace(TreeSpace { algorithm: TreeLayoutKind::Tidy }),
    {
        PlotSpec {
            data: DataRef::Tree(tree),
            mapping: Mapping::default(),
            layers: Vec::new(),
            scales: Vec::new(),
            coordinates: CoordinateSpec::tree_space(),
            facets: None,
            theme: ThemeSpec::light(),
        }
    }

    /// Replaces the plot mapping.
    pub fn mapping(self, mapping: Mapping) -> (p: PlotSpec)
        ensures
            p.mapping == mapping,
            p.data == self.data && p.layers == self.layers && p.scales == self.scales && p.coordinates
                == self.coordinates && p.facets == self.facets && p.theme == self.theme,
    {
        PlotSpec { mapping, ..self }
    }

    /// Appends a layer.
    pub fn layer(self, layer: LayerSpec) -> (p: PlotSpec)
        ensures
            p.layers@ == self.layers@.push(layer),
            p.data == self.data && p.mapping == self.mapping && p.scales == self.scales && p.coordinates
                == self.coordinates && p.facets == self.facets && p.theme == self.theme,
    {
        let mut layers = self.layers;
        layers.push(layer);
        PlotSpec { layers, ..self }
    }

    /// Replaces the scales.
    pub fn scales(self, scales: Vec<ScaleSpec>) -> (p: PlotSpec)
        ensures
            p.scales == scales,
            p.data == self.data && p.mapping == self.mapping && p.layers == self.layers && p.coordinates
                == self.coordinates && p.facets == self.facets && p.theme == self.theme,
    {
        PlotSpec { scales, ..self }
    }

    /// Replaces the first scale for the same aesthetic, or appends the scale.
    pub fn scale(self, scale: ScaleSpec) -> (p: PlotSpec)
        ensures
            match first_scale_for(self.scales@, scale.aesthetic@) {
                Some(i) => p.scales@ == self.scales@.update(i, scale),
                None => p.scales@ == self.scales@.push(scale),
            },
            p.data == self.data && p.mapping == self.mapping && p.layers == self.layers && p.coordinates
                == self.coordinates && p.facets == self.facets && p.theme == self.theme,
    {
        let mut scales = self.scales;
        let mut i: usize = 0;
        while i < scales.len()
            invariant
                i <= scales@.len(),
                scales@ == self.scales@,
                forall|k: int| 0 <= k < i ==> #[trigger] scales@[k].aesthetic@ != scale.aesthetic@,
            decreases scales@.len() - i,
        {
            if str_eq(scales[i].aesthetic.as_str(), scale.aesthetic.as_str()) {
                proof { lemma_first_scale(self.scales@, scale.aesthetic@, i as int); }
                scales.set(i, scale);
                return PlotSpec { scales, ..self };
            }
            i = i + 1;
        }
        proof { lemma_no_scale(self.scales@, scale.aesthetic@); }
        scales.push(scale);
        PlotSpec { scales, ..self }
    }

    /// Replaces the coordinate system.
    pub fn coordinates(self, coordinates: CoordinateSpec) -> (p: PlotSpec)
        ensures
            p.coordinates == coordinates,
            p.data == self.data && p.mapping == self.mapping && p.layers == self.layers && p.scales == self.scales
                && p.facets == self.facets && p.theme == self.theme,
    {
        PlotSpec { coordinates, ..self }
    }

    /// Sets the facets.
    pub fn facets(self, facets: FacetSpec) -> (p: PlotSpec)
        ensures
            p.facets == Some(facets),
            p.data == self.data && p.mapping == self.mapping && p.layers == self.layers && p.scales == self.scales
                && p.coordinates == self.coordinates && p.theme == self.theme,
    {
        PlotSpec { facets: Some(facets), ..self }
    }

    /// Sets the theme.
    pub fn theme(self, theme: ThemeSpec) -> (p: PlotSpec)
        ensures
            p.theme == theme,
            p.data == self.data && p.mapping == self.mapping && p.layers == self.layers && p.scales == self.scales
                && p.coordinates == self.coordinates && p.facets == self.facets,
    {
        PlotSpec { theme, ..self }
    }
}

/// The position of the first scale for `aesthetic`, if any.
pub open spec fn first_scale_for(scales: Seq<ScaleSpec>, aesthetic: Seq<char>) -> Option<int> {
    if exists|i: int| 0 <= i < scales.len() && #[trigger] scales[i].aesthetic@ == aesthetic {
        Some(
            choose|i: int|
                0 <= i < scales.len() && #[trigger] scales[i].aesthetic@ == aesthetic && forall|k: int|
                    0 <= k < i ==> scales[k].aesthetic@ != aesthetic,
        )
    } else {
        None
    }
}

proof fn lemma_first_scale(scales: Seq<ScaleSpec>, aesthetic: Seq<char>, i: int)
    requires
        0 <= i < scales.len(),
        scales[i].aesthetic@ == aesthetic,
        forall|k: int| 0 <= k < i ==> #[trigger] scales[k].aesthetic@ != aesthetic,
    ensures
        first_scale_for(scales, aesthetic) == Some(i),
{
    let c = choose|c: int|
        0 <= c < scales.len() && #[trigger] scales[c].aesthetic@ == aesthetic && forall|k: int|
            0 <= k < c ==> scales[k].aesthetic@ != aesthetic;
    assert(0 <= c < scales.len() && scales[c].aesthetic@ == aesthetic && forall|k: int|
        0 <= k < c ==> scales[k].aesthetic@ != aesthetic);
    if c < i {
        assert(scales[c].aesthetic@ != aesthetic);
    }
    if i < c {
        assert(scales[i].aesthetic@ != aesthetic);
    }
}

proof fn lemma_min_scale(scales: Seq<ScaleSpec>, aesthetic: Seq<char>, j: int)
    requires
        0 <= j < scales.len(),
        scales[j].aesthetic@ == aesthetic,
    ensures
        exists|i: int|
            0 <= i < scales.len() && #[trigger] scales[i].aesthetic@ == aesthetic && forall|k: int|
                0 <= k < i ==> scales[k].aesthetic@ != aesthetic,
    decreases j,
{
    if exists|k: int| 0 <= k < j && #[trigger] scales[k].aesthetic@ == aesthetic {
        let k = choose|k: int| 0 <= k < j && #[trigger] scales[k].aesthetic@ == aesthetic;
        lemma_min_scale(scales, aesthetic, k);
    } else {
        assert(forall|k: int| 0 <= k < j ==> #[trigger] scales[k].aesthetic@ != aesthetic);
    }
}

proof fn lemma_first_scale_props(scales: Seq<ScaleSpec>, aesthetic: Seq<char>)
    ensures
        first_scale_for(scales, aesthetic) matches Some(i) ==> 0 <= i < scales.len() && scales[i].aesthetic@
            == aesthetic && forall|k: int| 0 <= k < i ==> #[trigger] scales[k].aesthetic@ != aesthetic,
{
    if exists|i: int| 0 <= i < scales.len() && #[trigger] scales[i].aesthetic@ == aesthetic {
        let j = choose|i: int| 0 <= i < scales.len() && #[trigger] scales[i].aesthetic@ == aesthetic;
        lemma_min_scale(scales, aesthetic, j);
    }
}

proof fn lemma_no_scale(scales: Seq<ScaleSpec>, aesthetic: Seq<char>)
    requires
        forall|k: int| 0 <= k < scales.len() ==> #[trigger] scales[k].aesthetic@ != aesthetic,
    ensures
        first_scale_for(scales, aesthetic) is None,
{
}

/// The position of the scale that governs `aesthetic`: the last one for it.
pub fn scale_for(scales: &Vec<ScaleSpec>, aesthetic: &str) -> (r: Option<usize>)
    ensures
        match r {
            Some(i) => i < scales@.len() && scales@[i as int].aesthetic@ == aesthetic@ && forall|k: int|
                i < k < scales@.len() ==> #[trigger] scales@[k].aesthetic@ != aesthetic@,
            None => forall|k: int| 0 <= k < scales@.len() ==> #[trigger] scales@[k].aesthetic@ != aesthetic@,
        },
{
    let mut i: usize = scales.len();
    while i > 0
        invariant
            i <= scales@.len(),
            forall|k: int| i <= k < scales@.len() ==> #[trigger] scales@[k].aesthetic@ != aesthetic@,
        decreases i,
    {
        if str_eq(scales[i - 1].aesthetic.as_str(), aesthetic) {
            return Some(i - 1);
        }
        i = i - 1;
    }
    None
}

/// After `scale`, the plot has a scale for that aesthetic, and it is the one given;
/// if the aesthetics were distinct before, they still are.
pub proof fn scale_replaces_or_appends(before: Seq<ScaleSpec>, after: Seq<ScaleSpec>, scale: ScaleSpec)
    requires
        match first_scale_for(before, scale.aesthetic@) {
            Some(i) => after == before.update(i, scale),
            None => after == before.push(scale),
        },
    ensures
        first_scale_for(after, scale.aesthetic@) matches Some(i) && after[i] == scale,
        scale_names(before).no_duplicates() ==> scale_names(after).no_duplicates(),
{
    match first_scale_for(before, scale.aesthetic@) {
        Some(i) => {
            lemma_first_scale_props(before, scale.aesthetic@);
            assert forall|k: int| 0 <= k < i implies #[trigger] after[k].aesthetic@ != scale.aesthetic@ by {
                assert(after[k] == before[k]);
            }
            lemma_first_scale(after, scale.aesthetic@, i);
            if scale_names(before).no_duplicates() {
                assert(scale_names(after) =~= scale_names(before).update(i, scale.aesthetic@));
                assert forall|a: int, b: int|
                    0 <= a < scale_names(after).len() && 0 <= b < scale_names(after).len() && a != b implies scale_names(
                    after,
                )[a] != scale_names(after)[b] by {
                    assert(scale_names(before)[a] != scale_names(before)[b]);
                }
            }
        },
        None => {
            assert forall|k: int| 0 <= k < before.len() implies #[trigger] after[k].aesthetic@ != scale.aesthetic@ by {
                assert(after[k] == before[k]);
                if before[k].aesthetic@ == scale.aesthetic@ {
                    assert(exists|i: int| 0 <= i < before.len() && #[trigger] before[i].aesthetic@ == scale.aesthetic@);
                }
            }
            lemma_first_scale(after, scale.aesthetic@, before.len() as int);
            if scale_names(before).no_duplicates() {
                assert(scale_names(after) =~= scale_names(before).push(scale.aesthetic@));
                assert forall|a: int, b: int|
                    0 <= a < scale_names(after).len() && 0 <= b < scale_names(after).len() && a != b implies scale_names(
                    after,
                )[a] != scale_names(after)[b] by {
                    if a < before.len() && b < before.len() {
                        assert(scale_names(before)[a] != scale_names(before)[b]);
                    } else if a < before.len() {
                        assert(after[a].aesthetic@ != scale.aesthetic@);
                    } else if b < before.len() {
                        assert(after[b].aesthetic@ != scale.aesthetic@);
                    }
                }
            }
        },
    }
}

impl Default for StatSpec {
    fn default() -> (s: StatSpec)
        ensures
            s == StatSpec::Identity,
    {
        StatSpec::Identity
    }
}

impl Default for PositionSpec {
    fn default() -> (s: PositionSpec)
        ensures
            s == PositionSpec::Identity,
    {
        PositionSpec::Identity
    }
}

impl Default for LayerParameters {
    fn default() -> (s: LayerParameters)
        ensures
            s == (LayerParameters {}),
    {
        LayerParameters {}
    }
}

impl Default for GeomLine {
    fn default() -> (s: GeomLine)
        ensures
            s.linewidth == UNIT_WIDTH,
    {
        GeomLine { linewidth: UNIT_WIDTH }
    }
}

impl Default for GeomPoint {
    fn default() -> (s: GeomPoint)
        ensures
            s.size == POINT_SIZE,
    {
        GeomPoint { size: POINT_SIZE }
    }
}

impl Default for GeomBar {
    fn default() -> (s: GeomBar)
        ensures
            s.width == BAR_WIDTH,
    {
        GeomBar { width: BAR_WIDTH }
    }
}

impl Default for GeomText {
    fn default() -> (s: GeomText)
        ensures
            s.size == TEXT_SIZE && s.text is None,
    {
        GeomText { size: TEXT_SIZE, text: None }
    }
}

impl Default for GeomSurface {
    fn default() -> (s: GeomSurface)
        ensures
            s == (GeomSurface {}),
    {
        GeomSurface {}
    }
}

impl Default for GeomPoint3d {
    fn default() -> (s: GeomPoint3d)
        ensures
            s.size == POINT_SIZE,
    {
        GeomPoint3d { size: POINT_SIZE }
    }
}

impl Default for GeomNode {
    fn default() -> (s: GeomNode)
        ensures
            s.size == NODE_SIZE,
    {
        GeomNode { size: NODE_SIZE }
    }
}

impl Default for GeomEdge {
    fn default() -> (s: GeomEdge)
        ensures
            s.linewidth == UNIT_WIDTH,
    {
        GeomEdge { linewidth: UNIT_WIDTH }
    }
}

impl Default for GeomTreeNode {
    fn default() -> (s: GeomTreeNode)
        ensures
            s.size == NODE_SIZE,
    {
        GeomTreeNode { size: NODE_SIZE }
    }
}

impl Default for GeomTreeEdge {
    fn default() -> (s: GeomTreeEdge)
        ensures
            s.linewidth == UNIT_WIDTH,
    {
        GeomTreeEdge { linewidth: UNIT_WIDTH }
    }
}

impl Default for Cartesian2d {
    fn default() -> (s: Cartesian2d)
        ensures
            s == (Cartesian2d { xlim: None, ylim: None, flip: false }),
    {
        Cartesian2d { xlim: None, ylim: None, flip: false }
    }
}

impl Default for Cartesian3d {
    fn default() -> (s: Cartesian3d)
        ensures
            s == (Cartesian3d { camera: default_camera() }),
    {
        Cartesian3d { camera: Camera3dSpec::perspective_default() }
    }
}

impl Default for GraphLayoutKind {
    fn default() -> (s: GraphLayoutKind)
        ensures
            s == GraphLayoutKind::Circular,
    {
        GraphLayoutKind::Circular
    }
}

impl Default for TreeLayoutKind {
    fn default() -> (s: TreeLayoutKind)
        ensures
            s == TreeLayoutKind::Tidy,
    {
        TreeLayoutKind::Tidy
    }
}

impl Default for GraphSpace {
    fn default() -> (s: GraphSpace)
        ensures
            s == (GraphSpace { algorithm: GraphLayoutKind::Circular }),
    {
        GraphSpace { algorithm: GraphLayoutKind::Circular }
    }
}

impl Default for TreeSpace {
    fn default() -> (s: TreeSpace)
        ensures
            s == (TreeSpace { algorithm: TreeLayoutKind::Tidy }),
    {
        TreeSpace { algorithm: TreeLayoutKind::Tidy }
    }
}

impl Default for CoordinateSpec {
    fn default() -> (s: CoordinateSpec)
        ensures
            s == CoordinateSpec::Cartesian2d(Cartesian2d { xlim: None, ylim: None, flip: false }),
    {
        CoordinateSpec::cartesian_2d()
    }
}

} // verus!
