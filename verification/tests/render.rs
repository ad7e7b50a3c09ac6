use apollo::glyph::draw_glyphs;
use apollo::markup::xml_escape;
use apollo::raster::{
    Capability, CpuRasterRenderer, RgbaImage, SvgRenderer, bresenham, draw_thick_line, edge, fill_triangle,
    fill_rect, point_in_triangle,
};
use apollo::scene::{NodeId, NodeShape, SceneArena, drawable_order, walk_ends};
use apollo::DiagnosticCode;

const WHITE: [u8; 4] = [255, 255, 255, 255];
const BLACK: [u8; 4] = [0, 0, 0, 255];

#[test]
fn filled_image_reads_back_its_colour() {
    let img = RgbaImage::filled(3, 2, WHITE);
    assert_eq!(img.pixels.len(), 24);
    assert_eq!(img.get(2, 1), Some(WHITE));
    assert_eq!(img.get(3, 0), None);
    assert_eq!(img.non_white_count(), 0);
}

#[test]
fn set_then_get_round_trips() {
    let mut img = RgbaImage::filled(4, 4, WHITE);
    img.set(1, 2, BLACK);
    assert_eq!(img.get(1, 2), Some(BLACK));
    assert_eq!(img.get(2, 1), Some(WHITE));
    img.set(-1, 0, BLACK);
    img.set(4, 0, BLACK);
    assert_eq!(img.non_white_count(), 1);
}

#[test]
fn bresenham_walks_between_endpoints() {
    assert_eq!(bresenham(0, 0, 3, 1), vec![(0, 0), (1, 0), (2, 1), (3, 1)]);
    assert_eq!(bresenham(2, 2, 2, 2), vec![(2, 2)]);
    assert_eq!(bresenham(0, 0, -2, -2), vec![(0, 0), (-1, -1), (-2, -2)]);
    let pts = bresenham(5, 1, 0, 3);
    assert_eq!(pts.first(), Some(&(5, 1)));
    assert_eq!(pts.last(), Some(&(0, 3)));
    assert_eq!(pts.len(), 6);
}

#[test]
fn edge_and_point_in_triangle() {
    assert_eq!(edge((0, 0), (4, 0), (1, 2)), -8);
    assert_eq!(edge((0, 0), (4, 0), (1, -2)), 8);
    assert!(point_in_triangle((1, 1), (0, 0), (4, 0), (0, 4)));
    assert!(point_in_triangle((0, 0), (0, 0), (4, 0), (0, 4)));
    assert!(!point_in_triangle((4, 4), (0, 0), (4, 0), (0, 4)));
}

#[test]
fn fill_triangle_counts_covered_pixels() {
    let mut img = RgbaImage::filled(8, 8, WHITE);
    let n = fill_triangle(&mut img, (0, 0), (2, 0), (0, 2), BLACK);
    assert_eq!(n, 6);
    assert_eq!(img.non_white_count(), 6);
    assert_eq!(img.get(2, 0), Some(BLACK));
    assert_eq!(img.get(2, 2), Some(WHITE));
}

#[test]
fn thick_line_paints_squares_around_the_line() {
    let mut img = RgbaImage::filled(10, 10, WHITE);
    let n = draw_thick_line(&mut img, 2, 5, 6, 5, 1, BLACK);
    assert_eq!(n, 5);
    assert_eq!(img.non_white_count(), 21);
    assert_eq!(img.get(1, 4), Some(BLACK));
    assert_eq!(img.get(7, 6), Some(BLACK));
    assert_eq!(img.get(8, 5), Some(WHITE));
}

#[test]
fn renderers_report_capabilities() {
    assert_eq!(CpuRasterRenderer::new().capabilities().raster_2d, Capability::Available);
    assert_eq!(CpuRasterRenderer::new().capabilities().svg, Capability::Unsupported);
    assert_eq!(SvgRenderer::new().capabilities().svg, Capability::Available);
}

#[test]
fn xml_escape_replaces_markup_characters() {
    assert_eq!(xml_escape("a<b & \"c\" > d"), "a&lt;b &amp; &quot;c&quot; &gt; d");
    assert_eq!(xml_escape("中文"), "中文");
    assert_eq!(xml_escape(""), "");
}

#[test]
fn arena_ids_follow_insertion_order() {
    let mut arena: SceneArena<&str> = SceneArena::new();
    assert!(arena.is_empty());
    let a = arena.insert("a");
    let b = arena.insert("b");
    assert_eq!(a, NodeId(0));
    assert_eq!(b, NodeId(1));
    assert_eq!(arena.get(b).unwrap().kind, "b");
    assert_eq!(arena.get(a).unwrap().kind, "a");
    assert!(arena.get(NodeId(2)).is_none());
    assert_eq!(arena.len(), 2);
    assert_eq!(arena.nodes()[1].id, NodeId(1));
}

#[test]
fn walk_visits_leaves_in_pre_order() {
    let shapes = vec![
        NodeShape::Leaf,
        NodeShape::Leaf,
        NodeShape::Group(vec![NodeId(0), NodeId(1)]),
        NodeShape::Leaf,
        NodeShape::Group(vec![NodeId(2), NodeId(3)]),
    ];
    let order = drawable_order(&shapes, NodeId(4)).unwrap();
    assert_eq!(order, vec![NodeId(0), NodeId(1), NodeId(3)]);
    assert_eq!(drawable_order(&shapes, NodeId(3)).unwrap(), vec![NodeId(3)]);
    let empty_group = vec![NodeShape::Group(vec![])];
    assert!(drawable_order(&empty_group, NodeId(0)).unwrap().is_empty());
}

#[test]
fn walk_reports_missing_node() {
    let shapes = vec![NodeShape::Leaf, NodeShape::Group(vec![NodeId(0), NodeId(7)])];
    let err = drawable_order(&shapes, NodeId(1)).unwrap_err();
    assert_eq!(err.code, DiagnosticCode::RenderFailed);
    assert_eq!(err.message, "缺失场景节点 7");
    assert_eq!(err.params, vec![("node".to_string(), "7".to_string())]);
    let err = drawable_order(&shapes, NodeId(12)).unwrap_err();
    assert_eq!(err.message, "缺失场景节点 12");
}

#[test]
fn walk_does_not_end_on_a_cycle_of_groups() {
    let cycle = vec![NodeShape::Group(vec![NodeId(1)]), NodeShape::Group(vec![NodeId(0)])];
    assert!(!walk_ends(&cycle, NodeId(0)));
    // A missing node met before the cycle ends the walk with that error.
    let missing_first = vec![NodeShape::Group(vec![NodeId(5), NodeId(1)]), NodeShape::Group(vec![NodeId(0)])];
    assert!(walk_ends(&missing_first, NodeId(0)));
    assert_eq!(drawable_order(&missing_first, NodeId(0)).unwrap_err().message, "缺失场景节点 5");
    let tree = vec![NodeShape::Leaf, NodeShape::Group(vec![NodeId(0), NodeId(0)])];
    assert!(walk_ends(&tree, NodeId(1)));
    assert_eq!(drawable_order(&tree, NodeId(1)).unwrap(), vec![NodeId(0), NodeId(0)]);
}

#[test]
fn fill_rect_paints_exactly_the_rectangle() {
    let mut img = RgbaImage::filled(5, 4, WHITE);
    fill_rect(&mut img, 1, 1, 3, 2, BLACK);
    assert_eq!(img.non_white_count(), 6);
    assert_eq!(img.get(1, 1), Some(BLACK));
    assert_eq!(img.get(3, 2), Some(BLACK));
    assert_eq!(img.get(4, 2), Some(WHITE));
    assert_eq!(img.get(1, 3), Some(WHITE));
    let mut img = RgbaImage::filled(3, 3, WHITE);
    fill_rect(&mut img, -2, -2, 3, 3, BLACK);
    assert_eq!(img.non_white_count(), 1);
    fill_rect(&mut img, 0, 0, 0, 3, BLACK);
    assert_eq!(img.non_white_count(), 1);
}

#[test]
fn glyphs_light_scaled_cells_left_to_right() {
    // A single lit pixel in the top-left corner, then one in the bottom-right corner.
    let corner = [0x10, 0, 0, 0, 0, 0, 0];
    let last = [0, 0, 0, 0, 0, 0, 0x01];
    let mut img = RgbaImage::filled(24, 16, WHITE);
    let n = draw_glyphs(&mut img, 0, 0, &vec![corner, last], 2, BLACK);
    assert_eq!(n, 2);
    assert_eq!(img.non_white_count(), 8);
    for (x, y) in [(0, 0), (1, 0), (0, 1), (1, 1)] {
        assert_eq!(img.get(x, y), Some(BLACK));
    }
    // Second character starts 12 pixels right; its column 4, row 6 is at (12 + 8, 12).
    for (x, y) in [(20, 12), (21, 12), (20, 13), (21, 13)] {
        assert_eq!(img.get(x, y), Some(BLACK));
    }
    assert_eq!(img.get(2, 0), Some(WHITE));
}

#[test]
fn glyphs_count_characters_even_when_blank() {
    let mut img = RgbaImage::filled(8, 8, WHITE);
    assert_eq!(draw_glyphs(&mut img, 0, 0, &vec![[0; 7]; 3], 1, BLACK), 3);
    assert_eq!(img.non_white_count(), 0);
    assert_eq!(draw_glyphs(&mut img, 0, 0, &Vec::new(), 1, BLACK), 0);
}

#[test]
fn bresenham_has_one_pixel_per_step_of_the_longer_side() {
    let wide = bresenham(0, 0, 7, -3);
    assert_eq!(wide.len(), 8);
    let tall = bresenham(2, 9, -1, 0);
    assert_eq!(tall.len(), 10);
    for pts in [&wide, &tall] {
        for w in pts.windows(2) {
            assert!((w[1].0 - w[0].0).abs() <= 1 && (w[1].1 - w[0].1).abs() <= 1 && w[1] != w[0]);
        }
    }
    assert_eq!(bresenham(4, 4, 4, 4), vec![(4, 4)]);
}
