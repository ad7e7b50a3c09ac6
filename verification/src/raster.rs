//! Rendering contracts and the pixel-level CPU rasteriser: an RGBA8 image,
//! lines, thick lines and filled triangles.
use vstd::prelude::*;

verus! {

/// The state of one capability.
#[derive(Debug, Clone, Copy, PartialEq, Eq, Structural)]
pub enum Capability {
    /// Available.
    Available,
    /// Available with acceleration.
    Accelerated,
    /// Not supported.
    Unsupported,
}

/// What a renderer can do.
#[derive(Debug, Clone, Copy, PartialEq, Eq, Structural)]
pub struct RendererCapabilities {
    /// Two-dimensional raster output.
    pub raster_2d: Capability,
    /// SVG export.
    pub svg: Capability,
    /// GPU rendering.
    pub gpu: Capability,
}

/// Report of one rendered frame.
#[derive(Debug, Clone, Copy, PartialEq, Eq, Structural)]
pub struct FrameReport {
    /// Primitives drawn (polyline segments, axes, ticks and the like, counted roughly).
    pub primitive_count: u32,
}

/// The CPU reference rasteriser.
#[derive(Debug, Clone, Copy, PartialEq, Eq, Structural)]
pub struct CpuRasterRenderer {}

impl CpuRasterRenderer {
    /// A rasteriser.
    pub fn new() -> (r: CpuRasterRenderer)
        ensures
            r == (CpuRasterRenderer {}),
    {
        CpuRasterRenderer {}
    }

    /// Raster output only.
    pub fn capabilities(&self) -> (c: RendererCapabilities)
        ensures
            c == (RendererCapabilities {
                raster_2d: Capability::Available,
                svg: Capability::Unsupported,
                gpu: Capability::Unsupported,
            }),
    {
        RendererCapabilities { raster_2d: Capability::Available, svg: Capability::Unsupported, gpu: Capability::Unsupported }
    }
}

/// The SVG renderer.
#[derive(Debug, Clone, Copy, PartialEq, Eq, Structural)]
pub struct SvgRenderer {}

impl SvgRenderer {
    /// An SVG renderer.
    pub fn new() -> (r: SvgRenderer)
        ensures
            r == (SvgRenderer {}),
    {
        SvgRenderer {}
    }

    /// SVG output only.
    pub fn capabilities(&self) -> (c: RendererCapabilities)
        ensures
            c == (RendererCapabilities {
                raster_2d: Capability::Unsupported,
                svg: Capability::Available,
                gpu: Capability::Unsupported,
            }),
    {
        RendererCapabilities { raster_2d: Capability::Unsupported, svg: Capability::Available, gpu: Capability::Unsupported }
    }
}

/// An RGBA8 bitmap, row-major with the origin at the top left.
#[derive(Debug)]
pub struct RgbaImage {
    /// Width in pixels.
    pub width: u32,
    /// Height in pixels.
    pub height: u32,
    /// Pixels, four bytes each: `width * height * 4` bytes.
    pub pixels: Vec<u8>,
}

/// Opaque white.
pub open spec fn white() -> Seq<u8> {
    seq![255u8, 255u8, 255u8, 255u8]
}

/// The byte offset of pixel `(x, y)` in an image `w` wide.
pub open spec fn pixel_offset(w: int, x: int, y: int) -> int {
    (y * w + x) * 4
}

/// `pixels` with the four bytes at `i` replaced by `c`.
pub open spec fn paint(pixels: Seq<u8>, i: int, c: Seq<u8>) -> Seq<u8> {
    pixels.update(i, c[0]).update(i + 1, c[1]).update(i + 2, c[2]).update(i + 3, c[3])
}

/// The number of pixels among the first `k` that are not opaque white.
pub open spec fn non_white(pixels: Seq<u8>, k: int) -> nat
    decreases k,
{
    if k <= 0 {
        0
    } else {
        non_white(pixels, k - 1) + if pixels.subrange((k - 1) * 4, (k - 1) * 4 + 4) != white() {
            1nat
        } else {
            0nat
        }
    }
}

impl RgbaImage {
    /// The pixel buffer holds exactly `width * height` pixels.
    pub open spec fn wf(&self) -> bool {
        self.pixels@.len() == self.width * self.height * 4
    }

    /// The pixel `(x, y)` lies inside the image.
    pub open spec fn inside(&self, x: int, y: int) -> bool {
        0 <= x < self.width && 0 <= y < self.height
    }

    /// The four bytes of pixel `(x, y)`.
    pub open spec fn pixel(&self, x: int, y: int) -> Seq<u8> {
        let i = pixel_offset(self.width as int, x, y);
        self.pixels@.subrange(i, i + 4)
    }

    /// An image of `width` by `height` pixels, every pixel `color`.
    pub fn filled(width: u32, height: u32, color: [u8; 4]) -> (img: RgbaImage)
        requires
            width * height * 4 <= usize::MAX,
        ensures
            img.width == width && img.height == height,
            img.wf(),
            forall|x: int, y: int| img.inside(x, y) ==> #[trigger] img.pixel(x, y) == color@,
    {
        let total: usize = (width as usize) * (height as usize);
        let mut pixels: Vec<u8> = Vec::new();
        let mut k: usize = 0;
        while k < total
            invariant
                total == width * height,
                total * 4 <= usize::MAX,
                k <= total,
                pixels@.len() == k * 4,
                forall|q: int| 0 <= q < k * 4 ==> #[trigger] pixels@[q] == color@[q % 4],
            decreases total - k,
        {
            let ghost before = pixels@;
            pixels.push(color[0]);
            pixels.push(color[1]);
            pixels.push(color[2]);
            pixels.push(color[3]);
            proof {
                assert forall|q: int| 0 <= q < (k + 1) * 4 implies #[trigger] pixels@[q] == color@[q % 4] by {
                    if q < k * 4 {
                        assert(pixels@[q] == before[q]);
                    }
                }
            }
            k = k + 1;
        }
        let img = RgbaImage { width, height, pixels };
        proof {
            assert forall|x: int, y: int| img.inside(x, y) implies #[trigger] img.pixel(x, y) == color@ by {
                let i = pixel_offset(width as int, x, y);
                assert(y * width + x < width * height) by (nonlinear_arith)
                    requires
                        0 <= x < width,
                        0 <= y < height,
                ;
                assert(i % 4 == 0 && (i + 1) % 4 == 1 && (i + 2) % 4 == 2 && (i + 3) % 4 == 3);
                assert(img.pixel(x, y) =~= color@);
            }
        }
        img
    }

    /// The pixel `(x, y)`, or `None` outside the image.
    pub fn get(&self, x: u32, y: u32) -> (r: Option<[u8; 4]>)
        requires
            self.wf(),
        ensures
            match r {
                Some(c) => self.inside(x as int, y as int) && c@ == self.pixel(x as int, y as int),
                None => !self.inside(x as int, y as int),
            },
    {
        if x >= self.width || y >= self.height {
            return None;
        }
        proof { lemma_offset_in_range(self.width as int, self.height as int, x as int, y as int); }
        let len = self.pixels.len();
        assert((y as usize) * (self.width as usize) + (x as usize) < len / 4);
        let row: usize = (y as usize) * (self.width as usize);
        let i: usize = (row + (x as usize)) * 4;
        let c = [self.pixels[i], self.pixels[i + 1], self.pixels[i + 2], self.pixels[i + 3]];
        assert(c@ =~= self.pixel(x as int, y as int));
        Some(c)
    }

    /// Writes pixel `(x, y)`; outside the image nothing changes.
    pub fn set(&mut self, x: i32, y: i32, color: [u8; 4])
        requires
            old(self).wf(),
        ensures
            final(self).width == old(self).width,
            final(self).height == old(self).height,
            final(self).wf(),
            old(self).inside(x as int, y as int) ==> final(self).pixels@ == paint(
                old(self).pixels@,
                pixel_offset(old(self).width as int, x as int, y as int),
                color@,
            ),
            !old(self).inside(x as int, y as int) ==> final(self).pixels@ == old(self).pixels@,
    {
        if x < 0 || y < 0 {
            return;
        }
        let ux = x as u32;
        let uy = y as u32;
        if ux >= self.width || uy >= self.height {
            return;
        }
        proof { lemma_offset_in_range(self.width as int, self.height as int, x as int, y as int); }
        let len = self.pixels.len();
        assert((uy as usize) * (self.width as usize) + (ux as usize) < len / 4);
        let row: usize = (uy as usize) * (self.width as usize);
        let i: usize = (row + (ux as usize)) * 4;
        self.pixels.set(i, color[0]);
        self.pixels.set(i + 1, color[1]);
        self.pixels.set(i + 2, color[2]);
        self.pixels.set(i + 3, color[3]);
    }

    /// The number of pixels that are not opaque white.
    pub fn non_white_count(&self) -> (n: usize)
        ensures
            n == non_white(self.pixels@, self.pixels@.len() as int / 4),
    {
        let len = self.pixels.len();
        let chunks = len / 4;
        let mut n: usize = 0;
        let mut k: usize = 0;
        while k < chunks
            invariant
                len == self.pixels@.len(),
                chunks == self.pixels@.len() / 4,
                k <= chunks,
                n == non_white(self.pixels@, k as int),
                n <= k,
            decreases chunks - k,
        {
            assert(k * 4 + 4 <= len) by (nonlinear_arith)
                requires
                    k < chunks,
                    chunks == len / 4,
            ;
            let i = k * 4;
            let px = [self.pixels[i], self.pixels[i + 1], self.pixels[i + 2], self.pixels[i + 3]];
            let ghost chunk = self.pixels@.subrange(i as int, i + 4);
            assert(px@ =~= chunk);
            if !(px[0] == 255 && px[1] == 255 && px[2] == 255 && px[3] == 255) {
                assert(chunk != white()) by {
                    if chunk == white() {
                        assert(chunk[0] == 255u8 && chunk[1] == 255u8 && chunk[2] == 255u8 && chunk[3] == 255u8);
                    }
                }
                n = n + 1;
            } else {
                assert(chunk =~= white());
            }
            k = k + 1;
        }
        n
    }
}

proof fn lemma_offset_in_range(w: int, h: int, x: int, y: int)
    requires
        0 <= x < w,
        0 <= y < h,
    ensures
        0 <= y * w + x,
        y * w + x < w * h,
        (y * w + x) * 4 + 4 <= w * h * 4,
{
    assert(y * w + x < w * h) by (nonlinear_arith)
        requires
            0 <= x < w,
            0 <= y < h,
    ;
    assert(0 <= y * w) by (nonlinear_arith)
        requires
            0 <= y,
            0 <= x < w,
    ;
}

/// Distinct pixels of an image have disjoint bytes.
proof fn lemma_offsets_apart(w: int, h: int, x: int, y: int, x2: int, y2: int)
    requires
        0 <= x < w,
        0 <= y < h,
        0 <= x2 < w,
        0 <= y2 < h,
        x != x2 || y != y2,
    ensures
        y * w + x != y2 * w + x2,
{
    if y == y2 {
    } else if y < y2 {
        assert(y * w + x < y2 * w + x2) by (nonlinear_arith)
            requires
                y < y2,
                0 <= x < w,
                0 <= x2,
        ;
    } else {
        assert(y2 * w + x2 < y * w + x) by (nonlinear_arith)
            requires
                y2 < y,
                0 <= x2 < w,
                0 <= x,
        ;
    }
}

/// Reading a pixel gives what the last write to it wrote, and a write leaves
/// every other pixel as it was.
pub proof fn set_then_get(before: RgbaImage, after: RgbaImage, x: int, y: int, color: Seq<u8>, qx: int, qy: int)
    requires
        before.wf(),
        color.len() == 4,
        after.width == before.width,
        after.height == before.height,
        before.inside(x, y) ==> after.pixels@ == paint(before.pixels@, pixel_offset(before.width as int, x, y), color),
        !before.inside(x, y) ==> after.pixels@ == before.pixels@,
        before.inside(qx, qy),
    ensures
        (qx == x && qy == y) ==> after.pixel(qx, qy) == color,
        (qx != x || qy != y) ==> after.pixel(qx, qy) == before.pixel(qx, qy),
{
    let w = before.width as int;
    let h = before.height as int;
    lemma_offset_in_range(w, h, qx, qy);
    if before.inside(x, y) {
        lemma_offset_in_range(w, h, x, y);
        if qx == x && qy == y {
            assert(after.pixel(qx, qy) =~= color);
        } else {
            lemma_offsets_apart(w, h, x, y, qx, qy);
            assert(after.pixel(qx, qy) =~= before.pixel(qx, qy));
        }
    }
}

/// The render target.
#[derive(Debug)]
pub enum RenderTarget {
    /// CPU bitmap.
    Rgba8(RgbaImage),
    /// SVG document text.
    Svg(String),
}

/// The edge function of `p` against the directed edge `a -> b`: twice the
/// signed area of the triangle `a, b, p`.
pub open spec fn edge_value(a: (i32, i32), b: (i32, i32), p: (i32, i32)) -> int {
    (p.0 - a.0) * (b.1 - a.1) - (p.1 - a.1) * (b.0 - a.0)
}

/// The edge function and every intermediate of computing it fit in an `i32`.
pub open spec fn edge_fits(a: (i32, i32), b: (i32, i32), p: (i32, i32)) -> bool {
    let d0 = p.0 - a.0;
    let d1 = b.1 - a.1;
    let d2 = p.1 - a.1;
    let d3 = b.0 - a.0;
    &&& i32::MIN <= d0 <= i32::MAX && i32::MIN <= d1 <= i32::MAX
    &&& i32::MIN <= d2 <= i32::MAX && i32::MIN <= d3 <= i32::MAX
    &&& i32::MIN <= d0 * d1 <= i32::MAX && i32::MIN <= d2 * d3 <= i32::MAX
    &&& i32::MIN <= edge_value(a, b, p) <= i32::MAX
}

/// The edge function of `p` against `a -> b`.
pub fn edge(a: (i32, i32), b: (i32, i32), p: (i32, i32)) -> (e: i32)
    requires
        edge_fits(a, b, p),
    ensures
        e == edge_value(a, b, p),
{
    (p.0 - a.0) * (b.1 - a.1) - (p.1 - a.1) * (b.0 - a.0)
}

/// `p` lies in the closed triangle `a, b, c`: its three edge values do not
/// take both signs (either winding counts; a degenerate triangle holds the
/// points of its hull).
pub open spec fn in_triangle(p: (i32, i32), a: (i32, i32), b: (i32, i32), c: (i32, i32)) -> bool {
    let ab = edge_value(a, b, p);
    let bc = edge_value(b, c, p);
    let ca = edge_value(c, a, p);
    !((ab < 0 || bc < 0 || ca < 0) && (ab > 0 || bc > 0 || ca > 0))
}

/// Whether a point lies in a triangle does not depend on the order in which the
/// vertices are given: reversing the winding or rotating the vertices keeps
/// the answer, a point strictly on the inner side of all three edges lies in
/// the triangle for either winding, and the pixels `fill_triangle` covers are
/// the same for either winding.
pub proof fn in_triangle_ignores_vertex_order(p: (i32, i32), a: (i32, i32), b: (i32, i32), c: (i32, i32), x: int, y: int)
    ensures
        in_triangle(p, a, b, c) == in_triangle(p, a, c, b),
        in_triangle(p, a, b, c) == in_triangle(p, b, c, a),
        edge_value(a, b, p) > 0 && edge_value(b, c, p) > 0 && edge_value(c, a, p) > 0 ==> in_triangle(p, a, b, c)
            && in_triangle(p, a, c, b),
        edge_value(a, b, p) < 0 && edge_value(b, c, p) < 0 && edge_value(c, a, p) < 0 ==> in_triangle(p, a, b, c)
            && in_triangle(p, a, c, b),
        covered(a, b, c, x, y) == covered(a, c, b, x, y),
{
    lemma_edge_reversed(a, b, p);
    lemma_edge_reversed(b, c, p);
    lemma_edge_reversed(c, a, p);
    let q = (x as i32, y as i32);
    lemma_edge_reversed(a, b, q);
    lemma_edge_reversed(b, c, q);
    lemma_edge_reversed(c, a, q);
}

/// Walking an edge the other way negates its edge value.
proof fn lemma_edge_reversed(a: (i32, i32), b: (i32, i32), p: (i32, i32))
    ensures
        edge_value(b, a, p) == -edge_value(a, b, p),
{
    let (a0, a1, b0, b1, p0, p1) = (a.0 as int, a.1 as int, b.0 as int, b.1 as int, p.0 as int, p.1 as int);
    assert((p0 - b0) * (a1 - b1) - (p1 - b1) * (a0 - b0) == -((p0 - a0) * (b1 - a1) - (p1 - a1) * (b0 - a0)))
        by (nonlinear_arith);
}

/// The three edge values of `p` can be computed.
pub open spec fn triangle_fits(p: (i32, i32), a: (i32, i32), b: (i32, i32), c: (i32, i32)) -> bool {
    edge_fits(a, b, p) && edge_fits(b, c, p) && edge_fits(c, a, p)
}

/// Whether `p` lies in the closed triangle `a, b, c`.
pub fn point_in_triangle(p: (i32, i32), a: (i32, i32), b: (i32, i32), c: (i32, i32)) -> (r: bool)
    requires
        triangle_fits(p, a, b, c),
    ensures
        r == in_triangle(p, a, b, c),
{
    let ab = edge(a, b, p);
    let bc = edge(b, c, p);
    let ca = edge(c, a, p);
    let has_neg = ab < 0 || bc < 0 || ca < 0;
    let has_pos = ab > 0 || bc > 0 || ca > 0;
    !(has_neg && has_pos)
}

/// The smaller of two integers.
pub open spec fn min2(a: int, b: int) -> int {
    if a <= b { a } else { b }
}

/// The larger of two integers.
pub open spec fn max2(a: int, b: int) -> int {
    if a >= b { a } else { b }
}

/// The bounding box of a triangle: `(min_x, max_x, min_y, max_y)`.
pub open spec fn bbox(a: (i32, i32), b: (i32, i32), c: (i32, i32)) -> (int, int, int, int) {
    (
        min2(min2(a.0 as int, b.0 as int), c.0 as int),
        max2(max2(a.0 as int, b.0 as int), c.0 as int),
        min2(min2(a.1 as int, b.1 as int), c.1 as int),
        max2(max2(a.1 as int, b.1 as int), c.1 as int),
    )
}

/// `(x, y)` is a pixel of the bounding box that lies in the triangle.
pub open spec fn covered(a: (i32, i32), b: (i32, i32), c: (i32, i32), x: int, y: int) -> bool {
    let bx = bbox(a, b, c);
    &&& bx.0 <= x <= bx.1
    &&& bx.2 <= y <= bx.3
    &&& in_triangle((x as i32, y as i32), a, b, c)
}

/// The number of covered pixels in row `y` with `x` below `xe`, from the box's left edge.
pub open spec fn row_count(a: (i32, i32), b: (i32, i32), c: (i32, i32), y: int, xe: int) -> nat
    decreases xe - bbox(a, b, c).0,
{
    if xe <= bbox(a, b, c).0 {
        0
    } else {
        row_count(a, b, c, y, xe - 1) + if covered(a, b, c, xe - 1, y) { 1nat } else { 0nat }
    }
}

/// The number of covered pixels in the rows below `ye`, from the box's top edge.
pub open spec fn box_count(a: (i32, i32), b: (i32, i32), c: (i32, i32), ye: int) -> nat
    decreases ye - bbox(a, b, c).2,
{
    if ye <= bbox(a, b, c).2 {
        0
    } else {
        box_count(a, b, c, ye - 1) + row_count(a, b, c, ye - 1, bbox(a, b, c).1 + 1)
    }
}

/// Every pixel of the bounding box can be tested.
pub open spec fn fill_fits(a: (i32, i32), b: (i32, i32), c: (i32, i32)) -> bool {
    let bx = bbox(a, b, c);
    forall|x: int, y: int|
        bx.0 <= x <= bx.1 && bx.2 <= y <= bx.3 ==> #[trigger] triangle_fits((x as i32, y as i32), a, b, c)
}

/// What the image shows after a region was painted with `color`: painted
/// pixels have the colour, others are as before.
pub open spec fn painted_with(
    before: Seq<u8>,
    after: Seq<u8>,
    w: int,
    h: int,
    color: Seq<u8>,
    region: spec_fn(int, int) -> bool,
) -> bool {
    forall|x: int, y: int|
        0 <= x < w && 0 <= y < h ==> #[trigger] after.subrange(pixel_offset(w, x, y), pixel_offset(w, x, y) + 4)
            == if region(x, y) {
            color
        } else {
            before.subrange(pixel_offset(w, x, y), pixel_offset(w, x, y) + 4)
        }
}

/// One `set` inside the image adds its pixel to a painted region.
pub(crate) proof fn lemma_paint_step(
    before: Seq<u8>,
    mid: Seq<u8>,
    after: Seq<u8>,
    w: int,
    h: int,
    color: Seq<u8>,
    region: spec_fn(int, int) -> bool,
    next: spec_fn(int, int) -> bool,
    px: int,
    py: int,
)
    requires
        w >= 0,
        h >= 0,
        color.len() == 4,
        mid.len() == w * h * 4,
        before.len() == w * h * 4,
        painted_with(before, mid, w, h, color, region),
        0 <= px < w && 0 <= py < h ==> after == paint(mid, pixel_offset(w, px, py), color),
        !(0 <= px < w && 0 <= py < h) ==> after == mid,
        forall|x: int, y: int| #[trigger] next(x, y) == (region(x, y) || (x == px && y == py)),
    ensures
        painted_with(before, after, w, h, color, next),
{
    assert forall|x: int, y: int| 0 <= x < w && 0 <= y < h implies #[trigger] after.subrange(
        pixel_offset(w, x, y),
        pixel_offset(w, x, y) + 4,
    ) == if next(x, y) {
        color
    } else {
        before.subrange(pixel_offset(w, x, y), pixel_offset(w, x, y) + 4)
    } by {
        lemma_offset_in_range(w, h, x, y);
        let o = pixel_offset(w, x, y);
        assert(mid.subrange(o, o + 4) == if region(x, y) { color } else { before.subrange(o, o + 4) });
        if 0 <= px < w && 0 <= py < h {
            lemma_offset_in_range(w, h, px, py);
            if x == px && y == py {
                assert(after.subrange(o, o + 4) =~= color);
            } else {
                lemma_offsets_apart(w, h, px, py, x, y);
                assert(after.subrange(o, o + 4) =~= mid.subrange(o, o + 4));
            }
        }
    }
}

/// Fills the triangle `a, b, c`: every pixel of its bounding box that lies in
/// it takes `color`. Returns the number of such pixels (inside the image or not).
pub fn fill_triangle(image: &mut RgbaImage, a: (i32, i32), b: (i32, i32), c: (i32, i32), color: [u8; 4]) -> (n: u32)
    requires
        old(image).wf(),
        fill_fits(a, b, c),
        box_count(a, b, c, bbox(a, b, c).3 + 1) <= u32::MAX,
    ensures
        final(image).width == old(image).width,
        final(image).height == old(image).height,
        final(image).wf(),
        n == box_count(a, b, c, bbox(a, b, c).3 + 1),
        painted_with(
            old(image).pixels@,
            final(image).pixels@,
            old(image).width as int,
            old(image).height as int,
            color@,
            |x: int, y: int| covered(a, b, c, x, y),
        ),
{
    let min_x = if a.0 <= b.0 { a.0 } else { b.0 };
    let min_x = if min_x <= c.0 { min_x } else { c.0 };
    let max_x = if a.0 >= b.0 { a.0 } else { b.0 };
    let max_x = if max_x >= c.0 { max_x } else { c.0 };
    let min_y = if a.1 <= b.1 { a.1 } else { b.1 };
    let min_y = if min_y <= c.1 { min_y } else { c.1 };
    let max_y = if a.1 >= b.1 { a.1 } else { b.1 };
    let max_y = if max_y >= c.1 { max_y } else { c.1 };
    let ghost w = image.width as int;
    let ghost h = image.height as int;
    let ghost start = image.pixels@;
    let ghost bx = bbox(a, b, c);
    assert(bx == (min_x as int, max_x as int, min_y as int, max_y as int));
    let mut count: u32 = 0;
    let mut y: i64 = min_y as i64;
    proof {
        assert(painted_with(start, image.pixels@, w, h, color@, |x: int, yy: int| covered(a, b, c, x, yy) && yy < min_y)) by {
            assert forall|x: int, yy: int| 0 <= x < w && 0 <= yy < h implies #[trigger] image.pixels@.subrange(
                pixel_offset(w, x, yy),
                pixel_offset(w, x, yy) + 4,
            ) == start.subrange(pixel_offset(w, x, yy), pixel_offset(w, x, yy) + 4) by {}
        }
    }
    while y <= max_y as i64
        invariant
            image.wf(),
            image.width == w,
            image.height == h,
            start.len() == w * h * 4,
            bx == (min_x as int, max_x as int, min_y as int, max_y as int),
            bx == bbox(a, b, c),
            fill_fits(a, b, c),
            box_count(a, b, c, bx.3 + 1) <= u32::MAX,
            min_y <= y <= max_y as i64 + 1,
            count == box_count(a, b, c, y as int),
            painted_with(start, image.pixels@, w, h, color@, |x: int, yy: int| covered(a, b, c, x, yy) && yy < y),
        decreases max_y as i64 + 1 - y,
    {
        let mut x: i64 = min_x as i64;
        proof {
            lemma_box_count_mono(a, b, c, y as int + 1, bx.3 + 1);
            assert(painted_with(start, image.pixels@, w, h, color@, |xx: int, yy: int| covered(a, b, c, xx, yy) && (yy < y || (yy == y && xx < x)))) by {
                assert forall|xx: int, yy: int| 0 <= xx < w && 0 <= yy < h implies #[trigger] image.pixels@.subrange(
                    pixel_offset(w, xx, yy),
                    pixel_offset(w, xx, yy) + 4,
                ) == if covered(a, b, c, xx, yy) && (yy < y || (yy == y && xx < x)) {
                    color@
                } else {
                    start.subrange(pixel_offset(w, xx, yy), pixel_offset(w, xx, yy) + 4)
                } by {
                    assert(covered(a, b, c, xx, yy) && yy < y <==> covered(a, b, c, xx, yy) && (yy < y || (yy == y && xx < x)));
                }
            }
        }
        while x <= max_x as i64
            invariant
                image.wf(),
                image.width == w,
                image.height == h,
                start.len() == w * h * 4,
                bx == (min_x as int, max_x as int, min_y as int, max_y as int),
                bx == bbox(a, b, c),
                fill_fits(a, b, c),
                min_y <= y <= max_y,
                min_x <= x <= max_x as i64 + 1,
                box_count(a, b, c, y as int + 1) <= u32::MAX,
                count == box_count(a, b, c, y as int) + row_count(a, b, c, y as int, x as int),
                painted_with(
                    start,
                    image.pixels@,
                    w,
                    h,
                    color@,
                    |xx: int, yy: int| covered(a, b, c, xx, yy) && (yy < y || (yy == y && xx < x)),
                ),
            decreases max_x as i64 + 1 - x,
        {
            let xi = x as i32;
            let yi = y as i32;
            assert(triangle_fits((xi, yi), a, b, c));
            let ghost mid = image.pixels@;
            if point_in_triangle((xi, yi), a, b, c) {
                proof {
                    lemma_row_count_mono(a, b, c, y as int, x as int + 1, bx.1 + 1);
                    assert(box_count(a, b, c, y as int + 1) == box_count(a, b, c, y as int) + row_count(
                        a,
                        b,
                        c,
                        y as int,
                        bx.1 + 1,
                    ));
                }
                image.set(xi, yi, color);
                count = count + 1;
            }
            proof {
                let region = |xx: int, yy: int| covered(a, b, c, xx, yy) && (yy < y || (yy == y && xx < x));
                let next = |xx: int, yy: int| covered(a, b, c, xx, yy) && (yy < y || (yy == y && xx < x + 1));
                if covered(a, b, c, x as int, y as int) {
                    lemma_paint_step(start, mid, image.pixels@, w, h, color@, region, next, x as int, y as int);
                } else {
                    assert forall|xx: int, yy: int| 0 <= xx < w && 0 <= yy < h implies #[trigger] image.pixels@.subrange(
                        pixel_offset(w, xx, yy),
                        pixel_offset(w, xx, yy) + 4,
                    ) == if next(xx, yy) {
                        color@
                    } else {
                        start.subrange(pixel_offset(w, xx, yy), pixel_offset(w, xx, yy) + 4)
                    } by {
                        assert(next(xx, yy) == region(xx, yy));
                    }
                }
            }
            x = x + 1;
        }
        proof {
            assert forall|xx: int, yy: int| 0 <= xx < w && 0 <= yy < h implies #[trigger] image.pixels@.subrange(
                pixel_offset(w, xx, yy),
                pixel_offset(w, xx, yy) + 4,
            ) == if covered(a, b, c, xx, yy) && yy < y + 1 {
                color@
            } else {
                start.subrange(pixel_offset(w, xx, yy), pixel_offset(w, xx, yy) + 4)
            } by {
                assert(covered(a, b, c, xx, yy) && (yy < y || (yy == y && xx < max_x as i64 + 1)) <==> covered(
                    a,
                    b,
                    c,
                    xx,
                    yy,
                ) && yy < y + 1);
            }
        }
        y = y + 1;
    }
    proof {
        assert forall|xx: int, yy: int| 0 <= xx < w && 0 <= yy < h implies #[trigger] image.pixels@.subrange(
            pixel_offset(w, xx, yy),
            pixel_offset(w, xx, yy) + 4,
        ) == if covered(a, b, c, xx, yy) {
            color@
        } else {
            start.subrange(pixel_offset(w, xx, yy), pixel_offset(w, xx, yy) + 4)
        } by {
            assert(covered(a, b, c, xx, yy) && yy < max_y as i64 + 1 <==> covered(a, b, c, xx, yy));
        }
    }
    count
}

proof fn lemma_row_count_mono(a: (i32, i32), b: (i32, i32), c: (i32, i32), y: int, x1: int, x2: int)
    requires
        x1 <= x2,
    ensures
        row_count(a, b, c, y, x1) <= row_count(a, b, c, y, x2),
    decreases x2 - x1,
{
    if x1 < x2 {
        lemma_row_count_mono(a, b, c, y, x1, x2 - 1);
    }
}

proof fn lemma_box_count_mono(a: (i32, i32), b: (i32, i32), c: (i32, i32), y1: int, y2: int)
    requires
        y1 <= y2,
    ensures
        box_count(a, b, c, y1) <= box_count(a, b, c, y2),
    decreases y2 - y1,
{
    if y1 < y2 {
        lemma_box_count_mono(a, b, c, y1, y2 - 1);
    }
}

/// The error term of the stepping rule after `i` steps along x and `j` along y,
/// for a line that spans `a` pixels across and `b` down.
pub open spec fn step_error(a: int, b: int, i: int, j: int) -> int {
    a * (1 + j) - b * (1 + i)
}

/// One step of the stepping rule: along x when twice the error is at least
/// `-b`, along y when it is at most `a` (both when both hold).
pub open spec fn line_step(a: int, b: int, i: int, j: int) -> (int, int) {
    let e2 = 2 * step_error(a, b, i, j);
    (if e2 >= -b { i + 1 } else { i }, if e2 <= a { j + 1 } else { j })
}

/// The steps `(i, j)` the stepping rule visits from `(i, j)` to `(a, b)`.
pub open spec fn line_walk(a: int, b: int, i: int, j: int) -> Seq<(int, int)>
    decreases (a - i) + (b - j),
{
    if (i == a && j == b) || i > a || j > b || i < 0 || j < 0 {
        seq![(i, j)]
    } else {
        let n = line_step(a, b, i, j);
        if n.0 + n.1 > i + j && n.0 <= a && n.1 <= b {
            seq![(i, j)] + line_walk(a, b, n.0, n.1)
        } else {
            seq![(i, j)]
        }
    }
}

/// The pixel reached after `s.0` steps along x and `s.1` along y from `(x0, y0)` towards `(x1, y1)`.
pub open spec fn line_pixel(x0: i32, y0: i32, x1: i32, y1: i32, s: (int, int)) -> (i32, i32) {
    (
        (if x0 < x1 { x0 + s.0 } else { x0 - s.0 }) as i32,
        (if y0 < y1 { y0 + s.1 } else { y0 - s.1 }) as i32,
    )
}

/// Horizontal extent of a line.
pub open spec fn span(p: i32, q: i32) -> int {
    if p <= q { q - p } else { p - q }
}

/// The pixels of the line from `(x0, y0)` to `(x1, y1)` by Bresenham's rule.
pub open spec fn line_pixels(x0: i32, y0: i32, x1: i32, y1: i32) -> Seq<(i32, i32)> {
    line_walk(span(x0, x1), span(y0, y1), 0, 0).map_values(|s: (int, int)| line_pixel(x0, y0, x1, y1, s))
}

/// From inside the box, a step moves at least one way and never past `(a, b)`.
proof fn lemma_step_ok(a: int, b: int, i: int, j: int)
    requires
        0 <= i <= a,
        0 <= j <= b,
        !(i == a && j == b),
    ensures
        line_step(a, b, i, j).0 + line_step(a, b, i, j).1 > i + j,
        line_step(a, b, i, j).0 <= a,
        line_step(a, b, i, j).1 <= b,
{
    let e = step_error(a, b, i, j);
    if i == a {
        assert(2 * e < -b) by (nonlinear_arith)
            requires
                e == a * (1 + j) - b * (1 + i),
                i == a,
                0 <= j < b,
                a >= 0,
        ;
    }
    if j == b {
        assert(2 * e > a) by (nonlinear_arith)
            requires
                e == a * (1 + j) - b * (1 + i),
                j == b,
                0 <= i < a,
                b >= 0,
        ;
    }
}

/// The walk starts where it is asked to, ends at `(a, b)`, has at most
/// `(a - i) + (b - j) + 1` points, and each step moves by one along x, along y, or both.
proof fn lemma_walk(a: int, b: int, i: int, j: int)
    requires
        0 <= i <= a,
        0 <= j <= b,
    ensures
        line_walk(a, b, i, j)[0] == (i, j),
        line_walk(a, b, i, j).last() == (a, b),
        1 <= line_walk(a, b, i, j).len() <= (a - i) + (b - j) + 1,
        forall|k: int| #![trigger line_walk(a, b, i, j)[k]]
            0 <= k < line_walk(a, b, i, j).len() ==> 0 <= line_walk(a, b, i, j)[k].0 <= a && 0 <= line_walk(a, b, i, j)[k].1 <= b,
        forall|k: int| #![trigger line_walk(a, b, i, j)[k + 1]]
            0 <= k < line_walk(a, b, i, j).len() - 1 ==> {
                let p = line_walk(a, b, i, j)[k];
                let q = line_walk(a, b, i, j)[k + 1];
                &&& q == line_step(a, b, p.0, p.1)
                &&& (q.0 == p.0 || q.0 == p.0 + 1) && (q.1 == p.1 || q.1 == p.1 + 1)
                &&& q.0 + q.1 > p.0 + p.1
            },
    decreases (a - i) + (b - j),
{
    if !(i == a && j == b) {
        lemma_step_ok(a, b, i, j);
        let n = line_step(a, b, i, j);
        lemma_walk(a, b, n.0, n.1);
        let rest = line_walk(a, b, n.0, n.1);
        let w = line_walk(a, b, i, j);
        assert(w == seq![(i, j)] + rest);
        assert forall|k: int| #![trigger w[k + 1]] 0 <= k < w.len() - 1 implies {
            let p = w[k];
            let q = w[k + 1];
            &&& q == line_step(a, b, p.0, p.1)
            &&& (q.0 == p.0 || q.0 == p.0 + 1) && (q.1 == p.1 || q.1 == p.1 + 1)
            &&& q.0 + q.1 > p.0 + p.1
        } by {
            if k == 0 {
                assert(w[1] == rest[0]);
            } else {
                assert(w[k] == rest[k - 1]);
                assert(w[k + 1] == rest[(k - 1) + 1]);
            }
        }
        assert forall|k: int| #![trigger w[k]] 0 <= k < w.len() implies 0 <= w[k].0 <= a && 0 <= w[k].1 <= b by {
            if k > 0 {
                assert(w[k] == rest[k - 1]);
            }
        }
    }
}

/// The larger of the two extents of a line.
pub open spec fn major_span(x0: i32, y0: i32, x1: i32, y1: i32) -> int {
    if span(x0, x1) >= span(y0, y1) {
        span(x0, x1)
    } else {
        span(y0, y1)
    }
}

/// When the line is at least as wide as it is tall, every step of the walk
/// moves along x, so the walk has one point per column.
proof fn lemma_walk_len_wide(a: int, b: int, i: int, j: int)
    requires
        0 <= b <= a,
        0 <= i <= a,
        0 <= j <= b,
        2 * step_error(a, b, i, j) >= -b,
    ensures
        line_walk(a, b, i, j).len() == a - i + 1,
    decreases a - i,
{
    if !(i == a && j == b) {
        lemma_step_ok(a, b, i, j);
        let e = step_error(a, b, i, j);
        let n = line_step(a, b, i, j);
        assert(n.0 == i + 1);
        assert(step_error(a, b, i + 1, j) == e - b) by (nonlinear_arith)
            requires
                e == a * (1 + j) - b * (1 + i),
        ;
        assert(step_error(a, b, i + 1, j + 1) == e - b + a) by (nonlinear_arith)
            requires
                e == a * (1 + j) - b * (1 + i),
        ;
        lemma_walk_len_wide(a, b, n.0, n.1);
    }
}

/// When the line is at least as tall as it is wide, every step of the walk
/// moves along y, so the walk has one point per row.
proof fn lemma_walk_len_tall(a: int, b: int, i: int, j: int)
    requires
        0 <= a <= b,
        0 <= i <= a,
        0 <= j <= b,
        2 * step_error(a, b, i, j) <= a,
    ensures
        line_walk(a, b, i, j).len() == b - j + 1,
    decreases b - j,
{
    if !(i == a && j == b) {
        lemma_step_ok(a, b, i, j);
        let e = step_error(a, b, i, j);
        let n = line_step(a, b, i, j);
        assert(n.1 == j + 1);
        assert(step_error(a, b, i, j + 1) == e + a) by (nonlinear_arith)
            requires
                e == a * (1 + j) - b * (1 + i),
        ;
        assert(step_error(a, b, i + 1, j + 1) == e - b + a) by (nonlinear_arith)
            requires
                e == a * (1 + j) - b * (1 + i),
        ;
        lemma_walk_len_tall(a, b, n.0, n.1);
    }
}

/// The pixels of a line: one per step along its larger extent, each one pixel
/// away from the one before (along x, y or both, towards the end).
proof fn lemma_line_pixels_steps(x0: i32, y0: i32, x1: i32, y1: i32)
    ensures
        line_pixels(x0, y0, x1, y1).len() == major_span(x0, y0, x1, y1) + 1,
        forall|k: int|
            0 <= k < line_pixels(x0, y0, x1, y1).len() - 1 ==> {
                let p = #[trigger] line_pixels(x0, y0, x1, y1)[k];
                let q = line_pixels(x0, y0, x1, y1)[k + 1];
                &&& (q.0 == p.0 || q.0 == p.0 + (if x0 < x1 { 1int } else { -1int }))
                &&& (q.1 == p.1 || q.1 == p.1 + (if y0 < y1 { 1int } else { -1int }))
                &&& q != p
            },
{
    let a = span(x0, x1);
    let b = span(y0, y1);
    assert(step_error(a, b, 0, 0) == a - b) by (nonlinear_arith);
    if a >= b {
        lemma_walk_len_wide(a, b, 0, 0);
    } else {
        lemma_walk_len_tall(a, b, 0, 0);
    }
    lemma_walk(a, b, 0, 0);
    let w = line_walk(a, b, 0, 0);
    let px = line_pixels(x0, y0, x1, y1);
    assert forall|k: int| 0 <= k < px.len() - 1 implies {
        let p = #[trigger] px[k];
        let q = px[k + 1];
        &&& (q.0 == p.0 || q.0 == p.0 + (if x0 < x1 { 1int } else { -1int }))
        &&& (q.1 == p.1 || q.1 == p.1 + (if y0 < y1 { 1int } else { -1int }))
        &&& q != p
    } by {
        let s = w[k];
        let t = w[k + 1];
        assert(0 <= s.0 <= a && 0 <= s.1 <= b);
        assert(0 <= t.0 <= a && 0 <= t.1 <= b);
        assert((t.0 == s.0 || t.0 == s.0 + 1) && (t.1 == s.1 || t.1 == s.1 + 1) && t.0 + t.1 > s.0 + s.1);
        assert(px[k] == line_pixel(x0, y0, x1, y1, s));
        assert(px[k + 1] == line_pixel(x0, y0, x1, y1, t));
        let sx: int = if x0 < x1 { x0 + s.0 } else { x0 - s.0 };
        let tx: int = if x0 < x1 { x0 + t.0 } else { x0 - t.0 };
        let sy: int = if y0 < y1 { y0 + s.1 } else { y0 - s.1 };
        let ty: int = if y0 < y1 { y0 + t.1 } else { y0 - t.1 };
        assert(i32::MIN <= sx <= i32::MAX && i32::MIN <= tx <= i32::MAX);
        assert(i32::MIN <= sy <= i32::MAX && i32::MIN <= ty <= i32::MAX);
        assert(px[k].0 == sx && px[k + 1].0 == tx);
        assert(px[k].1 == sy && px[k + 1].1 == ty);
    }
}

/// The pixels of the line from `(x0, y0)` to `(x1, y1)` by Bresenham's rule:
/// the first is the start, the last the end, and each is a neighbour (one
/// step along x, y or both, towards the end) of the one before.
pub fn bresenham(x0: i32, y0: i32, x1: i32, y1: i32) -> (points: Vec<(i32, i32)>)
    ensures
        points@ == line_pixels(x0, y0, x1, y1),
        points@[0] == (x0, y0),
        points@.last() == (x1, y1),
        points@.len() == major_span(x0, y0, x1, y1) + 1,
        forall|k: int|
            0 <= k < points@.len() - 1 ==> {
                let p = #[trigger] points@[k];
                let q = points@[k + 1];
                &&& (q.0 == p.0 || q.0 == p.0 + (if x0 < x1 { 1int } else { -1int }))
                &&& (q.1 == p.1 || q.1 == p.1 + (if y0 < y1 { 1int } else { -1int }))
                &&& q != p
            },
{
    let ghost a = span(x0, x1);
    let ghost b = span(y0, y1);
    let dx: i64 = if x0 <= x1 { x1 as i64 - x0 as i64 } else { x0 as i64 - x1 as i64 };
    let sx: i64 = if x0 < x1 { 1 } else { -1 };
    let dy: i64 = if y0 <= y1 { -(y1 as i64 - y0 as i64) } else { -(y0 as i64 - y1 as i64) };
    let sy: i64 = if y0 < y1 { 1 } else { -1 };
    let mut err: i64 = dx + dy;
    let mut x: i64 = x0 as i64;
    let mut y: i64 = y0 as i64;
    let ghost mut i: int = 0;
    let ghost mut j: int = 0;
    let ghost full = line_walk(a, b, 0, 0);
    let ghost mut done: Seq<(int, int)> = Seq::empty();
    let mut points: Vec<(i32, i32)> = Vec::new();
    proof {
        lemma_walk(a, b, 0, 0);
        assert(step_error(a, b, 0, 0) == a - b) by (nonlinear_arith);
        assert(-3 * b <= 2 * (a - b) <= 3 * a);
    }
    while !(x == x1 as i64 && y == y1 as i64)
        invariant
            a == span(x0, x1),
            b == span(y0, y1),
            dx == a,
            dy == -b,
            sx == (if x0 < x1 { 1int } else { -1int }),
            sy == (if y0 < y1 { 1int } else { -1int }),
            0 <= i <= a,
            0 <= j <= b,
            x == (if x0 < x1 { x0 + i } else { x0 - i }),
            y == (if y0 < y1 { y0 + j } else { y0 - j }),
            err == step_error(a, b, i, j),
            -3 * b <= 2 * err <= 3 * a,
            full == line_walk(a, b, 0, 0),
            full == done + line_walk(a, b, i, j),
            done.len() <= i + j,
            points@ == done.map_values(|s: (int, int)| line_pixel(x0, y0, x1, y1, s)),
        decreases (a - i) + (b - j),
    {
        proof {
            if i == a && j == b {
                assert(x == x1 && y == y1);
            }
            lemma_step_ok(a, b, i, j);
            lemma_walk(a, b, i, j);
        }
        let ghost here = (i, j);
        let ghost nxt = line_step(a, b, i, j);
        assert(line_walk(a, b, i, j) == seq![here] + line_walk(a, b, nxt.0, nxt.1));
        points.push((x as i32, y as i32));
        proof {
            assert(full =~= done.push(here) + line_walk(a, b, nxt.0, nxt.1));
            done = done.push(here);
            assert(points@ =~= done.map_values(|s: (int, int)| line_pixel(x0, y0, x1, y1, s)));
        }
        let e2 = 2 * err;
        if e2 >= dy {
            err = err + dy;
            x = x + sx;
            proof { i = i + 1; }
        }
        if e2 <= dx {
            err = err + dx;
            y = y + sy;
            proof { j = j + 1; }
        }
        proof {
            assert((i, j) == nxt);
            assert(err == step_error(a, b, i, j)) by (nonlinear_arith)
                requires
                    err == step_error(a, b, here.0, here.1) + (if i == here.0 + 1 { -b } else { 0 }) + (if j == here.1
                        + 1 { a } else { 0 }),
                    i == here.0 || i == here.0 + 1,
                    j == here.1 || j == here.1 + 1,
            ;
        }
    }
    proof {
        assert(i == a && j == b) by {
            if x0 < x1 {
            } else if x0 > x1 {
            }
        }
        lemma_walk(a, b, i, j);
        assert(line_walk(a, b, i, j) == seq![(i, j)]);
    }
    points.push((x as i32, y as i32));
    proof {
        assert(full =~= done.push((i, j)));
        done = done.push((i, j));
        assert(points@ =~= done.map_values(|s: (int, int)| line_pixel(x0, y0, x1, y1, s)));
        lemma_walk(a, b, 0, 0);
        assert(line_pixel(x0, y0, x1, y1, full[0]) == (x0, y0));
        assert(line_pixel(x0, y0, x1, y1, full.last()) == (x1, y1));
        lemma_line_pixels_steps(x0, y0, x1, y1);
    }
    points
}

/// `(x, y)` lies in the square of half-side `r` around `p`.
pub open spec fn in_square(p: (i32, i32), r: int, x: int, y: int) -> bool {
    p.0 - r <= x <= p.0 + r && p.1 - r <= y <= p.1 + r
}

/// `(x, y)` lies in the square of half-side `r` around one of the first `k` points.
pub open spec fn near_points(pts: Seq<(i32, i32)>, k: int, r: int, x: int, y: int) -> bool {
    exists|q: int| 0 <= q < k && #[trigger] in_square(pts[q], r, x, y)
}

/// The line and its widened neighbourhood stay within `i32`.
pub open spec fn thick_fits(x0: i32, y0: i32, x1: i32, y1: i32, radius: i32) -> bool {
    &&& radius > i32::MIN
    &&& min2(x0 as int, x1 as int) - radius >= i32::MIN && max2(x0 as int, x1 as int) + radius <= i32::MAX
    &&& min2(y0 as int, y1 as int) - radius >= i32::MIN && max2(y0 as int, y1 as int) + radius <= i32::MAX
    &&& span(x0, x1) + span(y0, y1) + 1 <= u32::MAX
}

/// Draws the line from `(x0, y0)` to `(x1, y1)` widened to a square of
/// half-side `radius` around each of its pixels. Returns the number of line pixels.
pub fn draw_thick_line(
    image: &mut RgbaImage,
    x0: i32,
    y0: i32,
    x1: i32,
    y1: i32,
    radius: i32,
    color: [u8; 4],
) -> (n: u32)
    requires
        old(image).wf(),
        thick_fits(x0, y0, x1, y1, radius),
    ensures
        final(image).width == old(image).width,
        final(image).height == old(image).height,
        final(image).wf(),
        n == line_pixels(x0, y0, x1, y1).len(),
        painted_with(
            old(image).pixels@,
            final(image).pixels@,
            old(image).width as int,
            old(image).height as int,
            color@,
            |x: int, y: int| near_points(line_pixels(x0, y0, x1, y1), line_pixels(x0, y0, x1, y1).len() as int, radius as int, x, y),
        ),
{
    let points = bresenham(x0, y0, x1, y1);
    let ghost pts = points@;
    let ghost w = image.width as int;
    let ghost h = image.height as int;
    let ghost start = image.pixels@;
    let ghost r = radius as int;
    proof {
        lemma_walk(span(x0, x1), span(y0, y1), 0, 0);
        assert forall|k: int| 0 <= k < pts.len() implies min2(x0 as int, x1 as int) <= #[trigger] pts[k].0 <= max2(
            x0 as int,
            x1 as int,
        ) && min2(y0 as int, y1 as int) <= pts[k].1 <= max2(y0 as int, y1 as int) by {
            let s = line_walk(span(x0, x1), span(y0, y1), 0, 0)[k];
            assert(pts[k] == line_pixel(x0, y0, x1, y1, s));
        }
        assert forall|xx: int, yy: int| 0 <= xx < w && 0 <= yy < h implies #[trigger] image.pixels@.subrange(
            pixel_offset(w, xx, yy),
            pixel_offset(w, xx, yy) + 4,
        ) == if near_points(pts, 0, r, xx, yy) {
            color@
        } else {
            start.subrange(pixel_offset(w, xx, yy), pixel_offset(w, xx, yy) + 4)
        } by {}
    }
    let mut count: u32 = 0;
    let mut k: usize = 0;
    while k < points.len()
        invariant
            pts == points@,
            pts == line_pixels(x0, y0, x1, y1),
            pts.len() <= span(x0, x1) + span(y0, y1) + 1,
            thick_fits(x0, y0, x1, y1, radius),
            r == radius,
            forall|q: int| 0 <= q < pts.len() ==> min2(x0 as int, x1 as int) <= #[trigger] pts[q].0 <= max2(
                x0 as int,
                x1 as int,
            ) && min2(y0 as int, y1 as int) <= pts[q].1 <= max2(y0 as int, y1 as int),
            image.wf(),
            image.width == w,
            image.height == h,
            start.len() == w * h * 4,
            k <= pts.len(),
            count == k,
            painted_with(start, image.pixels@, w, h, color@, |xx: int, yy: int| near_points(pts, k as int, r, xx, yy)),
        decreases pts.len() - k,
    {
        let p = points[k];
        let mut dy: i64 = -(radius as i64);
        proof {
            assert forall|xx: int, yy: int| 0 <= xx < w && 0 <= yy < h implies #[trigger] image.pixels@.subrange(
                pixel_offset(w, xx, yy),
                pixel_offset(w, xx, yy) + 4,
            ) == if near_points(pts, k as int, r, xx, yy) || (p.1 - r <= yy < p.1 + dy && p.0 - r <= xx <= p.0 + r) {
                color@
            } else {
                start.subrange(pixel_offset(w, xx, yy), pixel_offset(w, xx, yy) + 4)
            } by {}
        }
        while dy <= radius as i64
            invariant
                pts == points@,
                p == pts[k as int],
                k < pts.len(),
                thick_fits(x0, y0, x1, y1, radius),
                r == radius,
                min2(x0 as int, x1 as int) <= p.0 <= max2(x0 as int, x1 as int),
                min2(y0 as int, y1 as int) <= p.1 <= max2(y0 as int, y1 as int),
                image.wf(),
                image.width == w,
                image.height == h,
                start.len() == w * h * 4,
                -r <= dy,
                dy <= (if r >= 0 { r + 1 } else { -r }),
                painted_with(
                    start,
                    image.pixels@,
                    w,
                    h,
                    color@,
                    |xx: int, yy: int| near_points(pts, k as int, r, xx, yy) || (p.1 - r <= yy < p.1 + dy && p.0 - r <= xx
                        <= p.0 + r),
                ),
            decreases r + 1 - dy,
        {
            let mut dx: i64 = -(radius as i64);
            while dx <= radius as i64
                invariant
                    pts == points@,
                    p == pts[k as int],
                    k < pts.len(),
                    thick_fits(x0, y0, x1, y1, radius),
                    r == radius,
                    min2(x0 as int, x1 as int) <= p.0 <= max2(x0 as int, x1 as int),
                    min2(y0 as int, y1 as int) <= p.1 <= max2(y0 as int, y1 as int),
                    image.wf(),
                    image.width == w,
                    image.height == h,
                    start.len() == w * h * 4,
                    -r <= dy <= r,
                    -r <= dx <= r + 1,
                    r >= 0,
                    painted_with(
                        start,
                        image.pixels@,
                        w,
                        h,
                        color@,
                        |xx: int, yy: int| near_points(pts, k as int, r, xx, yy) || (p.1 - r <= yy < p.1 + dy && p.0 - r
                            <= xx <= p.0 + r) || (yy == p.1 + dy && p.0 - r <= xx < p.0 + dx),
                    ),
                decreases r + 1 - dx,
            {
                let ghost mid = image.pixels@;
                let ghost region = |xx: int, yy: int| near_points(pts, k as int, r, xx, yy) || (p.1 - r <= yy < p.1 + dy
                    && p.0 - r <= xx <= p.0 + r) || (yy == p.1 + dy && p.0 - r <= xx < p.0 + dx);
                let ghost next = |xx: int, yy: int| near_points(pts, k as int, r, xx, yy) || (p.1 - r <= yy < p.1 + dy
                    && p.0 - r <= xx <= p.0 + r) || (yy == p.1 + dy && p.0 - r <= xx < p.0 + dx + 1);
                let px: i32 = (p.0 as i64 + dx) as i32;
                let py: i32 = (p.1 as i64 + dy) as i32;
                image.set(px, py, color);
                proof {
                    lemma_paint_step(start, mid, image.pixels@, w, h, color@, region, next, (p.0 + dx) as int, (p.1 + dy) as int);
                }
                dx = dx + 1;
            }
            proof {
                assert forall|xx: int, yy: int| 0 <= xx < w && 0 <= yy < h implies #[trigger] image.pixels@.subrange(
                    pixel_offset(w, xx, yy),
                    pixel_offset(w, xx, yy) + 4,
                ) == if near_points(pts, k as int, r, xx, yy) || (p.1 - r <= yy < p.1 + dy + 1 && p.0 - r <= xx <= p.0 + r) {
                    color@
                } else {
                    start.subrange(pixel_offset(w, xx, yy), pixel_offset(w, xx, yy) + 4)
                } by {}
            }
            dy = dy + 1;
        }
        proof {
            assert forall|xx: int, yy: int| 0 <= xx < w && 0 <= yy < h implies #[trigger] image.pixels@.subrange(
                pixel_offset(w, xx, yy),
                pixel_offset(w, xx, yy) + 4,
            ) == if near_points(pts, k + 1, r, xx, yy) {
                color@
            } else {
                start.subrange(pixel_offset(w, xx, yy), pixel_offset(w, xx, yy) + 4)
            } by {
                let inside = p.1 - r <= yy < p.1 + dy && p.0 - r <= xx <= p.0 + r;
                if near_points(pts, k as int, r, xx, yy) {
                    let q = choose|q: int| 0 <= q < k && #[trigger] in_square(pts[q], r, xx, yy);
                    assert(0 <= q < k + 1 && in_square(pts[q], r, xx, yy));
                }
                if inside {
                    assert(in_square(pts[k as int], r, xx, yy));
                }
                if near_points(pts, k + 1, r, xx, yy) {
                    let q = choose|q: int| 0 <= q < k + 1 && #[trigger] in_square(pts[q], r, xx, yy);
                    if q < k {
                        assert(near_points(pts, k as int, r, xx, yy));
                    } else {
                        assert(inside);
                    }
                }
            }
        }
        count = count + 1;
        k = k + 1;
    }
    count
}

/// `(x, y)` lies in the disc of radius `r` around `(cx, cy)`.
pub open spec fn in_disc(cx: int, cy: int, r: int, x: int, y: int) -> bool {
    (x - cx) * (x - cx) + (y - cy) * (y - cy) <= r * r && cx - r <= x <= cx + r && cy - r <= y <= cy + r
}

/// Paints every pixel of the disc of radius `radius` around `(cx, cy)`.
pub fn fill_disc(image: &mut RgbaImage, cx: i32, cy: i32, radius: i32, color: [u8; 4])
    requires
        old(image).wf(),
        i32::MIN < radius <= 32767,
        radius >= 0 ==> cx - radius >= i32::MIN && cx + radius <= i32::MAX && cy - radius >= i32::MIN && cy
            + radius <= i32::MAX,
    ensures
        final(image).width == old(image).width,
        final(image).height == old(image).height,
        final(image).wf(),
        painted_with(
            old(image).pixels@,
            final(image).pixels@,
            old(image).width as int,
            old(image).height as int,
            color@,
            |x: int, y: int| in_disc(cx as int, cy as int, radius as int, x, y),
        ),
{
    let ghost w = image.width as int;
    let ghost h = image.height as int;
    let ghost start = image.pixels@;
    let ghost r = radius as int;
    if radius < 0 {
        proof {
            assert forall|xx: int, yy: int| 0 <= xx < w && 0 <= yy < h implies #[trigger] image.pixels@.subrange(
                pixel_offset(w, xx, yy),
                pixel_offset(w, xx, yy) + 4,
            ) == if in_disc(cx as int, cy as int, r, xx, yy) {
                color@
            } else {
                start.subrange(pixel_offset(w, xx, yy), pixel_offset(w, xx, yy) + 4)
            } by {}
        }
        return;
    }
    let mut dy: i32 = -radius;
    proof {
        assert forall|xx: int, yy: int| 0 <= xx < w && 0 <= yy < h implies #[trigger] image.pixels@.subrange(
            pixel_offset(w, xx, yy),
            pixel_offset(w, xx, yy) + 4,
        ) == if in_disc(cx as int, cy as int, r, xx, yy) && yy < cy + dy {
            color@
        } else {
            start.subrange(pixel_offset(w, xx, yy), pixel_offset(w, xx, yy) + 4)
        } by {}
    }
    while dy <= radius
        invariant
            image.wf(),
            image.width == w,
            image.height == h,
            start.len() == w * h * 4,
            r == radius,
            0 <= radius <= 32767,
            cx - radius >= i32::MIN && cx + radius <= i32::MAX && cy - radius >= i32::MIN && cy + radius <= i32::MAX,
            -r <= dy <= r + 1,
            painted_with(
                start,
                image.pixels@,
                w,
                h,
                color@,
                |xx: int, yy: int| in_disc(cx as int, cy as int, r, xx, yy) && yy < cy + dy,
            ),
        decreases r + 1 - dy,
    {
        let mut dx: i32 = -radius;
        while dx <= radius
            invariant
                image.wf(),
                image.width == w,
                image.height == h,
                start.len() == w * h * 4,
                r == radius,
                0 <= radius <= 32767,
                cx - radius >= i32::MIN && cx + radius <= i32::MAX && cy - radius >= i32::MIN && cy + radius
                    <= i32::MAX,
                -r <= dy <= r,
                -r <= dx <= r + 1,
                painted_with(
                    start,
                    image.pixels@,
                    w,
                    h,
                    color@,
                    |xx: int, yy: int| in_disc(cx as int, cy as int, r, xx, yy) && (yy < cy + dy || (yy == cy + dy && xx
                        < cx + dx)),
                ),
            decreases r + 1 - dx,
        {
            assert(0 <= dx * dx <= 1073676289 && 0 <= dy * dy <= 1073676289 && 0 <= radius * radius <= 1073676289)
                by (nonlinear_arith)
                requires
                    -radius <= dx <= radius,
                    -radius <= dy <= radius,
                    0 <= radius <= 32767,
            ;
            let ghost mid = image.pixels@;
            let ghost region = |xx: int, yy: int| in_disc(cx as int, cy as int, r, xx, yy) && (yy < cy + dy || (yy
                == cy + dy && xx < cx + dx));
            let ghost next = |xx: int, yy: int| in_disc(cx as int, cy as int, r, xx, yy) && (yy < cy + dy || (yy
                == cy + dy && xx < cx + dx + 1));
            if dx * dx + dy * dy <= radius * radius {
                image.set(cx + dx, cy + dy, color);
                proof {
                    lemma_paint_step(start, mid, image.pixels@, w, h, color@, region, next, (cx + dx) as int, (cy + dy) as int);
                }
            } else {
                proof {
                    assert forall|xx: int, yy: int| 0 <= xx < w && 0 <= yy < h implies #[trigger] image.pixels@.subrange(
                        pixel_offset(w, xx, yy),
                        pixel_offset(w, xx, yy) + 4,
                    ) == if next(xx, yy) {
                        color@
                    } else {
                        start.subrange(pixel_offset(w, xx, yy), pixel_offset(w, xx, yy) + 4)
                    } by {
                        assert(next(xx, yy) == region(xx, yy));
                    }
                }
            }
            dx = dx + 1;
        }
        proof {
            assert forall|xx: int, yy: int| 0 <= xx < w && 0 <= yy < h implies #[trigger] image.pixels@.subrange(
                pixel_offset(w, xx, yy),
                pixel_offset(w, xx, yy) + 4,
            ) == if in_disc(cx as int, cy as int, r, xx, yy) && yy < cy + dy + 1 {
                color@
            } else {
                start.subrange(pixel_offset(w, xx, yy), pixel_offset(w, xx, yy) + 4)
            } by {
                assert(in_disc(cx as int, cy as int, r, xx, yy) && (yy < cy + dy || (yy == cy + dy && xx < cx + r + 1))
                    <==> in_disc(cx as int, cy as int, r, xx, yy) && yy < cy + dy + 1);
            }
        }
        dy = dy + 1;
    }
    proof {
        assert forall|xx: int, yy: int| 0 <= xx < w && 0 <= yy < h implies #[trigger] image.pixels@.subrange(
            pixel_offset(w, xx, yy),
            pixel_offset(w, xx, yy) + 4,
        ) == if in_disc(cx as int, cy as int, r, xx, yy) {
            color@
        } else {
            start.subrange(pixel_offset(w, xx, yy), pixel_offset(w, xx, yy) + 4)
        } by {
            assert(in_disc(cx as int, cy as int, r, xx, yy) && yy < cy + r + 1 <==> in_disc(cx as int, cy as int, r, xx, yy));
        }
    }
}

/// `(x, y)` lies in the `w` by `h` rectangle whose top-left pixel is `(x0, y0)`.
pub open spec fn in_rect(x0: int, y0: int, w: int, h: int, x: int, y: int) -> bool {
    x0 <= x < x0 + w && y0 <= y < y0 + h
}

/// Painting a second region over a painted one paints their union.
pub proof fn painted_union(
    before: Seq<u8>,
    mid: Seq<u8>,
    after: Seq<u8>,
    w: int,
    h: int,
    color: Seq<u8>,
    first: spec_fn(int, int) -> bool,
    second: spec_fn(int, int) -> bool,
    both: spec_fn(int, int) -> bool,
)
    requires
        painted_with(before, mid, w, h, color, first),
        painted_with(mid, after, w, h, color, second),
        forall|x: int, y: int| #[trigger] both(x, y) == (first(x, y) || second(x, y)),
    ensures
        painted_with(before, after, w, h, color, both),
{
    assert forall|x: int, y: int| 0 <= x < w && 0 <= y < h implies #[trigger] after.subrange(
        pixel_offset(w, x, y),
        pixel_offset(w, x, y) + 4,
    ) == if both(x, y) {
        color
    } else {
        before.subrange(pixel_offset(w, x, y), pixel_offset(w, x, y) + 4)
    } by {
        assert(mid.subrange(pixel_offset(w, x, y), pixel_offset(w, x, y) + 4) == if first(x, y) {
            color
        } else {
            before.subrange(pixel_offset(w, x, y), pixel_offset(w, x, y) + 4)
        });
    }
}

/// A painted region may be named by any predicate that agrees with it.
pub proof fn painted_same_region(
    before: Seq<u8>,
    after: Seq<u8>,
    w: int,
    h: int,
    color: Seq<u8>,
    region: spec_fn(int, int) -> bool,
    same: spec_fn(int, int) -> bool,
)
    requires
        painted_with(before, after, w, h, color, region),
        forall|x: int, y: int| #[trigger] same(x, y) == region(x, y),
    ensures
        painted_with(before, after, w, h, color, same),
{
    assert forall|x: int, y: int| 0 <= x < w && 0 <= y < h implies #[trigger] after.subrange(
        pixel_offset(w, x, y),
        pixel_offset(w, x, y) + 4,
    ) == if same(x, y) {
        color
    } else {
        before.subrange(pixel_offset(w, x, y), pixel_offset(w, x, y) + 4)
    } by {
        assert(same(x, y) == region(x, y));
    }
}

/// Paints every pixel of the `w` by `h` rectangle whose top-left pixel is `(x, y)`.
pub fn fill_rect(image: &mut RgbaImage, x: i32, y: i32, w: i32, h: i32, color: [u8; 4])
    requires
        old(image).wf(),
        w >= 0,
        h >= 0,
        x + w <= i32::MAX,
        y + h <= i32::MAX,
    ensures
        final(image).width == old(image).width,
        final(image).height == old(image).height,
        final(image).wf(),
        painted_with(
            old(image).pixels@,
            final(image).pixels@,
            old(image).width as int,
            old(image).height as int,
            color@,
            |px: int, py: int| in_rect(x as int, y as int, w as int, h as int, px, py),
        ),
{
    let ghost iw = image.width as int;
    let ghost ih = image.height as int;
    let ghost start = image.pixels@;
    let mut dy: i32 = 0;
    proof {
        assert forall|xx: int, yy: int| 0 <= xx < iw && 0 <= yy < ih implies #[trigger] image.pixels@.subrange(
            pixel_offset(iw, xx, yy),
            pixel_offset(iw, xx, yy) + 4,
        ) == if in_rect(x as int, y as int, w as int, 0, xx, yy) {
            color@
        } else {
            start.subrange(pixel_offset(iw, xx, yy), pixel_offset(iw, xx, yy) + 4)
        } by {}
    }
    while dy < h
        invariant
            image.wf(),
            image.width == iw,
            image.height == ih,
            start.len() == iw * ih * 4,
            0 <= dy <= h,
            w >= 0,
            x + w <= i32::MAX,
            y + h <= i32::MAX,
            painted_with(
                start,
                image.pixels@,
                iw,
                ih,
                color@,
                |xx: int, yy: int| in_rect(x as int, y as int, w as int, dy as int, xx, yy),
            ),
        decreases h - dy,
    {
        let mut dx: i32 = 0;
        while dx < w
            invariant
                image.wf(),
                image.width == iw,
                image.height == ih,
                start.len() == iw * ih * 4,
                0 <= dy < h,
                0 <= dx <= w,
                x + w <= i32::MAX,
                y + h <= i32::MAX,
                painted_with(
                    start,
                    image.pixels@,
                    iw,
                    ih,
                    color@,
                    |xx: int, yy: int| in_rect(x as int, y as int, w as int, dy as int, xx, yy) || (yy == y + dy
                        && x <= xx < x + dx),
                ),
            decreases w - dx,
        {
            let ghost mid = image.pixels@;
            let ghost region = |xx: int, yy: int| in_rect(x as int, y as int, w as int, dy as int, xx, yy) || (yy
                == y + dy && x <= xx < x + dx);
            let ghost next = |xx: int, yy: int| in_rect(x as int, y as int, w as int, dy as int, xx, yy) || (yy == y
                + dy && x <= xx < x + dx + 1);
            image.set(x + dx, y + dy, color);
            proof {
                lemma_paint_step(start, mid, image.pixels@, iw, ih, color@, region, next, (x + dx) as int, (y + dy) as int);
            }
            dx = dx + 1;
        }
        proof {
            painted_same_region(
                start,
                image.pixels@,
                iw,
                ih,
                color@,
                |xx: int, yy: int| in_rect(x as int, y as int, w as int, dy as int, xx, yy) || (yy == y + dy && x <= xx
                    < x + dx),
                |xx: int, yy: int| in_rect(x as int, y as int, w as int, dy + 1, xx, yy),
            );
        }
        dy = dy + 1;
    }
}

/// The bytes per row of a GPU readback buffer: `width * 4` rounded up to a multiple of `align`.
pub fn padded_row_bytes(width: u32, align: u32) -> (n: u32)
    requires
        align > 0,
        width * 4 + align <= u32::MAX,
    ensures
        n % align == 0,
        width * 4 <= n < width * 4 + align,
{
    let unpadded = width * 4;
    let rows = unpadded / align + if unpadded % align == 0 { 0 } else { 1 };
    proof {
        vstd::arithmetic::div_mod::lemma_fundamental_div_mod(unpadded as int, align as int);
        let q = unpadded as int / align as int;
        let m = unpadded as int % align as int;
        if m == 0 {
            assert(rows * align == unpadded) by (nonlinear_arith)
                requires
                    rows == q,
                    unpadded == align * q + m,
                    m == 0,
            ;
        } else {
            assert(rows * align == unpadded - m + align) by (nonlinear_arith)
                requires
                    rows == q + 1,
                    unpadded == align * q + m,
            ;
        }
        vstd::arithmetic::div_mod::lemma_mod_multiples_basic(rows as int, align as int);
        assert((rows * align) % (align as int) == 0);
    }
    rows * align
}

/// The image a GPU readback holds: `height` rows of `stride` bytes, bottom row
/// first; each row starts with `width` RGBA pixels.
pub fn image_from_readback(data: &[u8], width: u32, height: u32, stride: usize) -> (img: RgbaImage)
    requires
        stride >= width * 4,
        data@.len() >= stride * height,
        width * height * 4 <= usize::MAX,
    ensures
        img.width == width && img.height == height,
        img.wf(),
        forall|x: int, y: int|
            img.inside(x, y) ==> #[trigger] img.pixel(x, y) == data@.subrange(
                (height - 1 - y) * stride + x * 4,
                (height - 1 - y) * stride + x * 4 + 4,
            ),
{
    let len = data.len();
    let row_bytes: usize = (width as usize) * 4;
    let h = height as usize;
    let mut pixels: Vec<u8> = Vec::new();
    let mut y: usize = 0;
    while y < h
        invariant
            h == height,
            row_bytes == width * 4,
            stride >= row_bytes,
            data@.len() >= stride * height,
            width * height * 4 <= usize::MAX,
            y <= h,
            len == data@.len(),
            pixels@.len() == y * row_bytes,
            forall|q: int| 0 <= q < y * row_bytes ==> #[trigger] pixels@[q] == data@[(h - 1 - q / (row_bytes as int)) * stride + q % (row_bytes as int)],
        decreases h - y,
    {
        let src_row = h - 1 - y;
        assert(src_row * stride + row_bytes <= stride * height) by (nonlinear_arith)
            requires
                src_row < height,
                row_bytes <= stride,
        ;
        assert(src_row * stride + row_bytes <= len);
        let base: usize = src_row * stride;
        let mut b: usize = 0;
        while b < row_bytes
            invariant
                h == height,
                row_bytes == width * 4,
                stride >= row_bytes,
                data@.len() >= stride * height,
                width * height * 4 <= usize::MAX,
                y < h,
                src_row == h - 1 - y,
                base == src_row * stride,
                base + row_bytes <= data@.len(),
                len == data@.len(),
                b <= row_bytes,
                pixels@.len() == y * row_bytes + b,
                forall|q: int| 0 <= q < y * row_bytes + b ==> #[trigger] pixels@[q] == data@[(h - 1 - q / (row_bytes as int)) * stride + q % (row_bytes as int)],
            decreases row_bytes - b,
        {
            assert(y * row_bytes + b < height * row_bytes) by (nonlinear_arith)
                requires
                    y < height,
                    b < row_bytes,
            ;
            let ghost before = pixels@;
            pixels.push(data[base + b]);
            proof {
                let q = y * row_bytes + b;
                vstd::arithmetic::div_mod::lemma_fundamental_div_mod_converse(q as int, row_bytes as int, y as int, b as int);
                assert forall|k: int| 0 <= k < q + 1 implies #[trigger] pixels@[k] == data@[(h - 1 - k / (row_bytes as int)) * stride + k % (row_bytes as int)] by {
                    if k < q {
                        assert(pixels@[k] == before[k]);
                    }
                }
            }
            b = b + 1;
        }
        assert(y * row_bytes + row_bytes == (y + 1) * row_bytes) by (nonlinear_arith);
        y = y + 1;
    }
    let img = RgbaImage { width, height, pixels };
    proof {
        assert(h * row_bytes == width * height * 4) by (nonlinear_arith)
            requires
                h == height,
                row_bytes == width * 4,
        ;
        assert forall|x: int, yy: int| img.inside(x, yy) implies #[trigger] img.pixel(x, yy) == data@.subrange(
            (height - 1 - yy) * stride + x * 4,
            (height - 1 - yy) * stride + x * 4 + 4,
        ) by {
            let o = pixel_offset(width as int, x, yy);
            lemma_offset_in_range(width as int, height as int, x, yy);
            assert forall|k: int| 0 <= k < 4 implies #[trigger] img.pixel(x, yy)[k] == data@[(height - 1 - yy) * stride + x * 4 + k] by {
                let q = o + k;
                assert(q == yy * (row_bytes as int) + (x * 4 + k)) by (nonlinear_arith)
                    requires
                        q == (yy * width + x) * 4 + k,
                        row_bytes == width * 4,
                ;
                assert(x * 4 + k < row_bytes) by (nonlinear_arith)
                    requires
                        0 <= x < width,
                        0 <= k < 4,
                        row_bytes == width * 4,
                ;
                vstd::arithmetic::div_mod::lemma_fundamental_div_mod_converse(q, row_bytes as int, yy, x * 4 + k);
                assert(img.pixel(x, yy)[k] == img.pixels@[q]);
            }
            assert((height - 1 - yy) * stride + x * 4 + 4 <= stride * height) by (nonlinear_arith)
                requires
                    0 <= x < width,
                    0 <= yy < height,
                    stride >= width * 4,
            ;
            assert(img.pixel(x, yy) =~= data@.subrange(
                (height - 1 - yy) * stride + x * 4,
                (height - 1 - yy) * stride + x * 4 + 4,
            ));
        }
    }
    img
}

} // verus!
