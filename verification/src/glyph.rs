//! Bitmap text: 5x7 glyphs, blown up by an integer scale and set left to right
//! with one blank column between characters.
use vstd::prelude::*;
use crate::raster::{RgbaImage, fill_rect, in_rect, painted_same_region, painted_union, painted_with};

verus! {

/// Whether a glyph row lights column `col`; column 0 is bit 4, the leftmost.
pub open spec fn glyph_lit(bits: u8, col: int) -> bool {
    bits & (1u8 << ((4 - col) as u8)) != 0u8
}

/// Whether pixel `(x, y)` lies in the lit cell at column `col`, row `row` of
/// character `i`, for text whose top-left pixel is `(x0, y0)` at scale `s`.
pub open spec fn cell_covers(
    glyphs: Seq<[u8; 7]>,
    x0: int,
    y0: int,
    s: int,
    i: int,
    row: int,
    col: int,
    x: int,
    y: int,
) -> bool {
    &&& 0 <= i < glyphs.len()
    &&& 0 <= row < 7
    &&& 0 <= col < 5
    &&& glyph_lit(glyphs[i]@[row], col)
    &&& in_rect(x0 + 6 * s * i + s * col, y0 + s * row, s, s, x, y)
}

/// Whether pixel `(x, y)` lies in a lit cell of the text.
pub open spec fn text_covers(glyphs: Seq<[u8; 7]>, x0: int, y0: int, s: int, x: int, y: int) -> bool {
    exists|i: int, row: int, col: int| #[trigger] cell_covers(glyphs, x0, y0, s, i, row, col, x, y)
}

/// Whether pixel `(x, y)` lies in a lit cell drawn before step `k`, cells being
/// drawn character by character, row by row, column by column.
spec fn covered_before(glyphs: Seq<[u8; 7]>, x0: int, y0: int, s: int, k: int, x: int, y: int) -> bool {
    exists|i: int, row: int, col: int|
        i * 35 + row * 5 + col < k && #[trigger] cell_covers(glyphs, x0, y0, s, i, row, col, x, y)
}

proof fn lemma_cover_step(glyphs: Seq<[u8; 7]>, x0: int, y0: int, s: int, i: int, row: int, col: int)
    requires
        0 <= i < glyphs.len(),
        0 <= row < 7,
        0 <= col < 5,
    ensures
        forall|x: int, y: int|
            #[trigger] covered_before(glyphs, x0, y0, s, i * 35 + row * 5 + col + 1, x, y) == (covered_before(
                glyphs,
                x0,
                y0,
                s,
                i * 35 + row * 5 + col,
                x,
                y,
            ) || cell_covers(glyphs, x0, y0, s, i, row, col, x, y)),
{
    let k = i * 35 + row * 5 + col;
    assert forall|x: int, y: int|
        #[trigger] covered_before(glyphs, x0, y0, s, k + 1, x, y) == (covered_before(glyphs, x0, y0, s, k, x, y)
            || cell_covers(glyphs, x0, y0, s, i, row, col, x, y)) by {
        if covered_before(glyphs, x0, y0, s, k + 1, x, y) {
            let (i2, r2, c2) = choose|i2: int, r2: int, c2: int|
                i2 * 35 + r2 * 5 + c2 < k + 1 && #[trigger] cell_covers(glyphs, x0, y0, s, i2, r2, c2, x, y);
            if i2 * 35 + r2 * 5 + c2 < k {
                assert(covered_before(glyphs, x0, y0, s, k, x, y));
            } else {
                assert(i2 == i);
                assert(r2 == row);
                assert(c2 == col);
            }
        }
        if cell_covers(glyphs, x0, y0, s, i, row, col, x, y) {
            assert(covered_before(glyphs, x0, y0, s, k + 1, x, y));
        }
        if covered_before(glyphs, x0, y0, s, k, x, y) {
            let (i2, r2, c2) = choose|i2: int, r2: int, c2: int|
                i2 * 35 + r2 * 5 + c2 < k && #[trigger] cell_covers(glyphs, x0, y0, s, i2, r2, c2, x, y);
            assert(covered_before(glyphs, x0, y0, s, k + 1, x, y));
        }
    }
}

proof fn lemma_cover_all(glyphs: Seq<[u8; 7]>, x0: int, y0: int, s: int)
    ensures
        forall|x: int, y: int|
            #[trigger] text_covers(glyphs, x0, y0, s, x, y) == covered_before(
                glyphs,
                x0,
                y0,
                s,
                (glyphs.len() * 35) as int,
                x,
                y,
            ),
{
    assert forall|x: int, y: int|
        #[trigger] text_covers(glyphs, x0, y0, s, x, y) == covered_before(glyphs, x0, y0, s, (glyphs.len() * 35) as int, x, y) by {
        if text_covers(glyphs, x0, y0, s, x, y) {
            let (i2, r2, c2) = choose|i2: int, r2: int, c2: int| #[trigger] cell_covers(glyphs, x0, y0, s, i2, r2, c2, x, y);
            assert(i2 * 35 + r2 * 5 + c2 < glyphs.len() * 35);
        }
    }
}

/// Sets a run of glyphs: character `i` starts `6 * scale * i` pixels right of
/// `(x, y)`; each lit bit of its seven rows becomes a `scale` by `scale` square.
/// Returns the number of characters set.
pub fn draw_glyphs(image: &mut RgbaImage, x: i32, y: i32, glyphs: &Vec<[u8; 7]>, scale: i32, color: [u8; 4]) -> (n: u32)
    requires
        old(image).wf(),
        scale >= 1,
        glyphs.len() <= u32::MAX,
        glyphs.len() > 0 ==> 6 * scale <= i32::MAX && x + 6 * scale * glyphs.len() <= i32::MAX && y + 7 * scale
            <= i32::MAX,
    ensures
        n == glyphs.len(),
        final(image).width == old(image).width,
        final(image).height == old(image).height,
        final(image).wf(),
        painted_with(
            old(image).pixels@,
            final(image).pixels@,
            old(image).width as int,
            old(image).height as int,
            color@,
            |px: int, py: int| text_covers(glyphs@, x as int, y as int, scale as int, px, py),
        ),
{
    let ghost iw = image.width as int;
    let ghost ih = image.height as int;
    let ghost start = image.pixels@;
    let ghost g = glyphs@;
    let n = glyphs.len();
    let mut gx: i32 = x;
    let mut i: usize = 0;
    let mut count: u32 = 0;
    proof {
        painted_same_region(
            start,
            start,
            iw,
            ih,
            color@,
            |px: int, py: int| false,
            |px: int, py: int| covered_before(g, x as int, y as int, scale as int, 0, px, py),
        );
    }
    while i < n
        invariant
            image.wf(),
            image.width == iw,
            image.height == ih,
            start.len() == iw * ih * 4,
            g == glyphs@,
            n == g.len(),
            n <= u32::MAX,
            i <= n,
            count == i,
            scale >= 1,
            n > 0 ==> 6 * scale <= i32::MAX && x + 6 * scale * n <= i32::MAX && y + 7 * scale <= i32::MAX,
            gx == x + 6 * scale * i,
            painted_with(
                start,
                image.pixels@,
                iw,
                ih,
                color@,
                |px: int, py: int| covered_before(g, x as int, y as int, scale as int, i * 35, px, py),
            ),
        decreases n - i,
    {
        assert(6 * scale * i + 6 * scale <= 6 * scale * n) by (nonlinear_arith)
            requires
                i < n,
                scale >= 1,
        ;
        let glyph = glyphs[i];
        let mut row: usize = 0;
        while row < 7
            invariant
                image.wf(),
                image.width == iw,
                image.height == ih,
                start.len() == iw * ih * 4,
                g == glyphs@,
                glyph == g[i as int],
                n == g.len(),
                i < n,
                row <= 7,
                scale >= 1,
                6 * scale <= i32::MAX,
                y + 7 * scale <= i32::MAX,
                gx == x + 6 * scale * i,
                gx + 6 * scale <= i32::MAX,
                painted_with(
                    start,
                    image.pixels@,
                    iw,
                    ih,
                    color@,
                    |px: int, py: int| covered_before(g, x as int, y as int, scale as int, i * 35 + row * 5, px, py),
                ),
            decreases 7 - row,
        {
            let bits = glyph[row];
            assert(row * scale <= 6 * scale) by (nonlinear_arith)
                requires
                    row < 7,
                    scale >= 1,
            ;
            let top: i32 = y + (row as i32) * scale;
            let mut col: i32 = 0;
            while col < 5
                invariant
                    image.wf(),
                    image.width == iw,
                    image.height == ih,
                    start.len() == iw * ih * 4,
                    g == glyphs@,
                    bits == g[i as int]@[row as int],
                    n == g.len(),
                    i < n,
                    row < 7,
                    0 <= col <= 5,
                    scale >= 1,
                    6 * scale <= i32::MAX,
                    top == y + scale * row,
                    top + scale <= i32::MAX,
                    gx == x + 6 * scale * i,
                    gx + 6 * scale <= i32::MAX,
                    painted_with(
                        start,
                        image.pixels@,
                        iw,
                        ih,
                        color@,
                        |px: int, py: int|
                            covered_before(g, x as int, y as int, scale as int, i * 35 + row * 5 + col, px, py),
                    ),
                decreases 5 - col,
            {
                proof { lemma_cover_step(g, x as int, y as int, scale as int, i as int, row as int, col as int); }
                assert(col * scale <= 4 * scale) by (nonlinear_arith)
                    requires
                        col < 5,
                        scale >= 1,
                ;
                let ghost mid = image.pixels@;
                let ghost before_k = |px: int, py: int|
                    covered_before(g, x as int, y as int, scale as int, i * 35 + row * 5 + col, px, py);
                let ghost after_k = |px: int, py: int|
                    covered_before(g, x as int, y as int, scale as int, i * 35 + row * 5 + col + 1, px, py);
                let left: i32 = gx + col * scale;
                assert(left == x + 6 * scale * i + scale * col) by (nonlinear_arith)
                    requires
                        left == gx + col * scale,
                        gx == x + 6 * scale * i,
                ;
                if bits & (1u8 << ((4 - col) as u8)) != 0 {
                    fill_rect(image, left, top, scale, scale, color);
                    proof {
                        assert forall|px: int, py: int| #[trigger] after_k(px, py) == (before_k(px, py) || in_rect(
                            left as int,
                            top as int,
                            scale as int,
                            scale as int,
                            px,
                            py,
                        )) by {
                            assert(glyph_lit(g[i as int]@[row as int], col as int));
                            assert(in_rect(left as int, top as int, scale as int, scale as int, px, py) == cell_covers(
                                g,
                                x as int,
                                y as int,
                                scale as int,
                                i as int,
                                row as int,
                                col as int,
                                px,
                                py,
                            ));
                        }
                        painted_union(
                            start,
                            mid,
                            image.pixels@,
                            iw,
                            ih,
                            color@,
                            before_k,
                            |px: int, py: int| in_rect(left as int, top as int, scale as int, scale as int, px, py),
                            after_k,
                        );
                    }
                } else {
                    proof {
                        assert forall|px: int, py: int| #[trigger] after_k(px, py) == before_k(px, py) by {
                            assert(!glyph_lit(g[i as int]@[row as int], col as int));
                            assert(!cell_covers(
                                g,
                                x as int,
                                y as int,
                                scale as int,
                                i as int,
                                row as int,
                                col as int,
                                px,
                                py,
                            ));
                        }
                        painted_same_region(start, image.pixels@, iw, ih, color@, before_k, after_k);
                    }
                }
                col = col + 1;
            }
            row = row + 1;
        }
        gx = gx + 6 * scale;
        assert(gx == x + 6 * scale * (i + 1)) by (nonlinear_arith)
            requires
                gx == x + 6 * scale * i + 6 * scale,
        ;
        count = count + 1;
        i = i + 1;
    }
    proof {
        lemma_cover_all(g, x as int, y as int, scale as int);
        painted_same_region(
            start,
            image.pixels@,
            iw,
            ih,
            color@,
            |px: int, py: int| covered_before(g, x as int, y as int, scale as int, n * 35, px, py),
            |px: int, py: int| text_covers(g, x as int, y as int, scale as int, px, py),
        );
    }
    count
}

} // verus!
