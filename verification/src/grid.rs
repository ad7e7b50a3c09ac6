//! Regular rectangular grids (sampled surfaces).
//!
//! Samples are `f64` bit patterns; heights are stored row-major, `iy * nx + ix`.
use vstd::prelude::*;
use vstd::arithmetic::div_mod::lemma_fundamental_div_mod_converse;
use crate::types::{
    Diagnostic, DiagnosticCode, Vec3, bits_finite, cat5, decimal, decimal_string, decimal_string_wide, f64_finite,
};

verus! {

/// A regular grid: `nx` x-samples, `ny` y-samples and `nx * ny` heights.
#[derive(Debug)]
pub struct GridData {
    /// x samples (`nx` of them), as `f64::to_bits`.
    pub x: Vec<u64>,
    /// y samples (`ny` of them), as `f64::to_bits`.
    pub y: Vec<u64>,
    /// Heights, row-major (`nx * ny` of them), as `f64::to_bits`.
    pub z: Vec<u64>,
}

/// Every sample is finite.
pub open spec fn all_finite(v: Seq<u64>) -> bool {
    forall|i: int| 0 <= i < v.len() ==> #[trigger] f64_finite(v[i])
}

/// A well-formed grid: at least 2 by 2 samples, `nx * ny` heights, all finite.
pub open spec fn grid_valid(x: Seq<u64>, y: Seq<u64>, z: Seq<u64>) -> bool {
    &&& x.len() >= 2 && y.len() >= 2
    &&& z.len() == x.len() * y.len()
    &&& all_finite(x) && all_finite(y) && all_finite(z)
}

/// The diagnostic `GridData::validate` gives for an ill-formed grid.
pub open spec fn grid_error(x: Seq<u64>, y: Seq<u64>, z: Seq<u64>, d: Diagnostic) -> bool {
    if x.len() < 2 || y.len() < 2 {
        d.matches(DiagnosticCode::ValidationFailed, "GridData 至少需要 2×2 采样"@, seq![])
    } else if z.len() != x.len() * y.len() {
        d.matches(
            DiagnosticCode::ColumnLengthMismatch,
            "z 长度 "@ + decimal(z.len()) + " 与 nx*ny="@ + decimal(x.len() * y.len()) + " 不一致"@,
            seq![],
        )
    } else if !all_finite(x) {
        d.matches(DiagnosticCode::ValidationFailed, "GridData.x 含非有限值"@, seq![("field"@, "x"@)])
    } else if !all_finite(y) {
        d.matches(DiagnosticCode::ValidationFailed, "GridData.y 含非有限值"@, seq![("field"@, "y"@)])
    } else {
        d.matches(DiagnosticCode::ValidationFailed, "GridData.z 含非有限值"@, seq![("field"@, "z"@)])
    }
}

/// Row-major position of sample `(ix, iy)` in a grid `nx` wide.
pub open spec fn cell_index(nx: nat, ix: nat, iy: nat) -> nat {
    iy * nx + ix
}

/// The world position of sample `(ix, iy)`.
pub open spec fn grid_point(x: Seq<u64>, y: Seq<u64>, z: Seq<u64>, ix: nat, iy: nat) -> Vec3 {
    Vec3 { x: x[ix as int], y: y[iy as int], z: z[cell_index(x.len(), ix, iy) as int] }
}

/// The six indices (two triangles) of grid cell number `c`, cells counted
/// row-major over the `(nx - 1)`-wide cell grid.
pub open spec fn cell_quad(nx: nat, c: nat) -> Seq<u32>
    recommends
        nx >= 2,
{
    let ix = c % (nx - 1) as nat;
    let iy = c / (nx - 1) as nat;
    let i00 = cell_index(nx, ix, iy);
    let i01 = cell_index(nx, ix, iy + 1);
    seq![i00 as u32, (i00 + 1) as u32, (i01 + 1) as u32, i00 as u32, (i01 + 1) as u32, i01 as u32]
}

/// The index list of the first `cells` cells.
pub open spec fn grid_indices(nx: nat, cells: nat) -> Seq<u32>
    decreases cells,
{
    if cells == 0 {
        Seq::empty()
    } else {
        grid_indices(nx, (cells - 1) as nat) + cell_quad(nx, (cells - 1) as nat)
    }
}

/// Splitting a row-major position into its column and row.
proof fn lemma_split_index(w: nat, ix: nat, iy: nat)
    requires
        ix < w,
    ensures
        (iy * w + ix) % w == ix,
        (iy * w + ix) / w == iy,
{
    lemma_fundamental_div_mod_converse((iy * w + ix) as int, w as int, iy as int, ix as int);
}

/// Every index of the first `cells` cells names a sample of an `nx` by `ny` grid.
proof fn lemma_indices_in_range(nx: nat, ny: nat, cells: nat)
    requires
        nx >= 2,
        ny >= 2,
        cells <= (nx - 1) * (ny - 1),
    ensures
        forall|j: int| 0 <= j < grid_indices(nx, cells).len() ==> (#[trigger] grid_indices(nx, cells)[j]) < nx * ny,
        grid_indices(nx, cells).len() == 6 * cells,
    decreases cells,
{
    if cells > 0 {
        let c = (cells - 1) as nat;
        lemma_indices_in_range(nx, ny, c);
        let w = (nx - 1) as nat;
        let ix = c % w;
        let iy = c / w;
        assert(c == iy * w + ix) by {
            vstd::arithmetic::div_mod::lemma_fundamental_div_mod(c as int, w as int);
        }
        assert(iy + 1 <= ny - 1) by (nonlinear_arith)
            requires
                c == iy * w + ix,
                c < w * (ny - 1),
                ix < w,
                w > 0,
        ;
        assert((iy + 1) * nx + ix + 1 < nx * ny) by (nonlinear_arith)
            requires
                iy + 1 <= ny - 1,
                ix + 1 < nx,
                w == nx - 1,
        ;
        assert(iy * nx + ix + 1 < (iy + 1) * nx + ix + 1) by (nonlinear_arith)
            requires
                nx >= 2,
        ;
        assert(ix < w && w == nx - 1);
        let q = cell_quad(nx, c);
        let prev = grid_indices(nx, c);
        assert(grid_indices(nx, cells) == prev + q);
        assert forall|j: int| 0 <= j < grid_indices(nx, cells).len() implies (#[trigger] grid_indices(nx, cells)[j]) < nx * ny by {
            if j >= prev.len() {
                assert(grid_indices(nx, cells)[j] == q[j - prev.len()]);
            } else {
                assert(grid_indices(nx, cells)[j] == prev[j]);
            }
        }
    }
}

impl GridData {
    /// Builds a grid and checks it with `validate`.
    pub fn new(x: Vec<u64>, y: Vec<u64>, z: Vec<u64>) -> (r: Result<GridData, Diagnostic>)
        ensures
            r is Ok <==> grid_valid(x@, y@, z@),
            match r {
                Ok(g) => g.x@ == x@ && g.y@ == y@ && g.z@ == z@,
                Err(d) => grid_error(x@, y@, z@, d),
            },
    {
        let grid = GridData { x, y, z };
        match grid.validate() {
            Ok(()) => Ok(grid),
            Err(d) => Err(d),
        }
    }

    /// Number of x samples.
    pub fn nx(&self) -> (n: usize)
        ensures
            n == self.x@.len(),
    {
        self.x.len()
    }

    /// Number of y samples.
    pub fn ny(&self) -> (n: usize)
        ensures
            n == self.y@.len(),
    {
        self.y.len()
    }

    /// Checks: at least 2 by 2 samples, `nx * ny` heights, every sample finite.
    pub fn validate(&self) -> (r: Result<(), Diagnostic>)
        ensures
            r is Ok <==> grid_valid(self.x@, self.y@, self.z@),
            r matches Err(d) ==> grid_error(self.x@, self.y@, self.z@, d),
    {
        let nx = self.nx();
        let ny = self.ny();
        if nx < 2 || ny < 2 {
            return Err(Diagnostic::error(DiagnosticCode::ValidationFailed, "GridData 至少需要 2×2 采样".to_string()));
        }
        assert((nx as u128) * (ny as u128) <= u64::MAX * u64::MAX) by (nonlinear_arith)
            requires
                nx <= u64::MAX,
                ny <= u64::MAX,
        ;
        let total: u128 = (nx as u128) * (ny as u128);
        let len = self.z.len();
        if (len as u128) != total {
            let shown_len = decimal_string(len);
            let shown_total = decimal_string_wide(total);
            return Err(Diagnostic::error(
                DiagnosticCode::ColumnLengthMismatch,
                cat5("z 长度 ", shown_len.as_str(), " 与 nx*ny=", shown_total.as_str(), " 不一致"),
            ));
        }
        if let Some(i) = first_non_finite(&self.x) {
            assert(!f64_finite(self.x@[i as int]));
            return Err(Diagnostic::error(DiagnosticCode::ValidationFailed, "GridData.x 含非有限值".to_string())
                .with_param("field", "x".to_string()));
        }
        if let Some(i) = first_non_finite(&self.y) {
            assert(!f64_finite(self.y@[i as int]));
            return Err(Diagnostic::error(DiagnosticCode::ValidationFailed, "GridData.y 含非有限值".to_string())
                .with_param("field", "y".to_string()));
        }
        if let Some(i) = first_non_finite(&self.z) {
            assert(!f64_finite(self.z@[i as int]));
            return Err(Diagnostic::error(DiagnosticCode::ValidationFailed, "GridData.z 含非有限值".to_string())
                .with_param("field", "z".to_string()));
        }
        Ok(())
    }

    /// The height of sample `(ix, iy)`.
    pub fn z_at(&self, ix: usize, iy: usize) -> (v: u64)
        requires
            iy * self.x@.len() + ix < self.z@.len(),
        ensures
            v == self.z@[cell_index(self.x@.len(), ix as nat, iy as nat) as int],
    {
        let nx = self.nx();
        let len = self.z.len();
        assert(iy * nx + ix < len);
        let row: usize = iy * nx;
        self.z[row + ix]
    }

    /// Triangulates the grid: one world position per sample, row-major, and
    /// two triangles per cell (`i00, i10, i11` and `i00, i11, i01`).
    pub fn triangulate(&self) -> (r: (Vec<Vec3>, Vec<u32>))
        requires
            self.x@.len() >= 1,
            self.y@.len() >= 1,
            self.z@.len() >= self.x@.len() * self.y@.len(),
            self.x@.len() * self.y@.len() <= u32::MAX + 1,
        ensures
            r.0@.len() == self.x@.len() * self.y@.len(),
            forall|ix: nat, iy: nat|
                ix < self.x@.len() && iy < self.y@.len() ==> r.0@[#[trigger] cell_index(self.x@.len(), ix, iy) as int]
                    == grid_point(self.x@, self.y@, self.z@, ix, iy),
            r.1@ == grid_indices(self.x@.len(), ((self.x@.len() - 1) * (self.y@.len() - 1)) as nat),
            forall|j: int| 0 <= j < r.1@.len() ==> (#[trigger] r.1@[j]) < self.x@.len() * self.y@.len(),
    {
        let nx = self.nx();
        let ny = self.ny();
        let ghost gx = self.x@;
        let ghost gy = self.y@;
        let ghost gz = self.z@;
        let mut positions: Vec<Vec3> = Vec::new();
        let mut iy: usize = 0;
        while iy < ny
            invariant
                nx == gx.len(),
                ny == gy.len(),
                gx == self.x@,
                gy == self.y@,
                gz == self.z@,
                nx >= 1,
                gz.len() >= nx * ny,
                nx * ny <= u32::MAX + 1,
                iy <= ny,
                positions@.len() == iy * nx,
                forall|jx: nat, jy: nat|
                    jx < nx && jy < iy ==> positions@[#[trigger] cell_index(nx as nat, jx, jy) as int] == grid_point(
                        gx,
                        gy,
                        gz,
                        jx,
                        jy,
                    ),
            decreases ny - iy,
        {
            assert(iy * nx + nx <= nx * ny) by (nonlinear_arith)
                requires
                    iy < ny,
            ;
            let mut ix: usize = 0;
            while ix < nx
                invariant
                    nx == gx.len(),
                    ny == gy.len(),
                    gx == self.x@,
                    gy == self.y@,
                    gz == self.z@,
                    nx >= 1,
                    gz.len() >= nx * ny,
                    iy < ny,
                    iy * nx + nx <= nx * ny,
                    ix <= nx,
                    positions@.len() == iy * nx + ix,
                    forall|jx: nat, jy: nat|
                        (jy < iy && jx < nx) || (jy == iy && jx < ix) ==> positions@[#[trigger] cell_index(
                            nx as nat,
                            jx,
                            jy,
                        ) as int] == grid_point(gx, gy, gz, jx, jy),
                decreases nx - ix,
            {
                let p = Vec3 { x: self.x[ix], y: self.y[iy], z: self.z_at(ix, iy) };
                let ghost before = positions@;
                positions.push(p);
                proof {
                    assert forall|jx: nat, jy: nat|
                        (jy < iy && jx < nx) || (jy == iy && jx < ix + 1) implies positions@[#[trigger] cell_index(
                            nx as nat,
                            jx,
                            jy,
                        ) as int] == grid_point(gx, gy, gz, jx, jy) by {
                        if jy < iy {
                            assert(jy * nx + jx < iy * nx) by (nonlinear_arith)
                                requires
                                    jy < iy,
                                    jx < nx,
                            ;
                            assert(positions@[cell_index(nx as nat, jx, jy) as int] == before[cell_index(
                                nx as nat,
                                jx,
                                jy,
                            ) as int]);
                        } else if jx < ix {
                            assert(positions@[cell_index(nx as nat, jx, jy) as int] == before[cell_index(
                                nx as nat,
                                jx,
                                jy,
                            ) as int]);
                        }
                    }
                }
                ix = ix + 1;
            }
            assert(iy * nx + nx == (iy + 1) * nx) by (nonlinear_arith);
            proof {
                assert forall|jx: nat, jy: nat|
                    jx < nx && jy < iy + 1 implies positions@[#[trigger] cell_index(nx as nat, jx, jy) as int]
                        == grid_point(gx, gy, gz, jx, jy) by {
                    if jy < iy {
                    } else {
                        assert(jy == iy);
                    }
                }
            }
            iy = iy + 1;
        }
        assert(ny * nx == nx * ny) by (nonlinear_arith);
        let mut indices: Vec<u32> = Vec::new();
        let ghost w: nat = (nx - 1) as nat;
        let mut iy: usize = 0;
        while iy + 1 < ny
            invariant
                nx == gx.len(),
                ny == gy.len(),
                nx >= 1,
                ny >= 1,
                nx * ny <= u32::MAX + 1,
                w == nx - 1,
                iy + 1 <= ny,
                indices@ == grid_indices(nx as nat, (iy * w) as nat),
            decreases ny - iy,
        {
            let mut ix: usize = 0;
            assert((iy + 2) * nx <= nx * ny) by (nonlinear_arith)
                requires
                    iy + 1 < ny,
            ;
            assert(iy * nx <= (iy + 1) * nx) by (nonlinear_arith);
            while ix + 1 < nx
                invariant
                    nx == gx.len(),
                    ny == gy.len(),
                    nx >= 1,
                    nx * ny <= u32::MAX + 1,
                    w == nx - 1,
                    iy + 1 < ny,
                    (iy + 2) * nx <= nx * ny,
                    iy * nx <= (iy + 1) * nx,
                    ix + 1 <= nx,
                    indices@ == grid_indices(nx as nat, (iy * w + ix) as nat),
                decreases nx - ix,
            {
                assert((iy + 1) * nx + ix + 1 < (iy + 2) * nx) by (nonlinear_arith)
                    requires
                        ix + 1 < nx,
                ;
                let i00: u32 = (iy * nx + ix) as u32;
                let i10: u32 = i00 + 1;
                let i01: u32 = ((iy + 1) * nx + ix) as u32;
                let i11: u32 = i01 + 1;
                let ghost before = indices@;
                indices.push(i00);
                indices.push(i10);
                indices.push(i11);
                indices.push(i00);
                indices.push(i11);
                indices.push(i01);
                proof {
                    let c: nat = (iy * w + ix) as nat;
                    lemma_split_index(w, ix as nat, iy as nat);
                    assert(cell_quad(nx as nat, c) =~= seq![i00, i10, i11, i00, i11, i01]);
                    assert(grid_indices(nx as nat, c + 1) == grid_indices(nx as nat, c) + cell_quad(nx as nat, c));
                    assert(indices@ =~= before + seq![i00, i10, i11, i00, i11, i01]);
                }
                ix = ix + 1;
            }
            assert(iy * w + w == (iy + 1) * w) by (nonlinear_arith);
            iy = iy + 1;
        }
        proof {
            assert(iy == ny - 1);
            if nx >= 2 && ny >= 2 {
                lemma_indices_in_range(nx as nat, ny as nat, ((nx - 1) * (ny - 1)) as nat);
            }
            assert((ny - 1) * w == ((nx - 1) * (ny - 1)) as nat) by (nonlinear_arith)
                requires
                    w == nx - 1,
                    nx >= 1,
                    ny >= 1,
            ;
            if nx < 2 || ny < 2 {
                assert((nx - 1) * (ny - 1) == 0) by (nonlinear_arith)
                    requires
                        nx >= 1,
                        ny >= 1,
                        nx < 2 || ny < 2,
                ;
                assert(indices@.len() == 0);
            }
        }
        (positions, indices)
    }
}

/// Position of the first non-finite sample, if any.
fn first_non_finite(v: &Vec<u64>) -> (r: Option<usize>)
    ensures
        match r {
            Some(i) => i < v@.len() && !f64_finite(v@[i as int]),
            None => all_finite(v@),
        },
{
    let mut i: usize = 0;
    while i < v.len()
        invariant
            0 <= i <= v@.len(),
            forall|k: int| 0 <= k < i ==> #[trigger] f64_finite(v@[k]),
        decreases v@.len() - i,
    {
        if !bits_finite(v[i]) {
            return Some(i);
        }
        i = i + 1;
    }
    None
}

} // verus!
