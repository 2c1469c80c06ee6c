//! Sample-grid indexing for marching-cubes extraction.
//!
//! A grid of `nx × ny × nz` cells has `(nx+1) × (ny+1) × (nz+1)` samples,
//! stored flat with `z` fastest: sample `(x, y, z)` sits at
//! `(x * (ny+1) + y) * (nz+1) + z`.  Corner `c` of a cell lies at the offset
//! given by `corner_offset(c)`, matching the edge and triangle tables.
use vstd::prelude::*;

verus! {

/// Flat position of sample `(x, y, z)`.
pub open spec fn grid_index(x: int, y: int, z: int, ny: int, nz: int) -> int {
    (x * (ny + 1) + y) * (nz + 1) + z
}

/// Number of samples of an `nx × ny × nz` cell grid.
pub open spec fn sample_count(nx: int, ny: int, nz: int) -> int {
    (nx + 1) * (ny + 1) * (nz + 1)
}

/// Offset of corner `c` of a cell from its lowest corner.
pub open spec fn corner_offset(c: int) -> (int, int, int) {
    if c == 0 {
        (0, 0, 0)
    } else if c == 1 {
        (1, 0, 0)
    } else if c == 2 {
        (1, 1, 0)
    } else if c == 3 {
        (0, 1, 0)
    } else if c == 4 {
        (0, 0, 1)
    } else if c == 5 {
        (1, 0, 1)
    } else if c == 6 {
        (1, 1, 1)
    } else {
        (0, 1, 1)
    }
}

/// Offsets of the eight corners of a cell, as `[dx, dy, dz]`.
pub fn corner_offsets() -> (r: [[usize; 3]; 8])
    ensures
        forall|c: int|
            0 <= c < 8 ==> (#[trigger] r[c])[0] as int == corner_offset(c).0 && r[c][1] as int
                == corner_offset(c).1 && r[c][2] as int == corner_offset(c).2,
{
    let r: [[usize; 3]; 8] = [
        [0, 0, 0],
        [1, 0, 0],
        [1, 1, 0],
        [0, 1, 0],
        [0, 0, 1],
        [1, 0, 1],
        [1, 1, 1],
        [0, 1, 1],
    ];
    assert(r[0] == [0usize, 0, 0] && r[7] == [0usize, 1, 1]);
    r
}

/// Flat position of corner `c` of cell `(ix, iy, iz)`.
pub open spec fn corner_index(ix: int, iy: int, iz: int, c: int, ny: int, nz: int) -> int {
    let o = corner_offset(c);
    grid_index(ix + o.0, iy + o.1, iz + o.2, ny, nz)
}

/// Every sample of the grid has a position below the sample count, and
/// distinct samples have distinct positions.
pub proof fn lemma_grid_index(x: int, y: int, z: int, x2: int, y2: int, z2: int, nx: int, ny: int, nz: int)
    requires
        0 <= x <= nx,
        0 <= y <= ny,
        0 <= z <= nz,
        0 <= x2 <= nx,
        0 <= y2 <= ny,
        0 <= z2 <= nz,
    ensures
        0 <= grid_index(x, y, z, ny, nz) < sample_count(nx, ny, nz),
        grid_index(x, y, z, ny, nz) == grid_index(x2, y2, z2, ny, nz) ==> x == x2 && y == y2 && z
            == z2,
{
    let a = x * (ny + 1) + y;
    let a2 = x2 * (ny + 1) + y2;
    assert(0 <= a < (nx + 1) * (ny + 1)) by (nonlinear_arith)
        requires
            0 <= x <= nx,
            0 <= y <= ny,
            a == x * (ny + 1) + y,
    ;
    assert(0 <= a * (nz + 1) + z < (nx + 1) * (ny + 1) * (nz + 1)) by (nonlinear_arith)
        requires
            0 <= a < (nx + 1) * (ny + 1),
            0 <= z <= nz,
    ;
    if grid_index(x, y, z, ny, nz) == grid_index(x2, y2, z2, ny, nz) {
        assert(a == a2 && z == z2) by (nonlinear_arith)
            requires
                a * (nz + 1) + z == a2 * (nz + 1) + z2,
                0 <= z <= nz,
                0 <= z2 <= nz,
                a >= 0,
                a2 >= 0,
        ;
        assert(x == x2 && y == y2) by (nonlinear_arith)
            requires
                x * (ny + 1) + y == x2 * (ny + 1) + y2,
                0 <= y <= ny,
                0 <= y2 <= ny,
                x >= 0,
                x2 >= 0,
        ;
    }
}

/// Flat position of sample `(x, y, z)` of an `nx × ny × nz` cell grid.
pub fn sample_index(x: usize, y: usize, z: usize, nx: usize, ny: usize, nz: usize) -> (r: usize)
    requires
        x <= nx,
        y <= ny,
        z <= nz,
        sample_count(nx as int, ny as int, nz as int) <= usize::MAX,
    ensures
        r as int == grid_index(x as int, y as int, z as int, ny as int, nz as int),
        (r as int) < sample_count(nx as int, ny as int, nz as int),
{
    proof {
        lemma_grid_index(x as int, y as int, z as int, 0, 0, 0, nx as int, ny as int, nz as int);
        let sc = sample_count(nx as int, ny as int, nz as int);
        assert(ny + 1 <= sc && nz + 1 <= sc) by (nonlinear_arith)
            requires
                sc == (nx + 1) * (ny + 1) * (nz + 1),
                nx >= 0,
                ny >= 0,
                nz >= 0,
        ;
        assert(x * (ny + 1) <= x * (ny + 1) + y <= (x * (ny + 1) + y) * (nz + 1)) by (nonlinear_arith)
            requires
                x >= 0,
                y >= 0,
                nz >= 0,
                ny >= 0,
        ;
    }
    let a = x * (ny + 1) + y;
    a * (nz + 1) + z
}

/// Flat positions of the eight corners of cell `(ix, iy, iz)`.
pub fn cell_corner_indices(ix: usize, iy: usize, iz: usize, nx: usize, ny: usize, nz: usize) -> (r: [usize; 8])
    requires
        ix < nx,
        iy < ny,
        iz < nz,
        sample_count(nx as int, ny as int, nz as int) <= usize::MAX,
    ensures
        forall|c: int| 0 <= c < 8 ==> #[trigger] r[c] as int == corner_index(ix as int, iy as int, iz as int, c, ny as int, nz as int),
        forall|c: int| 0 <= c < 8 ==> (#[trigger] r[c] as int) < sample_count(nx as int, ny as int, nz as int),
{
    let r: [usize; 8] = [
        sample_index(ix, iy, iz, nx, ny, nz),
        sample_index(ix + 1, iy, iz, nx, ny, nz),
        sample_index(ix + 1, iy + 1, iz, nx, ny, nz),
        sample_index(ix, iy + 1, iz, nx, ny, nz),
        sample_index(ix, iy, iz + 1, nx, ny, nz),
        sample_index(ix + 1, iy, iz + 1, nx, ny, nz),
        sample_index(ix + 1, iy + 1, iz + 1, nx, ny, nz),
        sample_index(ix, iy + 1, iz + 1, nx, ny, nz),
    ];
    r
}

} // verus!
