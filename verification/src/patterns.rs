//! Index-buffer patterns of the generated helper meshes, and sub-mesh
//! ranges.
//!
//! * Line segments are drawn as degenerate triangles `(a, b, a)`, each
//!   segment owning two consecutive vertices.
//! * Quads (cube faces) own four consecutive vertices `0..4` and are split
//!   into triangles `(0, 2, 1)` and `(0, 3, 2)`.
//! * Ribbon quads (boundary-loop strips) own four consecutive vertices and
//!   are split into `(0, 1, 2)` and `(1, 3, 2)`.
use vstd::prelude::*;

verus! {

/// A range of the index buffer drawn with one material.
#[derive(Debug, Clone, Copy, PartialEq, Eq, Structural)]
pub struct SubMesh {
    pub material_index: usize,
    pub index_offset: u32,
    pub index_count: u32,
}

impl SubMesh {
    /// One sub-mesh with material 0 covering an index buffer of
    /// `index_len` entries.
    pub fn covering(index_len: usize) -> (s: SubMesh)
        requires
            index_len <= u32::MAX,
        ensures
            s.material_index == 0,
            s.index_offset == 0,
            s.index_count == index_len,
    {
        SubMesh { material_index: 0, index_offset: 0, index_count: index_len as u32 }
    }
}

/// Index of corner `k` in the segment pattern.
pub open spec fn segment_corner(k: int) -> int {
    let s = k / 3;
    if k % 3 == 1 {
        2 * s + 1
    } else {
        2 * s
    }
}

/// Degenerate-triangle indices for `n` line segments: segment `s` is
/// `(2s, 2s + 1, 2s)`.
pub fn segment_indices(n: usize) -> (r: Vec<u32>)
    requires
        2 * n <= u32::MAX,
    ensures
        r@.len() == 3 * n,
        forall|k: int| 0 <= k < 3 * n ==> #[trigger] r@[k] as int == segment_corner(k),
{
    let mut r: Vec<u32> = Vec::new();
    let mut s: usize = 0;
    while s < n
        invariant
            s <= n,
            2 * n <= u32::MAX,
            r@.len() == 3 * s,
            forall|k: int| 0 <= k < 3 * s ==> #[trigger] r@[k] as int == segment_corner(k),
        decreases n - s,
    {
        let base = (2 * s) as u32;
        r.push(base);
        r.push(base + 1);
        r.push(base);
        proof {
            assert forall|k: int| 0 <= k < 3 * (s + 1) implies #[trigger] r@[k] as int
                == segment_corner(k) by {
                if k >= 3 * s {
                    assert(k / 3 == s);
                }
            }
        }
        s += 1;
    }
    r
}

/// Offsets of the six corners of a quad split `(0, 2, 1), (0, 3, 2)`.
pub open spec fn quad_offset(j: int) -> int {
    if j == 0 || j == 3 {
        0
    } else if j == 1 || j == 5 {
        2
    } else if j == 2 {
        1
    } else {
        3
    }
}

/// Offsets of the six corners of a ribbon quad split `(0, 1, 2), (1, 3, 2)`.
pub open spec fn ribbon_offset(j: int) -> int {
    if j == 0 {
        0
    } else if j == 1 || j == 3 {
        1
    } else if j == 2 || j == 5 {
        2
    } else {
        3
    }
}

/// Triangle indices for `n` quads, quad `q` owning vertices `4q..4q+4`,
/// each split along its `0–2` diagonal (`ribbon == false`) or its `1–2`
/// diagonal (`ribbon == true`).
pub fn quad_indices(n: usize, ribbon: bool) -> (r: Vec<u32>)
    requires
        4 * n <= u32::MAX,
    ensures
        r@.len() == 6 * n,
        forall|k: int|
            0 <= k < 6 * n ==> #[trigger] r@[k] as int == 4 * (k / 6) + (if ribbon {
                ribbon_offset(k % 6)
            } else {
                quad_offset(k % 6)
            }),
{
    let mut r: Vec<u32> = Vec::new();
    let mut q: usize = 0;
    while q < n
        invariant
            q <= n,
            4 * n <= u32::MAX,
            r@.len() == 6 * q,
            forall|k: int|
                0 <= k < 6 * q ==> #[trigger] r@[k] as int == 4 * (k / 6) + (if ribbon {
                    ribbon_offset(k % 6)
                } else {
                    quad_offset(k % 6)
                }),
        decreases n - q,
    {
        let base = (4 * q) as u32;
        if ribbon {
            r.push(base);
            r.push(base + 1);
            r.push(base + 2);
            r.push(base + 1);
            r.push(base + 3);
            r.push(base + 2);
        } else {
            r.push(base);
            r.push(base + 2);
            r.push(base + 1);
            r.push(base);
            r.push(base + 3);
            r.push(base + 2);
        }
        proof {
            assert forall|k: int| 0 <= k < 6 * (q + 1) implies #[trigger] r@[k] as int == 4 * (k / 6)
                + (if ribbon {
                ribbon_offset(k % 6)
            } else {
                quad_offset(k % 6)
            }) by {
                if k >= 6 * q {
                    assert(k / 6 == q);
                    assert(k % 6 == k - 6 * q);
                }
            }
        }
        q += 1;
    }
    r
}

/// Append `src` to `out`, each index shifted by `base` (joining the index
/// buffers of several models into one vertex list).
pub fn append_with_offset(out: &mut Vec<u32>, src: &Vec<u32>, base: u32)
    requires
        forall|k: int| 0 <= k < src@.len() ==> base + #[trigger] src@[k] <= u32::MAX,
    ensures
        final(out)@.len() == old(out)@.len() + src@.len(),
        final(out)@.subrange(0, old(out)@.len() as int) == old(out)@,
        forall|k: int|
            0 <= k < src@.len() ==> #[trigger] final(out)@[old(out)@.len() + k] == base + src@[k],
{
    let ghost o = out@;
    let mut k: usize = 0;
    while k < src.len()
        invariant
            k <= src@.len(),
            forall|j: int| 0 <= j < src@.len() ==> base + #[trigger] src@[j] <= u32::MAX,
            out@.len() == o.len() + k,
            out@.subrange(0, o.len() as int) == o,
            forall|j: int| 0 <= j < k ==> #[trigger] out@[o.len() + j] == base + src@[j],
        decreases src@.len() - k,
    {
        out.push(base + src[k]);
        proof {
            assert(out@.subrange(0, o.len() as int) =~= o);
        }
        k += 1;
    }
}

/// In both quad splits the two triangles share one diagonal and traverse
/// it in opposite directions, so the two halves are consistently oriented;
/// every corner refers to one of the quad's four vertices.
pub proof fn lemma_quad_splits()
    ensures
        quad_offset(0) == quad_offset(3) && quad_offset(5) == quad_offset(1),
        ribbon_offset(1) == ribbon_offset(3) && ribbon_offset(2) == ribbon_offset(5),
        forall|j: int| 0 <= j < 6 ==> 0 <= #[trigger] quad_offset(j) < 4 && 0 <= ribbon_offset(j) < 4,
{
}

} // verus!
