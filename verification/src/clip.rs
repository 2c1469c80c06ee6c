//! Clipping a triangle mesh to a region (a ball, in the viewer), given for
//! each vertex whether it lies inside.
//!
//! A triangle with all corners inside is kept; one with none is dropped; one
//! that straddles the boundary is cut where its sides cross it.  The cut
//! produces new vertices on sides running from an inside corner to an
//! outside one; where exactly on the side is a geometric computation left to
//! the caller.  Kept input vertices are renumbered in order of first use and
//! shared between triangles; crossing vertices are made per triangle.
use vstd::prelude::*;

verus! {

/// Where a vertex of the clipped mesh comes from.
#[derive(Clone, Copy, Debug, PartialEq, Eq, Structural)]
pub enum ClipVertex {
    /// An input vertex, kept as it is.
    Kept(u32),
    /// The point where the side from the first (inside) vertex to the
    /// second (outside) vertex crosses the boundary.
    Crossing(u32, u32),
}

/// Position of the first `true` among three flags (2 if only the last, or
/// none, is set).
pub open spec fn first_set(f0: bool, f1: bool, f2: bool) -> int {
    if f0 {
        0
    } else if f1 {
        1
    } else {
        2
    }
}

/// The corners that a triangle `v` with inside flags `ins` contributes to
/// the clipped mesh, three per output triangle.
pub open spec fn clip_corners(v: Seq<u32>, ins: Seq<bool>) -> Seq<ClipVertex> {
    let n_in = (if ins[0] { 1int } else { 0 }) + (if ins[1] { 1int } else { 0 }) + (if ins[2] {
        1int
    } else {
        0
    });
    if n_in == 3 {
        seq![ClipVertex::Kept(v[0]), ClipVertex::Kept(v[1]), ClipVertex::Kept(v[2])]
    } else if n_in == 1 {
        let i0 = first_set(ins[0], ins[1], ins[2]);
        let o1 = (i0 + 1) % 3;
        let o2 = (i0 + 2) % 3;
        seq![
            ClipVertex::Kept(v[i0]),
            ClipVertex::Crossing(v[i0], v[o1]),
            ClipVertex::Crossing(v[i0], v[o2]),
        ]
    } else if n_in == 2 {
        let o = first_set(!ins[0], !ins[1], !ins[2]);
        let prev = (o + 2) % 3;
        let next = (o + 1) % 3;
        seq![
            ClipVertex::Kept(v[next]),
            ClipVertex::Kept(v[prev]),
            ClipVertex::Crossing(v[prev], v[o]),
            ClipVertex::Kept(v[next]),
            ClipVertex::Crossing(v[prev], v[o]),
            ClipVertex::Crossing(v[next], v[o]),
        ]
    } else {
        Seq::empty()
    }
}

/// Where a vertex of the clipped mesh lies on the boundary of triangle `v`
/// (three distinct corners), walking around it in corner order: corner `i`
/// at `2 i`, and a point of the side between corners `i` and `i + 1`
/// (mod 3) at `2 i + 1`; `-1` when it is not on the boundary.
pub open spec fn boundary_pos(v: Seq<u32>, c: ClipVertex) -> int {
    match c {
        ClipVertex::Kept(a) => if a == v[0] {
            0
        } else if a == v[1] {
            2
        } else if a == v[2] {
            4
        } else {
            -1
        },
        ClipVertex::Crossing(a, b) => if (a == v[0] && b == v[1]) || (a == v[1] && b == v[0]) {
            1
        } else if (a == v[1] && b == v[2]) || (a == v[2] && b == v[1]) {
            3
        } else if (a == v[2] && b == v[0]) || (a == v[0] && b == v[2]) {
            5
        } else {
            -1
        },
    }
}

/// Three boundary points, taken in order, go once around the triangle in
/// the direction of its corner order: they are distinct and the forward
/// steps from each to the next add up to one turn.
pub open spec fn turns_with(p: int, q: int, r: int) -> bool {
    &&& 0 <= p < 6 && 0 <= q < 6 && 0 <= r < 6
    &&& p != q && q != r && p != r
    &&& (q - p) % 6 + (r - q) % 6 + (p - r) % 6 == 6
}

/// Cutting a triangle keeps its winding: every output triangle has its
/// corners on the boundary of the input triangle and runs around it in the
/// same direction as the input corners `v[0], v[1], v[2]`, so every cut
/// triangle faces the same way as the triangle it was cut from.
pub proof fn lemma_clip_keeps_winding(v: Seq<u32>, ins: Seq<bool>)
    requires
        v.len() == 3,
        ins.len() == 3,
        v[0] != v[1] && v[1] != v[2] && v[0] != v[2],
    ensures
        clip_corners(v, ins).len() % 3 == 0,
        forall|u: int|
            0 <= u < clip_corners(v, ins).len() / 3 ==> #[trigger] turns_with(
                boundary_pos(v, clip_corners(v, ins)[3 * u]),
                boundary_pos(v, clip_corners(v, ins)[3 * u + 1]),
                boundary_pos(v, clip_corners(v, ins)[3 * u + 2]),
            ),
{
    let c = clip_corners(v, ins);
    assert(c.len() % 3 == 0);
    assert forall|u: int| 0 <= u < c.len() / 3 implies #[trigger] turns_with(
        boundary_pos(v, c[3 * u]),
        boundary_pos(v, c[3 * u + 1]),
        boundary_pos(v, c[3 * u + 2]),
    ) by {
        if ins[0] && ins[1] && ins[2] {
            assert(turns_with(0, 2, 4));
        } else if ins[0] && !ins[1] && !ins[2] {
            assert(turns_with(0, 1, 5));
        } else if !ins[0] && ins[1] && !ins[2] {
            assert(turns_with(2, 3, 1));
        } else if !ins[0] && !ins[1] && ins[2] {
            assert(turns_with(4, 5, 3));
        } else if !ins[0] && ins[1] && ins[2] {
            assert(turns_with(2, 4, 5));
            assert(turns_with(2, 5, 1));
        } else if ins[0] && !ins[1] && ins[2] {
            assert(turns_with(4, 0, 1));
            assert(turns_with(4, 1, 3));
        } else if ins[0] && ins[1] && !ins[2] {
            assert(turns_with(0, 2, 3));
            assert(turns_with(0, 3, 5));
        }
    }
}

/// Boundary position `p` (as in `boundary_pos`) is a corner of the part of
/// the triangle inside the region: an inside corner, or the crossing on a
/// side whose two corners lie on different sides.
pub open spec fn in_clipped_polygon(ins: Seq<bool>, p: int) -> bool {
    if p % 2 == 0 {
        ins[p / 2]
    } else {
        ins[p / 2] != ins[(p / 2 + 1) % 3]
    }
}

/// Number of corners of the inside part of the triangle.
pub open spec fn clipped_polygon_size(ins: Seq<bool>) -> int {
    (if in_clipped_polygon(ins, 0) { 1int } else { 0 }) + (if in_clipped_polygon(ins, 1) {
        1int
    } else {
        0
    }) + (if in_clipped_polygon(ins, 2) { 1int } else { 0 }) + (if in_clipped_polygon(ins, 3) {
        1int
    } else {
        0
    }) + (if in_clipped_polygon(ins, 4) { 1int } else { 0 }) + (if in_clipped_polygon(ins, 5) {
        1int
    } else {
        0
    })
}

/// Cutting a triangle covers exactly the part inside the region: every
/// output corner is a corner of that part, every corner of that part is
/// used, and the part (a triangle or a quadrilateral, or nothing) is split
/// into as many triangles as it has corners less two.
pub proof fn lemma_clip_covers_inside_part(v: Seq<u32>, ins: Seq<bool>)
    requires
        v.len() == 3,
        ins.len() == 3,
        v[0] != v[1] && v[1] != v[2] && v[0] != v[2],
    ensures
        forall|k: int|
            0 <= k < clip_corners(v, ins).len() ==> #[trigger] in_clipped_polygon(
                ins,
                boundary_pos(v, clip_corners(v, ins)[k]),
            ),
        forall|p: int|
            0 <= p < 6 && #[trigger] in_clipped_polygon(ins, p) ==> exists|k: int|
                0 <= k < clip_corners(v, ins).len() && boundary_pos(v, #[trigger] clip_corners(v, ins)[k])
                    == p,
        clip_corners(v, ins).len() / 3 == (if clipped_polygon_size(ins) >= 3 {
            clipped_polygon_size(ins) - 2
        } else {
            0
        }),
{
    let c = clip_corners(v, ins);
    assert forall|p: int| 0 <= p < 6 && #[trigger] in_clipped_polygon(ins, p) implies exists|k: int|
        0 <= k < c.len() && boundary_pos(v, #[trigger] c[k]) == p by {
        if c.len() >= 3 {
            assert(boundary_pos(v, c[0]) == boundary_pos(v, c[0]));
            assert(boundary_pos(v, c[1]) == boundary_pos(v, c[1]));
            assert(boundary_pos(v, c[2]) == boundary_pos(v, c[2]));
        }
        if c.len() >= 6 {
            assert(boundary_pos(v, c[5]) == boundary_pos(v, c[5]));
        }
    }
}

/// Corners contributed by triangle `t` of `idx`.
pub open spec fn triangle_clip_corners(idx: Seq<u32>, inside: Seq<bool>, t: int) -> Seq<ClipVertex> {
    let v = seq![idx[3 * t], idx[3 * t + 1], idx[3 * t + 2]];
    clip_corners(v, seq![inside[v[0] as int], inside[v[1] as int], inside[v[2] as int]])
}

/// Corners of the clipped mesh from the first `t` triangles, in order.
pub open spec fn clipped_corners(idx: Seq<u32>, inside: Seq<bool>, t: int) -> Seq<ClipVertex>
    decreases t,
{
    if t <= 0 {
        Seq::empty()
    } else {
        clipped_corners(idx, inside, t - 1) + triangle_clip_corners(idx, inside, t - 1)
    }
}

/// A source is well placed: a kept vertex inside, or a crossing from
/// an inside vertex to an outside one.
pub open spec fn source_ok(inside: Seq<bool>, c: ClipVertex) -> bool {
    match c {
        ClipVertex::Kept(v) => v < inside.len() && inside[v as int],
        ClipVertex::Crossing(p, q) => p < inside.len() && q < inside.len() && inside[p as int]
            && !inside[q as int],
    }
}

/// The clipped mesh: triangle corners as indices into `sources`.
pub struct ClippedMesh {
    pub indices: Vec<u32>,
    pub sources: Vec<ClipVertex>,
}

/// Positions `j1` and `j2` of one triangle's corner list `c` refer to one
/// crossing vertex: they are the same position, or the two uses of the
/// first crossing when the triangle is cut into two.
pub open spec fn crossing_shared(c: Seq<ClipVertex>, j1: int, j2: int) -> bool {
    j1 == j2 || (c.len() == 6 && ((j1 == 2 && j2 == 4) || (j1 == 4 && j2 == 2)))
}

/// Corner `k` of the clipped mesh comes from input triangle `t`.
pub open spec fn from_triangle(idx: Seq<u32>, inside: Seq<bool>, t: int, k: int) -> bool {
    clipped_corners(idx, inside, t).len() <= k < clipped_corners(idx, inside, t + 1).len()
}

/// Corners `k1` and `k2` of the clipped mesh (of the first `n` triangles)
/// refer to one vertex: a kept vertex wherever it is used, a crossing
/// vertex only within the triangle that made it.
pub open spec fn same_vertex(idx: Seq<u32>, inside: Seq<bool>, n: int, k1: int, k2: int) -> bool {
    let c = clipped_corners(idx, inside, n);
    if c[k1] is Kept {
        c[k1] == c[k2]
    } else {
        exists|t: int|
            0 <= t < n && #[trigger] from_triangle(idx, inside, t, k1) && from_triangle(
                idx,
                inside,
                t,
                k2,
            ) && crossing_shared(
                triangle_clip_corners(idx, inside, t),
                k1 - clipped_corners(idx, inside, t).len(),
                k2 - clipped_corners(idx, inside, t).len(),
            )
    }
}

/// Vertices are numbered in order of first use: a vertex other than the
/// first is only used after the vertex numbered just before it.
pub open spec fn numbered_by_first_use(out: Seq<u32>) -> bool {
    forall|k: int| 0 <= k < out.len() && #[trigger] out[k] > 0 ==> is_used(out.take(k), out[k] - 1)
}

/// What holds of a clipped mesh built from the first `t` triangles.
pub open spec fn clip_result_ok(
    idx: Seq<u32>,
    inside: Seq<bool>,
    t: int,
    out: Seq<u32>,
    sources: Seq<ClipVertex>,
) -> bool {
    &&& out.len() == clipped_corners(idx, inside, t).len()
    &&& forall|k: int|
        0 <= k < out.len() ==> (#[trigger] out[k] as int) < sources.len() && sources[out[k] as int]
            == clipped_corners(idx, inside, t)[k]
    &&& forall|i: int, j: int|
        0 <= i < sources.len() && 0 <= j < sources.len() && (#[trigger] sources[i]) == (
        #[trigger] sources[j]) && sources[i] is Kept ==> i == j
    &&& forall|i: int| 0 <= i < sources.len() ==> #[trigger] is_used(out, i)
    &&& numbered_by_first_use(out)
    &&& forall|k1: int, k2: int|
        0 <= k1 < out.len() && 0 <= k2 < out.len() ==> ((#[trigger] out[k1] == #[trigger] out[k2])
            == same_vertex(idx, inside, t, k1, k2))
}

/// Some corner refers to vertex `i`.
pub open spec fn is_used(out: Seq<u32>, i: int) -> bool {
    exists|k: int| 0 <= k < out.len() && #[trigger] out[k] == i
}

proof fn lemma_clip_corners_ok(v: Seq<u32>, ins: Seq<bool>, inside: Seq<bool>)
    requires
        v.len() == 3,
        ins.len() == 3,
        forall|i: int| 0 <= i < 3 ==> (#[trigger] v[i] as int) < inside.len() && ins[i] == inside[v[i] as int],
    ensures
        forall|k: int|
            0 <= k < clip_corners(v, ins).len() ==> source_ok(inside, #[trigger] clip_corners(v, ins)[k]),
        clip_corners(v, ins).len() % 3 == 0,
        clip_corners(v, ins).len() <= 6,
{
    assert(v[0] < inside.len() && v[1] < inside.len() && v[2] < inside.len());
}

proof fn lemma_clipped_corners_len(idx: Seq<u32>, inside: Seq<bool>, t: int)
    requires
        0 <= t,
    ensures
        clipped_corners(idx, inside, t).len() <= 6 * t,
    decreases t,
{
    if t > 0 {
        lemma_clipped_corners_len(idx, inside, t - 1);
        let v = seq![idx[3 * (t - 1)], idx[3 * (t - 1) + 1], idx[3 * (t - 1) + 2]];
        assert(triangle_clip_corners(idx, inside, t - 1).len() <= 6);
    }
}

/// `vert_map` and `sources` agree: every mapped input vertex points at
/// its own source, and every kept source is mapped back to.
pub open spec fn map_ok(vert_map: Seq<u32>, sources: Seq<ClipVertex>) -> bool {
    &&& forall|x: int|
        0 <= x < vert_map.len() && #[trigger] vert_map[x] != u32::MAX ==> (vert_map[x] as int)
            < sources.len() && sources[vert_map[x] as int] == ClipVertex::Kept(x as u32)
    &&& forall|i: int|
        0 <= i < sources.len() && (#[trigger] sources[i]) is Kept ==> {
            let x = sources[i]->Kept_0 as int;
            &&& 0 <= x < vert_map.len()
            &&& vert_map[x] as int == i
        }
}

/// Number of input vertices below `k` that already have an index.
pub open spec fn mapped_count(vert_map: Seq<u32>, k: int) -> int
    decreases k,
{
    if k <= 0 {
        0
    } else {
        mapped_count(vert_map, k - 1) + (if vert_map[k - 1] != u32::MAX {
            1int
        } else {
            0
        })
    }
}

proof fn lemma_mapped_count_bound(vert_map: Seq<u32>, k: int)
    requires
        0 <= k,
    ensures
        0 <= mapped_count(vert_map, k) <= k,
    decreases k,
{
    if k > 0 {
        lemma_mapped_count_bound(vert_map, k - 1);
    }
}

proof fn lemma_mapped_count_update(vert_map: Seq<u32>, v: int, val: u32, k: int)
    requires
        0 <= v < vert_map.len(),
        0 <= k <= vert_map.len(),
        vert_map[v] == u32::MAX,
        val != u32::MAX,
    ensures
        mapped_count(vert_map.update(v, val), k) == mapped_count(vert_map, k) + (if v < k {
            1int
        } else {
            0
        }),
    decreases k,
{
    if k > 0 {
        lemma_mapped_count_update(vert_map, v, val, k - 1);
    }
}

/// Index of input vertex `v` in the clipped mesh, adding it on first use.
fn add_kept(vert_map: &mut Vec<u32>, sources: &mut Vec<ClipVertex>, v: u32) -> (i: u32)
    requires
        (v as int) < old(vert_map)@.len(),
        old(sources)@.len() < u32::MAX,
        map_ok(old(vert_map)@, old(sources)@),
    ensures
        final(vert_map)@.len() == old(vert_map)@.len(),
        (i as int) < final(sources)@.len(),
        final(sources)@[i as int] == ClipVertex::Kept(v),
        final(sources)@ == old(sources)@ || (final(sources)@ == old(sources)@.push(
            ClipVertex::Kept(v),
        ) && i as int == old(sources)@.len()),
        map_ok(final(vert_map)@, final(sources)@),
        final(sources)@.len() - mapped_count(final(vert_map)@, final(vert_map)@.len() as int)
            == old(sources)@.len() - mapped_count(old(vert_map)@, old(vert_map)@.len() as int),
{
    if vert_map[v as usize] == u32::MAX {
        let ni = sources.len() as u32;
        let ghost s0 = sources@;
        let ghost vm0 = vert_map@;
        sources.push(ClipVertex::Kept(v));
        vert_map.set(v as usize, ni);
        proof {
            lemma_mapped_count_update(vm0, v as int, ni, vm0.len() as int);
            assert forall|i: int|
                0 <= i < sources@.len() && (#[trigger] sources@[i]) is Kept implies {
                    let x = sources@[i]->Kept_0 as int;
                    &&& 0 <= x < vert_map@.len()
                    &&& vert_map@[x] as int == i
                } by {
                if i < s0.len() {
                    assert(sources@[i] == s0[i]);
                }
            }
        }
        ni
    } else {
        vert_map[v as usize]
    }
}

/// Push a crossing source, keeping `map_ok`.
fn add_crossing(vert_map: &Vec<u32>, sources: &mut Vec<ClipVertex>, p: u32, q: u32) -> (i: u32)
    requires
        old(sources)@.len() < u32::MAX,
        map_ok(vert_map@, old(sources)@),
    ensures
        final(sources)@ == old(sources)@.push(ClipVertex::Crossing(p, q)),
        i as int == old(sources)@.len(),
        map_ok(vert_map@, final(sources)@),
{
    let ni = sources.len() as u32;
    let ghost s0 = sources@;
    sources.push(ClipVertex::Crossing(p, q));
    proof {
        assert forall|i: int|
            0 <= i < sources@.len() && (#[trigger] sources@[i]) is Kept implies {
                let x = sources@[i]->Kept_0 as int;
                &&& 0 <= x < vert_map@.len()
                &&& vert_map@[x] as int == i
            } by {
            if i < s0.len() {
                assert(sources@[i] == s0[i]);
            }
        }
    }
    ni
}

proof fn lemma_mapped_count_none(vert_map: Seq<u32>, k: int)
    requires
        0 <= k <= vert_map.len(),
        forall|x: int| 0 <= x < k ==> #[trigger] vert_map[x] == u32::MAX,
    ensures
        mapped_count(vert_map, k) == 0,
    decreases k,
{
    if k > 0 {
        lemma_mapped_count_none(vert_map, k - 1);
    }
}

/// What one clipping step guarantees: the maps stay consistent, the old
/// output is kept, and the appended corners refer to sources exactly as the
/// triangle's corner list says, with fresh crossing vertices and numbering
/// by first use.
pub open spec fn clip_step_ok(
    n: int,
    vm0: Seq<u32>,
    src0: Seq<ClipVertex>,
    out0: Seq<u32>,
    vm: Seq<u32>,
    src: Seq<ClipVertex>,
    out: Seq<u32>,
    corners: Seq<ClipVertex>,
) -> bool {
    let added = out.subrange(out0.len() as int, out.len() as int);
    &&& vm.len() == vm0.len()
    &&& map_ok(vm, src)
    &&& src.len() - mapped_count(vm, n) <= src0.len() - mapped_count(vm0, n) + 2
    &&& src0.len() <= src.len()
    &&& src.subrange(0, src0.len() as int) == src0
    &&& out.subrange(0, out0.len() as int) == out0
    &&& out0.len() <= out.len()
    &&& added.len() == corners.len()
    &&& forall|k: int|
        0 <= k < added.len() ==> (#[trigger] added[k] as int) < src.len() && src[added[k] as int]
            == corners[k]
    &&& forall|i: int| src0.len() <= i < src.len() ==> #[trigger] is_used(added, i)
    &&& forall|j: int|
        0 <= j < added.len() && (#[trigger] corners[j]) is Crossing ==> added[j] as int
            >= src0.len()
    &&& forall|j1: int, j2: int|
        0 <= j1 < added.len() && 0 <= j2 < added.len() && (#[trigger] corners[j1]) is Crossing
            ==> ((added[j1] == #[trigger] added[j2]) == crossing_shared(corners, j1, j2))
    &&& forall|j: int|
        0 <= j < added.len() && (#[trigger] added[j]) > 0 ==> (added[j] - 1 < src0.len()
            || is_used(added.take(j), added[j] - 1))
}

/// The witness search shared by the clipping steps: if a corner's index is
/// new and not the first new one, the index just before it was used at an
/// earlier corner of the step.
proof fn lemma_first_use_witness(added: Seq<u32>, l0: int, j: int)
    requires
        0 <= j < added.len() <= 6,
        added[j] > 0,
        added[j] - 1 >= l0 ==> exists|j2: int| 0 <= j2 < j && added[j2] == added[j] - 1,
    ensures
        added[j] - 1 < l0 || is_used(added.take(j), added[j] - 1),
{
    if added[j] - 1 >= l0 {
        let j2 = choose|j2: int| 0 <= j2 < j && added[j2] == added[j] - 1;
        assert(added.take(j)[j2] == added[j2]);
    }
}

/// All three corners inside: the triangle is kept.
fn clip_all_in(
    vert_map: &mut Vec<u32>,
    sources: &mut Vec<ClipVertex>,
    out: &mut Vec<u32>,
    v: [u32; 3],
    inn: [bool; 3],
    Ghost(ins): Ghost<Seq<bool>>,
)
    requires
        inn[0] && inn[1] && inn[2],
        old(vert_map)@.len() == ins.len(),
        forall|i: int| 0 <= i < 3 ==> (#[trigger] v[i] as int) < ins.len() && inn[i] == ins[v[i] as int],
        old(sources)@.len() - mapped_count(old(vert_map)@, ins.len() as int) + 2 + ins.len() < u32::MAX,
        map_ok(old(vert_map)@, old(sources)@),
    ensures
        clip_step_ok(
            ins.len() as int,
            old(vert_map)@,
            old(sources)@,
            old(out)@,
            final(vert_map)@,
            final(sources)@,
            final(out)@,
            clip_corners(seq![v[0], v[1], v[2]], seq![inn[0], inn[1], inn[2]]),
        ),
{
    let ghost out0 = out@;
    let ghost src0 = sources@;
    let ghost l0 = src0.len() as int;
    proof {
        lemma_mapped_count_bound(vert_map@, ins.len() as int);
    }
    let a = add_kept(vert_map, sources, v[0]);
    let ghost l1 = sources@.len() as int;
    proof {
        lemma_mapped_count_bound(vert_map@, ins.len() as int);
    }
    let b = add_kept(vert_map, sources, v[1]);
    let ghost l2 = sources@.len() as int;
    proof {
        lemma_mapped_count_bound(vert_map@, ins.len() as int);
    }
    let c = add_kept(vert_map, sources, v[2]);
    proof {
        assert((l1 == l0 && a < l0) || (l1 == l0 + 1 && a == l0));
        assert((l2 == l1 && b < l1) || (l2 == l1 + 1 && b == l1));
        assert((sources@.len() == l2 && c < l2) || (sources@.len() == l2 + 1 && c == l2));
    }
    out.push(a);
    out.push(b);
    out.push(c);
    proof {
        let added = out@.subrange(out0.len() as int, out@.len() as int);
        assert(added == seq![a, b, c]);
        assert(out@.subrange(0, out0.len() as int) == out0);
        assert(sources@.subrange(0, src0.len() as int) == src0);
        assert forall|i: int| src0.len() <= i < sources@.len() implies #[trigger] is_used(added, i) by {
            if added[0] == i {
            } else if added[1] == i {
            } else {
                assert(added[2] == i);
            }
        }
        assert forall|j: int| 0 <= j < added.len() && (#[trigger] added[j]) > 0 implies (added[j]
            - 1 < l0 || is_used(added.take(j), added[j] - 1)) by {
            if j == 1 && added[1] - 1 >= l0 {
                assert(added[0] == added[1] - 1);
            }
            if j == 2 && added[2] - 1 >= l0 {
                if added[1] == added[2] - 1 {
                } else {
                    assert(added[0] == added[2] - 1);
                }
            }
            lemma_first_use_witness(added, l0, j);
        }
    }
}

/// One corner inside: a smaller triangle with two crossing vertices.
fn clip_one_in(
    vert_map: &mut Vec<u32>,
    sources: &mut Vec<ClipVertex>,
    out: &mut Vec<u32>,
    v: [u32; 3],
    inn: [bool; 3],
    Ghost(ins): Ghost<Seq<bool>>,
)
    requires
        (if inn[0] { 1int } else { 0 }) + (if inn[1] { 1int } else { 0 }) + (if inn[2] { 1int } else { 0 }) == 1,
        old(vert_map)@.len() == ins.len(),
        forall|i: int| 0 <= i < 3 ==> (#[trigger] v[i] as int) < ins.len() && inn[i] == ins[v[i] as int],
        old(sources)@.len() - mapped_count(old(vert_map)@, ins.len() as int) + 2 + ins.len() < u32::MAX,
        map_ok(old(vert_map)@, old(sources)@),
    ensures
        clip_step_ok(
            ins.len() as int,
            old(vert_map)@,
            old(sources)@,
            old(out)@,
            final(vert_map)@,
            final(sources)@,
            final(out)@,
            clip_corners(seq![v[0], v[1], v[2]], seq![inn[0], inn[1], inn[2]]),
        ),
{
    let ghost out0 = out@;
    let ghost src0 = sources@;
    let ghost l0 = src0.len() as int;
    proof {
        lemma_mapped_count_bound(vert_map@, ins.len() as int);
    }
    let i0: usize = if inn[0] {
        0
    } else if inn[1] {
        1
    } else {
        2
    };
    let o1 = (i0 + 1) % 3;
    let o2 = (i0 + 2) % 3;
    let ia = add_kept(vert_map, sources, v[i0]);
    let ghost l1 = sources@.len() as int;
    proof {
        lemma_mapped_count_bound(vert_map@, ins.len() as int);
    }
    let iaa = add_crossing(vert_map, sources, v[i0], v[o1]);
    let ibb = add_crossing(vert_map, sources, v[i0], v[o2]);
    proof {
        assert((l1 == l0 && ia < l0) || (l1 == l0 + 1 && ia == l0));
        assert(iaa == l1 && ibb == l1 + 1);
    }
    out.push(ia);
    out.push(iaa);
    out.push(ibb);
    proof {
        let added = out@.subrange(out0.len() as int, out@.len() as int);
        assert(added == seq![ia, iaa, ibb]);
        assert(out@.subrange(0, out0.len() as int) == out0);
        assert(sources@.subrange(0, src0.len() as int) == src0);
        assert forall|i: int| src0.len() <= i < sources@.len() implies #[trigger] is_used(added, i) by {
            if added[0] == i {
            } else if added[1] == i {
            } else {
                assert(added[2] == i);
            }
        }
        assert forall|j: int| 0 <= j < added.len() && (#[trigger] added[j]) > 0 implies (added[j]
            - 1 < l0 || is_used(added.take(j), added[j] - 1)) by {
            if j == 1 && added[1] - 1 >= l0 {
                assert(added[0] == added[1] - 1);
            }
            if j == 2 {
                assert(added[1] == added[2] - 1);
            }
            lemma_first_use_witness(added, l0, j);
        }
    }
}

/// Two corners inside: a quadrilateral, split into two triangles that
/// share the first crossing vertex.
#[verifier::spinoff_prover]
#[verifier::rlimit(100)]
fn clip_two_in(
    vert_map: &mut Vec<u32>,
    sources: &mut Vec<ClipVertex>,
    out: &mut Vec<u32>,
    v: [u32; 3],
    inn: [bool; 3],
    Ghost(ins): Ghost<Seq<bool>>,
)
    requires
        (if inn[0] { 1int } else { 0 }) + (if inn[1] { 1int } else { 0 }) + (if inn[2] { 1int } else { 0 }) == 2,
        old(vert_map)@.len() == ins.len(),
        forall|i: int| 0 <= i < 3 ==> (#[trigger] v[i] as int) < ins.len() && inn[i] == ins[v[i] as int],
        old(sources)@.len() - mapped_count(old(vert_map)@, ins.len() as int) + 2 + ins.len() < u32::MAX,
        map_ok(old(vert_map)@, old(sources)@),
    ensures
        clip_step_ok(
            ins.len() as int,
            old(vert_map)@,
            old(sources)@,
            old(out)@,
            final(vert_map)@,
            final(sources)@,
            final(out)@,
            clip_corners(seq![v[0], v[1], v[2]], seq![inn[0], inn[1], inn[2]]),
        ),
{
    let ghost out0 = out@;
    let ghost src0 = sources@;
    let ghost l0 = src0.len() as int;
    proof {
        lemma_mapped_count_bound(vert_map@, ins.len() as int);
    }
    let o: usize = if !inn[0] {
        0
    } else if !inn[1] {
        1
    } else {
        2
    };
    let prev = (o + 2) % 3;
    let next = (o + 1) % 3;
    let inext = add_kept(vert_map, sources, v[next]);
    let ghost l1 = sources@.len() as int;
    proof {
        lemma_mapped_count_bound(vert_map@, ins.len() as int);
    }
    let iprev = add_kept(vert_map, sources, v[prev]);
    let ghost l2 = sources@.len() as int;
    proof {
        lemma_mapped_count_bound(vert_map@, ins.len() as int);
    }
    let iaa = add_crossing(vert_map, sources, v[prev], v[o]);
    let ibb = add_crossing(vert_map, sources, v[next], v[o]);
    proof {
        assert((l1 == l0 && inext < l0) || (l1 == l0 + 1 && inext == l0));
        assert((l2 == l1 && iprev < l1) || (l2 == l1 + 1 && iprev == l1));
        assert(iaa == l2 && ibb == l2 + 1);
    }
    out.push(inext);
    out.push(iprev);
    out.push(iaa);
    out.push(inext);
    out.push(iaa);
    out.push(ibb);
    proof {
        let added = out@.subrange(out0.len() as int, out@.len() as int);
        assert(added == seq![inext, iprev, iaa, inext, iaa, ibb]);
        assert(out@.subrange(0, out0.len() as int) == out0);
        assert(sources@.subrange(0, src0.len() as int) == src0);
        assert forall|i: int| src0.len() <= i < sources@.len() implies #[trigger] is_used(added, i) by {
            if added[0] == i {
            } else if added[1] == i {
            } else if added[2] == i {
            } else {
                assert(added[5] == i);
            }
        }
        assert forall|j: int| 0 <= j < added.len() && (#[trigger] added[j]) > 0 implies (added[j]
            - 1 < l0 || is_used(added.take(j), added[j] - 1)) by {
            if j == 1 && added[1] - 1 >= l0 {
                assert(added[0] == added[1] - 1);
            }
            if (j == 2 || j == 4) && added[j] - 1 >= l0 {
                if added[1] == added[j] - 1 {
                } else {
                    assert(added[0] == added[j] - 1);
                }
            }
            if j == 5 {
                assert(added[2] == added[5] - 1);
            }
            lemma_first_use_witness(added, l0, j);
        }
    }
}

/// Clip one triangle with corners `v` (inside flags `inn`), appending its
/// output corners to `out` and any new vertices to `sources`.
fn clip_one(
    vert_map: &mut Vec<u32>,
    sources: &mut Vec<ClipVertex>,
    out: &mut Vec<u32>,
    v: [u32; 3],
    inn: [bool; 3],
    Ghost(ins): Ghost<Seq<bool>>,
)
    requires
        old(vert_map)@.len() == ins.len(),
        forall|i: int| 0 <= i < 3 ==> (#[trigger] v[i] as int) < ins.len() && inn[i] == ins[v[i] as int],
        old(sources)@.len() - mapped_count(old(vert_map)@, ins.len() as int) + 2 + ins.len() < u32::MAX,
        map_ok(old(vert_map)@, old(sources)@),
    ensures
        clip_step_ok(
            ins.len() as int,
            old(vert_map)@,
            old(sources)@,
            old(out)@,
            final(vert_map)@,
            final(sources)@,
            final(out)@,
            clip_corners(seq![v[0], v[1], v[2]], seq![inn[0], inn[1], inn[2]]),
        ),
{
    let n_in: usize = (if inn[0] { 1 } else { 0 }) + (if inn[1] { 1 } else { 0 }) + (if inn[2] {
        1
    } else {
        0
    });
    if n_in == 3 {
        clip_all_in(vert_map, sources, out, v, inn, Ghost(ins));
    } else if n_in == 1 {
        clip_one_in(vert_map, sources, out, v, inn, Ghost(ins));
    } else if n_in == 2 {
        clip_two_in(vert_map, sources, out, v, inn, Ghost(ins));
    } else {
        proof {
            assert(out@.subrange(out@.len() as int, out@.len() as int) =~= Seq::<u32>::empty());
            assert(out@.subrange(0, out@.len() as int) == out@);
            assert(sources@.subrange(0, sources@.len() as int) == sources@);
        }
    }
}

proof fn lemma_clipped_prefix(idx: Seq<u32>, inside: Seq<bool>, t1: int, t2: int)
    requires
        0 <= t1 <= t2,
    ensures
        clipped_corners(idx, inside, t1).len() <= clipped_corners(idx, inside, t2).len(),
        forall|k: int|
            0 <= k < clipped_corners(idx, inside, t1).len() ==> #[trigger] clipped_corners(
                idx,
                inside,
                t2,
            )[k] == clipped_corners(idx, inside, t1)[k],
    decreases t2 - t1,
{
    if t1 < t2 {
        lemma_clipped_prefix(idx, inside, t1, t2 - 1);
        let c = clipped_corners(idx, inside, t2 - 1);
        assert(clipped_corners(idx, inside, t2) == c + triangle_clip_corners(idx, inside, t2 - 1));
        assert forall|k: int| 0 <= k < clipped_corners(idx, inside, t1).len() implies #[trigger] clipped_corners(
            idx,
            inside,
            t2,
        )[k] == clipped_corners(idx, inside, t1)[k] by {
            assert(clipped_corners(idx, inside, t2)[k] == c[k]);
        }
    }
}

/// A corner comes from at most one input triangle.
proof fn lemma_from_triangle_unique(idx: Seq<u32>, inside: Seq<bool>, t1: int, t2: int, k: int)
    requires
        0 <= t1,
        0 <= t2,
        from_triangle(idx, inside, t1, k),
        from_triangle(idx, inside, t2, k),
    ensures
        t1 == t2,
{
    if t1 < t2 {
        lemma_clipped_prefix(idx, inside, t1 + 1, t2);
    } else if t2 < t1 {
        lemma_clipped_prefix(idx, inside, t2 + 1, t1);
    }
}

/// Two corners of earlier triangles share a vertex after the step exactly
/// as before it.
proof fn lemma_pair_old(
    idx: Seq<u32>,
    inside: Seq<bool>,
    t: int,
    out0: Seq<u32>,
    src0: Seq<ClipVertex>,
    out: Seq<u32>,
    k1: int,
    k2: int,
)
    requires
        0 <= t,
        clip_result_ok(idx, inside, t, out0, src0),
        out0.len() <= out.len(),
        out.subrange(0, out0.len() as int) == out0,
        clipped_corners(idx, inside, t + 1) == clipped_corners(idx, inside, t)
            + triangle_clip_corners(idx, inside, t),
        0 <= k1 < out0.len(),
        0 <= k2 < out0.len(),
    ensures
        (out[k1] == out[k2]) == same_vertex(idx, inside, t + 1, k1, k2),
{
    let c0 = clipped_corners(idx, inside, t);
    let c1 = clipped_corners(idx, inside, t + 1);
    assert(out[k1] == out.subrange(0, out0.len() as int)[k1]);
    assert(out[k2] == out.subrange(0, out0.len() as int)[k2]);
    assert((out0[k1] == out0[k2]) == same_vertex(idx, inside, t, k1, k2));
    assert(c1[k1] == c0[k1] && c1[k2] == c0[k2]);
    if c0[k1] is Crossing {
        if same_vertex(idx, inside, t + 1, k1, k2) {
            let tw = choose|tw: int|
                0 <= tw < t + 1 && #[trigger] from_triangle(idx, inside, tw, k1) && from_triangle(
                    idx,
                    inside,
                    tw,
                    k2,
                ) && crossing_shared(
                    triangle_clip_corners(idx, inside, tw),
                    k1 - clipped_corners(idx, inside, tw).len(),
                    k2 - clipped_corners(idx, inside, tw).len(),
                );
            assert(tw < t);
            assert(same_vertex(idx, inside, t, k1, k2));
        }
        if same_vertex(idx, inside, t, k1, k2) {
            let tw = choose|tw: int|
                0 <= tw < t && #[trigger] from_triangle(idx, inside, tw, k1) && from_triangle(
                    idx,
                    inside,
                    tw,
                    k2,
                ) && crossing_shared(
                    triangle_clip_corners(idx, inside, tw),
                    k1 - clipped_corners(idx, inside, tw).len(),
                    k2 - clipped_corners(idx, inside, tw).len(),
                );
            assert(same_vertex(idx, inside, t + 1, k1, k2));
        }
    }
}

/// Two corners of triangle `t` share a vertex exactly as its corner list
/// says.
proof fn lemma_pair_new(
    idx: Seq<u32>,
    inside: Seq<bool>,
    t: int,
    vm0: Seq<u32>,
    vm: Seq<u32>,
    out0: Seq<u32>,
    src0: Seq<ClipVertex>,
    out: Seq<u32>,
    src: Seq<ClipVertex>,
    k1: int,
    k2: int,
)
    requires
        0 <= t,
        clip_step_ok(inside.len() as int, vm0, src0, out0, vm, src, out, triangle_clip_corners(idx, inside, t)),
        out0.len() == clipped_corners(idx, inside, t).len(),
        clipped_corners(idx, inside, t + 1) == clipped_corners(idx, inside, t)
            + triangle_clip_corners(idx, inside, t),
        out0.len() <= k1 < out.len(),
        out0.len() <= k2 < out.len(),
    ensures
        (out[k1] == out[k2]) == same_vertex(idx, inside, t + 1, k1, k2),
{
    let corners = triangle_clip_corners(idx, inside, t);
    let c1 = clipped_corners(idx, inside, t + 1);
    let b = out0.len() as int;
    let added = out.subrange(b, out.len() as int);
    let j1 = k1 - b;
    let j2 = k2 - b;
    assert(out[k1] == added[j1] && out[k2] == added[j2]);
    assert(c1[k1] == corners[j1] && c1[k2] == corners[j2]);
    if corners[j1] is Crossing {
        assert((added[j1] == added[j2]) == crossing_shared(corners, j1, j2));
        if same_vertex(idx, inside, t + 1, k1, k2) {
            let tw = choose|tw: int|
                0 <= tw < t + 1 && #[trigger] from_triangle(idx, inside, tw, k1) && from_triangle(
                    idx,
                    inside,
                    tw,
                    k2,
                ) && crossing_shared(
                    triangle_clip_corners(idx, inside, tw),
                    k1 - clipped_corners(idx, inside, tw).len(),
                    k2 - clipped_corners(idx, inside, tw).len(),
                );
            assert(from_triangle(idx, inside, t, k1));
            lemma_from_triangle_unique(idx, inside, tw, t, k1);
        }
        if crossing_shared(corners, j1, j2) {
            assert(from_triangle(idx, inside, t, k1));
            assert(from_triangle(idx, inside, t, k2));
            assert(same_vertex(idx, inside, t + 1, k1, k2));
        }
    } else {
        assert(src[added[j1] as int] == corners[j1]);
        assert(src[added[j2] as int] == corners[j2]);
        assert(map_ok(vm, src));
    }
}

/// A corner of an earlier triangle and one of triangle `t` share a vertex
/// exactly when both are the same kept vertex.
proof fn lemma_pair_mixed(
    idx: Seq<u32>,
    inside: Seq<bool>,
    t: int,
    vm0: Seq<u32>,
    vm: Seq<u32>,
    out0: Seq<u32>,
    src0: Seq<ClipVertex>,
    out: Seq<u32>,
    src: Seq<ClipVertex>,
    ko: int,
    kn: int,
)
    requires
        0 <= t,
        clip_result_ok(idx, inside, t, out0, src0),
        clip_step_ok(inside.len() as int, vm0, src0, out0, vm, src, out, triangle_clip_corners(idx, inside, t)),
        clipped_corners(idx, inside, t + 1) == clipped_corners(idx, inside, t)
            + triangle_clip_corners(idx, inside, t),
        0 <= ko < out0.len(),
        out0.len() <= kn < out.len(),
    ensures
        (out[ko] == out[kn]) == same_vertex(idx, inside, t + 1, ko, kn),
        (out[kn] == out[ko]) == same_vertex(idx, inside, t + 1, kn, ko),
{
    let corners = triangle_clip_corners(idx, inside, t);
    let c0 = clipped_corners(idx, inside, t);
    let c1 = clipped_corners(idx, inside, t + 1);
    let b = out0.len() as int;
    let added = out.subrange(b, out.len() as int);
    let jn = kn - b;
    assert(out[ko] == out.subrange(0, b)[ko]);
    assert(out[ko] == out0[ko] && out[kn] == added[jn]);
    assert(c1[ko] == c0[ko] && c1[kn] == corners[jn]);
    assert((out0[ko] as int) < src0.len());
    assert(src[out[ko] as int] == src.subrange(0, src0.len() as int)[out[ko] as int]);
    assert(src[out[ko] as int] == c1[ko]);
    assert(src[out[kn] as int] == c1[kn]);
    assert(map_ok(vm, src));
    if corners[jn] is Crossing {
        assert(added[jn] as int >= src0.len());
    }
    assert(from_triangle(idx, inside, t, kn));
    if c1[ko] is Crossing && same_vertex(idx, inside, t + 1, ko, kn) {
        let tw = choose|tw: int|
            0 <= tw < t + 1 && #[trigger] from_triangle(idx, inside, tw, ko) && from_triangle(
                idx,
                inside,
                tw,
                kn,
            ) && crossing_shared(
                triangle_clip_corners(idx, inside, tw),
                ko - clipped_corners(idx, inside, tw).len(),
                kn - clipped_corners(idx, inside, tw).len(),
            );
        lemma_from_triangle_unique(idx, inside, tw, t, kn);
    }
    if c1[kn] is Crossing && same_vertex(idx, inside, t + 1, kn, ko) {
        let tw = choose|tw: int|
            0 <= tw < t + 1 && #[trigger] from_triangle(idx, inside, tw, kn) && from_triangle(
                idx,
                inside,
                tw,
                ko,
            ) && crossing_shared(
                triangle_clip_corners(idx, inside, tw),
                kn - clipped_corners(idx, inside, tw).len(),
                ko - clipped_corners(idx, inside, tw).len(),
            );
        lemma_from_triangle_unique(idx, inside, tw, t, kn);
    }
}

/// One step of the clipping loop: the guarantees of the first `t`
/// triangles and of triangle `t` give those of the first `t + 1`.
proof fn lemma_clip_step(
    idx: Seq<u32>,
    inside: Seq<bool>,
    t: int,
    vm0: Seq<u32>,
    vm: Seq<u32>,
    out0: Seq<u32>,
    src0: Seq<ClipVertex>,
    out: Seq<u32>,
    src: Seq<ClipVertex>,
)
    requires
        0 <= t,
        clip_result_ok(idx, inside, t, out0, src0),
        clip_step_ok(inside.len() as int, vm0, src0, out0, vm, src, out, triangle_clip_corners(idx, inside, t)),
    ensures
        clip_result_ok(idx, inside, t + 1, out, src),
{
    let corners = triangle_clip_corners(idx, inside, t);
    let c1 = clipped_corners(idx, inside, t + 1);
    let added = out.subrange(out0.len() as int, out.len() as int);
    let b = out0.len() as int;
    assert(c1 == clipped_corners(idx, inside, t) + corners);
    lemma_clip_step_basic(idx, inside, t, vm0, vm, out0, src0, out, src);
    assert forall|k1: int, k2: int| 0 <= k1 < out.len() && 0 <= k2 < out.len() implies ((
    #[trigger] out[k1] == #[trigger] out[k2]) == same_vertex(idx, inside, t + 1, k1, k2)) by {
        if k1 < b && k2 < b {
            lemma_pair_old(idx, inside, t, out0, src0, out, k1, k2);
        } else if k1 >= b && k2 >= b {
            lemma_pair_new(idx, inside, t, vm0, vm, out0, src0, out, src, k1, k2);
        } else if k1 < b {
            lemma_pair_mixed(idx, inside, t, vm0, vm, out0, src0, out, src, k1, k2);
        } else {
            lemma_pair_mixed(idx, inside, t, vm0, vm, out0, src0, out, src, k2, k1);
        }
    }
}

/// The counting and numbering part of one loop step.
proof fn lemma_clip_step_basic(
    idx: Seq<u32>,
    inside: Seq<bool>,
    t: int,
    vm0: Seq<u32>,
    vm: Seq<u32>,
    out0: Seq<u32>,
    src0: Seq<ClipVertex>,
    out: Seq<u32>,
    src: Seq<ClipVertex>,
)
    requires
        0 <= t,
        clip_result_ok(idx, inside, t, out0, src0),
        clip_step_ok(inside.len() as int, vm0, src0, out0, vm, src, out, triangle_clip_corners(idx, inside, t)),
    ensures
        out.len() == clipped_corners(idx, inside, t + 1).len(),
        forall|k: int|
            0 <= k < out.len() ==> (#[trigger] out[k] as int) < src.len() && src[out[k] as int]
                == clipped_corners(idx, inside, t + 1)[k],
        forall|i: int, j: int|
            0 <= i < src.len() && 0 <= j < src.len() && (#[trigger] src[i]) == (#[trigger] src[j])
                && src[i] is Kept ==> i == j,
        forall|i: int| 0 <= i < src.len() ==> #[trigger] is_used(out, i),
        numbered_by_first_use(out),
{
    let corners = triangle_clip_corners(idx, inside, t);
    let c1 = clipped_corners(idx, inside, t + 1);
    let added = out.subrange(out0.len() as int, out.len() as int);
    let b = out0.len() as int;
    assert(c1 == clipped_corners(idx, inside, t) + corners);
    assert forall|k: int| 0 <= k < out.len() implies (#[trigger] out[k] as int) < src.len()
        && src[out[k] as int] == c1[k] by {
        if k < b {
            assert(out[k] == out.subrange(0, b)[k]);
            assert(src[out0[k] as int] == src.subrange(0, src0.len() as int)[out0[k] as int]);
        } else {
            assert(out[k] == added[k - b]);
        }
    }
    assert forall|i: int| 0 <= i < src.len() implies #[trigger] is_used(out, i) by {
        if i < src0.len() {
            assert(is_used(out0, i));
            let k = choose|k: int| 0 <= k < out0.len() && #[trigger] out0[k] == i;
            assert(out[k] == out.subrange(0, b)[k]);
        } else {
            assert(is_used(added, i));
            let k = choose|k: int| 0 <= k < added.len() && #[trigger] added[k] == i;
            assert(out[b + k] == i);
        }
    }
    assert(map_ok(vm, src));
    assert forall|k: int| 0 <= k < out.len() && #[trigger] out[k] > 0 implies is_used(
        out.take(k),
        out[k] - 1,
    ) by {
        if k < b {
            assert(out[k] == out.subrange(0, b)[k]);
            assert(is_used(out0.take(k), out0[k] - 1));
            let k2 = choose|k2: int| 0 <= k2 < k && #[trigger] out0.take(k)[k2] == out0[k] - 1;
            assert(out.take(k)[k2] == out.subrange(0, b)[k2]);
        } else {
            let j = k - b;
            assert(out[k] == added[j]);
            if added[j] - 1 < src0.len() {
                assert(is_used(out0, added[j] - 1));
                let k2 = choose|k2: int| 0 <= k2 < out0.len() && #[trigger] out0[k2] == added[j] - 1;
                assert(out.take(k)[k2] == out.subrange(0, b)[k2]);
            } else {
                assert(is_used(added.take(j), added[j] - 1));
                let j2 = choose|j2: int| 0 <= j2 < j && #[trigger] added.take(j)[j2] == added[j] - 1;
                assert(out.take(k)[b + j2] == added[j2]);
            }
        }
    }
}

/// Clip the triangles of `indices` to the region whose vertices are marked
/// in `inside`.
pub fn clip_triangles(indices: &Vec<u32>, inside: &Vec<bool>) -> (r: ClippedMesh)
    requires
        forall|k: int| 0 <= k < indices@.len() ==> (#[trigger] indices@[k] as int) < inside@.len(),
        inside@.len() + 2 * (indices@.len() / 3) < u32::MAX,
    ensures
        clip_result_ok(indices@, inside@, indices@.len() as int / 3, r.indices@, r.sources@),
        forall|i: int| 0 <= i < r.sources@.len() ==> source_ok(inside@, #[trigger] r.sources@[i]),
{
    let ghost s = indices@;
    let ghost ins = inside@;
    let n = inside.len();
    let len = indices.len();
    let nt: usize = len / 3;
    let mut vert_map: Vec<u32> = Vec::new();
    let mut z: usize = 0;
    while z < n
        invariant
            z <= n,
            vert_map@.len() == z,
            forall|x: int| 0 <= x < z ==> #[trigger] vert_map@[x] == u32::MAX,
        decreases n - z,
    {
        vert_map.push(u32::MAX);
        z += 1;
    }
    let mut sources: Vec<ClipVertex> = Vec::new();
    let mut out: Vec<u32> = Vec::new();
    proof {
        lemma_mapped_count_none(vert_map@, n as int);
    }
    let mut t: usize = 0;
    while t < nt
        invariant
            s == indices@,
            ins == inside@,
            n == ins.len(),
            nt as int == s.len() / 3,
            len == s.len(),
            forall|k: int| 0 <= k < s.len() ==> (#[trigger] s[k] as int) < n,
            n + 2 * nt < u32::MAX,
            t <= nt,
            vert_map@.len() == n,
            sources@.len() - mapped_count(vert_map@, n as int) <= 2 * t,
            clip_result_ok(s, ins, t as int, out@, sources@),
            forall|i: int| 0 <= i < sources@.len() ==> source_ok(ins, #[trigger] sources@[i]),
            map_ok(vert_map@, sources@),
        decreases nt - t,
    {
        let base = 3 * t;
        let v = [indices[base], indices[base + 1], indices[base + 2]];
        let inn = [inside[v[0] as usize], inside[v[1] as usize], inside[v[2] as usize]];
        let ghost vs = seq![v[0], v[1], v[2]];
        let ghost is = seq![inn[0], inn[1], inn[2]];
        let ghost corners = clip_corners(vs, is);
        proof {
            assert(vs == seq![s[3 * t], s[3 * t + 1], s[3 * t + 2]]);
            assert(corners == triangle_clip_corners(s, ins, t as int));
            lemma_clip_corners_ok(vs, is, ins);
            lemma_mapped_count_bound(vert_map@, n as int);
        }
        let ghost out0 = out@;
        let ghost src0 = sources@;
        let ghost vm0 = vert_map@;
        clip_one(&mut vert_map, &mut sources, &mut out, v, inn, Ghost(ins));
        proof {
            let added = out@.subrange(out0.len() as int, out@.len() as int);
            assert(clip_step_ok(
                ins.len() as int,
                vm0,
                src0,
                out0,
                vert_map@,
                sources@,
                out@,
                corners,
            ));
            lemma_clip_step(s, ins, t as int, vm0, vert_map@, out0, src0, out@, sources@);
            assert forall|i: int| 0 <= i < sources@.len() implies source_ok(
                ins,
                #[trigger] sources@[i],
            ) by {
                if i < src0.len() {
                    assert(sources@.subrange(0, src0.len() as int)[i] == src0[i]);
                } else {
                    assert(is_used(added, i));
                    let k = choose|k: int| 0 <= k < added.len() && #[trigger] added[k] == i;
                    assert(sources@[added[k] as int] == corners[k]);
                }
            }
        }
        t += 1;
    }
    ClippedMesh { indices: out, sources }
}

} // verus!
