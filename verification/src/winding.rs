//! Winding repair for triangle index buffers.
//!
//! Triangles joined across a shared edge should traverse that edge in
//! opposite directions.  `orient_faces` flips triangles (swapping their
//! second and third corners) so that this holds wherever the mesh admits it,
//! keeping the lowest-numbered triangle of each connected component as it
//! is, and numbers the components.  Which components then face the wrong
//! way is a question of geometry; `flip_components` turns whole components
//! over once that has been decided.
use vstd::prelude::*;
use crate::adjacency::{
    is_orientation, is_orientation_of, lemma_path_same_root, occ_forward, orientable, scan_edges,
    scan_facts, EdgeScan,
};
use crate::connectivity::{
    boundary_edge_count, component_count, components_below, count_edges_at_least,
    count_edges_exactly, edge_list, edge_set, face_count, face_has_edge, faces_connected, faces_share_edge,
    incidence, incidence_upto, is_component_first, is_face_path, lemma_connected_refl,
    lemma_connected_step, lemma_connected_symmetric, lemma_connected_transitive,
    lemma_share_from_occurrences, lemma_distinct_keys, lemma_edge_list_is_edge_set,
    lemma_occ_in_range, non_manifold_edge_count, occ_from, occ_key, occ_to, occurrence_count,
};
use crate::topology::topology_of;

verus! {

/// Corner `k` of `old` after the triangles marked in `fl` are flipped
/// (second and third corners swapped).  Positions past the last complete
/// triangle stay as they are.
pub open spec fn flipped_at(old: Seq<u32>, fl: Seq<bool>, k: int) -> u32 {
    if k < occurrence_count(old) && fl[k / 3] && k % 3 == 1 {
        old[k + 1]
    } else if k < occurrence_count(old) && fl[k / 3] && k % 3 == 2 {
        old[k - 1]
    } else {
        old[k]
    }
}

/// `new` is `old` with exactly the triangles marked in `fl` flipped.
pub open spec fn flipped_by(old: Seq<u32>, new: Seq<u32>, fl: Seq<bool>) -> bool {
    &&& new.len() == old.len()
    &&& fl.len() == face_count(old)
    &&& forall|k: int| 0 <= k < old.len() ==> #[trigger] new[k] == flipped_at(old, fl, k)
}

/// Any two triangle sides along the same edge (with two distinct endpoints)
/// traverse it in opposite directions.
pub open spec fn consistently_oriented(idx: Seq<u32>) -> bool {
    forall|k1: int, k2: int|
        #![trigger occ_key(idx, k1), occ_key(idx, k2)]
        0 <= k1 < occurrence_count(idx) && 0 <= k2 < occurrence_count(idx) && k1 != k2 && occ_key(
            idx,
            k1,
        ) == occ_key(idx, k2) && occ_key(idx, k1).0 != occ_key(idx, k1).1 ==> occ_forward(idx, k1)
            != occ_forward(idx, k2)
}

/// Every two triangle sides along the same edge already run in opposite
/// directions (degenerate edges included): no flip is needed.
pub open spec fn needs_no_flip(idx: Seq<u32>) -> bool {
    is_orientation(idx, Seq::new(face_count(idx) as nat, |f: int| false))
}

/// The component of triangle `g` admits a consistent orientation.
pub open spec fn component_orientable(idx: Seq<u32>, g: int) -> bool {
    exists|o: Seq<bool>| #[trigger] is_orientation_of(idx, o, g)
}

/// In `idx`, any two triangle sides along one edge (with two distinct
/// endpoints), on triangles that `conn` connects to triangle `g`, run in
/// opposite directions.
pub open spec fn consistently_oriented_near(idx: Seq<u32>, conn: Seq<u32>, g: int) -> bool {
    forall|k1: int, k2: int|
        #![trigger occ_key(idx, k1), occ_key(idx, k2)]
        0 <= k1 < occurrence_count(idx) && 0 <= k2 < occurrence_count(idx) && k1 != k2 && occ_key(
            idx,
            k1,
        ) == occ_key(idx, k2) && occ_key(idx, k1).0 != occ_key(idx, k1).1 && faces_connected(
            conn,
            g,
            k1 / 3,
        ) ==> occ_forward(idx, k1) != occ_forward(idx, k2)
}

/// Component numbering: equal numbers exactly for connected triangles,
/// numbered by their lowest triangle in increasing order.
pub open spec fn is_component_numbering(idx: Seq<u32>, comp: Seq<usize>) -> bool {
    &&& comp.len() == face_count(idx)
    &&& forall|f: int| 0 <= f < comp.len() ==> #[trigger] comp[f] < component_count(idx)
    &&& forall|f: int, g: int|
        0 <= f < comp.len() && 0 <= g < comp.len() ==> (#[trigger] comp[f] == #[trigger] comp[g]
            <==> faces_connected(idx, f, g))
    &&& forall|f: int|
        0 <= f < comp.len() && #[trigger] is_component_first(idx, f) ==> comp[f]
            == components_below(idx, f)
}

/// Position in the unflipped buffer of the corner that a flip of `fl` moves
/// to position `k`: the edge starting at `k` afterwards is the edge that
/// started there before, reversed.
pub open spec fn flip_source(fl: Seq<bool>, k: int) -> int {
    if fl[k / 3] {
        3 * (k / 3) + (2 - k % 3)
    } else {
        k
    }
}

proof fn lemma_flip_occurrence(old: Seq<u32>, new: Seq<u32>, fl: Seq<bool>, k: int)
    requires
        flipped_by(old, new, fl),
        0 <= k < occurrence_count(old),
    ensures
        0 <= flip_source(fl, k) < occurrence_count(old),
        flip_source(fl, k) / 3 == k / 3,
        occ_key(new, k) == occ_key(old, flip_source(fl, k)),
        !fl[k / 3] ==> occ_from(new, k) == occ_from(old, k) && occ_to(new, k) == occ_to(old, k),
        fl[k / 3] ==> occ_from(new, k) == occ_to(old, flip_source(fl, k)) && occ_to(new, k)
            == occ_from(old, flip_source(fl, k)),
{
    lemma_occ_in_range(old, k);
    let b = 3 * (k / 3);
    assert(new[b] == flipped_at(old, fl, b));
    assert(new[b + 1] == flipped_at(old, fl, b + 1));
    assert(new[b + 2] == flipped_at(old, fl, b + 2));
    assert(b / 3 == k / 3 && (b + 1) / 3 == k / 3 && (b + 2) / 3 == k / 3);
    assert(b % 3 == 0 && (b + 1) % 3 == 1 && (b + 2) % 3 == 2);
}

/// `components_below` grows by one at each lowest triangle of a component.
pub proof fn lemma_components_below_monotone(idx: Seq<u32>, a: int, b: int)
    requires
        0 <= a <= b,
    ensures
        components_below(idx, a) <= components_below(idx, b),
        a < b && is_component_first(idx, a) ==> components_below(idx, a) < components_below(idx, b),
    decreases b - a,
{
    if a < b {
        lemma_components_below_monotone(idx, a, b - 1);
        if is_component_first(idx, a) && a == b - 1 {
            assert(components_below(idx, b) == components_below(idx, a) + 1);
        }
    }
}

/// There are no more components below `n` than triangles below `n`.
pub proof fn lemma_components_below_bound(idx: Seq<u32>, n: int)
    requires
        0 <= n,
    ensures
        components_below(idx, n) <= n,
    decreases n,
{
    if n > 0 {
        lemma_components_below_bound(idx, n - 1);
    }
}

/// The representative of every triangle is the lowest triangle of its
/// component.
proof fn lemma_root_is_first(s: Seq<u32>, r: EdgeScan, x: int)
    requires
        scan_facts(s, r),
        0 <= x < face_count(s),
    ensures
        is_component_first(s, r.uf.root(x)),
        is_component_first(s, x) ==> r.uf.root(x) == x,
{
    r.uf.lemma_root(x);
    let rx = r.uf.root(x);
    assert forall|g: int| 0 <= g < rx implies !#[trigger] faces_connected(s, g, rx) by {
        if faces_connected(s, g, rx) {
            let p = choose|p: Seq<int>| #[trigger] is_face_path(s, p) && p[0] == g && p.last() == rx;
            lemma_path_same_root(s, r.uf, r.keys@, r.first_face@, p, p.len() as int);
            r.uf.lemma_root(g);
        }
    }
    if is_component_first(s, x) && rx != x {
        assert(faces_connected(s, x, rx));
        lemma_connected_symmetric(s, x, rx);
    }
}

/// Two triangles are connected exactly when they have one representative.
proof fn lemma_connected_iff_same_root(s: Seq<u32>, r: EdgeScan, f: int, g: int)
    requires
        scan_facts(s, r),
        0 <= f < face_count(s),
        0 <= g < face_count(s),
    ensures
        faces_connected(s, f, g) <==> r.uf.root(f) == r.uf.root(g),
{
    if faces_connected(s, f, g) {
        let p = choose|p: Seq<int>| #[trigger] is_face_path(s, p) && p[0] == f && p.last() == g;
        lemma_path_same_root(s, r.uf, r.keys@, r.first_face@, p, p.len() as int);
    }
    if r.uf.root(f) == r.uf.root(g) {
        assert(faces_connected(s, g, r.uf.root(g)));
        lemma_connected_symmetric(s, g, r.uf.root(g));
        lemma_connected_transitive(s, f, r.uf.root(f), g);
    }
}

/// Swap the second and third corners of triangle `f`.
fn flip_triangle(indices: &mut Vec<u32>, f: usize)
    requires
        3 * f + 2 < old(indices).len(),
    ensures
        final(indices)@ == old(indices)@.update(3 * f + 1, old(indices)@[3 * f + 2]).update(
            3 * f + 2,
            old(indices)@[3 * f + 1],
        ),
{
    let i1: usize = 3 * f + 1;
    let i2: usize = i1 + 1;
    let b = indices[i1];
    let c = indices[i2];
    indices.set(i1, c);
    indices.set(i2, b);
}

/// Flip triangles so that shared edges are traversed in opposite
/// directions wherever the mesh allows it, and number the connected
/// components (across shared edges) in order of their lowest triangle.
///
/// Each triangle is flipped or not relative to the lowest triangle of its
/// component, which is never flipped.  On a mesh that admits a consistent
/// orientation the result is consistently oriented.
pub fn orient_faces(indices: &mut Vec<u32>) -> (comp: Vec<usize>)
    ensures
        exists|fl: Seq<bool>|
            #[trigger] flipped_by(old(indices)@, final(indices)@, fl) && forall|f: int|
                0 <= f < face_count(old(indices)@) && #[trigger] is_component_first(
                    old(indices)@,
                    f,
                ) ==> !fl[f],
        orientable(old(indices)@) ==> consistently_oriented(final(indices)@),
        forall|g: int|
            #[trigger] component_orientable(old(indices)@, g) ==> consistently_oriented_near(
                final(indices)@,
                old(indices)@,
                g,
            ),
        needs_no_flip(old(indices)@) ==> final(indices)@ == old(indices)@,
        is_component_numbering(old(indices)@, comp@),
{
    let ghost s = indices@;
    let scan = scan_edges(indices);
    let ghost r0 = scan;
    let EdgeScan { mut uf, .. } = scan;
    let nf: usize = indices.len() / 3;
    let ghost fl: Seq<bool> = Seq::new(nf as nat, |x: int| r0.uf.par(x));
    let mut comp: Vec<usize> = Vec::new();
    let mut n_comps: usize = 0;
    let mut f: usize = 0;
    while f < nf
        invariant
            scan_facts(s, r0),
            nf as int == face_count(s),
            fl.len() == nf,
            forall|x: int| 0 <= x < nf ==> #[trigger] fl[x] == r0.uf.par(x),
            indices@.len() == s.len(),
            f <= nf,
            forall|k: int|
                0 <= k < s.len() ==> #[trigger] indices@[k] == (if k < 3 * f {
                    flipped_at(s, fl, k)
                } else {
                    s[k]
                }),
            uf.wf(),
            uf.size() == nf,
            forall|y: int|
                0 <= y < nf ==> #[trigger] uf.root(y) == r0.uf.root(y) && uf.par(y) == r0.uf.par(
                    y,
                ),
            comp@.len() == f,
            n_comps as int == components_below(s, f as int),
            n_comps <= f,
            forall|g: int|
                0 <= g < f ==> #[trigger] comp@[g] as int == components_below(s, r0.uf.root(g)),
        decreases nf - f,
    {
        proof {
            lemma_root_is_first(s, r0, f as int);
            r0.uf.lemma_root(f as int);
            lemma_components_below_bound(s, f as int);
        }
        let (r, p) = uf.find(f);
        let ghost before = indices@;
        if p {
            flip_triangle(indices, f);
        }
        proof {
            assert forall|k: int| 0 <= k < s.len() implies #[trigger] indices@[k] == (if k < 3 * (f
                + 1) {
                flipped_at(s, fl, k)
            } else {
                s[k]
            }) by {
                if 3 * f <= k < 3 * f + 3 {
                    assert(k / 3 == f);
                    assert(fl[k / 3] == p);
                } else {
                    assert(indices@[k] == before[k]);
                }
            }
        }
        if r == f {
            proof {
                assert(is_component_first(s, f as int));
            }
            comp.push(n_comps);
            n_comps = n_comps + 1;
        } else {
            let c = comp[r];
            proof {
                assert(!is_component_first(s, f as int)) by {
                    assert(faces_connected(s, f as int, r as int));
                    lemma_connected_symmetric(s, f as int, r as int);
                }
                r0.uf.lemma_root(r as int);
            }
            comp.push(c);
        }
        f += 1;
    }
    proof {
        assert(flipped_by(s, indices@, fl));
        assert forall|x: int| 0 <= x < nf && #[trigger] is_component_first(s, x) implies !fl[x] by {
            lemma_root_is_first(s, r0, x);
            r0.uf.lemma_root(x);
        }
        // component numbering
        assert forall|x: int| 0 <= x < nf implies #[trigger] comp@[x] < component_count(s) by {
            lemma_root_is_first(s, r0, x);
            r0.uf.lemma_root(x);
            lemma_components_below_monotone(s, r0.uf.root(x), nf as int);
        }
        assert forall|x: int, y: int| 0 <= x < nf && 0 <= y < nf implies (#[trigger] comp@[x]
            == #[trigger] comp@[y] <==> faces_connected(s, x, y)) by {
            lemma_connected_iff_same_root(s, r0, x, y);
            lemma_root_is_first(s, r0, x);
            lemma_root_is_first(s, r0, y);
            r0.uf.lemma_root(x);
            r0.uf.lemma_root(y);
            let rx = r0.uf.root(x);
            let ry = r0.uf.root(y);
            if rx < ry {
                lemma_components_below_monotone(s, rx, ry);
            } else if ry < rx {
                lemma_components_below_monotone(s, ry, rx);
            }
        }
        assert forall|x: int| 0 <= x < nf && #[trigger] is_component_first(s, x) implies comp@[x]
            == components_below(s, x) by {
            lemma_root_is_first(s, r0, x);
        }
        assert(is_component_numbering(s, comp@));
        if needs_no_flip(s) {
            let o = Seq::new(nf as nat, |f: int| false);
            assert(is_orientation(s, o));
            assert forall|k: int| 0 <= k < s.len() implies #[trigger] indices@[k] == s[k] by {
                if k < 3 * nf {
                    r0.uf.lemma_root(k / 3);
                    assert(is_orientation_of(s, o, k / 3));
                    lemma_connected_refl(s, k / 3);
                    assert(r0.uf.par(k / 3) == (o[k / 3] != o[r0.uf.root(k / 3)]));
                    assert(!fl[k / 3]);
                }
            }
            assert(indices@ =~= s);
        }
        // consistent orientation, component by component
        let t = indices@;
        assert forall|g: int| #[trigger] component_orientable(s, g) implies consistently_oriented_near(
            t,
            s,
            g,
        ) by {
            let o = choose|o: Seq<bool>| #[trigger] is_orientation_of(s, o, g);
            assert forall|k1: int, k2: int|
                #![trigger occ_key(t, k1), occ_key(t, k2)]
                0 <= k1 < occurrence_count(t) && 0 <= k2 < occurrence_count(t) && k1 != k2
                    && occ_key(t, k1) == occ_key(t, k2) && occ_key(t, k1).0 != occ_key(t, k1).1
                    && faces_connected(s, g, k1 / 3) implies occ_forward(t, k1) != occ_forward(
                t,
                k2,
            ) by {
                lemma_flip_occurrence(s, t, fl, k1);
                lemma_flip_occurrence(s, t, fl, k2);
                let s1 = flip_source(fl, k1);
                let s2 = flip_source(fl, k2);
                let f1 = k1 / 3;
                let f2 = k2 / 3;
                assert(s1 != s2);
                lemma_distinct_keys(s, occurrence_count(s));
                let e = occ_key(s, s1);
                assert(edge_list(s).contains(e));
                let i = choose|i: int| 0 <= i < r0.keys@.len() && r0.keys@[i] == e;
                assert(r0.uf.root(s1 / 3) == r0.uf.root(r0.first_face@[i] as int));
                assert(r0.uf.root(s2 / 3) == r0.uf.root(r0.first_face@[i] as int));
                lemma_occ_in_range(t, k1);
                lemma_occ_in_range(t, k2);
                lemma_share_from_occurrences(s, s1, s2);
                lemma_connected_step(s, f1, f2);
                lemma_connected_transitive(s, g, f1, f2);
                assert((o[s1 / 3] != o[s2 / 3]) == (occ_forward(s, s1) == occ_forward(s, s2)));
                r0.uf.lemma_root(f1);
                r0.uf.lemma_root(f2);
                assert(r0.uf.par(f1) == (o[f1] != o[r0.uf.root(f1)]));
                assert(r0.uf.par(f2) == (o[f2] != o[r0.uf.root(f2)]));
            }
        }
        if orientable(s) {
            let o = choose|o: Seq<bool>| #[trigger] is_orientation(s, o);
            assert forall|k1: int, k2: int|
                #![trigger occ_key(t, k1), occ_key(t, k2)]
                0 <= k1 < occurrence_count(t) && 0 <= k2 < occurrence_count(t) && k1 != k2
                    && occ_key(t, k1) == occ_key(t, k2) && occ_key(t, k1).0 != occ_key(t, k1).1
                    implies occ_forward(t, k1) != occ_forward(t, k2) by {
                let f1 = k1 / 3;
                lemma_occ_in_range(t, k1);
                assert(is_orientation_of(s, o, f1));
                assert(component_orientable(s, f1));
                lemma_connected_refl(s, f1);
                assert(consistently_oriented_near(t, s, f1));
            }
        }
    }
    comp
}

/// Flip every triangle whose component is marked in `flip`.
pub fn flip_components(indices: &mut Vec<u32>, comp: &Vec<usize>, flip: &Vec<bool>)
    requires
        comp@.len() == face_count(old(indices)@),
        forall|f: int| 0 <= f < comp@.len() ==> #[trigger] comp@[f] < flip@.len(),
    ensures
        flipped_by(
            old(indices)@,
            final(indices)@,
            Seq::new(comp@.len(), |f: int| flip@[comp@[f] as int]),
        ),
{
    let ghost s = indices@;
    let ghost fl = Seq::new(comp@.len(), |f: int| flip@[comp@[f] as int]);
    let nf: usize = indices.len() / 3;
    let mut f: usize = 0;
    while f < nf
        invariant
            nf as int == face_count(s),
            comp@.len() == nf,
            forall|g: int| 0 <= g < comp@.len() ==> #[trigger] comp@[g] < flip@.len(),
            fl == Seq::new(comp@.len(), |g: int| flip@[comp@[g] as int]),
            indices@.len() == s.len(),
            f <= nf,
            forall|k: int|
                0 <= k < s.len() ==> #[trigger] indices@[k] == (if k < 3 * f {
                    flipped_at(s, fl, k)
                } else {
                    s[k]
                }),
        decreases nf - f,
    {
        let ghost before = indices@;
        if flip[comp[f]] {
            flip_triangle(indices, f);
        }
        proof {
            assert forall|k: int| 0 <= k < s.len() implies #[trigger] indices@[k] == (if k < 3 * (f
                + 1) {
                flipped_at(s, fl, k)
            } else {
                s[k]
            }) by {
                if 3 * f <= k < 3 * f + 3 {
                    assert(k / 3 == f);
                    assert(fl[k / 3] == flip@[comp@[f as int] as int]);
                } else {
                    assert(indices@[k] == before[k]);
                }
            }
        }
        f += 1;
    }
    assert(flipped_by(s, indices@, fl));
}

/// Turning whole components over keeps windings consistent.  Let `idx`
/// come from `conn` by flipping triangles (as `orient_faces` produces it),
/// `comp` number the components of `conn`, and `out` be `idx` with every
/// triangle flipped whose component `flip` marks (as `flip_components`
/// produces it).  Then any component of `conn` that was consistently
/// oriented in `idx` is consistently oriented in `out`.
pub proof fn lemma_component_flip_keeps_orientation(
    conn: Seq<u32>,
    fl0: Seq<bool>,
    idx: Seq<u32>,
    comp: Seq<usize>,
    flip: Seq<bool>,
    out: Seq<u32>,
    g: int,
)
    requires
        flipped_by(conn, idx, fl0),
        is_component_numbering(conn, comp),
        forall|f: int| 0 <= f < comp.len() ==> #[trigger] comp[f] < flip.len(),
        flipped_by(idx, out, Seq::new(comp.len(), |f: int| flip[comp[f] as int])),
        consistently_oriented_near(idx, conn, g),
    ensures
        consistently_oriented_near(out, conn, g),
{
    let fl = Seq::new(comp.len(), |f: int| flip[comp[f] as int]);
    assert forall|k1: int, k2: int|
        #![trigger occ_key(out, k1), occ_key(out, k2)]
        0 <= k1 < occurrence_count(out) && 0 <= k2 < occurrence_count(out) && k1 != k2 && occ_key(
            out,
            k1,
        ) == occ_key(out, k2) && occ_key(out, k1).0 != occ_key(out, k1).1 && faces_connected(
            conn,
            g,
            k1 / 3,
        ) implies occ_forward(out, k1) != occ_forward(out, k2) by {
        lemma_flip_occurrence(idx, out, fl, k1);
        lemma_flip_occurrence(idx, out, fl, k2);
        lemma_flip_source_involution(fl, k1);
        lemma_flip_source_involution(fl, k2);
        let s1 = flip_source(fl, k1);
        let s2 = flip_source(fl, k2);
        let f1 = k1 / 3;
        let f2 = k2 / 3;
        assert(s1 != s2);
        lemma_share_from_occurrences(idx, s1, s2);
        lemma_flip_share(conn, idx, fl0, f1, f2);
        lemma_occ_in_range(out, k1);
        lemma_occ_in_range(out, k2);
        lemma_connected_step(conn, f1, f2);
        assert(comp[f1] == comp[f2]);
        assert(fl[f1] == fl[f2]);
        assert(occ_key(idx, s1) == occ_key(idx, s2));
        assert(occ_forward(idx, s1) != occ_forward(idx, s2));
    }
}

/// Turning whole components over keeps a consistently oriented buffer
/// consistently oriented.
pub proof fn lemma_component_flip_keeps_consistency(
    idx: Seq<u32>,
    comp: Seq<usize>,
    flip: Seq<bool>,
    out: Seq<u32>,
)
    requires
        is_component_numbering(idx, comp),
        forall|f: int| 0 <= f < comp.len() ==> #[trigger] comp[f] < flip.len(),
        flipped_by(idx, out, Seq::new(comp.len(), |f: int| flip[comp[f] as int])),
        consistently_oriented(idx),
    ensures
        consistently_oriented(out),
{
    let none = Seq::new(face_count(idx) as nat, |f: int| false);
    assert(flipped_by(idx, idx, none));
    assert forall|k1: int, k2: int|
        #![trigger occ_key(out, k1), occ_key(out, k2)]
        0 <= k1 < occurrence_count(out) && 0 <= k2 < occurrence_count(out) && k1 != k2 && occ_key(
            out,
            k1,
        ) == occ_key(out, k2) && occ_key(out, k1).0 != occ_key(out, k1).1 implies occ_forward(
        out,
        k1,
    ) != occ_forward(out, k2) by {
        let f1 = k1 / 3;
        lemma_occ_in_range(out, k1);
        lemma_connected_refl(idx, f1);
        assert(consistently_oriented_near(idx, idx, f1));
        lemma_component_flip_keeps_orientation(idx, none, idx, comp, flip, out, f1);
        assert(consistently_oriented_near(out, idx, f1));
    }
}

/// Flipping the same triangles twice gives the buffer back.
pub proof fn lemma_flip_twice(a: Seq<u32>, b: Seq<u32>, c: Seq<u32>, fl: Seq<bool>)
    requires
        flipped_by(a, b, fl),
        flipped_by(b, c, fl),
    ensures
        c == a,
{
    assert forall|k: int| 0 <= k < a.len() implies #[trigger] c[k] == a[k] by {
        assert(c[k] == flipped_at(b, fl, k));
        if k < occurrence_count(a) {
            assert(occurrence_count(b) == occurrence_count(a));
            if fl[k / 3] && k % 3 == 1 {
                assert(b[k + 1] == flipped_at(a, fl, k + 1));
                assert((k + 1) / 3 == k / 3 && (k + 1) % 3 == 2);
            } else if fl[k / 3] && k % 3 == 2 {
                assert(b[k - 1] == flipped_at(a, fl, k - 1));
                assert((k - 1) / 3 == k / 3 && (k - 1) % 3 == 1);
            } else {
                assert(b[k] == flipped_at(a, fl, k));
            }
        } else {
            assert(b[k] == flipped_at(a, fl, k));
        }
    }
    assert(c =~= a);
}

/// Flipping a triangle only permutes its corners: the source of the source
/// of a corner is the corner itself.
proof fn lemma_flip_source_involution(fl: Seq<bool>, k: int)
    requires
        0 <= k < 3 * fl.len(),
    ensures
        0 <= flip_source(fl, k) < 3 * fl.len(),
        flip_source(fl, k) / 3 == k / 3,
        flip_source(fl, flip_source(fl, k)) == k,
{
}

proof fn lemma_flip_edge_set(old: Seq<u32>, new: Seq<u32>, fl: Seq<bool>)
    requires
        flipped_by(old, new, fl),
    ensures
        edge_set(new) == edge_set(old),
{
    assert forall|e: (u32, u32)| edge_set(new).contains(e) <==> edge_set(old).contains(e) by {
        if edge_set(new).contains(e) {
            let k = choose|k: int| 0 <= k < occurrence_count(new) && occ_key(new, k) == e;
            lemma_flip_occurrence(old, new, fl, k);
        }
        if edge_set(old).contains(e) {
            let k = choose|k: int| 0 <= k < occurrence_count(old) && occ_key(old, k) == e;
            lemma_flip_source_involution(fl, k);
            lemma_flip_occurrence(old, new, fl, flip_source(fl, k));
        }
    }
    assert(edge_set(new) =~= edge_set(old));
}

proof fn lemma_flip_incidence(old: Seq<u32>, new: Seq<u32>, fl: Seq<bool>, e: (u32, u32), f: int)
    requires
        flipped_by(old, new, fl),
        0 <= f <= face_count(old),
    ensures
        incidence_upto(new, e, f) == incidence_upto(old, e, f),
    decreases f,
{
    if f > 0 {
        lemma_flip_incidence(old, new, fl, e, f - 1);
        let b = 3 * (f - 1);
        lemma_flip_occurrence(old, new, fl, b);
        lemma_flip_occurrence(old, new, fl, b + 1);
        lemma_flip_occurrence(old, new, fl, b + 2);
        assert(b / 3 == f - 1 && (b + 1) / 3 == f - 1 && (b + 2) / 3 == f - 1);
        assert(b % 3 == 0 && (b + 1) % 3 == 1 && (b + 2) % 3 == 2);
        assert(face_has_edge(new, f - 1, e) == face_has_edge(old, f - 1, e));
    }
}

proof fn lemma_flip_share(old: Seq<u32>, new: Seq<u32>, fl: Seq<bool>, f: int, g: int)
    requires
        flipped_by(old, new, fl),
    ensures
        faces_share_edge(new, f, g) == faces_share_edge(old, f, g),
{
    if faces_share_edge(new, f, g) {
        let (k1, k2) = choose|k1: int, k2: int|
            #![trigger occ_key(new, k1), occ_key(new, k2)]
            0 <= k1 < occurrence_count(new) && 0 <= k2 < occurrence_count(new) && k1 / 3 == f && k2
                / 3 == g && occ_key(new, k1) == occ_key(new, k2);
        lemma_flip_occurrence(old, new, fl, k1);
        lemma_flip_occurrence(old, new, fl, k2);
        let s1 = flip_source(fl, k1);
        let s2 = flip_source(fl, k2);
        assert(occ_key(old, s1) == occ_key(old, s2));
    }
    if faces_share_edge(old, f, g) {
        let (k1, k2) = choose|k1: int, k2: int|
            #![trigger occ_key(old, k1), occ_key(old, k2)]
            0 <= k1 < occurrence_count(old) && 0 <= k2 < occurrence_count(old) && k1 / 3 == f && k2
                / 3 == g && occ_key(old, k1) == occ_key(old, k2);
        lemma_flip_source_involution(fl, k1);
        lemma_flip_source_involution(fl, k2);
        let n1 = flip_source(fl, k1);
        let n2 = flip_source(fl, k2);
        lemma_flip_occurrence(old, new, fl, n1);
        lemma_flip_occurrence(old, new, fl, n2);
        assert(occ_key(new, n1) == occ_key(new, n2));
    }
}

proof fn lemma_flip_connected(old: Seq<u32>, new: Seq<u32>, fl: Seq<bool>)
    requires
        flipped_by(old, new, fl),
    ensures
        forall|f: int, g: int| #[trigger] faces_connected(new, f, g) == faces_connected(old, f, g),
{
    assert forall|p: Seq<int>| #[trigger] is_face_path(new, p) == is_face_path(old, p) by {
        assert(face_count(new) == face_count(old));
        if is_face_path(new, p) {
            assert forall|i: int| 0 <= i < p.len() - 1 implies #[trigger] faces_share_edge(
                old,
                p[i],
                p[i + 1],
            ) by {
                assert(faces_share_edge(new, p[i], p[i + 1]));
                lemma_flip_share(old, new, fl, p[i], p[i + 1]);
            }
        }
        if is_face_path(old, p) {
            assert forall|i: int| 0 <= i < p.len() - 1 implies #[trigger] faces_share_edge(
                new,
                p[i],
                p[i + 1],
            ) by {
                assert(faces_share_edge(old, p[i], p[i + 1]));
                lemma_flip_share(old, new, fl, p[i], p[i + 1]);
            }
        }
    }
    assert forall|f: int, g: int| #[trigger] faces_connected(new, f, g) == faces_connected(
        old,
        f,
        g,
    ) by {
        if faces_connected(new, f, g) {
            let p = choose|p: Seq<int>| #[trigger] is_face_path(new, p) && p[0] == f && p.last() == g;
            assert(is_face_path(old, p));
        }
        if faces_connected(old, f, g) {
            let p = choose|p: Seq<int>| #[trigger] is_face_path(old, p) && p[0] == f && p.last() == g;
            assert(is_face_path(new, p));
        }
    }
}

proof fn lemma_flip_components_below(old: Seq<u32>, new: Seq<u32>, fl: Seq<bool>, n: int)
    requires
        flipped_by(old, new, fl),
        forall|f: int, g: int| #[trigger] faces_connected(new, f, g) == faces_connected(old, f, g),
    ensures
        components_below(new, n) == components_below(old, n),
    decreases n,
{
    if n > 0 {
        lemma_flip_components_below(old, new, fl, n - 1);
        assert(is_component_first(new, n - 1) == is_component_first(old, n - 1)) by {
            if is_component_first(new, n - 1) {
                assert forall|g: int| 0 <= g < n - 1 implies !#[trigger] faces_connected(
                    old,
                    g,
                    n - 1,
                ) by {
                    assert(!faces_connected(new, g, n - 1));
                }
            }
            if is_component_first(old, n - 1) {
                assert forall|g: int| 0 <= g < n - 1 implies !#[trigger] faces_connected(
                    new,
                    g,
                    n - 1,
                ) by {
                    assert(!faces_connected(old, g, n - 1));
                }
            }
        }
    }
}

/// Edges among the first `n` of `keys` that lie on exactly (`exact`) or at
/// least (`!exact`) `c` triangles, as a set.
pub open spec fn edges_counted(
    idx: Seq<u32>,
    keys: Seq<(u32, u32)>,
    n: int,
    c: int,
    exact: bool,
) -> Set<(u32, u32)> {
    keys.subrange(0, n).to_set().intersect(
        Set::new(|e: (u32, u32)| if exact { incidence(idx, e) == c } else { incidence(idx, e) >= c }),
    )
}

proof fn lemma_count_as_set(idx: Seq<u32>, keys: Seq<(u32, u32)>, n: int, c: int)
    requires
        keys.no_duplicates(),
        0 <= n <= keys.len(),
    ensures
        edges_counted(idx, keys, n, c, true).finite(),
        edges_counted(idx, keys, n, c, false).finite(),
        count_edges_exactly(idx, keys, n, c) == edges_counted(idx, keys, n, c, true).len(),
        count_edges_at_least(idx, keys, n, c) == edges_counted(idx, keys, n, c, false).len(),
    decreases n,
{
    broadcast use vstd::set::group_set_axioms, vstd::seq_lib::seq_to_set_is_finite;

    if n == 0 {
        assert(keys.subrange(0, 0).to_set() =~= Set::empty());
        assert(edges_counted(idx, keys, 0, c, true) =~= Set::empty());
        assert(edges_counted(idx, keys, 0, c, false) =~= Set::empty());
    } else {
        lemma_count_as_set(idx, keys, n - 1, c);
        let x = keys[n - 1];
        let pre = keys.subrange(0, n - 1);
        let all = keys.subrange(0, n);
        assert(all.to_set() =~= pre.to_set().insert(x)) by {
            assert(all == pre.push(x));
            assert forall|e: (u32, u32)| all.to_set().contains(e) <==> pre.to_set().insert(x).contains(
                e,
            ) by {
                if all.contains(e) {
                    let i = choose|i: int| 0 <= i < all.len() && all[i] == e;
                    if i < n - 1 {
                        assert(pre[i] == e);
                    }
                }
                if pre.contains(e) {
                    let i = choose|i: int| 0 <= i < pre.len() && pre[i] == e;
                    assert(all[i] == e);
                }
                if e == x {
                    assert(all[n - 1] == x);
                }
            }
        }
        assert(!pre.to_set().contains(x)) by {
            if pre.contains(x) {
                let i = choose|i: int| 0 <= i < pre.len() && pre[i] == x;
                assert(keys[i] == keys[n - 1]);
            }
        }
        let ex = edges_counted(idx, keys, n - 1, c, true);
        let al = edges_counted(idx, keys, n - 1, c, false);
        if incidence(idx, x) == c {
            assert(edges_counted(idx, keys, n, c, true) =~= ex.insert(x));
        } else {
            assert(edges_counted(idx, keys, n, c, true) =~= ex);
        }
        if incidence(idx, x) >= c {
            assert(edges_counted(idx, keys, n, c, false) =~= al.insert(x));
        } else {
            assert(edges_counted(idx, keys, n, c, false) =~= al);
        }
    }
}

/// Flipping triangles (swapping their second and third corners) leaves the
/// topology of a mesh unchanged: the same edges, each on as many
/// triangles, the same adjacency and components, hence the same counts, Euler
/// characteristic and watertightness.
pub proof fn lemma_flip_preserves_topology(vertex_count: int, old: Seq<u32>, new: Seq<u32>, fl: Seq<bool>)
    requires
        flipped_by(old, new, fl),
    ensures
        edge_set(new) == edge_set(old),
        forall|e: (u32, u32)| #[trigger] incidence(new, e) == incidence(old, e),
        forall|f: int, g: int| #[trigger] faces_connected(new, f, g) == faces_connected(old, f, g),
        topology_of(vertex_count, new) == topology_of(vertex_count, old),
{
    broadcast use vstd::set::group_set_axioms, vstd::seq_lib::seq_to_set_is_finite;

    lemma_flip_edge_set(old, new, fl);
    assert forall|e: (u32, u32)| #[trigger] incidence(new, e) == incidence(old, e) by {
        lemma_flip_incidence(old, new, fl, e, face_count(old));
        assert(face_count(new) == face_count(old));
    }
    lemma_flip_connected(old, new, fl);
    lemma_flip_components_below(old, new, fl, face_count(old));
    lemma_edge_list_is_edge_set(old);
    lemma_edge_list_is_edge_set(new);
    lemma_distinct_keys(old, occurrence_count(old));
    lemma_distinct_keys(new, occurrence_count(new));
    let ko = edge_list(old);
    let kn = edge_list(new);
    lemma_count_as_set(old, ko, ko.len() as int, 1);
    lemma_count_as_set(new, kn, kn.len() as int, 1);
    lemma_count_as_set(old, ko, ko.len() as int, 3);
    lemma_count_as_set(new, kn, kn.len() as int, 3);
    assert(ko.subrange(0, ko.len() as int) == ko);
    assert(kn.subrange(0, kn.len() as int) == kn);
    assert(edges_counted(new, kn, kn.len() as int, 1, true) =~= edges_counted(
        old,
        ko,
        ko.len() as int,
        1,
        true,
    ));
    assert(edges_counted(new, kn, kn.len() as int, 3, false) =~= edges_counted(
        old,
        ko,
        ko.len() as int,
        3,
        false,
    ));
    assert(boundary_edge_count(new) == boundary_edge_count(old));
    assert(non_manifold_edge_count(new) == non_manifold_edge_count(old));
}

} // verus!
