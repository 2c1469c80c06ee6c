//! Mathematical model of a triangle index buffer: its edge occurrences,
//! distinct undirected edges, edge incidences, and face connectivity.
//!
//! Triangle `f` occupies positions `3f, 3f+1, 3f+2` of the buffer; a trailing
//! partial triangle is ignored.  Position `k` is also the `k`-th *edge
//! occurrence*: it runs from `idx[k]` to the next corner of the same triangle
//! (wrapping from the third corner back to the first).
use vstd::prelude::*;

verus! {

/// Number of complete triangles.
pub open spec fn face_count(idx: Seq<u32>) -> int {
    idx.len() as int / 3
}

/// Number of edge occurrences (three per complete triangle).
pub open spec fn occurrence_count(idx: Seq<u32>) -> int {
    3 * face_count(idx)
}

/// Start vertex of edge occurrence `k`.
pub open spec fn occ_from(idx: Seq<u32>, k: int) -> u32 {
    idx[k]
}

/// End vertex of edge occurrence `k`: the next corner of its triangle.
pub open spec fn occ_to(idx: Seq<u32>, k: int) -> u32 {
    if k % 3 == 2 {
        idx[k - 2]
    } else {
        idx[k + 1]
    }
}

/// Undirected edge between two vertices, as its (smaller, larger) endpoints.
pub open spec fn edge_key(a: u32, b: u32) -> (u32, u32) {
    if a <= b {
        (a, b)
    } else {
        (b, a)
    }
}

/// Undirected edge of occurrence `k`.
pub open spec fn occ_key(idx: Seq<u32>, k: int) -> (u32, u32) {
    edge_key(occ_from(idx, k), occ_to(idx, k))
}

/// Distinct undirected edges among the first `n` occurrences, in order of
/// first appearance.
pub open spec fn distinct_keys(idx: Seq<u32>, n: int) -> Seq<(u32, u32)>
    decreases n,
{
    if n <= 0 {
        Seq::empty()
    } else {
        let d = distinct_keys(idx, n - 1);
        if d.contains(occ_key(idx, n - 1)) {
            d
        } else {
            d.push(occ_key(idx, n - 1))
        }
    }
}

/// The mesh's distinct undirected edges, in order of first appearance.
pub open spec fn edge_list(idx: Seq<u32>) -> Seq<(u32, u32)> {
    distinct_keys(idx, occurrence_count(idx))
}

/// The set of the mesh's undirected edges.
pub open spec fn edge_set(idx: Seq<u32>) -> Set<(u32, u32)> {
    Set::new(|e: (u32, u32)| exists|k: int| 0 <= k < occurrence_count(idx) && occ_key(idx, k) == e)
}

/// Triangle `f` has a side along edge `e`.
pub open spec fn face_has_edge(idx: Seq<u32>, f: int, e: (u32, u32)) -> bool {
    occ_key(idx, 3 * f) == e || occ_key(idx, 3 * f + 1) == e || occ_key(idx, 3 * f + 2) == e
}

/// How many of the first `n` triangles have a side along edge `e`.
pub open spec fn incidence_upto(idx: Seq<u32>, e: (u32, u32), n: int) -> int
    decreases n,
{
    if n <= 0 {
        0
    } else {
        incidence_upto(idx, e, n - 1) + (if face_has_edge(idx, n - 1, e) { 1int } else { 0 })
    }
}

/// How many triangles have a side along edge `e` (a triangle with two
/// sides along one edge counts once).
pub open spec fn incidence(idx: Seq<u32>, e: (u32, u32)) -> int {
    incidence_upto(idx, e, face_count(idx))
}

/// How many of the first `n` edges of `keys` lie on exactly `c`
/// triangles.
pub open spec fn count_edges_exactly(idx: Seq<u32>, keys: Seq<(u32, u32)>, n: int, c: int) -> int
    decreases n,
{
    if n <= 0 {
        0
    } else {
        count_edges_exactly(idx, keys, n - 1, c) + (if incidence(idx, keys[n - 1]) == c {
            1int
        } else {
            0
        })
    }
}

/// How many of the first `n` edges of `keys` lie on at least `c`
/// triangles.
pub open spec fn count_edges_at_least(idx: Seq<u32>, keys: Seq<(u32, u32)>, n: int, c: int) -> int
    decreases n,
{
    if n <= 0 {
        0
    } else {
        count_edges_at_least(idx, keys, n - 1, c) + (if incidence(idx, keys[n - 1]) >= c {
            1int
        } else {
            0
        })
    }
}

/// Edges shared by exactly one triangle (open boundary).
pub open spec fn boundary_edge_count(idx: Seq<u32>) -> int {
    count_edges_exactly(idx, edge_list(idx), edge_list(idx).len() as int, 1)
}

/// Edges shared by three or more triangles (non-manifold).
pub open spec fn non_manifold_edge_count(idx: Seq<u32>) -> int {
    count_edges_at_least(idx, edge_list(idx), edge_list(idx).len() as int, 3)
}

/// Triangles `f` and `g` have a side along the same undirected edge.
pub open spec fn faces_share_edge(idx: Seq<u32>, f: int, g: int) -> bool {
    exists|k1: int, k2: int|
        #![trigger occ_key(idx, k1), occ_key(idx, k2)]
        0 <= k1 < occurrence_count(idx) && 0 <= k2 < occurrence_count(idx) && k1 / 3 == f && k2
            / 3 == g && occ_key(idx, k1) == occ_key(idx, k2)
}

/// A walk over triangles in which consecutive triangles share an edge.
pub open spec fn is_face_path(idx: Seq<u32>, p: Seq<int>) -> bool {
    &&& p.len() >= 1
    &&& forall|i: int| 0 <= i < p.len() ==> 0 <= #[trigger] p[i] < face_count(idx)
    &&& forall|i: int|
        0 <= i < p.len() - 1 ==> #[trigger] faces_share_edge(idx, p[i], p[i + 1])
}

/// Triangles `f` and `g` are joined by a walk across shared edges.
pub open spec fn faces_connected(idx: Seq<u32>, f: int, g: int) -> bool {
    exists|p: Seq<int>| #[trigger] is_face_path(idx, p) && p[0] == f && p.last() == g
}

/// Triangle `f` is the lowest-numbered triangle of its connected component.
pub open spec fn is_component_first(idx: Seq<u32>, f: int) -> bool {
    forall|g: int| 0 <= g < f ==> !#[trigger] faces_connected(idx, g, f)
}

/// Number of connected components among the first `n` triangles (counted
/// at their lowest-numbered triangle).
pub open spec fn components_below(idx: Seq<u32>, n: int) -> int
    decreases n,
{
    if n <= 0 {
        0
    } else {
        components_below(idx, n - 1) + (if is_component_first(idx, n - 1) { 1int } else { 0 })
    }
}

/// Number of connected components of the triangles (across shared edges).
pub open spec fn component_count(idx: Seq<u32>) -> int {
    components_below(idx, face_count(idx))
}

/// Integer code of an undirected edge, one-to-one on edges.
pub open spec fn key_code(e: (u32, u32)) -> u64 {
    (e.1 as int * 0x1_0000_0000 + e.0 as int) as u64
}

pub proof fn lemma_key_code_injective(a: (u32, u32), b: (u32, u32))
    requires
        key_code(a) == key_code(b),
    ensures
        a == b,
{
    assert(a.1 as int * 0x1_0000_0000 + a.0 as int <= u64::MAX);
    assert(b.1 as int * 0x1_0000_0000 + b.0 as int <= u64::MAX);
}

/// Occurrence `k` lies on triangle `k / 3`, which is a complete triangle.
pub proof fn lemma_occ_in_range(idx: Seq<u32>, k: int)
    requires
        0 <= k < occurrence_count(idx),
    ensures
        0 <= k / 3 < face_count(idx),
        0 <= k < idx.len(),
        k % 3 == 2 ==> 0 <= k - 2 < idx.len(),
        k % 3 != 2 ==> 0 <= k + 1 < idx.len(),
{
}

pub proof fn lemma_distinct_keys(idx: Seq<u32>, n: int)
    requires
        0 <= n,
    ensures
        distinct_keys(idx, n).no_duplicates(),
        distinct_keys(idx, n).len() <= n,
        forall|e: (u32, u32)|
            #[trigger] distinct_keys(idx, n).contains(e) <==> exists|k: int|
                0 <= k < n && occ_key(idx, k) == e,
    decreases n,
{
    if n > 0 {
        lemma_distinct_keys(idx, n - 1);
        let d = distinct_keys(idx, n - 1);
        let e0 = occ_key(idx, n - 1);
        assert forall|e: (u32, u32)| #[trigger] distinct_keys(idx, n).contains(e) <==> exists|k: int|
            0 <= k < n && occ_key(idx, k) == e by {
            if distinct_keys(idx, n).contains(e) {
                if d.contains(e) {
                    let k = choose|k: int| 0 <= k < n - 1 && occ_key(idx, k) == e;
                    assert(0 <= k < n && occ_key(idx, k) == e);
                } else {
                    assert(e == e0);
                    assert(occ_key(idx, n - 1) == e);
                }
            }
            if exists|k: int| 0 <= k < n && occ_key(idx, k) == e {
                let k = choose|k: int| 0 <= k < n && occ_key(idx, k) == e;
                if k < n - 1 {
                    assert(d.contains(e));
                    if !d.contains(e0) {
                        assert(d.push(e0)[d.len() as int - 1 + 0] == d[d.len() - 1]) by {
                            if d.len() > 0 {
                            }
                        };
                        let i = choose|i: int| 0 <= i < d.len() && d[i] == e;
                        assert(d.push(e0)[i] == e);
                    }
                } else {
                    assert(e == e0);
                    if !d.contains(e0) {
                        assert(d.push(e0)[d.len() as int] == e0);
                    }
                }
            }
        }
    }
}

/// An edge with no occurrence on the first `f` triangles has no incidence
/// there.
pub proof fn lemma_incidence_zero(idx: Seq<u32>, e: (u32, u32), f: int)
    requires
        forall|k: int| 0 <= k < 3 * f ==> occ_key(idx, k) != e,
    ensures
        incidence_upto(idx, e, f) == 0,
    decreases f,
{
    if f > 0 {
        assert(occ_key(idx, 3 * (f - 1)) != e);
        assert(occ_key(idx, 3 * (f - 1) + 1) != e);
        assert(occ_key(idx, 3 * (f - 1) + 2) != e);
        lemma_incidence_zero(idx, e, f - 1);
    }
}

/// Incidence counts are bounded by the number of triangles scanned.
pub proof fn lemma_incidence_bounds(idx: Seq<u32>, e: (u32, u32), f: int)
    requires
        0 <= f,
    ensures
        0 <= incidence_upto(idx, e, f) <= f,
    decreases f,
{
    if f > 0 {
        lemma_incidence_bounds(idx, e, f - 1);
    }
}

/// An edge with a side on one of the first `f` triangles has incidence at
/// least one there.
pub proof fn lemma_incidence_positive(idx: Seq<u32>, e: (u32, u32), f: int, k: int)
    requires
        0 <= k < 3 * f,
        occ_key(idx, k) == e,
    ensures
        incidence_upto(idx, e, f) >= 1,
    decreases f,
{
    lemma_incidence_bounds(idx, e, f - 1);
    if k < 3 * (f - 1) {
        lemma_incidence_positive(idx, e, f - 1, k);
    } else {
        assert(k == 3 * (f - 1) || k == 3 * (f - 1) + 1 || k == 3 * (f - 1) + 2);
        assert(face_has_edge(idx, f - 1, e));
    }
}

pub proof fn lemma_share_symmetric(idx: Seq<u32>, f: int, g: int)
    requires
        faces_share_edge(idx, f, g),
    ensures
        faces_share_edge(idx, g, f),
{
    let (k1, k2) = choose|k1: int, k2: int|
        #![trigger occ_key(idx, k1), occ_key(idx, k2)]
        0 <= k1 < occurrence_count(idx) && 0 <= k2 < occurrence_count(idx) && k1 / 3 == f && k2
            / 3 == g && occ_key(idx, k1) == occ_key(idx, k2);
    assert(occ_key(idx, k2) == occ_key(idx, k1));
}

/// Two occurrences of the same edge put their triangles side by side.
pub proof fn lemma_share_from_occurrences(idx: Seq<u32>, k1: int, k2: int)
    requires
        0 <= k1 < occurrence_count(idx),
        0 <= k2 < occurrence_count(idx),
        occ_key(idx, k1) == occ_key(idx, k2),
    ensures
        faces_share_edge(idx, k1 / 3, k2 / 3),
{
}

pub proof fn lemma_connected_refl(idx: Seq<u32>, f: int)
    requires
        0 <= f < face_count(idx),
    ensures
        faces_connected(idx, f, f),
{
    let p = seq![f];
    assert(is_face_path(idx, p));
}

pub proof fn lemma_connected_step(idx: Seq<u32>, f: int, g: int)
    requires
        0 <= f < face_count(idx),
        0 <= g < face_count(idx),
        faces_share_edge(idx, f, g),
    ensures
        faces_connected(idx, f, g),
{
    let p = seq![f, g];
    assert(p[0] == f && p[1] == g);
    assert(is_face_path(idx, p));
}

pub proof fn lemma_connected_symmetric(idx: Seq<u32>, f: int, g: int)
    requires
        faces_connected(idx, f, g),
    ensures
        faces_connected(idx, g, f),
{
    let p = choose|p: Seq<int>| #[trigger] is_face_path(idx, p) && p[0] == f && p.last() == g;
    let q = p.reverse();
    assert forall|i: int| 0 <= i < q.len() implies 0 <= #[trigger] q[i] < face_count(idx) by {
        assert(q[i] == p[p.len() - 1 - i]);
    }
    assert forall|i: int| 0 <= i < q.len() - 1 implies #[trigger] faces_share_edge(
        idx,
        q[i],
        q[i + 1],
    ) by {
        let j = p.len() - 2 - i;
        assert(q[i] == p[j + 1]);
        assert(q[i + 1] == p[j]);
        assert(faces_share_edge(idx, p[j], p[j + 1]));
        lemma_share_symmetric(idx, p[j], p[j + 1]);
    }
    assert(is_face_path(idx, q));
    assert(q[0] == g);
    assert(q.last() == f);
}

pub proof fn lemma_connected_transitive(idx: Seq<u32>, f: int, g: int, h: int)
    requires
        faces_connected(idx, f, g),
        faces_connected(idx, g, h),
    ensures
        faces_connected(idx, f, h),
{
    let p1 = choose|p: Seq<int>| #[trigger] is_face_path(idx, p) && p[0] == f && p.last() == g;
    let p2 = choose|p: Seq<int>| #[trigger] is_face_path(idx, p) && p[0] == g && p.last() == h;
    let q = p1 + p2.subrange(1, p2.len() as int);
    assert forall|i: int| 0 <= i < q.len() implies 0 <= #[trigger] q[i] < face_count(idx) by {
        if i < p1.len() {
            assert(q[i] == p1[i]);
        } else {
            assert(q[i] == p2[i - p1.len() + 1]);
        }
    }
    assert forall|i: int| 0 <= i < q.len() - 1 implies #[trigger] faces_share_edge(
        idx,
        q[i],
        q[i + 1],
    ) by {
        if i < p1.len() - 1 {
            assert(q[i] == p1[i] && q[i + 1] == p1[i + 1]);
        } else if i == p1.len() - 1 {
            assert(q[i] == p1[i]);
            assert(p1[i] == g);
            assert(q[i + 1] == p2[1]);
            assert(faces_share_edge(idx, p2[0], p2[1]));
        } else {
            let j = i - p1.len() + 1;
            assert(q[i] == p2[j] && q[i + 1] == p2[j + 1]);
            assert(faces_share_edge(idx, p2[j], p2[j + 1]));
        }
    }
    assert(is_face_path(idx, q));
    assert(q[0] == f);
    if p2.len() == 1 {
        assert(q.last() == p1.last());
    } else {
        assert(q.last() == p2.last());
    }
}

/// The distinct edge list and the edge set have the same size.
pub proof fn lemma_edge_list_is_edge_set(idx: Seq<u32>)
    ensures
        edge_list(idx).to_set() == edge_set(idx),
        edge_list(idx).len() == edge_set(idx).len(),
        edge_set(idx).finite(),
{
    lemma_distinct_keys(idx, occurrence_count(idx));
    assert(edge_list(idx).to_set() =~= edge_set(idx));
    edge_list(idx).unique_seq_to_set();
}

} // verus!
