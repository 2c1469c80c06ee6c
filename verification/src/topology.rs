//! Topological analysis of a triangle mesh: vertex / edge / face counts,
//! Euler characteristic, boundary and non-manifold edges, connected
//! components, and watertightness.
use vstd::prelude::*;
use crate::adjacency::{lemma_path_same_root, scan_edges, EdgeScan};
use crate::connectivity::{
    boundary_edge_count, component_count, components_below, count_edges_at_least,
    count_edges_exactly, edge_list, edge_set, face_count, faces_connected, incidence,
    is_component_first, is_face_path, lemma_connected_symmetric,
    lemma_distinct_keys, lemma_edge_list_is_edge_set, lemma_incidence_positive, non_manifold_edge_count, occ_key,
    occurrence_count,
};

verus! {

/// The connectivity of a triangle mesh: how many vertices it has and its
/// index buffer (three vertex indices per triangle).
#[derive(Debug, Clone)]
pub struct MeshIndices {
    pub vertex_count: usize,
    pub indices: Vec<u32>,
}

/// Result of a topological analysis of a triangle mesh.
#[derive(Debug, Clone, Copy, PartialEq, Eq)]
pub struct MeshTopology {
    /// Number of vertices (all entries in the vertex buffer).
    pub vertices: usize,
    /// Number of distinct undirected edges.
    pub edges: usize,
    /// Number of triangle faces.
    pub faces: usize,
    /// Euler characteristic  V - E + F.
    pub euler: i64,
    /// Edges shared by exactly one triangle (open boundary).
    pub boundary_edges: usize,
    /// Edges shared by three or more triangles.
    pub non_manifold_edges: usize,
    /// Connected components of triangles across shared edges.
    pub connected_components: usize,
    /// No boundary edge, no non-manifold edge, and one component.
    pub is_watertight: bool,
}

/// The topology a mesh has, as a function of its vertex count and indices.
pub open spec fn topology_of(vertex_count: int, idx: Seq<u32>) -> (int, int, int, int, int, int, int, bool) {
    let e = edge_list(idx).len() as int;
    let f = face_count(idx);
    let b = boundary_edge_count(idx);
    let nm = non_manifold_edge_count(idx);
    let c = component_count(idx);
    (vertex_count, e, f, vertex_count - e + f, b, nm, c, b == 0 && nm == 0 && c == 1)
}

proof fn lemma_count_exactly_zero(idx: Seq<u32>, keys: Seq<(u32, u32)>, n: int, c: int)
    requires
        0 <= n <= keys.len(),
    ensures
        count_edges_exactly(idx, keys, n, c) >= 0,
        (count_edges_exactly(idx, keys, n, c) == 0) == (forall|i: int|
            0 <= i < n ==> incidence(idx, #[trigger] keys[i]) != c),
    decreases n,
{
    if n > 0 {
        lemma_count_exactly_zero(idx, keys, n - 1, c);
    }
}

proof fn lemma_count_at_least_zero(idx: Seq<u32>, keys: Seq<(u32, u32)>, n: int, c: int)
    requires
        0 <= n <= keys.len(),
    ensures
        count_edges_at_least(idx, keys, n, c) >= 0,
        (count_edges_at_least(idx, keys, n, c) == 0) == (forall|i: int|
            0 <= i < n ==> incidence(idx, #[trigger] keys[i]) < c),
    decreases n,
{
    if n > 0 {
        lemma_count_at_least_zero(idx, keys, n - 1, c);
    }
}

/// A mesh is watertight exactly when every edge is shared by exactly two
/// triangles and the triangles form one connected component.
pub proof fn lemma_watertight_iff_two_triangles(vertex_count: int, idx: Seq<u32>)
    ensures
        topology_of(vertex_count, idx).7 == ((forall|e: (u32, u32)|
            #[trigger] edge_set(idx).contains(e) ==> incidence(idx, e) == 2) && component_count(idx)
            == 1),
{
    let keys = edge_list(idx);
    let n = keys.len() as int;
    lemma_count_exactly_zero(idx, keys, n, 1);
    lemma_count_at_least_zero(idx, keys, n, 3);
    lemma_edge_list_is_edge_set(idx);
    lemma_distinct_keys(idx, occurrence_count(idx));
    let two = forall|e: (u32, u32)| #[trigger] edge_set(idx).contains(e) ==> incidence(idx, e) == 2;
    if boundary_edge_count(idx) == 0 && non_manifold_edge_count(idx) == 0 {
        assert forall|e: (u32, u32)| #[trigger] edge_set(idx).contains(e) implies incidence(idx, e)
            == 2 by {
            assert(keys.to_set().contains(e));
            let i = choose|i: int| 0 <= i < keys.len() && keys[i] == e;
            let k = choose|k: int| 0 <= k < occurrence_count(idx) && occ_key(idx, k) == e;
            lemma_incidence_positive(idx, e, face_count(idx), k);
            assert(incidence(idx, keys[i]) != 1);
            assert(incidence(idx, keys[i]) < 3);
        }
    }
    if two {
        assert forall|i: int| 0 <= i < n implies incidence(idx, #[trigger] keys[i]) != 1 by {
            assert(keys.to_set().contains(keys[i]));
        }
        assert forall|i: int| 0 <= i < n implies incidence(idx, #[trigger] keys[i]) < 3 by {
            assert(keys.to_set().contains(keys[i]));
        }
    }
}

/// Compute the topology of a triangle mesh.
pub fn compute_topology(mesh: &MeshIndices) -> (topo: MeshTopology)
    requires
        mesh.vertex_count as int + mesh.indices@.len() <= i64::MAX,
    ensures
        topology_of(mesh.vertex_count as int, mesh.indices@) == (
            topo.vertices as int,
            topo.edges as int,
            topo.faces as int,
            topo.euler as int,
            topo.boundary_edges as int,
            topo.non_manifold_edges as int,
            topo.connected_components as int,
            topo.is_watertight,
        ),
{
    let idx = &mesh.indices;
    let ghost s = idx@;
    let nf: usize = idx.len() / 3;
    let n_occ: usize = nf * 3;
    let scan = scan_edges(idx);
    let EdgeScan { keys, counts, mut uf, first_face } = scan;
    // Edge incidences.
    let n_edges = keys.len();
    let mut boundary: usize = 0;
    let mut non_manifold: usize = 0;
    let mut i: usize = 0;
    while i < n_edges
        invariant
            n_edges == keys@.len(),
            n_edges <= n_occ,
            counts@.len() == n_edges,
            keys@ == edge_list(s),
            n_occ as int == occurrence_count(s),
            forall|j: int|
                0 <= j < n_edges ==> #[trigger] counts@[j] as int == incidence(s, keys@[j]),
            i <= n_edges,
            boundary <= i,
            non_manifold <= i,
            boundary as int == count_edges_exactly(s, keys@, i as int, 1),
            non_manifold as int == count_edges_at_least(s, keys@, i as int, 3),
        decreases n_edges - i,
    {
        if counts[i] == 1 {
            boundary += 1;
        }
        if counts[i] >= 3 {
            non_manifold += 1;
        }
        i += 1;
    }
    // Connected components: one per representative.
    let ghost uf_done = uf;
    let mut comps: usize = 0;
    let mut x: usize = 0;
    while x < nf
        invariant
            s == idx@,
            nf as int == face_count(s),
            n_occ as int == occurrence_count(s),
            keys@ == edge_list(s),
            first_face@.len() == keys@.len(),
            uf_done.wf(),
            uf_done.size() == nf,
            uf.wf(),
            uf.size() == nf,
            forall|y: int| 0 <= y < nf ==> #[trigger] uf.root(y) == uf_done.root(y),
            forall|y: int| 0 <= y < nf ==> #[trigger] faces_connected(s, y, uf_done.root(y)),
            forall|i: int, k0: int|
                #![trigger keys@[i], occ_key(s, k0)]
                0 <= i < keys@.len() && 0 <= k0 < n_occ && occ_key(s, k0) == keys@[i]
                    ==> uf_done.root(k0 / 3) == uf_done.root(first_face@[i] as int),
            x <= nf,
            n_edges <= n_occ,
            n_edges == keys@.len(),
            comps <= x,
            comps as int == components_below(s, x as int),
        decreases nf - x,
    {
        let (r, _) = uf.find(x);
        proof {
            uf_done.lemma_root(x as int);
            let rx = uf_done.root(x as int);
            if rx == x {
                assert forall|g: int| 0 <= g < x implies !#[trigger] faces_connected(
                    s,
                    g,
                    x as int,
                ) by {
                    if faces_connected(s, g, x as int) {
                        let p = choose|p: Seq<int>|
                            #[trigger] is_face_path(s, p) && p[0] == g && p.last() == x;
                        lemma_path_same_root(s, uf_done, keys@, first_face@, p, p.len() as int);
                        uf_done.lemma_root(g);
                    }
                }
                assert(is_component_first(s, x as int));
            } else {
                assert(faces_connected(s, x as int, rx));
                lemma_connected_symmetric(s, x as int, rx);
                assert(!is_component_first(s, x as int));
            }
        }
        if r == x {
            comps += 1;
        }
        x += 1;
    }
    let v = mesh.vertex_count;
    let euler: i64 = (v as i64) - (n_edges as i64) + (nf as i64);
    MeshTopology {
        vertices: v,
        edges: n_edges,
        faces: nf,
        euler,
        boundary_edges: boundary,
        non_manifold_edges: non_manifold,
        connected_components: comps,
        is_watertight: boundary == 0 && non_manifold == 0 && comps == 1,
    }
}

} // verus!
