//! Open boundary of a triangle mesh: the edges shared by exactly one
//! triangle, and the vertices on them.
use vstd::prelude::*;
use std::collections::HashSet;
use crate::adjacency::{scan_edges, EdgeScan};
use crate::connectivity::{boundary_edge_count, count_edges_exactly, edge_list, incidence};

verus! {

/// Among the first `n` edges of `keys`, those shared by exactly one triangle,
/// in order.
pub open spec fn boundary_upto(idx: Seq<u32>, keys: Seq<(u32, u32)>, n: int) -> Seq<(u32, u32)>
    decreases n,
{
    if n <= 0 {
        Seq::empty()
    } else if incidence(idx, keys[n - 1]) == 1 {
        boundary_upto(idx, keys, n - 1).push(keys[n - 1])
    } else {
        boundary_upto(idx, keys, n - 1)
    }
}

/// The boundary edges of a mesh, in order of first appearance.
pub open spec fn boundary_edge_list(idx: Seq<u32>) -> Seq<(u32, u32)> {
    boundary_upto(idx, edge_list(idx), edge_list(idx).len() as int)
}

/// Vertex `v` is an endpoint of a boundary edge.
pub open spec fn on_boundary(idx: Seq<u32>, v: u32) -> bool {
    exists|i: int|
        0 <= i < boundary_edge_list(idx).len() && (#[trigger] boundary_edge_list(idx)[i].0 == v
            || boundary_edge_list(idx)[i].1 == v)
}

proof fn lemma_boundary_upto(idx: Seq<u32>, keys: Seq<(u32, u32)>, n: int)
    requires
        0 <= n <= keys.len(),
    ensures
        boundary_upto(idx, keys, n).len() == count_edges_exactly(idx, keys, n, 1),
        forall|i: int|
            0 <= i < boundary_upto(idx, keys, n).len() ==> incidence(
                idx,
                #[trigger] boundary_upto(idx, keys, n)[i],
            ) == 1,
    decreases n,
{
    if n > 0 {
        lemma_boundary_upto(idx, keys, n - 1);
    }
}

/// The boundary edges are exactly as many as the topology counts, and each
/// is shared by exactly one triangle.
pub proof fn lemma_boundary_edges_counted(idx: Seq<u32>)
    ensures
        boundary_edge_list(idx).len() == boundary_edge_count(idx),
        forall|i: int|
            0 <= i < boundary_edge_list(idx).len() ==> incidence(
                idx,
                #[trigger] boundary_edge_list(idx)[i],
            ) == 1,
{
    lemma_boundary_upto(idx, edge_list(idx), edge_list(idx).len() as int);
}

/// The edges of the mesh shared by exactly one triangle, each once,
/// in order of first appearance.
pub fn boundary_edges(indices: &Vec<u32>) -> (out: Vec<(u32, u32)>)
    ensures
        out@ == boundary_edge_list(indices@),
{
    let scan = scan_edges(indices);
    let EdgeScan { keys, counts, .. } = scan;
    let ghost s = indices@;
    let n = keys.len();
    let mut out: Vec<(u32, u32)> = Vec::new();
    let mut i: usize = 0;
    while i < n
        invariant
            n == keys@.len(),
            keys@ == edge_list(s),
            counts@.len() == n,
            forall|j: int| 0 <= j < n ==> #[trigger] counts@[j] as int == incidence(s, keys@[j]),
            i <= n,
            out@ == boundary_upto(s, keys@, i as int),
        decreases n - i,
    {
        if counts[i] == 1 {
            out.push(keys[i]);
        }
        i += 1;
    }
    out
}

/// Vertex `v` is an endpoint of one of the first `n` edges of `b`.
pub open spec fn endpoint_before(b: Seq<(u32, u32)>, n: int, v: u32) -> bool {
    exists|j: int| 0 <= j < n && (#[trigger] b[j].0 == v || b[j].1 == v)
}

/// Append `v` to `out` unless `seen` already holds it.
fn add_once(seen: &mut HashSet<u32>, out: &mut Vec<u32>, v: u32)
    requires
        old(out)@.no_duplicates(),
        forall|x: u32| #[trigger] old(seen)@.contains(x) <==> old(out)@.contains(x),
    ensures
        final(out)@.no_duplicates(),
        forall|x: u32| #[trigger] final(seen)@.contains(x) <==> final(out)@.contains(x),
        forall|x: u32| #[trigger] final(out)@.contains(x) <==> (old(out)@.contains(x) || x == v),
{
    let ghost out0 = out@;
    if seen.insert(v) {
        out.push(v);
        proof {
            assert forall|x: u32| #[trigger] out@.contains(x) <==> (out0.contains(x) || x == v) by {
                if out0.contains(x) {
                    let k = choose|k: int| 0 <= k < out0.len() && out0[k] == x;
                    assert(out@[k] == x);
                }
                if x == v {
                    assert(out@[out0.len() as int] == v);
                }
            }
        }
    }
}

/// The vertices on the open boundary, each once, in order of first
/// appearance along the boundary edges.
pub fn boundary_vertices(indices: &Vec<u32>) -> (out: Vec<u32>)
    ensures
        out@.no_duplicates(),
        forall|v: u32| #[trigger] out@.contains(v) <==> on_boundary(indices@, v),
{
    let edges = boundary_edges(indices);
    let ghost b = edges@;
    let mut seen: HashSet<u32> = HashSet::new();
    let mut out: Vec<u32> = Vec::new();
    let mut i: usize = 0;
    while i < edges.len()
        invariant
            b == edges@,
            b == boundary_edge_list(indices@),
            i <= b.len(),
            out@.no_duplicates(),
            forall|v: u32| #[trigger] seen@.contains(v) <==> out@.contains(v),
            forall|v: u32| #[trigger] out@.contains(v) <==> endpoint_before(b, i as int, v),
        decreases b.len() - i,
    {
        let (a, c) = edges[i];
        add_once(&mut seen, &mut out, a);
        add_once(&mut seen, &mut out, c);
        proof {
            assert forall|v: u32| #[trigger] out@.contains(v) <==> endpoint_before(b, i + 1, v) by {
                if endpoint_before(b, i + 1, v) {
                    let j = choose|j: int| 0 <= j < i + 1 && (#[trigger] b[j].0 == v || b[j].1 == v);
                    if j < i {
                        assert(endpoint_before(b, i as int, v));
                    }
                }
                if endpoint_before(b, i as int, v) {
                    let j = choose|j: int| 0 <= j < i && (#[trigger] b[j].0 == v || b[j].1 == v);
                    assert(0 <= j < i + 1 && (b[j].0 == v || b[j].1 == v));
                }
                if v == a || v == c {
                    assert(b[i as int].0 == v || b[i as int].1 == v);
                }
            }
        }
        i += 1;
    }
    proof {
        assert forall|v: u32| #[trigger] out@.contains(v) <==> on_boundary(indices@, v) by {
            if endpoint_before(b, b.len() as int, v) {
                let j = choose|j: int| 0 <= j < b.len() && (#[trigger] b[j].0 == v || b[j].1 == v);
                assert(boundary_edge_list(indices@)[j] == b[j]);
            }
        }
    }
    out
}

} // verus!
