//! Line-list extraction: every distinct undirected edge of a triangle mesh
//! once, for edge (wireframe) rendering.
use vstd::prelude::*;
use std::collections::HashSet;
use crate::connectivity::{
    distinct_keys, edge_list, key_code, lemma_distinct_keys, lemma_key_code_injective,
    lemma_occ_in_range, occ_from, occ_key, occ_to, occurrence_count,
};
use crate::topology::MeshIndices;

verus! {

/// Line-list indices for the first `n` edge occurrences: each edge not seen
/// before contributes its two endpoints, in the direction of that first
/// occurrence.
pub open spec fn edge_index_list(idx: Seq<u32>, n: int) -> Seq<u32>
    decreases n,
{
    if n <= 0 {
        Seq::empty()
    } else {
        let d = edge_index_list(idx, n - 1);
        if distinct_keys(idx, n - 1).contains(occ_key(idx, n - 1)) {
            d
        } else {
            d + seq![occ_from(idx, n - 1), occ_to(idx, n - 1)]
        }
    }
}

/// The `i`-th pair of the line list joins the endpoints of the `i`-th
/// distinct edge, so the list holds each edge exactly once.
pub proof fn lemma_edge_index_list_pairs(idx: Seq<u32>, n: int)
    requires
        0 <= n,
    ensures
        edge_index_list(idx, n).len() == 2 * distinct_keys(idx, n).len(),
        forall|i: int|
            0 <= i < distinct_keys(idx, n).len() ==> #[trigger] distinct_keys(idx, n)[i] == (
            if edge_index_list(idx, n)[2 * i] <= edge_index_list(idx, n)[2 * i + 1] {
                (edge_index_list(idx, n)[2 * i], edge_index_list(idx, n)[2 * i + 1])
            } else {
                (edge_index_list(idx, n)[2 * i + 1], edge_index_list(idx, n)[2 * i])
            }),
    decreases n,
{
    if n > 0 {
        lemma_edge_index_list_pairs(idx, n - 1);
        let d = edge_index_list(idx, n - 1);
        let dk = distinct_keys(idx, n - 1);
        if !dk.contains(occ_key(idx, n - 1)) {
            let e = edge_index_list(idx, n);
            let ek = distinct_keys(idx, n);
            assert forall|i: int| 0 <= i < ek.len() implies #[trigger] ek[i] == (if e[2 * i] <= e[2
                * i + 1] {
                (e[2 * i], e[2 * i + 1])
            } else {
                (e[2 * i + 1], e[2 * i])
            }) by {
                if i < dk.len() {
                    assert(ek[i] == dk[i]);
                    assert(e[2 * i] == d[2 * i]);
                    assert(e[2 * i + 1] == d[2 * i + 1]);
                } else {
                    assert(e[2 * i] == occ_from(idx, n - 1));
                    assert(e[2 * i + 1] == occ_to(idx, n - 1));
                }
            }
        }
    }
}

/// The line list of a mesh holds two indices per distinct undirected edge,
/// and its pairs are exactly the mesh's edges in order of first appearance.
pub proof fn lemma_edge_indices_cover_edges(idx: Seq<u32>)
    ensures
        edge_index_list(idx, occurrence_count(idx)).len() == 2 * edge_list(idx).len(),
        forall|i: int|
            0 <= i < edge_list(idx).len() ==> #[trigger] edge_list(idx)[i] == {
                let e = edge_index_list(idx, occurrence_count(idx));
                if e[2 * i] <= e[2 * i + 1] {
                    (e[2 * i], e[2 * i + 1])
                } else {
                    (e[2 * i + 1], e[2 * i])
                }
            },
{
    lemma_edge_index_list_pairs(idx, occurrence_count(idx));
}

impl MeshIndices {
    /// Line-list indices for edge rendering: for each triangle side
    /// `(i0, i1)`, `(i1, i2)`, `(i2, i0)` in order, the two endpoints of
    /// every undirected edge not listed before, so each edge appears once.
    pub fn extract_edge_indices(&self) -> (out: Vec<u32>)
        ensures
            out@ == edge_index_list(self.indices@, occurrence_count(self.indices@)),
    {
        let idx = &self.indices;
        let ghost s = idx@;
        let n_occ: usize = (idx.len() / 3) * 3;
        let mut seen: HashSet<u64> = HashSet::new();
        let mut out: Vec<u32> = Vec::new();
        let mut k: usize = 0;
        while k < n_occ
            invariant
                s == idx@,
                n_occ as int == occurrence_count(s),
                k <= n_occ,
                out@ == edge_index_list(s, k as int),
                forall|c: u64|
                    #[trigger] seen@.contains(c) <==> exists|i: int|
                        0 <= i < distinct_keys(s, k as int).len() && key_code(
                            distinct_keys(s, k as int)[i],
                        ) == c,
            decreases n_occ - k,
        {
            proof {
                lemma_occ_in_range(s, k as int);
                lemma_distinct_keys(s, k as int);
            }
            let a: u32 = idx[k];
            let b: u32 = if k % 3 == 2 {
                idx[k - 2]
            } else {
                idx[k + 1]
            };
            let key: (u32, u32) = if a <= b {
                (a, b)
            } else {
                (b, a)
            };
            assert(key == occ_key(s, k as int));
            let code: u64 = (key.1 as u64) * 0x1_0000_0000u64 + (key.0 as u64);
            assert(code == key_code(key));
            let ghost seen0 = seen@;
            let ghost dk = distinct_keys(s, k as int);
            let fresh = seen.insert(code);
            proof {
                assert(fresh == !dk.contains(key)) by {
                    if dk.contains(key) {
                        let i = choose|i: int| 0 <= i < dk.len() && dk[i] == key;
                        assert(seen0.contains(key_code(dk[i])));
                    }
                    if seen0.contains(code) {
                        let i = choose|i: int| 0 <= i < dk.len() && key_code(dk[i]) == code;
                        lemma_key_code_injective(dk[i], key);
                    }
                }
            }
            if fresh {
                out.push(a);
                out.push(b);
            }
            proof {
                let dk1 = distinct_keys(s, k + 1);
                assert(out@ == edge_index_list(s, k + 1));
                assert forall|c: u64| #[trigger] seen@.contains(c) <==> exists|i: int|
                    0 <= i < dk1.len() && key_code(dk1[i]) == c by {
                    if seen@.contains(c) {
                        if c == code {
                            if fresh {
                                assert(dk1[dk.len() as int] == key);
                            } else {
                                let i = choose|i: int| 0 <= i < dk.len() && dk[i] == key;
                                assert(dk1[i] == key);
                            }
                        } else {
                            let i = choose|i: int| 0 <= i < dk.len() && key_code(dk[i]) == c;
                            assert(dk1[i] == dk[i]);
                        }
                    }
                    if exists|i: int| 0 <= i < dk1.len() && key_code(dk1[i]) == c {
                        let i = choose|i: int| 0 <= i < dk1.len() && key_code(dk1[i]) == c;
                        if i < dk.len() {
                            assert(dk1[i] == dk[i]);
                        } else {
                            assert(dk1[i] == key);
                        }
                    }
                }
            }
            k += 1;
        }
        out
    }
}

} // verus!
