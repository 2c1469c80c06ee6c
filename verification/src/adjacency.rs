//! One pass over a triangle index buffer that collects its distinct edges,
//! how many triangles have a side on each, and a disjoint-set forest joining
//! triangles across shared edges.  Each triangle also carries a parity: the
//! flip that would make its winding agree with its set's representative.
use vstd::prelude::*;
use rustc_hash::FxHashMap;
use crate::connectivity::{
    distinct_keys, edge_list, face_count, face_has_edge, faces_connected, faces_share_edge, incidence,
    incidence_upto, is_face_path, key_code, lemma_connected_refl, lemma_connected_step,
    lemma_connected_symmetric, lemma_connected_transitive, lemma_distinct_keys,
    lemma_incidence_bounds, lemma_incidence_zero, lemma_key_code_injective, lemma_occ_in_range,
    occ_from, occ_key, occ_to, occurrence_count,
};
use crate::union_find::{joined_par, joined_root, UnionFind};

verus! {

/// Occurrence `k` runs from its smaller endpoint to its larger one.
pub open spec fn occ_forward(idx: Seq<u32>, k: int) -> bool {
    occ_from(idx, k) < occ_to(idx, k)
}

/// `o` assigns each triangle a flip such that any two sides along one edge
/// run in opposite directions once their triangles are flipped by `o`.
pub open spec fn is_orientation(idx: Seq<u32>, o: Seq<bool>) -> bool {
    &&& o.len() == face_count(idx)
    &&& forall|k1: int, k2: int|
        #![trigger occ_key(idx, k1), occ_key(idx, k2)]
        0 <= k1 < occurrence_count(idx) && 0 <= k2 < occurrence_count(idx) && k1 != k2
            && occ_key(idx, k1) == occ_key(idx, k2) ==> ((o[k1 / 3] != o[k2 / 3]) == (occ_forward(
            idx,
            k1,
        ) == occ_forward(idx, k2)))
}

/// `o` orients the component of triangle `g`: any two triangle sides along
/// one edge, on triangles connected to `g`, run in opposite directions once
/// their triangles are flipped by `o`.
pub open spec fn is_orientation_of(idx: Seq<u32>, o: Seq<bool>, g: int) -> bool {
    &&& o.len() == face_count(idx)
    &&& forall|k1: int, k2: int|
        #![trigger occ_key(idx, k1), occ_key(idx, k2)]
        0 <= k1 < occurrence_count(idx) && 0 <= k2 < occurrence_count(idx) && k1 != k2
            && occ_key(idx, k1) == occ_key(idx, k2) && faces_connected(idx, g, k1 / 3) ==> ((o[k1
            / 3] != o[k2 / 3]) == (occ_forward(idx, k1) == occ_forward(idx, k2)))
}

/// The triangles can be flipped so that every shared edge is traversed in
/// opposite directions by the two sides along it.
pub open spec fn orientable(idx: Seq<u32>) -> bool {
    exists|o: Seq<bool>| #[trigger] is_orientation(idx, o)
}

/// `rustc_hash::FxBuildHasher`, the stateless builder of Fx hashers that
/// `FxHashMap` uses.
#[verifier::external_type_specification]
#[verifier::external_body]
pub struct ExFxBuildHasher(rustc_hash::FxBuildHasher);

/// `HashMap::get` on an `FxHashMap` (std's map with rustc-hash's
/// `FxBuildHasher`, whose hashers are deterministic and hash equal `u64`s
/// equally).  The contract claims what std documents for a map whose keys
/// hash consistently with `==`: the value stored under `code`, if any.
#[verifier::external_body]
fn fx_get(map: &FxHashMap<u64, usize>, code: u64) -> (r: Option<usize>)
    ensures
        r == (if map@.contains_key(code) {
            Some(map@[code])
        } else {
            None
        }),
{
    map.get(&code).copied()
}

/// `HashMap::insert` on an `FxHashMap`.  The contract claims what std
/// documents: afterwards `code` maps to `slot` and every other key keeps
/// its value.
#[verifier::external_body]
fn fx_insert(map: &mut FxHashMap<u64, usize>, code: u64, slot: usize)
    ensures
        final(map)@ == old(map)@.insert(code, slot),
{
    map.insert(code, slot);
}

/// Some side of triangle `k / 3` before position `k` runs along `e`.
pub open spec fn seen_in_face(idx: Seq<u32>, e: (u32, u32), k: int) -> bool {
    exists|j: int| 3 * (k / 3) <= j < k && #[trigger] occ_key(idx, j) == e
}

/// Triangles with a side along `e` among the first `k` occurrences: the
/// whole triangles before `k / 3`, and the current one once one of its
/// sides before `k` runs along `e`.
pub open spec fn incidence_partial(idx: Seq<u32>, e: (u32, u32), k: int) -> int {
    incidence_upto(idx, e, k / 3) + (if seen_in_face(idx, e, k) {
        1int
    } else {
        0
    })
}

/// How one more occurrence changes the partial incidence of an edge.
proof fn lemma_partial_step(idx: Seq<u32>, e: (u32, u32), k: int)
    requires
        0 <= k,
    ensures
        incidence_partial(idx, e, k + 1) == incidence_partial(idx, e, k) + (if occ_key(idx, k) == e
            && !seen_in_face(idx, e, k) {
            1int
        } else {
            0
        }),
        (k + 1) % 3 != 0 ==> (seen_in_face(idx, e, k + 1) <==> (seen_in_face(idx, e, k)
            || occ_key(idx, k) == e)),
        (k + 1) % 3 == 0 ==> !seen_in_face(idx, e, k + 1),
{
    let f = k / 3;
    if k % 3 == 2 {
        assert((k + 1) / 3 == f + 1);
        assert(3 * f == k - 2);
        assert(!seen_in_face(idx, e, k + 1));
        assert(incidence_upto(idx, e, f + 1) == incidence_upto(idx, e, f) + (if face_has_edge(
            idx,
            f,
            e,
        ) {
            1int
        } else {
            0
        }));
        if face_has_edge(idx, f, e) && occ_key(idx, k) != e {
            if occ_key(idx, 3 * f) == e {
                assert(seen_in_face(idx, e, k));
            } else {
                assert(occ_key(idx, 3 * f + 1) == e);
                assert(seen_in_face(idx, e, k));
            }
        }
        if seen_in_face(idx, e, k) {
            let j = choose|j: int| 3 * (k / 3) <= j < k && #[trigger] occ_key(idx, j) == e;
            assert(j == 3 * f || j == 3 * f + 1);
            assert(face_has_edge(idx, f, e));
        }
        if occ_key(idx, k) == e {
            assert(face_has_edge(idx, f, e));
        }
    } else {
        assert((k + 1) / 3 == f);
        if seen_in_face(idx, e, k) {
            let j = choose|j: int| 3 * (k / 3) <= j < k && #[trigger] occ_key(idx, j) == e;
            assert(3 * ((k + 1) / 3) <= j < k + 1);
        }
        if occ_key(idx, k) == e {
            assert(3 * ((k + 1) / 3) <= k < k + 1);
        }
        if seen_in_face(idx, e, k + 1) {
            let j = choose|j: int| 3 * ((k + 1) / 3) <= j < k + 1 && #[trigger] occ_key(idx, j) == e;
            if j < k {
                assert(seen_in_face(idx, e, k));
            }
        }
    }
}

/// Everything one pass over the occurrences learns about the mesh.
pub struct EdgeScan {
    /// Distinct undirected edges, in order of first appearance.
    pub keys: Vec<(u32, u32)>,
    /// Number of triangles with a side along each edge of `keys`.
    pub counts: Vec<usize>,
    /// Triangles joined across shared edges, with winding parities.
    pub uf: UnionFind,
    /// Triangle holding the first side along each edge of `keys`.
    pub first_face: Vec<usize>,
}

/// The facts that `scan_edges` establishes.
pub open spec fn scan_facts(s: Seq<u32>, r: EdgeScan) -> bool {
    &&& r.keys@ == edge_list(s)
    &&& r.counts@.len() == r.keys@.len()
    &&& r.first_face@.len() == r.keys@.len()
    &&& r.keys@.len() <= occurrence_count(s)
    &&& forall|i: int|
        0 <= i < r.keys@.len() ==> #[trigger] r.counts@[i] as int == incidence(s, r.keys@[i])
    &&& r.uf.wf()
    &&& r.uf.size() == face_count(s)
    &&& forall|x: int| 0 <= x < face_count(s) ==> #[trigger] faces_connected(s, x, r.uf.root(x))
    &&& forall|i: int, k0: int|
        #![trigger r.keys@[i], occ_key(s, k0)]
        0 <= i < r.keys@.len() && 0 <= k0 < occurrence_count(s) && occ_key(s, k0) == r.keys@[i]
            ==> r.uf.root(k0 / 3) == r.uf.root(r.first_face@[i] as int)
    &&& forall|o: Seq<bool>, g: int|
        #[trigger] is_orientation_of(s, o, g) ==> forall|x: int|
            0 <= x < face_count(s) && faces_connected(s, g, x) ==> #[trigger] r.uf.par(x) == (o[x]
                != o[r.uf.root(x)])
}

/// Two triangles that share an edge have the same representative, given
/// that every occurrence of an edge has the representative of that edge's
/// first triangle.
pub proof fn lemma_share_same_root(
    idx: Seq<u32>,
    uf: UnionFind,
    keys: Seq<(u32, u32)>,
    first_face: Seq<usize>,
    f: int,
    g: int,
)
    requires
        keys == distinct_keys(idx, occurrence_count(idx)),
        first_face.len() == keys.len(),
        forall|i: int, k0: int|
            #![trigger keys[i], occ_key(idx, k0)]
            0 <= i < keys.len() && 0 <= k0 < occurrence_count(idx) && occ_key(idx, k0) == keys[i]
                ==> uf.root(k0 / 3) == uf.root(first_face[i] as int),
        faces_share_edge(idx, f, g),
    ensures
        uf.root(f) == uf.root(g),
{
    let (k1, k2) = choose|k1: int, k2: int|
        #![trigger occ_key(idx, k1), occ_key(idx, k2)]
        0 <= k1 < occurrence_count(idx) && 0 <= k2 < occurrence_count(idx) && k1 / 3 == f && k2
            / 3 == g && occ_key(idx, k1) == occ_key(idx, k2);
    lemma_distinct_keys(idx, occurrence_count(idx));
    let e = occ_key(idx, k1);
    assert(keys.contains(e));
    let i = choose|i: int| 0 <= i < keys.len() && keys[i] == e;
    assert(uf.root(k1 / 3) == uf.root(first_face[i] as int));
    assert(uf.root(k2 / 3) == uf.root(first_face[i] as int));
}

/// Triangles joined by a walk have the same representative.
pub proof fn lemma_path_same_root(
    idx: Seq<u32>,
    uf: UnionFind,
    keys: Seq<(u32, u32)>,
    first_face: Seq<usize>,
    p: Seq<int>,
    n: int,
)
    requires
        keys == distinct_keys(idx, occurrence_count(idx)),
        first_face.len() == keys.len(),
        forall|i: int, k0: int|
            #![trigger keys[i], occ_key(idx, k0)]
            0 <= i < keys.len() && 0 <= k0 < occurrence_count(idx) && occ_key(idx, k0) == keys[i]
                ==> uf.root(k0 / 3) == uf.root(first_face[i] as int),
        is_face_path(idx, p),
        1 <= n <= p.len(),
    ensures
        uf.root(p[0]) == uf.root(p[n - 1]),
    decreases n,
{
    if n > 1 {
        lemma_path_same_root(idx, uf, keys, first_face, p, n - 1);
        let j = n - 2;
        assert(p[j + 1] == p[n - 1]);
        assert(faces_share_edge(idx, p[j], p[j + 1]));
        lemma_share_same_root(idx, uf, keys, first_face, p[n - 2], p[n - 1]);
    }
}

/// Scan every edge occurrence once: collect the distinct edges with their
/// incidences, and join the triangles on each edge to the edge's first
/// triangle, with the parity that makes their windings agree.
#[verifier::spinoff_prover]
#[verifier::rlimit(100)]
pub fn scan_edges(idx: &Vec<u32>) -> (r: EdgeScan)
    ensures
        scan_facts(idx@, r),
{
    let ghost s = idx@;
    let nf: usize = idx.len() / 3;
    let n_occ: usize = nf * 3;
    let mut map: FxHashMap<u64, usize> = FxHashMap::default();
    let mut keys: Vec<(u32, u32)> = Vec::new();
    let mut counts: Vec<usize> = Vec::new();
    let mut last_face: Vec<usize> = Vec::new();
    let mut first_face: Vec<usize> = Vec::new();
    let mut first_fwd: Vec<bool> = Vec::new();
    let ghost mut first_occ: Seq<int> = Seq::empty();
    let mut uf = UnionFind::new(nf);
    proof {
        assert forall|x: int| 0 <= x < nf implies #[trigger] faces_connected(s, x, uf.root(x)) by {
            assert(uf.root(x) == x);
            lemma_connected_refl(s, x);
        }
        assert forall|o: Seq<bool>, g: int| #[trigger] is_orientation_of(s, o, g) implies forall|x: int|
            0 <= x < nf && faces_connected(s, g, x) ==> #[trigger] uf.par(x) == (o[x] != o[uf.root(
                x,
            )]) by {
            assert forall|x: int| 0 <= x < nf && faces_connected(s, g, x) implies #[trigger] uf.par(
                x,
            ) == (o[x] != o[uf.root(x)]) by {
                assert(uf.root(x) == x && !uf.par(x));
            }
        }
    }
    let mut k: usize = 0;
    while k < n_occ
        invariant
            s == idx@,
            nf as int == face_count(s),
            n_occ as int == occurrence_count(s),
            k <= n_occ,
            keys@ == distinct_keys(s, k as int),
            counts@.len() == keys@.len(),
            first_face@.len() == keys@.len(),
            first_occ.len() == keys@.len(),
            first_fwd@.len() == keys@.len(),
            last_face@.len() == keys@.len(),
            forall|i: int|
                0 <= i < keys@.len() ==> #[trigger] counts@[i] as int == incidence_partial(
                    s,
                    keys@[i],
                    k as int,
                ),
            forall|i: int|
                0 <= i < keys@.len() ==> 3 * (#[trigger] last_face@[i]) < k && (seen_in_face(
                    s,
                    keys@[i],
                    k as int,
                ) <==> last_face@[i] == k / 3),
            forall|i: int|
                0 <= i < keys@.len() ==> 0 <= #[trigger] first_occ[i] < k && occ_key(
                    s,
                    first_occ[i],
                ) == keys@[i] && first_face@[i] as int == first_occ[i] / 3 && first_fwd@[i]
                    == occ_forward(s, first_occ[i]),
            forall|c: u64|
                #[trigger] map@.contains_key(c) ==> map@[c] < keys@.len() && key_code(
                    keys@[map@[c] as int],
                ) == c,
            forall|i: int|
                0 <= i < keys@.len() ==> #[trigger] map@.contains_key(key_code(keys@[i])),
            uf.wf(),
            uf.size() == nf,
            forall|x: int| 0 <= x < nf ==> #[trigger] faces_connected(s, x, uf.root(x)),
            forall|i: int, k0: int|
                #![trigger keys@[i], occ_key(s, k0)]
                0 <= i < keys@.len() && 0 <= k0 < k && occ_key(s, k0) == keys@[i] ==> uf.root(
                    k0 / 3,
                ) == uf.root(first_face@[i] as int),
            forall|o: Seq<bool>, g: int|
                #[trigger] is_orientation_of(s, o, g) ==> forall|x: int|
                    0 <= x < nf && faces_connected(s, g, x) ==> #[trigger] uf.par(x) == (o[x]
                        != o[uf.root(x)]),
        decreases n_occ - k,
    {
        proof {
            lemma_occ_in_range(s, k as int);
            lemma_distinct_keys(s, k as int);
        }
        let f: usize = k / 3;
        let a: u32 = idx[k];
        let b: u32 = if k % 3 == 2 {
            idx[k - 2]
        } else {
            idx[k + 1]
        };
        let key: (u32, u32) = if a <= b {
            (a, b)
        } else {
            (b, a)
        };
        assert(key == occ_key(s, k as int));
        let code: u64 = (key.1 as u64) * 0x1_0000_0000u64 + (key.0 as u64);
        assert(code == key_code(key));
        let fwd: bool = a < b;
        assert(fwd == occ_forward(s, k as int));
        let found: Option<usize> = fx_get(&map, code);
        let ghost uf0 = uf;
        let ghost keys0 = keys@;
        match found {
            Some(slot) => {
                proof {
                    lemma_key_code_injective(keys0[slot as int], key);
                    lemma_incidence_bounds(s, key, k as int / 3);
                }
                let ghost counts0 = counts@;
                let ghost last0 = last_face@;
                if last_face[slot] != f {
                    let cnt = counts[slot] + 1;
                    counts.set(slot, cnt);
                }
                last_face.set(slot, f);
                let ff = first_face[slot];
                let link: bool = first_fwd[slot] == fwd;
                proof {
                    lemma_occ_in_range(s, first_occ[slot as int]);
                    uf0.lemma_root(ff as int);
                    uf0.lemma_root(f as int);
                    lemma_occ_in_range(s, first_occ[slot as int]);
                    let k1 = first_occ[slot as int];
                    assert(occ_key(s, k1) == occ_key(s, k as int));
                    assert(faces_share_edge(s, k1 / 3, k as int / 3));
                    lemma_connected_step(s, ff as int, f as int);
                }
                uf.union(ff, f, link);
                proof {
                    let ra = uf0.root(ff as int);
                    let rb = uf0.root(f as int);
                    // the two old representatives are connected
                    assert(faces_connected(s, ff as int, ra));
                    assert(faces_connected(s, f as int, rb));
                    lemma_connected_symmetric(s, ff as int, ra);
                    lemma_connected_transitive(s, ra, ff as int, f as int);
                    lemma_connected_transitive(s, ra, f as int, rb);
                    lemma_connected_symmetric(s, ra, rb);
                    assert forall|x: int| 0 <= x < nf implies #[trigger] faces_connected(
                        s,
                        x,
                        uf.root(x),
                    ) by {
                        assert(faces_connected(s, x, uf0.root(x)));
                        assert(uf.root(x) == joined_root(ra, rb, uf0.root(x)));
                        if uf0.root(x) == ra && uf.root(x) == rb {
                            lemma_connected_transitive(s, x, ra, rb);
                        } else if uf0.root(x) == rb && uf.root(x) == ra {
                            lemma_connected_transitive(s, x, rb, ra);
                        }
                    }
                    assert forall|i: int, k0: int|
                        #![trigger keys@[i], occ_key(s, k0)]
                        0 <= i < keys@.len() && 0 <= k0 < k + 1 && occ_key(s, k0) == keys@[i]
                            implies uf.root(k0 / 3) == uf.root(first_face@[i] as int) by {
                        lemma_occ_in_range(s, k0);
                        lemma_occ_in_range(s, first_occ[i]);
                        if k0 == k {
                            assert(keys@[i] == keys0[slot as int]);
                            assert(i == slot);
                            assert(uf.root(f as int) == joined_root(ra, rb, rb));
                            assert(uf.root(ff as int) == joined_root(ra, rb, ra));
                        } else {
                            assert(uf0.root(k0 / 3) == uf0.root(first_face@[i] as int));
                            assert(uf.root(k0 / 3) == joined_root(ra, rb, uf0.root(k0 / 3)));
                            assert(uf.root(first_face@[i] as int) == joined_root(
                                ra,
                                rb,
                                uf0.root(first_face@[i] as int),
                            ));
                        }
                    }
                    lemma_connected_symmetric(s, f as int, rb);
                    lemma_connected_symmetric(s, ff as int, f as int);
                    assert forall|o: Seq<bool>, g: int| #[trigger] is_orientation_of(s, o, g) implies forall|
                        x: int,
                    |
                        0 <= x < nf && faces_connected(s, g, x) ==> #[trigger] uf.par(x) == (o[x]
                            != o[uf.root(x)]) by {
                        let k1 = first_occ[slot as int];
                        assert forall|x: int| 0 <= x < nf && faces_connected(s, g, x) implies #[trigger] uf.par(
                            x,
                        ) == (o[x] != o[uf.root(x)]) by {
                            assert(uf0.par(x) == (o[x] != o[uf0.root(x)]));
                            if ra != rb {
                                assert(uf.root(x) == joined_root(ra, rb, uf0.root(x)));
                                assert(uf.par(x) == joined_par(
                                    ra,
                                    rb,
                                    uf0.root(x),
                                    uf0.par(x),
                                    (uf0.par(ff as int) != uf0.par(f as int)) != link,
                                ));
                                if uf0.root(x) == ra || uf0.root(x) == rb {
                                    assert(faces_connected(s, x, uf0.root(x)));
                                    if uf0.root(x) == ra {
                                        lemma_connected_transitive(s, x, ra, ff as int);
                                        lemma_connected_transitive(s, g, x, ff as int);
                                    } else {
                                        lemma_connected_transitive(s, x, rb, f as int);
                                        lemma_connected_transitive(s, g, x, f as int);
                                        lemma_connected_transitive(s, g, f as int, ff as int);
                                    }
                                    lemma_connected_transitive(s, g, ff as int, f as int);
                                    assert(occ_key(s, k1) == occ_key(s, k as int));
                                    assert(k1 / 3 == ff);
                                    assert((o[k1 / 3] != o[k as int / 3]) == (occ_forward(s, k1)
                                        == occ_forward(s, k as int)));
                                    assert(uf0.par(ff as int) == (o[ff as int] != o[ra]));
                                    assert(uf0.par(f as int) == (o[f as int] != o[rb]));
                                }
                            }
                        }
                    }
                    assert(distinct_keys(s, k + 1) == distinct_keys(s, k as int));
                    assert forall|i: int| 0 <= i < keys@.len() implies #[trigger] counts@[i] as int
                        == incidence_partial(s, keys@[i], k + 1) && 3 * last_face@[i] < k + 1 && (
                        seen_in_face(s, keys@[i], k + 1) <==> last_face@[i] == (k + 1) / 3) by {
                        lemma_partial_step(s, keys@[i], k as int);
                        assert(counts0[i] as int == incidence_partial(s, keys@[i], k as int));
                        assert(3 * last0[i] < k && (seen_in_face(s, keys@[i], k as int) <==> last0[i]
                            == k / 3));
                        if i != slot {
                            assert(keys@[i] != keys@[slot as int]);
                        }
                    }
                }
            },
            None => {
                proof {
                    if keys0.contains(key) {
                        let i = choose|i: int| 0 <= i < keys0.len() && keys0[i] == key;
                        assert(map@.contains_key(key_code(keys0[i])));
                    }
                    assert forall|k0: int| 0 <= k0 < k implies occ_key(s, k0) != key by {
                        if occ_key(s, k0) == key {
                            assert(distinct_keys(s, k as int).contains(key));
                        }
                    }
                    lemma_incidence_zero(s, key, k as int / 3);
                }
                proof {
                    lemma_partial_step(s, key, k as int);
                    assert(!seen_in_face(s, key, k as int)) by {
                        if seen_in_face(s, key, k as int) {
                            let j = choose|j: int|
                                3 * (k / 3) <= j < k && #[trigger] occ_key(s, j) == key;
                            assert(occ_key(s, j) != key);
                        }
                    }
                    assert(incidence_partial(s, key, k + 1) == 1);
                }
                let ghost counts0 = counts@;
                let ghost last0 = last_face@;
                fx_insert(&mut map, code, keys.len());
                keys.push(key);
                counts.push(1);
                last_face.push(f);
                first_face.push(f);
                first_fwd.push(fwd);
                proof {
                    first_occ = first_occ.push(k as int);
                    assert(keys@ == distinct_keys(s, k + 1));
                    assert forall|i: int| 0 <= i < keys@.len() implies #[trigger] counts@[i] as int
                        == incidence_partial(s, keys@[i], k + 1) && 3 * last_face@[i] < k + 1 && (
                        seen_in_face(s, keys@[i], k + 1) <==> last_face@[i] == (k + 1) / 3) by {
                        lemma_partial_step(s, keys@[i], k as int);
                        if i < keys0.len() {
                            assert(keys@[i] == keys0[i]);
                            assert(keys0[i] != key);
                            assert(counts0[i] as int == incidence_partial(s, keys@[i], k as int));
                            assert(3 * last0[i] < k && (seen_in_face(s, keys@[i], k as int)
                                <==> last0[i] == k / 3));
                        }
                    }
                    assert forall|c: u64| #[trigger] map@.contains_key(c) implies map@[c]
                        < keys@.len() && key_code(keys@[map@[c] as int]) == c by {
                        if c != code {
                            assert(keys@[map@[c] as int] == keys0[map@[c] as int]);
                        }
                    }
                    assert forall|i: int| 0 <= i < keys@.len() implies #[trigger] map@.contains_key(
                        key_code(keys@[i]),
                    ) by {
                        if i < keys0.len() {
                            assert(keys@[i] == keys0[i]);
                        }
                    }
                    assert forall|i: int| 0 <= i < keys@.len() implies 0 <= #[trigger] first_occ[i]
                        < k + 1 && occ_key(s, first_occ[i]) == keys@[i] && first_face@[i] as int
                        == first_occ[i] / 3 && first_fwd@[i] == occ_forward(s, first_occ[i]) by {
                        if i < keys0.len() {
                            assert(keys@[i] == keys0[i]);
                        }
                    }
                    assert forall|i: int, k0: int|
                        #![trigger keys@[i], occ_key(s, k0)]
                        0 <= i < keys@.len() && 0 <= k0 < k + 1 && occ_key(s, k0) == keys@[i]
                            implies uf.root(k0 / 3) == uf.root(first_face@[i] as int) by {
                        if i < keys0.len() {
                            assert(keys@[i] == keys0[i]);
                            if k0 == k {
                                assert(keys0[i] != key);
                            }
                        } else {
                            if k0 < k {
                                assert(occ_key(s, k0) != key);
                            }
                        }
                    }
                }
            },
        }
        k += 1;
    }
    proof {
        lemma_distinct_keys(s, n_occ as int);
        assert(keys@.len() <= n_occ);
        assert forall|i: int| 0 <= i < keys@.len() implies #[trigger] counts@[i] as int == incidence(
            s,
            keys@[i],
        ) by {
            assert(counts@[i] as int == incidence_partial(s, keys@[i], n_occ as int));
            assert(n_occ as int / 3 == nf);
            assert(!seen_in_face(s, keys@[i], n_occ as int));
        }
    }
    EdgeScan { keys, counts, uf, first_face }
}

} // verus!
