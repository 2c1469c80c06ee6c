use engvis::boundary::{boundary_edges, boundary_vertices};
use engvis::clip::{clip_triangles, ClipVertex};
use engvis::dedup::{
    assign_slots, drop_degenerate_triangles, group_starts, remap_indices, sorted_vertex_keys,
};
use engvis::topology::{compute_topology, MeshIndices};
use engvis::winding::{flip_components, orient_faces};

fn tetra() -> Vec<u32> {
    vec![0, 1, 2, 0, 3, 1, 0, 2, 3, 1, 3, 2]
}

#[test]
fn topology_of_closed_tetrahedron() {
    let t = compute_topology(&MeshIndices { vertex_count: 4, indices: tetra() });
    assert_eq!(t.vertices, 4);
    assert_eq!(t.edges, 6);
    assert_eq!(t.faces, 4);
    assert_eq!(t.euler, 2);
    assert_eq!(t.boundary_edges, 0);
    assert_eq!(t.non_manifold_edges, 0);
    assert_eq!(t.connected_components, 1);
    assert!(t.is_watertight);
}

#[test]
fn topology_of_two_separate_triangles() {
    let t = compute_topology(&MeshIndices { vertex_count: 6, indices: vec![0, 1, 2, 3, 4, 5] });
    assert_eq!(t.edges, 6);
    assert_eq!(t.faces, 2);
    assert_eq!(t.euler, 2);
    assert_eq!(t.boundary_edges, 6);
    assert_eq!(t.connected_components, 2);
    assert!(!t.is_watertight);
}

#[test]
fn topology_counts_non_manifold_edge() {
    let t = compute_topology(&MeshIndices {
        vertex_count: 5,
        indices: vec![0, 1, 2, 0, 1, 3, 0, 1, 4],
    });
    assert_eq!(t.edges, 7);
    assert_eq!(t.boundary_edges, 6);
    assert_eq!(t.non_manifold_edges, 1);
    assert_eq!(t.connected_components, 1);
    assert_eq!(t.euler, 1);
    assert!(!t.is_watertight);
}

#[test]
fn topology_counts_degenerate_triangle_once_per_edge() {
    // Triangle [0, 0, 1] lays two of its sides on edge (0, 1); the edge is
    // still shared by one triangle only.
    let t = compute_topology(&MeshIndices { vertex_count: 2, indices: vec![0, 0, 1] });
    assert_eq!(t.edges, 2);
    assert_eq!(t.boundary_edges, 2);
    assert_eq!(t.non_manifold_edges, 0);
    assert_eq!(boundary_edges(&vec![0, 0, 1]), vec![(0, 0), (0, 1)]);
    let u = compute_topology(&MeshIndices { vertex_count: 3, indices: vec![0, 0, 1, 0, 1, 2] });
    assert_eq!(u.edges, 4);
    assert_eq!(u.boundary_edges, 3);
    assert_eq!(u.non_manifold_edges, 0);
    assert_eq!(u.connected_components, 1);
}

#[test]
fn topology_ignores_trailing_partial_triangle_and_empty_mesh() {
    let t = compute_topology(&MeshIndices { vertex_count: 3, indices: vec![0, 1, 2, 0] });
    assert_eq!(t.faces, 1);
    assert_eq!(t.edges, 3);
    let e = compute_topology(&MeshIndices { vertex_count: 0, indices: vec![] });
    assert_eq!(e.faces, 0);
    assert_eq!(e.connected_components, 0);
    assert!(!e.is_watertight);
}

#[test]
fn edge_indices_list_each_edge_once() {
    let m = MeshIndices { vertex_count: 4, indices: vec![0, 1, 2, 2, 1, 3] };
    assert_eq!(m.extract_edge_indices(), vec![0, 1, 1, 2, 2, 0, 1, 3, 3, 2]);
    let t = MeshIndices { vertex_count: 4, indices: tetra() };
    assert_eq!(t.extract_edge_indices().len(), 12);
}

#[test]
fn orient_faces_repairs_a_flipped_face() {
    let mut idx = vec![0, 1, 2, 0, 3, 1, 0, 3, 2, 1, 3, 2];
    let comp = orient_faces(&mut idx);
    assert_eq!(idx, tetra());
    assert_eq!(comp, vec![0, 0, 0, 0]);
}

#[test]
fn orient_faces_keeps_first_face_and_numbers_components() {
    let mut idx = vec![0, 1, 2, 1, 2, 3, 7, 8, 9];
    let comp = orient_faces(&mut idx);
    assert_eq!(idx, vec![0, 1, 2, 1, 3, 2, 7, 8, 9]);
    assert_eq!(comp, vec![0, 0, 1]);
}

#[test]
fn flip_components_turns_marked_components() {
    let mut idx = vec![0, 1, 2, 3, 4, 5, 6];
    flip_components(&mut idx, &vec![0, 1], &vec![false, true]);
    assert_eq!(idx, vec![0, 1, 2, 3, 5, 4, 6]);
}

#[test]
fn dedup_merges_equal_keys_when_near() {
    let hashes: Vec<u64> = vec![5, 3, 5, 3, 7];
    let keyed = sorted_vertex_keys(&hashes);
    assert_eq!(keyed.len(), 5);
    for w in keyed.windows(2) {
        assert!(w[0].0 <= w[1].0);
    }
    let mut seen: Vec<u32> = keyed.iter().map(|e| e.1).collect();
    seen.sort();
    assert_eq!(seen, vec![0, 1, 2, 3, 4]);
    let start = group_starts(&keyed);
    assert_eq!(start, vec![0, 0, 2, 2, 4]);
    let all_near: Vec<Vec<bool>> = (0..5).map(|j| vec![true; j - start[j]]).collect();
    let (remap, kept) = assign_slots(&keyed, &start, &all_near);
    assert_eq!(remap, vec![1, 0, 1, 0, 2]);
    assert_eq!(kept.len(), 3);
    assert!(kept[0] == 1 || kept[0] == 3);
    assert!(kept[1] == 0 || kept[1] == 2);
    assert_eq!(kept[2], 4);
    let none_near: Vec<Vec<bool>> = (0..5).map(|j| vec![false; j - start[j]]).collect();
    let (remap2, kept2) = assign_slots(&keyed, &start, &none_near);
    assert_eq!(kept2.len(), 5);
    let mut r2 = remap2.clone();
    r2.sort();
    assert_eq!(r2, vec![0, 1, 2, 3, 4]);
}

#[test]
fn dedup_collapses_co_located_vertices_far_from_run_start() {
    // Vertices 1 and 2 sit at one place, away from vertex 0; all three
    // share a key.
    let keyed: Vec<(u64, u32)> = vec![(5, 0), (5, 1), (5, 2)];
    let start = group_starts(&keyed);
    assert_eq!(start, vec![0, 0, 0]);
    let near: Vec<Vec<bool>> = vec![vec![], vec![false], vec![false, true]];
    let (remap, kept) = assign_slots(&keyed, &start, &near);
    assert_eq!(remap, vec![0, 1, 1]);
    assert_eq!(kept, vec![0, 1]);
}

#[test]
fn dedup_joins_first_close_founder() {
    // Vertex 2 is close to both founders 0 and 1: it joins the first.
    let keyed: Vec<(u64, u32)> = vec![(9, 0), (9, 1), (9, 2)];
    let start = group_starts(&keyed);
    let near: Vec<Vec<bool>> = vec![vec![], vec![false], vec![true, true]];
    let (remap, kept) = assign_slots(&keyed, &start, &near);
    assert_eq!(remap, vec![0, 1, 0]);
    assert_eq!(kept, vec![0, 1]);
}

#[test]
fn remap_then_drop_degenerate() {
    let mut idx = vec![0, 1, 2, 2, 3, 4];
    remap_indices(&mut idx, &vec![1, 0, 1, 0, 2]);
    assert_eq!(idx, vec![1, 0, 1, 1, 0, 2]);
    drop_degenerate_triangles(&mut idx);
    assert_eq!(idx, vec![1, 0, 2]);
    let mut tail = vec![0, 1, 2, 3, 3, 4, 5, 6];
    drop_degenerate_triangles(&mut tail);
    assert_eq!(tail, vec![0, 1, 2]);
}

#[test]
fn boundary_of_open_and_closed_meshes() {
    let open = vec![0, 1, 2, 2, 1, 3];
    assert_eq!(boundary_edges(&open), vec![(0, 1), (0, 2), (1, 3), (2, 3)]);
    assert_eq!(boundary_vertices(&open), vec![0, 1, 2, 3]);
    assert!(boundary_edges(&tetra()).is_empty());
    assert!(boundary_vertices(&tetra()).is_empty());
}

#[test]
fn clip_keeps_cuts_and_drops() {
    let one_in = clip_triangles(&vec![0, 1, 2], &vec![true, false, false]);
    assert_eq!(one_in.indices, vec![0, 1, 2]);
    assert_eq!(
        one_in.sources,
        vec![ClipVertex::Kept(0), ClipVertex::Crossing(0, 1), ClipVertex::Crossing(0, 2)]
    );
    let two_in = clip_triangles(&vec![0, 1, 2], &vec![true, true, false]);
    assert_eq!(two_in.indices, vec![0, 1, 2, 0, 2, 3]);
    assert_eq!(
        two_in.sources,
        vec![
            ClipVertex::Kept(0),
            ClipVertex::Kept(1),
            ClipVertex::Crossing(1, 2),
            ClipVertex::Crossing(0, 2)
        ]
    );
    let all_in = clip_triangles(&vec![2, 1, 0, 1, 2, 3], &vec![true; 4]);
    assert_eq!(all_in.indices, vec![0, 1, 2, 1, 0, 3]);
    assert_eq!(
        all_in.sources,
        vec![
            ClipVertex::Kept(2),
            ClipVertex::Kept(1),
            ClipVertex::Kept(0),
            ClipVertex::Kept(3)
        ]
    );
    let none_in = clip_triangles(&vec![0, 1, 2], &vec![false; 3]);
    assert!(none_in.indices.is_empty());
    assert!(none_in.sources.is_empty());
}

#[test]
fn orient_faces_leaves_consistent_mesh_unchanged() {
    let mut idx = tetra();
    let comp = orient_faces(&mut idx);
    assert_eq!(idx, tetra());
    assert_eq!(comp, vec![0, 0, 0, 0]);
    let mut again = idx.clone();
    orient_faces(&mut again);
    assert_eq!(again, idx);
}

#[test]
fn flips_keep_topology() {
    let before = compute_topology(&MeshIndices { vertex_count: 5, indices: vec![0, 1, 2, 2, 1, 3, 3, 1, 4, 7] });
    let mut idx = vec![0, 1, 2, 2, 1, 3, 3, 1, 4, 7];
    flip_components(&mut idx, &vec![0, 1, 0], &vec![true, false]);
    assert_eq!(idx, vec![0, 2, 1, 2, 1, 3, 3, 4, 1, 7]);
    let after = compute_topology(&MeshIndices { vertex_count: 5, indices: idx });
    assert_eq!(before, after);
}

#[test]
fn orientation_of_a_strip_follows_the_first_triangle() {
    let mut idx = vec![0, 1, 2, 1, 2, 3, 2, 3, 4];
    orient_faces(&mut idx);
    assert_eq!(idx, vec![0, 1, 2, 1, 3, 2, 2, 3, 4]);
}

#[test]
fn orientable_component_is_repaired_beside_a_moebius_strip() {
    // A five-triangle Moebius strip, then a tetrahedron with one face flipped.
    let mut idx = vec![0, 1, 2, 1, 2, 3, 2, 3, 4, 3, 4, 0, 4, 0, 1];
    let mut tet: Vec<u32> = vec![10, 11, 12, 10, 13, 11, 10, 13, 12, 11, 13, 12];
    idx.append(&mut tet);
    let comp = orient_faces(&mut idx);
    assert_eq!(&idx[15..], &[10, 11, 12, 10, 13, 11, 10, 12, 13, 11, 13, 12]);
    assert_eq!(&idx[0..3], &[0, 1, 2]);
    assert_eq!(comp, vec![0, 0, 0, 0, 0, 1, 1, 1, 1]);
}

fn grid_torus(n: u32, m: u32) -> Vec<u32> {
    let v = |i: u32, j: u32| (i % n) * m + (j % m);
    let mut idx = Vec::new();
    for i in 0..n {
        for j in 0..m {
            idx.extend_from_slice(&[v(i, j), v(i + 1, j), v(i + 1, j + 1)]);
            idx.extend_from_slice(&[v(i, j), v(i + 1, j + 1), v(i, j + 1)]);
        }
    }
    idx
}

#[test]
fn torus_has_euler_characteristic_zero() {
    let t = compute_topology(&MeshIndices { vertex_count: 9, indices: grid_torus(3, 3) });
    assert_eq!((t.vertices, t.edges, t.faces), (9, 27, 18));
    assert_eq!(t.euler, 0);
    assert_eq!(t.boundary_edges, 0);
    assert_eq!(t.non_manifold_edges, 0);
    assert_eq!(t.connected_components, 1);
    assert!(t.is_watertight);
    let mut idx = grid_torus(3, 3);
    orient_faces(&mut idx);
    assert_eq!(idx, grid_torus(3, 3));
}

#[test]
fn flipping_twice_restores_the_buffer() {
    let before = grid_torus(3, 4);
    let comp = vec![0usize; before.len() / 3];
    let mut idx = before.clone();
    flip_components(&mut idx, &comp, &vec![true]);
    assert_ne!(idx, before);
    flip_components(&mut idx, &comp, &vec![true]);
    assert_eq!(idx, before);
}
