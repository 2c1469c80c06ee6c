use engvis::grid::{cell_corner_indices, sample_index};
use engvis::marching_cubes::{
    cell_case_index, cell_triangles, compute_mc33_subcase, count_amb_faces_from_case,
    count_corners, face_alternating, mc33_tris, row_triangles_exec,
};
use engvis::marching_squares::{square_case, square_segments, Face, SquareSide};
use engvis::mc_tables::{tri_table_row_exec, EDGE_TABLE, EDGE_VERTS};
use engvis::patterns::{quad_indices, segment_indices, SubMesh};

#[test]
fn triangle_table_uses_exactly_the_crossed_edges() {
    for c in 0..=255u8 {
        let row = tri_table_row_exec(c);
        let mut used: u16 = 0;
        let mut n = 0;
        while n < 16 && row[n] >= 0 {
            used |= 1 << row[n];
            n += 1;
        }
        assert_eq!(n % 3, 0, "case {}", c);
        assert!(row[n..].iter().all(|&e| e == -1), "case {}", c);
        assert_eq!(used, EDGE_TABLE[c as usize], "case {}", c);
        for e in 0..12 {
            let [a, b] = EDGE_VERTS[e];
            let crosses = ((c >> a) & 1) != ((c >> b) & 1);
            assert_eq!(crosses, (EDGE_TABLE[c as usize] >> e) & 1 == 1, "case {} edge {}", c, e);
        }
    }
}

#[test]
fn complementary_cases_cross_the_same_edges() {
    for c in 0..=255u8 {
        assert_eq!(EDGE_TABLE[c as usize], EDGE_TABLE[(255 - c) as usize]);
        assert_eq!(count_amb_faces_from_case(c), count_amb_faces_from_case(255 - c));
    }
}

#[test]
fn case_index_and_single_corner_cell() {
    let mut below = [false; 8];
    below[0] = true;
    assert_eq!(cell_case_index(&below), 1);
    assert_eq!(EDGE_TABLE[1], 0x109);
    assert_eq!(cell_triangles(&below, &[false; 6]), vec![[0u8, 8, 3]]);
    assert!(cell_triangles(&[false; 8], &[false; 6]).is_empty());
    assert!(cell_triangles(&[true; 8], &[true; 6]).is_empty());
    assert_eq!(count_corners(0b1010_0101), 4);
}

#[test]
fn ambiguous_face_counting() {
    assert_eq!(count_amb_faces_from_case(0b0000_0101), 1);
    assert_eq!(count_amb_faces_from_case(0), 0);
    assert_eq!(count_amb_faces_from_case(0b0000_0001), 0);
    let below = [true, false, true, false, false, false, false, false];
    assert!(face_alternating(&below, 0));
    assert!(!face_alternating(&below, 1));
}

#[test]
fn mc33_rows_without_ambiguity_are_the_plain_table() {
    for c in 0..=255u8 {
        assert_eq!(mc33_tris(c, 0, 0), tri_table_row_exec(c));
    }
    let alt = mc33_tris(0b0000_0101, 1, 1);
    assert_eq!(&alt[0..6], &[3, 7, 8, 2, 3, 11]);
    assert_eq!(row_triangles_exec(&alt), vec![[3u8, 7, 8], [2, 3, 11]]);
}

#[test]
fn subcase_bits_follow_face_centres() {
    let below = [true, false, true, false, false, false, false, false];
    assert_eq!(compute_mc33_subcase(&below, &[true, false, false, false, false, false]), 0);
    assert_eq!(compute_mc33_subcase(&below, &[false, false, false, false, false, false]), 1);
}

#[test]
fn grid_corner_positions() {
    let r = cell_corner_indices(0, 0, 0, 2, 2, 2);
    assert_eq!(r, [0, 9, 12, 3, 1, 10, 13, 4]);
    assert_eq!(sample_index(2, 2, 2, 2, 2, 2), 26);
    let s = cell_corner_indices(1, 1, 1, 2, 2, 2);
    assert_eq!(s[6], 26);
}

#[test]
fn marching_squares_cases() {
    assert_eq!(square_case(true, false, false, false), 1);
    assert_eq!(square_case(true, true, true, true), 15);
    assert_eq!(square_case(false, true, false, true), 10);
    assert_eq!(square_segments(1), vec![(SquareSide::Left, SquareSide::Bottom)]);
    assert_eq!(square_segments(5).len(), 2);
    assert!(square_segments(0).is_empty());
    assert!(square_segments(15).is_empty());
    for c in 0..16u8 {
        let a = square_segments(c);
        let b = square_segments(15 - c);
        assert_eq!(a.len(), b.len());
        for (x, y) in a.iter().zip(b.iter()) {
            assert!(x == y || (x.0 == y.1 && x.1 == y.0));
        }
    }
}

#[test]
fn box_faces_lock_and_free_axes() {
    assert_eq!(Face::Ym.lock(), (1, -1));
    assert_eq!(Face::Ym.free_axes(), (0, 2));
    assert_eq!(Face::Xp.free_axes(), (1, 2));
    assert_eq!(Face::Zp.free_axes(), (0, 1));
    assert_eq!(Face::from_lock(1, false), Some(Face::Ym));
    assert_eq!(Face::from_lock(3, true), None);
    for f in Face::all() {
        let (ax, sign) = f.lock();
        assert_eq!(Face::from_lock(ax, sign > 0), Some(f));
        let (u, v) = f.free_axes();
        assert!(u != ax && v != ax && u < v);
    }
}

#[test]
fn index_patterns() {
    assert_eq!(segment_indices(2), vec![0, 1, 0, 2, 3, 2]);
    assert_eq!(quad_indices(1, false), vec![0, 2, 1, 0, 3, 2]);
    assert_eq!(quad_indices(2, true), vec![0, 1, 2, 1, 3, 2, 4, 5, 6, 5, 7, 6]);
    assert!(segment_indices(0).is_empty());
    let s = SubMesh::covering(12);
    assert_eq!(s, SubMesh { material_index: 0, index_offset: 0, index_count: 12 });
}
