//! Marching Cubes 33: the discrete part of cell polygonisation.
//!
//! A grid cell is described by which of its 8 corners lie below the iso
//! level (field value < 0).  From that sign pattern this module decides the
//! case index, detects ambiguous faces, resolves them from the signs sampled
//! at face centres (asymptotic decider), and selects the triangles as triples
//! of cell-edge numbers.  Interpolating the edge points is left to the caller.
use vstd::prelude::*;
use crate::mc_tables::{
    tri_table_row, tri_table_row_exec, EDGE_TABLE, FACE_VERTICES, MC33_CASE12_ALT, MC33_CASE3_ALT,
    MC33_CASE6_ALT, MC33_CASE6_ALT2, MC33_CASE6_ALT3, MC33_CASE7_B, MC33_CASE7_C, MC33_CASE7_D,
    MC33_CASE7_E, MC33_CASE7_F, MC33_CASE7_G, MC33_CASE7_H,
};

verus! {

/// Whether corner `i` is below the iso level in case `c` (bit `i` of `c`).
pub open spec fn corner_bit(c: u8, i: int) -> bool {
    ((c >> (i as u8)) & 1u8) == 1u8
}

/// A cube face is ambiguous when its diagonal corners agree in sign and
/// adjacent corners differ (the saddle configuration).
pub open spec fn face_is_ambiguous(c: u8, f: int) -> bool {
    let fv = FACE_VERTICES[f];
    &&& corner_bit(c, fv[0] as int) == corner_bit(c, fv[2] as int)
    &&& corner_bit(c, fv[1] as int) == corner_bit(c, fv[3] as int)
    &&& corner_bit(c, fv[0] as int) != corner_bit(c, fv[1] as int)
}

/// Number of ambiguous faces among faces `0..n`.
pub open spec fn ambiguous_faces_below(c: u8, n: int) -> int
    decreases n,
{
    if n <= 0 {
        0
    } else {
        ambiguous_faces_below(c, n - 1) + (if face_is_ambiguous(c, n - 1) { 1int } else { 0 })
    }
}

/// Number of ambiguous faces of a sign case.
pub open spec fn ambiguous_face_count(c: u8) -> int {
    ambiguous_faces_below(c, 6)
}

/// Number of corners below the iso level among corners `0..n`.
pub open spec fn ones_below(c: u8, n: int) -> int
    decreases n,
{
    if n <= 0 {
        0
    } else {
        ones_below(c, n - 1) + (if corner_bit(c, n - 1) { 1int } else { 0 })
    }
}

/// Number of corners below the iso level.
pub open spec fn corner_count(c: u8) -> int {
    ones_below(c, 8)
}

/// The triangulation row chosen for case `c`, subcase bits `s` and `amb`
/// ambiguous faces: the standard row when nothing is ambiguous, otherwise
/// the MC33 alternative picked by the corner count and the subcase bits.
pub open spec fn mc33_row(c: u8, s: u8, amb: u8) -> [i8; 16] {
    let n = corner_count(c);
    if amb == 0 {
        tri_table_row(c)
    } else if n == 2 && s & 1 != 0 {
        MC33_CASE3_ALT
    } else if n == 3 && amb >= 2 {
        if s & 3 == 1 {
            MC33_CASE6_ALT
        } else if s & 3 == 2 {
            MC33_CASE6_ALT2
        } else if s & 3 == 3 {
            MC33_CASE6_ALT3
        } else {
            tri_table_row(c)
        }
    } else if n == 4 {
        if s & 7 == 1 {
            MC33_CASE7_B
        } else if s & 7 == 2 {
            MC33_CASE7_C
        } else if s & 7 == 3 {
            MC33_CASE7_D
        } else if s & 7 == 4 {
            MC33_CASE7_E
        } else if s & 7 == 5 {
            MC33_CASE7_F
        } else if s & 7 == 6 {
            MC33_CASE7_G
        } else if s & 7 == 7 {
            MC33_CASE7_H
        } else {
            tri_table_row(c)
        }
    } else if n == 5 && amb >= 2 {
        if s & 3 == 1 {
            MC33_CASE6_ALT
        } else if s & 3 == 2 {
            MC33_CASE6_ALT2
        } else if s & 3 == 3 {
            MC33_CASE6_ALT3
        } else {
            tri_table_row(c)
        }
    } else if n == 6 && s & 1 != 0 {
        MC33_CASE12_ALT
    } else {
        tri_table_row(c)
    }
}

fn bit_of(c: u8, i: u8) -> (r: u8)
    requires
        i < 8,
    ensures
        r == (c >> i) & 1u8,
        r <= 1,
        (r == 1) == corner_bit(c, i as int),
{
    let r = (c >> i) & 1u8;
    assert(((c >> i) & 1u8) <= 1) by (bit_vector);
    r
}

/// Number of ambiguous faces of a sign case.
pub fn count_amb_faces_from_case(case_idx: u8) -> (r: u8)
    ensures
        r as int == ambiguous_face_count(case_idx),
        r <= 6,
{
    let b0 = bit_of(case_idx, 0);
    let b1 = bit_of(case_idx, 1);
    let b2 = bit_of(case_idx, 2);
    let b3 = bit_of(case_idx, 3);
    let b4 = bit_of(case_idx, 4);
    let b5 = bit_of(case_idx, 5);
    let b6 = bit_of(case_idx, 6);
    let b7 = bit_of(case_idx, 7);
    let mut c: u8 = 0;
    if b0 == b2 && b1 == b3 && b0 != b1 {
        c += 1;
    }
    if b4 == b6 && b5 == b7 && b4 != b5 {
        c += 1;
    }
    if b0 == b5 && b1 == b4 && b0 != b1 {
        c += 1;
    }
    if b2 == b7 && b3 == b6 && b2 != b3 {
        c += 1;
    }
    if b0 == b7 && b3 == b4 && b0 != b3 {
        c += 1;
    }
    if b1 == b6 && b2 == b5 && b1 != b2 {
        c += 1;
    }
    proof {
        reveal_with_fuel(ambiguous_faces_below, 7);
    }
    c
}

/// Number of corners below the iso level (set bits of the case index).
pub fn count_corners(case_idx: u8) -> (r: u32)
    ensures
        r as int == corner_count(case_idx),
        r <= 8,
{
    let mut n: u32 = 0;
    let mut i: u8 = 0;
    while i < 8
        invariant
            i <= 8,
            n as int == ones_below(case_idx, i as int),
            n <= i,
        decreases 8 - i,
    {
        if bit_of(case_idx, i) == 1 {
            n += 1;
        }
        i += 1;
    }
    n
}

/// The MC33 triangulation row for a case, its subcase bits and its number
/// of ambiguous faces.
pub fn mc33_tris(case_idx: u8, subcase: u8, amb_faces: u8) -> (r: [i8; 16])
    ensures
        r == mc33_row(case_idx, subcase, amb_faces),
{
    if amb_faces == 0 {
        return tri_table_row_exec(case_idx);
    }
    let s = subcase;
    let n = count_corners(case_idx);
    if n == 2 && s & 1 != 0 {
        MC33_CASE3_ALT
    } else if n == 3 && amb_faces >= 2 {
        if s & 3 == 1 {
            MC33_CASE6_ALT
        } else if s & 3 == 2 {
            MC33_CASE6_ALT2
        } else if s & 3 == 3 {
            MC33_CASE6_ALT3
        } else {
            tri_table_row_exec(case_idx)
        }
    } else if n == 4 {
        if s & 7 == 1 {
            MC33_CASE7_B
        } else if s & 7 == 2 {
            MC33_CASE7_C
        } else if s & 7 == 3 {
            MC33_CASE7_D
        } else if s & 7 == 4 {
            MC33_CASE7_E
        } else if s & 7 == 5 {
            MC33_CASE7_F
        } else if s & 7 == 6 {
            MC33_CASE7_G
        } else if s & 7 == 7 {
            MC33_CASE7_H
        } else {
            tri_table_row_exec(case_idx)
        }
    } else if n == 5 && amb_faces >= 2 {
        if s & 3 == 1 {
            MC33_CASE6_ALT
        } else if s & 3 == 2 {
            MC33_CASE6_ALT2
        } else if s & 3 == 3 {
            MC33_CASE6_ALT3
        } else {
            tri_table_row_exec(case_idx)
        }
    } else if n == 6 && s & 1 != 0 {
        MC33_CASE12_ALT
    } else {
        tri_table_row_exec(case_idx)
    }
}

/// Corners `fv[0], fv[2]` agree, corners `fv[1], fv[3]` agree, and the two
/// pairs differ: the face of the given corner signs is a saddle.
pub open spec fn face_alternating_spec(below: Seq<bool>, f: int) -> bool {
    let fv = FACE_VERTICES[f];
    &&& below[fv[0] as int] == below[fv[2] as int]
    &&& below[fv[1] as int] == below[fv[3] as int]
    &&& below[fv[0] as int] != below[fv[1] as int]
}

/// The bits of the MC33 subcase, accumulated face by face: each ambiguous
/// face (in face order, up to `max_bits` of them) contributes one bit, set
/// when the face centre lies on the other side of the iso level than the
/// face's first corner.
pub open spec fn subcase_bits(
    below: Seq<bool>,
    center_below: Seq<bool>,
    f: int,
    bi: int,
    max_bits: int,
    acc: u8,
) -> u8
    decreases 6 - f,
{
    if f >= 6 || bi >= max_bits {
        acc
    } else if face_alternating_spec(below, f) {
        let fv0 = FACE_VERTICES[f][0] as int;
        let acc2 = if below[fv0] != center_below[f] {
            acc | (1u8 << (bi as u8))
        } else {
            acc
        };
        subcase_bits(below, center_below, f + 1, bi + 1, max_bits, acc2)
    } else {
        subcase_bits(below, center_below, f + 1, bi, max_bits, acc)
    }
}

/// Number of `true` entries among the first `n` of `s`.
pub open spec fn count_true(s: Seq<bool>, n: int) -> int
    decreases n,
{
    if n <= 0 {
        0
    } else {
        count_true(s, n - 1) + (if s[n - 1] { 1int } else { 0 })
    }
}

/// How many ambiguous faces the asymptotic decider may resolve, by the
/// number of corners below the iso level.
pub open spec fn max_subcase_bits(neg: int) -> int {
    if neg == 2 || neg == 6 {
        1
    } else if neg == 3 || neg == 5 {
        2
    } else if neg == 4 {
        3
    } else {
        0
    }
}

/// The MC33 subcase of a cell with the given corner signs and face-centre
/// signs.
pub open spec fn mc33_subcase_spec(below: Seq<bool>, center_below: Seq<bool>) -> u8 {
    subcase_bits(below, center_below, 0, 0, max_subcase_bits(count_true(below, 8)), 0)
}

/// The triangles encoded in a table row: consecutive triples from triangle
/// `t` on, up to the first triple holding a negative entry.
pub open spec fn row_triangles(row: [i8; 16], t: int) -> Seq<[u8; 3]>
    decreases 5 - t,
{
    if t < 0 || t >= 5 || row[3 * t] < 0 || row[3 * t + 1] < 0 || row[3 * t + 2] < 0 {
        Seq::empty()
    } else {
        seq![[row[3 * t] as u8, row[3 * t + 1] as u8, row[3 * t + 2] as u8]] + row_triangles(
            row,
            t + 1,
        )
    }
}

/// The case index of a sign pattern, built corner by corner: bit `i` is
/// set when corner `i` is below the iso level.
pub open spec fn case_bits(below: Seq<bool>, n: int) -> u8
    decreases n,
{
    if n <= 0 {
        0u8
    } else if below[n - 1] {
        case_bits(below, n - 1) | (1u8 << ((n - 1) as u8))
    } else {
        case_bits(below, n - 1)
    }
}

/// The case index of a cell's sign pattern.
pub open spec fn cell_case_spec(below: Seq<bool>) -> u8 {
    case_bits(below, 8)
}

/// The case index whose bit `i` is set exactly when corner `i` is below.
pub open spec fn is_case_of(c: u8, below: Seq<bool>) -> bool {
    forall|i: int| 0 <= i < 8 ==> corner_bit(c, i) == below[i]
}

/// The triangles (as edge-number triples) that MC33 emits for a cell.
pub open spec fn cell_triangles_spec(c: u8, below: Seq<bool>, center_below: Seq<bool>) -> Seq<
    [u8; 3],
> {
    if c == 0 || c == 255 || EDGE_TABLE[c as int] == 0 {
        Seq::empty()
    } else if ambiguous_face_count(c) == 0 {
        row_triangles(tri_table_row(c), 0)
    } else {
        row_triangles(
            mc33_row(c, mc33_subcase_spec(below, center_below), ambiguous_face_count(c) as u8),
            0,
        )
    }
}

proof fn lemma_or_bit(c: u8, i: u8, j: u8)
    requires
        i < 8,
        j < 8,
    ensures
        ((c | (1u8 << i)) >> j) & 1u8 == (if j == i {
            1u8
        } else {
            (c >> j) & 1u8
        }),
{
    assert(((c | (1u8 << i)) >> j) & 1u8 == (if j == i {
        1u8
    } else {
        (c >> j) & 1u8
    })) by (bit_vector)
        requires
            i < 8,
            j < 8,
    ;
}

/// Whether the face `fi` of a cell with the given corner signs is a saddle.
pub fn face_alternating(below: &[bool; 8], fi: usize) -> (r: bool)
    requires
        fi < 6,
    ensures
        r == face_alternating_spec(below@, fi as int),
{
    let fv = FACE_VERTICES[fi];
    let s0 = !below[fv[0]];
    let s1 = !below[fv[1]];
    let s2 = !below[fv[2]];
    let s3 = !below[fv[3]];
    s0 == s2 && s1 == s3 && s0 != s1
}

/// The sign-case index of a cell: bit `i` set when corner `i` is below the
/// iso level.
pub fn cell_case_index(below: &[bool; 8]) -> (r: u8)
    ensures
        r == cell_case_spec(below@),
        is_case_of(r, below@),
{
    let mut c: u8 = 0;
    let mut i: u8 = 0;
    assert(forall|j: u8| j < 8 ==> (0u8 >> j) & 1u8 == 0u8) by (bit_vector);
    while i < 8
        invariant
            i <= 8,
            c == case_bits(below@, i as int),
            forall|j: int| 0 <= j < i ==> corner_bit(c, j) == below@[j],
            forall|j: int| i <= j < 8 ==> !corner_bit(c, j),
        decreases 8 - i,
    {
        let ghost old_c = c;
        if below[i as usize] {
            c = c | (1u8 << i);
            proof {
                assert forall|j: int| 0 <= j < 8 implies corner_bit(c, j) == (if j == i {
                    true
                } else {
                    corner_bit(old_c, j)
                }) by {
                    lemma_or_bit(old_c, i, j as u8);
                }
            }
        }
        i += 1;
    }
    c
}

/// MC33 asymptotic decider: one bit per resolved ambiguous face.
/// `center_below[f]` tells whether the field at the centre of face `f` is
/// below the iso level; it is read only for ambiguous faces.
pub fn compute_mc33_subcase(below: &[bool; 8], center_below: &[bool; 6]) -> (r: u8)
    ensures
        r == mc33_subcase_spec(below@, center_below@),
{
    let mut neg: u32 = 0;
    let mut k: usize = 0;
    while k < 8
        invariant
            k <= 8,
            neg as int == count_true(below@, k as int),
            neg <= k,
        decreases 8 - k,
    {
        if below[k] {
            neg += 1;
        }
        k += 1;
    }
    let max_bits: u8 = if neg == 2 || neg == 6 {
        1
    } else if neg == 3 || neg == 5 {
        2
    } else if neg == 4 {
        3
    } else {
        0
    };
    let mut bits: u8 = 0;
    let mut bi: u8 = 0;
    let mut fi: usize = 0;
    while fi < 6
        invariant
            fi <= 6,
            bi <= fi,
            bi <= max_bits <= 3,
            max_bits as int == max_subcase_bits(count_true(below@, 8)),
            subcase_bits(below@, center_below@, fi as int, bi as int, max_bits as int, bits)
                == mc33_subcase_spec(below@, center_below@),
        ensures
            fi >= 6 || bi >= max_bits,
            subcase_bits(below@, center_below@, fi as int, bi as int, max_bits as int, bits)
                == mc33_subcase_spec(below@, center_below@),
        decreases 6 - fi,
    {
        if bi >= max_bits {
            break;
        }
        if face_alternating(below, fi) {
            let fv = FACE_VERTICES[fi];
            if below[fv[0]] != center_below[fi] {
                bits = bits | (1u8 << bi);
            }
            bi += 1;
        }
        fi += 1;
    }
    assert(subcase_bits(below@, center_below@, fi as int, bi as int, max_bits as int, bits)
        == bits);
    bits
}

/// Read the triangles of a table row: triples of edge numbers up to the
/// first negative entry.
pub fn row_triangles_exec(row: &[i8; 16]) -> (r: Vec<[u8; 3]>)
    ensures
        r@ == row_triangles(*row, 0),
{
    let mut out: Vec<[u8; 3]> = Vec::new();
    let mut t: usize = 0;
    while t < 5
        invariant
            t <= 5,
            out@ + row_triangles(*row, t as int) == row_triangles(*row, 0),
        decreases 5 - t,
    {
        let a = row[3 * t];
        let b = row[3 * t + 1];
        let c = row[3 * t + 2];
        if a < 0 || b < 0 || c < 0 {
            assert(row_triangles(*row, t as int) =~= Seq::empty());
            assert(out@ =~= out@ + Seq::<[u8; 3]>::empty());
            return out;
        }
        let tri: [u8; 3] = [a as u8, b as u8, c as u8];
        let ghost old_out = out@;
        out.push(tri);
        proof {
            assert(tri == [row[3 * t as int] as u8, row[3 * t + 1] as u8, row[3 * t + 2] as u8]);
            assert(old_out + row_triangles(*row, t as int) =~= out@ + row_triangles(
                *row,
                t + 1,
            ));
        }
        t += 1;
    }
    assert(out@ + row_triangles(*row, 5) =~= out@);
    out
}

/// The triangles that MC33 emits for one grid cell, as triples of cell-edge
/// numbers.  `below[i]` tells whether corner `i` is below the iso level;
/// `center_below[f]` whether the centre of face `f` is (used only for
/// ambiguous faces).  A cell whose corners all lie on one side emits none.
pub fn cell_triangles(below: &[bool; 8], center_below: &[bool; 6]) -> (r: Vec<[u8; 3]>)
    ensures
        r@ == cell_triangles_spec(cell_case_spec(below@), below@, center_below@),
        (forall|i: int| 0 <= i < 8 ==> #[trigger] below@[i] == below@[0]) ==> r@.len() == 0,
{
    let c = cell_case_index(below);
    proof {
        if forall|i: int| 0 <= i < 8 ==> #[trigger] below@[i] == below@[0] {
            lemma_uniform_case(c, below@);
        }
    }
    if c == 0 || c == 255 || EDGE_TABLE[c as usize] == 0 {
        return Vec::new();
    }
    let amb = count_amb_faces_from_case(c);
    let row = if amb == 0 {
        tri_table_row_exec(c)
    } else {
        let sub = compute_mc33_subcase(below, center_below);
        mc33_tris(c, sub, amb)
    };
    row_triangles_exec(&row)
}

proof fn lemma_bits_determine(a: u8, b: u8)
    requires
        forall|i: int| 0 <= i < 8 ==> corner_bit(a, i) == corner_bit(b, i),
    ensures
        a == b,
{
    assert(corner_bit(a, 0) == corner_bit(b, 0));
    assert(corner_bit(a, 1) == corner_bit(b, 1));
    assert(corner_bit(a, 2) == corner_bit(b, 2));
    assert(corner_bit(a, 3) == corner_bit(b, 3));
    assert(corner_bit(a, 4) == corner_bit(b, 4));
    assert(corner_bit(a, 5) == corner_bit(b, 5));
    assert(corner_bit(a, 6) == corner_bit(b, 6));
    assert(corner_bit(a, 7) == corner_bit(b, 7));
    assert(a == b) by (bit_vector)
        requires
            ((a >> 0u8) & 1u8 == 1u8) == ((b >> 0u8) & 1u8 == 1u8),
            ((a >> 1u8) & 1u8 == 1u8) == ((b >> 1u8) & 1u8 == 1u8),
            ((a >> 2u8) & 1u8 == 1u8) == ((b >> 2u8) & 1u8 == 1u8),
            ((a >> 3u8) & 1u8 == 1u8) == ((b >> 3u8) & 1u8 == 1u8),
            ((a >> 4u8) & 1u8 == 1u8) == ((b >> 4u8) & 1u8 == 1u8),
            ((a >> 5u8) & 1u8 == 1u8) == ((b >> 5u8) & 1u8 == 1u8),
            ((a >> 6u8) & 1u8 == 1u8) == ((b >> 6u8) & 1u8 == 1u8),
            ((a >> 7u8) & 1u8 == 1u8) == ((b >> 7u8) & 1u8 == 1u8),
    ;
}

proof fn lemma_uniform_case(c: u8, below: Seq<bool>)
    requires
        is_case_of(c, below),
        forall|i: int| 0 <= i < 8 ==> #[trigger] below[i] == below[0],
    ensures
        below[0] ==> c == 255,
        !below[0] ==> c == 0,
{
    assert(forall|i: u8| i < 8 ==> ((255u8 >> i) & 1u8 == 1u8)) by (bit_vector);
    assert(forall|i: u8| i < 8 ==> ((0u8 >> i) & 1u8 == 0u8)) by (bit_vector);
    if below[0] {
        assert forall|i: int| 0 <= i < 8 implies corner_bit(c, i) == corner_bit(255u8, i) by {
            assert(below[i] == below[0]);
        }
        lemma_bits_determine(c, 255u8);
    } else {
        assert forall|i: int| 0 <= i < 8 implies corner_bit(c, i) == corner_bit(0u8, i) by {
            assert(below[i] == below[0]);
        }
        lemma_bits_determine(c, 0u8);
    }
}

/// The case index built from a sign pattern has exactly the pattern's bits.
pub proof fn lemma_case_bits(below: Seq<bool>, n: int)
    requires
        0 <= n <= 8,
    ensures
        forall|j: int| 0 <= j < n ==> corner_bit(case_bits(below, n), j) == below[j],
        forall|j: int| n <= j < 8 ==> !corner_bit(case_bits(below, n), j),
    decreases n,
{
    if n == 0 {
        assert(forall|j: u8| j < 8 ==> (0u8 >> j) & 1u8 == 0u8) by (bit_vector);
    } else {
        lemma_case_bits(below, n - 1);
        let prev = case_bits(below, n - 1);
        if below[n - 1] {
            assert forall|j: int| 0 <= j < 8 implies corner_bit(case_bits(below, n), j) == (if j
                == n - 1 {
                true
            } else {
                corner_bit(prev, j)
            }) by {
                lemma_or_bit(prev, (n - 1) as u8, j as u8);
            }
        }
    }
}

/// The first saddle face among faces `f..6` of a sign pattern (6 when
/// there is none).
pub open spec fn first_saddle_face(below: Seq<bool>, f: int) -> int
    decreases 6 - f,
{
    if f >= 6 {
        6
    } else if face_alternating_spec(below, f) {
        f
    } else {
        first_saddle_face(below, f + 1)
    }
}

proof fn lemma_first_saddle_face(below: Seq<bool>, f: int)
    requires
        0 <= f <= 6,
    ensures
        f <= first_saddle_face(below, f) <= 6,
        first_saddle_face(below, f) < 6 ==> face_alternating_spec(
            below,
            first_saddle_face(below, f),
        ),
        first_saddle_face(below, f) == 6 ==> alternating_faces_below(below, 6)
            == alternating_faces_below(below, f),
    decreases 6 - f,
{
    if f < 6 {
        lemma_first_saddle_face(below, f + 1);
    }
}

/// With one subcase bit to fill, the decider sets it exactly when the
/// centre of the first saddle face lies on the other side of the level
/// than that face's first corner.
proof fn lemma_first_subcase_bit(below: Seq<bool>, center_below: Seq<bool>, f: int)
    requires
        0 <= f <= 6,
    ensures
        subcase_bits(below, center_below, f, 0, 1, 0) == (if first_saddle_face(below, f) < 6
            && below[FACE_VERTICES[first_saddle_face(below, f)][0] as int]
            != center_below[first_saddle_face(below, f)] {
            1u8
        } else {
            0u8
        }),
    decreases 6 - f,
{
    assert((0u8 | (1u8 << 0u8)) == 1u8) by (bit_vector);
    if f < 6 {
        if face_alternating_spec(below, f) {
            let fv0 = FACE_VERTICES[f][0] as int;
            let acc2 = if below[fv0] != center_below[f] {
                0u8 | (1u8 << (0int as u8))
            } else {
                0u8
            };
            assert(subcase_bits(below, center_below, f, 0, 1, 0) == subcase_bits(
                below,
                center_below,
                f + 1,
                1,
                1,
                acc2,
            ));
            assert(subcase_bits(below, center_below, f + 1, 1, 1, acc2) == acc2);
            assert(first_saddle_face(below, f) == f);
        } else {
            lemma_first_subcase_bit(below, center_below, f + 1);
        }
    }
}

/// The number of corners read off the case index is the number of corners
/// below the level.
proof fn lemma_corner_count_of_case(below: Seq<bool>)
    requires
        below.len() == 8,
    ensures
        corner_count(cell_case_spec(below)) == count_true(below, 8),
{
    lemma_case_bits(below, 8);
    let c = cell_case_spec(below);
    assert(corner_bit(c, 0) == below[0]);
    assert(corner_bit(c, 1) == below[1]);
    assert(corner_bit(c, 2) == below[2]);
    assert(corner_bit(c, 3) == below[3]);
    assert(corner_bit(c, 4) == below[4]);
    assert(corner_bit(c, 5) == below[5]);
    assert(corner_bit(c, 6) == below[6]);
    assert(corner_bit(c, 7) == below[7]);
    reveal_with_fuel(ones_below, 9);
    reveal_with_fuel(count_true, 9);
}

/// A cell with an ambiguous face is triangulated by MC33: its triangles
/// are those of the MC33 row picked by the corner count and the subcase
/// that the face-centre decider computes, never the plain table row
/// chosen without looking at the face centres.
pub proof fn lemma_ambiguous_cells_use_decider(below: Seq<bool>, center_below: Seq<bool>)
    requires
        below.len() == 8,
        center_below.len() == 6,
    ensures
        ({
            let c = cell_case_spec(below);
            c != 0 && c != 255 && EDGE_TABLE[c as int] != 0 && ambiguous_face_count(c) >= 1
                ==> cell_triangles_spec(c, below, center_below) == row_triangles(
                mc33_row(c, mc33_subcase_spec(below, center_below), ambiguous_face_count(c) as u8),
                0,
            )
        }),
{
}

/// A cell with two corners below the level and a saddle face (a case-3
/// configuration) is resolved by the asymptotic decider at its first
/// saddle face: when that face's centre lies on the other side of the level
/// than the face's first corner, the two corners are joined by the MC33
/// alternative triangulation; otherwise they stay separated as in the plain
/// table.
pub proof fn lemma_two_corner_saddle_resolution(below: Seq<bool>, center_below: Seq<bool>)
    requires
        below.len() == 8,
        center_below.len() == 6,
        count_true(below, 8) == 2,
        first_saddle_face(below, 0) < 6,
        EDGE_TABLE[cell_case_spec(below) as int] != 0,
    ensures
        ({
            let c = cell_case_spec(below);
            let g = first_saddle_face(below, 0);
            cell_triangles_spec(c, below, center_below) == row_triangles(
                if below[FACE_VERTICES[g][0] as int] != center_below[g] {
                    MC33_CASE3_ALT
                } else {
                    tri_table_row(c)
                },
                0,
            )
        }),
{
    let c = cell_case_spec(below);
    let g = first_saddle_face(below, 0);
    lemma_case_bits(below, 8);
    lemma_corner_count_of_case(below);
    lemma_first_saddle_face(below, 0);
    lemma_first_subcase_bit(below, center_below, 0);
    lemma_ambiguity_counts_saddle_faces(below);
    reveal_with_fuel(alternating_faces_below, 7);
    reveal_with_fuel(ambiguous_faces_below, 7);
    assert(alternating_faces_below(below, 6) >= 1) by {
        assert(alternating_faces_below(below, 0) == 0);
    }
    assert(1 <= ambiguous_face_count(c) <= 6);
    assert(max_subcase_bits(count_true(below, 8)) == 1);
    let s = mc33_subcase_spec(below, center_below);
    assert(s == 0u8 || s == 1u8);
    assert((1u8 & 1u8) != 0u8 && (0u8 & 1u8) == 0u8) by (bit_vector);
    assert(forall|i: u8| i < 8 ==> ((0u8 >> i) & 1u8) != 1u8 && ((255u8 >> i) & 1u8) == 1u8)
        by (bit_vector);
    reveal_with_fuel(count_true, 9);
    if c == 0 {
        assert forall|i: int| 0 <= i < 8 implies !below[i] by {
            assert(corner_bit(c, i) == below[i]);
            assert((i as u8) < 8);
        }
    }
    if c == 255 {
        assert forall|i: int| 0 <= i < 8 implies below[i] by {
            assert(corner_bit(c, i) == below[i]);
            assert((i as u8) < 8);
        }
    }
    assert((ambiguous_face_count(c) as u8) != 0u8);
}

/// Number of saddle faces among faces `0..n` of a sign pattern.
pub open spec fn alternating_faces_below(below: Seq<bool>, n: int) -> int
    decreases n,
{
    if n <= 0 {
        0
    } else {
        alternating_faces_below(below, n - 1) + (if face_alternating_spec(below, n - 1) {
            1int
        } else {
            0
        })
    }
}

/// The ambiguity count read off the case index equals the number of saddle
/// faces of the cell's sign pattern.
pub proof fn lemma_ambiguity_counts_saddle_faces(below: Seq<bool>)
    requires
        below.len() == 8,
    ensures
        ambiguous_face_count(cell_case_spec(below)) == alternating_faces_below(below, 6),
{
    lemma_case_bits(below, 8);
    reveal_with_fuel(ambiguous_faces_below, 7);
    reveal_with_fuel(alternating_faces_below, 7);
}

/// Swapping inside and outside (complementing every corner sign) leaves the
/// number of ambiguous faces unchanged.
pub proof fn lemma_ambiguity_complement(c: u8)
    ensures
        ambiguous_face_count(!c) == ambiguous_face_count(c),
{
    assert(forall|i: u8| i < 8 ==> (((!c) >> i) & 1u8 == 1u8) == !((c >> i) & 1u8 == 1u8))
        by (bit_vector);
    assert forall|i: int| 0 <= i < 8 implies corner_bit(!c, i) == !corner_bit(c, i) by {
        assert((i as u8) < 8);
    }
    reveal_with_fuel(ambiguous_faces_below, 7);
}

} // verus!
