//! Marching squares on the six faces of the box `[-1, 1]^3`.
//!
//! A face of the box fixes one coordinate to `+1` or `-1` and leaves the
//! other two free.  Each grid square of a face is classified by which of
//! its four corners lie below the iso-level; the classification picks the
//! sides of the square that the contour segments join.  Where exactly a
//! segment meets a side is interpolation in floating point, done by the
//! caller.
use vstd::prelude::*;

verus! {

/// One of the six faces of the box `[-1, 1]^3`.
#[derive(Clone, Copy, Debug, PartialEq, Eq, Hash, Structural)]
pub enum Face {
    Xp,
    Xm,
    Yp,
    Ym,
    Zp,
    Zm,
}

/// A side of a grid square.  `Top` is the side at the lower `v`, `Bottom`
/// the side at the higher `v`; `Left` at the lower `u`, `Right` at the
/// higher `u`.
#[derive(Clone, Copy, Debug, PartialEq, Eq, Hash, Structural)]
pub enum SquareSide {
    Top,
    Bottom,
    Left,
    Right,
}

/// The six faces, in the order in which boundary loops are traced.
pub open spec fn spec_all_faces() -> Seq<Face> {
    seq![Face::Xp, Face::Xm, Face::Yp, Face::Ym, Face::Zp, Face::Zm]
}

/// Axis held fixed on a face and whether it is fixed at `+1`.
pub open spec fn spec_lock(f: Face) -> (usize, i8) {
    match f {
        Face::Xp => (0, 1i8),
        Face::Xm => (0, -1i8),
        Face::Yp => (1, 1i8),
        Face::Ym => (1, -1i8),
        Face::Zp => (2, 1i8),
        Face::Zm => (2, -1i8),
    }
}

/// The two axes that vary over a face, in increasing order.
pub open spec fn spec_free_axes(f: Face) -> (usize, usize) {
    match f {
        Face::Xp | Face::Xm => (1, 2),
        Face::Yp | Face::Ym => (0, 2),
        Face::Zp | Face::Zm => (0, 1),
    }
}

impl Face {
    /// All six faces.
    pub fn all() -> (faces: Vec<Face>)
        ensures
            faces@ == spec_all_faces(),
    {
        vec![Face::Xp, Face::Xm, Face::Yp, Face::Ym, Face::Zp, Face::Zm]
    }

    /// The axis this face holds fixed, and the sign (`1` or `-1`) of the
    /// coordinate it fixes.
    pub fn lock(self) -> (r: (usize, i8))
        ensures
            r == spec_lock(self),
    {
        match self {
            Face::Xp => (0, 1),
            Face::Xm => (0, -1),
            Face::Yp => (1, 1),
            Face::Ym => (1, -1),
            Face::Zp => (2, 1),
            Face::Zm => (2, -1),
        }
    }

    /// The two axes that vary over this face (`u` first, then `v`).
    pub fn free_axes(self) -> (r: (usize, usize))
        ensures
            r == spec_free_axes(self),
    {
        match self {
            Face::Xp | Face::Xm => (1, 2),
            Face::Yp | Face::Ym => (0, 2),
            Face::Zp | Face::Zm => (0, 1),
        }
    }

    /// The face that fixes axis `axis` at `+1` (when `positive`) or `-1`.
    pub fn from_lock(axis: usize, positive: bool) -> (r: Option<Face>)
        ensures
            axis < 3 ==> r.is_some() && spec_lock(r.unwrap()) == (axis, if positive {
                1i8
            } else {
                -1i8
            }),
            axis >= 3 ==> r.is_none(),
    {
        match (axis, positive) {
            (0, true) => Some(Face::Xp),
            (0, false) => Some(Face::Xm),
            (1, true) => Some(Face::Yp),
            (1, false) => Some(Face::Ym),
            (2, true) => Some(Face::Zp),
            (2, false) => Some(Face::Zm),
            _ => None,
        }
    }
}

/// The fixed axis and the two free axes of every face are the three axes,
/// each once; the fixed coordinate is `1` or `-1`; and a face is recovered
/// from what it fixes.
pub proof fn lemma_face_axes(f: Face)
    ensures
        ({
            let (ax, sign) = spec_lock(f);
            let (ua, va) = spec_free_axes(f);
            &&& ax < 3 && ua < va < 3
            &&& ax != ua && ax != va
            &&& (sign == 1i8 || sign == -1i8)
        }),
        forall|g: Face| spec_lock(g) == spec_lock(f) ==> g == f,
{
}

/// Case index of a grid square: bit 0 for the corner at (low u, low v),
/// bit 1 at (high u, low v), bit 2 at (high u, high v), bit 3 at
/// (low u, high v); a bit is set when that corner lies below the level.
pub open spec fn spec_square_case(tl: bool, tr: bool, br: bool, bl: bool) -> u8 {
    ((if tl { 1int } else { 0 }) + (if tr { 2int } else { 0 }) + (if br { 4int } else { 0 }) + (
    if bl {
        8int
    } else {
        0
    })) as u8
}

pub fn square_case(tl: bool, tr: bool, br: bool, bl: bool) -> (c: u8)
    ensures
        c == spec_square_case(tl, tr, br, bl),
        c < 16,
{
    let mut c: u8 = 0;
    if tl {
        c = c + 1;
    }
    if tr {
        c = c + 2;
    }
    if br {
        c = c + 4;
    }
    if bl {
        c = c + 8;
    }
    c
}

/// The contour segments of a square of case `c`, each as the pair of sides
/// it joins.
pub open spec fn spec_square_segments(c: u8) -> Seq<(SquareSide, SquareSide)> {
    if c == 1 || c == 14 {
        seq![(SquareSide::Left, SquareSide::Bottom)]
    } else if c == 2 || c == 13 {
        seq![(SquareSide::Bottom, SquareSide::Right)]
    } else if c == 3 || c == 12 {
        seq![(SquareSide::Left, SquareSide::Right)]
    } else if c == 4 || c == 11 {
        seq![(SquareSide::Top, SquareSide::Right)]
    } else if c == 5 {
        seq![(SquareSide::Left, SquareSide::Top), (SquareSide::Bottom, SquareSide::Right)]
    } else if c == 6 || c == 9 {
        seq![(SquareSide::Top, SquareSide::Bottom)]
    } else if c == 7 || c == 8 {
        seq![(SquareSide::Left, SquareSide::Right)]
    } else if c == 10 {
        seq![(SquareSide::Top, SquareSide::Left), (SquareSide::Bottom, SquareSide::Right)]
    } else {
        Seq::empty()
    }
}

/// The contour segments of a square of case `c`.  Squares with all four
/// corners on one side of the level (cases 0 and 15) have none.
pub fn square_segments(c: u8) -> (segs: Vec<(SquareSide, SquareSide)>)
    ensures
        segs@ == spec_square_segments(c),
{
    if c == 1 || c == 14 {
        vec![(SquareSide::Left, SquareSide::Bottom)]
    } else if c == 2 || c == 13 {
        vec![(SquareSide::Bottom, SquareSide::Right)]
    } else if c == 3 || c == 12 {
        vec![(SquareSide::Left, SquareSide::Right)]
    } else if c == 4 || c == 11 {
        vec![(SquareSide::Top, SquareSide::Right)]
    } else if c == 5 {
        vec![(SquareSide::Left, SquareSide::Top), (SquareSide::Bottom, SquareSide::Right)]
    } else if c == 6 || c == 9 {
        vec![(SquareSide::Top, SquareSide::Bottom)]
    } else if c == 7 || c == 8 {
        vec![(SquareSide::Left, SquareSide::Right)]
    } else if c == 10 {
        vec![(SquareSide::Top, SquareSide::Left), (SquareSide::Bottom, SquareSide::Right)]
    } else {
        Vec::new()
    }
}

/// Two segments join the same two sides, in either direction.
pub open spec fn same_undirected(a: (SquareSide, SquareSide), b: (SquareSide, SquareSide)) -> bool {
    a == b || (a.0 == b.1 && a.1 == b.0)
}

/// Swapping which corners count as below the level (case `c` against case
/// `15 - c`) yields the same segments, up to direction.
pub proof fn lemma_square_segments_complement(c: u8)
    requires
        c < 16,
    ensures
        spec_square_segments(c).len() == spec_square_segments((15 - c) as u8).len(),
        forall|i: int|
            0 <= i < spec_square_segments(c).len() ==> same_undirected(
                #[trigger] spec_square_segments(c)[i],
                spec_square_segments((15 - c) as u8)[i],
            ),
{
}

/// A square has segments exactly when its corners are not all on one side
/// of the level; the two saddle cases have two.
pub proof fn lemma_square_segments_count(c: u8)
    requires
        c < 16,
    ensures
        (spec_square_segments(c).len() == 0) == (c == 0 || c == 15),
        (spec_square_segments(c).len() == 2) == (c == 5 || c == 10),
        spec_square_segments(c).len() <= 2,
{
}

/// The contour crosses side `s` of a square exactly when the two corners
/// that `s` joins lie on opposite sides of the level (`Top` joins the two
/// low-`v` corners, `Right` the two high-`u` corners, and so on).
pub open spec fn side_crossed(tl: bool, tr: bool, br: bool, bl: bool, s: SquareSide) -> bool {
    match s {
        SquareSide::Top => tl != tr,
        SquareSide::Right => tr != br,
        SquareSide::Bottom => br != bl,
        SquareSide::Left => bl != tl,
    }
}

/// Number of corners below the level.
pub open spec fn corners_below(tl: bool, tr: bool, br: bool, bl: bool) -> int {
    (if tl { 1int } else { 0 }) + (if tr { 1int } else { 0 }) + (if br { 1int } else { 0 }) + (
    if bl {
        1int
    } else {
        0
    })
}

/// A square with two corners on each side of the level is cut exactly
/// along the sides whose corners differ: every segment joins two distinct
/// crossed sides, every crossed side is the end of exactly one segment,
/// and no segment touches a side whose corners agree.  A square with all
/// corners on one side has no segment, and every segment of any square
/// ends on at least one crossed side.
pub proof fn lemma_square_segments_follow_sign_changes(tl: bool, tr: bool, br: bool, bl: bool)
    ensures
        ({
            let segs = spec_square_segments(spec_square_case(tl, tr, br, bl));
            &&& corners_below(tl, tr, br, bl) == 2 ==> {
                &&& forall|i: int|
                    0 <= i < segs.len() ==> (#[trigger] segs[i]).0 != segs[i].1 && side_crossed(
                        tl,
                        tr,
                        br,
                        bl,
                        segs[i].0,
                    ) && side_crossed(tl, tr, br, bl, segs[i].1)
                &&& forall|s: SquareSide|
                    #[trigger] side_crossed(tl, tr, br, bl, s) ==> exists|i: int|
                        0 <= i < segs.len() && ((#[trigger] segs[i]).0 == s || segs[i].1 == s)
                &&& forall|i: int, j: int|
                    0 <= i < segs.len() && 0 <= j < segs.len() && i != j ==> {
                        &&& (#[trigger] segs[i]).0 != (#[trigger] segs[j]).0
                        &&& segs[i].0 != segs[j].1
                        &&& segs[i].1 != segs[j].0
                        &&& segs[i].1 != segs[j].1
                    }
            }
            &&& (corners_below(tl, tr, br, bl) == 0 || corners_below(tl, tr, br, bl) == 4) ==> segs.len()
                == 0
            &&& forall|i: int|
                0 <= i < segs.len() ==> side_crossed(tl, tr, br, bl, (#[trigger] segs[i]).0)
                    || side_crossed(tl, tr, br, bl, segs[i].1)
        }),
{
    let c = spec_square_case(tl, tr, br, bl);
    let segs = spec_square_segments(c);
    if corners_below(tl, tr, br, bl) == 2 {
        assert forall|s: SquareSide| #[trigger] side_crossed(tl, tr, br, bl, s) implies exists|i: int|
            0 <= i < segs.len() && ((#[trigger] segs[i]).0 == s || segs[i].1 == s) by {
            if segs.len() == 2 {
                if segs[0].0 == s || segs[0].1 == s {
                    assert(0 <= 0 < segs.len());
                } else {
                    assert(segs[1].0 == s || segs[1].1 == s);
                }
            } else {
                assert(segs[0].0 == s || segs[0].1 == s);
            }
        }
    }
}

/// The case index reads each corner back from its bit.
pub proof fn lemma_square_case_bits(tl: bool, tr: bool, br: bool, bl: bool)
    ensures
        ({
            let c = spec_square_case(tl, tr, br, bl);
            &&& (c & 1 != 0) == tl
            &&& (c & 2 != 0) == tr
            &&& (c & 4 != 0) == br
            &&& (c & 8 != 0) == bl
        }),
{
    let c = spec_square_case(tl, tr, br, bl);
    assert(c < 16);
    assert(forall|x: u8|
        x < 16 ==> (x & 1 != 0) == (x % 2 == 1) && (x & 2 != 0) == ((x / 2) % 2 == 1) && (x & 4
            != 0) == ((x / 4) % 2 == 1) && (x & 8 != 0) == (x / 8 == 1)) by (bit_vector);
}

} // verus!
