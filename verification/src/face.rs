//! The cube at the level of its stickers: the colour at each of the 54
//! sticker positions.

use vstd::prelude::*;
use crate::common::{Color, color_letter, CORNER_COLOR, CORNER_FACELET, EDGE_COLOR, EDGE_FACELET};
use crate::cubie::CubieCube;
use crate::group::CubieState;

verus! {

/// A cube given by the colour of each sticker, the positions in the order
/// of `Facelet`.
#[derive(Clone, Copy, PartialEq, Eq, Debug)]
pub struct FaceCube {
    pub faces: [Color; 54],
}

/// The colour of face `f`, the faces in the order U, R, F, D, L, B.
pub open spec fn face_color(f: int) -> Color {
    if f == 0 {
        Color::U
    } else if f == 1 {
        Color::R
    } else if f == 2 {
        Color::F
    } else if f == 3 {
        Color::D
    } else if f == 4 {
        Color::L
    } else {
        Color::B
    }
}

/// The sticker position of side `k` of corner slot `i`.
pub open spec fn corner_facelet(i: int, k: int) -> int {
    CORNER_FACELET[i][k] as int
}

/// The sticker position of side `k` of edge slot `i`.
pub open spec fn edge_facelet(i: int, k: int) -> int {
    EDGE_FACELET[i][k] as int
}

/// `faces` shows the stickers of cube `c`: side `k` of the cubie in a slot
/// shows at the side of the slot that the cubie's orientation turns it to,
/// and the centre of each face has the colour of the face.
pub open spec fn shows(faces: Seq<Color>, c: CubieState) -> bool {
    &&& faces.len() == 54
    &&& forall|i: int, k: int|
        0 <= i < 8 && 0 <= k < 3 ==> faces[#[trigger] corner_facelet(i, (k + c.co[i]) % 3)]
            == CORNER_COLOR[c.cp[i]][k]
    &&& forall|i: int, k: int|
        0 <= i < 12 && 0 <= k < 2 ==> faces[#[trigger] edge_facelet(i, (k + c.eo[i]) % 2)]
            == EDGE_COLOR[c.ep[i]][k]
    &&& forall|p: int| 0 <= p < 54 && p % 9 == 4 ==> #[trigger] faces[p] == face_color(p / 9)
}

/// No two sides of corner and edge slots share a sticker position, and none
/// of them is the centre of a face.
pub proof fn lemma_facelets_distinct()
    ensures
        forall|i: int, k: int|
            0 <= i < 8 && 0 <= k < 3 ==> 0 <= #[trigger] corner_facelet(i, k) < 54
                && corner_facelet(i, k) % 9 != 4,
        forall|i: int, k: int|
            0 <= i < 12 && 0 <= k < 2 ==> 0 <= #[trigger] edge_facelet(i, k) < 54 && edge_facelet(
                i,
                k,
            ) % 9 != 4,
        forall|i: int, k: int, j: int, l: int|
            0 <= i < 8 && 0 <= k < 3 && 0 <= j < 8 && 0 <= l < 3 && (i != j || k != l)
                ==> #[trigger] corner_facelet(i, k) != #[trigger] corner_facelet(j, l),
        forall|i: int, k: int, j: int, l: int|
            0 <= i < 12 && 0 <= k < 2 && 0 <= j < 12 && 0 <= l < 2 && (i != j || k != l)
                ==> #[trigger] edge_facelet(i, k) != #[trigger] edge_facelet(j, l),
        forall|i: int, k: int, j: int, l: int|
            0 <= i < 8 && 0 <= k < 3 && 0 <= j < 12 && 0 <= l < 2 ==> #[trigger] corner_facelet(
                i,
                k,
            ) != #[trigger] edge_facelet(j, l),
{
}

impl FaceCube {
    /// The solved cube.
    pub fn new() -> (cube: Self)
        ensures
            shows(cube.faces@, CubieState::solved()),
            forall|p: int| 0 <= p < 54 ==> cube.faces[p] == face_color(p / 9),
    {
        let cube = FaceCube { faces: Self::solved_colors() };
        proof {
            lemma_solved_colors_show(cube.faces@);
        }
        cube
    }

    /// The stickers of the solved cube: nine of the colour of each face.
    pub fn solved_colors() -> (faces: [Color; 54])
        ensures
            forall|p: int| 0 <= p < 54 ==> faces[p] == face_color(p / 9),
    {
        let mut faces = [Color::U; 54];
        let mut p: usize = 0;
        while p < 54
            invariant
                p <= 54,
                forall|t: int| 0 <= t < p ==> faces[t] == face_color(t / 9),
            decreases 54 - p,
        {
            let f = p / 9;
            faces[p] = if f == 0 {
                Color::U
            } else if f == 1 {
                Color::R
            } else if f == 2 {
                Color::F
            } else if f == 3 {
                Color::D
            } else if f == 4 {
                Color::L
            } else {
                Color::B
            };
            p += 1;
        }
        faces
    }

    /// The stickers that a cube shows.
    pub fn from_cubie(other: &CubieCube) -> (cube: FaceCube)
        requires
            other@.well_formed(),
        ensures
            shows(cube.faces@, other@),
    {
        let mut faces = FaceCube::solved_colors();
        let ghost c = other@;
        proof {
            lemma_facelets_distinct();
        }

        let mut i: usize = 0;
        while i < 8
            invariant
                i <= 8,
                c == other@,
                c.well_formed(),
                forall|p: int|
                    0 <= p < 54 && p % 9 == 4 ==> #[trigger] faces[p] == face_color(p / 9),
                forall|s: int, k: int|
                    0 <= s < i && 0 <= k < 3 ==> faces[#[trigger] corner_facelet(
                        s,
                        (k + c.co[s]) % 3,
                    )] == CORNER_COLOR[c.cp[s]][k],
            decreases 8 - i,
        {
            let p = other.cp[i] as usize;
            let o = other.co[i];
            assert(p == c.cp[i as int] && o == c.co[i as int]);
            let mut k: usize = 0;
            while k < 3
                invariant
                    k <= 3,
                    i < 8,
                    c == other@,
                    c.well_formed(),
                    p == c.cp[i as int],
                    o == c.co[i as int],
                    forall|p: int|
                        0 <= p < 54 && p % 9 == 4 ==> #[trigger] faces[p] == face_color(p / 9),
                    forall|s: int, l: int|
                        0 <= s < i && 0 <= l < 3 ==> faces[#[trigger] corner_facelet(
                            s,
                            (l + c.co[s]) % 3,
                        )] == CORNER_COLOR[c.cp[s]][l],
                    forall|l: int|
                        0 <= l < k ==> faces[#[trigger] corner_facelet(i as int, (l + o) % 3)]
                            == CORNER_COLOR[p as int][l],
                decreases 3 - k,
            {
                proof {
                    lemma_facelets_distinct();
                }
                let side = (k + o as usize) % 3;
                let at = CORNER_FACELET[i][side] as usize;
                assert(at == corner_facelet(i as int, (k + o) % 3));
                faces[at] = CORNER_COLOR[p][k];
                k += 1;
            }
            i += 1;
        }

        let mut i: usize = 0;
        while i < 12
            invariant
                i <= 12,
                c == other@,
                c.well_formed(),
                forall|p: int|
                    0 <= p < 54 && p % 9 == 4 ==> #[trigger] faces[p] == face_color(p / 9),
                forall|s: int, k: int|
                    0 <= s < 8 && 0 <= k < 3 ==> faces[#[trigger] corner_facelet(
                        s,
                        (k + c.co[s]) % 3,
                    )] == CORNER_COLOR[c.cp[s]][k],
                forall|s: int, k: int|
                    0 <= s < i && 0 <= k < 2 ==> faces[#[trigger] edge_facelet(
                        s,
                        (k + c.eo[s]) % 2,
                    )] == EDGE_COLOR[c.ep[s]][k],
            decreases 12 - i,
        {
            assert(0 <= c.ep[i as int] < 12);
            let p = other.ep[i] as usize;
            let o = other.eo[i];
            assert(p == c.ep[i as int] && o == c.eo[i as int]);
            let mut k: usize = 0;
            while k < 2
                invariant
                    k <= 2,
                    i < 12,
                    c == other@,
                    c.well_formed(),
                    p == c.ep[i as int],
                    p < 12,
                    o == c.eo[i as int],
                    forall|p: int|
                        0 <= p < 54 && p % 9 == 4 ==> #[trigger] faces[p] == face_color(p / 9),
                    forall|s: int, l: int|
                        0 <= s < 8 && 0 <= l < 3 ==> faces[#[trigger] corner_facelet(
                            s,
                            (l + c.co[s]) % 3,
                        )] == CORNER_COLOR[c.cp[s]][l],
                    forall|s: int, l: int|
                        0 <= s < i && 0 <= l < 2 ==> faces[#[trigger] edge_facelet(
                            s,
                            (l + c.eo[s]) % 2,
                        )] == EDGE_COLOR[c.ep[s]][l],
                    forall|l: int|
                        0 <= l < k ==> faces[#[trigger] edge_facelet(i as int, (l + o) % 2)]
                            == EDGE_COLOR[p as int][l],
                decreases 2 - k,
            {
                proof {
                    lemma_facelets_distinct();
                }
                let side = (k + o as usize) % 2;
                let at = EDGE_FACELET[i][side] as usize;
                assert(at == edge_facelet(i as int, (k + o) % 2));
                faces[at] = EDGE_COLOR[p][k];
                k += 1;
            }
            i += 1;
        }

        FaceCube { faces }
    }

    /// The letters of the colours of the stickers, in the order of the
    /// sticker positions.
    pub fn letters(&self) -> (s: Vec<char>)
        ensures
            s@.len() == 54,
            forall|p: int| 0 <= p < 54 ==> s@[p] == color_letter(self.faces[p]),
    {
        let mut s: Vec<char> = Vec::new();
        let mut p: usize = 0;
        while p < 54
            invariant
                p <= 54,
                s@.len() == p,
                forall|t: int| 0 <= t < p ==> s@[t] == color_letter(self.faces[t]),
            decreases 54 - p,
        {
            s.push(self.faces[p].letter());
            p += 1;
        }
        s
    }
}

/// The stickers of the solved cube show the solved cube.
pub proof fn lemma_solved_colors_show(faces: Seq<Color>)
    requires
        faces.len() == 54,
        forall|p: int| 0 <= p < 54 ==> faces[p] == face_color(p / 9),
    ensures
        shows(faces, CubieState::solved()),
{
    let c = CubieState::solved();
    assert forall|i: int, k: int| 0 <= i < 8 && 0 <= k < 3 implies faces[#[trigger] corner_facelet(
        i,
        (k + c.co[i]) % 3,
    )] == CORNER_COLOR[c.cp[i]][k] by {
        let p = corner_facelet(i, k);
        assert(0 <= p < 54);
        assert(face_color(p / 9) == CORNER_COLOR[i][k]);
    }
    assert forall|i: int, k: int| 0 <= i < 12 && 0 <= k < 2 implies faces[#[trigger] edge_facelet(
        i,
        (k + c.eo[i]) % 2,
    )] == EDGE_COLOR[c.ep[i]][k] by {
        let p = edge_facelet(i, k);
        assert(0 <= p < 54);
        assert(face_color(p / 9) == EDGE_COLOR[i][k]);
    }
}

} // verus!
