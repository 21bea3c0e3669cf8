//! The cube at the level of its cubies: which corner and edge sits in each
//! slot, and how it is turned.

use vstd::prelude::*;
use crate::common::{Color, Corner, Edge, FACES, N_FLIP, N_SLICE_SORTED, N_TWIST};
use crate::coord::{
    digits_of, digits_value, flip_coord, flip_orientations, is_slice_arrangement, place_of,
    placed,
    rotated_left_by, rotated_right_by, shifted, slice_arrangement, slice_coord, slice_count,
    slice_left, slice_order, slice_position, slice_sorted_coord, slice_sorted_edges, slot_chosen,
    slot_takes, turns_to_place, twist_coord, twist_orientations,
};
use crate::coord_lemmas::{
    lemma_arrangement_holds, lemma_flip_round_trip, lemma_parity_restored,
    lemma_permutation_slice_arrangement, lemma_slice_count_bounds, lemma_slice_count_rising,
    lemma_slice_left_bound, lemma_slice_position_bound, lemma_slice_sorted_edges_permutation,
    lemma_slice_sorted_round_trip, lemma_turn_left, lemma_twist_round_trip,
};
use crate::group::{
    apply_move, basic_move, CubieState, is_permutation, sum_from, turned, twist_join,
};
use crate::group_lemmas::{
    lemma_basic_move_consistent, lemma_multiply_well_formed, lemma_turned_consistent,
    lemma_turned_well_formed,
};
use crate::misc::{
    binomial, c_nk, lemma_binomial_12_4, lemma_binomial_small, lemma_three_to_rising,
    lemma_two_to_rising, rotate_left, rotate_right, rotated_left, rotated_right, three_to, two_to,
};

verus! {

/// A cube given by the cubie in each slot and its orientation.
///
/// Corner orientations are 0, 1, 2 for untwisted, clockwise and
/// counter-clockwise, and 3, 4, 5 for the same on a mirrored corner. Edge
/// flips are 0 or 1.
#[derive(Clone, Copy, PartialEq, Eq, Debug)]
pub struct CubieCube {
    pub cp: [Corner; 8],
    pub co: [i8; 8],
    pub ep: [Edge; 12],
    pub eo: [i8; 12],
}

impl View for CubieCube {
    type V = CubieState;

    open spec fn view(&self) -> CubieState {
        CubieState {
            cp: Seq::new(8, |i: int| self.cp[i] as int),
            co: Seq::new(8, |i: int| self.co[i] as int),
            ep: Seq::new(12, |i: int| self.ep[i] as int),
            eo: Seq::new(12, |i: int| self.eo[i] as int),
        }
    }
}

/// The corners of the solved cube.
pub const CP_SOLVED: [Corner; 8] = [
    Corner::UFR,
    Corner::UFL,
    Corner::UBL,
    Corner::UBR,
    Corner::DFR,
    Corner::DFL,
    Corner::DBL,
    Corner::DBR,
];

/// The edges of the solved cube.
pub const EP_SOLVED: [Edge; 12] = [
    Edge::UR,
    Edge::UF,
    Edge::UL,
    Edge::UB,
    Edge::DR,
    Edge::DF,
    Edge::DL,
    Edge::DB,
    Edge::FR,
    Edge::FL,
    Edge::BL,
    Edge::BR,
];

// The six quarter turns, each as the solved cube with that face turned
// clockwise: corners, corner orientations, edges, edge flips.
const CP_U: [Corner; 8] = [
    Corner::UBR,
    Corner::UFR,
    Corner::UFL,
    Corner::UBL,
    Corner::DFR,
    Corner::DFL,
    Corner::DBL,
    Corner::DBR,
];

const CO_U: [i8; 8] = [0, 0, 0, 0, 0, 0, 0, 0];

const EP_U: [Edge; 12] = [
    Edge::UB,
    Edge::UR,
    Edge::UF,
    Edge::UL,
    Edge::DR,
    Edge::DF,
    Edge::DL,
    Edge::DB,
    Edge::FR,
    Edge::FL,
    Edge::BL,
    Edge::BR,
];

const EO_U: [i8; 12] = [0, 0, 0, 0, 0, 0, 0, 0, 0, 0, 0, 0];

const CP_R: [Corner; 8] = [
    Corner::DFR,
    Corner::UFL,
    Corner::UBL,
    Corner::UFR,
    Corner::DBR,
    Corner::DFL,
    Corner::DBL,
    Corner::UBR,
];

const CO_R: [i8; 8] = [2, 0, 0, 1, 1, 0, 0, 2];

const EP_R: [Edge; 12] = [
    Edge::FR,
    Edge::UF,
    Edge::UL,
    Edge::UB,
    Edge::BR,
    Edge::DF,
    Edge::DL,
    Edge::DB,
    Edge::DR,
    Edge::FL,
    Edge::BL,
    Edge::UR,
];

const EO_R: [i8; 12] = [0, 0, 0, 0, 0, 0, 0, 0, 0, 0, 0, 0];

const CP_F: [Corner; 8] = [
    Corner::UFL,
    Corner::DFL,
    Corner::UBL,
    Corner::UBR,
    Corner::UFR,
    Corner::DFR,
    Corner::DBL,
    Corner::DBR,
];

const CO_F: [i8; 8] = [1, 2, 0, 0, 2, 1, 0, 0];

const EP_F: [Edge; 12] = [
    Edge::UR,
    Edge::FL,
    Edge::UL,
    Edge::UB,
    Edge::DR,
    Edge::FR,
    Edge::DL,
    Edge::DB,
    Edge::UF,
    Edge::DF,
    Edge::BL,
    Edge::BR,
];

const EO_F: [i8; 12] = [0, 1, 0, 0, 0, 1, 0, 0, 1, 1, 0, 0];

const CP_D: [Corner; 8] = [
    Corner::UFR,
    Corner::UFL,
    Corner::UBL,
    Corner::UBR,
    Corner::DFL,
    Corner::DBL,
    Corner::DBR,
    Corner::DFR,
];

const CO_D: [i8; 8] = [0, 0, 0, 0, 0, 0, 0, 0];

const EP_D: [Edge; 12] = [
    Edge::UR,
    Edge::UF,
    Edge::UL,
    Edge::UB,
    Edge::DF,
    Edge::DL,
    Edge::DB,
    Edge::DR,
    Edge::FR,
    Edge::FL,
    Edge::BL,
    Edge::BR,
];

const EO_D: [i8; 12] = [0, 0, 0, 0, 0, 0, 0, 0, 0, 0, 0, 0];

const CP_L: [Corner; 8] = [
    Corner::UFR,
    Corner::UBL,
    Corner::DBL,
    Corner::UBR,
    Corner::DFR,
    Corner::UFL,
    Corner::DFL,
    Corner::DBR,
];

const CO_L: [i8; 8] = [0, 1, 2, 0, 0, 2, 1, 0];

const EP_L: [Edge; 12] = [
    Edge::UR,
    Edge::UF,
    Edge::BL,
    Edge::UB,
    Edge::DR,
    Edge::DF,
    Edge::FL,
    Edge::DB,
    Edge::FR,
    Edge::UL,
    Edge::DL,
    Edge::BR,
];

const EO_L: [i8; 12] = [0, 0, 0, 0, 0, 0, 0, 0, 0, 0, 0, 0];

const CP_B: [Corner; 8] = [
    Corner::UFR,
    Corner::UFL,
    Corner::UBR,
    Corner::DBR,
    Corner::DFR,
    Corner::DFL,
    Corner::UBL,
    Corner::DBL,
];

const CO_B: [i8; 8] = [0, 0, 1, 2, 0, 0, 2, 1];

const EP_B: [Edge; 12] = [
    Edge::UR,
    Edge::UF,
    Edge::UL,
    Edge::BR,
    Edge::DR,
    Edge::DF,
    Edge::DL,
    Edge::BL,
    Edge::FR,
    Edge::FL,
    Edge::UB,
    Edge::DB,
];

const EO_B: [i8; 12] = [0, 0, 0, 1, 0, 0, 0, 1, 0, 0, 1, 1];

/// The numbers of a sequence of edges.
pub open spec fn edge_numbers(s: Seq<Edge>) -> Seq<int> {
    Seq::new(s.len(), |i: int| s[i] as int)
}

/// The numbers held in a sequence of 16-bit values.
pub open spec fn numbers(s: Seq<u16>) -> Seq<int> {
    Seq::new(s.len(), |i: int| s[i] as int)
}

impl CubieCube {
    /// A cube from its four arrays; an array that is not given is that of
    /// the solved cube.
    pub fn new(
        cp: Option<[Corner; 8]>,
        co: Option<[i8; 8]>,
        ep: Option<[Edge; 12]>,
        eo: Option<[i8; 12]>,
    ) -> (cube: Self)
        ensures
            cube.cp == (if let Some(a) = cp { a } else { CP_SOLVED }),
            cube.co@ == (if let Some(a) = co { a@ } else { Seq::new(8, |i: int| 0i8) }),
            cube.ep == (if let Some(a) = ep { a } else { EP_SOLVED }),
            cube.eo@ == (if let Some(a) = eo { a@ } else { Seq::new(12, |i: int| 0i8) }),
            cp is None && co is None && ep is None && eo is None ==> cube@
                == CubieState::solved() && cube@.consistent(),
    {
        proof {
            lemma_basic_move_consistent(0);
        }
        let cube = CubieCube {
            cp: match cp { Some(a) => a, None => CP_SOLVED },
            co: match co { Some(a) => a, None => [0; 8] },
            ep: match ep { Some(a) => a, None => EP_SOLVED },
            eo: match eo { Some(a) => a, None => [0; 12] },
        };
        proof {
            if cp is None && co is None && ep is None && eo is None {
                assert(cube@.cp =~= CubieState::solved().cp);
                assert(cube@.co =~= CubieState::solved().co);
                assert(cube@.ep =~= CubieState::solved().ep);
                assert(cube@.eo =~= CubieState::solved().eo);
            }
        }
        cube
    }

    /// The solved cube.
    pub fn solved() -> (cube: Self)
        ensures
            cube@ == CubieState::solved(),
            cube@.consistent(),
    {
        proof {
            lemma_basic_move_consistent(0);
        }
        let cube = CubieCube { cp: CP_SOLVED, co: [0; 8], ep: EP_SOLVED, eo: [0; 12] };
        proof {
            assert(cube@.cp =~= CubieState::solved().cp);
            assert(cube@.co =~= CubieState::solved().co);
            assert(cube@.ep =~= CubieState::solved().ep);
            assert(cube@.eo =~= CubieState::solved().eo);
        }
        cube
    }

    /// The quarter turn of a face as a cube: the solved cube with that face
    /// turned clockwise. Half and inverse turns are products of these.
    pub fn basic_move(face: Color) -> (m: Self)
        ensures
            m@ == basic_move(face as int),
            m@.consistent(),
    {
        proof {
            lemma_basic_move_consistent(face as int);
        }
        let m = match face {
            Color::U => CubieCube { cp: CP_U, co: CO_U, ep: EP_U, eo: EO_U },
            Color::R => CubieCube { cp: CP_R, co: CO_R, ep: EP_R, eo: EO_R },
            Color::F => CubieCube { cp: CP_F, co: CO_F, ep: EP_F, eo: EO_F },
            Color::D => CubieCube { cp: CP_D, co: CO_D, ep: EP_D, eo: EO_D },
            Color::L => CubieCube { cp: CP_L, co: CO_L, ep: EP_L, eo: EO_L },
            Color::B => CubieCube { cp: CP_B, co: CO_B, ep: EP_B, eo: EO_B },
        };
        proof {
            let s = basic_move(face as int);
            assert(m@.cp =~= s.cp);
            assert(m@.co =~= s.co);
            assert(m@.ep =~= s.ep);
            assert(m@.eo =~= s.eo);
        }
        m
    }

    /// Multiplies the corners by those of `b`: `self` becomes `self ∘ b` in
    /// its corners, mirrored orientations included. The edges stay.
    pub fn corner_multiply(&mut self, b: &Self)
        requires
            old(self)@.corners_well_formed(),
            b@.corners_well_formed(),
        ensures
            final(self)@ == old(self)@.corner_multiply(b@),
    {
        let mut c_perm = [Corner::UFR; 8];
        let mut c_orie = [0i8; 8];

        let mut i: usize = 0;
        while i < 8
            invariant
                i <= 8,
                *self == *old(self),
                self@.corners_well_formed(),
                b@.corners_well_formed(),
                forall|t: int| 0 <= t < i ==> c_perm[t] as int == self@.cp[b@.cp[t]],
                forall|t: int|
                    0 <= t < i ==> c_orie[t] as int == twist_join(self@.co[b@.cp[t]], b@.co[t]),
            decreases 8 - i,
        {
            let at = b.cp[i] as usize;
            assert(at == b@.cp[i as int]);
            c_perm[i] = self.cp[at];
            let ori_a = self.co[at];
            let ori_b = b.co[i];
            assert(ori_a == self@.co[at as int] && ori_b == b@.co[i as int]);
            c_orie[i] = if ori_a < 3 && ori_b < 3 {
                if ori_a + ori_b >= 3 {
                    ori_a + ori_b - 3
                } else {
                    ori_a + ori_b
                }
            } else if ori_a < 3 {
                if ori_a + ori_b >= 6 {
                    ori_a + ori_b - 3
                } else {
                    ori_a + ori_b
                }
            } else if ori_b < 3 {
                if ori_a - ori_b < 3 {
                    ori_a - ori_b + 3
                } else {
                    ori_a - ori_b
                }
            } else {
                if ori_a - ori_b < 0 {
                    ori_a - ori_b + 3
                } else {
                    ori_a - ori_b
                }
            };
            i += 1;
        }

        self.cp = c_perm;
        self.co = c_orie;
        assert(self@.cp =~= old(self)@.corner_multiply(b@).cp);
        assert(self@.co =~= old(self)@.corner_multiply(b@).co);
    }

    /// Multiplies the corners by those of `b`, adding orientations modulo 3.
    /// Where neither cube has a mirrored corner this is `corner_multiply`,
    /// and cheaper. The edges stay.
    pub fn corner_multiply_simple(&mut self, b: &Self)
        requires
            old(self)@.corners_well_formed(),
            b@.corners_well_formed(),
        ensures
            final(self)@ == old(self)@.corner_multiply_simple(b@),
            old(self)@.unmirrored() && b@.unmirrored() ==> final(self)@ == old(
                self,
            )@.corner_multiply(b@),
    {
        let mut c_perm = [Corner::UFR; 8];
        let mut c_orie = [0i8; 8];

        let mut i: usize = 0;
        while i < 8
            invariant
                i <= 8,
                *self == *old(self),
                self@.corners_well_formed(),
                b@.corners_well_formed(),
                forall|t: int| 0 <= t < i ==> c_perm[t] as int == self@.cp[b@.cp[t]],
                forall|t: int|
                    0 <= t < i ==> c_orie[t] as int == (self@.co[b@.cp[t]] + b@.co[t]) % 3,
            decreases 8 - i,
        {
            let at = b.cp[i] as usize;
            assert(at == b@.cp[i as int]);
            assert(self.co[at as int] == self@.co[at as int] && b.co[i as int] == b@.co[i as int]);
            c_perm[i] = self.cp[at];
            c_orie[i] = (b.co[i] + self.co[at]) % 3;
            i += 1;
        }

        self.cp = c_perm;
        self.co = c_orie;
        assert(self@.cp =~= old(self)@.corner_multiply_simple(b@).cp);
        assert(self@.co =~= old(self)@.corner_multiply_simple(b@).co);
        proof {
            if old(self)@.unmirrored() && b@.unmirrored() {
                assert(self@.co =~= old(self)@.corner_multiply(b@).co);
            }
        }
    }

    /// Multiplies the edges by those of `b`: `self` becomes `self ∘ b` in
    /// its edges. The corners stay.
    pub fn edge_multiply(&mut self, b: &Self)
        requires
            old(self)@.edges_well_formed(),
            b@.edges_well_formed(),
        ensures
            final(self)@ == old(self)@.edge_multiply(b@),
    {
        let mut e_perm = [Edge::UF; 12];
        let mut e_orie = [0i8; 12];

        let mut i: usize = 0;
        while i < 12
            invariant
                i <= 12,
                *self == *old(self),
                self@.edges_well_formed(),
                b@.edges_well_formed(),
                forall|t: int| 0 <= t < i ==> e_perm[t] as int == self@.ep[b@.ep[t]],
                forall|t: int|
                    0 <= t < i ==> e_orie[t] as int == (self@.eo[b@.ep[t]] + b@.eo[t]) % 2,
            decreases 12 - i,
        {
            assert(0 <= b@.ep[i as int] < 12);
            let at = b.ep[i] as usize;
            assert(at == b@.ep[i as int]);
            assert(self.eo[at as int] == self@.eo[at as int] && b.eo[i as int] == b@.eo[i as int]);
            e_perm[i] = self.ep[at];
            e_orie[i] = (b.eo[i] + self.eo[at]) % 2;
            i += 1;
        }

        self.ep = e_perm;
        self.eo = e_orie;
        assert(self@.ep =~= old(self)@.edge_multiply(b@).ep);
        assert(self@.eo =~= old(self)@.edge_multiply(b@).eo);
    }

    /// Multiplies the whole cube by `b`: `self` becomes `self ∘ b`, which is
    /// `b` done first and `self` after it.
    pub fn multiply(&mut self, b: &Self)
        requires
            old(self)@.well_formed(),
            b@.well_formed(),
        ensures
            final(self)@ == old(self)@.multiply(b@),
    {
        self.corner_multiply(b);
        self.edge_multiply(b);
    }

    /// Applies move `m`, which is `3 * face + turn` with the faces in the
    /// order U, R, F, D, L, B: the face is turned by a quarter for turn 0, a
    /// half for turn 1 and three quarters for turn 2.
    pub fn apply_move(&mut self, m: usize)
        requires
            m < 18,
            old(self)@.well_formed(),
        ensures
            final(self)@ == apply_move(old(self)@, m as int),
            final(self)@.well_formed(),
            old(self)@.unmirrored() ==> final(self)@.unmirrored(),
            old(self)@.consistent() ==> final(self)@.consistent(),
    {
        proof {
            lemma_turned_well_formed(old(self)@, m as int / 3, m as int % 3 + 1);
            if old(self)@.consistent() {
                lemma_turned_consistent(old(self)@, m as int / 3, m as int % 3 + 1);
            }
        }
        let face = m / 3;
        let turns = m % 3 + 1;
        let mut n: usize = 0;
        while n < turns
            invariant
                n <= turns <= 3,
                face < 6,
                self@ == turned(old(self)@, face as int, n as int),
                self@.well_formed(),
            decreases turns - n,
        {
            let ghost before = self@;
            let turn = CubieCube::basic_move(FACES[face]);
            self.multiply(&turn);
            proof {
                lemma_multiply_well_formed(before, basic_move(face as int));
            }
            n += 1;
        }
    }

    /// The twist coordinate: the orientations of the first seven corners as
    /// a number in base 3, that of the first corner leading. None of the
    /// seven may be mirrored.
    pub fn get_twist(&self) -> (r: u16)
        requires
            forall|i: int| 0 <= i < 7 ==> 0 <= #[trigger] self@.co[i] < 3,
        ensures
            r == twist_coord(self@.co),
            r < N_TWIST,
    {
        let mut total: u16 = 0;
        let mut i: usize = 0;
        proof {
            assert(three_to(7) == 2187) by {
                reveal_with_fuel(three_to, 8);
            }
            lemma_three_to_rising(0, 7);
        }
        while i < 7
            invariant
                i <= 7,
                forall|t: int| 0 <= t < 7 ==> 0 <= #[trigger] self@.co[t] < 3,
                total == digits_value(self@.co.take(i as int), 3),
                total < three_to(i as nat),
                three_to(i as nat) <= three_to(7) == 2187,
            decreases 7 - i,
        {
            proof {
                assert(self@.co.take(i + 1).drop_last() =~= self@.co.take(i as int));
                assert(self.co[i as int] as int == self@.co[i as int]);
                lemma_three_to_rising((i + 1) as nat, 7);
            }
            total = 3 * total + self.co[i] as u16;
            i += 1;
        }
        assert(self@.co.take(7) == self@.co.take(i as int));
        total
    }

    /// Sets the corner orientations from a twist coordinate: the first seven
    /// are its digits in base 3, the last brings their sum to a multiple of
    /// 3. Everything else stays.
    pub fn set_twist(&mut self, twist: u16)
        requires
            twist < N_TWIST,
        ensures
            final(self)@ == old(self)@.with_twist(twist as int),
            twist_coord(final(self)@.co) == twist,
            forall|i: int| 0 <= i < 8 ==> 0 <= #[trigger] final(self)@.co[i] < 3,
            sum_from(final(self)@.co, 0) % 3 == 0,
    {
        proof {
            lemma_twist_round_trip(twist as int);
            lemma_parity_restored(digits_of(twist as int, 3, 7), 3);
        }
        let ghost v = twist as int;
        let ghost d = digits_of(v, 3, 7);
        let mut twist = twist;
        let mut tp: u16 = 0;
        let mut i: usize = 7;
        while i > 0
            invariant
                i <= 7,
                d == digits_of(v, 3, 7),
                twist == shifted(v, 3, 7 - i),
                tp == sum_from(d, i as int),
                tp <= 2 * (7 - i),
                self.cp == old(self).cp,
                self.ep == old(self).ep,
                self.eo == old(self).eo,
                forall|t: int| i <= t < 7 ==> self.co[t] as int == d[t],
            decreases i,
        {
            i -= 1;
            self.co[i] = (twist % 3) as i8;
            tp += self.co[i] as u16;
            twist /= 3;
        }
        self.co[7] = ((3 - tp % 3) % 3) as i8;
        assert(self@.co =~= twist_orientations(v));
        assert(self@.cp == old(self)@.cp);
        assert(self@.ep == old(self)@.ep);
        assert(self@.eo == old(self)@.eo);
    }

    /// The flip coordinate: the flips of the first eleven edges as a number
    /// in base 2, that of the first edge leading.
    pub fn get_flip(&self) -> (r: u16)
        requires
            forall|i: int| 0 <= i < 11 ==> 0 <= #[trigger] self@.eo[i] < 2,
        ensures
            r == flip_coord(self@.eo),
            r < N_FLIP,
    {
        let mut total: u16 = 0;
        let mut i: usize = 0;
        proof {
            assert(two_to(11) == 2048) by {
                reveal_with_fuel(two_to, 12);
            }
            lemma_two_to_rising(0, 11);
        }
        while i < 11
            invariant
                i <= 11,
                forall|t: int| 0 <= t < 11 ==> 0 <= #[trigger] self@.eo[t] < 2,
                total == digits_value(self@.eo.take(i as int), 2),
                total < two_to(i as nat),
                two_to(i as nat) <= two_to(11) == 2048,
            decreases 11 - i,
        {
            proof {
                assert(self@.eo.take(i + 1).drop_last() =~= self@.eo.take(i as int));
                assert(self.eo[i as int] as int == self@.eo[i as int]);
                lemma_two_to_rising((i + 1) as nat, 11);
            }
            total = 2 * total + self.eo[i] as u16;
            i += 1;
        }
        assert(self@.eo.take(11) == self@.eo.take(i as int));
        total
    }

    /// Sets the edge flips from a flip coordinate: the first eleven are its
    /// digits in base 2, the last brings their sum to a multiple of 2.
    /// Everything else stays.
    pub fn set_flip(&mut self, flip: u16)
        requires
            flip < N_FLIP,
        ensures
            final(self)@ == old(self)@.with_flip(flip as int),
            flip_coord(final(self)@.eo) == flip,
            forall|i: int| 0 <= i < 12 ==> 0 <= #[trigger] final(self)@.eo[i] < 2,
            sum_from(final(self)@.eo, 0) % 2 == 0,
    {
        proof {
            lemma_flip_round_trip(flip as int);
            lemma_parity_restored(digits_of(flip as int, 2, 11), 2);
        }
        let ghost v = flip as int;
        let ghost d = digits_of(v, 2, 11);
        let mut flip = flip;
        let mut fp: i8 = 0;
        let mut i: usize = 11;
        while i > 0
            invariant
                i <= 11,
                d == digits_of(v, 2, 11),
                flip == shifted(v, 2, 11 - i),
                fp == sum_from(d, i as int),
                0 <= fp <= 11 - i,
                self.cp == old(self).cp,
                self.co == old(self).co,
                self.ep == old(self).ep,
                forall|t: int| i <= t < 11 ==> self.eo[t] as int == d[t],
            decreases i,
        {
            i -= 1;
            self.eo[i] = (flip % 2) as i8;
            fp += self.eo[i];
            flip /= 2;
        }
        self.eo[11] = ((2 - fp % 2) % 2) as i8;
        assert(self@.eo =~= flip_orientations(v));
        assert(self@.cp == old(self)@.cp);
        assert(self@.co == old(self)@.co);
        assert(self@.ep == old(self)@.ep);
    }

    /// The slice coordinate: the position rank of the slots that hold the
    /// edges of the UD slice, whatever their order.
    pub fn get_slice(&self) -> (a: u16)
        ensures
            a == slice_coord(self@.ep),
            slice_count(self@.ep, 0) == 4 ==> a < 495,
    {
        proof {
            lemma_slice_position_bound(self@.ep, 0);
            lemma_binomial_12_4();
        }
        let mut a: u16 = 0;
        let mut x: u16 = 0;
        let mut j: usize = 12;
        while j > 0
            invariant
                j <= 12,
                x == slice_count(self@.ep, j as int),
                a == slice_position(self@.ep, j as int),
            decreases j,
        {
            j -= 1;
            proof {
                lemma_slice_count_bounds(self@.ep, j as int);
                lemma_slice_count_bounds(self@.ep, j + 1);
                lemma_slice_position_bound(self@.ep, j as int);
                lemma_binomial_small((12 - j) as nat, slice_count(self@.ep, j as int) as nat);
                lemma_binomial_small((11 - j) as nat, (x + 1) as nat);
            }
            let e = self.ep[j] as u16;
            if Edge::FR as u16 <= e && e <= Edge::BR as u16 {
                a += c_nk(11 - j as u16, x + 1);
                x += 1;
            }
        }
        a
    }

    /// The sorted slice coordinate: 24 times the position rank of the slots
    /// that hold the edges of the UD slice, plus the rank of the order in
    /// which they lie there.
    ///
    /// The edges have to be a permutation of the twelve edges, so that each
    /// of the four slice edges lies in exactly one slot.
    pub fn get_slice_sorted(&self) -> (r: u16)
        requires
            is_permutation(self@.ep, 12),
        ensures
            r == slice_sorted_coord(self@.ep),
            r < N_SLICE_SORTED,
    {
        proof {
            lemma_permutation_slice_arrangement(self@.ep);
        }
        let mut a: u16 = 0;
        let mut x: u16 = 0;
        let mut edge_4: [u16; 4] = [0; 4];
        let ghost ep = self@.ep;

        let mut j: usize = 12;
        while j > 0
            invariant
                j <= 12,
                ep == self@.ep,
                slice_order(ep, 0).len() == 4,
                x == slice_count(ep, j as int),
                x <= 4,
                a == slice_position(ep, j as int),
                slice_order(ep, j as int).len() == x,
                forall|t: int|
                    0 <= t < x ==> edge_4[4 - x + t] as int == #[trigger] slice_order(
                        ep,
                        j as int,
                    )[t],
            decreases j,
        {
            j -= 1;
            proof {
                lemma_slice_count_bounds(ep, 0);
                lemma_slice_count_bounds(ep, j as int);
                lemma_slice_count_bounds(ep, j + 1);
                lemma_slice_count_rising(ep, 0, j as int);
                lemma_slice_position_bound(ep, j as int);
                lemma_binomial_small((12 - j) as nat, slice_count(ep, j as int) as nat);
                lemma_binomial_small((11 - j) as nat, (x + 1) as nat);
            }
            let e = self.ep[j] as u16;
            if Edge::FR as u16 <= e && e <= Edge::BR as u16 {
                a += c_nk(11 - j as u16, x + 1);
                edge_4[3 - x as usize] = e;
                x += 1;
                proof {
                    let now = slice_order(ep, j as int);
                    let was = slice_order(ep, j + 1);
                    assert(now =~= seq![ep[j as int]] + was);
                    assert forall|t: int| 0 <= t < x implies edge_4[4 - x + t] as int == now[t] by {
                        if t > 0 {
                            assert(now[t] == was[t - 1]);
                        }
                    }
                }
            }
        }
        proof {
            lemma_slice_position_bound(ep, 0);
            lemma_slice_count_bounds(ep, 0);
            lemma_binomial_12_4();
        }
        assert(numbers(edge_4@) =~= slice_order(ep, 0));

        let ghost e = numbers(edge_4@);
        let ghost k3 = turns_to_place(e, 3);
        let ghost e3 = rotated_left_by(e, 3, k3);
        let ghost k2 = turns_to_place(e3, 2);
        let ghost e2 = rotated_left_by(e3, 2, k2);
        let ghost k1 = turns_to_place(e2, 1);

        let mut b: u16 = 0;
        let mut j: u16 = 3;
        while j > 0
            invariant
                j <= 3,
                is_slice_arrangement(numbers(edge_4@)),
                forall|t: int| j < t < 4 ==> (#[trigger] numbers(edge_4@)[t]) == 8 + t,
                k3 == turns_to_place(e, 3),
                e3 == rotated_left_by(e, 3, k3),
                k2 == turns_to_place(e3, 2),
                e2 == rotated_left_by(e3, 2, k2),
                k1 == turns_to_place(e2, 1),
                j == 3 ==> b == 0 && numbers(edge_4@) == e,
                j == 2 ==> b == k3 && numbers(edge_4@) == e3,
                j == 1 ==> b == k3 * 3 + k2 && numbers(edge_4@) == e2,
                j == 0 ==> b == (k3 * 3 + k2) * 2 + k1,
                b < 24,
                j == 2 ==> b < 4,
                j == 1 ==> b < 12,
            decreases j,
        {
            let ghost start = numbers(edge_4@);
            let ghost p = place_of(start, 8 + j);
            let ghost turns = turns_to_place(start, j as int);
            proof {
                lemma_arrangement_holds(start, 8 + j);
                assert(turns == (if p == j {
                    0
                } else {
                    p + 1
                })) by {
                    if j == 1 {
                        assert(turns == (p + 1) % 2);
                    } else if j == 2 {
                        assert(turns == (p + 1) % 3);
                    } else {
                        assert(turns == (p + 1) % 4);
                    }
                }
            }
            let mut k: u16 = 0;
            while edge_4[j as usize] != j + 8
                invariant
                    1 <= j <= 3,
                    is_slice_arrangement(numbers(edge_4@)),
                    forall|t: int| j < t < 4 ==> (#[trigger] numbers(edge_4@)[t]) == 8 + t,
                    p == place_of(start, 8 + j),
                    0 <= p <= j,
                    turns == (if p == j {
                        0
                    } else {
                        p + 1
                    }),
                    0 <= k <= turns,
                    numbers(edge_4@) == rotated_left_by(start, j as int, k as int),
                    k < turns ==> place_of(numbers(edge_4@), 8 + j) == p - k,
                    k == turns ==> numbers(edge_4@)[j as int] == 8 + j,
                decreases turns - k,
            {
                let ghost before = edge_4@;
                rotate_left(&mut edge_4, 0, j as usize);
                assert(numbers(edge_4@) =~= rotated_left(numbers(before), 0, j as int));
                proof {
                    lemma_arrangement_holds(numbers(before), 8 + j);
                    lemma_turn_left(numbers(before), j as int, 8 + j);
                    lemma_arrangement_holds(numbers(edge_4@), 8 + j);
                }
                k += 1;
            }
            proof {
                let cur = numbers(edge_4@);
                lemma_arrangement_holds(cur, 8 + j);
                assert(cur[j as int] == 8 + j);
                if k < turns {
                    let at = place_of(cur, 8 + j);
                    assert(at < j);
                    assert(cur[at] != cur[j as int]);
                }
                assert((j + 1) * b == (if j == 3 {
                    4 * b
                } else if j == 2 {
                    3 * b
                } else {
                    2 * b
                })) by (nonlinear_arith)
                    requires
                        1 <= j <= 3,
                ;
            }
            b = (j + 1) * b + k;
            j -= 1;
        }
        24 * a + b
    }

    /// Sets the edges from a sorted slice coordinate: the four slice edges go
    /// to the slots and into the order that `idx` encodes, the other eight
    /// fill the remaining slots in ascending order. Corners and flips stay.
    pub fn set_slice_sorted(&mut self, idx: u16)
        requires
            idx < N_SLICE_SORTED,
        ensures
            final(self)@ == old(self)@.with_slice_sorted(idx as int),
            is_permutation(final(self)@.ep, 12),
            slice_sorted_coord(final(self)@.ep) == idx,
    {
        proof {
            lemma_slice_sorted_edges_permutation(idx as int);
            lemma_slice_sorted_round_trip(idx as int);
        }
        let mut slice_edge = [Edge::FR, Edge::FL, Edge::BL, Edge::BR];
        let other_edge = [
            Edge::UR,
            Edge::UF,
            Edge::UL,
            Edge::UB,
            Edge::DR,
            Edge::DF,
            Edge::DL,
            Edge::DB,
        ];
        let mut b: u32 = idx as u32 % 24;
        let mut a: u32 = idx as u32 / 24;
        let ghost b0 = b as int;
        let ghost a0 = a as int;
        let ghost init = seq![8int, 9int, 10int, 11int];
        let ghost e1 = rotated_right_by(init, 1, b0 % 2);
        let ghost e2 = rotated_right_by(e1, 2, (b0 / 2) % 3);
        let ghost e3 = rotated_right_by(e2, 3, (b0 / 6) % 4);
        assert(edge_numbers(slice_edge@) =~= init);

        let mut s: usize = 0;
        while s < 12
            invariant
                s <= 12,
                self.cp == old(self).cp,
                self.co == old(self).co,
                self.eo == old(self).eo,
                forall|t: int| 0 <= t < s ==> self.ep[t] == Edge::INV,
            decreases 12 - s,
        {
            self.ep[s] = Edge::INV;
            s += 1;
        }

        let mut j: u32 = 1;
        while j < 4
            invariant
                1 <= j <= 4,
                0 <= b0 < 24,
                init == seq![8int, 9int, 10int, 11int],
                e1 == rotated_right_by(init, 1, b0 % 2),
                e2 == rotated_right_by(e1, 2, (b0 / 2) % 3),
                e3 == rotated_right_by(e2, 3, (b0 / 6) % 4),
                j == 1 ==> b == b0 && edge_numbers(slice_edge@) == init,
                j == 2 ==> b == b0 / 2 && edge_numbers(slice_edge@) == e1,
                j == 3 ==> b == b0 / 6 && edge_numbers(slice_edge@) == e2,
                j == 4 ==> edge_numbers(slice_edge@) == e3,
                forall|t: int| 0 <= t < 4 ==> 8 <= #[trigger] edge_numbers(slice_edge@)[t] <= 11,
            decreases 4 - j,
        {
            let mut k: u32 = b % (j + 1);
            b = b / (j + 1);
            let ghost k0 = k as int;
            let ghost start = edge_numbers(slice_edge@);
            while k > 0
                invariant
                    1 <= j < 4,
                    0 <= k <= k0,
                    edge_numbers(slice_edge@) == rotated_right_by(start, j as int, k0 - k),
                    forall|t: int|
                        0 <= t < 4 ==> 8 <= #[trigger] edge_numbers(slice_edge@)[t] <= 11,
                decreases k,
            {
                let ghost before = slice_edge@;
                rotate_right(&mut slice_edge, 0, j as usize);
                assert(edge_numbers(slice_edge@) =~= rotated_right(
                    edge_numbers(before),
                    0,
                    j as int,
                ));
                k -= 1;
            }
            j += 1;
        }
        assert(edge_numbers(slice_edge@) == slice_arrangement(b0));

        let ghost order = edge_numbers(slice_edge@);
        let mut x: u16 = 4;
        let mut j: usize = 0;
        while j < 12
            invariant
                j <= 12,
                0 <= a0 < 495,
                order == edge_numbers(slice_edge@),
                forall|t: int| 0 <= t < 4 ==> 8 <= #[trigger] edge_numbers(slice_edge@)[t] <= 11,
                (a as int, x as int) == slice_left(a0, j as int),
                self.cp == old(self).cp,
                self.co == old(self).co,
                self.eo == old(self).eo,
                forall|t: int|
                    0 <= t < j ==> self.ep[t] as int == (if slot_chosen(a0, t) {
                        order[placed(a0, t)]
                    } else {
                        12int
                    }),
                forall|t: int| j <= t < 12 ==> self.ep[t] == Edge::INV,
            decreases 12 - j,
        {
            proof {
                lemma_slice_left_bound(a0, j as int);
                lemma_slice_left_bound(a0, j + 1);
                lemma_binomial_small((11 - j) as nat, x as nat);
            }
            let c = c_nk(11 - j as u16, x);
            if a >= c as u32 {
                self.ep[j] = slice_edge[4 - x as usize];
                a -= c as u32;
                x -= 1;
            }
            j += 1;
        }

        let mut x: usize = 0;
        let mut j: usize = 0;
        while j < 12
            invariant
                j <= 12,
                0 <= a0 < 495,
                a0 == idx as int / 24,
                order == slice_arrangement(idx as int % 24),
                x == j - placed(a0, j as int),
                other_edge@ == seq![
                    Edge::UR,
                    Edge::UF,
                    Edge::UL,
                    Edge::UB,
                    Edge::DR,
                    Edge::DF,
                    Edge::DL,
                    Edge::DB,
                ],
                self.cp == old(self).cp,
                self.co == old(self).co,
                self.eo == old(self).eo,
                forall|t: int|
                    0 <= t < j ==> self.ep[t] as int == slice_sorted_edges(idx as int)[t],
                forall|t: int|
                    j <= t < 12 ==> self.ep[t] as int == (if slot_chosen(a0, t) {
                        order[placed(a0, t)]
                    } else {
                        12int
                    }),
                forall|t: int| 0 <= t < 4 ==> 8 <= #[trigger] order[t] <= 11,
            decreases 12 - j,
        {
            proof {
                lemma_slice_left_bound(a0, j as int);
                lemma_slice_left_bound(a0, j + 1);
                let (r, left) = slice_left(a0, j as int);
                assert(slice_left(a0, j + 1) == if slot_takes(r, left, j as int) {
                    (r - binomial((11 - j) as nat, left as nat), left - 1)
                } else {
                    (r, left)
                });
                assert(slot_chosen(a0, j as int) ==> 8 <= order[4 - left] <= 11);
                assert((self.ep[j as int] == Edge::INV) == !slot_chosen(a0, j as int));
            }
            if self.ep[j] == Edge::INV {
                self.ep[j] = other_edge[x];
                x += 1;
            }
            j += 1;
        }
        assert(self@.ep =~= slice_sorted_edges(idx as int));
        assert(self@.cp == old(self)@.cp);
        assert(self@.co == old(self)@.co);
        assert(self@.eo == old(self)@.eo);
    }
}

} // verus!
