//! The cube as a mathematical object: a permutation with orientations on
//! the eight corners and on the twelve edges, and the group operation on
//! such states.

use vstd::prelude::*;
use crate::parity::is_odd;

verus! {

/// A cube state over plain integers.
///
/// `cp[i]` is the corner in slot `i` and `co[i]` its orientation; `ep[i]` is
/// the edge in slot `i` and `eo[i]` its flip. Corners are numbered 0 to 7,
/// edges 0 to 11, both in the order of their enums; 12 stands for a slot that
/// holds no edge.
pub struct CubieState {
    pub cp: Seq<int>,
    pub co: Seq<int>,
    pub ep: Seq<int>,
    pub eo: Seq<int>,
}

/// `p` arranges the numbers `0..n`: each occurs in it, and none twice.
pub open spec fn is_permutation(p: Seq<int>, n: int) -> bool {
    &&& p.len() == n
    &&& forall|i: int| 0 <= i < n ==> 0 <= #[trigger] p[i] < n
    &&& forall|i: int, j: int| 0 <= i < j < n ==> p[i] != p[j]
}

/// The sum of the entries of `s` from index `from` on.
pub open spec fn sum_from(s: Seq<int>, from: int) -> int
    decreases s.len() - from,
{
    if from < 0 || from >= s.len() {
        0
    } else {
        s[from] + sum_from(s, from + 1)
    }
}

/// How two corner orientations combine when the corner with orientation `b`
/// is carried into a slot whose corner has orientation `a`.
///
/// Orientations 0, 1, 2 are rotations; 3, 4, 5 are the same rotations of a
/// mirrored corner. A mirrored `a` reverses the sense in which `b` turns.
pub open spec fn twist_join(a: int, b: int) -> int {
    if a < 3 && b < 3 {
        (a + b) % 3
    } else if a < 3 {
        3 + (a + (b - 3)) % 3
    } else if b < 3 {
        3 + ((a - 3) - b) % 3
    } else {
        ((a - 3) - (b - 3)) % 3
    }
}

impl CubieState {
    /// The solved cube: every cubie in its own slot, nothing twisted or flipped.
    pub open spec fn solved() -> CubieState {
        CubieState {
            cp: Seq::new(8, |i: int| i),
            co: Seq::new(8, |i: int| 0int),
            ep: Seq::new(12, |i: int| i),
            eo: Seq::new(12, |i: int| 0int),
        }
    }

    /// The corner half has the shape the group operation works on: every
    /// slot holds a corner and the orientations lie in `0..6`.
    pub open spec fn corners_well_formed(self) -> bool {
        &&& self.cp.len() == 8
        &&& self.co.len() == 8
        &&& forall|i: int| 0 <= i < 8 ==> 0 <= #[trigger] self.cp[i] < 8
        &&& forall|i: int| 0 <= i < 8 ==> 0 <= #[trigger] self.co[i] < 6
    }

    /// The edge half has the shape the group operation works on: every slot
    /// holds an edge and the flips lie in `0..2`.
    pub open spec fn edges_well_formed(self) -> bool {
        &&& self.ep.len() == 12
        &&& self.eo.len() == 12
        &&& forall|i: int| 0 <= i < 12 ==> 0 <= #[trigger] self.ep[i] < 12
        &&& forall|i: int| 0 <= i < 12 ==> 0 <= #[trigger] self.eo[i] < 2
    }

    /// Both halves have the shape the group operation works on.
    pub open spec fn well_formed(self) -> bool {
        self.corners_well_formed() && self.edges_well_formed()
    }

    /// No corner of the state is mirrored.
    pub open spec fn unmirrored(self) -> bool {
        forall|i: int| 0 <= i < 8 ==> 0 <= #[trigger] self.co[i] < 3
    }

    /// The corner part of `self ∘ b`, mirrored corners included; the edges are
    /// those of `self`.
    pub open spec fn corner_multiply(self, b: CubieState) -> CubieState {
        CubieState {
            cp: Seq::new(8, |i: int| self.cp[b.cp[i]]),
            co: Seq::new(8, |i: int| twist_join(self.co[b.cp[i]], b.co[i])),
            ep: self.ep,
            eo: self.eo,
        }
    }

    /// The corner part of `self ∘ b` with orientations added modulo 3, which
    /// is right where neither state has a mirrored corner.
    pub open spec fn corner_multiply_simple(self, b: CubieState) -> CubieState {
        CubieState {
            cp: Seq::new(8, |i: int| self.cp[b.cp[i]]),
            co: Seq::new(8, |i: int| (self.co[b.cp[i]] + b.co[i]) % 3),
            ep: self.ep,
            eo: self.eo,
        }
    }

    /// The edge part of `self ∘ b`; the corners are those of `self`.
    pub open spec fn edge_multiply(self, b: CubieState) -> CubieState {
        CubieState {
            cp: self.cp,
            co: self.co,
            ep: Seq::new(12, |i: int| self.ep[b.ep[i]]),
            eo: Seq::new(12, |i: int| (self.eo[b.ep[i]] + b.eo[i]) % 2),
        }
    }

    /// The composition `self ∘ b`: do `b`, then `self`.
    pub open spec fn multiply(self, b: CubieState) -> CubieState {
        self.corner_multiply(b).edge_multiply(b)
    }

    /// The state is one that a real cube can show: the corners and the
    /// edges are permutations of the same parity, no corner is mirrored, the
    /// corner orientations sum to a multiple of 3 and the edge flips to a
    /// multiple of 2.
    pub open spec fn consistent(self) -> bool {
        &&& self.well_formed()
        &&& self.unmirrored()
        &&& is_permutation(self.cp, 8)
        &&& is_permutation(self.ep, 12)
        &&& is_odd(self.cp) == is_odd(self.ep)
        &&& sum_from(self.co, 0) % 3 == 0
        &&& sum_from(self.eo, 0) % 2 == 0
    }
}

/// The quarter turn of a face as a state: the solved cube with that face
/// turned clockwise. Faces are numbered in the order U, R, F, D, L, B.
pub open spec fn basic_move(face: int) -> CubieState {
    if face == 0 {
        CubieState {
            cp: seq![3int, 0int, 1int, 2int, 4int, 5int, 6int, 7int],
            co: seq![0int, 0int, 0int, 0int, 0int, 0int, 0int, 0int],
            ep: seq![3int, 0int, 1int, 2int, 4int, 5int, 6int, 7int, 8int, 9int, 10int, 11int],
            eo: seq![0int, 0int, 0int, 0int, 0int, 0int, 0int, 0int, 0int, 0int, 0int, 0int],
        }
    } else if face == 1 {
        CubieState {
            cp: seq![4int, 1int, 2int, 0int, 7int, 5int, 6int, 3int],
            co: seq![2int, 0int, 0int, 1int, 1int, 0int, 0int, 2int],
            ep: seq![8int, 1int, 2int, 3int, 11int, 5int, 6int, 7int, 4int, 9int, 10int, 0int],
            eo: seq![0int, 0int, 0int, 0int, 0int, 0int, 0int, 0int, 0int, 0int, 0int, 0int],
        }
    } else if face == 2 {
        CubieState {
            cp: seq![1int, 5int, 2int, 3int, 0int, 4int, 6int, 7int],
            co: seq![1int, 2int, 0int, 0int, 2int, 1int, 0int, 0int],
            ep: seq![0int, 9int, 2int, 3int, 4int, 8int, 6int, 7int, 1int, 5int, 10int, 11int],
            eo: seq![0int, 1int, 0int, 0int, 0int, 1int, 0int, 0int, 1int, 1int, 0int, 0int],
        }
    } else if face == 3 {
        CubieState {
            cp: seq![0int, 1int, 2int, 3int, 5int, 6int, 7int, 4int],
            co: seq![0int, 0int, 0int, 0int, 0int, 0int, 0int, 0int],
            ep: seq![0int, 1int, 2int, 3int, 5int, 6int, 7int, 4int, 8int, 9int, 10int, 11int],
            eo: seq![0int, 0int, 0int, 0int, 0int, 0int, 0int, 0int, 0int, 0int, 0int, 0int],
        }
    } else if face == 4 {
        CubieState {
            cp: seq![0int, 2int, 6int, 3int, 4int, 1int, 5int, 7int],
            co: seq![0int, 1int, 2int, 0int, 0int, 2int, 1int, 0int],
            ep: seq![0int, 1int, 10int, 3int, 4int, 5int, 9int, 7int, 8int, 2int, 6int, 11int],
            eo: seq![0int, 0int, 0int, 0int, 0int, 0int, 0int, 0int, 0int, 0int, 0int, 0int],
        }
    } else {
        CubieState {
            cp: seq![0int, 1int, 3int, 7int, 4int, 5int, 2int, 6int],
            co: seq![0int, 0int, 1int, 2int, 0int, 0int, 2int, 1int],
            ep: seq![0int, 1int, 2int, 11int, 4int, 5int, 6int, 10int, 8int, 9int, 3int, 7int],
            eo: seq![0int, 0int, 0int, 1int, 0int, 0int, 0int, 1int, 0int, 0int, 1int, 1int],
        }
    }
}

/// `c` with the quarter turn of `face` applied `n` times.
pub open spec fn turned(c: CubieState, face: int, n: int) -> CubieState
    decreases n,
{
    if n <= 0 {
        c
    } else {
        turned(c, face, n - 1).multiply(basic_move(face))
    }
}

/// `c` after move `m`, which is `3 * face + turn`: the face is turned by a
/// quarter for turn 0, a half for turn 1 and three quarters for turn 2.
pub open spec fn apply_move(c: CubieState, m: int) -> CubieState {
    turned(c, m / 3, m % 3 + 1)
}

/// `c` after the moves of `ms`, the first of them first.
pub open spec fn apply_moves(c: CubieState, ms: Seq<int>) -> CubieState
    decreases ms.len(),
{
    if ms.len() == 0 {
        c
    } else {
        apply_move(apply_moves(c, ms.drop_last()), ms.last())
    }
}

} // verus!
