//! The three coordinates of a cube state, as functions of its orientation
//! and edge sequences, and the sequences that each coordinate value stands
//! for.

use vstd::prelude::*;
use crate::group::{CubieState, sum_from};
use crate::misc::{binomial, rotated_left, rotated_right};

verus! {

/// The number that the digits `d` spell in the given base, the most
/// significant digit first.
pub open spec fn digits_value(d: Seq<int>, base: int) -> int
    decreases d.len(),
{
    if d.len() == 0 {
        0
    } else {
        base * digits_value(d.drop_last(), base) + d.last()
    }
}

/// `v` with its `k` lowest digits in the given base dropped.
pub open spec fn shifted(v: int, base: int, k: int) -> int
    decreases k,
{
    if k <= 0 {
        v
    } else {
        shifted(v, base, k - 1) / base
    }
}

/// Digit `k` of `v` in the given base, digit 0 being the least significant.
pub open spec fn digit(v: int, base: int, k: int) -> int {
    shifted(v, base, k) % base
}

/// The `n` lowest digits of `v` in the given base, the most significant
/// first.
pub open spec fn digits_of(v: int, base: int, n: int) -> Seq<int> {
    Seq::new(n as nat, |i: int| digit(v, base, n - 1 - i))
}

/// The twist coordinate: the orientations of the first seven corners read as
/// a number in base 3.
pub open spec fn twist_coord(co: Seq<int>) -> int {
    digits_value(co.take(7), 3)
}

/// The corner orientations that twist coordinate `v` stands for: its seven
/// digits, and for the last corner what brings the sum to a multiple of 3.
pub open spec fn twist_orientations(v: int) -> Seq<int> {
    let d = digits_of(v, 3, 7);
    d.push((3 - sum_from(d, 0) % 3) % 3)
}

/// The flip coordinate: the flips of the first eleven edges read as a number
/// in base 2.
pub open spec fn flip_coord(eo: Seq<int>) -> int {
    digits_value(eo.take(11), 2)
}

/// The edge flips that flip coordinate `v` stands for: its eleven digits,
/// and for the last edge what brings the sum to a multiple of 2.
pub open spec fn flip_orientations(v: int) -> Seq<int> {
    let d = digits_of(v, 2, 11);
    d.push((2 - sum_from(d, 0) % 2) % 2)
}

/// Edges 8 to 11 (FR, FL, BL, BR) are those of the UD slice.
pub open spec fn is_slice_edge(e: int) -> bool {
    8 <= e <= 11
}

/// The number of slice edges in the slots from `from` on.
pub open spec fn slice_count(ep: Seq<int>, from: int) -> int
    decreases 12 - from,
{
    if from < 0 || from >= 12 {
        0
    } else {
        slice_count(ep, from + 1) + if is_slice_edge(ep[from]) {
            1int
        } else {
            0int
        }
    }
}

/// The position rank of the slice edges in the slots from `from` on: a slot
/// `j` that holds a slice edge adds C(11 - j, x + 1), where `x` slice edges
/// lie in the slots after it.
pub open spec fn slice_position(ep: Seq<int>, from: int) -> int
    decreases 12 - from,
{
    if from < 0 || from >= 12 {
        0
    } else {
        slice_position(ep, from + 1) + if is_slice_edge(ep[from]) {
            binomial((11 - from) as nat, (slice_count(ep, from + 1) + 1) as nat) as int
        } else {
            0int
        }
    }
}

/// The slice edges in the slots from `from` on, in the order of their slots.
pub open spec fn slice_order(ep: Seq<int>, from: int) -> Seq<int>
    decreases 12 - from,
{
    if from < 0 || from >= 12 {
        Seq::empty()
    } else if is_slice_edge(ep[from]) {
        seq![ep[from]] + slice_order(ep, from + 1)
    } else {
        slice_order(ep, from + 1)
    }
}

/// `e` holds each of the four slice edges once.
pub open spec fn is_slice_arrangement(e: Seq<int>) -> bool {
    &&& e.len() == 4
    &&& forall|i: int| 0 <= i < 4 ==> is_slice_edge(#[trigger] e[i])
    &&& forall|i: int, j: int| 0 <= i < j < 4 ==> e[i] != e[j]
}

/// The index at which `v` stands in a sequence of four that holds it.
pub open spec fn place_of(e: Seq<int>, v: int) -> int {
    if e[0] == v {
        0
    } else if e[1] == v {
        1
    } else if e[2] == v {
        2
    } else {
        3
    }
}

/// `e` after `n` rotations of `e[0..=right]` to the left.
pub open spec fn rotated_left_by(e: Seq<int>, right: int, n: int) -> Seq<int>
    decreases n,
{
    if n <= 0 {
        e
    } else {
        rotated_left(rotated_left_by(e, right, n - 1), 0, right)
    }
}

/// `e` after `n` rotations of `e[0..=right]` to the right.
pub open spec fn rotated_right_by(e: Seq<int>, right: int, n: int) -> Seq<int>
    decreases n,
{
    if n <= 0 {
        e
    } else {
        rotated_right(rotated_right_by(e, right, n - 1), 0, right)
    }
}

/// The least number of left rotations of `e[0..=j]` after which slice edge
/// `8 + j` stands at index `j`.
pub open spec fn turns_to_place(e: Seq<int>, j: int) -> int {
    (place_of(e, 8 + j) + 1) % (j + 1)
}

/// The order rank of an arrangement of the four slice edges, a number below
/// 24 in the factorial base: BR is turned into the last place, then BL into
/// the third and FL into the second, and the numbers of turns are the digits.
pub open spec fn order_rank(e: Seq<int>) -> int {
    let k3 = turns_to_place(e, 3);
    let e3 = rotated_left_by(e, 3, k3);
    let k2 = turns_to_place(e3, 2);
    let e2 = rotated_left_by(e3, 2, k2);
    let k1 = turns_to_place(e2, 1);
    (k3 * 3 + k2) * 2 + k1
}

/// The arrangement of the four slice edges with order rank `b`.
pub open spec fn slice_arrangement(b: int) -> Seq<int> {
    let e1 = rotated_right_by(seq![8int, 9int, 10int, 11int], 1, b % 2);
    let e2 = rotated_right_by(e1, 2, (b / 2) % 3);
    rotated_right_by(e2, 3, (b / 6) % 4)
}

/// The slice coordinate: where the four slice edges lie, whatever their
/// order. It is below 495 when exactly four slots hold a slice edge.
pub open spec fn slice_coord(ep: Seq<int>) -> int {
    slice_position(ep, 0)
}

/// The sorted slice coordinate: where the four slice edges lie, and in which
/// order.
pub open spec fn slice_sorted_coord(ep: Seq<int>) -> int {
    24 * slice_position(ep, 0) + order_rank(slice_order(ep, 0))
}

/// What is left to place before slot `j` when the slots are filled from
/// slot 0 on for position rank `a`: the rest of the rank, and the number of
/// slice edges not placed yet. Slot `j` takes a slice edge when the rest of
/// the rank reaches C(11 - j, x), `x` edges being left.
pub open spec fn slice_left(a: int, j: int) -> (int, int)
    decreases j,
{
    if j <= 0 {
        (a, 4)
    } else {
        let (r, x) = slice_left(a, j - 1);
        if slot_takes(r, x, j - 1) {
            (r - binomial((12 - j) as nat, x as nat), x - 1)
        } else {
            (r, x)
        }
    }
}

/// Slot `j` takes a slice edge when rank `r` is left with `x` edges to place.
pub open spec fn slot_takes(r: int, x: int, j: int) -> bool {
    x > 0 && r >= binomial((11 - j) as nat, x as nat)
}

/// Slot `j` holds a slice edge in the placement with position rank `a`.
pub open spec fn slot_chosen(a: int, j: int) -> bool {
    slot_takes(slice_left(a, j).0, slice_left(a, j).1, j)
}

/// The number of slice edges placed before slot `j` for position rank `a`.
pub open spec fn placed(a: int, j: int) -> int {
    4 - slice_left(a, j).1
}

/// The edge sequence that sorted slice coordinate `idx` stands for: the
/// slice edges in the slots that `idx / 24` chooses and in the order that
/// `idx % 24` gives, the other eight edges in the slots between, in
/// ascending order.
pub open spec fn slice_sorted_edges(idx: int) -> Seq<int> {
    let order = slice_arrangement(idx % 24);
    let a = idx / 24;
    Seq::new(
        12,
        |j: int|
            if slot_chosen(a, j) {
                order[placed(a, j)]
            } else {
                j - placed(a, j)
            },
    )
}

impl CubieState {
    /// The state with its corner orientations set from twist coordinate `v`.
    pub open spec fn with_twist(self, v: int) -> CubieState {
        CubieState { co: twist_orientations(v), ..self }
    }

    /// The state with its edge flips set from flip coordinate `v`.
    pub open spec fn with_flip(self, v: int) -> CubieState {
        CubieState { eo: flip_orientations(v), ..self }
    }

    /// The state with its edges set from sorted slice coordinate `idx`.
    pub open spec fn with_slice_sorted(self, idx: int) -> CubieState {
        CubieState { ep: slice_sorted_edges(idx), ..self }
    }
}

} // verus!
