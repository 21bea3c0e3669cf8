//! Facts about the coordinates: what the decoding of a sorted slice
//! coordinate leaves to place, and that each coordinate is read back as it
//! was set.

use vstd::prelude::*;
use crate::coord::{
    digit, digits_of, digits_value, flip_coord, flip_orientations, is_slice_arrangement,
    is_slice_edge, order_rank, place_of, placed, rotated_left_by, rotated_right_by, shifted,
    slice_arrangement, slice_coord, slice_count, slice_left, slice_order, slice_position,
    slice_sorted_coord, slice_sorted_edges, slot_chosen, slot_takes, turns_to_place, twist_coord,
    twist_orientations,
};
use crate::group::{CubieState, is_permutation, sum_from};
use crate::group_lemmas::lemma_sum_drop_last;
use crate::misc::{binomial, lemma_binomial_12_4, lemma_binomial_zero, rotated_left, rotated_right};
use vstd::set_lib::{lemma_int_range, lemma_subset_equality, set_int_range};

verus! {

/// While the slots are filled for a position rank below 495, the rest of the
/// rank stays below the number of ways to place the edges that are left in
/// the slots that are left; so no more edges are left than slots.
pub proof fn lemma_slice_left_bound(a: int, j: int)
    requires
        0 <= a < 495,
        0 <= j <= 12,
    ensures
        0 <= slice_left(a, j).0 < binomial((12 - j) as nat, slice_left(a, j).1 as nat),
        0 <= slice_left(a, j).1 <= 4,
        slice_left(a, j).1 <= 12 - j,
        4 - slice_left(a, j).1 <= j,
    decreases j,
{
    if j == 0 {
        lemma_binomial_12_4();
    } else {
        lemma_slice_left_bound(a, j - 1);
        let (r, x) = slice_left(a, j - 1);
        let n = (12 - j) as nat;
        assert(binomial(n + 1, x as nat) == if x == 0 {
            1
        } else {
            binomial(n, (x - 1) as nat) + binomial(n, x as nat)
        });
        if slot_takes(r, x, j - 1) {
            assert(slice_left(a, j) == (r - binomial(n, x as nat), x - 1));
        } else {
            assert(slice_left(a, j) == (r, x));
        }
    }
    let (r, x) = slice_left(a, j);
    if x > 12 - j {
        lemma_binomial_zero((12 - j) as nat, x as nat);
    }
}

/// From any slot on, the slice edges found are as many as are counted, and
/// no more than there are slots.
pub proof fn lemma_slice_count_bounds(ep: Seq<int>, from: int)
    requires
        0 <= from <= 12,
    ensures
        0 <= slice_count(ep, from) <= 12 - from,
        slice_order(ep, from).len() == slice_count(ep, from),
        forall|i: int|
            0 <= i < slice_order(ep, from).len() ==> is_slice_edge(
                #[trigger] slice_order(ep, from)[i],
            ),
    decreases 12 - from,
{
    if from < 12 {
        lemma_slice_count_bounds(ep, from + 1);
    }
}

/// A later slot has no more slice edges after it than an earlier one.
pub proof fn lemma_slice_count_rising(ep: Seq<int>, lo: int, hi: int)
    requires
        0 <= lo <= hi <= 12,
    ensures
        slice_count(ep, hi) <= slice_count(ep, lo),
    decreases hi - lo,
{
    if lo < hi {
        lemma_slice_count_rising(ep, lo + 1, hi);
    }
}

/// The position rank of the slice edges from a slot on is below the number
/// of ways to place that many edges in the slots from there on.
pub proof fn lemma_slice_position_bound(ep: Seq<int>, from: int)
    requires
        0 <= from <= 12,
    ensures
        0 <= slice_position(ep, from) < binomial(
            (12 - from) as nat,
            slice_count(ep, from) as nat,
        ),
    decreases 12 - from,
{
    lemma_slice_count_bounds(ep, from);
    if from < 12 {
        lemma_slice_position_bound(ep, from + 1);
        lemma_slice_count_bounds(ep, from + 1);
        let n = (11 - from) as nat;
        let c = slice_count(ep, from + 1) as nat;
        assert(binomial(n + 1, c + 1) == binomial(n, c) + binomial(n, c + 1));
        assert(binomial(n + 1, c) >= binomial(n, c));
    }
}

/// An arrangement of the four slice edges holds each of them, at its place.
pub proof fn lemma_arrangement_holds(e: Seq<int>, v: int)
    requires
        is_slice_arrangement(e),
        is_slice_edge(v),
    ensures
        0 <= place_of(e, v) < 4,
        e[place_of(e, v)] == v,
{
    assert(is_slice_edge(e[0]) && is_slice_edge(e[1]) && is_slice_edge(e[2]) && is_slice_edge(
        e[3],
    ));
    assert(e[0] != e[1] && e[0] != e[2] && e[0] != e[3]);
    assert(e[1] != e[2] && e[1] != e[3] && e[2] != e[3]);
}

/// One rotation of the first `j + 1` places to the left keeps an
/// arrangement an arrangement and moves each of its edges one place down,
/// the first to place `j`.
pub proof fn lemma_turn_left(e: Seq<int>, j: int, v: int)
    requires
        is_slice_arrangement(e),
        1 <= j <= 3,
        is_slice_edge(v),
        place_of(e, v) <= j,
    ensures
        is_slice_arrangement(rotated_left(e, 0, j)),
        place_of(rotated_left(e, 0, j), v) == (if place_of(e, v) == 0 {
            j
        } else {
            place_of(e, v) - 1
        }),
        forall|t: int| j < t < 4 ==> rotated_left(e, 0, j)[t] == e[t],
{
    let n = rotated_left(e, 0, j);
    lemma_arrangement_holds(e, v);
    assert(n.len() == 4);
    assert(n[0] == (if j == 0 {
        e[0]
    } else {
        e[1]
    }));
    assert(n[1] == (if j == 1 {
        e[0]
    } else if j > 1 {
        e[2]
    } else {
        e[1]
    }));
    assert(n[2] == (if j == 2 {
        e[0]
    } else if j > 2 {
        e[3]
    } else {
        e[2]
    }));
    assert(n[3] == (if j == 3 {
        e[0]
    } else {
        e[3]
    }));
    assert(e[0] != e[1] && e[0] != e[2] && e[0] != e[3]);
    assert(e[1] != e[2] && e[1] != e[3] && e[2] != e[3]);
}

/// One rotation of the first `j + 1` places to the right keeps an
/// arrangement an arrangement and moves each of its edges one place up,
/// the one at place `j` to the first.
pub proof fn lemma_turn_right(e: Seq<int>, j: int, v: int)
    requires
        is_slice_arrangement(e),
        1 <= j <= 3,
        is_slice_edge(v),
        place_of(e, v) <= j,
    ensures
        is_slice_arrangement(rotated_right(e, 0, j)),
        place_of(rotated_right(e, 0, j), v) == (if place_of(e, v) == j {
            0
        } else {
            place_of(e, v) + 1
        }),
        forall|t: int| j < t < 4 ==> rotated_right(e, 0, j)[t] == e[t],
        rotated_left(rotated_right(e, 0, j), 0, j) == e,
{
    let n = rotated_right(e, 0, j);
    lemma_arrangement_holds(e, v);
    assert(n.len() == 4);
    assert(n[0] == e[j]);
    assert(n[1] == (if j >= 1 {
        e[0]
    } else {
        e[1]
    }));
    assert(n[2] == (if j >= 2 {
        e[1]
    } else {
        e[2]
    }));
    assert(n[3] == (if j >= 3 {
        e[2]
    } else {
        e[3]
    }));
    assert(e[0] != e[1] && e[0] != e[2] && e[0] != e[3]);
    assert(e[1] != e[2] && e[1] != e[3] && e[2] != e[3]);
    assert(rotated_left(n, 0, j) =~= e);
}

/// Dropping one digit and then `k` more is dropping `k` and then one.
pub proof fn lemma_shifted_inner(v: int, base: int, k: int)
    requires
        k >= 0,
    ensures
        shifted(v / base, base, k) == shifted(v, base, k + 1),
    decreases k,
{
    if k > 0 {
        lemma_shifted_inner(v, base, k - 1);
        assert(shifted(v / base, base, k) == shifted(v / base, base, k - 1) / base);
        assert(shifted(v, base, k + 1) == shifted(v, base, k) / base);
    } else {
        assert(shifted(v, base, 0) == v);
        assert(shifted(v, base, 1) == shifted(v, base, 0) / base);
    }
}

/// A number that has no more than `n` digits is the value of its `n`
/// digits.
pub proof fn lemma_digits_round_trip(v: int, base: int, n: int)
    requires
        base >= 2,
        n >= 0,
        v >= 0,
        shifted(v, base, n) == 0,
    ensures
        digits_value(digits_of(v, base, n), base) == v,
    decreases n,
{
    let d = digits_of(v, base, n);
    if n > 0 {
        let w = v / base;
        lemma_shifted_inner(v, base, n - 1);
        lemma_digits_round_trip(w, base, n - 1);
        assert forall|i: int| 0 <= i < n - 1 implies d.drop_last()[i] == digits_of(
            w,
            base,
            n - 1,
        )[i] by {
            lemma_shifted_inner(v, base, n - 2 - i);
        }
        assert(d.drop_last() =~= digits_of(w, base, n - 1));
        assert(d.last() == v % base);
        assert(v == base * (v / base) + v % base) by (nonlinear_arith)
            requires
                base >= 2,
        ;
    }
}

/// A twist coordinate is read back from the orientations it stands for.
pub proof fn lemma_twist_round_trip(v: int)
    requires
        0 <= v < 2187,
    ensures
        twist_coord(twist_orientations(v)) == v,
{
    assert(shifted(v, 3, 7) == 0) by {
        reveal_with_fuel(shifted, 8);
    }
    lemma_digits_round_trip(v, 3, 7);
    assert(twist_orientations(v).take(7) =~= digits_of(v, 3, 7));
}

/// A flip coordinate is read back from the flips it stands for.
pub proof fn lemma_flip_round_trip(v: int)
    requires
        0 <= v < 2048,
    ensures
        flip_coord(flip_orientations(v)) == v,
{
    assert(shifted(v, 2, 11) == 0) by {
        reveal_with_fuel(shifted, 12);
    }
    lemma_digits_round_trip(v, 2, 11);
    assert(flip_orientations(v).take(11) =~= digits_of(v, 2, 11));
}

/// A permutation of `0..n` holds every number below `n`.
pub proof fn lemma_permutation_onto(p: Seq<int>, n: int, v: int)
    requires
        is_permutation(p, n),
        0 <= v < n,
    ensures
        exists|i: int| 0 <= i < n && p[i] == v,
{
    assert(p.no_duplicates()) by {
        assert forall|i: int, j: int| 0 <= i < p.len() && 0 <= j < p.len() && i != j implies p[i]
            != p[j] by {
            if i < j {
                assert(p[i] != p[j]);
            } else {
                assert(p[j] != p[i]);
            }
        }
    }
    p.unique_seq_to_set();
    lemma_int_range(0, n);
    assert(p.to_set().subset_of(set_int_range(0, n))) by {
        assert forall|x: int| p.to_set().contains(x) implies set_int_range(0, n).contains(x) by {
            let i = choose|i: int| 0 <= i < p.len() && p[i] == x;
            assert(0 <= p[i] < n);
        }
    }
    vstd::seq_lib::seq_to_set_is_finite(p);
    lemma_subset_equality(p.to_set(), set_int_range(0, n));
    assert(set_int_range(0, n).contains(v));
    assert(p.to_set().contains(v));
    assert(p.contains(v));
}

/// The slot of the `i`-th slice edge among the slots from `from` on.
pub open spec fn slice_slot(ep: Seq<int>, from: int, i: int) -> int
    decreases 12 - from,
{
    if from < 0 || from >= 12 {
        12
    } else if is_slice_edge(ep[from]) {
        if i <= 0 {
            from
        } else {
            slice_slot(ep, from + 1, i - 1)
        }
    } else {
        slice_slot(ep, from + 1, i)
    }
}

/// The `i`-th slice edge from a slot on lies in its slot, and later ones in
/// later slots.
pub proof fn lemma_slice_slot(ep: Seq<int>, from: int, i: int, j: int)
    requires
        0 <= from <= 12,
        0 <= i <= j < slice_count(ep, from),
    ensures
        from <= slice_slot(ep, from, i) < 12,
        ep[slice_slot(ep, from, i)] == slice_order(ep, from)[i],
        i < j ==> slice_slot(ep, from, i) < slice_slot(ep, from, j),
        i == j ==> slice_slot(ep, from, i) == slice_slot(ep, from, j),
    decreases 12 - from,
{
    lemma_slice_count_bounds(ep, from);
    if from < 12 {
        lemma_slice_count_bounds(ep, from + 1);
        if is_slice_edge(ep[from]) {
            if i > 0 {
                lemma_slice_slot(ep, from + 1, i - 1, j - 1);
            } else if j > 0 {
                lemma_slice_slot(ep, from + 1, j - 1, j - 1);
            }
        } else {
            lemma_slice_slot(ep, from + 1, i, j);
        }
    }
}

/// A slice edge in a slot at or after `from` is among the slice edges found
/// from there on.
pub proof fn lemma_slice_order_holds(ep: Seq<int>, from: int, slot: int)
    requires
        0 <= from <= slot < 12,
        is_slice_edge(ep[slot]),
    ensures
        exists|i: int| 0 <= i < slice_order(ep, from).len() && slice_order(ep, from)[i] == ep[slot],
    decreases 12 - from,
{
    let o = slice_order(ep, from);
    if from == slot {
        assert(o[0] == ep[slot]);
    } else {
        lemma_slice_order_holds(ep, from + 1, slot);
        let rest = slice_order(ep, from + 1);
        let i = choose|i: int| 0 <= i < rest.len() && rest[i] == ep[slot];
        if is_slice_edge(ep[from]) {
            assert(o[i + 1] == rest[i]);
        } else {
            assert(o[i] == rest[i]);
        }
    }
}

/// In a permutation of the twelve edges each slice edge lies in exactly one
/// slot: the slice edges read off in slot order are an arrangement.
pub proof fn lemma_permutation_slice_arrangement(ep: Seq<int>)
    requires
        is_permutation(ep, 12),
    ensures
        is_slice_arrangement(slice_order(ep, 0)),
        slice_count(ep, 0) == 4,
{
    let o = slice_order(ep, 0);
    lemma_slice_count_bounds(ep, 0);
    assert forall|i: int, j: int| 0 <= i < j < o.len() implies o[i] != o[j] by {
        lemma_slice_slot(ep, 0, i, j);
        lemma_slice_slot(ep, 0, j, j);
        assert(ep[slice_slot(ep, 0, i)] != ep[slice_slot(ep, 0, j)]);
    }
    if o.len() > 4 {
        assert(is_slice_edge(o[0]) && is_slice_edge(o[1]) && is_slice_edge(o[2]) && is_slice_edge(
            o[3],
        ) && is_slice_edge(o[4]));
        assert(o[0] != o[1] && o[0] != o[2] && o[0] != o[3] && o[0] != o[4]);
        assert(o[1] != o[2] && o[1] != o[3] && o[1] != o[4]);
        assert(o[2] != o[3] && o[2] != o[4] && o[3] != o[4]);
        assert(false);
    }
    lemma_permutation_onto(ep, 12, 8);
    lemma_permutation_onto(ep, 12, 9);
    lemma_permutation_onto(ep, 12, 10);
    lemma_permutation_onto(ep, 12, 11);
    let s8 = choose|i: int| 0 <= i < 12 && ep[i] == 8;
    let s9 = choose|i: int| 0 <= i < 12 && ep[i] == 9;
    let s10 = choose|i: int| 0 <= i < 12 && ep[i] == 10;
    let s11 = choose|i: int| 0 <= i < 12 && ep[i] == 11;
    lemma_slice_order_holds(ep, 0, s8);
    lemma_slice_order_holds(ep, 0, s9);
    lemma_slice_order_holds(ep, 0, s10);
    lemma_slice_order_holds(ep, 0, s11);
    let i8 = choose|i: int| 0 <= i < o.len() && o[i] == 8;
    let i9 = choose|i: int| 0 <= i < o.len() && o[i] == 9;
    let i10 = choose|i: int| 0 <= i < o.len() && o[i] == 10;
    let i11 = choose|i: int| 0 <= i < o.len() && o[i] == 11;
    assert(i8 != i9 && i8 != i10 && i8 != i11 && i9 != i10 && i9 != i11 && i10 != i11);
    assert(o.len() >= 4);
}

/// Rotating `n` times to the left is rotating once and then `n - 1` times.
pub proof fn lemma_left_by_shift(e: Seq<int>, j: int, n: int)
    requires
        n >= 1,
    ensures
        rotated_left_by(e, j, n) == rotated_left_by(rotated_left(e, 0, j), j, n - 1),
    decreases n,
{
    if n > 1 {
        lemma_left_by_shift(e, j, n - 1);
    } else {
        assert(rotated_left_by(e, j, 0) == e);
        assert(rotated_left_by(rotated_left(e, 0, j), j, 0) == rotated_left(e, 0, j));
    }
}

/// What `k` rotations of the first `j + 1` places to the right do to an
/// arrangement that has edge `8 + j` at place `j`: the places after `j`
/// stay, exactly `k` rotations to the left bring the edge back to place
/// `j`, and they undo the whole.
pub proof fn lemma_right_by(s: Seq<int>, j: int, k: int)
    requires
        is_slice_arrangement(s),
        1 <= j <= 3,
        s[j] == 8 + j,
        0 <= k <= j,
    ensures
        is_slice_arrangement(rotated_right_by(s, j, k)),
        forall|t: int| j < t < 4 ==> rotated_right_by(s, j, k)[t] == s[t],
        place_of(rotated_right_by(s, j, k), 8 + j) == (if k == 0 {
            j
        } else {
            k - 1
        }),
        turns_to_place(rotated_right_by(s, j, k), j) == k,
        rotated_left_by(rotated_right_by(s, j, k), j, k) == s,
    decreases k,
{
    let e = rotated_right_by(s, j, k);
    if k == 0 {
        assert(e == s);
        lemma_arrangement_holds(s, 8 + j);
        assert(place_of(s, 8 + j) == j) by {
            assert(s[0] != s[1] && s[0] != s[2] && s[0] != s[3]);
            assert(s[1] != s[2] && s[1] != s[3] && s[2] != s[3]);
        }
        assert(rotated_left_by(e, j, 0) == e);
    } else {
        let d = rotated_right_by(s, j, k - 1);
        lemma_right_by(s, j, k - 1);
        assert(e == rotated_right(d, 0, j));
        lemma_turn_right(d, j, 8 + j);
        lemma_left_by_shift(e, j, k);
    }
    let p = place_of(e, 8 + j);
    assert((p + 1) % (j + 1) == k) by {
        if j == 1 {
            assert((p + 1) % 2 == k);
        } else if j == 2 {
            assert((p + 1) % 3 == k);
        } else {
            assert((p + 1) % 4 == k);
        }
    }
}

/// An order rank below 24 stands for an arrangement of the four slice
/// edges, and that arrangement has this rank.
pub proof fn lemma_order_round_trip(b: int)
    requires
        0 <= b < 24,
    ensures
        is_slice_arrangement(slice_arrangement(b)),
        order_rank(slice_arrangement(b)) == b,
{
    let init = seq![8int, 9int, 10int, 11int];
    let k1 = b % 2;
    let k2 = (b / 2) % 3;
    let k3 = (b / 6) % 4;
    let e1 = rotated_right_by(init, 1, k1);
    let e2 = rotated_right_by(e1, 2, k2);
    let e3 = rotated_right_by(e2, 3, k3);
    assert(is_slice_arrangement(init));
    lemma_right_by(init, 1, k1);
    lemma_right_by(e1, 2, k2);
    lemma_right_by(e2, 3, k3);
    assert(e3 == slice_arrangement(b));
    assert(turns_to_place(e3, 3) == k3);
    assert(rotated_left_by(e3, 3, k3) == e2);
    assert(turns_to_place(e2, 2) == k2);
    assert(rotated_left_by(e2, 2, k2) == e1);
    assert(turns_to_place(e1, 1) == k1);
    assert((k3 * 3 + k2) * 2 + k1 == b);
}

/// One slot on, one more edge is placed if the slot was chosen, else none.
pub proof fn lemma_placed_step(a: int, j: int)
    requires
        0 <= a < 495,
        0 <= j < 12,
    ensures
        placed(a, j + 1) == placed(a, j) + (if slot_chosen(a, j) {
            1int
        } else {
            0int
        }),
        slice_left(a, j + 1).0 == slice_left(a, j).0 - (if slot_chosen(a, j) {
            binomial((11 - j) as nat, slice_left(a, j).1 as nat) as int
        } else {
            0int
        }),
        0 <= placed(a, j) <= 4,
        slot_chosen(a, j) ==> placed(a, j) <= 3,
        !slot_chosen(a, j) ==> 0 <= j - placed(a, j) <= 7,
{
    lemma_slice_left_bound(a, j);
    lemma_slice_left_bound(a, j + 1);
    let (r, x) = slice_left(a, j);
    assert(slice_left(a, j + 1) == if slot_takes(r, x, j) {
        (r - binomial((11 - j) as nat, x as nat), x - 1)
    } else {
        (r, x)
    });
}

/// Between two slots no more edges are placed than there are slots, and
/// fewer if the first of them was not chosen; at least one if it was.
pub proof fn lemma_placed_between(a: int, i: int, j: int)
    requires
        0 <= a < 495,
        0 <= i < j <= 12,
    ensures
        placed(a, i) <= placed(a, j),
        placed(a, j) - placed(a, i) <= j - i,
        slot_chosen(a, i) ==> placed(a, i) < placed(a, j),
        !slot_chosen(a, i) ==> placed(a, j) - placed(a, i) < j - i,
    decreases j - i,
{
    lemma_placed_step(a, i);
    if i + 1 < j {
        lemma_placed_between(a, i, j - 1);
        lemma_placed_step(a, j - 1);
    }
}

/// A sorted slice coordinate stands for a permutation of the twelve edges.
pub proof fn lemma_slice_sorted_edges_permutation(idx: int)
    requires
        0 <= idx < 11880,
    ensures
        is_permutation(slice_sorted_edges(idx), 12),
{
    let e = slice_sorted_edges(idx);
    let a = idx / 24;
    let order = slice_arrangement(idx % 24);
    lemma_order_round_trip(idx % 24);
    assert forall|j: int| 0 <= j < 12 implies 0 <= #[trigger] e[j] < 12 && (slot_chosen(a, j)
        <==> is_slice_edge(e[j])) by {
        lemma_placed_step(a, j);
        if slot_chosen(a, j) {
            assert(is_slice_edge(order[placed(a, j)]));
        }
    }
    assert forall|i: int, j: int| 0 <= i < j < 12 implies e[i] != e[j] by {
        lemma_placed_step(a, i);
        lemma_placed_step(a, j);
        lemma_placed_between(a, i, j);
        if slot_chosen(a, i) && slot_chosen(a, j) {
            assert(order[placed(a, i)] != order[placed(a, j)]);
        } else if slot_chosen(a, i) {
            assert(is_slice_edge(order[placed(a, i)]));
        } else if slot_chosen(a, j) {
            assert(is_slice_edge(order[placed(a, j)]));
        }
    }
}

/// From any slot on, the edges that a sorted slice coordinate stands for
/// hold as many slice edges as are left to place there, in the order that
/// is left, and their position rank is the rest of the rank.
pub proof fn lemma_slice_sorted_edges_from(idx: int, j: int)
    requires
        0 <= idx < 11880,
        0 <= j <= 12,
    ensures
        slice_count(slice_sorted_edges(idx), j) == slice_left(idx / 24, j).1,
        slice_position(slice_sorted_edges(idx), j) == slice_left(idx / 24, j).0,
        slice_order(slice_sorted_edges(idx), j) == slice_arrangement(idx % 24).subrange(
            placed(idx / 24, j),
            4,
        ),
    decreases 12 - j,
{
    let e = slice_sorted_edges(idx);
    let a = idx / 24;
    let order = slice_arrangement(idx % 24);
    lemma_order_round_trip(idx % 24);
    lemma_slice_left_bound(a, j);
    if j == 12 {
        if slice_left(a, 12).1 > 0 {
            lemma_binomial_zero(0, slice_left(a, 12).1 as nat);
        }
        assert(slice_order(e, 12) =~= order.subrange(4, 4));
    } else {
        lemma_slice_sorted_edges_from(idx, j + 1);
        lemma_placed_step(a, j);
        lemma_slice_left_bound(a, j + 1);
        if slot_chosen(a, j) {
            assert(is_slice_edge(order[placed(a, j)]));
            assert(e[j] == order[placed(a, j)]);
            assert(slice_order(e, j) =~= order.subrange(placed(a, j), 4));
        } else {
            assert(e[j] == j - placed(a, j));
            assert(!is_slice_edge(e[j]));
        }
    }
}

/// A sorted slice coordinate is read back from the edges it stands for.
pub proof fn lemma_slice_sorted_round_trip(idx: int)
    requires
        0 <= idx < 11880,
    ensures
        slice_sorted_coord(slice_sorted_edges(idx)) == idx,
        slice_coord(slice_sorted_edges(idx)) == idx / 24,
{
    lemma_slice_sorted_edges_from(idx, 0);
    lemma_order_round_trip(idx % 24);
    let order = slice_arrangement(idx % 24);
    assert(order.subrange(0, 4) =~= order);
}

/// Digits followed by what brings their sum to a multiple of the base sum
/// to a multiple of the base.
pub proof fn lemma_parity_restored(d: Seq<int>, base: int)
    requires
        base == 2 || base == 3,
    ensures
        sum_from(d.push((base - sum_from(d, 0) % base) % base), 0) % base == 0,
{
    let last = (base - sum_from(d, 0) % base) % base;
    let all = d.push(last);
    lemma_sum_drop_last(all, 0);
    assert(all.drop_last() =~= d);
}

/// Each coordinate is read back as it was set, whatever cube it was set
/// on: reading the twist of a cube given twist `v` gives `v`, and so for
/// the flip and the sorted slice coordinate.
pub proof fn lemma_coordinates_round_trip(c: CubieState, v: int)
    ensures
        0 <= v < 2187 ==> twist_coord(c.with_twist(v).co) == v,
        0 <= v < 2048 ==> flip_coord(c.with_flip(v).eo) == v,
        0 <= v < 11880 ==> slice_sorted_coord(c.with_slice_sorted(v).ep) == v,
{
    if 0 <= v < 2187 {
        lemma_twist_round_trip(v);
    }
    if 0 <= v < 2048 {
        lemma_flip_round_trip(v);
    }
    if 0 <= v < 11880 {
        lemma_slice_sorted_round_trip(v);
    }
}

} // verus!
