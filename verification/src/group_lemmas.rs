//! Laws of the group operation on cube states.

use vstd::prelude::*;
use crate::group::{
    apply_moves, basic_move, is_permutation, sum_from, turned, twist_join, CubieState,
};
use crate::parity::{
    is_odd, lemma_basic_move_corner_parity, lemma_basic_move_edge_parity, lemma_product_parity,
    lemma_solved_parity,
};

verus! {

/// The product of two states of the right shape has that shape, and no
/// mirrored corner where neither factor has one.
pub proof fn lemma_multiply_well_formed(a: CubieState, b: CubieState)
    requires
        a.well_formed(),
        b.well_formed(),
    ensures
        a.multiply(b).well_formed(),
        a.corner_multiply(b).corners_well_formed(),
        a.corner_multiply_simple(b).corners_well_formed(),
        a.edge_multiply(b).edges_well_formed(),
        a.unmirrored() && b.unmirrored() ==> a.multiply(b).unmirrored(),
{
    let c = a.corner_multiply(b);
    assert forall|i: int| 0 <= i < 8 implies 0 <= #[trigger] c.cp[i] < 8 && 0 <= c.co[i] < 6 by {
        assert(0 <= b.cp[i] < 8);
        assert(0 <= a.co[b.cp[i]] < 6);
        assert(0 <= b.co[i] < 6);
    }
    let s = a.corner_multiply_simple(b);
    assert forall|i: int| 0 <= i < 8 implies 0 <= #[trigger] s.cp[i] < 8 && 0 <= s.co[i] < 6 by {
        assert(0 <= b.cp[i] < 8);
    }
    let e = a.edge_multiply(b);
    assert forall|i: int| 0 <= i < 12 implies 0 <= #[trigger] e.ep[i] < 12 && 0 <= e.eo[i] < 2 by {
        assert(0 <= b.ep[i] < 12);
    }
    if a.unmirrored() && b.unmirrored() {
        assert forall|i: int| 0 <= i < 8 implies 0 <= #[trigger] a.multiply(b).co[i] < 3 by {
            assert(0 <= b.cp[i] < 8);
            assert(0 <= a.co[b.cp[i]] < 3);
            assert(0 <= b.co[i] < 3);
        }
    }
}

/// Joining corner orientations is associative.
pub proof fn lemma_twist_join_associative(a: int, b: int, c: int)
    requires
        0 <= a < 6,
        0 <= b < 6,
        0 <= c < 6,
    ensures
        0 <= twist_join(a, b) < 6,
        twist_join(twist_join(a, b), c) == twist_join(a, twist_join(b, c)),
{
    let ab = twist_join(a, b);
    let bc = twist_join(b, c);
    lemma_twist_join_stepwise(a, b);
    lemma_twist_join_stepwise(b, c);
    lemma_twist_join_stepwise(ab, c);
    lemma_twist_join_stepwise(a, bc);
    lemma_join_stepwise_associative(a, b, c);
}

/// `twist_join` written with comparisons in place of remainders.
pub open spec fn join_stepwise(a: int, b: int) -> int {
    if a < 3 && b < 3 {
        if a + b >= 3 {
            a + b - 3
        } else {
            a + b
        }
    } else if a < 3 {
        if a + b >= 6 {
            a + b - 3
        } else {
            a + b
        }
    } else if b < 3 {
        if a - b < 3 {
            a - b + 3
        } else {
            a - b
        }
    } else {
        if a - b < 0 {
            a - b + 3
        } else {
            a - b
        }
    }
}

/// The two ways of writing the join agree.
pub proof fn lemma_twist_join_stepwise(a: int, b: int)
    requires
        0 <= a < 6,
        0 <= b < 6,
    ensures
        twist_join(a, b) == join_stepwise(a, b),
        0 <= twist_join(a, b) < 6,
{
}

proof fn lemma_join_stepwise_associative(a: int, b: int, c: int)
    requires
        0 <= a < 6,
        0 <= b < 6,
        0 <= c < 6,
    ensures
        join_stepwise(join_stepwise(a, b), c) == join_stepwise(a, join_stepwise(b, c)),
{
}

/// Multiplication is associative: `(a ∘ b) ∘ c` is `a ∘ (b ∘ c)`.
pub proof fn lemma_multiply_associative(a: CubieState, b: CubieState, c: CubieState)
    requires
        a.well_formed(),
        b.well_formed(),
        c.well_formed(),
    ensures
        a.multiply(b).multiply(c) == a.multiply(b.multiply(c)),
{
    let l = a.multiply(b).multiply(c);
    let r = a.multiply(b.multiply(c));
    assert forall|i: int| 0 <= i < 8 implies l.cp[i] == r.cp[i] && l.co[i] == r.co[i] by {
        let ci = c.cp[i];
        assert(0 <= ci < 8);
        let bi = b.cp[ci];
        assert(0 <= bi < 8);
        assert(0 <= a.co[bi] < 6 && 0 <= b.co[ci] < 6 && 0 <= c.co[i] < 6);
        lemma_twist_join_associative(a.co[bi], b.co[ci], c.co[i]);
    }
    assert forall|i: int| 0 <= i < 12 implies l.ep[i] == r.ep[i] && l.eo[i] == r.eo[i] by {
        let ci = c.ep[i];
        assert(0 <= ci < 12);
        let bi = b.ep[ci];
        assert(0 <= bi < 12);
        assert(0 <= a.eo[bi] < 2 && 0 <= b.eo[ci] < 2 && 0 <= c.eo[i] < 2);
    }
    assert(l.cp =~= r.cp);
    assert(l.co =~= r.co);
    assert(l.ep =~= r.ep);
    assert(l.eo =~= r.eo);
}

/// The solved cube is the identity on the right.
pub proof fn lemma_multiply_solved(a: CubieState)
    requires
        a.well_formed(),
    ensures
        a.multiply(CubieState::solved()) == a,
{
    let r = a.multiply(CubieState::solved());
    assert forall|i: int| 0 <= i < 8 implies r.co[i] == a.co[i] by {
        assert(0 <= a.co[i] < 6);
    }
    assert forall|i: int| 0 <= i < 12 implies r.eo[i] == a.eo[i] by {
        assert(0 <= a.eo[i] < 2);
    }
    assert(r.cp =~= a.cp);
    assert(r.co =~= a.co);
    assert(r.ep =~= a.ep);
    assert(r.eo =~= a.eo);
}

/// The half turn of a face: its quarter turn done twice.
pub open spec fn half_turn(face: int) -> CubieState {
    if face == 0 {
        CubieState {
            cp: seq![2int, 3int, 0int, 1int, 4int, 5int, 6int, 7int],
            co: seq![0int, 0int, 0int, 0int, 0int, 0int, 0int, 0int],
            ep: seq![2int, 3int, 0int, 1int, 4int, 5int, 6int, 7int, 8int, 9int, 10int, 11int],
            eo: seq![0int, 0int, 0int, 0int, 0int, 0int, 0int, 0int, 0int, 0int, 0int, 0int],
        }
    } else if face == 1 {
        CubieState {
            cp: seq![7int, 1int, 2int, 4int, 3int, 5int, 6int, 0int],
            co: seq![0int, 0int, 0int, 0int, 0int, 0int, 0int, 0int],
            ep: seq![4int, 1int, 2int, 3int, 0int, 5int, 6int, 7int, 11int, 9int, 10int, 8int],
            eo: seq![0int, 0int, 0int, 0int, 0int, 0int, 0int, 0int, 0int, 0int, 0int, 0int],
        }
    } else if face == 2 {
        CubieState {
            cp: seq![5int, 4int, 2int, 3int, 1int, 0int, 6int, 7int],
            co: seq![0int, 0int, 0int, 0int, 0int, 0int, 0int, 0int],
            ep: seq![0int, 5int, 2int, 3int, 4int, 1int, 6int, 7int, 9int, 8int, 10int, 11int],
            eo: seq![0int, 0int, 0int, 0int, 0int, 0int, 0int, 0int, 0int, 0int, 0int, 0int],
        }
    } else if face == 3 {
        CubieState {
            cp: seq![0int, 1int, 2int, 3int, 6int, 7int, 4int, 5int],
            co: seq![0int, 0int, 0int, 0int, 0int, 0int, 0int, 0int],
            ep: seq![0int, 1int, 2int, 3int, 6int, 7int, 4int, 5int, 8int, 9int, 10int, 11int],
            eo: seq![0int, 0int, 0int, 0int, 0int, 0int, 0int, 0int, 0int, 0int, 0int, 0int],
        }
    } else if face == 4 {
        CubieState {
            cp: seq![0int, 6int, 5int, 3int, 4int, 2int, 1int, 7int],
            co: seq![0int, 0int, 0int, 0int, 0int, 0int, 0int, 0int],
            ep: seq![0int, 1int, 6int, 3int, 4int, 5int, 2int, 7int, 8int, 10int, 9int, 11int],
            eo: seq![0int, 0int, 0int, 0int, 0int, 0int, 0int, 0int, 0int, 0int, 0int, 0int],
        }
    } else {
        CubieState {
            cp: seq![0int, 1int, 7int, 6int, 4int, 5int, 3int, 2int],
            co: seq![0int, 0int, 0int, 0int, 0int, 0int, 0int, 0int],
            ep: seq![0int, 1int, 2int, 7int, 4int, 5int, 6int, 3int, 8int, 9int, 11int, 10int],
            eo: seq![0int, 0int, 0int, 0int, 0int, 0int, 0int, 0int, 0int, 0int, 0int, 0int],
        }
    }
}

/// The inverse quarter turn of a face: its quarter turn done three times.
pub open spec fn inverse_turn(face: int) -> CubieState {
    if face == 0 {
        CubieState {
            cp: seq![1int, 2int, 3int, 0int, 4int, 5int, 6int, 7int],
            co: seq![0int, 0int, 0int, 0int, 0int, 0int, 0int, 0int],
            ep: seq![1int, 2int, 3int, 0int, 4int, 5int, 6int, 7int, 8int, 9int, 10int, 11int],
            eo: seq![0int, 0int, 0int, 0int, 0int, 0int, 0int, 0int, 0int, 0int, 0int, 0int],
        }
    } else if face == 1 {
        CubieState {
            cp: seq![3int, 1int, 2int, 7int, 0int, 5int, 6int, 4int],
            co: seq![2int, 0int, 0int, 1int, 1int, 0int, 0int, 2int],
            ep: seq![11int, 1int, 2int, 3int, 8int, 5int, 6int, 7int, 0int, 9int, 10int, 4int],
            eo: seq![0int, 0int, 0int, 0int, 0int, 0int, 0int, 0int, 0int, 0int, 0int, 0int],
        }
    } else if face == 2 {
        CubieState {
            cp: seq![4int, 0int, 2int, 3int, 5int, 1int, 6int, 7int],
            co: seq![1int, 2int, 0int, 0int, 2int, 1int, 0int, 0int],
            ep: seq![0int, 8int, 2int, 3int, 4int, 9int, 6int, 7int, 5int, 1int, 10int, 11int],
            eo: seq![0int, 1int, 0int, 0int, 0int, 1int, 0int, 0int, 1int, 1int, 0int, 0int],
        }
    } else if face == 3 {
        CubieState {
            cp: seq![0int, 1int, 2int, 3int, 7int, 4int, 5int, 6int],
            co: seq![0int, 0int, 0int, 0int, 0int, 0int, 0int, 0int],
            ep: seq![0int, 1int, 2int, 3int, 7int, 4int, 5int, 6int, 8int, 9int, 10int, 11int],
            eo: seq![0int, 0int, 0int, 0int, 0int, 0int, 0int, 0int, 0int, 0int, 0int, 0int],
        }
    } else if face == 4 {
        CubieState {
            cp: seq![0int, 5int, 1int, 3int, 4int, 6int, 2int, 7int],
            co: seq![0int, 1int, 2int, 0int, 0int, 2int, 1int, 0int],
            ep: seq![0int, 1int, 9int, 3int, 4int, 5int, 10int, 7int, 8int, 6int, 2int, 11int],
            eo: seq![0int, 0int, 0int, 0int, 0int, 0int, 0int, 0int, 0int, 0int, 0int, 0int],
        }
    } else {
        CubieState {
            cp: seq![0int, 1int, 6int, 2int, 4int, 5int, 7int, 3int],
            co: seq![0int, 0int, 1int, 2int, 0int, 0int, 2int, 1int],
            ep: seq![0int, 1int, 2int, 10int, 4int, 5int, 6int, 11int, 8int, 9int, 7int, 3int],
            eo: seq![0int, 0int, 0int, 1int, 0int, 0int, 0int, 1int, 0int, 0int, 1int, 1int],
        }
    }
}

/// The quarter turns are states of the right shape without mirrored
/// corners, and so are their powers.
pub proof fn lemma_basic_move_well_formed(face: int)
    requires
        0 <= face < 6,
    ensures
        basic_move(face).well_formed(),
        basic_move(face).unmirrored(),
        half_turn(face).well_formed(),
        inverse_turn(face).well_formed(),
{
}

/// A quarter turn done twice is the half turn, done three times the inverse
/// turn, and done four times the solved cube.
pub proof fn lemma_turn_powers(face: int)
    requires
        0 <= face < 6,
    ensures
        basic_move(face).multiply(basic_move(face)) == half_turn(face),
        half_turn(face).multiply(basic_move(face)) == inverse_turn(face),
        inverse_turn(face).multiply(basic_move(face)) == CubieState::solved(),
{
    let m = basic_move(face);
    let m2 = m.multiply(m);
    let h = half_turn(face);
    assert(m2.cp =~= h.cp);
    assert(m2.co =~= h.co);
    assert(m2.ep =~= h.ep);
    assert(m2.eo =~= h.eo);
    let m3 = h.multiply(m);
    let v = inverse_turn(face);
    assert(m3.cp =~= v.cp);
    assert(m3.co =~= v.co);
    assert(m3.ep =~= v.ep);
    assert(m3.eo =~= v.eo);
    let m4 = v.multiply(m);
    let s = CubieState::solved();
    assert(m4.cp =~= s.cp);
    assert(m4.co =~= s.co);
    assert(m4.ep =~= s.ep);
    assert(m4.eo =~= s.eo);
}

/// Four quarter turns of one face bring every cube back to where it was.
pub proof fn lemma_four_turns(c: CubieState, face: int)
    requires
        c.well_formed(),
        0 <= face < 6,
    ensures
        turned(c, face, 4) == c,
{
    let m = basic_move(face);
    lemma_basic_move_well_formed(face);
    lemma_turn_powers(face);
    reveal_with_fuel(turned, 5);
    assert(turned(c, face, 4) == c.multiply(m).multiply(m).multiply(m).multiply(m));
    lemma_multiply_associative(c, m, m);
    lemma_multiply_associative(c, half_turn(face), m);
    lemma_multiply_associative(c, inverse_turn(face), m);
    lemma_multiply_solved(c);
}

/// Any face turned four times from the solved cube gives the solved cube.
pub proof fn lemma_face_order(face: int)
    requires
        0 <= face < 6,
    ensures
        turned(CubieState::solved(), face, 4) == CubieState::solved(),
{
    lemma_four_turns(CubieState::solved(), face);
}

/// One permutation read through another is a permutation.
pub proof fn lemma_compose_permutation(a: Seq<int>, b: Seq<int>, n: int)
    requires
        is_permutation(a, n),
        is_permutation(b, n),
    ensures
        is_permutation(Seq::new(n as nat, |i: int| a[b[i]]), n),
{
    let c = Seq::new(n as nat, |i: int| a[b[i]]);
    assert forall|i: int| 0 <= i < n implies 0 <= #[trigger] c[i] < n by {
        assert(0 <= b[i] < n);
    }
    assert forall|i: int, j: int| 0 <= i < j < n implies c[i] != c[j] by {
        assert(0 <= b[i] < n && 0 <= b[j] < n);
        assert(b[i] != b[j]);
        if b[i] < b[j] {
            assert(a[b[i]] != a[b[j]]);
        } else {
            assert(a[b[j]] != a[b[i]]);
        }
    }
}

/// The product of two states whose corners and edges are permutations has
/// permutations for its corners and edges.
pub proof fn lemma_multiply_permutation(a: CubieState, b: CubieState)
    requires
        is_permutation(a.cp, 8),
        is_permutation(b.cp, 8),
        is_permutation(a.ep, 12),
        is_permutation(b.ep, 12),
    ensures
        is_permutation(a.multiply(b).cp, 8),
        is_permutation(a.multiply(b).ep, 12),
{
    lemma_compose_permutation(a.cp, b.cp, 8);
    lemma_compose_permutation(a.ep, b.ep, 12);
    assert(a.multiply(b).cp =~= Seq::new(8, |i: int| a.cp[b.cp[i]]));
    assert(a.multiply(b).ep =~= Seq::new(12, |i: int| a.ep[b.ep[i]]));
}

/// The corners and the edges of a quarter turn are permutations.
pub proof fn lemma_basic_move_permutation(face: int)
    requires
        0 <= face < 6,
    ensures
        is_permutation(basic_move(face).cp, 8),
        is_permutation(basic_move(face).ep, 12),
{
    let m = basic_move(face);
    lemma_turn_powers(face);
    lemma_basic_move_well_formed(face);
    // The inverse turn undoes the quarter turn, so no two slots of the
    // quarter turn hold the same cubie.
    let v = inverse_turn(face);
    let s = CubieState::solved();
    assert forall|i: int, j: int| 0 <= i < j < 8 implies m.cp[i] != m.cp[j] by {
        assert(v.multiply(m).cp[i] == v.cp[m.cp[i]]);
        assert(v.multiply(m).cp[j] == v.cp[m.cp[j]]);
        assert(s.cp[i] == i && s.cp[j] == j);
    }
    assert forall|i: int, j: int| 0 <= i < j < 12 implies m.ep[i] != m.ep[j] by {
        assert(v.multiply(m).ep[i] == v.ep[m.ep[i]]);
        assert(v.multiply(m).ep[j] == v.ep[m.ep[j]]);
        assert(s.ep[i] == i && s.ep[j] == j);
    }
}

/// The sum from `from` on, with the last entry taken off and added back.
pub proof fn lemma_sum_drop_last(s: Seq<int>, from: int)
    requires
        0 <= from < s.len(),
    ensures
        sum_from(s, from) == sum_from(s.drop_last(), from) + s.last(),
    decreases s.len() - from,
{
    if from < s.len() - 1 {
        lemma_sum_drop_last(s, from + 1);
    } else {
        assert(sum_from(s, from + 1) == 0);
    }
}

/// The sum from `from` on, with entry `k` taken out and added back.
pub proof fn lemma_sum_remove(s: Seq<int>, k: int, from: int)
    requires
        0 <= k < s.len(),
        0 <= from <= s.len(),
    ensures
        from <= k ==> sum_from(s, from) == sum_from(s.remove(k), from) + s[k],
        from > k ==> sum_from(s, from) == sum_from(s.remove(k), from - 1),
    decreases s.len() - from,
{
    let r = s.remove(k);
    if from < s.len() {
        lemma_sum_remove(s, k, from + 1);
        if from < k {
            assert(r[from] == s[from]);
        } else if from > k {
            assert(r[from - 1] == s[from]);
        }
    }
}

/// A sequence read through a permutation of its places sums to what it
/// summed to.
pub proof fn lemma_sum_permuted(s: Seq<int>, p: Seq<int>)
    requires
        is_permutation(p, s.len() as int),
    ensures
        sum_from(Seq::new(s.len(), |i: int| s[p[i]]), 0) == sum_from(s, 0),
    decreases s.len(),
{
    let n = s.len() as int;
    let t = Seq::new(s.len(), |i: int| s[p[i]]);
    if n > 0 {
        let k = p[n - 1];
        let rest = s.remove(k);
        let q = Seq::new(
            (n - 1) as nat,
            |i: int|
                if p[i] < k {
                    p[i]
                } else {
                    p[i] - 1
                },
        );
        assert forall|i: int| 0 <= i < n - 1 implies 0 <= #[trigger] q[i] < n - 1 by {
            assert(0 <= p[i] < n);
            assert(p[i] != p[n - 1]);
        }
        assert forall|i: int, j: int| 0 <= i < j < n - 1 implies q[i] != q[j] by {
            assert(p[i] != p[j]);
            assert(p[i] != p[n - 1]);
            assert(p[j] != p[n - 1]);
        }
        lemma_sum_permuted(rest, q);
        let read = Seq::new(rest.len(), |i: int| rest[q[i]]);
        assert forall|i: int| 0 <= i < n - 1 implies read[i] == t.drop_last()[i] by {
            assert(0 <= p[i] < n);
            assert(p[i] != p[n - 1]);
        }
        assert(read =~= t.drop_last());
        lemma_sum_drop_last(t, 0);
        lemma_sum_remove(s, k, 0);
    }
}

/// Where each entry of `z` is the sum of those of `x` and `y` modulo `m`,
/// the sum of `z` is that of `x` and `y` modulo `m`.
pub proof fn lemma_sum_modular(x: Seq<int>, y: Seq<int>, z: Seq<int>, m: int, from: int)
    requires
        m == 2 || m == 3,
        x.len() == z.len(),
        y.len() == z.len(),
        0 <= from <= z.len(),
        forall|i: int| 0 <= i < z.len() ==> #[trigger] z[i] == (x[i] + y[i]) % m,
    ensures
        (sum_from(x, from) + sum_from(y, from) - sum_from(z, from)) % m == 0,
    decreases z.len() - from,
{
    if from < z.len() {
        lemma_sum_modular(x, y, z, m, from + 1);
        assert(z[from] == (x[from] + y[from]) % m);
    }
}

/// The product of two consistent states is consistent: its corners and
/// edges are permutations of the same parity, and its orientations and
/// flips keep their sums modulo 3 and 2.
pub proof fn lemma_multiply_consistent(a: CubieState, b: CubieState)
    requires
        a.consistent(),
        b.consistent(),
    ensures
        a.multiply(b).consistent(),
{
    let c = a.multiply(b);
    lemma_multiply_well_formed(a, b);
    lemma_multiply_permutation(a, b);
    lemma_product_parity(a.cp, b.cp, 8);
    lemma_product_parity(a.ep, b.ep, 12);
    assert(c.cp =~= Seq::new(8, |i: int| a.cp[b.cp[i]]));
    assert(c.ep =~= Seq::new(12, |i: int| a.ep[b.ep[i]]));
    let xc = Seq::new(8, |i: int| a.co[b.cp[i]]);
    lemma_sum_permuted(a.co, b.cp);
    assert(xc =~= Seq::new(a.co.len(), |i: int| a.co[b.cp[i]]));
    assert forall|i: int| 0 <= i < 8 implies #[trigger] c.co[i] == (xc[i] + b.co[i]) % 3 by {
        assert(0 <= b.cp[i] < 8);
        assert(0 <= a.co[b.cp[i]] < 3);
        assert(0 <= b.co[i] < 3);
    }
    lemma_sum_modular(xc, b.co, c.co, 3, 0);
    let xe = Seq::new(12, |i: int| a.eo[b.ep[i]]);
    lemma_sum_permuted(a.eo, b.ep);
    assert(xe =~= Seq::new(a.eo.len(), |i: int| a.eo[b.ep[i]]));
    assert forall|i: int| 0 <= i < 12 implies #[trigger] c.eo[i] == (xe[i] + b.eo[i]) % 2 by {
        assert(0 <= b.ep[i] < 12);
    }
    lemma_sum_modular(xe, b.eo, c.eo, 2, 0);
}

/// The quarter turns and the solved cube are consistent.
pub proof fn lemma_basic_move_consistent(face: int)
    requires
        0 <= face < 6,
    ensures
        basic_move(face).consistent(),
        CubieState::solved().consistent(),
{
    lemma_basic_move_well_formed(face);
    lemma_basic_move_permutation(face);
    lemma_basic_move_corner_parity(face);
    lemma_basic_move_edge_parity(face);
    lemma_solved_parity();
    lemma_basic_move_sums(face);
}

/// The corner orientations of a quarter turn sum to a multiple of 3 and its
/// edge flips to a multiple of 2; those of the solved cube sum to 0.
pub proof fn lemma_basic_move_sums(face: int)
    requires
        0 <= face < 6,
    ensures
        sum_from(basic_move(face).co, 0) % 3 == 0,
        sum_from(basic_move(face).eo, 0) % 2 == 0,
        sum_from(CubieState::solved().co, 0) == 0,
        sum_from(CubieState::solved().eo, 0) == 0,
{
    reveal_with_fuel(sum_from, 13);
}

/// Turning a face any number of times keeps a consistent state consistent.
pub proof fn lemma_turned_consistent(c: CubieState, face: int, n: int)
    requires
        c.consistent(),
        0 <= face < 6,
    ensures
        turned(c, face, n).consistent(),
    decreases n,
{
    if n > 0 {
        lemma_turned_consistent(c, face, n - 1);
        lemma_basic_move_consistent(face);
        lemma_multiply_consistent(turned(c, face, n - 1), basic_move(face));
    }
}

/// Every move is one of the eighteen.
pub open spec fn are_moves(ms: Seq<int>) -> bool {
    forall|i: int| 0 <= i < ms.len() ==> 0 <= #[trigger] ms[i] < 18
}

/// After any sequence of moves from the solved cube the corners are a
/// permutation of the eight corners and the edges of the twelve edges, both
/// of the same parity, the corner orientations sum to a multiple of 3 and
/// the edge flips to a multiple of 2.
pub proof fn lemma_moves_keep_consistent(ms: Seq<int>)
    requires
        are_moves(ms),
    ensures
        apply_moves(CubieState::solved(), ms).consistent(),
        is_permutation(apply_moves(CubieState::solved(), ms).cp, 8),
        is_permutation(apply_moves(CubieState::solved(), ms).ep, 12),
        sum_from(apply_moves(CubieState::solved(), ms).co, 0) % 3 == 0,
        sum_from(apply_moves(CubieState::solved(), ms).eo, 0) % 2 == 0,
        is_odd(apply_moves(CubieState::solved(), ms).cp) == is_odd(
            apply_moves(CubieState::solved(), ms).ep,
        ),
    decreases ms.len(),
{
    lemma_basic_move_consistent(0);
    if ms.len() > 0 {
        lemma_moves_keep_consistent(ms.drop_last());
        let m = ms.last();
        let before = apply_moves(CubieState::solved(), ms.drop_last());
        lemma_turned_consistent(before, m / 3, m % 3 + 1);
    }
}

/// Turning a face any number of times keeps the shape of a state, and
/// mirrors no corner.
pub proof fn lemma_turned_well_formed(c: CubieState, face: int, n: int)
    requires
        c.well_formed(),
        0 <= face < 6,
    ensures
        turned(c, face, n).well_formed(),
        c.unmirrored() ==> turned(c, face, n).unmirrored(),
    decreases n,
{
    if n > 0 {
        lemma_turned_well_formed(c, face, n - 1);
        lemma_basic_move_well_formed(face);
        lemma_multiply_well_formed(turned(c, face, n - 1), basic_move(face));
    }
}

} // verus!
