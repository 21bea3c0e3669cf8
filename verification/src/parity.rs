//! The parity of a permutation, and that the parity of a product is the
//! sum of the parities of its factors.

use vstd::prelude::*;
use crate::group::{basic_move, is_permutation, sum_from, CubieState};
use crate::group_lemmas::{lemma_sum_drop_last, lemma_sum_permuted};

verus! {

/// The sum of `f(i, j)` over `j` below `n`.
pub open spec fn row_sum(f: spec_fn(int, int) -> int, n: nat, i: int) -> int {
    sum_from(Seq::new(n, |j: int| f(i, j)), 0)
}

/// The sum of `f(i, j)` over `i` below `n`.
pub open spec fn column_sum(f: spec_fn(int, int) -> int, n: nat, j: int) -> int {
    sum_from(Seq::new(n, |i: int| f(i, j)), 0)
}

/// The sum of `f(i, j)` over all `i` and `j` below `n`.
pub open spec fn square_sum(f: spec_fn(int, int) -> int, n: nat) -> int {
    sum_from(Seq::new(n, |i: int| row_sum(f, n, i)), 0)
}

/// 1 where `p` holds a larger number at place `i` than at the later place
/// `j`, else 0.
pub open spec fn out_of_order(p: Seq<int>) -> spec_fn(int, int) -> int {
    |i: int, j: int|
        if i < j && p[i] > p[j] {
            1int
        } else {
            0int
        }
}

/// The number of pairs of places that `p` puts out of order.
pub open spec fn inversions(p: Seq<int>) -> int {
    square_sum(out_of_order(p), p.len())
}

/// A permutation is odd when it puts an odd number of pairs out of order.
pub open spec fn is_odd(p: Seq<int>) -> bool {
    inversions(p) % 2 == 1
}

/// 1 where `p` puts the two different places `i` and `j` out of order,
/// whichever of them comes first, else 0.
pub open spec fn crossed(p: Seq<int>) -> spec_fn(int, int) -> int {
    |i: int, j: int|
        if i != j && ((i < j) == (p[i] > p[j])) {
            1int
        } else {
            0int
        }
}

/// `f` above the diagonal and 0 elsewhere.
pub open spec fn upper(f: spec_fn(int, int) -> int) -> spec_fn(int, int) -> int {
    |i: int, j: int|
        if i < j {
            f(i, j)
        } else {
            0int
        }
}

/// `f` takes the same value at `(i, j)` and `(j, i)` and 0 at `(i, i)`.
pub open spec fn is_symmetric(f: spec_fn(int, int) -> int, n: nat) -> bool {
    &&& forall|i: int, j: int| 0 <= i < n && 0 <= j < n ==> #[trigger] f(i, j) == f(j, i)
    &&& forall|i: int| 0 <= i < n ==> #[trigger] f(i, i) == 0
}

/// Where `z` is `x + y - 2 * w` entry by entry, so are the sums.
pub proof fn lemma_sum_combined(x: Seq<int>, y: Seq<int>, w: Seq<int>, z: Seq<int>, from: int)
    requires
        x.len() == z.len(),
        y.len() == z.len(),
        w.len() == z.len(),
        0 <= from <= z.len(),
        forall|i: int| 0 <= i < z.len() ==> #[trigger] z[i] == x[i] + y[i] - 2 * w[i],
    ensures
        sum_from(z, from) == sum_from(x, from) + sum_from(y, from) - 2 * sum_from(w, from),
    decreases z.len() - from,
{
    if from < z.len() {
        lemma_sum_combined(x, y, w, z, from + 1);
        assert(z[from] == x[from] + y[from] - 2 * w[from]);
    }
}

/// Where `f` is `g + h - 2 * m` at every place of the square, so are the
/// sums over the square.
pub proof fn lemma_square_sum_combined(
    f: spec_fn(int, int) -> int,
    g: spec_fn(int, int) -> int,
    h: spec_fn(int, int) -> int,
    m: spec_fn(int, int) -> int,
    n: nat,
)
    requires
        forall|i: int, j: int|
            0 <= i < n && 0 <= j < n ==> #[trigger] f(i, j) == g(i, j) + h(i, j) - 2 * m(i, j),
    ensures
        square_sum(f, n) == square_sum(g, n) + square_sum(h, n) - 2 * square_sum(m, n),
{
    let rows = |k: spec_fn(int, int) -> int| Seq::new(n, |i: int| row_sum(k, n, i));
    assert forall|i: int| 0 <= i < n implies #[trigger] rows(f)[i] == rows(g)[i] + rows(h)[i] - 2
        * rows(m)[i] by {
        let line = |k: spec_fn(int, int) -> int| Seq::new(n, |j: int| k(i, j));
        assert forall|j: int| 0 <= j < n implies #[trigger] line(f)[j] == line(g)[j] + line(h)[j]
            - 2 * line(m)[j] by {
            assert(f(i, j) == g(i, j) + h(i, j) - 2 * m(i, j));
        }
        lemma_sum_combined(line(g), line(h), line(m), line(f), 0);
    }
    lemma_sum_combined(rows(g), rows(h), rows(m), rows(f), 0);
}

/// Functions that agree on the square have the same sum over it.
pub proof fn lemma_square_sum_equal(
    f: spec_fn(int, int) -> int,
    g: spec_fn(int, int) -> int,
    n: nat,
)
    requires
        forall|i: int, j: int| 0 <= i < n && 0 <= j < n ==> #[trigger] f(i, j) == g(i, j),
    ensures
        square_sum(f, n) == square_sum(g, n),
{
    let zero = |i: int, j: int| 0int;
    assert forall|i: int, j: int| 0 <= i < n && 0 <= j < n implies #[trigger] f(i, j) == g(i, j)
        + zero(i, j) - 2 * zero(i, j) by {
        assert(f(i, j) == g(i, j));
    }
    lemma_square_sum_combined(f, g, zero, zero, n);
    lemma_square_sum_combined(zero, zero, zero, zero, n);
}

/// The sum over a square one larger is the sum over the square, its new
/// column, its new row and its new corner.
pub proof fn lemma_square_sum_grows(f: spec_fn(int, int) -> int, n: nat)
    ensures
        square_sum(f, n + 1) == square_sum(f, n) + column_sum(f, n, n as int) + row_sum(
            f,
            n,
            n as int,
        ) + f(n as int, n as int),
{
    let wide = Seq::new(n + 1, |i: int| row_sum(f, n + 1, i));
    let rows = Seq::new(n, |i: int| row_sum(f, n, i));
    let column = Seq::new(n, |i: int| f(i, n as int));
    let none = Seq::new(n, |i: int| 0int);
    lemma_sum_drop_last(wide, 0);
    let last = Seq::new(n + 1, |j: int| f(n as int, j));
    lemma_sum_drop_last(last, 0);
    assert(last.drop_last() =~= Seq::new(n, |j: int| f(n as int, j)));
    assert(wide.last() == row_sum(f, n, n as int) + f(n as int, n as int));
    assert forall|i: int| 0 <= i < n implies #[trigger] wide.drop_last()[i] == rows[i] + column[i]
        - 2 * none[i] by {
        let line = Seq::new(n + 1, |j: int| f(i, j));
        lemma_sum_drop_last(line, 0);
        assert(line.drop_last() =~= Seq::new(n, |j: int| f(i, j)));
    }
    lemma_sum_combined(rows, column, none, wide.drop_last(), 0);
    lemma_sum_combined(none, none, none, none, 0);
}

/// The sum of a symmetric function over the square is twice its sum over
/// the part above the diagonal.
pub proof fn lemma_square_sum_symmetric(f: spec_fn(int, int) -> int, n: nat)
    requires
        is_symmetric(f, n),
    ensures
        square_sum(f, n) == 2 * square_sum(upper(f), n),
    decreases n,
{
    if n == 0 {
        assert(square_sum(f, 0) == 0);
        assert(square_sum(upper(f), 0) == 0);
    } else {
        let k = (n - 1) as nat;
        lemma_square_sum_symmetric(f, k);
        lemma_square_sum_grows(f, k);
        lemma_square_sum_grows(upper(f), k);
        let u = upper(f);
        assert(Seq::new(k, |i: int| f(i, k as int)) =~= Seq::new(k, |j: int| f(k as int, j))) by {
            assert forall|i: int| 0 <= i < k implies #[trigger] f(i, k as int) == f(
                k as int,
                i,
            ) by {}
        }
        assert(Seq::new(k, |i: int| u(i, k as int)) =~= Seq::new(k, |i: int| f(i, k as int)));
        let none = Seq::new(k, |j: int| 0int);
        assert(Seq::new(k, |j: int| u(k as int, j)) =~= none);
        lemma_sum_combined(none, none, none, none, 0);
        assert(f(k as int, k as int) == 0);
    }
}

/// Reading both arguments of a function through a permutation does not
/// change its sum over the square.
pub proof fn lemma_square_sum_permuted(f: spec_fn(int, int) -> int, b: Seq<int>, n: nat)
    requires
        is_permutation(b, n as int),
    ensures
        square_sum(|i: int, j: int| f(b[i], b[j]), n) == square_sum(f, n),
{
    let g = |i: int, j: int| f(b[i], b[j]);
    let rows = Seq::new(n, |u: int| row_sum(f, n, u));
    let read = Seq::new(n, |i: int| row_sum(g, n, i));
    assert forall|i: int| 0 <= i < n implies read[i] == rows[b[i]] by {
        let line = Seq::new(n, |v: int| f(b[i], v));
        lemma_sum_permuted(line, b);
        assert(0 <= b[i] < n);
        assert(Seq::new(n, |j: int| g(i, j)) =~= Seq::new(line.len(), |j: int| line[b[j]])) by {
            assert forall|j: int| 0 <= j < n implies g(i, j) == line[b[j]] by {
                assert(0 <= b[j] < n);
            }
        }
    }
    lemma_sum_permuted(rows, b);
    assert(read =~= Seq::new(rows.len(), |i: int| rows[b[i]]));
}

/// The pairs that a permutation puts out of order are half of those it
/// crosses, counted both ways.
pub proof fn lemma_inversions_crossed(p: Seq<int>)
    requires
        is_permutation(p, p.len() as int),
    ensures
        square_sum(crossed(p), p.len()) == 2 * inversions(p),
{
    let n = p.len();
    assert(is_symmetric(crossed(p), n)) by {
        assert forall|i: int, j: int| 0 <= i < n && 0 <= j < n implies #[trigger] crossed(p)(i, j)
            == crossed(p)(j, i) by {
            if i < j {
                assert(p[i] != p[j]);
            } else if j < i {
                assert(p[j] != p[i]);
            }
        }
    }
    lemma_square_sum_symmetric(crossed(p), n);
    lemma_square_sum_equal(upper(crossed(p)), out_of_order(p), n);
}

/// The parity of a product of permutations is the sum of the parities of
/// the two: the product is odd when exactly one of them is.
pub proof fn lemma_product_parity(a: Seq<int>, b: Seq<int>, n: nat)
    requires
        is_permutation(a, n as int),
        is_permutation(b, n as int),
    ensures
        is_odd(Seq::new(n, |i: int| a[b[i]])) == (is_odd(a) != is_odd(b)),
{
    let c = Seq::new(n, |i: int| a[b[i]]);
    let through = |i: int, j: int| crossed(a)(b[i], b[j]);
    let both = |i: int, j: int| through(i, j) * crossed(b)(i, j);
    assert forall|i: int, j: int| 0 <= i < n && 0 <= j < n implies #[trigger] crossed(c)(i, j)
        == through(i, j) + crossed(b)(i, j) - 2 * both(i, j) by {
        assert(0 <= b[i] < n && 0 <= b[j] < n);
        if i < j {
            assert(b[i] != b[j]);
            if b[i] < b[j] {
                assert(a[b[i]] != a[b[j]]);
            } else {
                assert(a[b[j]] != a[b[i]]);
            }
        } else if j < i {
            assert(b[j] != b[i]);
            if b[i] < b[j] {
                assert(a[b[i]] != a[b[j]]);
            } else {
                assert(a[b[j]] != a[b[i]]);
            }
        }
    }
    crate::group_lemmas::lemma_compose_permutation(a, b, n as int);
    lemma_square_sum_combined(crossed(c), through, crossed(b), both, n);
    lemma_square_sum_permuted(crossed(a), b, n);
    lemma_inversions_crossed(a);
    lemma_inversions_crossed(b);
    lemma_inversions_crossed(c);
    assert(is_symmetric(both, n)) by {
        assert forall|i: int, j: int| 0 <= i < n && 0 <= j < n implies #[trigger] both(i, j)
            == both(j, i) by {
            assert(0 <= b[i] < n && 0 <= b[j] < n);
            if i < j {
                assert(b[i] != b[j]);
            } else if j < i {
                assert(b[j] != b[i]);
            }
        }
    }
    lemma_square_sum_symmetric(both, n);
}

/// The pairs out of order are counted row by row.
pub proof fn lemma_inversions_by_rows(p: Seq<int>, rows: Seq<int>)
    requires
        rows.len() == p.len(),
        forall|i: int|
            0 <= i < p.len() ==> #[trigger] rows[i] == row_sum(out_of_order(p), p.len(), i),
    ensures
        inversions(p) == sum_from(rows, 0),
{
    assert(rows =~= Seq::new(p.len(), |i: int| row_sum(out_of_order(p), p.len(), i)));
}

/// For each corner slot of the quarter turn of a face, the number of later
/// slots that hold a lower corner.
pub open spec fn turn_corner_rows(face: int) -> Seq<int> {
    if face == 0 {
        seq![3int, 0int, 0int, 0int, 0int, 0int, 0int, 0int]
    } else if face == 1 {
        seq![4int, 1int, 1int, 0int, 3int, 1int, 1int, 0int]
    } else if face == 2 {
        seq![1int, 4int, 1int, 1int, 0int, 0int, 0int, 0int]
    } else if face == 3 {
        seq![0int, 0int, 0int, 0int, 1int, 1int, 1int, 0int]
    } else if face == 4 {
        seq![0int, 1int, 4int, 1int, 1int, 0int, 0int, 0int]
    } else {
        seq![0int, 0int, 1int, 4int, 1int, 1int, 0int, 0int]
    }
}

/// For each edge slot of the quarter turn of a face, the number of later
/// slots that hold a lower edge.
pub open spec fn turn_edge_rows(face: int) -> Seq<int> {
    if face == 0 {
        seq![3int, 0int, 0int, 0int, 0int, 0int, 0int, 0int, 0int, 0int, 0int, 0int]
    } else if face == 1 {
        seq![8int, 1int, 1int, 1int, 7int, 2int, 2int, 2int, 1int, 1int, 1int, 0int]
    } else if face == 2 {
        seq![0int, 8int, 1int, 1int, 1int, 4int, 2int, 2int, 0int, 0int, 0int, 0int]
    } else if face == 3 {
        seq![0int, 0int, 0int, 0int, 1int, 1int, 1int, 0int, 0int, 0int, 0int, 0int]
    } else if face == 4 {
        seq![0int, 0int, 8int, 1int, 1int, 1int, 4int, 2int, 2int, 0int, 0int, 0int]
    } else {
        seq![0int, 0int, 0int, 8int, 1int, 1int, 1int, 4int, 2int, 2int, 0int, 0int]
    }
}

/// A quarter turn is an odd permutation of the corners.
pub proof fn lemma_basic_move_corner_parity(face: int)
    requires
        0 <= face < 6,
    ensures
        is_odd(basic_move(face).cp),
{
    let p = basic_move(face).cp;
    let rows = turn_corner_rows(face);
    assert forall|i: int| 0 <= i < 8 implies #[trigger] rows[i] == row_sum(
        out_of_order(p),
        8,
        i,
    ) by {
        reveal_with_fuel(sum_from, 9);
    }
    lemma_inversions_by_rows(p, rows);
    assert(sum_from(rows, 0) % 2 == 1) by {
        reveal_with_fuel(sum_from, 9);
    }
}

/// A quarter turn is an odd permutation of the edges.
pub proof fn lemma_basic_move_edge_parity(face: int)
    requires
        0 <= face < 6,
    ensures
        is_odd(basic_move(face).ep),
{
    let p = basic_move(face).ep;
    let rows = turn_edge_rows(face);
    assert forall|i: int| 0 <= i < 12 implies #[trigger] rows[i] == row_sum(
        out_of_order(p),
        12,
        i,
    ) by {
        reveal_with_fuel(sum_from, 13);
    }
    lemma_inversions_by_rows(p, rows);
    assert(sum_from(rows, 0) % 2 == 1) by {
        reveal_with_fuel(sum_from, 13);
    }
}

/// The solved cube is an even permutation of the corners and of the edges.
pub proof fn lemma_solved_parity()
    ensures
        !is_odd(CubieState::solved().cp),
        !is_odd(CubieState::solved().ep),
{
    let c = CubieState::solved();
    let none = |i: int, j: int| 0int;
    lemma_square_sum_equal(out_of_order(c.cp), none, 8);
    lemma_square_sum_equal(out_of_order(c.ep), none, 12);
    lemma_square_sum_combined(none, none, none, none, 8);
    lemma_square_sum_combined(none, none, none, none, 12);
}

} // verus!
