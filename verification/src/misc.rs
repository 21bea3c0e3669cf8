//! Combinatorial helpers: binomial coefficients and rotation of a sub-range
//! of a slice.

use vstd::prelude::*;

verus! {

/// The binomial coefficient C(n, k), by Pascal's rule. It is 0 when `n < k`.
pub open spec fn binomial(n: nat, k: nat) -> nat
    decreases n,
{
    if k == 0 {
        1
    } else if n == 0 {
        0
    } else {
        binomial((n - 1) as nat, (k - 1) as nat) + binomial((n - 1) as nat, k)
    }
}

/// C(n, k) is 0 when there are fewer than `k` things to choose from.
pub proof fn lemma_binomial_zero(n: nat, k: nat)
    requires
        n < k,
    ensures
        binomial(n, k) == 0,
    decreases n,
{
    if n > 0 {
        lemma_binomial_zero((n - 1) as nat, (k - 1) as nat);
        lemma_binomial_zero((n - 1) as nat, k);
    }
}

/// C(n, n) is 1.
pub proof fn lemma_binomial_full(n: nat)
    ensures
        binomial(n, n) == 1,
    decreases n,
{
    if n > 0 {
        lemma_binomial_full((n - 1) as nat);
        lemma_binomial_zero((n - 1) as nat, n);
    }
}

/// C(n, k) equals C(n, n - k).
pub proof fn lemma_binomial_symmetric(n: nat, k: nat)
    requires
        k <= n,
    ensures
        binomial(n, k) == binomial(n, (n - k) as nat),
    decreases n,
{
    if k == 0 || k == n {
        lemma_binomial_full(n);
    } else {
        lemma_binomial_symmetric((n - 1) as nat, (k - 1) as nat);
        lemma_binomial_symmetric((n - 1) as nat, k);
    }
}

/// The step from one coefficient of a row to the next:
/// (t + 1) * C(n, t + 1) equals (n - t) * C(n, t).
pub proof fn lemma_binomial_step(n: nat, t: nat)
    ensures
        binomial(n, t + 1) * (t + 1) == binomial(n, t) * (n - t),
    decreases n,
{
    let a = binomial(n, t);
    let b = binomial(n, t + 1);
    if n == 0 {
        assert(b == 0);
        assert(t > 0 ==> a == 0);
        assert(b * (t + 1) == a * (n - t)) by (nonlinear_arith)
            requires
                b == 0,
                n == 0,
                t > 0 ==> a == 0,
        ;
    } else {
        let m = (n - 1) as nat;
        let up = binomial(m, t + 1);
        let mid = binomial(m, t);
        lemma_binomial_step(m, t);
        assert(b == mid + up);
        if t == 0 {
            assert(a == 1 && mid == 1);
            assert(b * (t + 1) == a * (n - t)) by (nonlinear_arith)
                requires
                    up * (t + 1) == mid * (m - t),
                    b == mid + up,
                    a == 1,
                    mid == 1,
                    t == 0,
                    m == n - 1,
            ;
        } else {
            let low = binomial(m, (t - 1) as nat);
            lemma_binomial_step(m, (t - 1) as nat);
            assert(a == low + mid);
            assert(b * (t + 1) == a * (n - t)) by (nonlinear_arith)
                requires
                    up * (t + 1) == mid * (m - t),
                    mid * t == low * (m - (t - 1)),
                    b == mid + up,
                    a == low + mid,
                    m == n - 1,
            ;
        }
    }
}

/// Up to the middle of a row the coefficients do not decrease.
pub proof fn lemma_binomial_rising(n: nat, t: nat, k: nat)
    requires
        t <= k,
        2 * k <= n,
    ensures
        binomial(n, t) <= binomial(n, k),
    decreases k - t,
{
    if t < k {
        lemma_binomial_rising(n, t + 1, k);
        lemma_binomial_step(n, t);
        let a = binomial(n, t);
        let b = binomial(n, t + 1);
        assert(a <= b) by (nonlinear_arith)
            requires
                b * (t + 1) == a * (n - t),
                t + 1 <= n - t,
        ;
    }
}

/// 2 to the power `n`.
pub open spec fn two_to(n: nat) -> nat
    decreases n,
{
    if n == 0 {
        1
    } else {
        2 * two_to((n - 1) as nat)
    }
}

/// A coefficient of row `n` is at most 2 to the power `n`.
pub proof fn lemma_binomial_bound(n: nat, k: nat)
    ensures
        binomial(n, k) <= two_to(n),
    decreases n,
{
    lemma_two_to_rising(0, n);
    if n > 0 && k > 0 {
        lemma_binomial_bound((n - 1) as nat, (k - 1) as nat);
        lemma_binomial_bound((n - 1) as nat, k);
    }
}

/// The coefficients of the rows up to the twelfth fit in 16 bits with room
/// to spare.
pub proof fn lemma_binomial_small(n: nat, k: nat)
    requires
        n <= 12,
    ensures
        binomial(n, k) <= 4096,
{
    lemma_binomial_bound(n, k);
    lemma_two_to_rising(n, 12);
    assert(two_to(12) == 4096) by {
        reveal_with_fuel(two_to, 13);
    }
}

/// The powers of 2 do not decrease.
pub proof fn lemma_two_to_rising(m: nat, n: nat)
    requires
        m <= n,
    ensures
        two_to(m) <= two_to(n),
    decreases n - m,
{
    if m < n {
        lemma_two_to_rising(m, (n - 1) as nat);
    }
}

/// There are 495 ways to choose 4 of 12.
pub proof fn lemma_binomial_12_4()
    ensures
        binomial(12, 4) == 495,
{
    lemma_binomial_step(12, 0);
    lemma_binomial_step(12, 1);
    lemma_binomial_step(12, 2);
    lemma_binomial_step(12, 3);
    let c0 = binomial(12, 0);
    let c1 = binomial(12, 1);
    let c2 = binomial(12, 2);
    let c3 = binomial(12, 3);
    let c4 = binomial(12, 4);
    assert(c0 == 1);
    assert(c1 == 12) by (nonlinear_arith)
        requires
            c1 * (0 + 1) == c0 * (12 - 0),
            c0 == 1,
    ;
    assert(c2 == 66) by (nonlinear_arith)
        requires
            c2 * (1 + 1) == c1 * (12 - 1),
            c1 == 12,
    ;
    assert(c3 == 220) by (nonlinear_arith)
        requires
            c3 * (2 + 1) == c2 * (12 - 2),
            c2 == 66,
    ;
    assert(c4 == 495) by (nonlinear_arith)
        requires
            c4 * (3 + 1) == c3 * (12 - 3),
            c3 == 220,
    ;
}

/// Computes the binomial coefficient C(n, k), which is 0 when `n < k`.
///
/// The coefficient itself has to fit in 16 bits; the products on the way to
/// it are taken in 32 bits.
pub fn c_nk(n: u16, k: u16) -> (r: u16)
    requires
        binomial(n as nat, k as nat) <= u16::MAX,
    ensures
        r == binomial(n as nat, k as nat),
{
    if n < k {
        proof {
            lemma_binomial_zero(n as nat, k as nat);
        }
        return 0;
    }
    let m: u16 = if k > n / 2 {
        n - k
    } else {
        k
    };
    proof {
        lemma_binomial_symmetric(n as nat, k as nat);
    }

    let mut s: u32 = 1;
    let mut i: u16 = n;
    let mut j: u16 = 1;

    while i != n - m
        invariant
            2 * m <= n,
            n - m <= i <= n,
            j == n - i + 1,
            s == binomial(n as nat, (n - i) as nat),
            binomial(n as nat, m as nat) <= u16::MAX,
        decreases i,
    {
        proof {
            let t = (n - i) as nat;
            lemma_binomial_rising(n as nat, t, m as nat);
            lemma_binomial_rising(n as nat, t + 1, m as nat);
            lemma_binomial_step(n as nat, t);
            let next = binomial(n as nat, t + 1);
            assert(s * i <= 0xffff * 0xffff) by (nonlinear_arith)
                requires
                    s <= 0xffff,
                    i <= 0xffff,
            ;
            assert((next * j) / (j as int) == next) by (nonlinear_arith)
                requires
                    j > 0,
            ;
        }
        s = s * (i as u32);
        s = s / (j as u32);
        i = i - 1;
        j = j + 1;
    }

    s as u16
}

/// `s` with the entries at `left..=right` moved one place to the right and
/// the entry at `right` brought round to `left`. With `left > right` only the
/// entry at `left` changes: it takes the value at `right`.
pub open spec fn rotated_right<T>(s: Seq<T>, left: int, right: int) -> Seq<T> {
    Seq::new(
        s.len(),
        |i: int|
            if i == left {
                s[right]
            } else if left < i <= right {
                s[i - 1]
            } else {
                s[i]
            },
    )
}

/// `s` with the entries at `left..=right` moved one place to the left and
/// the entry at `left` brought round to `right`. With `left > right` only the
/// entry at `right` changes: it takes the value at `left`.
pub open spec fn rotated_left<T>(s: Seq<T>, left: int, right: int) -> Seq<T> {
    Seq::new(
        s.len(),
        |i: int|
            if i == right {
                s[left]
            } else if left <= i < right {
                s[i + 1]
            } else {
                s[i]
            },
    )
}

/// Rotates `arr[left..=right]` one place to the right, in place.
pub fn rotate_right<T: Copy>(arr: &mut [T], left: usize, right: usize)
    requires
        left < old(arr)@.len(),
        right < old(arr)@.len(),
    ensures
        final(arr)@ == rotated_right(old(arr)@, left as int, right as int),
{
    let tmp = arr[right];
    let mut i: usize = right;
    while i > left
        invariant
            left < arr@.len(),
            right < arr@.len(),
            i <= right,
            left <= right ==> left <= i,
            left > right ==> i == right,
            arr@.len() == old(arr)@.len(),
            tmp == old(arr)@[right as int],
            forall|j: int| 0 <= j <= i ==> arr@[j] == old(arr)@[j],
            forall|j: int| i < j <= right ==> arr@[j] == old(arr)@[j - 1],
            forall|j: int| right < j < arr@.len() ==> arr@[j] == old(arr)@[j],
        decreases i,
    {
        arr[i] = arr[i - 1];
        i -= 1;
    }
    arr[left] = tmp;
}

/// Rotates `arr[left..=right]` one place to the left, in place.
pub fn rotate_left<T: Copy>(arr: &mut [T], left: usize, right: usize)
    requires
        left < old(arr)@.len(),
        right < old(arr)@.len(),
    ensures
        final(arr)@ == rotated_left(old(arr)@, left as int, right as int),
{
    let tmp = arr[left];
    let mut i: usize = left;
    while i < right
        invariant
            left < arr@.len(),
            right < arr@.len(),
            left <= i,
            left <= right ==> i <= right,
            left > right ==> i == left,
            arr@.len() == old(arr)@.len(),
            tmp == old(arr)@[left as int],
            forall|j: int| 0 <= j < left ==> arr@[j] == old(arr)@[j],
            forall|j: int| left <= j < i ==> arr@[j] == old(arr)@[j + 1],
            forall|j: int| i <= j < arr@.len() ==> arr@[j] == old(arr)@[j],
        decreases right - i,
    {
        arr[i] = arr[i + 1];
        i += 1;
    }
    arr[right] = tmp;
}

/// 3 to the power `n`.
pub open spec fn three_to(n: nat) -> nat
    decreases n,
{
    if n == 0 {
        1
    } else {
        3 * three_to((n - 1) as nat)
    }
}

/// The powers of 3 do not decrease.
pub proof fn lemma_three_to_rising(m: nat, n: nat)
    requires
        m <= n,
    ensures
        three_to(m) <= three_to(n),
    decreases n - m,
{
    if m < n {
        lemma_three_to_rising(m, (n - 1) as nat);
    }
}

} // verus!
