use solver::misc::{c_nk, rotate_left, rotate_right};

#[test]
fn binomial_coefficients() {
    assert_eq!(c_nk(12, 4), 495);
    assert_eq!(c_nk(11, 4), 330);
    assert_eq!(c_nk(11, 0), 1);
    assert_eq!(c_nk(0, 0), 1);
    assert_eq!(c_nk(5, 5), 1);
    assert_eq!(c_nk(5, 1), 5);
    assert_eq!(c_nk(5, 4), 5);
    assert_eq!(c_nk(10, 3), 120);
    assert_eq!(c_nk(10, 7), 120);
    assert_eq!(c_nk(16, 8), 12870);
    assert_eq!(c_nk(18, 9), 48620);
    assert_eq!(c_nk(65535, 1), 65535);
    assert_eq!(c_nk(65535, 65534), 65535);
    assert_eq!(c_nk(362, 2), 65341);
}

#[test]
fn binomial_is_zero_above_the_row() {
    assert_eq!(c_nk(3, 4), 0);
    assert_eq!(c_nk(0, 1), 0);
    assert_eq!(c_nk(11, 12), 0);
    assert_eq!(c_nk(2, 65535), 0);
}

#[test]
fn pascal_rule_holds() {
    for n in 1..=16u16 {
        for k in 1..=n {
            assert_eq!(c_nk(n, k), c_nk(n - 1, k - 1) + c_nk(n - 1, k));
        }
    }
}

#[test]
fn rotations() {
    let mut a = [8, 9, 10, 11];
    rotate_right(&mut a, 0, 3);
    assert_eq!(a, [11, 8, 9, 10]);
    rotate_left(&mut a, 0, 3);
    assert_eq!(a, [8, 9, 10, 11]);
    rotate_left(&mut a, 0, 2);
    assert_eq!(a, [9, 10, 8, 11]);
    rotate_right(&mut a, 1, 3);
    assert_eq!(a, [9, 11, 10, 8]);
    let mut b = [1, 2, 3, 4, 5, 6, 7, 8, 9];
    rotate_right(&mut b, 0, 4);
    assert_eq!(b, [5, 1, 2, 3, 4, 6, 7, 8, 9]);
    rotate_left(&mut b, 2, 8);
    assert_eq!(b, [5, 1, 3, 4, 6, 7, 8, 9, 2]);
}

#[test]
fn rotations_of_one_place_and_less() {
    let mut a = ['a', 'b', 'c'];
    rotate_right(&mut a, 1, 1);
    assert_eq!(a, ['a', 'b', 'c']);
    rotate_left(&mut a, 2, 2);
    assert_eq!(a, ['a', 'b', 'c']);
    // With the bounds the wrong way round only one entry is overwritten.
    rotate_right(&mut a, 2, 0);
    assert_eq!(a, ['a', 'b', 'a']);
    let mut b = ['a', 'b', 'c'];
    rotate_left(&mut b, 2, 0);
    assert_eq!(b, ['c', 'b', 'c']);
}

#[test]
fn rotations_work_on_vectors() {
    let mut v = vec![0u16, 1, 2];
    rotate_left(&mut v, 0, 1);
    assert_eq!(v, vec![1, 0, 2]);
    rotate_right(&mut v, 0, 2);
    assert_eq!(v, vec![2, 1, 0]);
}
