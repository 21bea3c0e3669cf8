use solver::common::{Color, Corner, Edge, FACES};
use solver::cubie::{CubieCube, CP_SOLVED, EP_SOLVED};

/// The move with this face (U, R, F, D, L, B) and turn (quarter, half,
/// inverse quarter).
fn mv(face: usize, turn: usize) -> usize {
    3 * face + turn
}

const U: usize = 0;
const R: usize = 1;

/// Whether a permutation is odd: whether the number of pairs it puts out
/// of order is.
fn is_odd(p: &[usize]) -> bool {
    let mut inversions = 0;
    for i in 0..p.len() {
        for j in i + 1..p.len() {
            if p[i] > p[j] {
                inversions += 1;
            }
        }
    }
    inversions % 2 == 1
}

fn corner_numbers(c: &CubieCube) -> Vec<usize> {
    c.cp.iter().map(|x| *x as usize).collect()
}

fn edge_numbers(c: &CubieCube) -> Vec<usize> {
    c.ep.iter().map(|x| *x as usize).collect()
}

/// A fixed sequence of moves that looks arbitrary.
fn scramble(seed: u64, n: usize) -> Vec<usize> {
    let mut s = seed;
    let mut out = Vec::new();
    for _ in 0..n {
        s = s.wrapping_mul(6364136223846793005).wrapping_add(1442695040888963407);
        out.push(((s >> 33) % 18) as usize);
    }
    out
}

fn after(moves: &[usize]) -> CubieCube {
    let mut c = CubieCube::solved();
    for m in moves {
        c.apply_move(*m);
    }
    c
}

#[test]
fn get_set_flip() {
    let test_twists = [0, 1, 2, 69, 420, 523, 1547, 2047];
    for test_twist in test_twists {
        let mut cube = CubieCube::new(None, None, None, None);
        cube.set_flip(test_twist);
        assert_eq!(cube.get_flip(), test_twist);
    }
}

#[test]
fn get_set_slice_sorted() {
    let test_slice_sorted = [0, 1, 2, 69, 420, 523, 1547, 2047];
    for case in test_slice_sorted {
        let mut cube = CubieCube::new(None, None, None, None);
        cube.set_slice_sorted(case);
        println!("set: {}, get: {}", case, cube.get_slice_sorted());
        assert_eq!(cube.get_slice_sorted(), case);
    }

    let set = 420;
    let mut cube = CubieCube::new(None, None, None, None);
    cube.set_slice_sorted(set);
    let ep = cube.ep;
    println!("Set: {}, ep: {:?}", set, ep);
    assert_eq!(edge_numbers(&cube), vec![0, 1, 2, 3, 4, 10, 5, 6, 11, 8, 7, 9]);
}

#[test]
fn new_takes_what_is_given() {
    let c = CubieCube::new(None, None, None, None);
    assert_eq!(c, CubieCube::solved());
    assert_eq!(c.cp, CP_SOLVED);
    assert_eq!(c.ep, EP_SOLVED);
    assert_eq!(c.co, [0; 8]);
    assert_eq!(c.eo, [0; 12]);
    let r = CubieCube::basic_move(Color::R);
    let d = CubieCube::new(Some(r.cp), None, Some(r.ep), Some([1; 12]));
    assert_eq!(d.cp, r.cp);
    assert_eq!(d.co, [0; 8]);
    assert_eq!(d.ep, r.ep);
    assert_eq!(d.eo, [1; 12]);
    let e = CubieCube::new(None, Some([2, 0, 0, 1, 1, 0, 0, 2]), None, None);
    assert_eq!(e.cp, CP_SOLVED);
    assert_eq!(e.co, r.co);
}

#[test]
fn solved_cube_coordinates() {
    let c = CubieCube::solved();
    assert_eq!(c.get_twist(), 0);
    assert_eq!(c.get_flip(), 0);
    assert_eq!(c.get_slice_sorted(), 0);
    assert_eq!(c.get_slice(), 0);
    assert_eq!(c.cp[0], Corner::UFR);
    assert_eq!(c.cp[7], Corner::DBR);
    assert_eq!(c.ep[0], Edge::UR);
    assert_eq!(c.ep[11], Edge::BR);
}

#[test]
fn single_r_quarter_turn() {
    let mut c = CubieCube::solved();
    c.apply_move(mv(R, 0));
    assert_eq!(c, CubieCube::basic_move(Color::R));
    assert_eq!(c.get_twist(), 1494);
    assert_eq!(c.get_flip(), 0);
    assert_eq!(c.get_slice_sorted(), 8824);
    assert_eq!(c.get_slice(), 367);
    assert_eq!(corner_numbers(&c), vec![4, 1, 2, 0, 7, 5, 6, 3]);
    assert_eq!(c.co, [2, 0, 0, 1, 1, 0, 0, 2]);
    assert_eq!(edge_numbers(&c), vec![8, 1, 2, 3, 11, 5, 6, 7, 4, 9, 10, 0]);
}

#[test]
fn u_four_times_is_solved() {
    let mut c = CubieCube::solved();
    for _ in 0..4 {
        c.apply_move(mv(U, 0));
    }
    assert_eq!(c, CubieCube::solved());
}

#[test]
fn r_then_r_prime_is_solved() {
    let mut c = CubieCube::solved();
    c.apply_move(mv(R, 0));
    assert_ne!(c, CubieCube::solved());
    c.apply_move(mv(R, 2));
    assert_eq!(c, CubieCube::solved());
}

#[test]
fn sexy_move_six_times_is_solved() {
    let mut c = CubieCube::solved();
    for round in 0..6 {
        c.apply_move(mv(R, 0));
        c.apply_move(mv(U, 0));
        c.apply_move(mv(R, 2));
        c.apply_move(mv(U, 2));
        if round < 5 {
            assert_ne!(c, CubieCube::solved());
        }
    }
    assert_eq!(c, CubieCube::solved());
}

#[test]
fn every_face_has_order_four() {
    for face in 0..6 {
        let mut c = CubieCube::solved();
        for n in 1..=4 {
            c.multiply(&CubieCube::basic_move(FACES[face]));
            assert_eq!(c == CubieCube::solved(), n == 4);
        }
        let mut d = after(&scramble(7 + face as u64, 25));
        let start = d;
        for _ in 0..4 {
            d.apply_move(mv(face, 0));
        }
        assert_eq!(d, start);
    }
}

#[test]
fn half_and_inverse_turns_are_repeated_quarters() {
    for face in 0..6 {
        let mut q = CubieCube::solved();
        q.apply_move(mv(face, 0));
        q.apply_move(mv(face, 0));
        let mut h = CubieCube::solved();
        h.apply_move(mv(face, 1));
        assert_eq!(q, h);
        q.apply_move(mv(face, 0));
        let mut i = CubieCube::solved();
        i.apply_move(mv(face, 2));
        assert_eq!(q, i);
    }
}

#[test]
fn twist_round_trip_for_every_value() {
    let mut c = CubieCube::solved();
    for v in 0..2187u16 {
        c.set_twist(v);
        assert_eq!(c.get_twist(), v);
        assert_eq!(c.co.iter().map(|x| *x as i32).sum::<i32>() % 3, 0);
        assert!(c.co.iter().all(|x| (0..3).contains(x)));
    }
    c.set_twist(1494);
    assert_eq!(c.co, [2, 0, 0, 1, 1, 0, 0, 2]);
    c.set_twist(1);
    assert_eq!(c.co, [0, 0, 0, 0, 0, 0, 1, 2]);
    c.set_twist(2186);
    assert_eq!(c.co, [2, 2, 2, 2, 2, 2, 2, 1]);
}

#[test]
fn flip_round_trip_for_every_value() {
    let mut c = CubieCube::solved();
    for v in 0..2048u16 {
        c.set_flip(v);
        assert_eq!(c.get_flip(), v);
        assert_eq!(c.eo.iter().map(|x| *x as i32).sum::<i32>() % 2, 0);
    }
    c.set_flip(1);
    assert_eq!(c.eo, [0, 0, 0, 0, 0, 0, 0, 0, 0, 0, 1, 1]);
    c.set_flip(2047);
    assert_eq!(c.eo, [1, 1, 1, 1, 1, 1, 1, 1, 1, 1, 1, 1]);
    c.set_flip(1024);
    assert_eq!(c.eo, [1, 0, 0, 0, 0, 0, 0, 0, 0, 0, 0, 1]);
}

#[test]
fn slice_sorted_round_trip_for_every_value() {
    let mut c = CubieCube::solved();
    for v in 0..11880u16 {
        c.set_slice_sorted(v);
        assert_eq!(c.get_slice_sorted(), v);
        assert_eq!(c.get_slice(), v / 24);
        let mut seen = [false; 12];
        for e in c.ep {
            assert_ne!(e, Edge::INV);
            seen[e as usize] = true;
        }
        assert!(seen.iter().all(|s| *s));
    }
}

#[test]
fn slice_sorted_edge_cases() {
    let mut c = after(&scramble(3, 20));
    let before = c;
    c.set_slice_sorted(0);
    assert_eq!(c.ep, EP_SOLVED);
    assert_eq!(c.cp, before.cp);
    assert_eq!(c.co, before.co);
    assert_eq!(c.eo, before.eo);
    c.set_slice_sorted(1);
    assert_eq!(edge_numbers(&c), vec![0, 1, 2, 3, 4, 5, 6, 7, 9, 8, 10, 11]);
    c.set_slice_sorted(24);
    assert_eq!(edge_numbers(&c), vec![0, 1, 2, 3, 4, 5, 6, 8, 7, 9, 10, 11]);
    c.set_slice_sorted(11879);
    assert_eq!(edge_numbers(&c), vec![10, 9, 11, 8, 0, 1, 2, 3, 4, 5, 6, 7]);
}

#[test]
fn a_longer_sequence_of_moves() {
    let moves = [
        4, 2, 8, 3, 15, 14, 15, 12, 6, 3, 15, 0, 12, 13, 0, 14, 8, 7, 3, 10, 0, 0, 0, 17, 0, 12, 6,
        13, 0, 16,
    ];
    let c = after(&moves);
    assert_eq!(corner_numbers(&c), vec![4, 6, 7, 2, 1, 3, 0, 5]);
    assert_eq!(c.co, [2, 2, 2, 0, 1, 2, 2, 1]);
    assert_eq!(edge_numbers(&c), vec![9, 11, 6, 1, 2, 10, 8, 0, 7, 3, 5, 4]);
    assert_eq!(c.eo, [0, 1, 1, 1, 0, 1, 0, 0, 1, 0, 0, 1]);
    assert_eq!(c.get_twist(), 2123);
    assert_eq!(c.get_flip(), 932);
    assert_eq!(c.get_slice_sorted(), 11294);
    assert_eq!(c.get_slice(), 470);
}

#[test]
fn moves_keep_permutations_and_parities() {
    for seed in 0..40u64 {
        let mut c = CubieCube::solved();
        for m in scramble(seed, 60) {
            c.apply_move(m);
            let mut corners = corner_numbers(&c);
            corners.sort();
            assert_eq!(corners, (0..8).collect::<Vec<_>>());
            let mut edges = edge_numbers(&c);
            edges.sort();
            assert_eq!(edges, (0..12).collect::<Vec<_>>());
            assert!(c.co.iter().all(|x| (0..3).contains(x)));
            assert!(c.eo.iter().all(|x| (0..2).contains(x)));
            assert_eq!(c.co.iter().map(|x| *x as i32).sum::<i32>() % 3, 0);
            assert_eq!(c.eo.iter().map(|x| *x as i32).sum::<i32>() % 2, 0);
            assert_eq!(is_odd(&corner_numbers(&c)), is_odd(&edge_numbers(&c)));
        }
    }
}

#[test]
fn multiplication_is_associative() {
    for seed in 0..30u64 {
        let a = after(&scramble(3 * seed, 20));
        let b = after(&scramble(3 * seed + 1, 20));
        let c = after(&scramble(3 * seed + 2, 20));
        let mut ab_c = a;
        ab_c.multiply(&b);
        ab_c.multiply(&c);
        let mut bc = b;
        bc.multiply(&c);
        let mut a_bc = a;
        a_bc.multiply(&bc);
        assert_eq!(ab_c, a_bc);
    }
}

#[test]
fn multiplication_is_not_commutative() {
    let r = CubieCube::basic_move(Color::R);
    let f = CubieCube::basic_move(Color::F);
    let mut rf = r;
    rf.multiply(&f);
    let mut fr = f;
    fr.multiply(&r);
    assert_ne!(rf, fr);
    let mut ruf = r;
    ruf.multiply(&CubieCube::basic_move(Color::U));
    ruf.multiply(&f);
    assert_eq!(corner_numbers(&ruf), vec![4, 5, 1, 2, 0, 7, 6, 3]);
    assert_eq!(ruf.co, [0, 2, 0, 0, 0, 2, 0, 2]);
    assert_eq!(edge_numbers(&ruf), vec![3, 9, 1, 2, 11, 4, 6, 7, 8, 5, 10, 0]);
    assert_eq!(ruf.eo, [0, 1, 0, 0, 0, 1, 0, 0, 1, 1, 0, 0]);
}

#[test]
fn corner_and_edge_multiply_touch_their_half_only() {
    let r = CubieCube::basic_move(Color::R);
    let f = CubieCube::basic_move(Color::F);
    let mut c = r;
    c.corner_multiply(&f);
    assert_eq!(c.ep, r.ep);
    assert_eq!(c.eo, r.eo);
    let mut e = r;
    e.edge_multiply(&f);
    assert_eq!(e.cp, r.cp);
    assert_eq!(e.co, r.co);
    let mut both = r;
    both.multiply(&f);
    assert_eq!(both.cp, c.cp);
    assert_eq!(both.co, c.co);
    assert_eq!(both.ep, e.ep);
    assert_eq!(both.eo, e.eo);
}

#[test]
fn simple_corner_multiply_agrees_without_mirrors() {
    for seed in 0..20u64 {
        let a = after(&scramble(seed, 15));
        let b = after(&scramble(100 + seed, 15));
        let mut full = a;
        full.corner_multiply(&b);
        let mut simple = a;
        simple.corner_multiply_simple(&b);
        assert_eq!(full, simple);
    }
}

#[test]
fn mirrored_corner_orientations() {
    // Every pair of orientations, against the table of the dihedral group.
    let expect = [
        [0, 1, 2, 3, 4, 5],
        [1, 2, 0, 4, 5, 3],
        [2, 0, 1, 5, 3, 4],
        [3, 5, 4, 0, 2, 1],
        [4, 3, 5, 1, 0, 2],
        [5, 4, 3, 2, 1, 0],
    ];
    for a in 0..6i8 {
        for b in 0..6i8 {
            let mut x = CubieCube::new(None, Some([a; 8]), None, None);
            let y = CubieCube::new(None, Some([b; 8]), None, None);
            x.corner_multiply(&y);
            assert_eq!(x.co, [expect[a as usize][b as usize]; 8], "{} {}", a, b);
        }
    }
    let r = CubieCube::basic_move(Color::R);
    let m = CubieCube::new(None, Some([3, 0, 0, 0, 0, 0, 0, 0]), None, None);
    let mut mr = m;
    mr.corner_multiply(&r);
    assert_eq!(corner_numbers(&mr), vec![4, 1, 2, 0, 7, 5, 6, 3]);
    assert_eq!(mr.co, [2, 0, 0, 5, 1, 0, 0, 2]);
    let mut rm = r;
    rm.corner_multiply(&m);
    assert_eq!(rm.co, [5, 0, 0, 1, 1, 0, 0, 2]);
    let mut s = m;
    s.corner_multiply_simple(&r);
    assert_eq!(s.co, [2, 0, 0, 1, 1, 0, 0, 2]);
}

#[test]
fn slice_coordinate_ignores_the_order() {
    let mut c = CubieCube::solved();
    for v in [0u16, 23, 24, 47, 8824, 11879] {
        c.set_slice_sorted(v);
        assert_eq!(c.get_slice(), v / 24);
    }
    let none = CubieCube::new(None, None, Some([Edge::UR; 12]), None);
    assert_eq!(none.get_slice(), 0);
    let r = CubieCube::basic_move(Color::R);
    assert_eq!(r.get_slice(), 367);
}
