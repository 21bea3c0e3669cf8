use solver::common::{Color, Facelet, CORNER_COLOR, CORNER_FACELET, EDGE_COLOR, EDGE_FACELET};
use solver::cubie::CubieCube;
use solver::face::FaceCube;

fn text(f: &FaceCube) -> String {
    f.letters().into_iter().collect()
}

#[test]
fn solved_stickers() {
    let f = FaceCube::new();
    assert_eq!(text(&f), "UUUUUUUUURRRRRRRRRFFFFFFFFFDDDDDDDDDLLLLLLLLLBBBBBBBBB");
    assert_eq!(f.faces, FaceCube::solved_colors());
    assert_eq!(f.faces[0], Color::U);
    assert_eq!(f.faces[9], Color::R);
    assert_eq!(f.faces[26], Color::F);
    assert_eq!(f.faces[27], Color::D);
    assert_eq!(f.faces[44], Color::L);
    assert_eq!(f.faces[53], Color::B);
    assert_eq!(FaceCube::from_cubie(&CubieCube::solved()), f);
}

#[test]
fn stickers_after_moves() {
    let mut c = CubieCube::solved();
    c.apply_move(3);
    assert_eq!(
        text(&FaceCube::from_cubie(&c)),
        "UUFUUFUUFRRRRRRRRRFFDFFDFFDDDBDDBDDBLLLLLLLLLUBBUBBUBB"
    );
    let mut f = CubieCube::solved();
    f.apply_move(6);
    assert_eq!(
        text(&FaceCube::from_cubie(&f)),
        "UUUUUULLLURRURRURRFFFFFFFFFRRRDDDDDDLLDLLDLLDBBBBBBBBB"
    );
    let mut ruf = CubieCube::solved();
    ruf.apply_move(3);
    ruf.apply_move(0);
    ruf.apply_move(6);
    assert_eq!(
        text(&FaceCube::from_cubie(&ruf)),
        "UUUUUULLDFBBFRRFRRFFRFFRDDRRRUDDBDDBFFDLLDLLBLLLUBBUBB"
    );
}

#[test]
fn stickers_of_mirrored_corners() {
    let c = CubieCube::new(None, Some([3, 4, 5, 0, 1, 2, 3, 4]), None, None);
    assert_eq!(
        text(&FaceCube::from_cubie(&c)),
        "LUUUUULUURRRRRRFRDUFFFFFDFDLDRDDDDDBBLFLLLLLFBBUBBBRBB"
    );
}

#[test]
fn every_sticker_of_a_slot_shows_its_cubie() {
    let mut c = CubieCube::solved();
    for m in [4, 2, 8, 3, 15, 14, 15, 12, 6, 3, 15, 0, 12, 13] {
        c.apply_move(m);
    }
    let f = FaceCube::from_cubie(&c);
    for i in 0..8 {
        for k in 0..3 {
            let at = CORNER_FACELET[i][(k + c.co[i] as usize) % 3] as usize;
            assert_eq!(f.faces[at], CORNER_COLOR[c.cp[i] as usize][k]);
        }
    }
    for i in 0..12 {
        for k in 0..2 {
            let at = EDGE_FACELET[i][(k + c.eo[i] as usize) % 2] as usize;
            assert_eq!(f.faces[at], EDGE_COLOR[c.ep[i] as usize][k]);
        }
    }
    for (face, color) in [Color::U, Color::R, Color::F, Color::D, Color::L, Color::B]
        .into_iter()
        .enumerate()
    {
        assert_eq!(f.faces[9 * face + 4], color);
        assert_eq!(
            f.faces.iter().filter(|x| **x == color).count(),
            9,
            "nine stickers of each colour"
        );
    }
}

#[test]
fn letters_and_positions() {
    assert_eq!(Color::U.letter(), 'U');
    assert_eq!(Color::R.letter(), 'R');
    assert_eq!(Color::F.letter(), 'F');
    assert_eq!(Color::D.letter(), 'D');
    assert_eq!(Color::L.letter(), 'L');
    assert_eq!(Color::B.letter(), 'B');
    assert_eq!(Facelet::U1 as usize, 0);
    assert_eq!(Facelet::U9 as usize, 8);
    assert_eq!(Facelet::R1 as usize, 9);
    assert_eq!(Facelet::F5 as usize, 22);
    assert_eq!(Facelet::B9 as usize, 53);
    assert_eq!(Color::U as usize, 0);
    assert_eq!(Color::B as usize, 5);
}
