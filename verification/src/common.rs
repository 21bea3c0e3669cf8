//! Identities of the pieces and stickers of the cube, and the fixed tables
//! that tie corner and edge slots to sticker positions and colours.

use vstd::prelude::*;

verus! {

/// Number of face moves: six faces, each by a quarter, a half or an inverse
/// quarter turn.
pub const N_MOVE: usize = 18;

/// Number of corner twist coordinates, 3^7: the last corner follows from the
/// other seven.
pub const N_TWIST: usize = 2187;

/// Number of edge flip coordinates, 2^11: the last edge follows from the
/// other eleven.
pub const N_FLIP: usize = 2048;

/// Number of sorted slice coordinates: the 495 placements of the four
/// UD-slice edges times their 24 orders.
pub const N_SLICE_SORTED: usize = 11880;

/// A face colour. The order is fixed: it indexes the colour and sticker tables.
#[derive(Clone, Copy, PartialEq, Eq, Structural, Debug)]
pub enum Color {
    U,
    R,
    F,
    D,
    L,
    B,
}

/// The six faces in their order.
pub const FACES: [Color; 6] = [Color::U, Color::R, Color::F, Color::D, Color::L, Color::B];

/// A corner slot, or the corner cubie that belongs there in the solved cube.
#[derive(Clone, Copy, PartialEq, Eq, Structural, Debug)]
pub enum Corner {
    UFR,
    UFL,
    UBL,
    UBR,
    DFR,
    DFL,
    DBL,
    DBR,
}

/// An edge slot, or the edge cubie that belongs there in the solved cube.
///
/// `INV` comes after the twelve edges and marks a slot that holds no edge
/// yet; it only occurs while a slice coordinate is being decoded.
#[derive(Clone, Copy, PartialEq, Eq, Structural, Debug)]
pub enum Edge {
    UR,
    UF,
    UL,
    UB,
    DR,
    DF,
    DL,
    DB,
    FR,
    FL,
    BL,
    BR,
    INV,
}

/// A sticker position: nine per face, row by row, the faces in the order of
/// `Color`.
#[derive(Clone, Copy, PartialEq, Eq, Structural, Debug)]
pub enum Facelet {
    U1,
    U2,
    U3,
    U4,
    U5,
    U6,
    U7,
    U8,
    U9,
    R1,
    R2,
    R3,
    R4,
    R5,
    R6,
    R7,
    R8,
    R9,
    F1,
    F2,
    F3,
    F4,
    F5,
    F6,
    F7,
    F8,
    F9,
    D1,
    D2,
    D3,
    D4,
    D5,
    D6,
    D7,
    D8,
    D9,
    L1,
    L2,
    L3,
    L4,
    L5,
    L6,
    L7,
    L8,
    L9,
    B1,
    B2,
    B3,
    B4,
    B5,
    B6,
    B7,
    B8,
    B9,
}

/// The colours of each corner cubie, clockwise from its U or D sticker.
pub const CORNER_COLOR: [[Color; 3]; 8] = [
    [Color::U, Color::R, Color::F],
    [Color::U, Color::F, Color::L],
    [Color::U, Color::L, Color::B],
    [Color::U, Color::B, Color::R],
    [Color::D, Color::F, Color::R],
    [Color::D, Color::L, Color::F],
    [Color::D, Color::B, Color::L],
    [Color::D, Color::R, Color::B],
];

/// The colours of each edge cubie, its reference sticker first.
pub const EDGE_COLOR: [[Color; 2]; 12] = [
    [Color::U, Color::R],
    [Color::U, Color::F],
    [Color::U, Color::L],
    [Color::U, Color::B],
    [Color::D, Color::R],
    [Color::D, Color::F],
    [Color::D, Color::L],
    [Color::D, Color::B],
    [Color::F, Color::R],
    [Color::F, Color::L],
    [Color::B, Color::L],
    [Color::B, Color::R],
];

/// The sticker positions of each corner slot, clockwise from its U or D
/// sticker.
pub const CORNER_FACELET: [[Facelet; 3]; 8] = [
    [Facelet::U9, Facelet::R1, Facelet::F3],
    [Facelet::U7, Facelet::F1, Facelet::L3],
    [Facelet::U1, Facelet::L1, Facelet::B3],
    [Facelet::U3, Facelet::B1, Facelet::R3],
    [Facelet::D3, Facelet::F9, Facelet::R7],
    [Facelet::D1, Facelet::L9, Facelet::F7],
    [Facelet::D7, Facelet::B9, Facelet::L7],
    [Facelet::D9, Facelet::R9, Facelet::B7],
];

/// The sticker positions of each edge slot, its reference sticker first.
pub const EDGE_FACELET: [[Facelet; 2]; 12] = [
    [Facelet::U6, Facelet::R2],
    [Facelet::U8, Facelet::F2],
    [Facelet::U4, Facelet::L2],
    [Facelet::U2, Facelet::B2],
    [Facelet::D6, Facelet::R8],
    [Facelet::D2, Facelet::F8],
    [Facelet::D4, Facelet::L8],
    [Facelet::D8, Facelet::B8],
    [Facelet::F6, Facelet::R4],
    [Facelet::F4, Facelet::L6],
    [Facelet::B6, Facelet::L4],
    [Facelet::B4, Facelet::R6],
];

/// The letter that stands for a colour.
pub open spec fn color_letter(c: Color) -> char {
    match c {
        Color::U => 'U',
        Color::R => 'R',
        Color::F => 'F',
        Color::D => 'D',
        Color::L => 'L',
        Color::B => 'B',
    }
}

impl Color {
    /// The letter that stands for the colour.
    pub fn letter(self) -> (l: char)
        ensures
            l == color_letter(self),
    {
        match self {
            Color::U => 'U',
            Color::R => 'R',
            Color::F => 'F',
            Color::D => 'D',
            Color::L => 'L',
            Color::B => 'B',
        }
    }
}

} // verus!
