//! The core of a two-phase Rubik's Cube solver: the cube at the level of its
//! cubies with its group operation, the twist, flip and slice coordinates,
//! and the move tables that say what each move makes of each coordinate.
//!
//! Everything here is verified but the two calls into `bytemuck` in `moves`,
//! whose contracts are taken on trust. The cube is modelled as a `CubieState` of
//! integer sequences (`group`), the coordinates as functions of those
//! sequences (`coord`), and the executable types in `cubie`, `face` and
//! `moves` are specified against these. The laws of the model are proved in
//! `group_lemmas`, `parity` and `coord_lemmas`.

pub mod common;
pub mod coord;
pub mod coord_lemmas;
pub mod cubie;
pub mod face;
pub mod group;
pub mod group_lemmas;
pub mod misc;
pub mod moves;
pub mod parity;
