//! The move tables: for each value of a coordinate and each of the eighteen
//! moves, the value of the coordinate after the move. The tables are
//! generated from the cube itself, and stored as plain bytes.

use vstd::prelude::*;
use crate::common::{FACES, N_FLIP, N_MOVE, N_SLICE_SORTED, N_TWIST};
use crate::coord::{flip_coord, slice_sorted_coord, twist_coord};
use crate::coord_lemmas::lemma_slice_sorted_edges_permutation;
use crate::cubie::CubieCube;
use crate::group::{apply_move, basic_move, is_permutation, turned, CubieState};
use crate::group_lemmas::{
    lemma_basic_move_permutation, lemma_compose_permutation, lemma_four_turns,
    lemma_turned_well_formed,
};

verus! {

/// The twist coordinate that move `m` makes of twist coordinate `i`.
pub open spec fn twist_move_entry(i: int, m: int) -> int {
    twist_coord(apply_move(CubieState::solved().with_twist(i), m).co)
}

/// The flip coordinate that move `m` makes of flip coordinate `i`.
pub open spec fn flip_move_entry(i: int, m: int) -> int {
    flip_coord(apply_move(CubieState::solved().with_flip(i), m).eo)
}

/// The sorted slice coordinate that move `m` makes of sorted slice
/// coordinate `i`.
pub open spec fn slice_sorted_move_entry(i: int, m: int) -> int {
    slice_sorted_coord(apply_move(CubieState::solved().with_slice_sorted(i), m).ep)
}

/// The entries of `t` are right for every move of the first `rows`
/// coordinates, and for the first `moves` moves of the next one.
pub open spec fn table_filled(
    t: Seq<u16>,
    entry: spec_fn(int, int) -> int,
    rows: int,
    moves: int,
) -> bool {
    &&& forall|i: int, m: int|
        0 <= i < rows && 0 <= m < 18 ==> t[18 * i + m] == #[trigger] entry(i, m)
    &&& forall|m: int| 0 <= m < moves ==> t[18 * rows + m] == #[trigger] entry(rows, m)
}

/// The entries of the twist move table.
pub open spec fn twist_entries() -> spec_fn(int, int) -> int {
    |i: int, m: int| twist_move_entry(i, m)
}

/// The entries of the flip move table.
pub open spec fn flip_entries() -> spec_fn(int, int) -> int {
    |i: int, m: int| flip_move_entry(i, m)
}

/// The entries of the sorted slice move table.
pub open spec fn slice_sorted_entries() -> spec_fn(int, int) -> int {
    |i: int, m: int| slice_sorted_move_entry(i, m)
}

/// `t` is the twist move table: entry `18 * i + m` is what move `m` makes of
/// twist coordinate `i`.
pub open spec fn is_twist_move_table(t: Seq<u16>) -> bool {
    &&& t.len() == 18 * 2187
    &&& forall|i: int, m: int|
        0 <= i < 2187 && 0 <= m < 18 ==> t[18 * i + m] == #[trigger] twist_move_entry(i, m)
}

/// `t` is the flip move table: entry `18 * i + m` is what move `m` makes of
/// flip coordinate `i`.
pub open spec fn is_flip_move_table(t: Seq<u16>) -> bool {
    &&& t.len() == 18 * 2048
    &&& forall|i: int, m: int|
        0 <= i < 2048 && 0 <= m < 18 ==> t[18 * i + m] == #[trigger] flip_move_entry(i, m)
}

/// `t` is the sorted slice move table: entry `18 * i + m` is what move `m`
/// makes of sorted slice coordinate `i`.
pub open spec fn is_slice_sorted_move_table(t: Seq<u16>) -> bool {
    &&& t.len() == 18 * 11880
    &&& forall|i: int, m: int|
        0 <= i < 11880 && 0 <= m < 18 ==> t[18 * i + m] == #[trigger] slice_sorted_move_entry(i, m)
}

/// The seeds of the twist table have the right shape and no mirrored corner.
pub proof fn lemma_twist_seed(i: int)
    requires
        0 <= i < 2187,
    ensures
        CubieState::solved().with_twist(i).well_formed(),
        CubieState::solved().with_twist(i).unmirrored(),
{
    let s = CubieState::solved().with_twist(i);
    assert(s.co.len() == 8);
    assert forall|t: int| 0 <= t < 8 implies 0 <= #[trigger] s.co[t] < 3 by {}
}

/// The seeds of the flip table have the right shape.
pub proof fn lemma_flip_seed(i: int)
    requires
        0 <= i < 2048,
    ensures
        CubieState::solved().with_flip(i).well_formed(),
        is_permutation(CubieState::solved().with_flip(i).ep, 12),
{
    let s = CubieState::solved().with_flip(i);
    assert(s.eo.len() == 12);
    assert forall|t: int| 0 <= t < 12 implies 0 <= #[trigger] s.eo[t] < 2 by {}
}

/// The seeds of the sorted slice table have the right shape.
pub proof fn lemma_slice_sorted_seed(i: int)
    requires
        0 <= i < 11880,
    ensures
        CubieState::solved().with_slice_sorted(i).well_formed(),
        is_permutation(CubieState::solved().with_slice_sorted(i).ep, 12),
{
    lemma_slice_sorted_edges_permutation(i);
}

/// Turning a face keeps the edges a permutation.
pub proof fn lemma_turned_edges_permutation(c: CubieState, face: int, n: int)
    requires
        is_permutation(c.ep, 12),
        0 <= face < 6,
    ensures
        is_permutation(turned(c, face, n).ep, 12),
    decreases n,
{
    if n > 0 {
        lemma_turned_edges_permutation(c, face, n - 1);
        lemma_basic_move_permutation(face);
        let t = turned(c, face, n - 1);
        lemma_compose_permutation(t.ep, basic_move(face).ep, 12);
        assert(turned(c, face, n).ep =~= Seq::new(12, |i: int| t.ep[basic_move(face).ep[i]]));
    }
}

/// Generates the twist move table: for every twist coordinate the solved
/// cube is given that twist, then each face is turned three times and the
/// twist read after each turn. Only the corners are turned, without regard
/// to mirrors, which the moves never bring about.
pub fn gen_twist_move_table() -> (table: Vec<u16>)
    ensures
        is_twist_move_table(table@),
{
    let mut table = vec![0u16; N_TWIST * N_MOVE];
    let mut a = CubieCube::solved();

    let mut i: usize = 0;
    while i < N_TWIST
        invariant
            i <= N_TWIST,
            table@.len() == 18 * 2187,
            a@.cp == CubieState::solved().cp,
            a@.ep == CubieState::solved().ep,
            a@.eo == CubieState::solved().eo,
            table_filled(table@, twist_entries(), i as int, 0),
        decreases N_TWIST - i,
    {
        a.set_twist(i as u16);
        let ghost seed = CubieState::solved().with_twist(i as int);
        assert(a@ == seed);
        proof {
            lemma_twist_seed(i as int);
        }
        let mut j: usize = 0;
        while j < 6
            invariant
                j <= 6,
                i < N_TWIST,
                table@.len() == 18 * 2187,
                seed == CubieState::solved().with_twist(i as int),
                seed.well_formed(),
                seed.unmirrored(),
                a@ == seed,
                table_filled(table@, twist_entries(), i as int, 3 * j),
            decreases 6 - j,
        {
            let turn = CubieCube::basic_move(FACES[j]);
            let mut k: usize = 0;
            while k < 3
                invariant
                    k <= 3,
                    j < 6,
                    i < N_TWIST,
                    table@.len() == 18 * 2187,
                    seed == CubieState::solved().with_twist(i as int),
                    seed.well_formed(),
                    seed.unmirrored(),
                    turn@ == basic_move(j as int),
                    turn@.consistent(),
                    a@.cp == turned(seed, j as int, k as int).cp,
                    a@.co == turned(seed, j as int, k as int).co,
                    a@.ep == seed.ep,
                    a@.eo == seed.eo,
                    table_filled(table@, twist_entries(), i as int, 3 * j + k),
                decreases 3 - k,
            {
                proof {
                    lemma_turned_well_formed(seed, j as int, k as int);
                    lemma_turned_well_formed(seed, j as int, k + 1);
                }
                a.corner_multiply_simple(&turn);
                proof {
                    let t = turned(seed, j as int, k as int);
                    assert(a@.cp =~= t.multiply(turn@).cp);
                    assert(a@.co =~= t.multiply(turn@).co);
                    assert(turned(seed, j as int, k + 1) == t.multiply(turn@));
                    assert(apply_move(seed, 3 * j + k) == turned(seed, j as int, k + 1));
                }
                table[N_MOVE * i + 3 * j + k] = a.get_twist();
                k += 1;
            }
            // The fourth turn brings the cube back to the seed.
            proof {
                lemma_turned_well_formed(seed, j as int, 3);
            }
            a.corner_multiply_simple(&turn);
            proof {
                let t = turned(seed, j as int, 3);
                assert(a@.cp =~= t.multiply(turn@).cp);
                assert(a@.co =~= t.multiply(turn@).co);
                assert(turned(seed, j as int, 4) == t.multiply(turn@));
                lemma_four_turns(seed, j as int);
            }
            j += 1;
        }
        i += 1;
    }

    assert forall|i: int, m: int| 0 <= i < 2187 && 0 <= m < 18 implies table@[18 * i + m]
        == #[trigger] twist_move_entry(i, m) by {
        assert(twist_entries()(i, m) == twist_move_entry(i, m));
    }
    table
}

/// Generates the flip move table: for every flip coordinate the solved cube
/// is given those flips, then each face is turned three times and the flip
/// coordinate read after each turn. Only the edges are turned.
pub fn gen_flip_move_table() -> (table: Vec<u16>)
    ensures
        is_flip_move_table(table@),
{
    let mut table = vec![0u16; N_FLIP * N_MOVE];
    let mut a = CubieCube::solved();

    let mut i: usize = 0;
    while i < N_FLIP
        invariant
            i <= N_FLIP,
            table@.len() == 18 * 2048,
            a@.cp == CubieState::solved().cp,
            a@.co == CubieState::solved().co,
            a@.ep == CubieState::solved().ep,
            table_filled(table@, flip_entries(), i as int, 0),
        decreases N_FLIP - i,
    {
        a.set_flip(i as u16);
        let ghost seed = CubieState::solved().with_flip(i as int);
        assert(a@ == seed);
        proof {
            lemma_flip_seed(i as int);
        }
        let mut j: usize = 0;
        while j < 6
            invariant
                j <= 6,
                i < N_FLIP,
                table@.len() == 18 * 2048,
                seed == CubieState::solved().with_flip(i as int),
                seed.well_formed(),
                is_permutation(seed.ep, 12),
                a@ == seed,
                table_filled(table@, flip_entries(), i as int, 3 * j),
            decreases 6 - j,
        {
            let turn = CubieCube::basic_move(FACES[j]);
            let mut k: usize = 0;
            while k < 3
                invariant
                    k <= 3,
                    j < 6,
                    i < N_FLIP,
                    table@.len() == 18 * 2048,
                    seed == CubieState::solved().with_flip(i as int),
                    seed.well_formed(),
                    is_permutation(seed.ep, 12),
                    turn@ == basic_move(j as int),
                    turn@.consistent(),
                    a@.cp == seed.cp,
                    a@.co == seed.co,
                    a@.ep == turned(seed, j as int, k as int).ep,
                    a@.eo == turned(seed, j as int, k as int).eo,
                    table_filled(table@, flip_entries(), i as int, 3 * j + k),
                decreases 3 - k,
            {
                proof {
                    lemma_turned_well_formed(seed, j as int, k as int);
                    lemma_turned_edges_permutation(seed, j as int, k + 1);
                }
                a.edge_multiply(&turn);
                proof {
                    let t = turned(seed, j as int, k as int);
                    assert(a@.ep =~= t.multiply(turn@).ep);
                    assert(a@.eo =~= t.multiply(turn@).eo);
                    assert(turned(seed, j as int, k + 1) == t.multiply(turn@));
                    assert(apply_move(seed, 3 * j + k) == turned(seed, j as int, k + 1));
                }
                table[N_MOVE * i + 3 * j + k] = a.get_flip();
                k += 1;
            }
            // The fourth turn brings the cube back to the seed.
            proof {
                lemma_turned_well_formed(seed, j as int, 3);
            }
            a.edge_multiply(&turn);
            proof {
                let t = turned(seed, j as int, 3);
                assert(a@.ep =~= t.multiply(turn@).ep);
                assert(a@.eo =~= t.multiply(turn@).eo);
                assert(turned(seed, j as int, 4) == t.multiply(turn@));
                lemma_four_turns(seed, j as int);
            }
            j += 1;
        }
        i += 1;
    }

    assert forall|i: int, m: int| 0 <= i < 2048 && 0 <= m < 18 implies table@[18 * i + m]
        == #[trigger] flip_move_entry(i, m) by {
        assert(flip_entries()(i, m) == flip_move_entry(i, m));
    }
    table
}

/// Generates the sorted slice move table: for every sorted slice coordinate
/// the edges of the solved cube are set from it, then each face is turned
/// three times and the coordinate read after each turn. Only the edges are
/// turned.
pub fn gen_ud_move_table() -> (table: Vec<u16>)
    ensures
        is_slice_sorted_move_table(table@),
{
    let mut table = vec![0u16; N_SLICE_SORTED * N_MOVE];
    let mut a = CubieCube::solved();

    let mut i: usize = 0;
    while i < N_SLICE_SORTED
        invariant
            i <= N_SLICE_SORTED,
            table@.len() == 18 * 11880,
            a@.cp == CubieState::solved().cp,
            a@.co == CubieState::solved().co,
            a@.eo == CubieState::solved().eo,
            table_filled(table@, slice_sorted_entries(), i as int, 0),
        decreases N_SLICE_SORTED - i,
    {
        a.set_slice_sorted(i as u16);
        let ghost seed = CubieState::solved().with_slice_sorted(i as int);
        assert(a@ == seed);
        proof {
            lemma_slice_sorted_seed(i as int);
        }
        let mut j: usize = 0;
        while j < 6
            invariant
                j <= 6,
                i < N_SLICE_SORTED,
                table@.len() == 18 * 11880,
                seed == CubieState::solved().with_slice_sorted(i as int),
                seed.well_formed(),
                is_permutation(seed.ep, 12),
                a@ == seed,
                table_filled(table@, slice_sorted_entries(), i as int, 3 * j),
            decreases 6 - j,
        {
            let turn = CubieCube::basic_move(FACES[j]);
            let mut k: usize = 0;
            while k < 3
                invariant
                    k <= 3,
                    j < 6,
                    i < N_SLICE_SORTED,
                    table@.len() == 18 * 11880,
                    seed == CubieState::solved().with_slice_sorted(i as int),
                    seed.well_formed(),
                    is_permutation(seed.ep, 12),
                    turn@ == basic_move(j as int),
                    turn@.consistent(),
                    a@.cp == seed.cp,
                    a@.co == seed.co,
                    a@.ep == turned(seed, j as int, k as int).ep,
                    a@.eo == turned(seed, j as int, k as int).eo,
                    table_filled(table@, slice_sorted_entries(), i as int, 3 * j + k),
                decreases 3 - k,
            {
                proof {
                    lemma_turned_well_formed(seed, j as int, k as int);
                    lemma_turned_edges_permutation(seed, j as int, k + 1);
                }
                a.edge_multiply(&turn);
                proof {
                    let t = turned(seed, j as int, k as int);
                    assert(a@.ep =~= t.multiply(turn@).ep);
                    assert(a@.eo =~= t.multiply(turn@).eo);
                    assert(turned(seed, j as int, k + 1) == t.multiply(turn@));
                    assert(apply_move(seed, 3 * j + k) == turned(seed, j as int, k + 1));
                }
                table[N_MOVE * i + 3 * j + k] = a.get_slice_sorted();
                k += 1;
            }
            // The fourth turn brings the cube back to the seed.
            proof {
                lemma_turned_well_formed(seed, j as int, 3);
            }
            a.edge_multiply(&turn);
            proof {
                let t = turned(seed, j as int, 3);
                assert(a@.ep =~= t.multiply(turn@).ep);
                assert(a@.eo =~= t.multiply(turn@).eo);
                assert(turned(seed, j as int, 4) == t.multiply(turn@));
                lemma_four_turns(seed, j as int);
            }
            j += 1;
        }
        i += 1;
    }

    assert forall|i: int, m: int| 0 <= i < 11880 && 0 <= m < 18 implies table@[18 * i + m]
        == #[trigger] slice_sorted_move_entry(i, m) by {
        assert(slice_sorted_entries()(i, m) == slice_sorted_move_entry(i, m));
    }
    table
}

/// Bytes per table entry.
pub const BYTES_PER_U16: usize = 2;

/// The number a pair of bytes spells with its first byte the low one.
pub open spec fn word_le(g: [u8; 2]) -> int {
    g[0] + 256 * g[1]
}

/// The number a pair of bytes spells with its first byte the high one.
pub open spec fn word_be(g: [u8; 2]) -> int {
    256 * g[0] + g[1]
}

/// The bytes of a table as it is stored: two for each entry, the low byte
/// first, with nothing before, between or after.
pub open spec fn table_bytes(t: Seq<u16>) -> Seq<u8> {
    Seq::new(
        2 * t.len(),
        |i: int|
            if i % 2 == 0 {
                (t[i / 2] % 256) as u8
            } else {
                (t[i / 2] / 256) as u8
            },
    )
}

/// The table that stored bytes hold: each pair of bytes is an entry, the
/// low byte first.
pub open spec fn table_of_bytes(b: Seq<u8>) -> Seq<u16> {
    Seq::new((b.len() / 2) as nat, |i: int| (b[2 * i] + 256 * b[2 * i + 1]) as u16)
}

/// A table is read back from its stored bytes as it was, and the bytes of
/// what was read are the bytes that were stored.
pub proof fn lemma_table_bytes_round_trip(t: Seq<u16>)
    ensures
        table_of_bytes(table_bytes(t)) == t,
        table_bytes(table_of_bytes(table_bytes(t))) == table_bytes(t),
{
    let b = table_bytes(t);
    assert forall|i: int| 0 <= i < t.len() implies table_of_bytes(b)[i] == t[i] by {
        assert(b[2 * i] == (t[i] % 256) as u8);
        assert(b[2 * i + 1] == (t[i] / 256) as u8);
    }
    assert(table_of_bytes(b) =~= t);
}

/// Reinterprets pairs of bytes as 16-bit words with
/// `bytemuck::pod_collect_to_vec`, which copies the bytes as they lie into
/// words of the host. There is a word for each pair, and each word spells
/// its pair in the byte order of the host: all of them low byte first, or
/// all of them high byte first.
#[verifier::external_body]
fn words_of_pairs(pairs: &Vec<[u8; 2]>) -> (words: Vec<u16>)
    ensures
        words@.len() == pairs@.len(),
        (forall|i: int| 0 <= i < pairs@.len() ==> words@[i] == word_le(#[trigger] pairs@[i])) || (
        forall|i: int| 0 <= i < pairs@.len() ==> words@[i] == word_be(#[trigger] pairs@[i])),
{
    bytemuck::pod_collect_to_vec::<[u8; 2], u16>(pairs.as_slice())
}

/// Reinterprets 16-bit words as pairs of bytes with
/// `bytemuck::pod_collect_to_vec`, which copies the bytes of the words as
/// they lie in the host. There is a pair for each word, and each pair
/// spells its word in the byte order of the host: all of them low byte
/// first, or all of them high byte first.
#[verifier::external_body]
fn pairs_of_words(words: &Vec<u16>) -> (pairs: Vec<[u8; 2]>)
    ensures
        pairs@.len() == words@.len(),
        (forall|i: int| 0 <= i < words@.len() ==> words@[i] == word_le(#[trigger] pairs@[i])) || (
        forall|i: int| 0 <= i < words@.len() ==> words@[i] == word_be(#[trigger] pairs@[i])),
{
    bytemuck::pod_collect_to_vec::<u16, [u8; 2]>(words.as_slice())
}

/// Groups the first `2 * OUT_SIZE` bytes of a buffer into pairs.
pub fn combine_byte_groups<const OUT_SIZE: usize>(buffer: Vec<u8>) -> (bytes: Vec<
    [u8; BYTES_PER_U16],
>)
    requires
        buffer@.len() >= 2 * OUT_SIZE,
    ensures
        bytes@.len() == OUT_SIZE,
        forall|i: int|
            0 <= i < OUT_SIZE ==> (#[trigger] bytes@[i])@ == seq![
                buffer@[2 * i],
                buffer@[2 * i + 1],
            ],
{
    let mut bytes: Vec<[u8; BYTES_PER_U16]> = Vec::new();
    let n = buffer.len();
    let mut i: usize = 0;
    while i < OUT_SIZE
        invariant
            i <= OUT_SIZE,
            n == buffer@.len(),
            n >= 2 * OUT_SIZE,
            bytes@.len() == i,
            forall|t: int|
                0 <= t < i ==> (#[trigger] bytes@[t])@ == seq![buffer@[2 * t], buffer@[2 * t + 1]],
        decreases OUT_SIZE - i,
    {
        let j = BYTES_PER_U16 * i;
        let group = [buffer[j], buffer[j + 1]];
        assert(group@ =~= seq![buffer@[2 * i], buffer@[2 * i + 1]]);
        bytes.push(group);
        i += 1;
    }
    bytes
}

/// The 16-bit word with the bytes of `w` exchanged.
fn swap_bytes(w: u16) -> (r: u16)
    ensures
        r == (w % 256) * 256 + w / 256,
{
    (w % 256) * 256 + w / 256
}

/// Reads a table of `T_SIZE` entries from its stored bytes, two to an
/// entry with the low byte first, whatever the byte order of the host.
pub fn table_from_bytes<const T_SIZE: usize>(bytes: Vec<u8>) -> (table: Vec<u16>)
    requires
        bytes@.len() == 2 * T_SIZE,
    ensures
        table@ == table_of_bytes(bytes@),
{
    let mut pairs = combine_byte_groups::<T_SIZE>(bytes);
    // One pair more, whose two readings differ, tells the byte order in
    // which the words come back.
    let mark: [u8; 2] = [1, 0];
    pairs.push(mark);
    let words = words_of_pairs(&pairs);
    assert(pairs@[T_SIZE as int] == mark);
    assert(word_le(mark) == 1 && word_be(mark) == 256);
    let low_first = words[T_SIZE] == 1;

    let mut table: Vec<u16> = Vec::new();
    let mut i: usize = 0;
    while i < T_SIZE
        invariant
            i <= T_SIZE,
            bytes@.len() == 2 * T_SIZE,
            words@.len() == T_SIZE + 1,
            pairs@.len() == T_SIZE + 1,
            forall|t: int|
                0 <= t < T_SIZE ==> (#[trigger] pairs@[t])@ == seq![
                    bytes@[2 * t],
                    bytes@[2 * t + 1],
                ],
            low_first ==> forall|t: int|
                0 <= t < pairs@.len() ==> words@[t] == word_le(#[trigger] pairs@[t]),
            !low_first ==> forall|t: int|
                0 <= t < pairs@.len() ==> words@[t] == word_be(#[trigger] pairs@[t]),
            table@.len() == i,
            forall|t: int| 0 <= t < i ==> table@[t] == table_of_bytes(bytes@)[t],
        decreases T_SIZE - i,
    {
        let w = words[i];
        proof {
            let g = pairs@[i as int];
            assert(g@ == seq![bytes@[2 * i], bytes@[2 * i + 1]]);
            assert(g[0] == bytes@[2 * i] && g[1] == bytes@[2 * i + 1]);
        }
        let v = if low_first {
            w
        } else {
            swap_bytes(w)
        };
        table.push(v);
        i += 1;
    }
    assert(table@ =~= table_of_bytes(bytes@));
    table
}

/// Writes a table as the bytes to store: two to an entry with the low byte
/// first, whatever the byte order of the host.
pub fn table_to_bytes(table: &Vec<u16>) -> (bytes: Vec<u8>)
    requires
        2 * table@.len() <= usize::MAX,
    ensures
        bytes@ == table_bytes(table@),
{
    let n = table.len();
    let mut words = vstd::slice::slice_to_vec(table.as_slice());
    // One word more, whose two readings differ, tells the byte order in
    // which the pairs come back.
    words.push(1);
    let pairs = pairs_of_words(&words);
    let mark = pairs[n];
    assert(words@[n as int] == 1);
    assert(word_le(mark) == mark[0] + 256 * mark[1]);
    let low_first = mark[0] == 1;

    let mut bytes: Vec<u8> = Vec::new();
    let mut i: usize = 0;
    while i < n
        invariant
            i <= n,
            n == table@.len(),
            2 * n <= usize::MAX,
            words@.len() == n + 1,
            pairs@.len() == n + 1,
            forall|t: int| 0 <= t < n ==> words@[t] == table@[t],
            low_first ==> forall|t: int|
                0 <= t < words@.len() ==> words@[t] == word_le(#[trigger] pairs@[t]),
            !low_first ==> forall|t: int|
                0 <= t < words@.len() ==> words@[t] == word_be(#[trigger] pairs@[t]),
            bytes@.len() == 2 * i,
            forall|t: int| 0 <= t < 2 * i ==> bytes@[t] == table_bytes(table@)[t],
        decreases n - i,
    {
        let g = pairs[i];
        proof {
            assert(words@[i as int] == table@[i as int]);
            assert(g == pairs@[i as int]);
        }
        if low_first {
            bytes.push(g[0]);
            bytes.push(g[1]);
        } else {
            bytes.push(g[1]);
            bytes.push(g[0]);
        }
        i += 1;
    }
    assert(bytes@ =~= table_bytes(table@));
    bytes
}

/// Entries of the twist move table.
pub const TWIST_SIZE: usize = 39366;

/// Bytes of the stored twist move table.
pub const TWIST_BYTES_SIZE: usize = 78732;

/// Entries of the flip move table.
pub const FLIP_SIZE: usize = 36864;

/// Bytes of the stored flip move table.
pub const FLIP_BYTES_SIZE: usize = 73728;

/// Entries of the sorted slice move table.
pub const UD_SIZE: usize = 213840;

/// Bytes of the stored sorted slice move table.
pub const UD_BYTES_SIZE: usize = 427680;

/// Why stored bytes are not taken for a table.
#[derive(Clone, Copy, PartialEq, Eq, Structural, Debug)]
pub enum TableError {
    /// The bytes are not as many as the table needs: the file is corrupt.
    WrongLength,
}

/// A move table that was loaded, and what is to be done about its file.
#[derive(Debug)]
pub struct LoadedTable {
    /// The table.
    pub table: Vec<u16>,
    /// The bytes to write to the table's file, where the table was not read
    /// from it but generated.
    pub to_store: Option<Vec<u8>>,
}

/// What loading gives for stored bytes of which `bytes_size` are needed.
///
/// Stored bytes of the right number are taken as they are, and nothing is
/// to be stored; stored bytes of any other number are refused. Without
/// stored bytes the result is a table that is `generated`, with its bytes
/// to store.
pub open spec fn loaded_from(
    stored: Option<Vec<u8>>,
    bytes_size: int,
    generated: spec_fn(Vec<u16>) -> bool,
    r: Result<LoadedTable, TableError>,
) -> bool {
    match stored {
        Some(bytes) => if bytes@.len() == bytes_size {
            &&& r matches Ok(l)
            &&& l.table@ == table_of_bytes(bytes@)
            &&& l.to_store is None
        } else {
            r == Err::<LoadedTable, TableError>(TableError::WrongLength)
        },
        None => {
            &&& r matches Ok(l)
            &&& generated(l.table)
            &&& l.to_store matches Some(b)
            &&& b@ == table_bytes(l.table@)
        },
    }
}

/// Loads a move table of `T_SIZE` entries from what its file holds, if
/// there is a file, and generates it with `gen` if there is none.
///
/// Stored bytes are taken as they are when their number is right, and the
/// table is then not written again. Bytes of any other number are refused:
/// such a file is corrupt, and it is not silently replaced. Without stored
/// bytes the table is generated and comes with the bytes to store.
pub fn load_move_table<const T_SIZE: usize, const T_BYTES_SIZE: usize>(
    stored: Option<Vec<u8>>,
    gen: impl Fn() -> Vec<u16>,
) -> (r: Result<LoadedTable, TableError>)
    requires
        T_BYTES_SIZE == 2 * T_SIZE,
        gen.requires(()),
        forall|t: Vec<u16>| gen.ensures((), t) ==> t@.len() == T_SIZE,
    ensures
        loaded_from(stored, T_BYTES_SIZE as int, |t: Vec<u16>| gen.ensures((), t), r),
{
    match stored {
        Some(bytes) => {
            if bytes.len() != T_BYTES_SIZE {
                return Err(TableError::WrongLength);
            }
            let table = table_from_bytes::<T_SIZE>(bytes);
            Ok(LoadedTable { table, to_store: None })
        },
        None => {
            let table = gen();
            let bytes = table_to_bytes(&table);
            Ok(LoadedTable { table, to_store: Some(bytes) })
        },
    }
}

/// Loads the twist move table: from the bytes of its file `move_twist`
/// where there are any, else by generating it.
pub fn load_twist_move_table(stored: Option<Vec<u8>>) -> (r: Result<LoadedTable, TableError>)
    ensures
        loaded_from(stored, 78732, |t: Vec<u16>| is_twist_move_table(t@), r),
{
    load_move_table::<TWIST_SIZE, TWIST_BYTES_SIZE>(stored, gen_twist_move_table)
}

/// Loads the flip move table: from the bytes of its file `move_flip` where
/// there are any, else by generating it.
pub fn load_flip_move_table(stored: Option<Vec<u8>>) -> (r: Result<LoadedTable, TableError>)
    ensures
        loaded_from(stored, 73728, |t: Vec<u16>| is_flip_move_table(t@), r),
{
    load_move_table::<FLIP_SIZE, FLIP_BYTES_SIZE>(stored, gen_flip_move_table)
}

/// Loads the sorted slice move table: from the bytes of its file
/// `move_slice_sorted` where there are any, else by generating it.
pub fn load_ud_move_table(stored: Option<Vec<u8>>) -> (r: Result<LoadedTable, TableError>)
    ensures
        loaded_from(stored, 427680, |t: Vec<u16>| is_slice_sorted_move_table(t@), r),
{
    load_move_table::<UD_SIZE, UD_BYTES_SIZE>(stored, gen_ud_move_table)
}

} // verus!
