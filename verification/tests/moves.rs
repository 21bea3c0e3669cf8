use solver::common::Color;
use solver::cubie::CubieCube;
use solver::moves::{
    combine_byte_groups, gen_flip_move_table, gen_twist_move_table, gen_ud_move_table,
    load_flip_move_table, load_move_table, load_twist_move_table, load_ud_move_table,
    table_from_bytes, table_to_bytes, TableError, FLIP_BYTES_SIZE, FLIP_SIZE, TWIST_BYTES_SIZE,
    TWIST_SIZE, UD_BYTES_SIZE, UD_SIZE,
};

/// A checksum over the stored form of a table: low byte first.
fn checksum(table: &[u16]) -> u64 {
    let mut h: u64 = 0xcbf2_9ce4_8422_2325;
    for v in table {
        for b in [(v & 0xff) as u64, (v >> 8) as u64] {
            h ^= b;
            h = h.wrapping_mul(0x0000_0100_0000_01b3);
        }
    }
    h
}

#[test]
fn penis() {
    let flips = load_ud_move_table(None).unwrap();
    assert_eq!(flips.table.len(), UD_SIZE);
}

/// Tables are stored and loaded with the same data.
#[test]
fn file_saves_and_loads() {
    let stored = load_twist_move_table(None).unwrap().to_store.unwrap();
    assert_eq!(load_twist_move_table(Some(stored)).unwrap().table, gen_twist_move_table());
    let stored = load_flip_move_table(None).unwrap().to_store.unwrap();
    assert_eq!(load_flip_move_table(Some(stored)).unwrap().table, gen_flip_move_table());
    let stored = load_ud_move_table(None).unwrap().to_store.unwrap();
    assert_eq!(load_ud_move_table(Some(stored)).unwrap().table, gen_ud_move_table());
}

#[test]
fn twist_file_correct() {
    let twists = gen_twist_move_table();
    let good_twists =
        load_move_table::<TWIST_SIZE, TWIST_BYTES_SIZE>(None, gen_twist_move_table).unwrap();
    assert_eq!(twists, good_twists.table);
}

#[test]
fn flip_file_correct() {
    let flips = gen_flip_move_table();
    let good_flips =
        load_move_table::<FLIP_SIZE, FLIP_BYTES_SIZE>(None, gen_flip_move_table).unwrap();
    assert_eq!(good_flips.table, flips);
}

#[test]
fn slice_sorted_file_correct() {
    let slice_sorted = gen_ud_move_table();
    let good_flips = load_move_table::<UD_SIZE, UD_BYTES_SIZE>(None, gen_ud_move_table).unwrap();
    assert_eq!(good_flips.table, slice_sorted);
}

#[test]
fn twist_table_known_values() {
    let t = gen_twist_move_table();
    assert_eq!(t.len(), 39366);
    assert_eq!(
        &t[..20],
        &[0, 0, 0, 1494, 0, 1494, 1236, 0, 1236, 0, 0, 0, 412, 0, 412, 137, 0, 137, 1, 1]
    );
    assert_eq!(&t[39361..], &[2186, 1614, 1969, 2105, 1995]);
    assert_eq!(t.iter().map(|v| *v as u64).sum::<u64>(), 43027038);
    assert_eq!(checksum(&t), 0xbfb3_e230_cad5_7375);
}

#[test]
fn flip_table_known_values() {
    let t = gen_flip_move_table();
    assert_eq!(t.len(), 36864);
    assert_eq!(
        &t[..20],
        &[0, 0, 0, 0, 0, 0, 550, 0, 550, 0, 0, 0, 0, 0, 0, 137, 0, 137, 1, 1]
    );
    assert_eq!(&t[36859..], &[2047, 2047, 1910, 2047, 1910]);
    assert_eq!(t[18 * 5 + 6], 519);
    assert_eq!(t.iter().map(|v| *v as u64).sum::<u64>(), 37730304);
    assert_eq!(checksum(&t), 0xe935_b23d_beb2_a925);
}

#[test]
fn slice_sorted_table_known_values() {
    let t = gen_ud_move_table();
    assert_eq!(t.len(), 213840);
    assert_eq!(
        &t[..20],
        &[0, 0, 0, 8824, 10, 8814, 5521, 1, 5520, 0, 0, 0, 3339, 5, 3340, 1904, 20, 1908, 1, 1]
    );
    assert_eq!(&t[213835..], &[11595, 11499, 11711, 11783, 11687]);
    assert_eq!(t[18 * 420 + 4], 411);
    assert_eq!(t.iter().map(|v| *v as u64).sum::<u64>(), 1270102680);
    assert_eq!(checksum(&t), 0xa92b_31db_4b39_efe5);
}

/// Every entry of a table is what the move makes of the seeded cube.
#[test]
fn tables_are_faithful() {
    let twist = gen_twist_move_table();
    let flip = gen_flip_move_table();
    let ud = gen_ud_move_table();
    for m in 0..18usize {
        for i in (0..2187u16).step_by(41) {
            let mut c = CubieCube::solved();
            c.set_twist(i);
            c.apply_move(m);
            assert_eq!(twist[18 * i as usize + m], c.get_twist());
        }
        for i in (0..2048u16).step_by(37) {
            let mut c = CubieCube::solved();
            c.set_flip(i);
            c.apply_move(m);
            assert_eq!(flip[18 * i as usize + m], c.get_flip());
        }
        for i in (0..11880u16).step_by(113) {
            let mut c = CubieCube::solved();
            c.set_slice_sorted(i);
            c.apply_move(m);
            assert_eq!(ud[18 * i as usize + m], c.get_slice_sorted());
        }
    }
}

/// The twist table at the solved cube and the quarter turn of R.
#[test]
fn table_lookup_equals_direct_compose() {
    let t = gen_twist_move_table();
    let mut c = CubieCube::solved();
    c.multiply(&CubieCube::basic_move(Color::R));
    assert_eq!(t[0 * 18 + 3], c.get_twist());
    assert_eq!(t[3], 1494);
}

#[test]
fn stored_bytes_are_low_byte_first() {
    let table = vec![0x0102u16, 0xfffe, 0, 1, 256];
    let bytes = table_to_bytes(&table);
    assert_eq!(bytes, vec![0x02, 0x01, 0xfe, 0xff, 0, 0, 1, 0, 0, 1]);
    assert_eq!(table_from_bytes::<5>(bytes), table);
    assert_eq!(table_from_bytes::<2>(vec![0x34, 0x12, 0xcd, 0xab]), vec![0x1234, 0xabcd]);
    assert_eq!(table_to_bytes(&Vec::new()), Vec::<u8>::new());
    assert_eq!(table_from_bytes::<0>(Vec::new()), Vec::<u16>::new());
}

#[test]
fn byte_groups() {
    let groups = combine_byte_groups::<3>(vec![1, 2, 3, 4, 5, 6, 7]);
    assert_eq!(groups, vec![[1, 2], [3, 4], [5, 6]]);
    assert_eq!(combine_byte_groups::<0>(vec![9]), Vec::<[u8; 2]>::new());
}

#[test]
fn persistence_round_trip() {
    let first = load_flip_move_table(None).unwrap();
    let bytes = first.to_store.unwrap();
    assert_eq!(bytes.len(), 73728);
    let again = load_flip_move_table(Some(bytes.clone())).unwrap();
    assert!(again.to_store.is_none());
    assert_eq!(again.table, first.table);
    assert_eq!(table_to_bytes(&again.table), bytes);
}

#[test]
fn stored_table_sizes() {
    assert_eq!(load_twist_move_table(None).unwrap().to_store.unwrap().len(), 78732);
    assert_eq!(load_ud_move_table(None).unwrap().to_store.unwrap().len(), 427680);
    assert_eq!((TWIST_SIZE, FLIP_SIZE, UD_SIZE), (39366, 36864, 213840));
    assert_eq!((TWIST_BYTES_SIZE, FLIP_BYTES_SIZE, UD_BYTES_SIZE), (78732, 73728, 427680));
}

#[test]
fn wrong_length_is_refused() {
    let short = vec![0u8; 78731];
    assert_eq!(load_twist_move_table(Some(short)).unwrap_err(), TableError::WrongLength);
    let long = vec![0u8; 73730];
    assert_eq!(load_flip_move_table(Some(long)).unwrap_err(), TableError::WrongLength);
    assert_eq!(load_ud_move_table(Some(Vec::new())).unwrap_err(), TableError::WrongLength);
    let other = vec![0u8; 73728];
    assert!(load_twist_move_table(Some(other)).is_err());
}

#[test]
fn stored_bytes_are_taken_as_they_are() {
    let mut bytes = vec![0u8; 73728];
    bytes[0] = 7;
    bytes[1] = 1;
    bytes[73727] = 2;
    let loaded = load_flip_move_table(Some(bytes)).unwrap();
    assert!(loaded.to_store.is_none());
    assert_eq!(loaded.table.len(), 36864);
    assert_eq!(loaded.table[0], 263);
    assert_eq!(loaded.table[1], 0);
    assert_eq!(loaded.table[36863], 512);
}
