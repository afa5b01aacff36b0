use cirno::position::Position;
use cirno::basic_bot::BasicBot;
use cirno::zobrist::{
    bytes_to_capacity, capacity_to_bytes, hash, init_zobrist, zobrist_from_draws, NodeInfo,
    ZobristHashMap, DRAWS,
};

const START: &str = "rnbqkbnr/pppppppp/8/8/8/8/PPPPPPPP/RNBQKBNR w KQkq - 0 1";

fn info(eval: i32) -> NodeInfo {
    NodeInfo { eval, best_move: None, depth: 1 }
}

#[test]
fn capacity_comes_from_the_byte_budget() {
    let entry = capacity_to_bytes::<u64, NodeInfo>();
    assert_eq!(entry, 8 + std::mem::size_of::<NodeInfo>());
    assert_eq!(bytes_to_capacity::<u64, NodeInfo>(10 * entry + 3), 10);
    assert_eq!(bytes_to_capacity::<u64, NodeInfo>(entry - 1), 0);
    assert_eq!(bytes_to_capacity::<u64, u64>(160), 10);
}

#[test]
fn hash_is_stable_and_ignores_castling_rights() {
    let values = init_zobrist();
    let a = Position::from_fen(START).unwrap();
    let b = Position::from_fen("rnbqkbnr/pppppppp/8/8/8/8/PPPPPPPP/RNBQKBNR w - - 5 9").unwrap();
    assert_eq!(hash(&a, &values), hash(&a, &values));
    assert_eq!(hash(&a, &values), hash(&b, &values));
    let table: ZobristHashMap<NodeInfo> = ZobristHashMap::new(1 << 16);
    assert_eq!(table.hash(&a), table.hash(&b));
}

#[test]
fn hash_tells_positions_apart() {
    let values = init_zobrist();
    let a = Position::from_fen(START).unwrap();
    let black = Position::from_fen("rnbqkbnr/pppppppp/8/8/8/8/PPPPPPPP/RNBQKBNR b KQkq - 0 1").unwrap();
    let moved = Position::from_fen("rnbqkbnr/pppppppp/8/8/4P3/8/PPPP1PPP/RNBQKBNR w KQkq - 0 1").unwrap();
    assert_ne!(hash(&a, &values), hash(&black, &values));
    assert_ne!(hash(&a, &values), hash(&moved, &values));
    let kings = Position::from_fen("4k3/8/8/8/8/8/8/4K3 w - - 0 1").unwrap();
    let other_kings = Position::from_fen("3k4/8/8/8/8/8/8/4K3 w - - 0 1").unwrap();
    assert_ne!(hash(&kings, &values), hash(&other_kings, &values));
}

#[test]
fn table_keeps_the_latest_keys() {
    let entry = capacity_to_bytes::<u64, NodeInfo>();
    let mut table: ZobristHashMap<NodeInfo> = ZobristHashMap::new(3 * entry);
    assert_eq!(table.len(), 0);
    for key in 1..=5u64 {
        assert_eq!(table.insert_key(key, info(key as i32)), None);
        assert_eq!(table.len(), std::cmp::min(key as usize, 3));
    }
    assert!(!table.contains_key(1));
    assert!(!table.contains_key(2));
    for key in 3..=5u64 {
        assert!(table.contains_key(key));
        assert_eq!(table.get_key(key), Some(&info(key as i32)));
    }
    assert_eq!(table.get_key(9), None);
}

#[test]
fn insert_returns_the_value_it_replaces() {
    let mut table: ZobristHashMap<NodeInfo> = ZobristHashMap::new(1 << 16);
    let position = Position::from_fen(START).unwrap();
    assert!(!table.contains(&position));
    assert_eq!(table.get(&position), None);
    assert_eq!(table.insert(&position, info(1)), None);
    assert!(table.contains(&position));
    assert_eq!(table.insert(&position, info(2)), Some(info(1)));
    assert_eq!(table.get(&position), Some(&info(2)));
    assert_eq!(table.len(), 1);
}

#[test]
fn table_without_room_holds_nothing() {
    let mut table: ZobristHashMap<NodeInfo> = ZobristHashMap::new(7);
    let position = Position::from_fen(START).unwrap();
    assert_eq!(table.insert(&position, info(1)), None);
    assert!(!table.contains(&position));
    assert_eq!(table.len(), 0);
    assert_eq!(table.insert_key(4, info(1)), None);
    assert_eq!(table.insert_key(4, info(2)), None);
    assert_eq!(table.len(), 0);
}

#[test]
fn a_key_inserted_again_leaves_with_its_first_place_in_the_queue() {
    let entry = capacity_to_bytes::<u64, NodeInfo>();
    let mut table: ZobristHashMap<NodeInfo> = ZobristHashMap::new(2 * entry);
    table.insert_key(1, info(1));
    table.insert_key(2, info(2));
    assert_eq!(table.insert_key(1, info(3)), Some(info(1)));
    table.insert_key(4, info(4));
    // the oldest place in the queue is that of key 1
    assert!(!table.contains_key(1));
    assert!(table.contains_key(2));
    assert!(table.contains_key(4));
    table.remove_oldest_if_full();
    assert_eq!(table.len(), 2);
}

#[test]
fn an_inserted_key_is_found() {
    let entry = capacity_to_bytes::<u64, NodeInfo>();
    let mut table: ZobristHashMap<NodeInfo> = ZobristHashMap::new(entry);
    for key in [7u64, 9, 7, 7, 3] {
        table.insert_key(key, info(key as i32));
        assert!(table.contains_key(key));
        assert_eq!(table.get_key(key), Some(&info(key as i32)));
        assert_eq!(table.len(), 1);
    }
}

#[test]
fn size_is_the_number_of_keys_up_to_the_capacity() {
    let entry = capacity_to_bytes::<u64, NodeInfo>();
    let mut table: ZobristHashMap<NodeInfo> = ZobristHashMap::new(3 * entry + 1);
    let keys = [5u64, 5, 6, 5, 6, 7, 7, 8, 5, 9];
    let distinct = [1usize, 1, 2, 2, 2, 3, 3, 4, 4, 5];
    for (key, seen) in keys.iter().zip(distinct) {
        table.insert_key(*key, info(0));
        assert_eq!(table.len(), seen.min(3));
    }
}

fn draws() -> Vec<u64> {
    (0..DRAWS as u64).map(|j| (j + 1).wrapping_mul(0x9e37_79b9_7f4a_7c15)).collect()
}

#[test]
fn each_man_and_each_turn_has_a_draw_of_its_own() {
    let draws = draws();
    let values = zobrist_from_draws(&draws);
    // the white king on e1 is the sixth kind on the fifth square, the black
    // king on e8 the sixth kind on the sixty-first
    let kings = Position::from_fen("4k3/8/8/8/8/8/8/4K3 w - - 0 1").unwrap();
    let white_king = draws[2 * (6 * 4 + 5)];
    let black_king = draws[2 * (6 * 60 + 5) + 1];
    assert_eq!(hash(&kings, &values), white_king ^ black_king ^ draws[768]);
    let black_to_move = Position::from_fen("4k3/8/8/8/8/8/8/4K3 b - - 0 1").unwrap();
    assert_eq!(hash(&black_to_move, &values), white_king ^ black_king ^ draws[769]);
    // a white pawn on a2 and a black queen on h8
    let more = Position::from_fen("4k2q/8/8/8/8/8/P7/4K3 w - - 0 1").unwrap();
    let pawn = draws[2 * (6 * 8)];
    let queen = draws[2 * (6 * 63 + 4) + 1];
    assert_eq!(hash(&more, &values), white_king ^ black_king ^ pawn ^ queen ^ draws[768]);
}

#[test]
fn a_table_hashes_by_the_values_it_was_given() {
    let draws = draws();
    let table: ZobristHashMap<NodeInfo> = ZobristHashMap::with_values(1 << 16, zobrist_from_draws(&draws));
    let kings = Position::from_fen("4k3/8/8/8/8/8/8/4K3 w - - 0 1").unwrap();
    let key = draws[58] ^ draws[731] ^ draws[768];
    assert_eq!(table.hash(&kings), key);
    assert!(table.entries().is_empty());
    let mut bot = BasicBot::with_table(&kings, table);
    bot.search(1);
    assert!(bot.tt_table.len() > 0);
    let first = kings.legal_moves()[0];
    let child = kings.try_apply(first).unwrap();
    assert!(bot.tt_table.contains(&child));
    assert!(bot.tt_table.entries().contains_key(&bot.tt_table.hash(&child)));
}

#[test]
fn drawn_values_differ() {
    let table: ZobristHashMap<NodeInfo> = ZobristHashMap::new(0);
    let kings = Position::from_fen("4k3/8/8/8/8/8/8/4K3 w - - 0 1").unwrap();
    let other = Position::from_fen("4k3/8/8/8/8/8/8/3K4 w - - 0 1").unwrap();
    assert_ne!(table.hash(&kings), table.hash(&other));
    assert_ne!(hash(&kings, &init_zobrist()), hash(&kings, &init_zobrist()));
}
