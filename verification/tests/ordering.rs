use cirno::basic_bot::{empty_killers, BasicBot, KILLER_DEPTHS, KILLER_SLOTS};
use cirno::ordering::key_less;
use cirno::pieces::Move;
use cirno::position::{contains_move, Position};
use cirno::uci::{DepthData, Uci};

const START: &str = "rnbqkbnr/pppppppp/8/8/8/8/PPPPPPPP/RNBQKBNR w KQkq - 0 1";

fn mv(source: u8, dest: u8) -> Move {
    Move { source, dest, promotion: None }
}

#[test]
fn new_engine_has_empty_killers_and_history() {
    let position = Position::from_fen(START).unwrap();
    let bot = BasicBot::new(&position, 1 << 16);
    assert_eq!(bot.killer_moves.len(), KILLER_DEPTHS);
    assert!(bot.killer_moves.iter().all(|row| row == &vec![None; KILLER_SLOTS]));
    assert_eq!(empty_killers(), vec![None; 4]);
    assert_eq!(bot.history, vec![0; 4096]);
    assert!(bot.uci.get_depth_data().is_empty());
    assert_eq!(bot.tt_table.len(), 0);
    assert_eq!(bot.board.legal_moves().len(), 20);
}

#[test]
fn killer_row_keeps_the_latest_moves_first() {
    let position = Position::from_fen(START).unwrap();
    let mut bot = BasicBot::new(&position, 1 << 16);
    for i in 0..6u8 {
        bot.update_killer_move(2, mv(i, i + 8));
    }
    assert_eq!(
        bot.killer_moves[2],
        vec![Some(mv(5, 13)), Some(mv(4, 12)), Some(mv(3, 11)), Some(mv(2, 10))]
    );
    assert_eq!(bot.killer_moves[1], vec![None; 4]);
    bot.update_killer_move(2, mv(5, 13));
    assert_eq!(
        bot.killer_moves[2],
        vec![Some(mv(5, 13)), Some(mv(5, 13)), Some(mv(4, 12)), Some(mv(3, 11))]
    );
    assert!(bot.is_killer(2, mv(4, 12)));
    assert!(!bot.is_killer(2, mv(2, 10)));
    assert!(!bot.is_killer(3, mv(4, 12)));
    // no row for this depth: nothing happens
    bot.update_killer_move(40, mv(1, 2));
    assert!(!bot.is_killer(40, mv(1, 2)));
    assert_eq!(bot.killer_moves.len(), KILLER_DEPTHS);
}

#[test]
fn killers_come_in_killer_order_and_once() {
    let position = Position::from_fen(START).unwrap();
    let mut bot = BasicBot::new(&position, 1 << 16);
    let moves = position.legal_moves();
    let (a, b) = (moves[3], moves[11]);
    bot.update_killer_move(1, a);
    bot.update_killer_move(1, mv(0, 63));
    bot.update_killer_move(1, b);
    bot.update_killer_move(1, b);
    let ordered = bot.order_moves(&position, &moves, 1);
    assert_eq!(ordered.len(), moves.len());
    assert_eq!(ordered[0], b);
    assert_eq!(ordered[1], a);
    let rest: Vec<Move> = moves.iter().copied().filter(|m| *m != a && *m != b).collect();
    assert_eq!(&ordered[2..], &rest[..]);
    assert!(!contains_move(&ordered, mv(0, 63)));
    assert!(contains_move(&ordered, a));
}

#[test]
fn history_orders_quiet_moves_up_to_the_limit() {
    let position = Position::from_fen(START).unwrap();
    let mut bot = BasicBot::new(&position, 1 << 16);
    let moves = position.legal_moves();
    let (often, once) = (moves[9], moves[15]);
    bot.update_history(often);
    bot.update_history(often);
    bot.update_history(once);
    assert_eq!(bot.history[64 * often.source as usize + often.dest as usize], 2);
    let ordered = bot.order_moves(&position, &moves, 10);
    assert_eq!(ordered[0], often);
    assert_eq!(ordered[1], once);
    let rest: Vec<Move> = moves.iter().copied().filter(|m| *m != often && *m != once).collect();
    assert_eq!(&ordered[2..], &rest[..]);
    // beyond the limit the history does not count
    assert_eq!(bot.order_moves(&position, &moves, 11), moves);
    assert_eq!(bot.sort_key(&position, 10, &often), (-2, 0));
    assert_eq!(bot.sort_key(&position, 11, &often), (0, 0));
}

#[test]
fn captures_come_by_victim_and_aggressor() {
    // the pawn or the queen can take the rook; the queen can take the knight
    let position = Position::from_fen("4k3/8/8/3r4/4P3/8/1n6/1Q2K3 w - - 0 1").unwrap();
    let bot = BasicBot::new(&position, 1 << 16);
    let moves = position.legal_moves();
    let ordered = bot.order_moves(&position, &moves, 1);
    assert_eq!(ordered[0], mv(28, 35));
    assert_eq!(bot.sort_key(&position, 1, &mv(28, 35)), (0, -4));
    assert_eq!(bot.sort_key(&position, 1, &mv(1, 9)), (0, 6));
    assert_eq!(ordered[ordered.len() - 1], mv(1, 9));
    assert_eq!(ordered.len(), moves.len());
    assert!(key_less((0, -4), (0, 0)));
    assert!(key_less((-1, 5), (0, -4)));
    assert!(!key_less((0, 0), (0, 0)));
}

#[test]
fn history_count_stops_at_the_top() {
    let position = Position::from_fen(START).unwrap();
    let mut bot = BasicBot::new(&position, 1 << 16);
    bot.history[64 * 12 + 28] = u32::MAX;
    bot.update_history(mv(12, 28));
    assert_eq!(bot.history[64 * 12 + 28], u32::MAX);
}

#[test]
fn progress_record_has_one_entry_per_ply() {
    let mut uci = Uci::default();
    uci.update_depth_data(3, 3, Some(mv(12, 28)));
    uci.update_depth_data(2, 3, None);
    uci.update_depth_data(3, 3, Some(mv(6, 21)));
    uci.update_depth_data(1, 3, Some(mv(1, 18)));
    uci.update_depth_data(2, 3, Some(mv(52, 36)));
    assert_eq!(
        uci.get_depth_data(),
        &vec![
            DepthData { depth: 1, best_move: Some(mv(6, 21)), node_count: 2 },
            DepthData { depth: 2, best_move: Some(mv(52, 36)), node_count: 2 },
            DepthData { depth: 3, best_move: Some(mv(1, 18)), node_count: 1 },
        ]
    );
    uci.depth_data[0].node_count = u32::MAX;
    uci.update_depth_data(3, 3, None);
    assert_eq!(uci.depth_data[0], DepthData { depth: 1, best_move: None, node_count: u32::MAX });
    uci.set_ms_passed(12);
    assert_eq!(uci.ms_passed, 12);
    assert_eq!(uci.nodes_total, 0);
}

#[test]
fn reset_forgets_everything_but_the_table() {
    let position = Position::from_fen(START).unwrap();
    let mut bot = BasicBot::new(&position, 1 << 20);
    bot.search(3);
    bot.uci.set_ms_passed(5);
    let held = bot.tt_table.len();
    assert!(held > 0);
    assert!(!bot.uci.get_depth_data().is_empty());
    bot.reset();
    assert!(bot.killer_moves.iter().all(|row| row == &vec![None; KILLER_SLOTS]));
    assert_eq!(bot.history, vec![0; 4096]);
    assert!(bot.uci.get_depth_data().is_empty());
    assert_eq!(bot.uci.ms_passed, 0);
    assert_eq!(bot.tt_table.len(), held);
}
