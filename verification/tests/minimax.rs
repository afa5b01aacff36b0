use cirno::basic_bot::BasicBot;
use cirno::position::Position;

fn minimax(bot: &BasicBot, position: &Position, depth: u16, is_maximizing_player: bool) -> i32 {
    let moves = position.legal_moves();
    if depth == 0 {
        return bot.evaluation(position, &moves, is_maximizing_player);
    }
    let mut best = if is_maximizing_player { -1_000_000 } else { 1_000_000 };
    for m in moves {
        let child = position.try_apply(m).unwrap();
        let score = minimax(bot, &child, depth - 1, !is_maximizing_player);
        if is_maximizing_player {
            best = best.max(score);
        } else {
            best = best.min(score);
        }
    }
    best
}

fn compare(fen: &str, depth: u16) {
    let position = Position::from_fen(fen).unwrap();
    let mut bot = BasicBot::new(&position, 0);
    let expected = minimax(&bot, &position, depth, true);
    let (score, best) = bot.search(depth);
    assert_eq!(score, expected, "{fen} at depth {depth}");
    assert_eq!(bot.tt_table.len(), 0);
    if let Some(m) = best {
        let child = position.try_apply(m).unwrap();
        assert_eq!(minimax(&bot, &child, depth - 1, false), expected);
    }
    // a second search, with killer moves and history counts in place
    let (again, _) = bot.search(depth);
    assert_eq!(again, expected);
}

#[test]
fn pruning_keeps_the_score_in_the_opening() {
    let fen = "rnbqkbnr/pppppppp/8/8/8/8/PPPPPPPP/RNBQKBNR w KQkq - 0 1";
    compare(fen, 1);
    compare(fen, 2);
    compare(fen, 3);
}

#[test]
fn pruning_keeps_the_score_in_a_middle_game() {
    let fen = "r1bqk2r/ppp2ppp/2n2n2/2bpp3/2B1P3/2NP1N2/PPP2PPP/R1BQK2R w KQkq - 0 6";
    compare(fen, 1);
    compare(fen, 2);
    compare(fen, 3);
}

#[test]
fn pruning_keeps_the_score_for_black() {
    compare("r3k2r/pp3ppp/2n5/3q4/3P4/5N2/PP3PPP/R2QK2R b KQkq - 0 12", 3);
    compare("8/5k2/8/3p4/3P4/4K3/8/8 b - - 0 1", 4);
}

#[test]
fn pruning_keeps_the_score_near_mate() {
    compare("6k1/5ppp/8/8/8/8/8/R5K1 w - - 0 1", 1);
    compare("6k1/5ppp/8/8/8/8/8/R5K1 w - - 0 1", 2);
    compare("6k1/5ppp/8/8/8/8/8/R5K1 w - - 0 1", 3);
    compare("7k/5Q2/6K1/8/8/8/8/8 w - - 0 1", 2);
    compare("k7/8/1Q6/8/8/8/8/7K b - - 0 1", 2);
}

#[test]
fn depth_zero_is_the_evaluation() {
    let position = Position::from_fen("4k3/8/8/8/4P3/8/8/4K3 w - - 0 1").unwrap();
    let mut bot = BasicBot::new(&position, 1 << 16);
    assert_eq!(bot.search(0), (94, None));
    assert!(bot.uci.get_depth_data().is_empty());
    assert_eq!(bot.killer_moves.len(), 15);
}

#[test]
fn search_leaves_the_engine_position_alone() {
    let fen = "r1bqk2r/ppp2ppp/2n2n2/2bpp3/2B1P3/2NP1N2/PPP2PPP/R1BQK2R w KQkq - 0 6";
    let position = Position::from_fen(fen).unwrap();
    let mut bot = BasicBot::new(&position, 1 << 20);
    let (_, best) = bot.search(20 - 17);
    assert_eq!(bot.board.legal_moves(), position.legal_moves());
    assert!(position.legal_moves().contains(&best.unwrap()));
    assert!(bot.killer_moves.len() >= 15);
    let next = position.try_apply(best.unwrap()).unwrap();
    bot.change_board(&next);
    assert_eq!(bot.board.legal_moves(), next.legal_moves());
    assert!(position.try_apply(cirno::pieces::Move { source: 0, dest: 63, promotion: None }).is_none());
}

#[test]
fn deep_search_grows_the_killer_rows() {
    let position = Position::from_fen("7k/8/8/8/8/8/8/K7 w - - 0 1").unwrap();
    let mut bot = BasicBot::new(&position, 0);
    bot.killer_moves.truncate(2);
    bot.search(3);
    assert_eq!(bot.killer_moves.len(), 4);
}
