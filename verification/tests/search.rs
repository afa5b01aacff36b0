use cirno::basic_bot::BasicBot;
use cirno::pieces::Move;
use cirno::position::Position;

const START: &str = "rnbqkbnr/pppppppp/8/8/8/8/PPPPPPPP/RNBQKBNR w KQkq - 0 1";

fn bot(fen: &str, tt_bytes: usize) -> BasicBot {
    let position = Position::from_fen(fen).unwrap();
    BasicBot::new(&position, tt_bytes)
}

fn visited(bot: &BasicBot) -> u64 {
    bot.uci.get_depth_data().iter().map(|d| d.node_count as u64).sum()
}

#[test]
fn forced_mate_in_one_for_white() {
    let mut bot = bot("6k1/5ppp/8/8/8/8/5PPP/R5K1 w - - 0 1", 1 << 20);
    let (score, best) = bot.search(2);
    assert!(score >= 900_000);
    let after = bot.board.try_apply(best.unwrap()).unwrap();
    assert!(after.legal_moves().is_empty());
    assert!(after.in_check());
}

#[test]
fn stalemate_has_no_move() {
    let mut bot = bot("k7/8/1Q6/8/8/8/8/7K b - - 0 1", 1 << 20);
    let (score, best) = bot.search(1);
    assert!(score.abs() >= 500_000);
    assert_eq!(best, None);
    assert!(bot.board.legal_moves().is_empty());
}

#[test]
fn starting_position_at_depth_four() {
    let mut bot = bot(START, 1 << 20);
    let (score, best) = bot.search(4);
    assert!((-200..=200).contains(&score), "score {}", score);
    assert!(bot.board.legal_moves().contains(&best.unwrap()));
}

#[test]
fn rook_takes_queen() {
    let mut bot = bot("4k3/8/8/4q3/4R3/8/8/4K3 w - - 0 1", 1 << 20);
    let (_, best) = bot.search(2);
    assert_eq!(best, Some(Move { source: 28, dest: 36, promotion: None }));
}

#[test]
fn second_search_visits_fewer_nodes() {
    let mut bot = bot(START, 1 << 20);
    bot.search(3);
    let first = visited(&bot);
    bot.search(3);
    let second = visited(&bot);
    assert!(second < first, "{} then {}", first, second);
}

#[test]
fn killer_move_is_tried_first() {
    let mut bot = bot(START, 1 << 20);
    let moves = bot.board.legal_moves();
    let killer = moves[7];
    bot.update_killer_move(3, killer);
    let board = bot.board;
    let ordered = bot.order_moves(&board, &moves, 3);
    assert_eq!(ordered[0], killer);
    assert_eq!(ordered.len(), moves.len());
    let other = bot.order_moves(&board, &moves, 2);
    assert_eq!(other, moves);
}

#[test]
fn remembered_scores_are_reused() {
    let fen = "7k/8/8/8/8/8/8/K7 w - - 0 1";
    let mut fresh = bot(fen, 1 << 20);
    assert_eq!(fresh.search(1).0, -9);
    // after a deeper search the table holds the scores of the first moves,
    // found with more depth left than the shallow search asks for
    let mut warm = bot(fen, 1 << 20);
    assert_eq!(warm.search(2).0, -6);
    assert_eq!(warm.search(1).0, -6);
    // without a table nothing is remembered
    let mut bare = bot(fen, 0);
    bare.search(2);
    assert_eq!(bare.search(1).0, -9);
}

#[test]
fn a_root_without_moves_gives_no_move() {
    for fen in ["k7/8/1Q6/8/8/8/8/7K b - - 0 1", "7k/6Q1/6K1/8/8/8/8/8 b - - 0 1"] {
        let mut bot = bot(fen, 1 << 20);
        for depth in 1..4 {
            assert_eq!(bot.search(depth), (-1_000_000, None));
            assert!(bot.uci.get_depth_data().is_empty());
            assert_eq!(bot.tt_table.len(), 0);
        }
        // with no depth left the position is evaluated
        let (score, best) = bot.search(0);
        assert_eq!(best, None);
        assert!(score <= -500_000);
    }
}

#[test]
fn a_root_with_moves_gives_one_of_them() {
    for fen in [START, "7k/8/8/8/8/8/8/K7 w - - 0 1", "4k3/8/8/4q3/4R3/8/8/4K3 w - - 0 1"] {
        let mut bot = bot(fen, 1 << 20);
        let moves = bot.board.legal_moves();
        for depth in 1..4 {
            let (_, best) = bot.search(depth);
            assert!(moves.contains(&best.unwrap()));
            assert_eq!(bot.board.legal_moves(), moves);
            assert_eq!((bot.uci.nodes_total, bot.uci.ms_passed), (0, 0));
        }
    }
}
