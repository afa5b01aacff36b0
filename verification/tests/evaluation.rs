use cirno::basic_bot::BasicBot;
use cirno::bits::popcnt;
use cirno::pieces::{Colour, Move, PieceKind};
use cirno::pieces_colored::PiecesColored;
use cirno::piece_sq_tables::{create_pesto_piece_square, mirrored, PeSTOPieceSquare, MG_PAWN};
use cirno::position::Position;

const START: &str = "rnbqkbnr/pppppppp/8/8/8/8/PPPPPPPP/RNBQKBNR w KQkq - 0 1";

fn bot(fen: &str) -> (BasicBot, Position) {
    let position = Position::from_fen(fen).unwrap();
    (BasicBot::new(&position, 0), position)
}

fn evaluate(fen: &str, is_maximizing_player: bool) -> i32 {
    let (bot, position) = bot(fen);
    let moves = position.legal_moves();
    bot.evaluation(&position, &moves, is_maximizing_player)
}

#[test]
fn starting_position_is_level() {
    assert_eq!(evaluate(START, true), 0);
    assert_eq!(evaluate(START, false), 0);
}

#[test]
fn evaluation_is_from_the_side_to_move() {
    // White has one pawn left, and Black is to move
    let seven_up = "rnbqkbnr/pppppppp/8/8/4P3/8/8/RNBQKBNR b KQkq - 0 1";
    let (bot, position) = bot(seven_up);
    assert_eq!(bot.evaluate_material_advantage(&position), 700);
    // after 1. e4 the pawn stands 32 better, and Black is to move
    let after_e4 = "rnbqkbnr/pppppppp/8/8/4P3/8/PPPP1PPP/RNBQKBNR b KQkq - 0 1";
    assert_eq!(evaluate(after_e4, true), -32);
}

#[test]
fn score_is_tapered_by_material() {
    // a pawn and the kings: 100 of 7800 in material, 17 in the middle game, -7 in the end game
    let fen = "4k3/8/8/8/4P3/8/8/4K3 w - - 0 1";
    let (bot, position) = bot(fen);
    assert_eq!(bot.calculate_piece_sq_with_board(&position), (25, -35, 8, -28));
    assert_eq!(bot.evaluate_piece_sq_table(&position), -6);
    assert_eq!(bot.calculate_score(&position, 17, -7), -6);
    assert_eq!(bot.calculate_score(&position, 7800, 0), 100);
    assert_eq!(bot.calculate_score(&position, -7800, 0), -100);
    assert_eq!(evaluate(fen, true), 94);
}

#[test]
fn material_beyond_the_starting_array_counts_as_all_of_it() {
    let fen = "QQQQkQQQ/QQQQ1QQQ/8/8/8/8/8/4K3 b - - 0 1";
    let (bot, position) = bot(fen);
    assert_eq!(bot.calculate_score(&position, 55, -1000), 55);
}

#[test]
fn mated_side_to_move_loses() {
    // fool's mate: White is mated
    let fen = "rnb1kbnr/pppp1ppp/8/4p3/6Pq/5P2/PPPPP2P/RNBQKBNR w KQkq - 1 3";
    let (bot, position) = bot(fen);
    let moves = position.legal_moves();
    assert!(moves.is_empty());
    assert!(position.in_check());
    assert_eq!(bot.evaluate_mates(&position, &moves, true), -999_999);
    assert_eq!(bot.evaluate_mates(&position, &moves, false), 999_999);
    assert!(bot.evaluation(&position, &moves, true) <= -900_000);
    assert!(bot.evaluation(&position, &moves, false) >= 900_000);
}

#[test]
fn stalemate_is_worth_less_than_mate() {
    let fen = "k7/8/1Q6/8/8/8/8/7K b - - 0 1";
    let (bot, position) = bot(fen);
    let moves = position.legal_moves();
    assert_eq!(bot.evaluate_mates(&position, &moves, true), -555_555);
    assert_eq!(bot.evaluate_mates(&position, &moves, false), 555_555);
    assert!(bot.evaluation(&position, &moves, true).abs() >= 500_000);
    let other = Position::from_fen(START).unwrap();
    assert_eq!(bot.evaluate_mates(&other, &other.legal_moves(), true), 0);
}

#[test]
fn mirrored_position_evaluates_alike() {
    let fen = "r1bqkbnr/pppp1ppp/2n5/4p3/4P3/5N2/PPPP1PPP/RNBQKB1R w KQkq - 2 3";
    let mirror = "rnbqkb1r/pppp1ppp/5n2/4p3/4P3/2N5/PPPP1PPP/R1BQKBNR b KQkq - 2 3";
    assert_eq!(evaluate(fen, true), evaluate(mirror, true));
    let fen = "4k3/8/8/8/4P3/8/8/4K3 w - - 0 1";
    let mirror = "4k3/8/8/4p3/8/8/8/4K3 b - - 0 1";
    assert_eq!(evaluate(mirror, false), 94);
    assert_eq!(evaluate(fen, true), evaluate(mirror, true));
}

#[test]
fn material_is_counted_by_kind() {
    let (bot, position) = bot(START);
    let white = PiecesColored::get_colored_pieces(&position, Colour::White);
    assert_eq!(white.color, Colour::White);
    assert_eq!(white.pawns, 0xff00);
    assert_eq!(white.rooks, 0x81);
    assert_eq!(white.kings, 0x10);
    assert_eq!(white.queens, 0x08);
    assert_eq!(white.knights, 0x42);
    assert_eq!(white.bishops, 0x24);
    assert_eq!(bot.calculate_material(white), 3900);
    let black = PiecesColored::get_colored_pieces(&position, Colour::Black);
    assert_eq!(black.pawns, 0x00ff_0000_0000_0000);
    assert_eq!(bot.calculate_material(black), 3900);
    assert_eq!(position.color_combined(Colour::Black), 0xffff_0000_0000_0000);
    assert_eq!(position.pieces(PieceKind::Knight), 0x4200_0000_0000_0042);
}

#[test]
fn popcnt_counts_set_bits() {
    assert_eq!(popcnt(0), 0);
    assert_eq!(popcnt(u64::MAX), 64);
    assert_eq!(popcnt(0x8000_0000_0000_0001), 2);
    assert_eq!(popcnt(0xff00), 8);
}

#[test]
fn black_tables_are_white_tables_mirrored() {
    let (mg, eg) = create_pesto_piece_square();
    let pesto = PeSTOPieceSquare::new();
    assert_eq!(pesto.middle_game.pawn_table, MG_PAWN);
    for square in 0..64u8 {
        for kind in [PieceKind::Pawn, PieceKind::Knight, PieceKind::King] {
            assert_eq!(mg.get(Colour::Black, kind, square), mg.get(Colour::White, kind, square ^ 56));
            assert_eq!(eg.get(Colour::Black, kind, square), eg.get(Colour::White, kind, square ^ 56));
            assert_eq!(mg.get(Colour::White, kind, square), pesto.middle_game.get(kind, square));
        }
    }
    // a white pawn on e2 and a black pawn on e7
    assert_eq!(mg.get(Colour::White, PieceKind::Pawn, 12), -15);
    assert_eq!(mg.get(Colour::Black, PieceKind::Pawn, 52), -15);
    assert_eq!(mg.get(Colour::White, PieceKind::Pawn, 52), 68);
    assert_eq!(eg.get(Colour::White, PieceKind::Pawn, 55), 187);
    let table = mirrored(&MG_PAWN);
    assert_eq!(table[52], MG_PAWN[12]);
    assert_eq!(table[0], MG_PAWN[56]);
}

#[test]
fn capture_scores() {
    let (bot, position) = bot("4k3/8/8/4q3/4R3/8/8/4K3 w - - 0 1");
    assert_eq!(bot.piece_value(PieceKind::Pawn), 1);
    assert_eq!(bot.piece_value(PieceKind::Knight), 3);
    assert_eq!(bot.piece_value(PieceKind::Bishop), 3);
    assert_eq!(bot.piece_value(PieceKind::Rook), 5);
    assert_eq!(bot.piece_value(PieceKind::Queen), 9);
    assert_eq!(bot.piece_value(PieceKind::King), i32::MAX);
    let takes = Move { source: 28, dest: 36, promotion: None };
    assert_eq!(bot.mvv_lva_score(&takes, &position), Some(4));
    let quiet = Move { source: 28, dest: 29, promotion: None };
    assert_eq!(bot.mvv_lva_score(&quiet, &position), None);
    let king_takes = Move { source: 4, dest: 36, promotion: None };
    assert_eq!(bot.mvv_lva_score(&king_takes, &position), Some(9 - i32::MAX));
    assert_eq!(bot.piece_to_int(PieceKind::Pawn), 0);
    assert_eq!(bot.piece_to_int(PieceKind::King), 5);
}

#[test]
fn the_other_side_sees_the_opposite() {
    assert_eq!(evaluate("4k3/8/8/8/4P3/8/8/4K3 w - - 0 1", true), 94);
    assert_eq!(evaluate("4k3/8/8/8/4P3/8/8/4K3 b - - 0 1", true), -94);
    let white = "r1bqk2r/ppp2ppp/2n2n2/2bpp3/2B1P3/2NP1N2/PPP2PPP/R1BQK2R w KQkq - 0 6";
    let black = "r1bqk2r/ppp2ppp/2n2n2/2bpp3/2B1P3/2NP1N2/PPP2PPP/R1BQK2R b KQkq - 0 6";
    assert_eq!(evaluate(white, true), -evaluate(black, false));
}
