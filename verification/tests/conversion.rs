use cirno::conversion::{
    char_to_file, chess_move_to_uci_move, chess_piece_to_uci_piece, file_to_string, info_lines,
    make_square, number_to_rank, play_moves, rank_to_number, uci_move_to_chess_move,
    uci_piece_to_chess_piece, ConversionError, File, Info, Rank, UciMove, UciPiece, UciSquare,
};
use cirno::pieces::{Colour, Move, Piece, PieceKind};
use cirno::position::Position;
use cirno::uci::DepthData;

const START: &str = "rnbqkbnr/pppppppp/8/8/8/8/PPPPPPPP/RNBQKBNR w KQkq - 0 1";

fn uci(from: (char, u8), to: (char, u8)) -> UciMove {
    UciMove {
        from: UciSquare { file: from.0, rank: from.1 },
        to: UciSquare { file: to.0, rank: to.1 },
        promotion: None,
    }
}

#[test]
fn ranks_and_files() {
    assert_eq!(rank_to_number(&Rank::First), 1);
    assert_eq!(rank_to_number(&Rank::Eighth), 8);
    assert_eq!(file_to_string(&File::A), 'a');
    assert_eq!(file_to_string(&File::H), 'h');
    assert_eq!(char_to_file('c'), Ok(File::C));
    assert_eq!(char_to_file('i'), Err(ConversionError::CharUndefined));
    assert_eq!(char_to_file('A'), Err(ConversionError::CharUndefined));
    assert_eq!(number_to_rank(1), Ok(Rank::First));
    assert_eq!(number_to_rank(8), Ok(Rank::Eighth));
    assert_eq!(number_to_rank(0), Err(ConversionError::NumberUndefined));
    assert_eq!(number_to_rank(9), Err(ConversionError::NumberUndefined));
    assert_eq!(make_square(Rank::First, File::A), 0);
    assert_eq!(make_square(Rank::Fourth, File::E), 28);
    assert_eq!(make_square(Rank::Eighth, File::H), 63);
    assert_eq!(Rank::from_index(9), Rank::Second);
    assert_eq!(File::from_index(15), File::H);
}

#[test]
fn pieces() {
    assert_eq!(chess_piece_to_uci_piece(&PieceKind::Knight), UciPiece::Knight);
    assert_eq!(chess_piece_to_uci_piece(&PieceKind::King), UciPiece::King);
    assert_eq!(uci_piece_to_chess_piece(&UciPiece::Queen), PieceKind::Queen);
    assert_eq!(uci_piece_to_chess_piece(&UciPiece::Pawn), PieceKind::Pawn);
}

#[test]
fn moves_there_and_back() {
    let e2e4 = Move { source: 12, dest: 28, promotion: None };
    assert_eq!(chess_move_to_uci_move(&e2e4), uci(('e', 2), ('e', 4)));
    assert_eq!(uci_move_to_chess_move(&uci(('e', 2), ('e', 4))), Ok(e2e4));
    let promotes = Move { source: 48, dest: 57, promotion: Some(PieceKind::Queen) };
    let written = chess_move_to_uci_move(&promotes);
    assert_eq!(written.from, UciSquare { file: 'a', rank: 7 });
    assert_eq!(written.to, UciSquare { file: 'b', rank: 8 });
    assert_eq!(written.promotion, Some(UciPiece::Queen));
    for source in 0..64u8 {
        let m = Move { source, dest: 63 - source, promotion: Some(PieceKind::Rook) };
        assert_eq!(uci_move_to_chess_move(&chess_move_to_uci_move(&m)), Ok(m));
    }
}

#[test]
fn first_bad_field_gives_the_error() {
    assert_eq!(uci_move_to_chess_move(&uci(('x', 9), ('e', 4))), Err(ConversionError::CharUndefined));
    assert_eq!(uci_move_to_chess_move(&uci(('e', 9), ('x', 4))), Err(ConversionError::NumberUndefined));
    assert_eq!(uci_move_to_chess_move(&uci(('e', 2), ('x', 0))), Err(ConversionError::CharUndefined));
    assert_eq!(uci_move_to_chess_move(&uci(('e', 2), ('e', 0))), Err(ConversionError::NumberUndefined));
}

#[test]
fn position_command_plays_legal_moves() {
    let start = Position::from_fen(START).unwrap();
    let moves = vec![uci(('e', 2), ('e', 4)), uci(('e', 7), ('e', 5)), uci(('g', 1), ('f', 3))];
    let position = play_moves(&start, &moves).unwrap();
    assert_eq!(position.side_to_move(), Colour::Black);
    assert_eq!(position.piece_on(21), Some(Piece { kind: PieceKind::Knight, colour: Colour::White }));
    assert_eq!(position.piece_on(36), Some(Piece { kind: PieceKind::Pawn, colour: Colour::Black }));
    assert_eq!(position.piece_on(6), None);
    let same = play_moves(&start, &Vec::new()).unwrap();
    assert_eq!(same.legal_moves(), start.legal_moves());
}

#[test]
fn position_command_with_a_bad_move_is_dropped() {
    let start = Position::from_fen(START).unwrap();
    let illegal = vec![uci(('e', 2), ('e', 4)), uci(('e', 2), ('e', 4))];
    assert!(play_moves(&start, &illegal).is_none());
    let unreadable = vec![uci(('e', 2), ('e', 4)), uci(('z', 7), ('e', 5))];
    assert!(play_moves(&start, &unreadable).is_none());
    let illegal_first = vec![uci(('e', 2), ('e', 5)), uci(('e', 7), ('e', 5))];
    assert!(play_moves(&start, &illegal_first).is_none());
}

#[test]
fn info_lines_come_last_ply_first() {
    let e2e4 = Move { source: 12, dest: 28, promotion: None };
    let data = vec![
        DepthData { depth: 1, best_move: Some(e2e4), node_count: 3 },
        DepthData { depth: 2, best_move: None, node_count: 40 },
        DepthData { depth: 300, best_move: None, node_count: 7 },
    ];
    let lines = info_lines(&data);
    assert_eq!(
        lines,
        vec![
            Info { pv: None, depth: 44, nodes: 7 },
            Info { pv: None, depth: 2, nodes: 40 },
            Info { pv: Some(uci(('e', 2), ('e', 4))), depth: 1, nodes: 3 },
        ]
    );
    assert!(info_lines(&Vec::new()).is_empty());
}
