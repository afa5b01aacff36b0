use cirno::pieces::{Colour, Move, Piece, PieceKind};
use cirno::placement::{has_kings, reads_en_passant};
use cirno::position::Position;

const START: &str = "rnbqkbnr/pppppppp/8/8/8/8/PPPPPPPP/RNBQKBNR w KQkq - 0 1";

#[test]
fn start_position_has_twenty_moves() {
    let position = Position::from_fen(START).unwrap();
    assert_eq!(position.legal_moves().len(), 20);
    assert_eq!(position.side_to_move(), Colour::White);
    assert!(!position.in_check());
}

#[test]
fn piece_on_reads_the_board() {
    let position = Position::from_fen(START).unwrap();
    assert_eq!(position.piece_on(0), Some(Piece { kind: PieceKind::Rook, colour: Colour::White }));
    assert_eq!(position.piece_on(4), Some(Piece { kind: PieceKind::King, colour: Colour::White }));
    assert_eq!(position.piece_on(59), Some(Piece { kind: PieceKind::Queen, colour: Colour::Black }));
    assert_eq!(position.piece_on(27), None);
    assert_eq!(position.piece_on(64), None);
}

#[test]
fn apply_moves_the_man_and_passes_the_turn() {
    let position = Position::from_fen(START).unwrap();
    let e2e4 = Move { source: 12, dest: 28, promotion: None };
    let next = position.try_apply(e2e4).unwrap();
    assert_eq!(next.piece_on(12), None);
    assert_eq!(next.piece_on(28), Some(Piece { kind: PieceKind::Pawn, colour: Colour::White }));
    assert_eq!(next.side_to_move(), Colour::Black);
    let e2e5 = Move { source: 12, dest: 36, promotion: None };
    assert!(position.try_apply(e2e5).is_none());
}

#[test]
fn text_without_a_king_is_no_position() {
    assert!(Position::from_fen("8/8/8/8/8/8/8/8 w - - 0 1").is_none());
    assert!(Position::from_fen("4k3/8/8/8/8/8/8/8 w - - 0 1").is_none());
    assert!(Position::from_fen("4k3/8/8/8/8/8/8/8 b - - 0 1").is_none());
    assert!(Position::from_fen("8/8/8/8/8/8/8/4K3 w - - 0 1").is_none());
    // the queen goes around the edge of the board and takes the king's square
    assert!(Position::from_fen("4k3/8/8/8/8/8/8/K7Q w - - 0 1").is_none());
    assert!(Position::from_fen("").is_none());
    assert!(Position::from_fen("4k3/8/8/8/8/8/8/4K3").is_none());
}

#[test]
fn kings_are_looked_for_as_the_text_is_read() {
    assert!(has_kings("4k3/8/8/8/8/8/8/4K3 w - - 0 1"));
    assert!(has_kings("4k3/8/8/8/8/8/8/4K3"));
    assert!(has_kings("k/K"));
    assert!(has_kings("k//////K/"));
    assert!(!has_kings("k/K7Q"));
    assert!(has_kings("k/K6Q"));
    assert!(has_kings("kK w k K"));
    assert!(!has_kings("k w K"));
    assert!(has_kings("kK w"));
    assert!(!has_kings("kxK"));
    assert!(!has_kings("k9K"));
    assert!(!has_kings("k0K"));
    assert!(!has_kings(" kK"));
    assert!(has_kings("Kk"));
    assert!(has_kings("Kkkkkkkk"));
    assert!(!has_kings("Kkkkkkkkk"));
}

#[test]
fn text_that_the_rules_refuse_is_no_position() {
    assert!(Position::from_fen("4k3/8/8/8/8/8/8/4K3 x - - 0 1").is_none());
    assert!(Position::from_fen("4k3/8/8/8/8/8/8/4K2\u{e9} w - - 0 1").is_none());
    assert!(Position::from_fen("4k3/8/8/8/8/8/8/4K3 w - \u{e9} 0 1").is_none());
    // two white kings
    assert!(Position::from_fen("4k3/8/8/8/8/8/8/K3K3 w - - 0 1").is_none());
    // the side that is not to move is in check
    assert!(Position::from_fen("4k3/8/8/8/8/8/4R3/4K3 w - - 0 1").is_none());
    assert!(Position::from_fen("k/8/8/8/8/8/8/K w - - 0 1").is_some());
}

#[test]
fn crowded_boards_are_no_positions() {
    assert!(Position::from_fen("4k3/8/8/8/8/NNNNNNNN/NNNNNNN1/4K3 w - - 0 1").is_some());
    assert!(Position::from_fen("4k3/8/8/8/8/NNNNNNNN/NNNNNNNN/4K3 w - - 0 1").is_none());
    assert!(Position::from_fen("4k3/nnnnnnnn/nnnnnnnn/8/8/8/8/4K3 w - - 0 1").is_none());
    assert!(Position::from_fen("4k3/nnnnnnnn/nnnnnnn1/8/8/8/8/4K3 b - - 0 1").is_some());
}

#[test]
fn pawns_on_the_edge_ranks_stand_still() {
    let position = Position::from_fen("P3k3/8/8/8/8/8/8/4K3 w - - 0 1").unwrap();
    assert!(position.legal_moves().iter().all(|m| m.source != 56));
    let position = Position::from_fen("4k3/8/8/8/8/8/8/p3K3 b - - 0 1").unwrap();
    assert!(position.legal_moves().iter().all(|m| m.source != 0));
    // a pawn on its own first rank steps forward, one square at a time
    let position = Position::from_fen("4k3/8/8/8/8/8/8/P3K3 w - - 0 1").unwrap();
    let steps: Vec<Move> = position.legal_moves().into_iter().filter(|m| m.source == 0).collect();
    assert_eq!(steps, vec![Move { source: 0, dest: 8, promotion: None }]);
    assert!(Position::from_fen("4k3/P7/8/8/8/8/p7/4K3 w - - 0 1").is_some());
}

#[test]
fn only_the_en_passant_field_has_to_be_plain() {
    assert!(!reads_en_passant("4k3/8/8/8/8/8/8/4K3 w - \u{e9} 0 1"));
    assert!(reads_en_passant("4k3/8/8/8/8/8/8/4K3 w - \u{e9}\u{e9} 0 1"));
    assert!(reads_en_passant("4k3/8/8/8/8/8/8/4K3 w \u{e9} - \u{e9} 1"));
    assert!(reads_en_passant("4k3/8/8/8/8/8/8/4K3 w - x 0 1"));
    assert!(reads_en_passant("4k3/8/8/8/8/8/8/4K3 w -  \u{e9}"));
    assert!(!reads_en_passant("   \u{e9}"));
    assert!(reads_en_passant(""));
    assert!(Position::from_fen("4k3/8/8/8/8/8/8/4K3 w - \u{e9} 0 1").is_none());
    assert!(Position::from_fen("4k3/8/8/8/8/8/8/4K3 w - \u{e9}\u{e9} 0 1").is_some());
    assert!(Position::from_fen("4k3/8/8/8/8/8/8/4K3 w \u{e9} - \u{e9} 1").is_some());
    assert!(Position::from_fen("4k3/8/8/8/8/8/8/4K3 \u{e9} - - 0 1").is_none());
}

#[test]
fn a_pawn_on_the_seventh_rank_promotes() {
    let position = Position::from_fen("4k3/P7/8/8/8/8/8/4K3 w - - 0 1").unwrap();
    let moves = position.legal_moves();
    let plain = Move { source: 48, dest: 56, promotion: None };
    assert!(!moves.contains(&plain));
    assert!(position.try_apply(plain).is_none());
    for kind in [PieceKind::Queen, PieceKind::Knight, PieceKind::Rook, PieceKind::Bishop] {
        let m = Move { source: 48, dest: 56, promotion: Some(kind) };
        assert!(moves.contains(&m));
        let next = position.try_apply(m).unwrap();
        assert_eq!(next.piece_on(56), Some(Piece { kind, colour: Colour::White }));
        assert_eq!(next.piece_on(48), None);
        assert_eq!(next.pieces(PieceKind::Pawn), 0);
    }
    assert!(!moves.contains(&Move { source: 48, dest: 56, promotion: Some(PieceKind::King) }));
}

#[test]
fn captures_come_before_the_other_moves() {
    let position = Position::from_fen("4k3/8/8/3r4/4P3/8/1n6/1Q2K3 w - - 0 1").unwrap();
    let moves = position.legal_moves();
    let targets = position.color_combined(Colour::Black);
    let captures = moves.iter().take_while(|m| targets & (1 << m.dest) != 0).count();
    assert_eq!(captures, 2);
    assert!(moves[captures..].iter().all(|m| targets & (1 << m.dest) == 0));
    assert_eq!(cirno::position::generate_moves(&position), moves);
    assert!(!position.in_check());
    let checked = Position::from_fen("4k3/8/8/8/8/8/4r3/4K3 w - - 0 1").unwrap();
    assert!(checked.in_check());
}
