//! Chess positions.
//!
//! The rules of chess are not written here.  A [`Position`] holds a board of
//! the `chess` crate, and everything the engine asks of the rules (which men
//! stand where, whose turn it is, which moves are legal, what a move leads to)
//! is a call into that crate.  Those calls are the private functions at the top
//! of this file; Verus takes their contracts on trust.  The rest of the file,
//! and of the library, is proved against them.

use crate::bits::{bit, count_of, lemma_mask_bits, lemma_mask_ones, mask_of, popcnt};
use crate::pieces::{all_on_board, Colour, Move, Piece, PieceKind};
use crate::placement::{en_passant_reads, has_kings, kings_stand, reads_en_passant};
use std::str::FromStr;
use vstd::prelude::*;

verus! {

/// The board of the `chess` crate, which Verus does not look into.
#[verifier::external_type_specification]
#[verifier::external_body]
pub struct ExBoard(chess::Board);

/// What a position holds besides its men.
pub ghost struct Turn {
    /// Whether White is to move.
    pub white_to_move: bool,
    /// White's castling rights: 0 for none, 1 for the king's side, 2 for the
    /// queen's side, 3 for both.
    pub white_castling: int,
    /// Black's castling rights, numbered like White's.
    pub black_castling: int,
    /// The square of the pawn that may be taken in passing.
    pub en_passant: Option<int>,
}

/// A position as the rules see it: the men by their squares, and the turn.
pub ghost struct PositionView {
    pub pieces: Map<int, Piece>,
    pub turn: Turn,
}

/// The men on a board, by the number of their square (0 for a1, 63 for h8).
pub uninterp spec fn board_pieces(board: chess::Board) -> Map<int, Piece>;

/// The side to move, the castling rights and the en-passant pawn of a board.
pub uninterp spec fn board_turn(board: chess::Board) -> Turn;

/// The position that `Board::from_str` reads from a FEN text, if it reads one.
pub uninterp spec fn fen_position(fen: Seq<char>) -> Option<PositionView>;

/// The number of men that give check to the side to move, by `Board::checkers`.
pub uninterp spec fn checkers_of(position: PositionView) -> nat;

/// The legal moves in the order in which a fresh `MoveGen` yields them when
/// it is first asked for the moves that land on a square of `mask` (bit `s`
/// for square `s`) and then for the moves that are left.
pub uninterp spec fn moves_in_passes(position: PositionView, mask: u64) -> Seq<Move>;

/// The position that `Board::make_move_new` reaches by a move.
pub uninterp spec fn position_after(position: PositionView, m: Move) -> PositionView;

/// A board seen as a position.
pub open spec fn board_view(board: chess::Board) -> PositionView {
    PositionView { pieces: board_pieces(board), turn: board_turn(board) }
}

/// `Board::from_str`: the board that the `chess` crate reads from a FEN text,
/// or `None` where it refuses the text.  The crate tests the length of the
/// en-passant field in bytes and then reads its first two characters, so that
/// field must not be one character of several bytes; and it looks up the king
/// of the side to move in its tables before it tests that there is one, so
/// both kings must stand on the board that the first field describes.  A
/// board that the crate hands out has one king of each side.
#[verifier::external_body]
fn board_from_fen(fen: &str) -> (r: Option<chess::Board>)
    requires
        en_passant_reads(fen@),
        kings_stand(fen@),
    ensures
        match r {
            Some(board) => fen_position(fen@) == Some(board_view(board)) && one_king_each(
                board_view(board),
            ),
            None => fen_position(fen@).is_none(),
        },
{
    chess::Board::from_str(fen).ok()
}

/// `Board::piece_on`: the kind of the man on a square, if one stands there.
#[verifier::external_body]
fn board_piece_on(board: &chess::Board, square: u8) -> (r: Option<PieceKind>)
    requires
        square < 64,
    ensures
        r == (if board_pieces(*board).contains_key(square as int) {
            Some(board_pieces(*board)[square as int].kind)
        } else {
            None
        }),
{
    board.piece_on(chess::ALL_SQUARES[square as usize]).map(|p| PieceKind::from_index(p.to_index()))
}

/// `Board::color_on`: the side of the man on a square, if one stands there.
#[verifier::external_body]
fn board_color_on(board: &chess::Board, square: u8) -> (r: Option<Colour>)
    requires
        square < 64,
    ensures
        r == (if board_pieces(*board).contains_key(square as int) {
            Some(board_pieces(*board)[square as int].colour)
        } else {
            None
        }),
{
    board.color_on(chess::ALL_SQUARES[square as usize]).map(|c| Colour::from_index(c.to_index()))
}

/// `Board::side_to_move`.
#[verifier::external_body]
fn board_side_to_move(board: &chess::Board) -> (r: Colour)
    ensures
        r == (if board_turn(*board).white_to_move {
            Colour::White
        } else {
            Colour::Black
        }),
{
    Colour::from_index(board.side_to_move().to_index())
}

/// `Board::color_combined`: the squares on which the men of one side stand,
/// with bit `s` for square `s`.
#[verifier::external_body]
fn board_color_combined(board: &chess::Board, colour: Colour) -> (r: u64)
    ensures
        r == colour_mask(board_view(*board), colour),
{
    board.color_combined(chess::ALL_COLORS[colour.index()]).0
}

/// `Board::pieces`: the squares on which the men of one kind stand, with bit
/// `s` for square `s`.
#[verifier::external_body]
fn board_pieces_of(board: &chess::Board, kind: PieceKind) -> (r: u64)
    ensures
        r == kind_mask(board_view(*board), kind),
{
    board.pieces(chess::ALL_PIECES[kind.index()]).0
}

/// `Board::checkers` and `BitBoard::popcnt`: how many men give check to the
/// side to move.
#[verifier::external_body]
fn board_checkers(board: &chess::Board) -> (r: u32)
    ensures
        r == checkers_of(board_view(*board)),
{
    board.checkers().popcnt()
}

/// `MoveGen::new_legal`, and `MoveGen::set_iterator_mask` twice: the legal
/// moves, first those that land on a square of `mask` and then those that are
/// left, each pass in the generator's order; and how many the first pass
/// gave.  The first pass yields every move that lands on the mask, so the
/// moves of the second pass land elsewhere.  No move lands on a man of the
/// side to move, and the squares of a move are squares of the board.  The
/// generator keeps its moves in a list with room for eighteen men and does not
/// test whether one more fits, so the side to move must have no more than
/// sixteen men (two places are for pawns that can capture in passing).
#[verifier::external_body]
fn board_moves_in_passes(board: &chess::Board, mask: u64) -> (r: (Vec<Move>, usize))
    requires
        playable(board_view(*board)),
    ensures
        r.0@ == moves_in_passes(board_view(*board), mask),
        all_on_board(r.0@),
        r.1 <= r.0@.len(),
        forall|i: int| 0 <= i < r.1 ==> bit(mask, (#[trigger] r.0@[i]).dest as int),
        forall|i: int| r.1 <= i < r.0@.len() ==> !bit(mask, (#[trigger] r.0@[i]).dest as int),
        forall|i: int|
            0 <= i < r.0@.len() ==> !held_by(
                board_view(*board),
                side_to_move(board_view(*board)),
                (#[trigger] r.0@[i]).dest as int,
            ),
{
    let mut generator = chess::MoveGen::new_legal(board);
    generator.set_iterator_mask(chess::BitBoard(mask));
    let mut moves: Vec<chess::ChessMove> = (&mut generator).collect();
    let onto = moves.len();
    generator.set_iterator_mask(!chess::EMPTY);
    moves.extend(generator);
    let moves = moves.iter().map(|m| Move {
        source: m.get_source().to_int(),
        dest: m.get_dest().to_int(),
        promotion: m.get_promotion().map(|p| PieceKind::from_index(p.to_index())),
    }).collect();
    (moves, onto)
}

/// `Board::make_move_new`: the board after a move.  The crate panics, or
/// leaves a board without a king, on a move that is not legal, so the move
/// must be one that the generator yields for this board.  A move takes a man
/// from one square to another, and may take a man that is no king off the
/// board or turn a pawn into another man: after it neither side has more men
/// than before, and each side still has its king.
#[verifier::external_body]
fn board_make_move(board: &chess::Board, m: Move) -> (r: chess::Board)
    requires
        playable(board_view(*board)),
        legal_moves(board_view(*board)).contains(m),
    ensures
        board_view(r) == position_after(board_view(*board), m),
        playable(board_view(r)),
{
    board.make_move_new(chess::ChessMove::new(
        chess::ALL_SQUARES[m.source as usize],
        chess::ALL_SQUARES[m.dest as usize],
        m.promotion.map(|k| chess::ALL_PIECES[k.index()]),
    ))
}

/// The man on a square of a position.
pub open spec fn piece_at(position: PositionView, square: int) -> Option<Piece> {
    if position.pieces.contains_key(square) {
        Some(position.pieces[square])
    } else {
        None
    }
}

/// The side to move.
pub open spec fn side_to_move(position: PositionView) -> Colour {
    if position.turn.white_to_move {
        Colour::White
    } else {
        Colour::Black
    }
}

/// Whether a man of the given side stands on the square.
pub open spec fn held_by(position: PositionView, colour: Colour, square: int) -> bool {
    position.pieces.contains_key(square) && position.pieces[square].colour == colour
}

/// Whether a man of the given kind stands on the square.
pub open spec fn held_by_kind(position: PositionView, kind: PieceKind, square: int) -> bool {
    position.pieces.contains_key(square) && position.pieces[square].kind == kind
}

/// Whether the given man stands on the square.
pub open spec fn stands(position: PositionView, piece: Piece, square: int) -> bool {
    position.pieces.contains_key(square) && position.pieces[square] == piece
}

/// The squares on which the men of one side stand.
pub open spec fn colour_mask(position: PositionView, colour: Colour) -> u64 {
    mask_of(|square: int| held_by(position, colour, square))
}

/// The squares on which the men of one kind stand.
pub open spec fn kind_mask(position: PositionView, kind: PieceKind) -> u64 {
    mask_of(|square: int| held_by_kind(position, kind, square))
}

/// The number of men of one side.
pub open spec fn men_of(position: PositionView, colour: Colour) -> nat {
    count_of(|square: int| held_by(position, colour, square))
}

/// The number of squares on which a given man stands.
pub open spec fn men_count(position: PositionView, piece: Piece) -> nat {
    count_of(|square: int| stands(position, piece, square))
}

/// Neither side has more men than at the start of a game.
pub open spec fn few_men(position: PositionView) -> bool {
    men_of(position, Colour::White) <= 16 && men_of(position, Colour::Black) <= 16
}

/// Each side has one king.
pub open spec fn one_king_each(position: PositionView) -> bool {
    &&& men_count(position, Piece { kind: PieceKind::King, colour: Colour::White }) == 1
    &&& men_count(position, Piece { kind: PieceKind::King, colour: Colour::Black }) == 1
}

/// What holds of every position that the engine plays: each side has one
/// king and no more than sixteen men.
pub open spec fn playable(position: PositionView) -> bool {
    few_men(position) && one_king_each(position)
}

/// The squares held by the side that is not to move: where a capture lands.
pub open spec fn targets(position: PositionView) -> u64 {
    colour_mask(position, side_to_move(position).other())
}

/// The legal moves of a position: those that land on a man of the other side
/// first, then the others.
pub open spec fn legal_moves(position: PositionView) -> Seq<Move> {
    moves_in_passes(position, targets(position))
}

/// Whether a move lands on a man of the side that is not to move.
pub open spec fn lands_on_man(position: PositionView, m: Move) -> bool {
    held_by(position, side_to_move(position).other(), m.dest as int)
}

/// The moves that land on a man of the other side come before the others,
/// and no move lands on a man of the side to move.
pub open spec fn captures_first(position: PositionView, moves: Seq<Move>) -> bool {
    &&& forall|i: int, j: int|
        0 <= i < j < moves.len() && lands_on_man(position, #[trigger] moves[j]) ==> lands_on_man(
            position,
            #[trigger] moves[i],
        )
    &&& forall|i: int|
        0 <= i < moves.len() ==> !held_by(
            position,
            side_to_move(position),
            (#[trigger] moves[i]).dest as int,
        )
}

/// Whether the side to move is in check.
pub open spec fn in_check(position: PositionView) -> bool {
    checkers_of(position) >= 1
}

/// A chess position in which each side has one king and no more than sixteen
/// men.
#[derive(Clone, Copy)]
pub struct Position {
    board: chess::Board,
}

impl View for Position {
    type V = PositionView;

    closed spec fn view(&self) -> PositionView {
        board_view(self.board)
    }
}

impl Position {
    /// What holds of every position.
    #[verifier::type_invariant]
    pub open spec fn inv(self) -> bool {
        playable(self@)
    }

    /// Reads a position from a FEN text.  `None` where the en-passant field
    /// is one character of several bytes, where a king is missing, where the
    /// rules refuse the text, or where a side has more than sixteen men.
    pub fn from_fen(fen: &str) -> (r: Option<Position>)
        ensures
            match r {
                Some(position) => en_passant_reads(fen@) && kings_stand(fen@) && fen_position(
                    fen@,
                ) == Some(position@) && playable(position@),
                None => !en_passant_reads(fen@) || !kings_stand(fen@) || match fen_position(fen@) {
                    Some(position) => !few_men(position),
                    None => true,
                },
            },
    {
        if !reads_en_passant(fen) || !has_kings(fen) {
            return None;
        }
        match board_from_fen(fen) {
            Some(board) => {
                let white: u32 = popcnt(board_color_combined(&board, Colour::White));
                let black: u32 = popcnt(board_color_combined(&board, Colour::Black));
                proof {
                    let position = board_view(board);
                    lemma_mask_ones(|square: int| held_by(position, Colour::White, square));
                    lemma_mask_ones(|square: int| held_by(position, Colour::Black, square));
                }
                if white <= 16 && black <= 16 {
                    Some(Position { board })
                } else {
                    None
                }
            },
            None => None,
        }
    }

    /// The man on a square; `None` for an empty square and for a number that
    /// is not a square.
    pub fn piece_on(&self, square: u8) -> (r: Option<Piece>)
        ensures
            r == (if square < 64 {
                piece_at(self@, square as int)
            } else {
                None
            }),
    {
        if square >= 64 {
            return None;
        }
        match board_piece_on(&self.board, square) {
            Some(kind) => match board_color_on(&self.board, square) {
                Some(colour) => Some(Piece { kind, colour }),
                None => None,
            },
            None => None,
        }
    }

    pub fn side_to_move(&self) -> (r: Colour)
        ensures
            r == side_to_move(self@),
    {
        board_side_to_move(&self.board)
    }

    pub fn in_check(&self) -> (r: bool)
        ensures
            r == in_check(self@),
    {
        board_checkers(&self.board) >= 1
    }

    /// The squares on which the men of one side stand, as a mask with bit `s`
    /// for square `s`.
    pub fn color_combined(&self, colour: Colour) -> (mask: u64)
        ensures
            mask == colour_mask(self@, colour),
    {
        board_color_combined(&self.board, colour)
    }

    /// The squares on which the men of one kind stand, as a mask with bit `s`
    /// for square `s`.
    pub fn pieces(&self, kind: PieceKind) -> (mask: u64)
        ensures
            mask == kind_mask(self@, kind),
    {
        board_pieces_of(&self.board, kind)
    }

    /// The legal moves, captures first.
    pub fn legal_moves(&self) -> (moves: Vec<Move>)
        ensures
            moves@ == legal_moves(self@),
            all_on_board(moves@),
            captures_first(self@, moves@),
    {
        generate_moves(self)
    }

    /// The position after a legal move.
    pub fn apply(&self, m: Move) -> (next: Position)
        requires
            legal_moves(self@).contains(m),
        ensures
            next@ == position_after(self@, m),
            playable(next@),
    {
        proof {
            use_type_invariant(self);
        }
        Position { board: board_make_move(&self.board, m) }
    }

    /// The position after a move, or `None` where the move is not legal.
    pub fn try_apply(&self, m: Move) -> (r: Option<Position>)
        ensures
            match r {
                Some(next) => legal_moves(self@).contains(m) && next@ == position_after(self@, m)
                    && playable(next@),
                None => !legal_moves(self@).contains(m),
            },
    {
        let moves = self.legal_moves();
        if contains_move(&moves, m) {
            Some(self.apply(m))
        } else {
            None
        }
    }
}

/// The legal moves of a position: first those that land on a man of the
/// other side, then the others.
pub fn generate_moves(board: &Position) -> (moves: Vec<Move>)
    ensures
        moves@ == legal_moves(board@),
        all_on_board(moves@),
        captures_first(board@, moves@),
{
    proof {
        use_type_invariant(board);
    }
    let targets = board.color_combined(board.side_to_move().other());
    let (moves, onto) = board_moves_in_passes(&board.board, targets);
    proof {
        let position = board@;
        let enemy = |square: int| held_by(position, side_to_move(position).other(), square);
        assert forall|i: int| 0 <= i < moves@.len() implies (lands_on_man(
            position,
            #[trigger] moves@[i],
        ) <==> i < onto) by {
            lemma_mask_bits(enemy, 64, moves@[i].dest as int);
        }
    }
    moves
}

/// Whether a move occurs in a list.
pub fn contains_move(moves: &Vec<Move>, m: Move) -> (found: bool)
    ensures
        found == moves@.contains(m),
{
    let mut i: usize = 0;
    while i < moves.len()
        invariant
            i <= moves.len(),
            forall|j: int| 0 <= j < i ==> moves@[j] != m,
        decreases moves.len() - i,
    {
        if moves[i] == m {
            return true;
        }
        i += 1;
    }
    false
}

} // verus!
