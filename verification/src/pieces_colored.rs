//! The men of one side, kind by kind, as masks of squares.

use crate::bits::{bit, lemma_and_bits, lemma_mask_bits, lemma_mask_ones, lemma_same_bits, mask_of, ones};
use crate::pieces::{Colour, Piece, PieceKind};
use crate::position::{
    colour_mask, held_by, held_by_kind, kind_mask, men_count, stands, Position, PositionView,
};
use vstd::prelude::*;

verus! {

/// The squares on which the men of one side stand, one mask for each kind,
/// with bit `s` for square `s`.
#[derive(Clone, Copy, Debug)]
pub struct PiecesColored {
    pub color: Colour,
    pub kings: u64,
    pub pawns: u64,
    pub rooks: u64,
    pub queens: u64,
    pub knights: u64,
    pub bishops: u64,
}

/// The squares on which a given man stands.
pub open spec fn men_mask(position: PositionView, piece: Piece) -> u64 {
    mask_of(|square: int| stands(position, piece, square))
}

/// The men of one side in a position.
pub open spec fn colored_pieces(position: PositionView, colour: Colour) -> PiecesColored {
    PiecesColored {
        color: colour,
        kings: men_mask(position, Piece { kind: PieceKind::King, colour }),
        pawns: men_mask(position, Piece { kind: PieceKind::Pawn, colour }),
        rooks: men_mask(position, Piece { kind: PieceKind::Rook, colour }),
        queens: men_mask(position, Piece { kind: PieceKind::Queen, colour }),
        knights: men_mask(position, Piece { kind: PieceKind::Knight, colour }),
        bishops: men_mask(position, Piece { kind: PieceKind::Bishop, colour }),
    }
}

/// The squares of a man are those of its side that are also those of its
/// kind.
pub proof fn lemma_men_mask(position: PositionView, piece: Piece)
    ensures
        colour_mask(position, piece.colour) & kind_mask(position, piece.kind) == men_mask(
            position,
            piece,
        ),
{
    let by_colour = |square: int| held_by(position, piece.colour, square);
    let by_kind = |square: int| held_by_kind(position, piece.kind, square);
    let by_piece = |square: int| stands(position, piece, square);
    let both = colour_mask(position, piece.colour) & kind_mask(position, piece.kind);
    assert forall|s: int| 0 <= s < 64 implies bit(both, s) == bit(men_mask(position, piece), s) by {
        lemma_and_bits(colour_mask(position, piece.colour), kind_mask(position, piece.kind), s);
        lemma_mask_bits(by_colour, 64, s);
        lemma_mask_bits(by_kind, 64, s);
        lemma_mask_bits(by_piece, 64, s);
    }
    lemma_same_bits(both, men_mask(position, piece));
}

/// The mask of a man has as many set bits as there are squares on which the
/// man stands.
pub proof fn lemma_men_count(position: PositionView, piece: Piece)
    ensures
        ones(men_mask(position, piece)) == men_count(position, piece),
        men_count(position, piece) <= 64,
{
    lemma_mask_ones(|square: int| stands(position, piece, square));
    crate::bits::lemma_count_below_bound(|square: int| stands(position, piece, square), 64);
}

impl PiecesColored {
    /// The men of one side on a board.
    pub fn get_colored_pieces(board: &Position, color: Colour) -> (pieces: Self)
        ensures
            pieces == colored_pieces(board@, color),
    {
        let black = board.color_combined(color);

        let kings = board.pieces(PieceKind::King);
        let pawns = board.pieces(PieceKind::Pawn);
        let rooks = board.pieces(PieceKind::Rook);
        let queens = board.pieces(PieceKind::Queen);
        let knights = board.pieces(PieceKind::Knight);
        let bishops = board.pieces(PieceKind::Bishop);

        proof {
            lemma_men_mask(board@, Piece { kind: PieceKind::King, colour: color });
            lemma_men_mask(board@, Piece { kind: PieceKind::Pawn, colour: color });
            lemma_men_mask(board@, Piece { kind: PieceKind::Rook, colour: color });
            lemma_men_mask(board@, Piece { kind: PieceKind::Queen, colour: color });
            lemma_men_mask(board@, Piece { kind: PieceKind::Knight, colour: color });
            lemma_men_mask(board@, Piece { kind: PieceKind::Bishop, colour: color });
        }

        PiecesColored {
            color,
            kings: black & kings,
            pawns: black & pawns,
            rooks: black & rooks,
            queens: black & queens,
            knights: black & knights,
            bishops: black & bishops,
        }
    }
}

} // verus!
