//! Piece-square tables: what a man is worth for standing where it stands, in
//! the middle game and in the end game.
//!
//! The numbers are those of the PeSTO tables.  They are written for White, from
//! a1 along the ranks to h8; Black reads them through a mirror that swaps the
//! first rank with the eighth, the second with the seventh, and so on.

use crate::pieces::{Colour, PieceKind};
use vstd::prelude::*;

verus! {

/// White pawns in the middle game, from a1 along the ranks to h8.
pub const MG_PAWN: [i16; 64] = [
    0, 0, 0, 0, 0, 0, 0, 0,
    -35, -1, -20, -23, -15, 24, 38, -22,
    -26, -4, -4, -10, 3, 3, 33, -12,
    -27, -2, -5, 12, 17, 6, 10, -25,
    -14, 13, 6, 21, 23, 12, 17, -23,
    -6, 7, 26, 31, 65, 56, 25, -20,
    98, 134, 61, 95, 68, 126, 34, -11,
    0, 0, 0, 0, 0, 0, 0, 0,
];

/// White knights in the middle game, from a1 along the ranks to h8.
pub const MG_KNIGHT: [i16; 64] = [
    -105, -21, -58, -33, -17, -28, -19, -23,
    -29, -53, -12, -3, -1, 18, -14, -19,
    -23, -9, 12, 10, 19, 17, 25, -16,
    -13, 4, 16, 13, 28, 19, 21, -8,
    -9, 17, 19, 53, 37, 69, 18, 22,
    -47, 60, 37, 65, 84, 129, 73, 44,
    -73, -41, 72, 36, 23, 62, 7, -17,
    -167, -89, -34, -49, 61, -97, -15, -107,
];

/// White bishops in the middle game, from a1 along the ranks to h8.
pub const MG_BISHOP: [i16; 64] = [
    -33, -3, -14, -21, -13, -12, -39, -21,
    4, 15, 16, 0, 7, 21, 33, 1,
    0, 15, 15, 15, 14, 27, 18, 10,
    -6, 13, 13, 26, 34, 12, 10, 4,
    -4, 5, 19, 50, 37, 37, 7, -2,
    -16, 37, 43, 40, 35, 50, 37, -2,
    -26, 16, -18, -13, 30, 59, 18, -47,
    -29, 4, -82, -37, -25, -42, 7, -8,
];

/// White rooks in the middle game, from a1 along the ranks to h8.
pub const MG_ROOK: [i16; 64] = [
    -19, -13, 1, 17, 16, 7, -37, -26,
    -44, -16, -20, -9, -1, 11, -6, -71,
    -45, -25, -16, -17, 3, 0, -5, -33,
    -36, -26, -12, -1, 9, -7, 6, -23,
    -24, -11, 7, 26, 24, 35, -8, -20,
    -5, 19, 26, 36, 17, 45, 61, 16,
    27, 32, 58, 62, 80, 67, 26, 44,
    32, 42, 32, 51, 63, 9, 31, 43,
];

/// White queens in the middle game, from a1 along the ranks to h8.
pub const MG_QUEEN: [i16; 64] = [
    -1, -18, -9, 10, -15, -25, -31, -50,
    -35, -8, 11, 2, 8, 15, -3, 1,
    -14, 2, -11, -2, -5, 2, 14, 5,
    -9, -26, -9, -10, -2, -4, 3, -3,
    -27, -27, -16, -16, -1, 17, -2, 1,
    -13, -17, 7, 8, 29, 56, 47, 57,
    -24, -39, -5, 1, -16, 57, 28, 54,
    -28, 0, 29, 12, 59, 44, 43, 45,
];

/// White kings in the middle game, from a1 along the ranks to h8.
pub const MG_KING: [i16; 64] = [
    -15, 36, 12, -54, 8, -28, 24, 14,
    1, 7, -8, -64, -43, -16, 9, 8,
    -14, -14, -22, -46, -44, -30, -15, -27,
    -49, -1, -27, -39, -46, -44, -33, -51,
    -17, -20, -12, -27, -30, -25, -14, -36,
    -9, 24, 2, -16, -20, 6, 22, -22,
    29, -1, -20, -7, -8, -4, -38, -29,
    -65, 23, 16, -15, -56, -34, 2, 13,
];

/// White pawns in the end game, from a1 along the ranks to h8.
pub const EG_PAWN: [i16; 64] = [
    0, 0, 0, 0, 0, 0, 0, 0,
    13, 8, 8, 10, 13, 0, 2, -7,
    4, 7, -6, 1, 0, -5, -1, -8,
    13, 9, -3, -7, -7, -8, 3, -1,
    32, 24, 13, 5, -2, 4, 17, 17,
    94, 100, 85, 67, 56, 53, 82, 84,
    178, 173, 158, 134, 147, 132, 165, 187,
    0, 0, 0, 0, 0, 0, 0, 0,
];

/// White knights in the end game, from a1 along the ranks to h8.
pub const EG_KNIGHT: [i16; 64] = [
    -29, -51, -23, -15, -22, -18, -50, -64,
    -42, -20, -10, -5, -2, -20, -23, -44,
    -23, -3, -1, 15, 10, -3, -20, -22,
    -18, -6, 16, 25, 16, 17, 4, -18,
    -17, 3, 22, 22, 22, 11, 8, -18,
    -24, -20, 10, 9, -1, -9, -19, -41,
    -25, -8, -25, -2, -9, -25, -24, -52,
    -58, -38, -13, -28, -31, -27, -63, -99,
];

/// White bishops in the end game, from a1 along the ranks to h8.
pub const EG_BISHOP: [i16; 64] = [
    -23, -9, -23, -5, -9, -16, -5, -17,
    -14, -18, -7, -1, 4, -9, -15, -27,
    -12, -3, 8, 10, 13, 3, -7, -15,
    -6, 3, 13, 19, 7, 10, -3, -9,
    -3, 9, 12, 9, 14, 10, 3, 2,
    2, -8, 0, -1, -2, 6, 0, 4,
    -8, -4, 7, -12, -3, -13, -4, -14,
    -14, -21, -11, -8, -7, -9, -17, -24,
];

/// White rooks in the end game, from a1 along the ranks to h8.
pub const EG_ROOK: [i16; 64] = [
    -9, 2, 3, -1, -5, -13, 4, -20,
    -6, -6, 0, 2, -9, -9, -11, -3,
    -4, 0, -5, -1, -7, -12, -8, -16,
    3, 5, 8, 4, -5, -6, -8, -11,
    4, 3, 13, 1, 2, 1, -1, 2,
    7, 7, 7, 5, 4, -3, -5, -3,
    11, 13, 13, 11, -3, 3, 8, 3,
    13, 10, 18, 15, 12, 12, 8, 5,
];

/// White queens in the end game, from a1 along the ranks to h8.
pub const EG_QUEEN: [i16; 64] = [
    -33, -28, -22, -43, -5, -32, -20, -41,
    -22, -23, -30, -16, -16, -23, -36, -32,
    -16, -27, 15, 6, 9, 17, 10, 5,
    -18, 28, 19, 47, 31, 34, 39, 23,
    3, 22, 24, 45, 57, 40, 57, 36,
    -20, 6, 9, 49, 47, 35, 19, 9,
    -17, 20, 32, 41, 58, 25, 30, 0,
    -9, 22, 22, 27, 27, 19, 10, 20,
];

/// White kings in the end game, from a1 along the ranks to h8.
pub const EG_KING: [i16; 64] = [
    -53, -34, -21, -11, -28, -14, -24, -43,
    -27, -11, 4, 13, 14, 4, -5, -17,
    -19, -3, 11, 21, 23, 16, 7, -9,
    -18, -4, 21, 24, 27, 23, 9, -11,
    -8, 22, 24, 27, 26, 33, 26, 3,
    10, 17, 23, 15, 20, 45, 44, 13,
    -12, 17, 14, 17, 17, 38, 23, 11,
    -74, -35, -18, -18, -11, 15, 4, -17,
];

/// The greatest distance of a number of the tables from zero.
pub const MAX_BONUS: i16 = 187;

/// One table for each kind of man, for one phase of the game.
#[derive(Clone, Copy)]
pub struct PieceSquare {
    pub pawn_table: [i16; 64],
    pub knight_table: [i16; 64],
    pub bishop_table: [i16; 64],
    pub rook_table: [i16; 64],
    pub queen_table: [i16; 64],
    pub king_table: [i16; 64],
}

/// The tables of the middle game and of the end game.
#[derive(Clone, Copy)]
pub struct PeSTOPieceSquare {
    pub middle_game: PieceSquare,
    pub end_game: PieceSquare,
}

/// The square that Black's men see where White's see `square`: the same file
/// on the rank counted from the other side.
pub open spec fn mirror(square: int) -> int {
    56 - 8 * (square / 8) + square % 8
}

/// The tables of the middle game.
pub open spec fn middle_game_tables() -> PieceSquare {
    PieceSquare {
        pawn_table: MG_PAWN,
        knight_table: MG_KNIGHT,
        bishop_table: MG_BISHOP,
        rook_table: MG_ROOK,
        queen_table: MG_QUEEN,
        king_table: MG_KING,
    }
}

/// The tables of the end game.
pub open spec fn end_game_tables() -> PieceSquare {
    PieceSquare {
        pawn_table: EG_PAWN,
        knight_table: EG_KNIGHT,
        bishop_table: EG_BISHOP,
        rook_table: EG_ROOK,
        queen_table: EG_QUEEN,
        king_table: EG_KING,
    }
}

impl PieceSquare {
    /// The table of a kind of man.
    pub open spec fn table(self, kind: PieceKind) -> Seq<i16> {
        match kind {
            PieceKind::Pawn => self.pawn_table@,
            PieceKind::Knight => self.knight_table@,
            PieceKind::Bishop => self.bishop_table@,
            PieceKind::Rook => self.rook_table@,
            PieceKind::Queen => self.queen_table@,
            PieceKind::King => self.king_table@,
        }
    }

    /// No number of the tables is further than `bound` from zero.
    pub open spec fn bounded(self, bound: int) -> bool {
        forall|kind: PieceKind, square: int|
            0 <= square < 64 ==> -bound <= (#[trigger] self.table(kind)[square]) <= bound
    }

    /// What a white man of a kind is worth on a square.
    pub fn get(&self, kind: PieceKind, square: u8) -> (bonus: i16)
        requires
            square < 64,
        ensures
            bonus == self.table(kind)[square as int],
    {
        match kind {
            PieceKind::Pawn => self.pawn_table[square as usize],
            PieceKind::Knight => self.knight_table[square as usize],
            PieceKind::Bishop => self.bishop_table[square as usize],
            PieceKind::Rook => self.rook_table[square as usize],
            PieceKind::Queen => self.queen_table[square as usize],
            PieceKind::King => self.king_table[square as usize],
        }
    }
}

impl PeSTOPieceSquare {
    /// The PeSTO tables.
    pub fn new() -> (tables: PeSTOPieceSquare)
        ensures
            tables.middle_game == middle_game_tables(),
            tables.end_game == end_game_tables(),
    {
        PeSTOPieceSquare {
            middle_game: PieceSquare {
                pawn_table: MG_PAWN,
                knight_table: MG_KNIGHT,
                bishop_table: MG_BISHOP,
                rook_table: MG_ROOK,
                queen_table: MG_QUEEN,
                king_table: MG_KING,
            },
            end_game: PieceSquare {
                pawn_table: EG_PAWN,
                knight_table: EG_KNIGHT,
                bishop_table: EG_BISHOP,
                rook_table: EG_ROOK,
                queen_table: EG_QUEEN,
                king_table: EG_KING,
            },
        }
    }
}

/// The tables of one phase for both sides: White's as they are written, and
/// Black's, which are White's seen through the mirror.
pub struct ColoredTables {
    pub white: PieceSquare,
    pub black: PieceSquare,
}

impl ColoredTables {
    /// What a man of the given side and kind is worth on a square.
    pub open spec fn bonus(self, colour: Colour, kind: PieceKind, square: int) -> int {
        match colour {
            Colour::White => self.white.table(kind)[square] as int,
            Colour::Black => self.black.table(kind)[square] as int,
        }
    }

    /// White's tables are `base`, and Black's are `base` seen through the
    /// mirror.
    pub open spec fn colours(self, base: PieceSquare) -> bool {
        &&& forall|kind: PieceKind, square: int|
            0 <= square < 64 ==> #[trigger] self.bonus(Colour::White, kind, square) == base.table(
                kind,
            )[square]
        &&& forall|kind: PieceKind, square: int|
            0 <= square < 64 ==> #[trigger] self.bonus(Colour::Black, kind, square) == base.table(
                kind,
            )[mirror(square)]
    }

    /// Black's numbers are White's seen through the mirror.
    pub open spec fn mirrored(self) -> bool {
        forall|kind: PieceKind, square: int|
            0 <= square < 64 ==> #[trigger] self.bonus(Colour::Black, kind, square) == self.bonus(
                Colour::White,
                kind,
                mirror(square),
            )
    }

    /// No number of either side is further than `bound` from zero.
    pub open spec fn bounded(self, bound: int) -> bool {
        forall|colour: Colour, kind: PieceKind, square: int|
            0 <= square < 64 ==> -bound <= #[trigger] self.bonus(colour, kind, square) <= bound
    }

    /// The tables of both sides, from those written for White.
    pub fn new(base: &PieceSquare) -> (tables: ColoredTables)
        ensures
            tables.colours(*base),
    {
        let tables = ColoredTables {
            white: *base,
            black: PieceSquare {
                pawn_table: mirrored(&base.pawn_table),
                knight_table: mirrored(&base.knight_table),
                bishop_table: mirrored(&base.bishop_table),
                rook_table: mirrored(&base.rook_table),
                queen_table: mirrored(&base.queen_table),
                king_table: mirrored(&base.king_table),
            },
        };
        assert forall|kind: PieceKind, square: int| 0 <= square < 64 implies #[trigger] tables.bonus(
            Colour::Black,
            kind,
            square,
        ) == base.table(kind)[mirror(square)] by {
            assert(0 <= mirror(square) < 64);
        }
        tables
    }

    /// What a man of the given side and kind is worth on a square.
    pub fn get(&self, colour: Colour, kind: PieceKind, square: u8) -> (bonus: i16)
        requires
            square < 64,
        ensures
            bonus == self.bonus(colour, kind, square as int),
    {
        match colour {
            Colour::White => self.white.get(kind, square),
            Colour::Black => self.black.get(kind, square),
        }
    }

    /// Tables that colour `base` are mirrored, and bounded as `base` is.
    pub proof fn lemma_colours(self, base: PieceSquare, bound: int)
        requires
            self.colours(base),
            base.bounded(bound),
        ensures
            self.mirrored(),
            self.bounded(bound),
    {
        assert forall|kind: PieceKind, square: int| 0 <= square < 64 implies #[trigger] self.bonus(
            Colour::Black,
            kind,
            square,
        ) == self.bonus(Colour::White, kind, mirror(square)) by {
            assert(0 <= mirror(square) < 64);
            assert(self.bonus(Colour::White, kind, mirror(square)) == base.table(kind)[mirror(
                square,
            )]);
        }
        assert forall|colour: Colour, kind: PieceKind, square: int| 0 <= square < 64 implies -bound
            <= #[trigger] self.bonus(colour, kind, square) <= bound by {
            assert(0 <= mirror(square) < 64);
            assert(-bound <= base.table(kind)[square] <= bound);
            assert(-bound <= base.table(kind)[mirror(square)] <= bound);
            assert(self.bonus(Colour::White, kind, square) == base.table(kind)[square]);
            assert(self.bonus(Colour::Black, kind, square) == base.table(kind)[mirror(square)]);
        }
    }
}

/// A table seen through the mirror: the number of each square is that of the
/// square on the same file and the opposite rank.
pub fn mirrored(table: &[i16; 64]) -> (out: [i16; 64])
    ensures
        forall|s: int| 0 <= s < 64 ==> out[s] == table[mirror(s)],
{
    let mut out: [i16; 64] = [0; 64];
    let mut s: u8 = 0;
    while s < 64
        invariant
            s <= 64,
            forall|t: int| 0 <= t < s ==> out[t] == table[mirror(t)],
        decreases 64 - s,
    {
        assert((s ^ 56) < 64 && (s ^ 56) == 56 - 8 * (s / 8) + s % 8) by (bit_vector)
            requires
                s < 64,
        ;
        out[s as usize] = table[(s ^ 56) as usize];
        s += 1;
    }
    out
}

/// The PeSTO tables of the middle game and of the end game, for both sides.
pub fn create_pesto_piece_square() -> (tables: (ColoredTables, ColoredTables))
    ensures
        tables.0.colours(middle_game_tables()),
        tables.1.colours(end_game_tables()),
{
    let pesto = PeSTOPieceSquare::new();
    (ColoredTables::new(&pesto.middle_game), ColoredTables::new(&pesto.end_game))
}

/// No number of the PeSTO tables is further than `MAX_BONUS` from zero.
pub proof fn lemma_pesto_bounded()
    ensures
        middle_game_tables().bounded(MAX_BONUS as int),
        end_game_tables().bounded(MAX_BONUS as int),
{
}

} // verus!
