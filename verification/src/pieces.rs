//! Chess men, colours and moves as plain values.

use vstd::prelude::*;

verus! {

/// The six kinds of chess men, in ascending order of value.
#[derive(Clone, Copy, Debug, PartialEq, Eq, Structural, Hash)]
pub enum PieceKind {
    Pawn,
    Knight,
    Bishop,
    Rook,
    Queen,
    King,
}

/// The two sides.
#[derive(Clone, Copy, Debug, PartialEq, Eq, Structural, Hash)]
pub enum Colour {
    White,
    Black,
}

/// A man of one side.
#[derive(Clone, Copy, Debug, PartialEq, Eq, Structural, Hash)]
pub struct Piece {
    pub kind: PieceKind,
    pub colour: Colour,
}

/// A move: the square a man leaves, the square it lands on, and the kind a
/// pawn turns into when it reaches the last rank.
///
/// Squares are numbered from 0 (a1) along the ranks to 63 (h8).
#[derive(Clone, Copy, Debug, PartialEq, Eq, Structural, Hash)]
pub struct Move {
    pub source: u8,
    pub dest: u8,
    pub promotion: Option<PieceKind>,
}

impl PieceKind {
    /// The position of the kind in the order Pawn, Knight, Bishop, Rook, Queen, King.
    pub open spec fn spec_index(self) -> int {
        match self {
            PieceKind::Pawn => 0,
            PieceKind::Knight => 1,
            PieceKind::Bishop => 2,
            PieceKind::Rook => 3,
            PieceKind::Queen => 4,
            PieceKind::King => 5,
        }
    }

    /// The kind that stands at position `i`; the king for every `i` above 4.
    pub open spec fn spec_from_index(i: int) -> PieceKind {
        if i == 0 {
            PieceKind::Pawn
        } else if i == 1 {
            PieceKind::Knight
        } else if i == 2 {
            PieceKind::Bishop
        } else if i == 3 {
            PieceKind::Rook
        } else if i == 4 {
            PieceKind::Queen
        } else {
            PieceKind::King
        }
    }

    pub fn index(self) -> (i: usize)
        ensures
            i == self.spec_index(),
            i < 6,
    {
        match self {
            PieceKind::Pawn => 0,
            PieceKind::Knight => 1,
            PieceKind::Bishop => 2,
            PieceKind::Rook => 3,
            PieceKind::Queen => 4,
            PieceKind::King => 5,
        }
    }

    pub fn from_index(i: usize) -> (kind: PieceKind)
        ensures
            kind == Self::spec_from_index(i as int),
            i < 6 ==> kind.spec_index() == i,
    {
        if i == 0 {
            PieceKind::Pawn
        } else if i == 1 {
            PieceKind::Knight
        } else if i == 2 {
            PieceKind::Bishop
        } else if i == 3 {
            PieceKind::Rook
        } else if i == 4 {
            PieceKind::Queen
        } else {
            PieceKind::King
        }
    }
}

impl Colour {
    pub open spec fn spec_other(self) -> Colour {
        match self {
            Colour::White => Colour::Black,
            Colour::Black => Colour::White,
        }
    }

    /// The opposing side.
    #[verifier::when_used_as_spec(spec_other)]
    pub fn other(self) -> (c: Colour)
        ensures
            c == self.spec_other(),
    {
        match self {
            Colour::White => Colour::Black,
            Colour::Black => Colour::White,
        }
    }

    /// White is 0, Black is 1.
    pub open spec fn spec_index(self) -> int {
        match self {
            Colour::White => 0,
            Colour::Black => 1,
        }
    }

    pub fn index(self) -> (i: usize)
        ensures
            i == self.spec_index(),
    {
        match self {
            Colour::White => 0,
            Colour::Black => 1,
        }
    }

    /// White for 0, Black for everything else.
    pub fn from_index(i: usize) -> (c: Colour)
        ensures
            c == (if i == 0 {
                Colour::White
            } else {
                Colour::Black
            }),
    {
        if i == 0 {
            Colour::White
        } else {
            Colour::Black
        }
    }
}

impl Move {
    /// Both squares are on the board.
    pub open spec fn on_board(self) -> bool {
        self.source < 64 && self.dest < 64
    }
}

/// Every move of the sequence has both squares on the board.
pub open spec fn all_on_board(moves: Seq<Move>) -> bool {
    forall|i: int| 0 <= i < moves.len() ==> (#[trigger] moves[i]).on_board()
}

} // verus!
