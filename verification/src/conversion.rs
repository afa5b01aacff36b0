//! Moves and squares as the UCI protocol writes them: a file letter from `a`
//! to `h`, a rank number from 1 to 8, and a letter for a promotion.

use crate::pieces::{Move, PieceKind};
use crate::position::{legal_moves, position_after, Position, PositionView};
use crate::uci::DepthData;
use vstd::prelude::*;

verus! {

/// Why a conversion failed.
#[derive(Clone, Copy, Debug, PartialEq, Eq, Structural)]
pub enum ConversionError {
    /// A rank number is not between 1 and 8.
    NumberUndefined,
    /// A file letter is not between `a` and `h`.
    CharUndefined,
    /// A move of the engine cannot be written.  No conversion gives it.
    ChessMoveToUciMove,
    /// A move of the protocol cannot be read.  No conversion gives it.
    UciMoveToChessMove,
}

/// The ranks of the board, from White's side.
#[derive(Clone, Copy, Debug, PartialEq, Eq, Structural)]
pub enum Rank {
    First,
    Second,
    Third,
    Fourth,
    Fifth,
    Sixth,
    Seventh,
    Eighth,
}

/// The files of the board, from the queen's side.
#[derive(Clone, Copy, Debug, PartialEq, Eq, Structural)]
pub enum File {
    A,
    B,
    C,
    D,
    E,
    F,
    G,
    H,
}

/// A kind of man as the protocol names it.
#[derive(Clone, Copy, Debug, PartialEq, Eq, Structural)]
pub enum UciPiece {
    Pawn,
    Knight,
    Bishop,
    Rook,
    Queen,
    King,
}

/// A square as the protocol writes it.
#[derive(Clone, Copy, Debug, PartialEq, Eq, Structural)]
pub struct UciSquare {
    pub file: char,
    pub rank: u8,
}

/// A move as the protocol writes it.
#[derive(Clone, Copy, Debug, PartialEq, Eq, Structural)]
pub struct UciMove {
    pub from: UciSquare,
    pub to: UciSquare,
    pub promotion: Option<UciPiece>,
}

impl Rank {
    /// The place of the rank, from 0 for the first.
    pub open spec fn index(self) -> int {
        match self {
            Rank::First => 0,
            Rank::Second => 1,
            Rank::Third => 2,
            Rank::Fourth => 3,
            Rank::Fifth => 4,
            Rank::Sixth => 5,
            Rank::Seventh => 6,
            Rank::Eighth => 7,
        }
    }

    /// The rank at a place; places are counted round the board.
    pub open spec fn at(index: int) -> Rank {
        let i = index % 8;
        if i == 0 {
            Rank::First
        } else if i == 1 {
            Rank::Second
        } else if i == 2 {
            Rank::Third
        } else if i == 3 {
            Rank::Fourth
        } else if i == 4 {
            Rank::Fifth
        } else if i == 5 {
            Rank::Sixth
        } else if i == 6 {
            Rank::Seventh
        } else {
            Rank::Eighth
        }
    }

    pub fn from_index(index: u8) -> (rank: Rank)
        ensures
            rank == Rank::at(index as int),
    {
        let i = index % 8;
        if i == 0 {
            Rank::First
        } else if i == 1 {
            Rank::Second
        } else if i == 2 {
            Rank::Third
        } else if i == 3 {
            Rank::Fourth
        } else if i == 4 {
            Rank::Fifth
        } else if i == 5 {
            Rank::Sixth
        } else if i == 6 {
            Rank::Seventh
        } else {
            Rank::Eighth
        }
    }
}

impl File {
    /// The place of the file, from 0 for `a`.
    pub open spec fn index(self) -> int {
        match self {
            File::A => 0,
            File::B => 1,
            File::C => 2,
            File::D => 3,
            File::E => 4,
            File::F => 5,
            File::G => 6,
            File::H => 7,
        }
    }

    /// The file at a place; places are counted round the board.
    pub open spec fn at(index: int) -> File {
        let i = index % 8;
        if i == 0 {
            File::A
        } else if i == 1 {
            File::B
        } else if i == 2 {
            File::C
        } else if i == 3 {
            File::D
        } else if i == 4 {
            File::E
        } else if i == 5 {
            File::F
        } else if i == 6 {
            File::G
        } else {
            File::H
        }
    }

    pub fn from_index(index: u8) -> (file: File)
        ensures
            file == File::at(index as int),
    {
        let i = index % 8;
        if i == 0 {
            File::A
        } else if i == 1 {
            File::B
        } else if i == 2 {
            File::C
        } else if i == 3 {
            File::D
        } else if i == 4 {
            File::E
        } else if i == 5 {
            File::F
        } else if i == 6 {
            File::G
        } else {
            File::H
        }
    }
}

/// The number that the protocol writes for a rank.
pub open spec fn rank_number(rank: Rank) -> u8 {
    (rank.index() + 1) as u8
}

/// The letter that the protocol writes for a file.
pub open spec fn file_letter(file: File) -> char {
    match file {
        File::A => 'a',
        File::B => 'b',
        File::C => 'c',
        File::D => 'd',
        File::E => 'e',
        File::F => 'f',
        File::G => 'g',
        File::H => 'h',
    }
}

/// The file that a letter stands for.
pub open spec fn letter_file(file: char) -> Result<File, ConversionError> {
    if file == 'a' {
        Ok(File::A)
    } else if file == 'b' {
        Ok(File::B)
    } else if file == 'c' {
        Ok(File::C)
    } else if file == 'd' {
        Ok(File::D)
    } else if file == 'e' {
        Ok(File::E)
    } else if file == 'f' {
        Ok(File::F)
    } else if file == 'g' {
        Ok(File::G)
    } else if file == 'h' {
        Ok(File::H)
    } else {
        Err(ConversionError::CharUndefined)
    }
}

/// The rank that a number stands for.
pub open spec fn number_rank(rank: u8) -> Result<Rank, ConversionError> {
    if 1 <= rank <= 8 {
        Ok(Rank::at(rank - 1))
    } else {
        Err(ConversionError::NumberUndefined)
    }
}

/// A kind of man as the protocol names it.
pub open spec fn uci_piece(piece: PieceKind) -> UciPiece {
    match piece {
        PieceKind::Pawn => UciPiece::Pawn,
        PieceKind::Rook => UciPiece::Rook,
        PieceKind::King => UciPiece::King,
        PieceKind::Queen => UciPiece::Queen,
        PieceKind::Knight => UciPiece::Knight,
        PieceKind::Bishop => UciPiece::Bishop,
    }
}

/// The kind of man that a name of the protocol stands for.
pub open spec fn chess_piece(piece: UciPiece) -> PieceKind {
    match piece {
        UciPiece::Pawn => PieceKind::Pawn,
        UciPiece::Rook => PieceKind::Rook,
        UciPiece::King => PieceKind::King,
        UciPiece::Queen => PieceKind::Queen,
        UciPiece::Knight => PieceKind::Knight,
        UciPiece::Bishop => PieceKind::Bishop,
    }
}

/// A square as the protocol writes it: squares are numbered along the ranks,
/// eight to a rank.
pub open spec fn uci_square(square: u8) -> UciSquare {
    UciSquare {
        file: file_letter(File::at(square as int)),
        rank: rank_number(Rank::at(square as int / 8)),
    }
}

/// The number of the square of a rank and a file.
pub open spec fn square_of(rank: Rank, file: File) -> u8 {
    (8 * rank.index() + file.index()) as u8
}

/// A move as the protocol writes it.
pub open spec fn uci_move(chess_move: Move) -> UciMove {
    UciMove {
        from: uci_square(chess_move.source),
        to: uci_square(chess_move.dest),
        promotion: match chess_move.promotion {
            Some(piece) => Some(uci_piece(piece)),
            None => None,
        },
    }
}

/// The move that a move of the protocol stands for.  The letters and numbers
/// are looked at in the order from-file, from-rank, to-file, to-rank, and the
/// first that stands for nothing gives the error.
pub open spec fn chess_move(uci_move: UciMove) -> Result<Move, ConversionError> {
    match letter_file(uci_move.from.file) {
        Err(e) => Err(e),
        Ok(from_file) => match number_rank(uci_move.from.rank) {
            Err(e) => Err(e),
            Ok(from_rank) => match letter_file(uci_move.to.file) {
                Err(e) => Err(e),
                Ok(to_file) => match number_rank(uci_move.to.rank) {
                    Err(e) => Err(e),
                    Ok(to_rank) => Ok(
                        Move {
                            source: square_of(from_rank, from_file),
                            dest: square_of(to_rank, to_file),
                            promotion: match uci_move.promotion {
                                Some(piece) => Some(chess_piece(piece)),
                                None => None,
                            },
                        },
                    ),
                },
            },
        },
    }
}

/// Writing a move for the protocol and reading it back gives the move, for
/// every move between squares of the board.
pub proof fn lemma_uci_move_round_trip(m: Move)
    requires
        m.on_board(),
    ensures
        chess_move(uci_move(m)) == Ok::<Move, ConversionError>(m),
{
    lemma_square_round_trip(m.source);
    lemma_square_round_trip(m.dest);
}

/// The rank and the file of a square of the board give the square back.
pub proof fn lemma_square_round_trip(square: u8)
    requires
        square < 64,
    ensures
        letter_file(uci_square(square).file) == Ok::<File, ConversionError>(File::at(square as int)),
        number_rank(uci_square(square).rank) == Ok::<Rank, ConversionError>(
            Rank::at(square as int / 8),
        ),
        square_of(Rank::at(square as int / 8), File::at(square as int)) == square,
{
}

pub fn rank_to_number(rank: &Rank) -> (number: u8)
    ensures
        number == rank_number(*rank),
        1 <= number <= 8,
{
    match rank {
        Rank::First => 1,
        Rank::Second => 2,
        Rank::Third => 3,
        Rank::Fourth => 4,
        Rank::Fifth => 5,
        Rank::Sixth => 6,
        Rank::Seventh => 7,
        Rank::Eighth => 8,
    }
}

pub fn file_to_string(file: &File) -> (letter: char)
    ensures
        letter == file_letter(*file),
{
    match file {
        File::A => 'a',
        File::B => 'b',
        File::C => 'c',
        File::D => 'd',
        File::E => 'e',
        File::F => 'f',
        File::G => 'g',
        File::H => 'h',
    }
}

pub fn char_to_file(file: char) -> (result: Result<File, ConversionError>)
    ensures
        result == letter_file(file),
{
    if file == 'a' {
        Ok(File::A)
    } else if file == 'b' {
        Ok(File::B)
    } else if file == 'c' {
        Ok(File::C)
    } else if file == 'd' {
        Ok(File::D)
    } else if file == 'e' {
        Ok(File::E)
    } else if file == 'f' {
        Ok(File::F)
    } else if file == 'g' {
        Ok(File::G)
    } else if file == 'h' {
        Ok(File::H)
    } else {
        Err(ConversionError::CharUndefined)
    }
}

pub fn number_to_rank(rank: u8) -> (result: Result<Rank, ConversionError>)
    ensures
        result == number_rank(rank),
{
    if 1 <= rank && rank <= 8 {
        Ok(Rank::from_index(rank - 1))
    } else {
        Err(ConversionError::NumberUndefined)
    }
}

pub fn chess_piece_to_uci_piece(piece: &PieceKind) -> (result: UciPiece)
    ensures
        result == uci_piece(*piece),
{
    match piece {
        PieceKind::Pawn => UciPiece::Pawn,
        PieceKind::Rook => UciPiece::Rook,
        PieceKind::King => UciPiece::King,
        PieceKind::Queen => UciPiece::Queen,
        PieceKind::Knight => UciPiece::Knight,
        PieceKind::Bishop => UciPiece::Bishop,
    }
}

pub fn uci_piece_to_chess_piece(piece: &UciPiece) -> (result: PieceKind)
    ensures
        result == chess_piece(*piece),
{
    match piece {
        UciPiece::Pawn => PieceKind::Pawn,
        UciPiece::Rook => PieceKind::Rook,
        UciPiece::King => PieceKind::King,
        UciPiece::Queen => PieceKind::Queen,
        UciPiece::Knight => PieceKind::Knight,
        UciPiece::Bishop => PieceKind::Bishop,
    }
}

/// The number of the square of a rank and a file.
pub fn make_square(rank: Rank, file: File) -> (square: u8)
    ensures
        square == square_of(rank, file),
        square < 64,
{
    (rank_to_number(&rank) - 1) * 8 + match file {
        File::A => 0,
        File::B => 1,
        File::C => 2,
        File::D => 3,
        File::E => 4,
        File::F => 5,
        File::G => 6,
        File::H => 7,
    }
}

pub fn chess_move_to_uci_move(chess_move: &Move) -> (result: UciMove)
    ensures
        result == uci_move(*chess_move),
{
    let (src_file, src_rank) = (
        File::from_index(chess_move.source),
        Rank::from_index(chess_move.source / 8),
    );
    let (dest_file, dest_rank) = (
        File::from_index(chess_move.dest),
        Rank::from_index(chess_move.dest / 8),
    );
    let promotion = match chess_move.promotion {
        Some(promotion) => Some(chess_piece_to_uci_piece(&promotion)),
        None => None,
    };

    UciMove {
        from: UciSquare { file: file_to_string(&src_file), rank: rank_to_number(&src_rank) },
        to: UciSquare { file: file_to_string(&dest_file), rank: rank_to_number(&dest_rank) },
        promotion,
    }
}

pub fn uci_move_to_chess_move(uci_move: &UciMove) -> (result: Result<Move, ConversionError>)
    ensures
        result == chess_move(*uci_move),
        result matches Ok(m) ==> m.on_board(),
{
    let from_file = match char_to_file(uci_move.from.file) {
        Ok(file) => file,
        Err(e) => {
            return Err(e);
        },
    };
    let from_rank = match number_to_rank(uci_move.from.rank) {
        Ok(rank) => rank,
        Err(e) => {
            return Err(e);
        },
    };
    let to_file = match char_to_file(uci_move.to.file) {
        Ok(file) => file,
        Err(e) => {
            return Err(e);
        },
    };
    let to_rank = match number_to_rank(uci_move.to.rank) {
        Ok(rank) => rank,
        Err(e) => {
            return Err(e);
        },
    };
    let promotion = match uci_move.promotion {
        Some(promotion) => Some(uci_piece_to_chess_piece(&promotion)),
        None => None,
    };

    Ok(
        Move {
            source: make_square(from_rank, from_file),
            dest: make_square(to_rank, to_file),
            promotion,
        },
    )
}

/// The position that a sequence of moves of the protocol leads to from a
/// position, or nothing where one of them stands for no move or for a move
/// that is not legal where it is made.
pub open spec fn played(start: PositionView, moves: Seq<UciMove>) -> Option<PositionView>
    decreases moves.len(),
{
    if moves.len() == 0 {
        Some(start)
    } else {
        match played(start, moves.drop_last()) {
            None => None,
            Some(position) => match chess_move(moves.last()) {
                Err(_) => None,
                Ok(m) => if legal_moves(position).contains(m) {
                    Some(position_after(position, m))
                } else {
                    None
                },
            },
        }
    }
}

/// Once a sequence of moves leads nowhere, no longer sequence leads anywhere.
pub proof fn lemma_played_stays_none(start: PositionView, moves: Seq<UciMove>, n: int)
    requires
        0 <= n <= moves.len(),
        played(start, moves.subrange(0, n)).is_none(),
    ensures
        played(start, moves).is_none(),
    decreases moves.len() - n,
{
    if n < moves.len() {
        assert(moves.subrange(0, n + 1).drop_last() =~= moves.subrange(0, n));
        lemma_played_stays_none(start, moves, n + 1);
    } else {
        assert(moves.subrange(0, n) =~= moves);
    }
}

/// Makes the moves of a `position` command, one after the other.  Returns
/// nothing where one of them stands for no move or is not legal.
pub fn play_moves(start: &Position, moves: &Vec<UciMove>) -> (result: Option<Position>)
    ensures
        match result {
            Some(position) => played(start@, moves@) == Some(position@),
            None => played(start@, moves@).is_none(),
        },
{
    let mut position = *start;
    let mut i: usize = 0;
    assert(moves@.subrange(0, 0) =~= Seq::<UciMove>::empty());
    while i < moves.len()
        invariant
            i <= moves.len(),
            played(start@, moves@.subrange(0, i as int)) == Some(position@),
        decreases moves.len() - i,
    {
        assert(moves@.subrange(0, i + 1).drop_last() =~= moves@.subrange(0, i as int));
        assert(moves@.subrange(0, i + 1).last() == moves@[i as int]);
        let next = match uci_move_to_chess_move(&moves[i]) {
            Ok(chess_move) => position.try_apply(chess_move),
            Err(_) => None,
        };
        match next {
            Some(next) => {
                position = next;
            },
            None => {
                proof {
                    lemma_played_stays_none(start@, moves@, i + 1);
                }
                return None;
            },
        }
        i += 1;
    }
    assert(moves@.subrange(0, i as int) =~= moves@);
    Some(position)
}

/// What an `info` line of the protocol says of a ply.
#[derive(Clone, Copy, Debug, PartialEq, Eq, Structural)]
pub struct Info {
    /// The best move found at the ply.
    pub pv: Option<UciMove>,
    /// The ply, as far as it fits in a byte.
    pub depth: u8,
    /// How often a better move was found at the ply.
    pub nodes: u64,
}

/// The `info` line of an entry of the progress record.
pub open spec fn info_of(data: DepthData) -> Info {
    Info {
        pv: match data.best_move {
            Some(m) => Some(uci_move(m)),
            None => None,
        },
        depth: (data.depth % 256) as u8,
        nodes: data.node_count as u64,
    }
}

/// The `info` lines of a progress record, the last entry first.
pub fn info_lines(depth_data: &Vec<DepthData>) -> (lines: Vec<Info>)
    ensures
        lines@.len() == depth_data@.len(),
        forall|i: int|
            0 <= i < lines@.len() ==> #[trigger] lines@[i] == info_of(
                depth_data@[depth_data@.len() - 1 - i],
            ),
{
    let mut lines: Vec<Info> = Vec::new();
    let mut index = depth_data.len();
    while index > 0
        invariant
            index <= depth_data.len(),
            lines@.len() == depth_data@.len() - index,
            forall|i: int|
                0 <= i < lines@.len() ==> #[trigger] lines@[i] == info_of(
                    depth_data@[depth_data@.len() - 1 - i],
                ),
        decreases index,
    {
        index -= 1;
        let data = &depth_data[index];
        let pv = match data.best_move {
            Some(chess_move) => Some(chess_move_to_uci_move(&chess_move)),
            None => None,
        };
        lines.push(Info { pv, depth: (data.depth % 256) as u8, nodes: data.node_count as u64 });
    }
    lines
}

} // verus!
