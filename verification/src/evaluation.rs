//! The static evaluation of a position: material, a piece-square score tapered
//! between the middle game and the end game, and a term for positions in which
//! the side to move has no legal move.
//!
//! All scores are in centipawns and from the point of view of the side to
//! move.

use crate::basic_bot::BasicBot;
use crate::bits::{count_below, count_of, lemma_count_below_bound, ones, popcnt};
use crate::pieces::{Colour, Move, Piece, PieceKind};
use crate::pieces_colored::{colored_pieces, lemma_men_count, PiecesColored};
use crate::piece_sq_tables::{ColoredTables, MAX_BONUS};
use crate::position::{
    few_men, held_by, in_check, men_count, men_of, piece_at, side_to_move, stands, Position,
    PositionView,
};
use vstd::prelude::*;

verus! {

/// The material of both sides at the start of a game.
pub const MAX_MATERIAL: u32 = 7800;

/// The size of the score of a checkmate.
pub const CHECKMATE: i32 = 999999;

/// The size of the score of a stalemate.
pub const STALEMATE: i32 = 555555;

/// No evaluation is further than this from zero.
pub const SCORE_LIMIT: i32 = 6000000;

/// The material of the men that the masks stand for.
pub open spec fn material_of(pieces: PiecesColored) -> nat {
    100 * ones(pieces.pawns) + 300 * ones(pieces.knights) + 300 * ones(pieces.bishops) + 500
        * ones(pieces.rooks) + 900 * ones(pieces.queens)
}

/// The material of one side: the number of its men of each kind, times what
/// the kind is worth.
pub open spec fn material(position: PositionView, colour: Colour) -> nat {
    100 * men_count(position, Piece { kind: PieceKind::Pawn, colour }) + 300 * men_count(
        position,
        Piece { kind: PieceKind::Knight, colour },
    ) + 300 * men_count(position, Piece { kind: PieceKind::Bishop, colour }) + 500 * men_count(
        position,
        Piece { kind: PieceKind::Rook, colour },
    ) + 900 * men_count(position, Piece { kind: PieceKind::Queen, colour })
}

/// The material of the side to move less that of the other side.
pub open spec fn material_advantage(position: PositionView) -> int {
    material(position, side_to_move(position)) - material(
        position,
        side_to_move(position).other(),
    )
}

/// What the man on a square, if it is of the given side, is worth by the
/// tables; nothing for an empty square or a man of the other side.
pub open spec fn square_bonus(
    tables: ColoredTables,
    position: PositionView,
    colour: Colour,
    square: int,
) -> int {
    match piece_at(position, square) {
        Some(piece) => if piece.colour == colour {
            tables.bonus(colour, piece.kind, square)
        } else {
            0
        },
        None => 0,
    }
}

/// What the men of one side on the squares below `n` are worth by the tables.
pub open spec fn bonus_below(
    tables: ColoredTables,
    position: PositionView,
    colour: Colour,
    n: nat,
) -> int
    decreases n,
{
    if n == 0 {
        0
    } else {
        bonus_below(tables, position, colour, (n - 1) as nat) + square_bonus(
            tables,
            position,
            colour,
            n - 1,
        )
    }
}

/// What the men of one side are worth by the tables.
pub open spec fn bonus(tables: ColoredTables, position: PositionView, colour: Colour) -> int {
    bonus_below(tables, position, colour, 64)
}

/// The bonus of the side to move less that of the other side.
pub open spec fn bonus_advantage(tables: ColoredTables, position: PositionView) -> int {
    bonus(tables, position, side_to_move(position)) - bonus(
        tables,
        position,
        side_to_move(position).other(),
    )
}

/// A quotient rounded towards zero.
pub open spec fn truncated(numerator: int, denominator: int) -> int {
    if numerator >= 0 {
        numerator / denominator
    } else {
        -((-numerator) / denominator)
    }
}

/// The material that counts for the phase of the game: what is on the board,
/// but no more than at the start of a game.
pub open spec fn phase_material(total_material: int) -> int {
    if total_material > MAX_MATERIAL {
        MAX_MATERIAL as int
    } else {
        total_material
    }
}

/// The score between the middle game and the end game.  With `p` for the
/// share of the starting material that is on the board, at most 1, it is
/// `p * mg_score + (1 - p) * eg_score`, rounded towards zero.
pub open spec fn tapered(total_material: int, mg_score: int, eg_score: int) -> int {
    truncated(
        phase_material(total_material) * mg_score + (MAX_MATERIAL - phase_material(
            total_material,
        )) * eg_score,
        MAX_MATERIAL as int,
    )
}

/// The piece-square score of a position.
pub open spec fn positional(mg: ColoredTables, eg: ColoredTables, position: PositionView) -> int {
    tapered(
        (material(position, Colour::White) + material(position, Colour::Black)) as int,
        bonus_advantage(mg, position),
        bonus_advantage(eg, position),
    )
}

/// The score of a position without legal moves: a checkmate where the side to
/// move is in check, a stalemate where it is not; against the side to move
/// where that is the side the search plays for, and for it otherwise.
/// Nothing where there are legal moves.
pub open spec fn terminal(moves: nat, in_check: bool, is_maximizing_player: bool) -> int {
    let perspective: int = if is_maximizing_player {
        -1
    } else {
        1
    };
    if moves == 0 {
        if in_check {
            CHECKMATE * perspective
        } else {
            STALEMATE * perspective
        }
    } else {
        0
    }
}

/// The static evaluation of a position with `moves` legal moves.
pub open spec fn evaluation(
    mg: ColoredTables,
    eg: ColoredTables,
    position: PositionView,
    moves: nat,
    is_maximizing_player: bool,
) -> int {
    material_advantage(position) + positional(mg, eg, position) + terminal(
        moves,
        in_check(position),
        is_maximizing_player,
    )
}

/// The material of the masks of a side is the material of the side, and no
/// more than 64 men of each kind.
pub proof fn lemma_material(position: PositionView, colour: Colour)
    ensures
        material_of(colored_pieces(position, colour)) == material(position, colour),
        0 <= material(position, colour) <= 134400,
{
    lemma_men_count(position, Piece { kind: PieceKind::Pawn, colour });
    lemma_men_count(position, Piece { kind: PieceKind::Knight, colour });
    lemma_men_count(position, Piece { kind: PieceKind::Bishop, colour });
    lemma_men_count(position, Piece { kind: PieceKind::Rook, colour });
    lemma_men_count(position, Piece { kind: PieceKind::Queen, colour });
}

/// The bonus of the squares below `n` is within `n` times the greatest `i16`.
pub proof fn lemma_bonus_below_range(
    tables: ColoredTables,
    position: PositionView,
    colour: Colour,
    n: nat,
)
    requires
        n <= 64,
    ensures
        -32768 * n <= bonus_below(tables, position, colour, n) <= 32767 * n,
    decreases n,
{
    if n > 0 {
        lemma_bonus_below_range(tables, position, colour, (n - 1) as nat);
    }
}

/// A tapered score lies where both of its scores lie, as far as zero lies
/// there too.
pub proof fn lemma_tapered_between(
    total_material: int,
    mg_score: int,
    eg_score: int,
    low: int,
    high: int,
)
    requires
        0 <= total_material,
        low <= 0 <= high,
        low <= mg_score <= high,
        low <= eg_score <= high,
    ensures
        low <= tapered(total_material, mg_score, eg_score) <= high,
{
    let p = phase_material(total_material);
    let q = MAX_MATERIAL - p;
    let numerator = p * mg_score + q * eg_score;
    assert(low * 7800 <= numerator <= high * 7800) by (nonlinear_arith)
        requires
            0 <= p <= 7800,
            q == 7800 - p,
            numerator == p * mg_score + q * eg_score,
            low <= mg_score <= high,
            low <= eg_score <= high,
    ;
    if numerator >= 0 {
        assert(0 <= numerator / 7800 <= high) by (nonlinear_arith)
            requires
                0 <= numerator <= high * 7800,
        ;
    } else {
        assert(0 <= (-numerator) / 7800 <= -low) by (nonlinear_arith)
            requires
                0 <= -numerator <= (-low) * 7800,
        ;
    }
}

/// Every evaluation is within `SCORE_LIMIT` of zero.
pub proof fn lemma_evaluation_range(
    mg: ColoredTables,
    eg: ColoredTables,
    position: PositionView,
    moves: nat,
    is_maximizing_player: bool,
)
    ensures
        -SCORE_LIMIT <= evaluation(mg, eg, position, moves, is_maximizing_player) <= SCORE_LIMIT,
{
    lemma_material(position, Colour::White);
    lemma_material(position, Colour::Black);
    lemma_bonus_below_range(mg, position, Colour::White, 64);
    lemma_bonus_below_range(mg, position, Colour::Black, 64);
    lemma_bonus_below_range(eg, position, Colour::White, 64);
    lemma_bonus_below_range(eg, position, Colour::Black, 64);
    lemma_tapered_between(
        (material(position, Colour::White) + material(position, Colour::Black)) as int,
        bonus_advantage(mg, position),
        bonus_advantage(eg, position),
        -4194304,
        4194304,
    );
}

/// The number of men on the board.
pub open spec fn men(position: PositionView) -> nat {
    count_of(|square: int| position.pieces.contains_key(square))
}

/// The men on the board are those of White and those of Black.
pub proof fn lemma_men_split(position: PositionView, n: nat)
    ensures
        count_below(|square: int| position.pieces.contains_key(square), n) == count_below(
            |square: int| held_by(position, Colour::White, square),
            n,
        ) + count_below(|square: int| held_by(position, Colour::Black, square), n),
    decreases n,
{
    if n > 0 {
        lemma_men_split(position, (n - 1) as nat);
    }
}

/// The material of a side on the squares below `n` is no more than a queen
/// for each of its men there.
pub proof fn lemma_material_below_bound(position: PositionView, colour: Colour, n: nat)
    ensures
        100 * count_below(
            |square: int| stands(position, Piece { kind: PieceKind::Pawn, colour }, square),
            n,
        ) + 300 * count_below(
            |square: int| stands(position, Piece { kind: PieceKind::Knight, colour }, square),
            n,
        ) + 300 * count_below(
            |square: int| stands(position, Piece { kind: PieceKind::Bishop, colour }, square),
            n,
        ) + 500 * count_below(
            |square: int| stands(position, Piece { kind: PieceKind::Rook, colour }, square),
            n,
        ) + 900 * count_below(
            |square: int| stands(position, Piece { kind: PieceKind::Queen, colour }, square),
            n,
        ) <= 900 * count_below(|square: int| held_by(position, colour, square), n),
    decreases n,
{
    if n > 0 {
        lemma_material_below_bound(position, colour, (n - 1) as nat);
    }
}

/// The material of a side is no more than a queen for each of its men.
pub proof fn lemma_material_bound(position: PositionView, colour: Colour)
    ensures
        material(position, colour) <= 900 * men_of(position, colour),
{
    lemma_material_below_bound(position, colour, 64);
}

/// What the men of a side on the squares below `n` are worth by tables that
/// are bounded is within the bound for each of these men.
pub proof fn lemma_bonus_below_bound(
    tables: ColoredTables,
    position: PositionView,
    colour: Colour,
    bound: int,
    n: nat,
)
    requires
        tables.bounded(bound),
        n <= 64,
        bound >= 0,
    ensures
        -(bound * count_below(|square: int| held_by(position, colour, square), n)) <= bonus_below(
            tables,
            position,
            colour,
            n,
        ) <= bound * count_below(|square: int| held_by(position, colour, square), n),
    decreases n,
{
    let held = |square: int| held_by(position, colour, square);
    if n > 0 {
        lemma_bonus_below_bound(tables, position, colour, bound, (n - 1) as nat);
        let before = count_below(held, (n - 1) as nat);
        let now = count_below(held, n);
        let step = square_bonus(tables, position, colour, n - 1);
        match piece_at(position, n - 1) {
            Some(piece) => {
                if piece.colour == colour {
                    assert(-bound <= tables.bonus(colour, piece.kind, n - 1) <= bound);
                    assert(held(n - 1));
                    assert(now == before + 1);
                } else {
                    assert(!held(n - 1));
                    assert(now == before);
                    assert(step == 0);
                }
            },
            None => {
                assert(!held(n - 1));
                assert(now == before);
                assert(step == 0);
            },
        }
        assert(bound * now == bound * before + bound * (now - before)) by (nonlinear_arith);
        assert(bound * (now - before) == if now == before {
            0
        } else {
            bound
        }) by (nonlinear_arith)
            requires
                now == before || now == before + 1,
        ;
    } else {
        assert(bound * count_below(held, 0) == 0) by (nonlinear_arith)
            requires
                count_below(held, 0) == 0,
        ;
    }
}

/// Material and piece-square score together are within a queen and the
/// greatest bonus for each man on the board.
pub proof fn lemma_quiet_score_bound(
    mg: ColoredTables,
    eg: ColoredTables,
    position: PositionView,
    bound: int,
)
    requires
        mg.bounded(bound),
        eg.bounded(bound),
        bound >= 0,
    ensures
        -((900 + bound) * men(position)) <= material_advantage(position) + positional(
            mg,
            eg,
            position,
        ) <= (900 + bound) * men(position),
{
    let white = men_of(position, Colour::White);
    let black = men_of(position, Colour::Black);
    lemma_men_split(position, 64);
    assert(men(position) == white + black);
    lemma_material_bound(position, Colour::White);
    lemma_material_bound(position, Colour::Black);
    lemma_bonus_below_bound(mg, position, Colour::White, bound, 64);
    lemma_bonus_below_bound(mg, position, Colour::Black, bound, 64);
    lemma_bonus_below_bound(eg, position, Colour::White, bound, 64);
    lemma_bonus_below_bound(eg, position, Colour::Black, bound, 64);
    let by_white = bound * white;
    let by_black = bound * black;
    let limit = by_white + by_black;
    assert(by_white >= 0 && by_black >= 0) by (nonlinear_arith)
        requires
            by_white == bound * white,
            by_black == bound * black,
            bound >= 0,
    ;
    assert(-limit <= bonus_advantage(mg, position) <= limit);
    assert(-limit <= bonus_advantage(eg, position) <= limit);
    lemma_tapered_between(
        (material(position, Colour::White) + material(position, Colour::Black)) as int,
        bonus_advantage(mg, position),
        bonus_advantage(eg, position),
        -limit,
        limit,
    );
    assert((900 + bound) * men(position) == 900 * white + 900 * black + limit)
        by (nonlinear_arith)
        requires
            limit == bound * white + bound * black,
            men(position) == white + black,
    ;
}

/// A checkmate outweighs everything else: with tables within `bound` of
/// zero, where `bound` is no more than 662, the evaluation of a position in
/// which the side to move is mated is at most -900000 where that side is the
/// side the search plays for, and at least 900000 where it is the other side.
pub proof fn lemma_checkmate_dominance(
    mg: ColoredTables,
    eg: ColoredTables,
    position: PositionView,
    bound: int,
    is_maximizing_player: bool,
)
    requires
        mg.bounded(bound),
        eg.bounded(bound),
        0 <= bound <= 662,
        in_check(position),
    ensures
        is_maximizing_player ==> evaluation(mg, eg, position, 0, is_maximizing_player) <= -900000,
        !is_maximizing_player ==> evaluation(mg, eg, position, 0, is_maximizing_player) >= 900000,
{
    lemma_quiet_score_bound(mg, eg, position, bound);
    lemma_count_below_bound(|square: int| position.pieces.contains_key(square), 64);
    assert((900 + bound) * men(position) <= 99968) by (nonlinear_arith)
        requires
            0 <= bound <= 662,
            men(position) <= 64,
    ;
}

/// A stalemate outweighs everything but a checkmate: with tables within
/// `bound` of zero, where a queen and `bound` for each man on the board come
/// to no more than 55555, the evaluation of a position in which the side to
/// move has no move and is not in check is at least 500000 from zero.  With
/// tables within 187 of zero that is so for up to 51 men.
pub proof fn lemma_stalemate_dominance(
    mg: ColoredTables,
    eg: ColoredTables,
    position: PositionView,
    bound: int,
    is_maximizing_player: bool,
)
    requires
        mg.bounded(bound),
        eg.bounded(bound),
        0 <= bound,
        (900 + bound) * men(position) <= 55555,
        !in_check(position),
    ensures
        is_maximizing_player ==> evaluation(mg, eg, position, 0, is_maximizing_player) <= -500000,
        !is_maximizing_player ==> evaluation(mg, eg, position, 0, is_maximizing_player) >= 500000,
{
    lemma_quiet_score_bound(mg, eg, position, bound);
}

/// What a score says of a position without legal moves: a checkmate is at
/// least 900000 from zero and a stalemate at least 500000, against the side
/// to move where that is the side the search plays for, and for it otherwise.
pub open spec fn dominated(eval: int, in_check: bool, is_maximizing_player: bool) -> bool {
    let least: int = if in_check {
        900000
    } else {
        500000
    };
    if is_maximizing_player {
        eval <= -least
    } else {
        eval >= least
    }
}

/// In a position in which neither side has more than sixteen men, and with
/// tables within `bound` of zero, where `bound` is no more than 662, a
/// checkmate and a stalemate outweigh everything else.
pub proof fn lemma_terminal_dominance(
    mg: ColoredTables,
    eg: ColoredTables,
    position: PositionView,
    bound: int,
    is_maximizing_player: bool,
)
    requires
        mg.bounded(bound),
        eg.bounded(bound),
        0 <= bound <= 662,
        few_men(position),
    ensures
        dominated(
            evaluation(mg, eg, position, 0, is_maximizing_player),
            in_check(position),
            is_maximizing_player,
        ),
{
    lemma_men_split(position, 64);
    assert(men(position) <= 32);
    assert((900 + bound) * men(position) <= 55555) by (nonlinear_arith)
        requires
            0 <= bound <= 662,
            men(position) <= 32,
    ;
    if in_check(position) {
        lemma_checkmate_dominance(mg, eg, position, bound, is_maximizing_player);
    } else {
        lemma_stalemate_dominance(mg, eg, position, bound, is_maximizing_player);
    }
}

impl BasicBot {
    /// The material of the men that the masks stand for.
    pub fn calculate_material(&self, pieces: PiecesColored) -> (material: u32)
        ensures
            material == material_of(pieces),
            material <= 134400,
    {
        let mut material: u32 = 0;

        material += popcnt(pieces.pawns) * 100;
        material += popcnt(pieces.knights) * 300;
        material += popcnt(pieces.bishops) * 300;
        material += popcnt(pieces.rooks) * 500;
        material += popcnt(pieces.queens) * 900;

        material
    }

    /// What the men of each side are worth by the tables of the middle game
    /// and by those of the end game: White's middle game, White's end game,
    /// Black's middle game, Black's end game.
    pub fn calculate_piece_sq_with_board(&self, board: &Position) -> (scores: (i32, i32, i32, i32))
        ensures
            scores.0 == bonus(self.setup().mg, board@, Colour::White),
            scores.1 == bonus(self.setup().eg, board@, Colour::White),
            scores.2 == bonus(self.setup().mg, board@, Colour::Black),
            scores.3 == bonus(self.setup().eg, board@, Colour::Black),
    {
        let mut white_mg: i32 = 0;
        let mut black_mg: i32 = 0;
        let mut white_eg: i32 = 0;
        let mut black_eg: i32 = 0;
        let (mg_pesto, eg_pesto) = self.tables();

        let mut sq: u8 = 0;
        while sq < 64
            invariant
                sq <= 64,
                white_mg == bonus_below(*mg_pesto, board@, Colour::White, sq as nat),
                white_eg == bonus_below(*eg_pesto, board@, Colour::White, sq as nat),
                black_mg == bonus_below(*mg_pesto, board@, Colour::Black, sq as nat),
                black_eg == bonus_below(*eg_pesto, board@, Colour::Black, sq as nat),
            decreases 64 - sq,
        {
            proof {
                lemma_bonus_below_range(*mg_pesto, board@, Colour::White, sq as nat);
                lemma_bonus_below_range(*eg_pesto, board@, Colour::White, sq as nat);
                lemma_bonus_below_range(*mg_pesto, board@, Colour::Black, sq as nat);
                lemma_bonus_below_range(*eg_pesto, board@, Colour::Black, sq as nat);
            }
            if let Some(piece) = board.piece_on(sq) {
                match piece.colour {
                    Colour::White => {
                        white_mg += mg_pesto.get(Colour::White, piece.kind, sq) as i32;
                        white_eg += eg_pesto.get(Colour::White, piece.kind, sq) as i32;
                    },
                    Colour::Black => {
                        black_mg += mg_pesto.get(Colour::Black, piece.kind, sq) as i32;
                        black_eg += eg_pesto.get(Colour::Black, piece.kind, sq) as i32;
                    },
                }
            }
            sq += 1;
        }

        (white_mg, white_eg, black_mg, black_eg)
    }

    /// The score between the middle game and the end game, by the material
    /// on the board.
    pub fn calculate_score(&self, board: &Position, mg_score: i32, eg_score: i32) -> (score: i32)
        ensures
            score == tapered(
                (material(board@, Colour::White) + material(board@, Colour::Black)) as int,
                mg_score as int,
                eg_score as int,
            ),
    {
        let white_pieces = PiecesColored::get_colored_pieces(board, Colour::White);
        let black_pieces = PiecesColored::get_colored_pieces(board, Colour::Black);
        let white_material = self.calculate_material(white_pieces);
        let black_material = self.calculate_material(black_pieces);
        proof {
            lemma_material(board@, Colour::White);
            lemma_material(board@, Colour::Black);
        }

        let total_material = white_material + black_material;

        let mg_phase: i64 = if total_material > MAX_MATERIAL {
            MAX_MATERIAL as i64
        } else {
            total_material as i64
        };
        let eg_phase: i64 = MAX_MATERIAL as i64 - mg_phase;

        assert(-7800 * 0x8000_0000 <= mg_phase * mg_score <= 7800 * 0x8000_0000)
            by (nonlinear_arith)
            requires
                0 <= mg_phase <= 7800,
                -0x8000_0000 <= mg_score <= 0x8000_0000,
        ;
        assert(-7800 * 0x8000_0000 <= eg_phase * eg_score <= 7800 * 0x8000_0000)
            by (nonlinear_arith)
            requires
                0 <= eg_phase <= 7800,
                -0x8000_0000 <= eg_score <= 0x8000_0000,
        ;
        let weighted: i64 = mg_phase * (mg_score as i64) + eg_phase * (eg_score as i64);
        proof {
            lemma_tapered_between(
                (white_material + black_material) as int,
                mg_score as int,
                eg_score as int,
                i32::MIN as int,
                i32::MAX as int,
            );
        }
        let score: i64 = if weighted >= 0 {
            weighted / (MAX_MATERIAL as i64)
        } else {
            -((-weighted) / (MAX_MATERIAL as i64))
        };
        score as i32
    }

    /// The material of the side to move less that of the other side.
    pub fn evaluate_material_advantage(&self, board: &Position) -> (eval: i32)
        ensures
            eval == material_advantage(board@),
            -134400 <= eval <= 134400,
    {
        let white = PiecesColored::get_colored_pieces(board, Colour::White);
        let black = PiecesColored::get_colored_pieces(board, Colour::Black);
        proof {
            lemma_material(board@, Colour::White);
            lemma_material(board@, Colour::Black);
        }

        let material_white = self.calculate_material(white) as i32;
        let material_black = self.calculate_material(black) as i32;

        match board.side_to_move() {
            Colour::White => material_white - material_black,
            Colour::Black => material_black - material_white,
        }
    }

    /// The piece-square score of a position.
    pub fn evaluate_piece_sq_table(&self, board: &Position) -> (score: i32)
        ensures
            score == positional(self.setup().mg, self.setup().eg, board@),
            -4194304 <= score <= 4194304,
    {
        let (white_mg_score, white_eg_score, black_mg_score, black_eg_score) =
            self.calculate_piece_sq_with_board(board);
        proof {
            lemma_bonus_below_range(self.setup().mg, board@, Colour::White, 64);
            lemma_bonus_below_range(self.setup().eg, board@, Colour::White, 64);
            lemma_bonus_below_range(self.setup().mg, board@, Colour::Black, 64);
            lemma_bonus_below_range(self.setup().eg, board@, Colour::Black, 64);
            lemma_material(board@, Colour::White);
            lemma_material(board@, Colour::Black);
        }
        let (mg_score, eg_score) = match board.side_to_move() {
            Colour::White => (white_mg_score - black_mg_score, white_eg_score - black_eg_score),
            Colour::Black => (black_mg_score - white_mg_score, black_eg_score - white_eg_score),
        };
        proof {
            lemma_tapered_between(
                (material(board@, Colour::White) + material(board@, Colour::Black)) as int,
                mg_score as int,
                eg_score as int,
                -4194304,
                4194304,
            );
        }

        self.calculate_score(board, mg_score, eg_score)
    }

    /// The score of a position without legal moves; nothing where there are
    /// legal moves.
    pub fn evaluate_mates(&self, board: &Position, moves: &Vec<Move>, is_maximizing_player: bool) -> (check: i32)
        ensures
            check == terminal(moves@.len(), in_check(board@), is_maximizing_player),
    {
        let perspective: i32 = if is_maximizing_player {
            -1
        } else {
            1
        };
        if moves.len() == 0 {
            if board.in_check() {
                // checkmate
                CHECKMATE * perspective
            } else {
                // stalemate
                STALEMATE * perspective
            }
        } else {
            0
        }
    }

    /// The static evaluation of a position whose legal moves are `moves`.
    /// With tables as far from zero as those that an engine starts with, the
    /// score of a position without moves is that of a checkmate or of a
    /// stalemate, whatever the men on the board.
    pub fn evaluation(&self, board: &Position, moves: &Vec<Move>, is_maximizing_player: bool) -> (eval: i32)
        ensures
            eval == evaluation(
                self.setup().mg,
                self.setup().eg,
                board@,
                moves@.len(),
                is_maximizing_player,
            ),
            -SCORE_LIMIT <= eval <= SCORE_LIMIT,
            moves@.len() == 0 && self.setup().mg.bounded(MAX_BONUS as int) && self.setup().eg.bounded(
                MAX_BONUS as int,
            ) ==> dominated(eval as int, in_check(board@), is_maximizing_player),
    {
        proof {
            use_type_invariant(board);
            if moves@.len() == 0 && self.setup().mg.bounded(MAX_BONUS as int)
                && self.setup().eg.bounded(MAX_BONUS as int) {
                lemma_terminal_dominance(
                    self.setup().mg,
                    self.setup().eg,
                    board@,
                    MAX_BONUS as int,
                    is_maximizing_player,
                );
            }
        }
        let material = self.evaluate_material_advantage(board);
        let position = self.evaluate_piece_sq_table(board);
        let check = self.evaluate_mates(board, moves, is_maximizing_player);

        material + position + check
    }
}

} // verus!
