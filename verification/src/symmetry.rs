//! The evaluation does not tell White from Black: a position and the position
//! seen through the mirror, with the colours swapped, evaluate alike.  And it
//! is the evaluation of the side to move: to the other side the same men are
//! worth the opposite.

use crate::bits::count_below;
use crate::evaluation::{
    bonus, bonus_advantage, bonus_below, evaluation, material, material_advantage,
    phase_material, positional, square_bonus, MAX_MATERIAL,
};
use crate::piece_sq_tables::{mirror, ColoredTables};
use crate::pieces::{Colour, Piece, PieceKind};
use crate::position::{men_count, side_to_move, stands, PositionView, Turn};
use vstd::prelude::*;

verus! {

/// The sum of `f` over the squares below `n`.
pub open spec fn sum_below(f: spec_fn(int) -> int, n: nat) -> int
    decreases n,
{
    if n == 0 {
        0
    } else {
        sum_below(f, (n - 1) as nat) + f(n - 1)
    }
}

/// A man with its colour swapped.
pub open spec fn swapped(piece: Piece) -> Piece {
    Piece { kind: piece.kind, colour: piece.colour.other() }
}

/// A position seen through the mirror, with the colours swapped: each man
/// stands on the same file and the opposite rank and belongs to the other
/// side, and the other side is to move.
pub open spec fn mirrored_position(position: PositionView) -> PositionView {
    PositionView {
        pieces: Map::new(
            |square: int| 0 <= square < 64 && position.pieces.contains_key(mirror(square)),
            |square: int| swapped(position.pieces[mirror(square)]),
        ),
        turn: Turn { white_to_move: !position.turn.white_to_move, ..position.turn },
    }
}

/// A sum over the board does not change when the squares are taken through
/// the mirror.
pub proof fn lemma_sum_mirror(f: spec_fn(int) -> int, g: spec_fn(int) -> int)
    requires
        forall|square: int| 0 <= square < 64 ==> #[trigger] g(square) == f(mirror(square)),
    ensures
        sum_below(g, 64) == sum_below(f, 64),
{
    lemma_sum_ranks(f);
    lemma_sum_ranks(g);
    lemma_rank_mirror(f, g, 0);
    lemma_rank_mirror(f, g, 1);
    lemma_rank_mirror(f, g, 2);
    lemma_rank_mirror(f, g, 3);
    lemma_rank_mirror(f, g, 4);
    lemma_rank_mirror(f, g, 5);
    lemma_rank_mirror(f, g, 6);
    lemma_rank_mirror(f, g, 7);
}

/// The sum over a rank seen through the mirror is the sum over the opposite
/// rank.
proof fn lemma_rank_mirror(f: spec_fn(int) -> int, g: spec_fn(int) -> int, rank: int)
    requires
        0 <= rank < 8,
        forall|square: int| 0 <= square < 64 ==> #[trigger] g(square) == f(mirror(square)),
    ensures
        rank_sum(g, rank) == rank_sum(f, 7 - rank),
{
    lemma_mirror_square(rank, 0, f, g);
    lemma_mirror_square(rank, 1, f, g);
    lemma_mirror_square(rank, 2, f, g);
    lemma_mirror_square(rank, 3, f, g);
    lemma_mirror_square(rank, 4, f, g);
    lemma_mirror_square(rank, 5, f, g);
    lemma_mirror_square(rank, 6, f, g);
    lemma_mirror_square(rank, 7, f, g);
}

/// What `g` is on a square is what `f` is on the square of the same file and
/// the opposite rank.
proof fn lemma_mirror_square(rank: int, file: int, f: spec_fn(int) -> int, g: spec_fn(int) -> int)
    requires
        0 <= rank < 8,
        0 <= file < 8,
        forall|square: int| 0 <= square < 64 ==> #[trigger] g(square) == f(mirror(square)),
    ensures
        g(8 * rank + file) == f(8 * (7 - rank) + file),
{
    let square = 8 * rank + file;
    assert(square / 8 == rank && square % 8 == file);
    assert(mirror(square) == 8 * (7 - rank) + file);
    assert(g(square) == f(mirror(square)));
}

/// The sum of `f` over the squares of a rank.
pub open spec fn rank_sum(f: spec_fn(int) -> int, rank: int) -> int {
    f(8 * rank) + f(8 * rank + 1) + f(8 * rank + 2) + f(8 * rank + 3) + f(8 * rank + 4) + f(
        8 * rank + 5,
    ) + f(8 * rank + 6) + f(8 * rank + 7)
}

/// The sum over the squares below a rank and the sum over the rank give the
/// sum over the squares below the next rank.
proof fn lemma_sum_rank(f: spec_fn(int) -> int, rank: nat)
    ensures
        sum_below(f, 8 * (rank + 1)) == sum_below(f, 8 * rank) + rank_sum(f, rank as int),
{
    reveal_with_fuel(sum_below, 9);
}

/// The sum over the board is the sum of the sums over its ranks.
proof fn lemma_sum_ranks(f: spec_fn(int) -> int)
    ensures
        sum_below(f, 64) == rank_sum(f, 0) + rank_sum(f, 1) + rank_sum(f, 2) + rank_sum(f, 3)
            + rank_sum(f, 4) + rank_sum(f, 5) + rank_sum(f, 6) + rank_sum(f, 7),
{
    lemma_sum_rank(f, 0);
    lemma_sum_rank(f, 1);
    lemma_sum_rank(f, 2);
    lemma_sum_rank(f, 3);
    lemma_sum_rank(f, 4);
    lemma_sum_rank(f, 5);
    lemma_sum_rank(f, 6);
    lemma_sum_rank(f, 7);
    assert(sum_below(f, 0) == 0);
}

/// A count is the sum of ones for the squares that count.
proof fn lemma_count_sum(f: spec_fn(int) -> bool, g: spec_fn(int) -> int, n: nat)
    requires
        forall|square: int|
            0 <= square < n ==> #[trigger] g(square) == if f(square) {
                1int
            } else {
                0int
            },
    ensures
        count_below(f, n) == sum_below(g, n),
    decreases n,
{
    if n > 0 {
        lemma_count_sum(f, g, (n - 1) as nat);
        assert(g(n - 1) == if f(n - 1) {
            1int
        } else {
            0int
        });
    }
}

/// What the men of a side are worth by the tables is the sum of what each
/// square adds.
proof fn lemma_bonus_sum(
    tables: ColoredTables,
    position: PositionView,
    colour: Colour,
    g: spec_fn(int) -> int,
    n: nat,
)
    requires
        forall|square: int|
            0 <= square < n ==> #[trigger] g(square) == square_bonus(
                tables,
                position,
                colour,
                square,
            ),
    ensures
        bonus_below(tables, position, colour, n) == sum_below(g, n),
    decreases n,
{
    if n > 0 {
        lemma_bonus_sum(tables, position, colour, g, (n - 1) as nat);
        assert(g(n - 1) == square_bonus(tables, position, colour, n - 1));
    }
}

/// The mirror is its own inverse on the board, and stays on the board.
pub proof fn lemma_mirror_twice(square: int)
    requires
        0 <= square < 64,
    ensures
        0 <= mirror(square) < 64,
        mirror(mirror(square)) == square,
{
}

/// A man stands on as many squares of the mirrored position as the man of
/// the other colour stands on in the position.
pub proof fn lemma_men_count_mirror(position: PositionView, piece: Piece)
    ensures
        men_count(mirrored_position(position), piece) == men_count(position, swapped(piece)),
{
    let there = mirrored_position(position);
    let f = |square: int| stands(position, swapped(piece), square);
    let f_there = |square: int| stands(there, piece, square);
    let g = |square: int| if stands(position, swapped(piece), square) {
        1int
    } else {
        0int
    };
    let g_there = |square: int| if stands(there, piece, square) {
        1int
    } else {
        0int
    };
    lemma_count_sum(f, g, 64);
    lemma_count_sum(f_there, g_there, 64);
    assert forall|square: int| 0 <= square < 64 implies #[trigger] g_there(square) == g(
        mirror(square),
    ) by {
        lemma_mirror_twice(square);
        assert(swapped(swapped(piece)) == piece);
        if position.pieces.contains_key(mirror(square)) {
            let here = position.pieces[mirror(square)];
            assert(swapped(swapped(here)) == here);
            assert(there.pieces[square] == swapped(here));
        }
    }
    lemma_sum_mirror(g, g_there);
}

/// The material of a side in the mirrored position is that of the other
/// side in the position.
pub proof fn lemma_material_mirror(position: PositionView, colour: Colour)
    ensures
        material(mirrored_position(position), colour) == material(position, colour.other()),
{
    lemma_men_count_mirror(position, Piece { kind: PieceKind::Pawn, colour });
    lemma_men_count_mirror(position, Piece { kind: PieceKind::Knight, colour });
    lemma_men_count_mirror(position, Piece { kind: PieceKind::Bishop, colour });
    lemma_men_count_mirror(position, Piece { kind: PieceKind::Rook, colour });
    lemma_men_count_mirror(position, Piece { kind: PieceKind::Queen, colour });
}

/// What the men of a side are worth in the mirrored position, by tables in
/// which Black's numbers are White's seen through the mirror, is what the men
/// of the other side are worth in the position.
pub proof fn lemma_bonus_mirror(tables: ColoredTables, position: PositionView, colour: Colour)
    requires
        tables.mirrored(),
    ensures
        bonus(tables, mirrored_position(position), colour) == bonus(
            tables,
            position,
            colour.other(),
        ),
{
    let there = mirrored_position(position);
    let g = |square: int| square_bonus(tables, position, colour.other(), square);
    let g_there = |square: int| square_bonus(tables, there, colour, square);
    lemma_bonus_sum(tables, position, colour.other(), g, 64);
    lemma_bonus_sum(tables, there, colour, g_there, 64);
    assert forall|square: int| 0 <= square < 64 implies #[trigger] g_there(square) == g(
        mirror(square),
    ) by {
        lemma_mirror_twice(square);
        if position.pieces.contains_key(mirror(square)) {
            let here = position.pieces[mirror(square)];
            assert(there.pieces[square] == swapped(here));
            assert(tables.bonus(Colour::Black, here.kind, square) == tables.bonus(
                Colour::White,
                here.kind,
                mirror(square),
            ));
            assert(tables.bonus(Colour::Black, here.kind, mirror(square)) == tables.bonus(
                Colour::White,
                here.kind,
                mirror(mirror(square)),
            ));
        }
    }
    lemma_sum_mirror(g, g_there);
}

/// A position in which the side to move has a move and the mirrored position,
/// if the side to move has a move there too, evaluate alike: the evaluation
/// is that of the side to move, and the mirror swaps the sides.
pub proof fn lemma_evaluation_mirror(
    mg: ColoredTables,
    eg: ColoredTables,
    position: PositionView,
    moves: nat,
    moves_there: nat,
    is_maximizing_player: bool,
    is_maximizing_player_there: bool,
)
    requires
        mg.mirrored(),
        eg.mirrored(),
        moves > 0,
        moves_there > 0,
    ensures
        evaluation(
            mg,
            eg,
            mirrored_position(position),
            moves_there,
            is_maximizing_player_there,
        ) == evaluation(mg, eg, position, moves, is_maximizing_player),
{
    let there = mirrored_position(position);
    assert(side_to_move(there) == side_to_move(position).other());
    lemma_material_mirror(position, Colour::White);
    lemma_material_mirror(position, Colour::Black);
    lemma_bonus_mirror(mg, position, Colour::White);
    lemma_bonus_mirror(mg, position, Colour::Black);
    lemma_bonus_mirror(eg, position, Colour::White);
    lemma_bonus_mirror(eg, position, Colour::Black);
    assert(material_advantage(there) == material_advantage(position));
    assert(bonus_advantage(mg, there) == bonus_advantage(mg, position));
    assert(bonus_advantage(eg, there) == bonus_advantage(eg, position));
    assert(positional(mg, eg, there) == positional(mg, eg, position));
}

/// A position with the same men and the other side to move.
pub open spec fn turn_passed(position: PositionView) -> PositionView {
    PositionView {
        pieces: position.pieces,
        turn: Turn { white_to_move: !position.turn.white_to_move, ..position.turn },
    }
}

/// A position in which the side to move has a move is worth to the other
/// side the opposite of what it is worth to the side to move: with the same
/// men and the other side to move, if that side has a move too, the
/// evaluation is the same number with the opposite sign.
pub proof fn lemma_evaluation_turn(
    mg: ColoredTables,
    eg: ColoredTables,
    position: PositionView,
    moves: nat,
    moves_there: nat,
    is_maximizing_player: bool,
    is_maximizing_player_there: bool,
)
    requires
        moves > 0,
        moves_there > 0,
    ensures
        evaluation(mg, eg, turn_passed(position), moves_there, is_maximizing_player_there)
            == -evaluation(mg, eg, position, moves, is_maximizing_player),
{
    let there = turn_passed(position);
    assert(side_to_move(there) == side_to_move(position).other());
    assert(side_to_move(there).other() == side_to_move(position));
    assert forall|colour: Colour| material(there, colour) == material(position, colour) by {
        assert forall|piece: Piece|
            #![trigger men_count(there, piece)]
            men_count(there, piece) == men_count(position, piece) by {
            lemma_count_same(there, position, piece);
        }
    }
    assert forall|tables: ColoredTables, colour: Colour|
        #![trigger bonus(tables, there, colour)]
        bonus(tables, there, colour) == bonus(tables, position, colour) by {
        lemma_bonus_same(tables, there, position, colour, 64);
    }
    let total = (material(position, Colour::White) + material(position, Colour::Black)) as int;
    let part = phase_material(total);
    let mg_score = bonus_advantage(mg, position);
    let eg_score = bonus_advantage(eg, position);
    assert(material_advantage(there) == -material_advantage(position));
    assert(bonus_advantage(mg, there) == -mg_score);
    assert(bonus_advantage(eg, there) == -eg_score);
    assert(part * (-mg_score) + (MAX_MATERIAL - part) * (-eg_score) == -(part * mg_score + (
        MAX_MATERIAL - part) * eg_score)) by (nonlinear_arith);
    assert(positional(mg, eg, there) == -positional(mg, eg, position));
}

/// Two positions with the same men have as many of each.
proof fn lemma_count_same(a: PositionView, b: PositionView, piece: Piece)
    requires
        a.pieces == b.pieces,
    ensures
        men_count(a, piece) == men_count(b, piece),
{
    let f = |square: int| stands(a, piece, square);
    let g = |square: int| stands(b, piece, square);
    assert(f =~= g);
}

/// Two positions with the same men give each side the same bonus.
proof fn lemma_bonus_same(
    tables: ColoredTables,
    a: PositionView,
    b: PositionView,
    colour: Colour,
    n: nat,
)
    requires
        a.pieces == b.pieces,
    ensures
        bonus_below(tables, a, colour, n) == bonus_below(tables, b, colour, n),
    decreases n,
{
    if n > 0 {
        lemma_bonus_same(tables, a, b, colour, (n - 1) as nat);
    }
}

} // verus!
