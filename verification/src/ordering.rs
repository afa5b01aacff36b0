//! The order in which a node tries its moves: the killer moves of its depth
//! first, the latest first, then the others by their history and by what
//! they capture.

use crate::basic_bot::BasicBot;
use crate::pieces::{all_on_board, Move, PieceKind};
use crate::position::{contains_move, piece_at, Position, PositionView};
use vstd::prelude::*;

verus! {

/// The greatest search depth index at which the history counts order moves.
pub const HISTORY_PLY_LIMIT: u16 = 10;

/// What a man is worth when captures are compared.
pub open spec fn piece_value(kind: PieceKind) -> int {
    match kind {
        PieceKind::Pawn => 1,
        PieceKind::Knight => 3,
        PieceKind::Bishop => 3,
        PieceKind::Rook => 5,
        PieceKind::Queen => 9,
        PieceKind::King => i32::MAX as int,
    }
}

/// For a move onto a man: the value of that man less the value of the man
/// that moves.  Nothing for a move onto an empty square.
pub open spec fn mvv_lva(position: PositionView, m: Move) -> Option<int> {
    match (piece_at(position, m.dest as int), piece_at(position, m.source as int)) {
        (Some(victim), Some(aggressor)) => Some(
            piece_value(victim.kind) - piece_value(aggressor.kind),
        ),
        _ => None,
    }
}

/// What decides the order of the moves that are no killer moves.
pub ghost struct Order {
    /// The history counts: that of a move from `s` to `d` stands at `64 * s + d`.
    pub history: Seq<u32>,
    /// The position in which the moves are made.
    pub position: PositionView,
    /// The search depth index of the node.
    pub ply: int,
}

impl Order {
    /// The history count of a move, where the history counts.
    pub open spec fn history_score(self, m: Move) -> int {
        if self.ply <= HISTORY_PLY_LIMIT {
            self.history[64 * m.source + m.dest] as int
        } else {
            0
        }
    }

    /// What the capture of a move is worth; nothing for a move that captures
    /// nothing.
    pub open spec fn capture_score(self, m: Move) -> int {
        match mvv_lva(self.position, m) {
            Some(score) => score,
            None => 0,
        }
    }

    /// The key by which moves are sorted, the least first: the history count
    /// and the capture score, each negated.
    pub open spec fn key(self, m: Move) -> (int, int) {
        (-self.history_score(m), -self.capture_score(m))
    }

    /// Whether `a` may stand before `b`.
    pub open spec fn in_order(self, a: Move, b: Move) -> bool {
        key_le(self.key(a), self.key(b))
    }

    /// A sorted sequence with one more move: the move stands behind every
    /// move that may stand before it.
    pub open spec fn inserted(self, sorted: Seq<Move>, m: Move) -> Seq<Move>
        decreases sorted.len(),
    {
        if sorted.len() == 0 {
            seq![m]
        } else if self.in_order(sorted.last(), m) {
            sorted.push(m)
        } else {
            self.inserted(sorted.drop_last(), m).push(sorted.last())
        }
    }

    /// The moves sorted by their keys, moves with the same key in the order
    /// in which they came.
    pub open spec fn sorted(self, moves: Seq<Move>) -> Seq<Move>
        decreases moves.len(),
    {
        if moves.len() == 0 {
            Seq::empty()
        } else {
            self.inserted(self.sorted(moves.drop_last()), moves.last())
        }
    }

    /// Each move of the sequence may stand before the next.
    pub open spec fn ascending(self, moves: Seq<Move>) -> bool {
        forall|i: int, j: int|
            0 <= i < j < moves.len() ==> self.in_order(#[trigger] moves[i], #[trigger] moves[j])
    }

    /// Where `inserted` puts a move: behind the first `at` moves, where the
    /// moves behind `at` may not stand before it and the move before `at`
    /// may.
    pub proof fn lemma_inserted_at(self, sorted: Seq<Move>, m: Move, at: int)
        requires
            0 <= at <= sorted.len(),
            at > 0 ==> self.in_order(sorted[at - 1], m),
            forall|i: int| at <= i < sorted.len() ==> !self.in_order(#[trigger] sorted[i], m),
        ensures
            self.inserted(sorted, m) == sorted.insert(at, m),
        decreases sorted.len(),
    {
        if sorted.len() == 0 {
            assert(sorted.insert(at, m) =~= seq![m]);
        } else if at == sorted.len() {
            assert(sorted.insert(at, m) =~= sorted.push(m));
        } else {
            assert(!self.in_order(sorted[sorted.len() - 1], m));
            let front = sorted.drop_last();
            assert(at > 0 ==> front[at - 1] == sorted[at - 1]);
            assert forall|i: int| at <= i < front.len() implies !self.in_order(
                #[trigger] front[i],
                m,
            ) by {
                assert(front[i] == sorted[i]);
            }
            self.lemma_inserted_at(front, m, at);
            assert(front.insert(at, m).push(sorted.last()) =~= sorted.insert(at, m));
        }
    }

    /// Inserting keeps a sequence ascending and adds the move to what it
    /// holds.
    pub proof fn lemma_inserted(self, sorted: Seq<Move>, m: Move)
        requires
            self.ascending(sorted),
        ensures
            self.ascending(self.inserted(sorted, m)),
            self.inserted(sorted, m).to_multiset() == sorted.to_multiset().insert(m),
            self.inserted(sorted, m).len() == sorted.len() + 1,
        decreases sorted.len(),
    {
        broadcast use vstd::seq_lib::group_to_multiset_ensures;

        let after = self.inserted(sorted, m);
        if sorted.len() == 0 {
            assert(sorted =~= Seq::empty());
            assert(after =~= Seq::<Move>::empty().push(m));
        } else if self.in_order(sorted.last(), m) {
            assert forall|i: int, j: int| 0 <= i < j < after.len() implies self.in_order(
                #[trigger] after[i],
                #[trigger] after[j],
            ) by {
                if j == sorted.len() {
                    if i < sorted.len() - 1 {
                        assert(self.in_order(sorted[i], sorted[sorted.len() - 1]));
                    }
                }
            }
        } else {
            let front = sorted.drop_last();
            assert forall|i: int, j: int| 0 <= i < j < front.len() implies self.in_order(
                #[trigger] front[i],
                #[trigger] front[j],
            ) by {
                assert(front[i] == sorted[i] && front[j] == sorted[j]);
            }
            self.lemma_inserted(front, m);
            let mid = self.inserted(front, m);
            assert(sorted =~= front.push(sorted.last()));
            assert forall|i: int, j: int| 0 <= i < j < after.len() implies self.in_order(
                #[trigger] after[i],
                #[trigger] after[j],
            ) by {
                if j == mid.len() {
                    // every move of `mid` is `m` or a move of `front`
                    assert(mid.to_multiset().count(mid[i]) > 0);
                    if mid[i] == m {
                    } else {
                        assert(front.to_multiset().count(mid[i]) > 0);
                        assert(front.contains(mid[i]));
                        let k = choose|k: int| 0 <= k < front.len() && front[k] == mid[i];
                        assert(self.in_order(sorted[k], sorted[sorted.len() - 1]));
                    }
                }
            }
        }
    }

    /// Sorting gives an ascending sequence of the same moves.
    pub proof fn lemma_sorted(self, moves: Seq<Move>)
        ensures
            self.ascending(self.sorted(moves)),
            self.sorted(moves).to_multiset() == moves.to_multiset(),
            self.sorted(moves).len() == moves.len(),
        decreases moves.len(),
    {
        broadcast use vstd::seq_lib::group_to_multiset_ensures;

        if moves.len() == 0 {
            assert(moves =~= Seq::empty());
        } else {
            self.lemma_sorted(moves.drop_last());
            self.lemma_inserted(self.sorted(moves.drop_last()), moves.last());
            assert(moves =~= moves.drop_last().push(moves.last()));
        }
    }
}

/// Whether the first key is no greater than the second: by the first part,
/// and by the second where the first parts are equal.
pub open spec fn key_le(a: (int, int), b: (int, int)) -> bool {
    a.0 < b.0 || (a.0 == b.0 && a.1 <= b.1)
}

/// The killer moves of a depth: those of its row, and none for a depth
/// without a row.
pub open spec fn killer_row(killers: Seq<Seq<Option<Move>>>, ply: int) -> Seq<Option<Move>> {
    if 0 <= ply < killers.len() {
        killers[ply]
    } else {
        Seq::empty()
    }
}

/// The moves of `moves` among the first `n` killer moves, in the order of
/// the killer moves, each once.
pub open spec fn killer_part(row: Seq<Option<Move>>, moves: Seq<Move>, n: int) -> Seq<Move>
    decreases n,
{
    if n <= 0 {
        Seq::empty()
    } else {
        let before = killer_part(row, moves, n - 1);
        match row[n - 1] {
            Some(m) => if moves.contains(m) && !before.contains(m) {
                before.push(m)
            } else {
                before
            },
            None => before,
        }
    }
}

/// The first `n` moves of `moves` that are no killer moves, in their order.
pub open spec fn quiet_part(row: Seq<Option<Move>>, moves: Seq<Move>, n: int) -> Seq<Move>
    decreases n,
{
    if n <= 0 {
        Seq::empty()
    } else {
        let before = quiet_part(row, moves, n - 1);
        if row.contains(Some(moves[n - 1])) {
            before
        } else {
            before.push(moves[n - 1])
        }
    }
}

/// The moves in the order in which a node tries them: the killer moves among
/// them first, the latest first, then the others, sorted.
pub open spec fn ordered(order: Order, row: Seq<Option<Move>>, moves: Seq<Move>) -> Seq<Move> {
    killer_part(row, moves, row.len() as int) + order.sorted(
        quiet_part(row, moves, moves.len() as int),
    )
}

/// The moves of a killer part are moves of `moves`.
pub proof fn lemma_killer_part(row: Seq<Option<Move>>, moves: Seq<Move>, n: int)
    requires
        n <= row.len(),
    ensures
        forall|i: int|
            0 <= i < killer_part(row, moves, n).len() ==> moves.contains(
                #[trigger] killer_part(row, moves, n)[i],
            ),
        killer_part(row, moves, n).len() <= if n > 0 {
            n
        } else {
            0
        },
    decreases n,
{
    if n > 0 {
        lemma_killer_part(row, moves, n - 1);
    }
}

/// The moves of a quiet part are moves of `moves`.
pub proof fn lemma_quiet_part(row: Seq<Option<Move>>, moves: Seq<Move>, n: int)
    requires
        n <= moves.len(),
    ensures
        forall|i: int|
            0 <= i < quiet_part(row, moves, n).len() ==> moves.contains(
                #[trigger] quiet_part(row, moves, n)[i],
            ),
        quiet_part(row, moves, n).len() <= if n > 0 {
            n
        } else {
            0
        },
    decreases n,
{
    if n > 0 {
        lemma_quiet_part(row, moves, n - 1);
    }
}

/// Every move of the ordered list is one of the moves that were ordered, and
/// the list is empty where there are no moves.
pub proof fn lemma_ordered_moves(order: Order, row: Seq<Option<Move>>, moves: Seq<Move>)
    ensures
        forall|i: int|
            0 <= i < ordered(order, row, moves).len() ==> moves.contains(
                #[trigger] ordered(order, row, moves)[i],
            ),
        moves.len() == 0 ==> ordered(order, row, moves).len() == 0,
{
    broadcast use vstd::seq_lib::group_to_multiset_ensures;

    let killers = killer_part(row, moves, row.len() as int);
    let quiet = quiet_part(row, moves, moves.len() as int);
    let sorted = order.sorted(quiet);
    lemma_killer_part(row, moves, row.len() as int);
    lemma_quiet_part(row, moves, moves.len() as int);
    order.lemma_sorted(quiet);
    let all = ordered(order, row, moves);
    assert forall|i: int| 0 <= i < all.len() implies moves.contains(#[trigger] all[i]) by {
        if i < killers.len() {
            assert(all[i] == killers[i]);
        } else {
            let m = sorted[i - killers.len()];
            assert(all[i] == m);
            assert(sorted.to_multiset().count(m) > 0);
            assert(quiet.to_multiset().count(m) > 0);
            assert(quiet.contains(m));
            let k = choose|k: int| 0 <= k < quiet.len() && quiet[k] == m;
            assert(moves.contains(quiet[k]));
        }
    }
    if moves.len() == 0 && all.len() > 0 {
        assert(moves.contains(all[0]));
    }
}

/// A killer move among the first `n` that is one of the moves is in the
/// killer part.
pub proof fn lemma_killer_part_holds(
    row: Seq<Option<Move>>,
    moves: Seq<Move>,
    n: int,
    slot: int,
    m: Move,
)
    requires
        0 <= slot < n <= row.len(),
        row[slot] == Some(m),
        moves.contains(m),
    ensures
        killer_part(row, moves, n).contains(m),
    decreases n,
{
    let before = killer_part(row, moves, n - 1);
    let part = killer_part(row, moves, n);
    if slot < n - 1 {
        lemma_killer_part_holds(row, moves, n - 1, slot, m);
        let at = choose|at: int| 0 <= at < before.len() && before[at] == m;
        assert(part[at] == m);
    } else if !before.contains(m) {
        assert(part == before.push(m));
        assert(part[before.len() as int] == m);
    } else {
        assert(part == before);
    }
}

/// One of the first `n` moves that is no killer move is in the quiet part.
pub proof fn lemma_quiet_part_holds(row: Seq<Option<Move>>, moves: Seq<Move>, n: int, at: int)
    requires
        0 <= at < n <= moves.len(),
        !row.contains(Some(moves[at])),
    ensures
        quiet_part(row, moves, n).contains(moves[at]),
    decreases n,
{
    let before = quiet_part(row, moves, n - 1);
    let part = quiet_part(row, moves, n);
    if at < n - 1 {
        lemma_quiet_part_holds(row, moves, n - 1, at);
        let k = choose|k: int| 0 <= k < before.len() && before[k] == moves[at];
        assert(part[k] == moves[at]);
    } else {
        assert(part == before.push(moves[at]));
        assert(part[before.len() as int] == moves[at]);
    }
}

/// Every move that was ordered is in the ordered list.
pub proof fn lemma_ordered_holds(order: Order, row: Seq<Option<Move>>, moves: Seq<Move>, at: int)
    requires
        0 <= at < moves.len(),
    ensures
        ordered(order, row, moves).contains(moves[at]),
{
    broadcast use vstd::seq_lib::group_to_multiset_ensures;

    let m = moves[at];
    let killers = killer_part(row, moves, row.len() as int);
    let quiet = quiet_part(row, moves, moves.len() as int);
    let sorted = order.sorted(quiet);
    let all = ordered(order, row, moves);
    if row.contains(Some(m)) {
        let slot = choose|slot: int| 0 <= slot < row.len() && row[slot] == Some(m);
        lemma_killer_part_holds(row, moves, row.len() as int, slot, m);
        let k = choose|k: int| 0 <= k < killers.len() && killers[k] == m;
        assert(all[k] == m);
    } else {
        lemma_quiet_part_holds(row, moves, moves.len() as int, at);
        order.lemma_sorted(quiet);
        assert(quiet.to_multiset().count(m) > 0);
        assert(sorted.to_multiset().count(m) > 0);
        assert(sorted.contains(m));
        let k = choose|k: int| 0 <= k < sorted.len() && sorted[k] == m;
        assert(all[killers.len() + k] == m);
    }
}

/// A move that has just become a killer move of a depth stands at the head
/// of the ordered list of every node of that depth that can make it.
pub proof fn lemma_killer_first(order: Order, row: Seq<Option<Move>>, moves: Seq<Move>, m: Move)
    requires
        row.len() >= 1,
        row[0] == Some(m),
        moves.contains(m),
    ensures
        ordered(order, row, moves).len() >= 1,
        ordered(order, row, moves)[0] == m,
{
    lemma_killer_head(row, moves, m, row.len() as int);
}

/// A killer part of at least one slot begins with the first killer move,
/// where that is among the moves.
proof fn lemma_killer_head(row: Seq<Option<Move>>, moves: Seq<Move>, m: Move, n: int)
    requires
        1 <= n <= row.len(),
        row[0] == Some(m),
        moves.contains(m),
    ensures
        killer_part(row, moves, n).len() >= 1,
        killer_part(row, moves, n)[0] == m,
    decreases n,
{
    if n == 1 {
        assert(killer_part(row, moves, 0) =~= Seq::empty());
    } else {
        lemma_killer_head(row, moves, m, n - 1);
    }
}

impl BasicBot {
    /// What a man is worth when captures are compared.
    pub fn piece_value(&self, piece: PieceKind) -> (value: i32)
        ensures
            value == piece_value(piece),
    {
        match piece {
            PieceKind::Pawn => 1,
            PieceKind::Knight => 3,
            PieceKind::Bishop => 3,
            PieceKind::Rook => 5,
            PieceKind::Queen => 9,
            PieceKind::King => i32::MAX,
        }
    }

    /// For a move onto a man: the value of that man less the value of the
    /// man that moves.
    pub fn mvv_lva_score(&self, chess_move: &Move, board: &Position) -> (score: Option<i32>)
        ensures
            match score {
                Some(value) => chess_move.on_board() && mvv_lva(board@, *chess_move) == Some(
                    value as int,
                ),
                None => !chess_move.on_board() || mvv_lva(board@, *chess_move).is_none(),
            },
    {
        let victim_piece = board.piece_on(chess_move.dest);
        let aggressor_piece = board.piece_on(chess_move.source);

        match (victim_piece, aggressor_piece) {
            (Some(victim), Some(aggressor)) => {
                let victim_value = self.piece_value(victim.kind);
                let aggressor_value = self.piece_value(aggressor.kind);
                Some(victim_value - aggressor_value)
            },
            _ => None,
        }
    }

    /// The order of a node of the given search depth index.
    pub open spec fn order(&self, position: PositionView, ply: u16) -> Order {
        Order { history: self@.history, position, ply: ply as int }
    }

    /// The key by which a move is sorted.
    pub fn sort_key(&self, board: &Position, ply: u16, chess_move: &Move) -> (key: (i64, i64))
        requires
            self@.history.len() == 4096,
            chess_move.on_board(),
        ensures
            (key.0 as int, key.1 as int) == self.order(board@, ply).key(*chess_move),
    {
        let history: i64 = if ply <= HISTORY_PLY_LIMIT {
            self.history[64 * (chess_move.source as usize) + (chess_move.dest as usize)] as i64
        } else {
            0
        };
        let capture: i64 = match self.mvv_lva_score(chess_move, board) {
            Some(score) => score as i64,
            None => 0,
        };
        (-history, -capture)
    }

    /// The moves in the order in which a node of the given search depth index
    /// tries them.
    pub fn order_moves(&self, board: &Position, moves: &Vec<Move>, ply: u16) -> (sorted_moves: Vec<
        Move,
    >)
        requires
            self@.history.len() == 4096,
            all_on_board(moves@),
        ensures
            sorted_moves@ == ordered(
                self.order(board@, ply),
                killer_row(self@.killers, ply as int),
                moves@,
            ),
    {
        let ghost order = self.order(board@, ply);
        let ghost row = killer_row(self@.killers, ply as int);
        let mut sorted_moves: Vec<Move> = Vec::new();
        if (ply as usize) < self.killer_moves.len() {
            let stored_killer_moves = &self.killer_moves[ply as usize];
            let mut slot: usize = 0;
            while slot < stored_killer_moves.len()
                invariant
                    slot <= stored_killer_moves.len(),
                    stored_killer_moves@ == row,
                    sorted_moves@ == killer_part(row, moves@, slot as int),
                decreases stored_killer_moves.len() - slot,
            {
                if let Some(killer) = stored_killer_moves[slot] {
                    if contains_move(moves, killer) && !contains_move(&sorted_moves, killer) {
                        sorted_moves.push(killer);
                    }
                }
                slot += 1;
            }
        }
        assert(sorted_moves@ == killer_part(row, moves@, row.len() as int));
        let ghost killers = sorted_moves@;

        let mut normal_moves: Vec<Move> = Vec::new();
        let mut keys: Vec<(i64, i64)> = Vec::new();
        let mut i: usize = 0;
        while i < moves.len()
            invariant
                i <= moves.len(),
                self@.history.len() == 4096,
                all_on_board(moves@),
                order == self.order(board@, ply),
                row == killer_row(self@.killers, ply as int),
                normal_moves@ == order.sorted(quiet_part(row, moves@, i as int)),
                keys.len() == normal_moves.len(),
                forall|j: int|
                    0 <= j < keys.len() ==> ((#[trigger] keys@[j]).0 as int, keys@[j].1 as int)
                        == order.key(normal_moves@[j]),
            decreases moves.len() - i,
        {
            let board_move = moves[i];
            let ghost quiet = quiet_part(row, moves@, i as int);
            if !self.is_killer(ply, board_move) {
                assert(quiet.push(board_move).drop_last() =~= quiet);
                assert(quiet_part(row, moves@, i + 1) == quiet.push(board_move));
                let key = self.sort_key(board, ply, &board_move);
                let mut at: usize = normal_moves.len();
                while at > 0 && key_less(key, keys[at - 1])
                    invariant
                        at <= normal_moves.len(),
                        keys.len() == normal_moves.len(),
                        (key.0 as int, key.1 as int) == order.key(board_move),
                        forall|j: int|
                            0 <= j < keys.len() ==> ((#[trigger] keys@[j]).0 as int, keys@[j].1 as int)
                                == order.key(normal_moves@[j]),
                        forall|j: int|
                            at <= j < normal_moves.len() ==> !order.in_order(
                                #[trigger] normal_moves@[j],
                                board_move,
                            ),
                    decreases at,
                {
                    at -= 1;
                }
                proof {
                    order.lemma_inserted_at(normal_moves@, board_move, at as int);
                }
                normal_moves.insert(at, board_move);
                keys.insert(at, key);
            }
            i += 1;
        }

        sorted_moves.append(&mut normal_moves);
        sorted_moves
    }

    /// Whether a move is among the killer moves of a search depth index.
    pub fn is_killer(&self, ply: u16, chess_move: Move) -> (found: bool)
        ensures
            found == killer_row(self@.killers, ply as int).contains(Some(chess_move)),
    {
        if (ply as usize) < self.killer_moves.len() {
            let stored_killer_moves = &self.killer_moves[ply as usize];
            let mut slot: usize = 0;
            while slot < stored_killer_moves.len()
                invariant
                    slot <= stored_killer_moves.len(),
                    stored_killer_moves@ == killer_row(self@.killers, ply as int),
                    forall|j: int| 0 <= j < slot ==> stored_killer_moves@[j] != Some(chess_move),
                decreases stored_killer_moves.len() - slot,
            {
                if let Some(killer) = stored_killer_moves[slot] {
                    if killer == chess_move {
                        assert(stored_killer_moves@[slot as int] == Some(chess_move));
                        return true;
                    }
                }
                slot += 1;
            }
            false
        } else {
            false
        }
    }
}

/// Whether the first key is less than the second.
pub fn key_less(a: (i64, i64), b: (i64, i64)) -> (less: bool)
    ensures
        less == !key_le((b.0 as int, b.1 as int), (a.0 as int, a.1 as int)),
{
    a.0 < b.0 || (a.0 == b.0 && a.1 < b.1)
}

} // verus!
