//! What the search is worth: with the transposition table switched off, the
//! score of the alpha-beta search is the score of a plain minimax search that
//! tries every move, whatever the killer moves and the history counts say
//! about the order of the moves.

use crate::basic_bot::{SearchState, Setup};
use crate::evaluation::{evaluation, lemma_evaluation_range, SCORE_LIMIT};
use crate::ordering::{killer_row, lemma_ordered_holds, lemma_ordered_moves, Order};
use crate::pieces::Move;
use crate::position::{legal_moves, position_after, PositionView};
use crate::search::{lemma_cut_off_wf, Line, Node, UNSEARCHED};
use crate::zobrist::NodeInfo;
use vstd::prelude::*;

verus! {

/// The better of two scores: the greater for the side that the search plays
/// for, the lesser for the other side.
pub open spec fn better(is_maximizing_player: bool, a: int, b: int) -> int {
    if is_maximizing_player {
        if b > a {
            b
        } else {
            a
        }
    } else {
        if b < a {
            b
        } else {
            a
        }
    }
}

/// The score of a node that has tried no move.
pub open spec fn unsearched(is_maximizing_player: bool) -> int {
    if is_maximizing_player {
        -UNSEARCHED
    } else {
        UNSEARCHED as int
    }
}

/// What a score that an alpha-beta search returns says of the true score: a
/// score between the bounds is the true score; a score at or below the lower
/// bound is no less than the true score; a score at or above the upper bound
/// is no more than the true score.
pub open spec fn within(score: int, alpha: int, beta: int, value: int) -> bool {
    &&& score <= alpha ==> value <= score
    &&& score >= beta ==> value >= score
    &&& alpha < score < beta ==> value == score
}

/// The table holds nothing and may hold nothing.
pub open spec fn table_off(state: SearchState) -> bool {
    state.wf() && state.table.capacity == 0
}

impl Setup {
    /// The score of a position by a plain minimax search of the given depth:
    /// the static evaluation where no depth is left, and else the best of the
    /// scores of the positions that the legal moves lead to.
    pub open spec fn minimax(
        self,
        position: PositionView,
        depth: nat,
        is_maximizing_player: bool,
    ) -> int
        decreases depth, 1int, 0int,
    {
        if depth == 0 {
            evaluation(
                self.mg,
                self.eg,
                position,
                legal_moves(position).len(),
                is_maximizing_player,
            )
        } else {
            self.best_of(
                position,
                legal_moves(position),
                0,
                depth,
                is_maximizing_player,
                unsearched(is_maximizing_player),
            )
        }
    }

    /// The minimax score of the position that a move leads to.
    pub open spec fn value_of(
        self,
        position: PositionView,
        m: Move,
        depth: nat,
        is_maximizing_player: bool,
    ) -> int
        decreases depth, 0int, 0int,
    {
        if depth == 0 {
            0
        } else {
            self.minimax(position_after(position, m), (depth - 1) as nat, !is_maximizing_player)
        }
    }

    /// The best of `best` and the scores of the moves from the `i`-th on.
    pub open spec fn best_of(
        self,
        position: PositionView,
        moves: Seq<Move>,
        i: int,
        depth: nat,
        is_maximizing_player: bool,
        best: int,
    ) -> int
        decreases depth, 0int, moves.len() - i + 1,
    {
        if i < 0 || i >= moves.len() || depth == 0 {
            best
        } else {
            self.best_of(
                position,
                moves,
                i + 1,
                depth,
                is_maximizing_player,
                better(
                    is_maximizing_player,
                    best,
                    self.value_of(position, moves[i], depth, is_maximizing_player),
                ),
            )
        }
    }

    /// Every minimax score is within `SCORE_LIMIT` of zero.
    pub proof fn lemma_minimax_range(
        self,
        position: PositionView,
        depth: nat,
        is_maximizing_player: bool,
    )
        ensures
            -SCORE_LIMIT <= self.minimax(position, depth, is_maximizing_player) <= SCORE_LIMIT,
        decreases depth, 1int, 0int,
    {
        if depth == 0 {
            lemma_evaluation_range(
                self.mg,
                self.eg,
                position,
                legal_moves(position).len(),
                is_maximizing_player,
            );
        } else {
            self.lemma_best_of_range(
                position,
                legal_moves(position),
                0,
                depth,
                is_maximizing_player,
                unsearched(is_maximizing_player),
            );
        }
    }

    /// The best of scores within `SCORE_LIMIT` of zero is within it too.
    pub proof fn lemma_best_of_range(
        self,
        position: PositionView,
        moves: Seq<Move>,
        i: int,
        depth: nat,
        is_maximizing_player: bool,
        best: int,
    )
        requires
            -SCORE_LIMIT <= best <= SCORE_LIMIT,
        ensures
            -SCORE_LIMIT <= self.best_of(position, moves, i, depth, is_maximizing_player, best)
                <= SCORE_LIMIT,
        decreases depth, 0int, moves.len() - i + 1,
    {
        if !(i < 0 || i >= moves.len() || depth == 0) {
            self.lemma_minimax_range(
                position_after(position, moves[i]),
                (depth - 1) as nat,
                !is_maximizing_player,
            );
            self.lemma_best_of_range(
                position,
                moves,
                i + 1,
                depth,
                is_maximizing_player,
                better(
                    is_maximizing_player,
                    best,
                    self.value_of(position, moves[i], depth, is_maximizing_player),
                ),
            );
        }
    }

    /// The best of some scores is no worse than any of them, and is one of
    /// them.
    pub proof fn lemma_best_of(
        self,
        position: PositionView,
        moves: Seq<Move>,
        i: int,
        depth: nat,
        is_maximizing_player: bool,
        best: int,
    )
        requires
            0 <= i <= moves.len(),
            depth > 0,
        ensures
            ({
                let result = self.best_of(position, moves, i, depth, is_maximizing_player, best);
                &&& better(is_maximizing_player, result, best) == result
                &&& forall|j: int|
                    i <= j < moves.len() ==> better(
                        is_maximizing_player,
                        result,
                        self.value_of(position, #[trigger] moves[j], depth, is_maximizing_player),
                    ) == result
                &&& result == best || exists|j: int|
                    i <= j < moves.len() && result == self.value_of(
                        position,
                        #[trigger] moves[j],
                        depth,
                        is_maximizing_player,
                    )
            }),
        decreases moves.len() - i,
    {
        if i < moves.len() {
            let value = self.value_of(position, moves[i], depth, is_maximizing_player);
            let next = better(is_maximizing_player, best, value);
            self.lemma_best_of(position, moves, i + 1, depth, is_maximizing_player, next);
            let result = self.best_of(position, moves, i, depth, is_maximizing_player, best);
            assert(result == self.best_of(
                position,
                moves,
                i + 1,
                depth,
                is_maximizing_player,
                next,
            ));
            if result != best {
                if result == next {
                    assert(result == self.value_of(
                        position,
                        moves[i],
                        depth,
                        is_maximizing_player,
                    ));
                } else {
                    let j = choose|j: int|
                        i + 1 <= j < moves.len() && result == self.value_of(
                            position,
                            #[trigger] moves[j],
                            depth,
                            is_maximizing_player,
                        );
                    assert(i <= j < moves.len());
                }
            }
        }
    }

    /// The best of the scores of some moves does not depend on their order,
    /// nor on how often a move occurs.
    pub proof fn lemma_best_of_same_moves(
        self,
        position: PositionView,
        a: Seq<Move>,
        b: Seq<Move>,
        depth: nat,
        is_maximizing_player: bool,
        best: int,
    )
        requires
            depth > 0,
            forall|j: int| 0 <= j < a.len() ==> b.contains(#[trigger] a[j]),
            forall|j: int| 0 <= j < b.len() ==> a.contains(#[trigger] b[j]),
        ensures
            self.best_of(position, a, 0, depth, is_maximizing_player, best) == self.best_of(
                position,
                b,
                0,
                depth,
                is_maximizing_player,
                best,
            ),
    {
        self.lemma_best_of(position, a, 0, depth, is_maximizing_player, best);
        self.lemma_best_of(position, b, 0, depth, is_maximizing_player, best);
        let of_a = self.best_of(position, a, 0, depth, is_maximizing_player, best);
        let of_b = self.best_of(position, b, 0, depth, is_maximizing_player, best);
        assert(better(is_maximizing_player, of_b, of_a) == of_b) by {
            if of_a != best {
                let j = choose|j: int|
                    0 <= j < a.len() && of_a == self.value_of(
                        position,
                        #[trigger] a[j],
                        depth,
                        is_maximizing_player,
                    );
                assert(b.contains(a[j]));
                let k = choose|k: int| 0 <= k < b.len() && b[k] == a[j];
                assert(better(
                    is_maximizing_player,
                    of_b,
                    self.value_of(position, b[k], depth, is_maximizing_player),
                ) == of_b);
            }
        }
        assert(better(is_maximizing_player, of_a, of_b) == of_a) by {
            if of_b != best {
                let j = choose|j: int|
                    0 <= j < b.len() && of_b == self.value_of(
                        position,
                        #[trigger] b[j],
                        depth,
                        is_maximizing_player,
                    );
                assert(a.contains(b[j]));
                let k = choose|k: int| 0 <= k < a.len() && a[k] == b[j];
                assert(better(
                    is_maximizing_player,
                    of_a,
                    self.value_of(position, a[k], depth, is_maximizing_player),
                ) == of_a);
            }
        }
    }
}

/// A table that is switched off remembers nothing.
pub proof fn lemma_table_off(state: SearchState, key: u64, depth: u16)
    requires
        table_off(state),
    ensures
        !state.remembers(key, depth),
{
    state.table.map.dom().lemma_len0_is_empty();
}

/// A table that is switched off stays so when a node finds a better move.
pub proof fn lemma_improved_off(state: SearchState, key: u64, eval: i32, m: Move, node: Node)
    requires
        table_off(state),
    ensures
        table_off(state.improved(key, eval, m, node)),
{
    state.table.lemma_inserted_wf(key, NodeInfo { eval, best_move: Some(m), depth: node.depth });
}

/// What a node of the alpha-beta search knows after some of its moves, held
/// against the best of the true scores of these moves, `seen`: the bound of
/// the side to move has followed the best score; a best score beyond the
/// first bound of that side is the best true score; a best score that has
/// not reached it is no better than the best true score.
pub open spec fn on_track(node: Node, line: Line, seen: int, alpha: i32, beta: i32) -> bool {
    &&& alpha < beta
    &&& line.alpha < line.beta
    &&& if node.is_maximizing_player {
        &&& line.beta == beta
        &&& alpha <= line.alpha
        &&& line.alpha <= better(true, alpha as int, line.best_val as int)
        &&& line.best_val > alpha ==> seen == line.best_val
        &&& line.best_val <= alpha ==> seen <= line.best_val
    } else {
        &&& line.alpha == alpha
        &&& line.beta <= beta
        &&& line.beta >= better(false, beta as int, line.best_val as int)
        &&& line.best_val < beta ==> seen == line.best_val
        &&& line.best_val >= beta ==> seen >= line.best_val
    }
}

impl Setup {
    /// With the table switched off, the score of the search of a node says of
    /// the minimax score of its position what an alpha-beta score says of a
    /// true score, and the table stays switched off.
    pub proof fn lemma_search_node(self, state: SearchState, node: Node, alpha: i32, beta: i32)
        requires
            table_off(state),
            alpha < beta,
        ensures
            table_off(self.search_node(state, node, alpha, beta).state),
            within(
                self.search_node(state, node, alpha, beta).score as int,
                alpha as int,
                beta as int,
                self.minimax(node.position, node.depth as nat, node.is_maximizing_player),
            ),
        decreases node.depth, 1int, 0int,
    {
        let moves = legal_moves(node.position);
        if node.depth == 0 {
            lemma_evaluation_range(
                self.mg,
                self.eg,
                node.position,
                moves.len(),
                node.is_maximizing_player,
            );
        } else {
            let sorted = self.moves_of(state, node);
            let line = self.opening(state, node, alpha, beta);
            let first = unsearched(node.is_maximizing_player);
            self.lemma_search_moves(state, node, sorted, 0, line, first, alpha, beta);
            let order = Order {
                history: state.history,
                position: node.position,
                ply: node.depth as int,
            };
            let row = killer_row(state.killers, node.depth as int);
            lemma_ordered_moves(order, row, moves);
            assert forall|j: int| 0 <= j < moves.len() implies sorted.contains(
                #[trigger] moves[j],
            ) by {
                lemma_ordered_holds(order, row, moves, j);
            }
            self.lemma_best_of_same_moves(
                node.position,
                sorted,
                moves,
                node.depth as nat,
                node.is_maximizing_player,
                first,
            );
        }
    }

    /// With the table switched off, the score of the search of the moves of a
    /// node from the `i`-th on says of the best of the true scores what an
    /// alpha-beta score says of a true score, where the node is on track
    /// after the moves before the `i`-th.
    pub proof fn lemma_search_moves(
        self,
        state: SearchState,
        node: Node,
        moves: Seq<Move>,
        i: int,
        line: Line,
        seen: int,
        alpha: i32,
        beta: i32,
    )
        requires
            table_off(state),
            node.depth > 0,
            0 <= i <= moves.len(),
            on_track(node, line, seen, alpha, beta),
        ensures
            table_off(self.search_moves(state, node, moves, i, line).state),
            within(
                self.search_moves(state, node, moves, i, line).score as int,
                alpha as int,
                beta as int,
                self.best_of(
                    node.position,
                    moves,
                    i,
                    node.depth as nat,
                    node.is_maximizing_player,
                    seen,
                ),
            ),
        decreases node.depth, 0int, moves.len() - i,
    {
        if i < moves.len() {
            let m = moves[i];
            let child = position_after(node.position, m);
            let key = self.keys.position_hash(child);
            let below = Node {
                position: child,
                max_depth: node.max_depth,
                depth: (node.depth - 1) as u16,
                is_maximizing_player: !node.is_maximizing_player,
            };
            lemma_table_off(state, key, node.depth);
            self.lemma_search_node(state, below, line.alpha, line.beta);
            let found = self.search_node(state, below, line.alpha, line.beta);
            let eval = found.score;
            let value = self.value_of(
                node.position,
                m,
                node.depth as nat,
                node.is_maximizing_player,
            );
            assert(self.child_score(state, node, m, line) == (eval, found.state));
            assert(within(eval as int, line.alpha as int, line.beta as int, value));
            let next = line.with_score(node, eval, m);
            let tried = if line.improves(node, eval) {
                found.state.improved(key, eval, m, node)
            } else {
                found.state
            };
            if line.improves(node, eval) {
                lemma_improved_off(found.state, key, eval, m, node);
            }
            let seen_next = better(node.is_maximizing_player, seen, value);
            assert(self.best_of(
                node.position,
                moves,
                i,
                node.depth as nat,
                node.is_maximizing_player,
                seen,
            ) == self.best_of(
                node.position,
                moves,
                i + 1,
                node.depth as nat,
                node.is_maximizing_player,
                seen_next,
            ));
            if next.beta <= next.alpha {
                lemma_cut_off_wf(tried, node.depth, m);
                self.lemma_best_of(
                    node.position,
                    moves,
                    i + 1,
                    node.depth as nat,
                    node.is_maximizing_player,
                    seen_next,
                );
            } else {
                assert(on_track(node, next, seen_next, alpha, beta));
                self.lemma_search_moves(tried, node, moves, i + 1, next, seen_next, alpha, beta);
            }
        }
    }

    /// The score of a search with the table switched off is the score of a
    /// plain minimax search of the same depth, whatever killer moves and
    /// history counts the engine holds.
    pub proof fn lemma_alpha_beta(self, state: SearchState, position: PositionView, depth: u16)
        requires
            table_off(state),
        ensures
            self.search_node(
                state.prepared(depth),
                Node { position, max_depth: depth, depth, is_maximizing_player: true },
                i32::MIN,
                i32::MAX,
            ).score == self.minimax(position, depth as nat, true),
            table_off(
                self.search_node(
                    state.prepared(depth),
                    Node { position, max_depth: depth, depth, is_maximizing_player: true },
                    i32::MIN,
                    i32::MAX,
                ).state,
            ),
    {
        let start = state.prepared(depth);
        assert(table_off(start)) by {
            assert forall|d: int| 0 <= d < start.killers.len() implies (
            #[trigger] start.killers[d]).len() >= 1 by {
                if d < state.killers.len() {
                    assert(start.killers[d] == state.killers[d]);
                }
            }
        }
        let node = Node { position, max_depth: depth, depth, is_maximizing_player: true };
        self.lemma_search_node(start, node, i32::MIN, i32::MAX);
        self.lemma_minimax_range(position, depth as nat, true);
    }
}

} // verus!
