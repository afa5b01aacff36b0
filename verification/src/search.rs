//! The search: a depth-limited minimax with alpha-beta cutoffs, a
//! transposition table, killer moves and history counts.
//!
//! The first half of this file says what the search computes, as a function
//! from the state of the engine and a position to a score, a move and the next
//! state.  The second half is the search itself, proved to compute that.

use crate::basic_bot::{empty_killers, killer_inserted, BasicBot, SearchState, Setup, KILLER_SLOTS};
use crate::evaluation::evaluation;
use crate::ordering::{
    killer_row, lemma_killer_first, lemma_ordered_holds, lemma_ordered_moves, ordered, Order,
};
use crate::pieces::{all_on_board, Move};
use crate::position::{legal_moves, position_after, Position, PositionView};
use crate::uci::{counted_up, ply_of, recorded};
use crate::zobrist::NodeInfo;
use vstd::prelude::*;

verus! {

/// The score that a node has before it has tried a move: this for the side
/// that the search plays against, and its negation for the side it plays for.
pub const UNSEARCHED: i32 = 1000000;

/// What is the same for all the moves of a node.
pub ghost struct Node {
    /// The position of the node.
    pub position: PositionView,
    /// The depth of the whole search.
    pub max_depth: u16,
    /// The depth that is left to search, and the search depth index of the
    /// node.
    pub depth: u16,
    /// Whether the side to move is the side that the search plays for.
    pub is_maximizing_player: bool,
}

/// What a node knows after some of its moves.
pub ghost struct Line {
    /// The score that the side the search plays for is sure of.
    pub alpha: i32,
    /// The score that the other side is sure of.
    pub beta: i32,
    /// The best score among the moves tried.
    pub best_val: i32,
    /// The move with the best score among the moves tried, or the first move
    /// where no move has a better score than a node without moves.
    pub best_move: Option<Move>,
}

/// What a search gives: a score, a move, and the state it leaves.
pub ghost struct Outcome {
    pub score: i32,
    pub best_move: Option<Move>,
    pub state: SearchState,
}

/// The killer moves after a move has cut the search short at a depth: the
/// move joins the row of the depth.  Nothing changes for a depth without a
/// row.
pub open spec fn killers_updated(
    killers: Seq<Seq<Option<Move>>>,
    depth: int,
    m: Move,
) -> Seq<Seq<Option<Move>>> {
    if 0 <= depth < killers.len() {
        killers.update(depth, killer_inserted(killers[depth], m))
    } else {
        killers
    }
}

/// The place of the count of a move among the history counts.
pub open spec fn history_index(m: Move) -> int {
    64 * m.source + m.dest
}

/// The history counts after a move has cut a search short: the count of the
/// move is one more, as far as counts go.
pub open spec fn history_updated(history: Seq<u32>, m: Move) -> Seq<u32> {
    if 0 <= history_index(m) < history.len() {
        history.update(history_index(m), counted_up(history[history_index(m)]))
    } else {
        history
    }
}

impl SearchState {
    /// The state after a move has cut the search short at a depth.
    pub open spec fn cut_off(self, depth: u16, m: Move) -> SearchState {
        SearchState {
            killers: killers_updated(self.killers, depth as int, m),
            history: history_updated(self.history, m),
            ..self
        }
    }

    /// The state after a node has found a better move: the table takes the
    /// score of the position that the move leads to, and the progress record
    /// takes the move.
    pub open spec fn improved(self, key: u64, eval: i32, m: Move, node: Node) -> SearchState {
        SearchState {
            table: self.table.inserted(
                key,
                NodeInfo { eval, best_move: Some(m), depth: node.depth },
            ),
            progress: recorded(
                self.progress,
                ply_of(node.depth, node.max_depth) as u16,
                Some(m),
            ),
            ..self
        }
    }

    /// Whether the table holds a score for the key that was found with at
    /// least `depth` left to search.
    pub open spec fn remembers(self, key: u64, depth: u16) -> bool {
        self.table.map.contains_key(key) && self.table.map[key].depth >= depth
    }
}

impl Setup {
    /// The moves of a node in the order in which the node tries them.
    pub open spec fn moves_of(self, state: SearchState, node: Node) -> Seq<Move> {
        ordered(
            Order { history: state.history, position: node.position, ply: node.depth as int },
            killer_row(state.killers, node.depth as int),
            legal_moves(node.position),
        )
    }

    /// What a node knows before it has tried a move.
    pub open spec fn opening(self, state: SearchState, node: Node, alpha: i32, beta: i32) -> Line {
        let moves = self.moves_of(state, node);
        Line {
            alpha,
            beta,
            best_val: if node.is_maximizing_player {
                (-UNSEARCHED) as i32
            } else {
                UNSEARCHED
            },
            best_move: if moves.len() > 0 {
                Some(moves[0])
            } else {
                None
            },
        }
    }

    /// The search of a node.  With no depth left, the score is the static
    /// evaluation and there is no move.  Otherwise the node tries its moves
    /// in order.
    pub open spec fn search_node(
        self,
        state: SearchState,
        node: Node,
        alpha: i32,
        beta: i32,
    ) -> Outcome
        decreases node.depth, 1int, 0int,
    {
        if node.depth == 0 {
            Outcome {
                score: evaluation(
                    self.mg,
                    self.eg,
                    node.position,
                    legal_moves(node.position).len(),
                    node.is_maximizing_player,
                ) as i32,
                best_move: None,
                state,
            }
        } else {
            self.search_moves(
                state,
                node,
                self.moves_of(state, node),
                0,
                self.opening(state, node, alpha, beta),
            )
        }
    }

    /// The score of the position that a move leads to, and the state after
    /// it was found: the score that the table remembers, where it remembers
    /// one that was found with enough depth left, and else the score of a
    /// search of that position, one level down.
    pub open spec fn child_score(
        self,
        state: SearchState,
        node: Node,
        m: Move,
        line: Line,
    ) -> (i32, SearchState)
        recommends
            node.depth > 0,
        decreases node.depth, 0int, 0int,
    {
        let child = position_after(node.position, m);
        let key = self.keys.position_hash(child);
        if state.remembers(key, node.depth) {
            (state.table.map[key].eval, state)
        } else if node.depth > 0 {
            let below = self.search_node(
                state,
                Node {
                    position: child,
                    max_depth: node.max_depth,
                    depth: (node.depth - 1) as u16,
                    is_maximizing_player: !node.is_maximizing_player,
                },
                line.alpha,
                line.beta,
            );
            (below.score, below.state)
        } else {
            (line.best_val, state)
        }
    }

    /// The search of the moves of a node from the `i`-th on.  A move with a
    /// better score than the best so far becomes the best move; its score
    /// goes into the table and the move into the progress record.  The
    /// bound of the side to move follows the best score.  Where the bounds
    /// meet, the move becomes a killer move, its history count goes up, and
    /// the other moves are not tried.
    pub open spec fn search_moves(
        self,
        state: SearchState,
        node: Node,
        moves: Seq<Move>,
        i: int,
        line: Line,
    ) -> Outcome
        decreases node.depth, 0int, moves.len() - i + 1,
    {
        if i < 0 || i >= moves.len() || node.depth == 0 {
            Outcome { score: line.best_val, best_move: line.best_move, state }
        } else {
            let m = moves[i];
            let key = self.keys.position_hash(position_after(node.position, m));
            let (eval, after) = self.child_score(state, node, m, line);
            let next = line.with_score(node, eval, m);
            let state = if line.improves(node, eval) {
                after.improved(key, eval, m, node)
            } else {
                after
            };
            if next.beta <= next.alpha {
                Outcome {
                    score: next.best_val,
                    best_move: next.best_move,
                    state: state.cut_off(node.depth, m),
                }
            } else {
                self.search_moves(state, node, moves, i + 1, next)
            }
        }
    }
}

impl Line {
    /// Whether a score is better for the side to move than the best so far.
    pub open spec fn improves(self, node: Node, eval: i32) -> bool {
        if node.is_maximizing_player {
            eval > self.best_val
        } else {
            eval < self.best_val
        }
    }

    /// What the node knows after a move with the given score.
    pub open spec fn with_score(self, node: Node, eval: i32, m: Move) -> Line {
        let best_val = if self.improves(node, eval) {
            eval
        } else {
            self.best_val
        };
        let best_move = if self.improves(node, eval) {
            Some(m)
        } else {
            self.best_move
        };
        if node.is_maximizing_player {
            Line {
                alpha: if best_val > self.alpha {
                    best_val
                } else {
                    self.alpha
                },
                beta: self.beta,
                best_val,
                best_move,
            }
        } else {
            Line {
                alpha: self.alpha,
                beta: if best_val < self.beta {
                    best_val
                } else {
                    self.beta
                },
                best_val,
                best_move,
            }
        }
    }
}

impl Setup {
    /// A node without legal moves that has depth left gives the score of a
    /// node that has tried no move, no move, and the state as it was.
    pub proof fn lemma_no_moves(self, state: SearchState, node: Node, alpha: i32, beta: i32)
        requires
            node.depth > 0,
            legal_moves(node.position).len() == 0,
        ensures
            self.search_node(state, node, alpha, beta) == (Outcome {
                score: if node.is_maximizing_player {
                    (-UNSEARCHED) as i32
                } else {
                    UNSEARCHED
                },
                best_move: None,
                state,
            }),
    {
        lemma_ordered_moves(
            Order { history: state.history, position: node.position, ply: node.depth as int },
            killer_row(state.killers, node.depth as int),
            legal_moves(node.position),
        );
    }

    /// A node that knows a legal move as its best keeps knowing one, whatever
    /// legal moves it goes on to try.
    pub proof fn lemma_search_moves_best(
        self,
        state: SearchState,
        node: Node,
        moves: Seq<Move>,
        i: int,
        line: Line,
    )
        requires
            forall|j: int|
                0 <= j < moves.len() ==> legal_moves(node.position).contains(#[trigger] moves[j]),
            line.best_move.is_some(),
            legal_moves(node.position).contains(line.best_move.unwrap()),
        ensures
            self.search_moves(state, node, moves, i, line).best_move.is_some(),
            legal_moves(node.position).contains(
                self.search_moves(state, node, moves, i, line).best_move.unwrap(),
            ),
        decreases moves.len() - i,
    {
        if 0 <= i < moves.len() && node.depth > 0 {
            let m = moves[i];
            let key = self.keys.position_hash(position_after(node.position, m));
            let (eval, after) = self.child_score(state, node, m, line);
            let next = line.with_score(node, eval, m);
            let tried = if line.improves(node, eval) {
                after.improved(key, eval, m, node)
            } else {
                after
            };
            assert(next.best_move == Some(m) || next.best_move == line.best_move);
            if next.beta > next.alpha {
                self.lemma_search_moves_best(tried, node, moves, i + 1, next);
            }
        }
    }

    /// A node with a legal move that has depth left gives one of its legal
    /// moves.
    pub proof fn lemma_gives_legal_move(
        self,
        state: SearchState,
        node: Node,
        alpha: i32,
        beta: i32,
    )
        requires
            node.depth > 0,
            legal_moves(node.position).len() > 0,
        ensures
            self.search_node(state, node, alpha, beta).best_move.is_some(),
            legal_moves(node.position).contains(
                self.search_node(state, node, alpha, beta).best_move.unwrap(),
            ),
    {
        let order = Order {
            history: state.history,
            position: node.position,
            ply: node.depth as int,
        };
        let row = killer_row(state.killers, node.depth as int);
        let moves = self.moves_of(state, node);
        lemma_ordered_moves(order, row, legal_moves(node.position));
        lemma_ordered_holds(order, row, legal_moves(node.position), 0);
        assert(moves.len() > 0);
        self.lemma_search_moves_best(state, node, moves, 0, self.opening(state, node, alpha, beta));
    }
}

/// Whether the first score is better than the second for the side to move at
/// a node: greater for the side that the search plays for, less for the
/// other.
pub open spec fn beats(node: Node, a: i32, b: i32) -> bool {
    if node.is_maximizing_player {
        a > b
    } else {
        a < b
    }
}

impl Setup {
    /// What a node knows as its best move stays its best move unless a move
    /// that it goes on to try has a better score than its best so far.
    pub proof fn lemma_best_stays(
        self,
        state: SearchState,
        node: Node,
        moves: Seq<Move>,
        i: int,
        line: Line,
    )
        ensures
            ({
                let outcome = self.search_moves(state, node, moves, i, line);
                ||| outcome.best_move == line.best_move && outcome.score == line.best_val
                ||| beats(node, outcome.score, line.best_val)
            }),
        decreases moves.len() - i,
    {
        if 0 <= i < moves.len() && node.depth > 0 {
            let m = moves[i];
            let key = self.keys.position_hash(position_after(node.position, m));
            let (eval, after) = self.child_score(state, node, m, line);
            let next = line.with_score(node, eval, m);
            let tried = if line.improves(node, eval) {
                after.improved(key, eval, m, node)
            } else {
                after
            };
            if next.beta > next.alpha {
                self.lemma_best_stays(tried, node, moves, i + 1, next);
            }
        }
    }

    /// The first move that a node tries is its best move unless the node
    /// finds a better score than that of the first move.
    pub proof fn lemma_first_move_stays(
        self,
        state: SearchState,
        node: Node,
        alpha: i32,
        beta: i32,
    )
        requires
            node.depth > 0,
            self.moves_of(state, node).len() > 0,
        ensures
            ({
                let first = self.moves_of(state, node)[0];
                let line = self.opening(state, node, alpha, beta);
                let outcome = self.search_node(state, node, alpha, beta);
                ||| outcome.best_move == Some(first)
                ||| beats(node, outcome.score, self.child_score(state, node, first, line).0)
            }),
    {
        let moves = self.moves_of(state, node);
        let first = moves[0];
        let line = self.opening(state, node, alpha, beta);
        let key = self.keys.position_hash(position_after(node.position, first));
        let (eval, after) = self.child_score(state, node, first, line);
        let next = line.with_score(node, eval, first);
        let tried = if line.improves(node, eval) {
            after.improved(key, eval, first, node)
        } else {
            after
        };
        assert(next.best_move == Some(first));
        if next.beta > next.alpha {
            self.lemma_best_stays(tried, node, moves, 1, next);
        }
    }
}

/// A move that has cut the search short at a depth stands at the head of the
/// moves of the next node of that depth that can make it.
pub proof fn lemma_killer_promotion(
    setup: Setup,
    state: SearchState,
    depth: u16,
    m: Move,
    node: Node,
)
    requires
        state.wf(),
        depth < state.killers.len(),
        node.depth == depth,
        legal_moves(node.position).contains(m),
    ensures
        setup.moves_of(state.cut_off(depth, m), node).len() >= 1,
        setup.moves_of(state.cut_off(depth, m), node)[0] == m,
{
    let after = state.cut_off(depth, m);
    let row = killer_row(after.killers, depth as int);
    assert(state.killers[depth as int].len() >= 1);
    assert(row == killer_inserted(state.killers[depth as int], m));
    assert(row[0] == Some(m));
    lemma_killer_first(
        Order { history: after.history, position: node.position, ply: depth as int },
        row,
        legal_moves(node.position),
        m,
    );
}

/// A row of killer moves keeps its length when a move joins it.
pub proof fn lemma_cut_off_wf(state: SearchState, depth: u16, m: Move)
    requires
        state.wf(),
    ensures
        state.cut_off(depth, m).wf(),
{
    let after = state.cut_off(depth, m);
    assert forall|d: int| 0 <= d < after.killers.len() implies (#[trigger] after.killers[d]).len()
        >= 1 by {
        if d == depth {
            assert(state.killers[d].len() >= 1);
        } else {
            assert(after.killers[d] == state.killers[d]);
        }
    }
}

impl BasicBot {
    /// Puts a move at the head of the killer moves of a depth; the last of
    /// them leaves.  Nothing happens for a depth without a row.
    pub fn update_killer_move(&mut self, depth: u16, board_move: Move)
        requires
            old(self).wf(),
        ensures
            final(self).wf(),
            final(self).setup() == old(self).setup(),
            final(self).board == old(self).board,
            final(self).counters() == old(self).counters(),
            final(self)@ == (SearchState {
                killers: killers_updated(old(self)@.killers, depth as int, board_move),
                ..old(self)@
            }),
    {
        if (depth as usize) < self.killer_moves.len() {
            let ghost row = self.killer_moves@[depth as int]@;
            assert(old(self)@.killers[depth as int] == row);
            let mut rotated: Vec<Option<Move>> = Vec::new();
            rotated.push(Some(board_move));
            let mut slot: usize = 0;
            while slot + 1 < self.killer_moves[depth as usize].len()
                invariant
                    (depth as usize) < self.killer_moves.len(),
                    self.killer_moves@[depth as int]@ == row,
                    slot < row.len() || row.len() == 0,
                    rotated.len() == slot + 1,
                    rotated@[0] == Some(board_move),
                    forall|j: int| 1 <= j <= slot ==> rotated@[j] == row[j - 1],
                decreases row.len() - slot,
            {
                rotated.push(self.killer_moves[depth as usize][slot]);
                slot += 1;
            }
            assert(rotated@ =~= killer_inserted(row, board_move));
            self.killer_moves[depth as usize] = rotated;
            assert(self@.killers =~= killers_updated(old(self)@.killers, depth as int, board_move));
        }
    }

    /// Counts one more cutoff for a move.  Nothing happens for a move whose
    /// squares have no count.
    pub fn update_history(&mut self, board_move: Move)
        requires
            old(self).wf(),
        ensures
            final(self).wf(),
            final(self).setup() == old(self).setup(),
            final(self).board == old(self).board,
            final(self).counters() == old(self).counters(),
            final(self)@ == (SearchState {
                history: history_updated(old(self)@.history, board_move),
                ..old(self)@
            }),
    {
        let index = 64 * (board_move.source as usize) + (board_move.dest as usize);
        if index < self.history.len() {
            let count = self.history[index];
            let counted = if count < u32::MAX {
                count + 1
            } else {
                count
            };
            self.history[index] = counted;
        }
        assert(self@.killers =~= old(self)@.killers);
    }
}

impl BasicBot {
    /// Searches a position to the depth that is left, between the bounds
    /// `alpha` and `beta`, and returns its score and its best move.
    pub fn internal_search(
        &mut self,
        board: &Position,
        max_depth: u16,
        depth: u16,
        alpha: i32,
        beta: i32,
        is_maximizing_player: bool,
        _previous_move: Option<Move>,
    ) -> (result: (i32, Option<Move>))
        requires
            old(self).wf(),
            depth <= max_depth,
        ensures
            final(self).wf(),
            final(self).setup() == old(self).setup(),
            final(self).board == old(self).board,
            final(self).counters() == old(self).counters(),
            ({
                let outcome = old(self).setup().search_node(
                    old(self)@,
                    Node { position: board@, max_depth, depth, is_maximizing_player },
                    alpha,
                    beta,
                );
                &&& result.0 == outcome.score
                &&& result.1 == outcome.best_move
                &&& final(self)@ == outcome.state
            }),
        decreases depth,
    {
        let ghost setup = self.setup();
        let ghost node = Node { position: board@, max_depth, depth, is_maximizing_player };
        let ghost target = setup.search_node(self@, node, alpha, beta);
        let all_moves = board.legal_moves();

        if depth == 0 {
            let evaluation = self.evaluation(board, &all_moves, is_maximizing_player);
            return (evaluation, None);
        }
        let sorted_moves = self.order_moves(board, &all_moves, depth);
        proof {
            lemma_ordered_moves(
                self.order(board@, depth),
                killer_row(self@.killers, depth as int),
                all_moves@,
            );
            assert(sorted_moves@ == setup.moves_of(self@, node));
        }

        let mut best_move = if sorted_moves.len() > 0 {
            Some(sorted_moves[0])
        } else {
            None
        };
        let mut best_val: i32 = if is_maximizing_player {
            -UNSEARCHED
        } else {
            UNSEARCHED
        };
        let mut lower = alpha;
        let mut upper = beta;

        let mut i: usize = 0;
        while i < sorted_moves.len()
            invariant
                self.wf(),
                self.setup() == setup,
                setup == old(self).setup(),
                target == setup.search_node(old(self)@, node, alpha, beta),
                self.board == old(self).board,
                self.counters() == old(self).counters(),
                0 < depth <= max_depth,
                node == (Node { position: board@, max_depth, depth, is_maximizing_player }),
                i <= sorted_moves.len(),
                forall|j: int|
                    0 <= j < sorted_moves.len() ==> legal_moves(board@).contains(
                        #[trigger] sorted_moves@[j],
                    ),
                all_on_board(legal_moves(board@)),
                setup.search_moves(
                    self@,
                    node,
                    sorted_moves@,
                    i as int,
                    Line { alpha: lower, beta: upper, best_val, best_move },
                ) == target,
            decreases sorted_moves.len() - i,
        {
            let board_move = sorted_moves[i];
            assert(legal_moves(board@).contains(board_move));
            assert(board_move.on_board());
            let child = board.apply(board_move);
            let ghost before = self@;
            let ghost line = Line { alpha: lower, beta: upper, best_val, best_move };
            proof {
                self.tt_table.lemma_wf();
            }
            let key = self.tt_table.hash(&child);

            let remembered = match self.tt_table.get_key(key) {
                Some(node_info) => if node_info.depth >= depth {
                    Some(node_info.eval)
                } else {
                    None
                },
                None => None,
            };
            let eval = match remembered {
                Some(eval) => eval,
                None => {
                    let (eval, _) = self.internal_search(
                        &child,
                        max_depth,
                        depth - 1,
                        lower,
                        upper,
                        !is_maximizing_player,
                        Some(board_move),
                    );
                    eval
                },
            };
            let ghost after = self@;
            assert((eval, after) == setup.child_score(before, node, board_move, line));

            let improved = if is_maximizing_player {
                eval > best_val
            } else {
                eval < best_val
            };
            if improved {
                best_val = eval;
                best_move = Some(board_move);

                self.tt_table.insert_key(key, NodeInfo { eval, best_move, depth });
                self.uci.update_depth_data(depth, max_depth, best_move);
                proof {
                    self.tt_table.lemma_wf();
                    assert(self@.killers =~= after.killers);
                    assert(self@ == after.improved(key, eval, board_move, node));
                }
            }
            if is_maximizing_player {
                if best_val > lower {
                    lower = best_val;
                }
            } else {
                if best_val < upper {
                    upper = best_val;
                }
            }
            assert(Line { alpha: lower, beta: upper, best_val, best_move } == line.with_score(
                node,
                eval,
                board_move,
            ));

            if upper <= lower {
                let ghost tried = self@;
                self.update_killer_move(depth, board_move);
                self.update_history(board_move);
                assert(self@ == tried.cut_off(depth, board_move));
                return (best_val, best_move);
            }
            i += 1;
        }
        (best_val, best_move)
    }
}

/// The killer moves with as many empty rows added as it takes to have `rows`
/// of them.
pub open spec fn killers_grown(killers: Seq<Seq<Option<Move>>>, rows: int) -> Seq<
    Seq<Option<Move>>,
> {
    if killers.len() >= rows {
        killers
    } else {
        killers + Seq::new(
            (rows - killers.len()) as nat,
            |i: int| Seq::new(KILLER_SLOTS as nat, |j: int| None::<Move>),
        )
    }
}

/// The killer moves with every slot emptied.
pub open spec fn killers_cleared(killers: Seq<Seq<Option<Move>>>) -> Seq<Seq<Option<Move>>> {
    Seq::new(killers.len(), |i: int| Seq::new(killers[i].len(), |j: int| None::<Move>))
}

impl SearchState {
    /// The state in which a search of the given depth starts: the progress
    /// record is empty and every depth of the search has a row of killer
    /// moves.
    pub open spec fn prepared(self, depth: u16) -> SearchState {
        SearchState {
            killers: killers_grown(self.killers, depth + 1),
            progress: Seq::empty(),
            ..self
        }
    }

    /// The state after a reset: no killer moves, no history, no progress.
    /// The table stays.
    pub open spec fn reset(self) -> SearchState {
        SearchState {
            killers: killers_cleared(self.killers),
            history: Seq::new(4096, |i: int| 0u32),
            progress: Seq::empty(),
            ..self
        }
    }
}

impl BasicBot {
    /// Searches the engine's position to the given depth and returns its
    /// score and the best move, or no move where the position has none.
    ///
    /// The side to move is the side that the search plays for, and the
    /// bounds start at the ends of the range of scores.
    pub fn search(&mut self, depth: u16) -> (result: (i32, Option<Move>))
        requires
            old(self).wf(),
        ensures
            final(self).wf(),
            final(self).setup() == old(self).setup(),
            final(self).board == old(self).board,
            final(self).counters() == old(self).counters(),
            ({
                let outcome = old(self).setup().search_node(
                    old(self)@.prepared(depth),
                    Node {
                        position: old(self).board@,
                        max_depth: depth,
                        depth,
                        is_maximizing_player: true,
                    },
                    i32::MIN,
                    i32::MAX,
                );
                &&& result.0 == outcome.score
                &&& result.1 == outcome.best_move
                &&& final(self)@ == outcome.state
            }),
            depth > 0 && legal_moves(old(self).board@).len() == 0 ==> result == (
                (-UNSEARCHED) as i32,
                None::<Move>,
            ) && final(self)@ == old(self)@.prepared(depth),
            depth > 0 && legal_moves(old(self).board@).len() > 0 ==> result.1.is_some()
                && legal_moves(old(self).board@).contains(result.1.unwrap()),
    {
        let board = self.board;
        proof {
            let node = Node {
                position: board@,
                max_depth: depth,
                depth,
                is_maximizing_player: true,
            };
            if depth > 0 && legal_moves(board@).len() == 0 {
                self.setup().lemma_no_moves(self@.prepared(depth), node, i32::MIN, i32::MAX);
            }
            if depth > 0 && legal_moves(board@).len() > 0 {
                self.setup().lemma_gives_legal_move(
                    self@.prepared(depth),
                    node,
                    i32::MIN,
                    i32::MAX,
                );
            }
        }
        self.uci.depth_data.clear();
        while self.killer_moves.len() <= depth as usize
            invariant
                self.wf(),
                self.setup() == old(self).setup(),
                self.board == old(self).board,
                self.counters() == old(self).counters(),
                self.killer_moves.len() >= old(self).killer_moves.len(),
                self.killer_moves.len() == old(self).killer_moves.len() || self.killer_moves.len()
                    <= depth + 1,
                self@ == (SearchState {
                    killers: killers_grown(old(self)@.killers, self.killer_moves.len() as int),
                    progress: Seq::empty(),
                    ..old(self)@
                }),
            decreases depth + 1 - self.killer_moves.len(),
        {
            let ghost before = self@.killers;
            self.killer_moves.push(empty_killers());
            assert(self@.killers =~= before.push(Seq::new(KILLER_SLOTS as nat, |j: int| None::<Move>)));
            assert(self@.killers =~= killers_grown(
                old(self)@.killers,
                self.killer_moves.len() as int,
            ));
        }
        assert(self@.killers =~= killers_grown(old(self)@.killers, depth + 1));
        self.internal_search(&board, depth, depth, i32::MIN, i32::MAX, true, None)
    }

    /// Forgets the killer moves, the history counts and the progress record.
    pub fn reset(&mut self)
        requires
            old(self).wf(),
        ensures
            final(self).wf(),
            final(self).setup() == old(self).setup(),
            final(self).board == old(self).board,
            final(self)@ == old(self)@.reset(),
            final(self).uci.nodes_total == 0,
            final(self).uci.ms_passed == 0,
    {
        let mut i: usize = 0;
        while i < self.killer_moves.len()
            invariant
                i <= self.killer_moves.len(),
                self.killer_moves.len() == old(self).killer_moves.len(),
                self.tt_table == old(self).tt_table,
                self.pesto == old(self).pesto,
                self.board == old(self).board,
                forall|k: int|
                    0 <= k < i ==> (#[trigger] self.killer_moves@[k])@ == Seq::new(
                        old(self).killer_moves@[k]@.len(),
                        |j: int| None::<Move>,
                    ),
                forall|k: int|
                    i <= k < self.killer_moves.len() ==> (#[trigger] self.killer_moves@[k])
                        == old(self).killer_moves@[k],
            decreases self.killer_moves.len() - i,
        {
            let slots = self.killer_moves[i].len();
            let mut row: Vec<Option<Move>> = Vec::new();
            while row.len() < slots
                invariant
                    row.len() <= slots,
                    forall|j: int| 0 <= j < row.len() ==> row@[j] == None::<Move>,
                decreases slots - row.len(),
            {
                row.push(None);
            }
            assert(row@ =~= Seq::new(slots as nat, |j: int| None::<Move>));
            self.killer_moves[i] = row;
            i += 1;
        }
        let mut history: Vec<u32> = Vec::new();
        while history.len() < 4096
            invariant
                history.len() <= 4096,
                forall|j: int| 0 <= j < history.len() ==> history@[j] == 0,
            decreases 4096 - history.len(),
        {
            history.push(0);
        }
        self.history = history;
        self.uci.depth_data.clear();
        self.uci.nodes_total = 0;
        self.uci.ms_passed = 0;
        assert(self@.killers =~= killers_cleared(old(self)@.killers));
        assert(self@.history =~= Seq::new(4096, |i: int| 0u32));
    }
}

} // verus!
