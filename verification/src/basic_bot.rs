//! The engine: a position, the tables it evaluates by, and what it has learnt
//! in its searches.

use crate::piece_sq_tables::{
    create_pesto_piece_square, end_game_tables, lemma_pesto_bounded, middle_game_tables,
    ColoredTables, MAX_BONUS,
};
use crate::pieces::{Move, PieceKind};
use crate::position::Position;
use crate::uci::{DepthData, Uci};
use crate::zobrist::{NodeInfo, TableView, ZobristHashMap, ZobristKeys};
use vstd::prelude::*;

verus! {

/// The number of killer moves that are kept for each depth.
pub const KILLER_SLOTS: usize = 4;

/// The number of depths for which a new engine keeps killer moves.  The
/// engine makes room for more when it is asked to search deeper.
pub const KILLER_DEPTHS: usize = 15;

/// An engine.
pub struct BasicBot {
    /// The position that the next search starts from.
    pub board: Position,
    /// The progress record of the last search.
    pub uci: Uci,
    /// The piece-square tables of the middle game and of the end game.
    pub pesto: (ColoredTables, ColoredTables),
    /// For each depth left to search, the moves that last cut a search short
    /// there, the latest first.
    pub killer_moves: Vec<Vec<Option<Move>>>,
    /// For each pair of squares, how often a move from the first to the
    /// second cut a search short.  The count of a move from `s` to `d` stands
    /// at `64 * s + d`.
    pub history: Vec<u32>,
    /// The transposition table.
    pub tt_table: ZobristHashMap<NodeInfo>,
}

/// What a search reads and changes of an engine.
pub ghost struct SearchState {
    /// The transposition table.
    pub table: TableView<NodeInfo>,
    /// The killer moves, by the depth left to search.
    pub killers: Seq<Seq<Option<Move>>>,
    /// The history counts.
    pub history: Seq<u32>,
    /// The progress record.
    pub progress: Seq<DepthData>,
}

/// What a search reads of an engine and never changes.
pub ghost struct Setup {
    /// The random numbers of the transposition table.
    pub keys: ZobristKeys,
    /// The piece-square tables of the middle game.
    pub mg: ColoredTables,
    /// The piece-square tables of the end game.
    pub eg: ColoredTables,
}

impl SearchState {
    /// The table is well formed, every depth has a killer slot, and there is
    /// a history count for each pair of squares.
    pub open spec fn wf(self) -> bool {
        &&& self.table.wf()
        &&& forall|depth: int| 0 <= depth < self.killers.len() ==> (#[trigger] self.killers[depth]).len() >= 1
        &&& self.history.len() == 4096
    }
}

/// A row of killer moves after a move has joined it: the move comes first,
/// the others move one place back, and the last one leaves.
pub open spec fn killer_inserted(row: Seq<Option<Move>>, m: Move) -> Seq<Option<Move>> {
    seq![Some(m)] + row.drop_last()
}

/// A row of killer moves after the moves of `joined` have joined it, one
/// after the other.
pub open spec fn killers_after(row: Seq<Option<Move>>, joined: Seq<Move>) -> Seq<Option<Move>>
    decreases joined.len(),
{
    if joined.len() == 0 {
        row
    } else {
        killer_inserted(killers_after(row, joined.drop_last()), joined.last())
    }
}

/// After any number of moves have joined a row of killer moves, the row is as
/// long as it was; it holds the latest moves, the latest first, as far as it
/// has room; and behind them what it held before, in the order it had.
pub proof fn lemma_killers_after(row: Seq<Option<Move>>, joined: Seq<Move>)
    requires
        row.len() >= 1,
    ensures
        killers_after(row, joined).len() == row.len(),
        forall|j: int|
            0 <= j < row.len() && j < joined.len() ==> #[trigger] killers_after(row, joined)[j]
                == Some(joined[joined.len() - 1 - j]),
        forall|j: int|
            joined.len() <= j < row.len() ==> #[trigger] killers_after(row, joined)[j] == row[j
                - joined.len()],
        joined.len() >= 1 ==> killers_after(row, joined)[0] == Some(joined.last()),
    decreases joined.len(),
{
    if joined.len() > 0 {
        let before = joined.drop_last();
        lemma_killers_after(row, before);
        let held = killers_after(row, before);
        let after = killers_after(row, joined);
        assert(after == killer_inserted(held, joined.last()));
        assert forall|j: int| 0 <= j < row.len() && j < joined.len() implies #[trigger] after[j]
            == Some(joined[joined.len() - 1 - j]) by {
            if j > 0 {
                assert(after[j] == held[j - 1]);
                assert(before[before.len() - 1 - (j - 1)] == joined[joined.len() - 1 - j]);
            }
        }
        assert forall|j: int| joined.len() <= j < row.len() implies #[trigger] after[j] == row[j
            - joined.len()] by {
            assert(after[j] == held[j - 1]);
        }
    }
}

impl View for BasicBot {
    type V = SearchState;

    open spec fn view(&self) -> SearchState {
        SearchState {
            table: self.tt_table@,
            killers: Seq::new(self.killer_moves@.len(), |i: int| self.killer_moves@[i]@),
            history: self.history@,
            progress: self.uci.depth_data@,
        }
    }
}

impl BasicBot {
    /// The random numbers and the tables of the engine.
    pub open spec fn setup(&self) -> Setup {
        Setup { keys: self.tt_table.zobrist(), mg: self.pesto.0, eg: self.pesto.1 }
    }

    /// The counters that the engine keeps beside what it searches with: the
    /// number of nodes and the milliseconds of the last search.  No search
    /// touches them.
    pub open spec fn counters(&self) -> (u64, u64) {
        (self.uci.nodes_total, self.uci.ms_passed)
    }

    /// What every engine that this module hands out satisfies.
    pub open spec fn wf(&self) -> bool {
        &&& self.tt_table.wf()
        &&& self@.wf()
    }

    /// Proves what `wf` says of the view.
    pub proof fn lemma_wf(&self)
        requires
            self.wf(),
        ensures
            self@.wf(),
            self.setup().keys.wf(),
    {
        self.tt_table.lemma_wf();
    }

    /// An engine for a position, with a transposition table for a budget of
    /// bytes.
    pub fn new(board: &Position, tt_byte_size: usize) -> (bot: Self)
        ensures
            bot.wf(),
            bot.board@ == board@,
            bot.setup().mg.colours(middle_game_tables()),
            bot.setup().eg.colours(end_game_tables()),
            bot.setup().mg.bounded(MAX_BONUS as int),
            bot.setup().eg.bounded(MAX_BONUS as int),
            bot@.table.queue == Seq::<u64>::empty(),
            bot@.table.map == Map::<u64, NodeInfo>::empty(),
            bot@.table.capacity == tt_byte_size as int / (8 + vstd::layout::size_of::<NodeInfo>()) as int,
            bot@.killers == Seq::new(KILLER_DEPTHS as nat, |i: int| Seq::new(KILLER_SLOTS as nat, |j: int| None::<Move>)),
            bot@.history == Seq::new(4096, |i: int| 0u32),
            bot@.progress == Seq::<DepthData>::empty(),
            bot.counters() == (0u64, 0u64),
    {
        Self::with_table(board, ZobristHashMap::new(tt_byte_size))
    }

    /// An engine for a position that remembers in the given table.
    pub fn with_table(board: &Position, tt_table: ZobristHashMap<NodeInfo>) -> (bot: Self)
        requires
            tt_table.wf(),
        ensures
            bot.wf(),
            bot.board@ == board@,
            bot.tt_table == tt_table,
            bot.setup().mg.colours(middle_game_tables()),
            bot.setup().eg.colours(end_game_tables()),
            bot.setup().mg.bounded(MAX_BONUS as int),
            bot.setup().eg.bounded(MAX_BONUS as int),
            bot@.killers == Seq::new(KILLER_DEPTHS as nat, |i: int| Seq::new(KILLER_SLOTS as nat, |j: int| None::<Move>)),
            bot@.history == Seq::new(4096, |i: int| 0u32),
            bot@.progress == Seq::<DepthData>::empty(),
            bot.counters() == (0u64, 0u64),
    {
        let mut killer_moves: Vec<Vec<Option<Move>>> = Vec::new();
        while killer_moves.len() < KILLER_DEPTHS
            invariant
                killer_moves.len() <= KILLER_DEPTHS,
                forall|i: int| 0 <= i < killer_moves.len() ==> (#[trigger] killer_moves@[i])@ == Seq::new(KILLER_SLOTS as nat, |j: int| None::<Move>),
            decreases KILLER_DEPTHS - killer_moves.len(),
        {
            killer_moves.push(empty_killers());
        }
        let mut history: Vec<u32> = Vec::new();
        while history.len() < 4096
            invariant
                history.len() <= 4096,
                forall|i: int| 0 <= i < history.len() ==> history@[i] == 0,
            decreases 4096 - history.len(),
        {
            history.push(0);
        }
        let bot = BasicBot {
            board: *board,
            pesto: create_pesto_piece_square(),
            uci: Uci::default(),
            killer_moves,
            history,
            tt_table,
        };
        proof {
            bot.tt_table.lemma_wf();
            lemma_pesto_bounded();
            bot.setup().mg.lemma_colours(middle_game_tables(), MAX_BONUS as int);
            bot.setup().eg.lemma_colours(end_game_tables(), MAX_BONUS as int);
            assert(bot@.killers =~= Seq::new(KILLER_DEPTHS as nat, |i: int| Seq::new(KILLER_SLOTS as nat, |j: int| None::<Move>)));
            assert(bot@.history =~= Seq::new(4096, |i: int| 0u32));
        }
        bot
    }

    /// The tables of the middle game and of the end game.
    pub fn tables(&self) -> (tables: (&ColoredTables, &ColoredTables))
        ensures
            *tables.0 == self.setup().mg,
            *tables.1 == self.setup().eg,
    {
        (&self.pesto.0, &self.pesto.1)
    }

    /// Sets the position that the next search starts from.
    pub fn change_board(&mut self, board: &Position)
        ensures
            old(self).wf() ==> final(self).wf(),
            final(self).board@ == board@,
            final(self)@ == old(self)@,
            final(self).setup() == old(self).setup(),
            final(self).counters() == old(self).counters(),
    {
        self.board = *board;
    }

    /// The place of a kind of man in the piece-square tables.
    pub fn piece_to_int(&self, p: PieceKind) -> (i: u8)
        ensures
            i == p.spec_index(),
    {
        match p {
            PieceKind::Pawn => 0,
            PieceKind::Knight => 1,
            PieceKind::Bishop => 2,
            PieceKind::Rook => 3,
            PieceKind::Queen => 4,
            PieceKind::King => 5,
        }
    }
}

/// A row of killer moves with nothing in it.
pub fn empty_killers() -> (row: Vec<Option<Move>>)
    ensures
        row@ == Seq::new(KILLER_SLOTS as nat, |j: int| None::<Move>),
{
    let mut row: Vec<Option<Move>> = Vec::new();
    while row.len() < KILLER_SLOTS
        invariant
            row.len() <= KILLER_SLOTS,
            forall|j: int| 0 <= j < row.len() ==> row@[j] == None::<Move>,
        decreases KILLER_SLOTS - row.len(),
    {
        row.push(None);
    }
    assert(row@ =~= Seq::new(KILLER_SLOTS as nat, |j: int| None::<Move>));
    row
}

} // verus!
