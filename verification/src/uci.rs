//! The progress record of a search: for each ply, the best move found there
//! and how often a better move was found.

use crate::pieces::Move;
use vstd::prelude::*;

verus! {

/// What a search found at one ply.
#[derive(Clone, Copy, Debug, PartialEq, Eq, Structural)]
pub struct DepthData {
    /// The ply, counted from 1 at the root.
    pub depth: u16,
    /// The best move found at the ply so far.
    pub best_move: Option<Move>,
    /// How often a better move was found at the ply.
    pub node_count: u32,
}

/// The progress record, and the time that the last search took.
pub struct Uci {
    pub depth_data: Vec<DepthData>,
    pub nodes_total: u64,
    pub ms_passed: u64,
}

/// The ply of a node: 1 at the root, where all of `max_depth` is left to
/// search, and one more for each level below.
pub open spec fn ply_of(depth: u16, max_depth: u16) -> int {
    max_depth + 1 - depth
}

/// The first place from `from` on at which the record holds an entry for the
/// ply.
pub open spec fn find_ply(data: Seq<DepthData>, ply: u16, from: int) -> Option<int>
    decreases data.len() - from,
{
    if from < 0 || from >= data.len() {
        None
    } else if data[from].depth == ply {
        Some(from)
    } else {
        find_ply(data, ply, from + 1)
    }
}

/// A count and one more, as far as the count can go.
pub open spec fn counted_up(count: u32) -> u32 {
    if count < u32::MAX {
        (count + 1) as u32
    } else {
        count
    }
}

/// The record after a better move was found at a ply: the entry of the ply
/// takes the move and counts one more; a ply without an entry gets one, at
/// the end, with a count of one.
pub open spec fn recorded(data: Seq<DepthData>, ply: u16, best_move: Option<Move>) -> Seq<
    DepthData,
> {
    match find_ply(data, ply, 0) {
        Some(i) => data.update(
            i,
            DepthData { depth: ply, best_move, node_count: counted_up(data[i].node_count) },
        ),
        None => data.push(DepthData { depth: ply, best_move, node_count: 1 }),
    }
}

/// No two entries of the record are for the same ply.
pub open spec fn one_entry_per_ply(data: Seq<DepthData>) -> bool {
    forall|i: int, j: int|
        0 <= i < j < data.len() ==> (#[trigger] data[i]).depth != (#[trigger] data[j]).depth
}

/// What `find_ply` finds is an entry of the ply with none for it before; where
/// it finds nothing, there is no entry of the ply from `from` on.
pub proof fn lemma_find_ply(data: Seq<DepthData>, ply: u16, from: int)
    requires
        0 <= from,
    ensures
        match find_ply(data, ply, from) {
            Some(i) => {
                &&& from <= i < data.len()
                &&& data[i].depth == ply
                &&& forall|j: int| from <= j < i ==> (#[trigger] data[j]).depth != ply
            },
            None => forall|j: int| from <= j < data.len() ==> (#[trigger] data[j]).depth != ply,
        },
    decreases data.len() - from,
{
    if from < data.len() && data[from].depth != ply {
        lemma_find_ply(data, ply, from + 1);
    }
}

/// Recording keeps a record at one entry per ply.
pub proof fn lemma_recorded_one_entry_per_ply(
    data: Seq<DepthData>,
    ply: u16,
    best_move: Option<Move>,
)
    requires
        one_entry_per_ply(data),
    ensures
        one_entry_per_ply(recorded(data, ply, best_move)),
{
    lemma_find_ply(data, ply, 0);
    let after = recorded(data, ply, best_move);
    assert forall|i: int, j: int| 0 <= i < j < after.len() implies (#[trigger] after[i]).depth != (
    #[trigger] after[j]).depth by {
        match find_ply(data, ply, 0) {
            Some(k) => {
                assert(after[i].depth == data[i].depth);
                assert(after[j].depth == data[j].depth);
            },
            None => {
                if j < data.len() {
                    assert(after[i] == data[i]);
                    assert(after[j] == data[j]);
                } else {
                    assert(after[i] == data[i]);
                }
            },
        }
    }
}

impl Default for Uci {
    fn default() -> (uci: Uci)
        ensures
            uci.depth_data@ == Seq::<DepthData>::empty(),
            uci.nodes_total == 0,
            uci.ms_passed == 0,
    {
        Uci { nodes_total: 0, ms_passed: 0, depth_data: Vec::new() }
    }
}

impl Uci {
    /// Notes the time that a search took, in milliseconds.
    pub fn set_ms_passed(&mut self, ms_passed: u64)
        ensures
            final(self).ms_passed == ms_passed,
            final(self).depth_data == old(self).depth_data,
            final(self).nodes_total == old(self).nodes_total,
    {
        self.ms_passed = ms_passed;
    }

    /// The record, one entry per ply, in the order in which the plies were
    /// first entered.
    pub fn get_depth_data(&self) -> (data: &Vec<DepthData>)
        ensures
            data@ == self.depth_data@,
    {
        &self.depth_data
    }

    /// Records that a better move was found at the node with `depth` left to
    /// search, in a search of `max_depth`.
    pub fn update_depth_data(&mut self, depth: u16, max_depth: u16, best_move: Option<Move>)
        requires
            0 <= ply_of(depth, max_depth) <= u16::MAX,
        ensures
            final(self).depth_data@ == recorded(
                old(self).depth_data@,
                ply_of(depth, max_depth) as u16,
                best_move,
            ),
            final(self).nodes_total == old(self).nodes_total,
            final(self).ms_passed == old(self).ms_passed,
    {
        let reversed_depth: u16 = if depth <= max_depth {
            max_depth - depth + 1
        } else {
            0
        };
        let ghost data = self.depth_data@;
        let mut i: usize = 0;
        while i < self.depth_data.len()
            invariant
                i <= self.depth_data.len(),
                self.depth_data@ == data,
                data == old(self).depth_data@,
                reversed_depth == ply_of(depth, max_depth),
                find_ply(data, reversed_depth, 0) == find_ply(data, reversed_depth, i as int),
                self.nodes_total == old(self).nodes_total,
                self.ms_passed == old(self).ms_passed,
            decreases self.depth_data.len() - i,
        {
            if self.depth_data[i].depth == reversed_depth {
                let count = self.depth_data[i].node_count;
                let node_count = if count < u32::MAX {
                    count + 1
                } else {
                    count
                };
                self.depth_data[i] = DepthData { depth: reversed_depth, best_move, node_count };
                assert(self.depth_data@ =~= recorded(data, reversed_depth, best_move));
                return ;
            }
            i += 1;
        }
        self.depth_data.push(DepthData { depth: reversed_depth, best_move, node_count: 1 });
    }
}

} // verus!
