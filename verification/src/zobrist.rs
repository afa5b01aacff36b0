//! Zobrist hashing of positions, and a table keyed by those hashes that holds
//! a bounded number of entries and drops the oldest first.

use crate::pieces::{Colour, Move, Piece};
use crate::position::{piece_at, side_to_move, Position, PositionView};
use nohash_hasher::BuildNoHashHasher;
use rand::Rng;
use std::collections::HashMap;
use std::collections::VecDeque;
use vstd::layout::size_of;
use vstd::prelude::*;
use vstd::std_specs::hash::*;

verus! {

/// The hasher of the `nohash_hasher` crate, which Verus does not look into.
#[verifier::external_type_specification]
#[verifier::external_body]
#[verifier::reject_recursive_types(T)]
pub struct ExNoHashHasher<T>(nohash_hasher::NoHashHasher<T>);

/// `std::hash::BuildHasherDefault`, which builds a hasher by `Default`.
#[verifier::external_type_specification]
#[verifier::external_body]
#[verifier::reject_recursive_types(H)]
pub struct ExBuildHasherDefault<H>(std::hash::BuildHasherDefault<H>);

/// The random number generator of the current thread, of the `rand` crate.
#[verifier::external_type_specification]
#[verifier::external_body]
pub struct ExThreadRng(rand::rngs::ThreadRng);

/// What is asked of a hasher builder for a `HashMap` to behave as a map: two
/// hashers that it builds and that are fed the same writes give the same hash.
pub open spec fn hashes_alike(builder: BuildNoHashHasher<u64>) -> bool {
    builds_valid_hashers::<BuildNoHashHasher<u64>>()
}

/// `BuildNoHashHasher::default`: a builder of identity hashers.  Such a hasher
/// keeps the one integer written to it and gives it back as the hash, so equal
/// keys hash alike.
#[verifier::external_body]
fn identity_hash_builder() -> (builder: BuildNoHashHasher<u64>)
    ensures
        hashes_alike(builder),
{
    BuildNoHashHasher::default()
}

/// `HashMap::with_hasher` makes an empty map.
pub assume_specification<K, V, S>[ HashMap::<K, V, S>::with_hasher ](hash_builder: S) -> (m: HashMap<K, V, S>)
    ensures
        m@ =~= Map::empty(),
;

/// `rand::thread_rng`: a handle to the generator of the current thread.
#[verifier::external_body]
fn thread_rng() -> rand::rngs::ThreadRng {
    rand::thread_rng()
}

/// `Rng::gen_range` over `0..u64::MAX`: a number drawn at random from a range
/// that leaves out its upper end.
#[verifier::external_body]
fn random_key(rng: &mut rand::rngs::ThreadRng) -> (key: u64)
    ensures
        key < u64::MAX,
{
    rng.gen_range(0..u64::MAX)
}

/// What the search remembers of a position.
#[derive(Clone, Copy, Debug, PartialEq, Eq, Structural)]
pub struct NodeInfo {
    /// The score that the search gave the position.
    pub eval: i32,
    /// The best move known when the entry was written.
    pub best_move: Option<Move>,
    /// The depth that was left to search when the entry was written: the
    /// greater, the more the score is worth.
    pub depth: u16,
}

/// The random numbers of a Zobrist hash: one for each man on each square, and
/// one for each side to move.
pub struct ZobristValues {
    white_pieces: Vec<u64>,
    black_pieces: Vec<u64>,
    white_turn: u64,
    black_turn: u64,
}

/// The numbers of a [`ZobristValues`].  The number of a man of kind `k` on
/// square `s` stands at `6 * s + k` in the sequence of its side.
pub ghost struct ZobristKeys {
    pub white_pieces: Seq<u64>,
    pub black_pieces: Seq<u64>,
    pub white_turn: u64,
    pub black_turn: u64,
}

impl ZobristKeys {
    /// There is a number for each of the six kinds on each of the 64 squares.
    pub open spec fn wf(self) -> bool {
        self.white_pieces.len() == 384 && self.black_pieces.len() == 384
    }

    /// The number of a man on a square.
    pub open spec fn piece_key(self, piece: Piece, square: int) -> u64 {
        match piece.colour {
            Colour::White => self.white_pieces[6 * square + piece.kind.spec_index()],
            Colour::Black => self.black_pieces[6 * square + piece.kind.spec_index()],
        }
    }

    /// The number of the side to move.
    pub open spec fn turn_key(self, colour: Colour) -> u64 {
        match colour {
            Colour::White => self.white_turn,
            Colour::Black => self.black_turn,
        }
    }

    /// What a square adds to the hash: the number of the man on it, and
    /// nothing where it is empty.
    pub open spec fn square_key(self, position: PositionView, square: int) -> u64 {
        match piece_at(position, square) {
            Some(piece) => self.piece_key(piece, square),
            None => 0,
        }
    }

    /// The numbers of the men on the squares below `n`, combined by XOR.
    pub open spec fn placement_hash(self, position: PositionView, n: nat) -> u64
        decreases n,
    {
        if n == 0 {
            0
        } else {
            self.placement_hash(position, (n - 1) as nat) ^ self.square_key(position, n - 1)
        }
    }

    /// The Zobrist hash of a position: the numbers of its men and the number
    /// of the side to move, combined by XOR.
    pub open spec fn position_hash(self, position: PositionView) -> u64 {
        self.placement_hash(position, 64) ^ self.turn_key(side_to_move(position))
    }
}

/// Whether two positions have the same men on the same squares and the same
/// side to move.
pub open spec fn same_placement(a: PositionView, b: PositionView) -> bool {
    &&& side_to_move(a) == side_to_move(b)
    &&& forall|square: int| 0 <= square < 64 ==> piece_at(a, square) == piece_at(b, square)
}

/// Two positions with the same men on the same squares give the same hash of
/// the squares below `n`.
pub proof fn lemma_placement_hash_same(keys: ZobristKeys, a: PositionView, b: PositionView, n: nat)
    requires
        same_placement(a, b),
        n <= 64,
    ensures
        keys.placement_hash(a, n) == keys.placement_hash(b, n),
    decreases n,
{
    if n > 0 {
        lemma_placement_hash_same(keys, a, b, (n - 1) as nat);
        assert(piece_at(a, n - 1) == piece_at(b, n - 1));
    }
}

/// The hash of a position depends on nothing but its men, their squares and
/// the side to move: two positions that agree in these have the same hash,
/// whatever their castling rights and en-passant squares.
pub proof fn lemma_hash_same_placement(keys: ZobristKeys, a: PositionView, b: PositionView)
    requires
        same_placement(a, b),
    ensures
        keys.position_hash(a) == keys.position_hash(b),
{
    lemma_placement_hash_same(keys, a, b, 64);
}

impl View for ZobristValues {
    type V = ZobristKeys;

    closed spec fn view(&self) -> ZobristKeys {
        ZobristKeys {
            white_pieces: self.white_pieces@,
            black_pieces: self.black_pieces@,
            white_turn: self.white_turn,
            black_turn: self.black_turn,
        }
    }
}

/// The bytes that one entry of a table with keys `K` and values `V` takes.
pub fn capacity_to_bytes<K, V>() -> (bytes: usize)
    requires
        size_of::<K>() + size_of::<V>() <= usize::MAX,
    ensures
        bytes == size_of::<K>() + size_of::<V>(),
{
    core::mem::size_of::<K>() + core::mem::size_of::<V>()
}

/// The number of entries with keys `K` and values `V` that fit in a budget of
/// bytes.
pub fn bytes_to_capacity<K, V>(total_bytes: usize) -> (capacity: usize)
    requires
        size_of::<K>() + size_of::<V>() > 0,
    ensures
        capacity == total_bytes as int / (size_of::<K>() + size_of::<V>()) as int,
{
    let key_bytes = core::mem::size_of::<K>() as u128;
    let value_bytes = core::mem::size_of::<V>() as u128;
    let entry_bytes = key_bytes + value_bytes;
    let capacity = total_bytes as u128 / entry_bytes;
    assert(capacity <= total_bytes) by (nonlinear_arith)
        requires
            capacity == total_bytes as int / entry_bytes as int,
            entry_bytes >= 1,
            total_bytes >= 0,
    ;
    capacity as usize
}

/// The number of draws that the random numbers of a Zobrist hash take: one
/// for each of the six kinds of man of each side on each square, and one for
/// each side to move.
pub const DRAWS: usize = 770;

/// The random numbers of a Zobrist hash from the numbers drawn for them.
/// The draws are handed out in the order in which they came: for each square
/// from a1 to h8, and on it for each kind of man from the pawn to the king,
/// one to White's man and the next to Black's; then one to White's turn and
/// the last to Black's.  Every number is a draw of its own.
pub fn zobrist_from_draws(draws: &Vec<u64>) -> (values: ZobristValues)
    requires
        draws@.len() == DRAWS,
    ensures
        values@.wf(),
        forall|i: int|
            0 <= i < 384 ==> #[trigger] values@.white_pieces[i] == draws@[2 * i]
                && values@.black_pieces[i] == draws@[2 * i + 1],
        values@.white_turn == draws@[768],
        values@.black_turn == draws@[769],
{
    let mut white_zobrist_table: Vec<u64> = Vec::new();
    let mut black_zobrist_table: Vec<u64> = Vec::new();
    let mut i: usize = 0;
    while i < 384
        invariant
            i <= 384,
            draws@.len() == DRAWS,
            white_zobrist_table.len() == i,
            black_zobrist_table.len() == i,
            forall|j: int| 0 <= j < i ==> #[trigger] white_zobrist_table@[j] == draws@[2 * j],
            forall|j: int| 0 <= j < i ==> #[trigger] black_zobrist_table@[j] == draws@[2 * j + 1],
        decreases 384 - i,
    {
        white_zobrist_table.push(draws[2 * i]);
        black_zobrist_table.push(draws[2 * i + 1]);
        i += 1;
    }
    ZobristValues {
        white_pieces: white_zobrist_table,
        black_pieces: black_zobrist_table,
        white_turn: draws[768],
        black_turn: draws[769],
    }
}

/// Draws the random numbers of a Zobrist hash: as many numbers as the hash
/// takes, each from the generator of the thread, handed out by
/// [`zobrist_from_draws`].
pub fn init_zobrist() -> (values: ZobristValues)
    ensures
        values@.wf(),
        forall|i: int| 0 <= i < 384 ==> values@.white_pieces[i] < u64::MAX,
        forall|i: int| 0 <= i < 384 ==> values@.black_pieces[i] < u64::MAX,
        values@.white_turn < u64::MAX,
        values@.black_turn < u64::MAX,
{
    let mut rng = thread_rng();
    let mut draws: Vec<u64> = Vec::new();
    while draws.len() < DRAWS
        invariant
            draws.len() <= DRAWS,
            forall|j: int| 0 <= j < draws.len() ==> draws@[j] < u64::MAX,
        decreases DRAWS - draws.len(),
    {
        draws.push(random_key(&mut rng));
    }
    let values = zobrist_from_draws(&draws);
    assert forall|i: int| 0 <= i < 384 implies values@.white_pieces[i] < u64::MAX by {
        assert(values@.white_pieces[i] == draws@[2 * i]);
    }
    assert forall|i: int| 0 <= i < 384 implies values@.black_pieces[i] < u64::MAX by {
        assert(values@.white_pieces[i] == draws@[2 * i]);
    }
    values
}

/// The Zobrist hash of a position.
pub fn hash(board: &Position, zobrist_values: &ZobristValues) -> (key: u64)
    requires
        zobrist_values@.wf(),
    ensures
        key == zobrist_values@.position_hash(board@),
{
    let mut final_hash: u64 = 0;
    let mut i: u8 = 0;
    while i < 64
        invariant
            i <= 64,
            zobrist_values@.wf(),
            final_hash == zobrist_values@.placement_hash(board@, i as nat),
        decreases 64 - i,
    {
        if let Some(piece) = board.piece_on(i) {
            let index = 6 * (i as usize) + piece.kind.index();
            let key = match piece.colour {
                Colour::White => zobrist_values.white_pieces[index],
                Colour::Black => zobrist_values.black_pieces[index],
            };
            final_hash = final_hash ^ key;
        } else {
            assert(final_hash ^ 0 == final_hash) by (bit_vector);
        }
        i += 1;
    }
    let color_value = match board.side_to_move() {
        Colour::White => zobrist_values.white_turn,
        Colour::Black => zobrist_values.black_turn,
    };
    final_hash ^ color_value
}

/// A table as a queue of keys, oldest first, and a map from keys to values.
pub ghost struct TableView<V> {
    /// The keys in the order in which they were inserted.
    pub queue: Seq<u64>,
    /// The entries that the table holds.
    pub map: Map<u64, V>,
    /// The number of entries that the table may hold.
    pub capacity: nat,
}

impl<V> TableView<V> {
    /// The map is finite and each of its keys waits in the queue.
    pub open spec fn linked(self) -> bool {
        &&& self.map.dom().finite()
        &&& forall|key: u64| self.map.contains_key(key) ==> self.queue.contains(key)
    }

    /// The table is linked and holds no more entries than it may.
    pub open spec fn wf(self) -> bool {
        self.linked() && self.map.len() <= self.capacity
    }

    /// The table after its oldest key has left both the queue and the map.
    pub open spec fn without_oldest(self) -> TableView<V> {
        TableView {
            queue: self.queue.drop_first(),
            map: self.map.remove(self.queue[0]),
            capacity: self.capacity,
        }
    }

    /// The table after its oldest keys have left, one by one, until it holds
    /// no more entries than it may.
    pub open spec fn evicted(self) -> TableView<V>
        decreases self.queue.len(),
    {
        if self.map.len() > self.capacity && self.queue.len() > 0 {
            self.without_oldest().evicted()
        } else {
            self
        }
    }

    /// The table after an insertion: the key joins the queue, the value takes
    /// its place in the map, and the oldest keys leave while the map holds too
    /// many.
    pub open spec fn inserted(self, key: u64, value: V) -> TableView<V> {
        TableView {
            queue: self.queue.push(key),
            map: self.map.insert(key, value),
            capacity: self.capacity,
        }.evicted()
    }

    /// Dropping the oldest key keeps a table linked.
    pub proof fn lemma_without_oldest_linked(self)
        requires
            self.linked(),
            self.queue.len() > 0,
        ensures
            self.without_oldest().linked(),
    {
        let next = self.without_oldest();
        assert forall|key: u64| next.map.contains_key(key) implies next.queue.contains(key) by {
            assert(self.map.contains_key(key));
            assert(self.queue.contains(key));
            let i = choose|i: int| 0 <= i < self.queue.len() && self.queue[i] == key;
            assert(i > 0);
            assert(next.queue[i - 1] == key);
        }
    }

    /// A linked table that holds an entry has a key in its queue.
    pub proof fn lemma_linked_nonempty(self)
        requires
            self.linked(),
            self.map.len() > 0,
        ensures
            self.queue.len() > 0,
    {
        let key = self.map.dom().choose();
        if self.map.dom().len() != 0 {
            assert(self.map.dom().contains(key));
            assert(self.queue.contains(key));
        }
    }

    /// After eviction a linked table is well formed, with the capacity it had.
    pub proof fn lemma_evicted_wf(self)
        requires
            self.linked(),
        ensures
            self.evicted().wf(),
            self.evicted().capacity == self.capacity,
        decreases self.queue.len(),
    {
        if self.map.len() > self.capacity && self.queue.len() > 0 {
            self.lemma_without_oldest_linked();
            self.without_oldest().lemma_evicted_wf();
        } else if self.map.len() > self.capacity {
            self.lemma_linked_nonempty();
        }
    }

    /// An insertion into a well-formed table leaves a well-formed table.
    pub proof fn lemma_inserted_wf(self, key: u64, value: V)
        requires
            self.wf(),
        ensures
            self.inserted(key, value).wf(),
            self.inserted(key, value).capacity == self.capacity,
    {
        let grown = TableView {
            queue: self.queue.push(key),
            map: self.map.insert(key, value),
            capacity: self.capacity,
        };
        assert forall|k: u64| grown.map.contains_key(k) implies grown.queue.contains(k) by {
            if k == key {
                assert(grown.queue[self.queue.len() as int] == key);
            } else {
                assert(self.queue.contains(k));
                let i = choose|i: int| 0 <= i < self.queue.len() && self.queue[i] == k;
                assert(grown.queue[i] == k);
            }
        }
        grown.lemma_evicted_wf();
    }
}

/// The last `n` entries of a sequence, or all of them where there are fewer.
pub open spec fn latest<A>(entries: Seq<A>, n: nat) -> Seq<A> {
    if entries.len() <= n {
        entries
    } else {
        entries.subrange(entries.len() - n, entries.len() as int)
    }
}

/// The keys of a sequence of entries.
pub open spec fn keys_of<V>(entries: Seq<(u64, V)>) -> Seq<u64> {
    entries.map_values(|entry: (u64, V)| entry.0)
}

impl<V> TableView<V> {
    /// An empty table that may hold `capacity` entries.
    pub open spec fn empty(capacity: nat) -> TableView<V> {
        TableView { queue: Seq::empty(), map: Map::empty(), capacity }
    }

    /// The table after the entries have been inserted, one after the other.
    pub open spec fn inserted_all(self, entries: Seq<(u64, V)>) -> TableView<V>
        decreases entries.len(),
    {
        if entries.len() == 0 {
            self
        } else {
            self.inserted_all(entries.drop_last()).inserted(entries.last().0, entries.last().1)
        }
    }

    /// No key waits twice in the queue, and the keys of the map are those of
    /// the queue.
    pub open spec fn tidy(self) -> bool {
        &&& self.queue.no_duplicates()
        &&& self.map.dom() =~= self.queue.to_set()
        &&& self.map.dom().finite()
        &&& self.map.len() == self.queue.len()
        &&& self.queue.len() <= self.capacity
    }

    /// Inserting a key that is not in a tidy table leaves a tidy table: the
    /// key joins the end of the queue, and the oldest key leaves where the
    /// table was full.
    pub proof fn lemma_insert_fresh(self, key: u64, value: V)
        requires
            self.tidy(),
            !self.queue.contains(key),
        ensures
            self.inserted(key, value).tidy(),
            self.inserted(key, value).capacity == self.capacity,
            self.inserted(key, value).queue == latest(self.queue.push(key), self.capacity),
            forall|k: u64|
                self.inserted(key, value).map.contains_key(k) ==> self.inserted(key, value).map[k]
                    == self.map.insert(key, value)[k],
    {
        broadcast use vstd::set::group_set_axioms, vstd::map::group_map_axioms;

        let grown = TableView {
            queue: self.queue.push(key),
            map: self.map.insert(key, value),
            capacity: self.capacity,
        };
        vstd::seq_lib::lemma_seq_contains_after_push(self.queue, key, key);
        assert(grown.queue.no_duplicates());
        assert(grown.map.dom() =~= grown.queue.to_set()) by {
            assert forall|k: u64| grown.queue.to_set().contains(k) <==> grown.map.dom().contains(
                k,
            ) by {
                vstd::seq_lib::lemma_seq_contains_after_push(self.queue, key, k);
                assert(self.queue.to_set().contains(k) <==> self.queue.contains(k));
                assert(grown.queue.to_set().contains(k) <==> grown.queue.contains(k));
            }
        }
        assert(!self.map.dom().contains(key)) by {
            assert(self.queue.to_set().contains(key) <==> self.queue.contains(key));
        }
        assert(grown.map.len() == self.queue.len() + 1);
        if grown.map.len() > grown.capacity {
            assert(self.queue.len() == self.capacity);
            let rest = grown.without_oldest();
            let oldest = grown.queue[0];
            assert(grown.queue.contains(oldest));
            assert(rest.queue =~= latest(grown.queue, self.capacity));
            assert(rest.queue.no_duplicates()) by {
                assert forall|i: int, j: int|
                    0 <= i < rest.queue.len() && 0 <= j < rest.queue.len() && i != j implies rest.queue[i]
                    != rest.queue[j] by {
                    assert(rest.queue[i] == grown.queue[i + 1]);
                    assert(rest.queue[j] == grown.queue[j + 1]);
                }
            }
            assert(rest.map.dom() =~= rest.queue.to_set()) by {
                assert forall|k: u64| rest.queue.to_set().contains(k) <==> rest.map.dom().contains(
                    k,
                ) by {
                    assert(rest.queue.to_set().contains(k) <==> rest.queue.contains(k));
                    assert(grown.queue.to_set().contains(k) <==> grown.queue.contains(k));
                    if rest.queue.contains(k) {
                        let i = choose|i: int| 0 <= i < rest.queue.len() && rest.queue[i] == k;
                        assert(grown.queue[i + 1] == k);
                        assert(k != oldest);
                    }
                    if grown.queue.contains(k) && k != oldest {
                        let i = choose|i: int| 0 <= i < grown.queue.len() && grown.queue[i] == k;
                        assert(rest.queue[i - 1] == k);
                    }
                }
            }
            assert(grown.map.dom().contains(oldest));
            assert(rest.map.len() == self.capacity);
            assert(rest.evicted() == rest);
            assert(grown.evicted() == rest);
        } else {
            assert(grown.evicted() == grown);
            assert(grown.queue =~= latest(grown.queue, self.capacity));
        }
    }

    /// Eviction takes keys away and adds none; it changes nothing where the
    /// table holds no more entries than it may, and else leaves as many as the
    /// table may hold.
    pub proof fn lemma_evicted_size(self)
        requires
            self.linked(),
        ensures
            self.evicted().map.dom().subset_of(self.map.dom()),
            self.map.len() <= self.capacity ==> self.evicted() == self,
            self.map.len() > self.capacity ==> self.evicted().map.len() == self.capacity,
        decreases self.queue.len(),
    {
        broadcast use vstd::set::group_set_axioms, vstd::map::group_map_axioms;

        if self.map.len() > self.capacity && self.queue.len() > 0 {
            let rest = self.without_oldest();
            self.lemma_without_oldest_linked();
            rest.lemma_evicted_size();
            assert(rest.map.dom() =~= self.map.dom().remove(self.queue[0]));
        } else if self.map.len() > self.capacity {
            self.lemma_linked_nonempty();
        }
    }

    /// Eviction keeps the entry of the newest key of a table that may hold an
    /// entry, where that key waits nowhere else in the queue.
    pub proof fn lemma_evicted_keeps_newest(self, key: u64)
        requires
            self.linked(),
            self.capacity > 0,
            self.queue.len() > 0,
            self.queue.last() == key,
            !self.queue.drop_last().contains(key),
            self.map.contains_key(key),
        ensures
            self.evicted().map.contains_key(key),
            self.evicted().map[key] == self.map[key],
        decreases self.queue.len(),
    {
        broadcast use vstd::set::group_set_axioms, vstd::map::group_map_axioms;

        if self.map.len() > self.capacity && self.queue.len() > 0 {
            if self.queue.len() == 1 {
                assert forall|k: u64| self.map.dom().contains(k) implies set![key].contains(k) by {
                    assert(self.queue.contains(k));
                }
                vstd::set_lib::lemma_len_subset(self.map.dom(), set![key]);
                assert(set![key].len() == 1);
            } else {
                let rest = self.without_oldest();
                self.lemma_without_oldest_linked();
                assert(self.queue.drop_last()[0] == self.queue[0]);
                assert(self.queue[0] != key);
                assert(rest.queue.drop_last() =~= self.queue.drop_last().drop_first());
                assert(!rest.queue.drop_last().contains(key)) by {
                    if rest.queue.drop_last().contains(key) {
                        let i = choose|i: int|
                            0 <= i < rest.queue.drop_last().len() && rest.queue.drop_last()[i]
                                == key;
                        assert(self.queue.drop_last()[i + 1] == key);
                    }
                }
                rest.lemma_evicted_keeps_newest(key);
            }
        }
    }

    /// After an insertion into a table that may hold an entry, the table
    /// holds the value under the key, where the table held the key before or
    /// the key did not wait in the queue.
    pub proof fn lemma_inserted_contains(self, key: u64, value: V)
        requires
            self.wf(),
            self.capacity > 0,
            self.map.contains_key(key) || !self.queue.contains(key),
        ensures
            self.inserted(key, value).map.contains_key(key),
            self.inserted(key, value).map[key] == value,
    {
        broadcast use vstd::set::group_set_axioms, vstd::map::group_map_axioms;

        let grown = TableView {
            queue: self.queue.push(key),
            map: self.map.insert(key, value),
            capacity: self.capacity,
        };
        assert forall|k: u64| grown.map.contains_key(k) implies grown.queue.contains(k) by {
            vstd::seq_lib::lemma_seq_contains_after_push(self.queue, key, k);
        }
        if self.map.contains_key(key) {
            assert(grown.map.dom() =~= self.map.dom());
            grown.lemma_evicted_size();
        } else {
            assert(grown.queue.drop_last() =~= self.queue);
            grown.lemma_evicted_keeps_newest(key);
        }
    }

    /// After any entries have been inserted into an empty table, the table
    /// holds as many entries as keys were inserted, counting each key once,
    /// or as many as it may hold where that is fewer.  It holds no key that
    /// was not inserted.
    pub proof fn lemma_size(capacity: nat, entries: Seq<(u64, V)>)
        ensures
            ({
                let table = Self::empty(capacity).inserted_all(entries);
                let keys = keys_of(entries).to_set();
                &&& table.wf()
                &&& table.capacity == capacity
                &&& table.map.dom().subset_of(keys)
                &&& table.map.len() == if keys.len() <= capacity {
                    keys.len()
                } else {
                    capacity
                }
                &&& keys.len() <= capacity ==> table.map.dom() =~= keys
            }),
        decreases entries.len(),
    {
        broadcast use
            vstd::set::group_set_axioms,
            vstd::map::group_map_axioms,
            vstd::seq_lib::seq_to_set_is_finite,
        ;

        let start = Self::empty(capacity);
        let table = start.inserted_all(entries);
        let keys = keys_of(entries).to_set();
        if entries.len() == 0 {
            assert(keys =~= Set::<u64>::empty());
            assert(start.map.dom() =~= Set::<u64>::empty());
        } else {
            let front = entries.drop_last();
            let (key, value) = entries.last();
            Self::lemma_size(capacity, front);
            let before = start.inserted_all(front);
            let keys_before = keys_of(front).to_set();
            assert(keys_of(entries) =~= keys_of(front).push(key));
            keys_of(front).lemma_push_to_set_commute(key);
            assert(keys =~= keys_before.insert(key));
            before.lemma_inserted_wf(key, value);
            let grown = TableView {
                queue: before.queue.push(key),
                map: before.map.insert(key, value),
                capacity,
            };
            assert(grown.linked()) by {
                assert forall|k: u64| grown.map.contains_key(k) implies grown.queue.contains(
                    k,
                ) by {
                    vstd::seq_lib::lemma_seq_contains_after_push(before.queue, key, k);
                }
            }
            grown.lemma_evicted_size();
            assert(table == grown.evicted());
            assert(grown.map.dom() =~= before.map.dom().insert(key));
            assert(grown.map.dom().subset_of(keys));
            vstd::set_lib::lemma_len_subset(table.map.dom(), keys);
            vstd::set_lib::lemma_len_subset(grown.map.dom(), keys);
            vstd::set_lib::lemma_len_subset(keys_before, keys);
            if keys_before.len() <= capacity {
                assert(grown.map.dom() =~= keys);
            }
        }
    }

    /// After entries with keys that are all different have been inserted into
    /// an empty table, the table holds the latest of them, as many as it may
    /// hold: their keys wait in the queue in the order in which they came, and
    /// the map holds exactly these keys, each with its value.
    pub proof fn lemma_capacity(capacity: nat, entries: Seq<(u64, V)>)
        requires
            keys_of(entries).no_duplicates(),
        ensures
            ({
                let table = Self::empty(capacity).inserted_all(entries);
                let kept = latest(entries, capacity);
                &&& table.tidy()
                &&& table.capacity == capacity
                &&& table.queue == keys_of(kept)
                &&& table.map.dom() =~= keys_of(kept).to_set()
                &&& table.map.len() == if entries.len() <= capacity {
                    entries.len()
                } else {
                    capacity
                }
                &&& forall|i: int| 0 <= i < kept.len() ==> table.map[(#[trigger] kept[i]).0] == kept[i].1
            }),
        decreases entries.len(),
    {
        broadcast use vstd::set::group_set_axioms, vstd::map::group_map_axioms;

        let start = Self::empty(capacity);
        let table = start.inserted_all(entries);
        let kept = latest(entries, capacity);
        if entries.len() == 0 {
            assert(keys_of(kept) =~= Seq::<u64>::empty());
            assert(start.map.dom() =~= start.queue.to_set());
        } else {
            let front = entries.drop_last();
            let (key, value) = entries.last();
            assert(keys_of(front) =~= keys_of(entries).drop_last());
            assert(keys_of(front).no_duplicates());
            Self::lemma_capacity(capacity, front);
            let before = start.inserted_all(front);
            let kept_before = latest(front, capacity);
            assert(!before.queue.contains(key)) by {
                if before.queue.contains(key) {
                    let i = choose|i: int| 0 <= i < before.queue.len() && before.queue[i] == key;
                    let at = front.len() - kept_before.len() + i;
                    assert(kept_before[i] == front[at]);
                    assert(keys_of(entries)[at] == key);
                    assert(keys_of(entries)[entries.len() - 1] == key);
                }
            }
            before.lemma_insert_fresh(key, value);
            assert(table == before.inserted(key, value));
            assert(table.queue =~= keys_of(kept)) by {
                assert(before.queue.push(key) =~= keys_of(kept_before.push((key, value))));
                assert(latest(kept_before.push((key, value)), capacity) =~= kept);
            }
            assert forall|i: int| 0 <= i < kept.len() implies table.map[(#[trigger] kept[i]).0]
                == kept[i].1 by {
                let k = kept[i].0;
                assert(table.queue[i] == k);
                assert(table.queue.to_set().contains(k));
                assert(table.map.contains_key(k));
                if i == kept.len() - 1 {
                    assert(kept[i] == (key, value));
                } else {
                    let shift = kept_before.len() + 1 - kept.len();
                    assert(kept[i] == kept_before[i + shift]);
                    assert(k != key) by {
                        let at = front.len() - kept_before.len() + i + shift;
                        assert(keys_of(entries)[at] == k);
                        assert(keys_of(entries)[entries.len() - 1] == key);
                    }
                }
            }
        }
    }
}

/// A table from positions to values, keyed by the Zobrist hash of the
/// position.  It is made for a budget of bytes and drops its oldest keys when
/// it holds more entries than fit in the budget.
pub struct ZobristHashMap<V> {
    map: HashMap<u64, V, BuildNoHashHasher<u64>>,
    zobrist_table: ZobristValues,
    keys: VecDeque<u64>,
    capacity: usize,
}

impl<V> View for ZobristHashMap<V> {
    type V = TableView<V>;

    closed spec fn view(&self) -> TableView<V> {
        TableView { queue: self.keys@, map: self.map@, capacity: self.capacity as nat }
    }
}

impl<V> ZobristHashMap<V> {
    /// The random numbers by which the table hashes positions.
    pub closed spec fn zobrist(&self) -> ZobristKeys {
        self.zobrist_table@
    }

    /// The key under which the table files a position.
    pub open spec fn key_of(&self, position: PositionView) -> u64 {
        self.zobrist().position_hash(position)
    }

    /// What holds of a table even while it holds an entry too many: it is
    /// linked, it has all its random numbers, and its hasher hashes equal keys
    /// alike.
    pub closed spec fn inv(&self) -> bool {
        &&& self@.linked()
        &&& self.zobrist_table@.wf()
        &&& builds_valid_hashers::<BuildNoHashHasher<u64>>()
    }

    /// What every table that this module hands out satisfies.
    pub closed spec fn wf(&self) -> bool {
        self.inv() && self@.map.len() <= self@.capacity
    }

    /// Proves what `wf` says of the view.
    pub proof fn lemma_wf(&self)
        requires
            self.wf(),
        ensures
            self.inv(),
            self@.wf(),
            self.zobrist().wf(),
    {
    }

    /// An empty table for a budget of bytes, with fresh random numbers.
    pub fn new(byte_size: usize) -> (table: Self)
        ensures
            table.wf(),
            table@.queue == Seq::<u64>::empty(),
            table@.map == Map::<u64, V>::empty(),
            table@.capacity == byte_size as int / (8 + size_of::<V>()) as int,
    {
        Self::with_values(byte_size, init_zobrist())
    }

    /// An empty table for a budget of bytes that hashes by the given random
    /// numbers.
    pub fn with_values(byte_size: usize, zobrist_table: ZobristValues) -> (table: Self)
        requires
            zobrist_table@.wf(),
        ensures
            table.wf(),
            table.zobrist() == zobrist_table@,
            table@.queue == Seq::<u64>::empty(),
            table@.map == Map::<u64, V>::empty(),
            table@.capacity == byte_size as int / (8 + size_of::<V>()) as int,
    {
        broadcast use vstd::layout::layout_of_primitives;

        let capacity = bytes_to_capacity::<u64, V>(byte_size);
        let builder = identity_hash_builder();
        ZobristHashMap {
            map: HashMap::with_hasher(builder),
            zobrist_table,
            keys: VecDeque::with_capacity(capacity),
            capacity,
        }
    }

    /// The entries of the table.
    pub fn entries(&self) -> (map: &HashMap<u64, V, BuildNoHashHasher<u64>>)
        ensures
            map@ == self@.map,
    {
        &self.map
    }

    /// The Zobrist hash of a position under the table's random numbers.
    pub fn hash(&self, key: &Position) -> (hashd: u64)
        requires
            self.wf(),
        ensures
            hashd == self.key_of(key@),
    {
        hash(key, &self.zobrist_table)
    }

    /// Files a value under a position and returns the value that was filed
    /// under the same key before.
    pub fn insert(&mut self, key: &Position, value: V) -> (result: Option<V>)
        requires
            old(self).wf(),
        ensures
            final(self).wf(),
            final(self).zobrist() == old(self).zobrist(),
            final(self)@ == old(self)@.inserted(old(self).key_of(key@), value),
            result == (if old(self)@.map.contains_key(old(self).key_of(key@)) {
                Some(old(self)@.map[old(self).key_of(key@)])
            } else {
                None
            }),
    {
        let hashd = hash(key, &self.zobrist_table);
        self.insert_key(hashd, value)
    }

    /// Files a value under a key and returns the value that was filed under
    /// it before.
    pub fn insert_key(&mut self, hashd: u64, value: V) -> (result: Option<V>)
        requires
            old(self).wf(),
        ensures
            final(self).wf(),
            final(self).zobrist() == old(self).zobrist(),
            final(self)@ == old(self)@.inserted(hashd, value),
            result == (if old(self)@.map.contains_key(hashd) {
                Some(old(self)@.map[hashd])
            } else {
                None
            }),
    {
        broadcast use vstd::std_specs::hash::group_hash_axioms;

        proof {
            old(self)@.lemma_inserted_wf(hashd, value);
        }
        self.keys.push_back(hashd);
        let result = self.map.insert(hashd, value);
        proof {
            let grown = self@;
            assert forall|k: u64| grown.map.contains_key(k) implies grown.queue.contains(k) by {
                if k == hashd {
                    assert(grown.queue[old(self)@.queue.len() as int] == hashd);
                } else {
                    assert(old(self)@.queue.contains(k));
                    let i = choose|i: int| 0 <= i < old(self)@.queue.len() && old(self)@.queue[i] == k;
                    assert(grown.queue[i] == k);
                }
            }
        }
        self.remove_oldest_if_full();
        result
    }

    /// Whether a value is filed under the key.
    pub fn contains_key(&self, hashd: u64) -> (found: bool)
        requires
            self.wf(),
        ensures
            found == self@.map.contains_key(hashd),
    {
        broadcast use vstd::std_specs::hash::group_hash_axioms;

        self.map.contains_key(&hashd)
    }

    /// The value filed under the key.
    pub fn get_key(&self, hashd: u64) -> (found: Option<&V>)
        requires
            self.wf(),
        ensures
            match found {
                Some(value) => self@.map.contains_key(hashd) && *value == self@.map[hashd],
                None => !self@.map.contains_key(hashd),
            },
    {
        broadcast use vstd::std_specs::hash::group_hash_axioms;

        self.map.get(&hashd)
    }

    /// Whether a value is filed under the position.
    pub fn contains(&self, key: &Position) -> (found: bool)
        requires
            self.wf(),
        ensures
            found == self@.map.contains_key(self.key_of(key@)),
    {
        broadcast use vstd::std_specs::hash::group_hash_axioms;

        let hashd = hash(key, &self.zobrist_table);
        self.map.contains_key(&hashd)
    }

    /// The value filed under the position.
    pub fn get(&self, key: &Position) -> (found: Option<&V>)
        requires
            self.wf(),
        ensures
            match found {
                Some(value) => self@.map.contains_key(self.key_of(key@)) && *value
                    == self@.map[self.key_of(key@)],
                None => !self@.map.contains_key(self.key_of(key@)),
            },
    {
        broadcast use vstd::std_specs::hash::group_hash_axioms;

        let hashd = hash(key, &self.zobrist_table);
        self.map.get(&hashd)
    }

    /// The number of entries.
    pub fn len(&self) -> (n: usize)
        requires
            self.wf(),
        ensures
            n == self@.map.len(),
            n <= self@.capacity,
    {
        broadcast use vstd::std_specs::hash::group_hash_axioms;

        self.map.len()
    }

    /// Drops the oldest keys, one by one, while the table holds more entries
    /// than it may.
    pub fn remove_oldest_if_full(&mut self)
        requires
            old(self).inv(),
        ensures
            final(self).wf(),
            final(self).zobrist() == old(self).zobrist(),
            final(self)@ == old(self)@.evicted(),
    {
        broadcast use vstd::std_specs::hash::group_hash_axioms;

        proof {
            old(self)@.lemma_evicted_wf();
        }
        while self.map.len() > self.capacity
            invariant
                self@.linked(),
                self.zobrist_table == old(self).zobrist_table,
                self.capacity == old(self).capacity,
                self@.evicted() == old(self)@.evicted(),
                old(self)@.evicted().wf(),
                builds_valid_hashers::<BuildNoHashHasher<u64>>(),
            decreases self.keys@.len(),
        {
            proof {
                self@.lemma_linked_nonempty();
                self@.lemma_without_oldest_linked();
            }
            let ghost before = self@;
            match self.keys.pop_front() {
                Some(key) => {
                    self.map.remove(&key);
                    assert(self@ == before.without_oldest());
                },
                None => {},
            }
        }
    }
}

} // verus!
