//! The managed heap: chunked storage for nodes, a free list, handle
//! accounting, and explicit mark-and-sweep collection.
//!
//! A [`Context`] owns an ordered sequence of chunks of [`StorageEntry`].
//! The first chunk holds 1024 entries and each later chunk doubles the last,
//! up to 1024 * 1024. A chunk is never resized, moved or freed, so a
//! [`NodeId`] — chunk index plus slot index — is a stable address for as
//! long as the heap lives.
//!
//! Each entry packs its owner heap id and a mark bit into one 32-bit cell
//! (the top bit is the mark; owner id 0 means the slot is free) next to a
//! 32-bit handle refcount and the node payload itself.

use vstd::prelude::*;
use crate::atom_table::{Atom, AtomTable};
use crate::node::{build_node, collect_children, template_children, template_node};
use crate::node::{Node, NodeId, NodeTemplate};
use crate::source::SourceManager;

verus! {

/// Capacity of a heap's first chunk.
pub const MIN_CHUNK_CAPACITY: usize = 1024;

/// Largest capacity a chunk may have; doubling stops here.
pub const MAX_CHUNK_CAPACITY: usize = 1048576;

/// The capacity of chunk `i`: 1024 for the first chunk, then doubling up to
/// the cap of 1024 * 1024.
pub open spec fn cap_of(i: int) -> int
    decreases i,
{
    if i <= 0 {
        1024
    } else if cap_of(i - 1) < 1048576 {
        2 * cap_of(i - 1)
    } else {
        cap_of(i - 1)
    }
}

/// The values a chunk capacity can take: 1024 doubled up to the cap.
pub open spec fn is_chunk_cap(n: int) -> bool {
    ||| n == 1024
    ||| n == 2048
    ||| n == 4096
    ||| n == 8192
    ||| n == 16384
    ||| n == 32768
    ||| n == 65536
    ||| n == 131072
    ||| n == 262144
    ||| n == 524288
    ||| n == 1048576
}

/// Chunk capacities stay between the first capacity and the cap.
pub proof fn lemma_cap_of_bounds(i: int)
    ensures
        1024 <= cap_of(i) <= 1048576,
        is_chunk_cap(cap_of(i)),
    decreases i,
{
    if i > 0 {
        lemma_cap_of_bounds(i - 1);
    }
}

/// A single slot of the heap: header plus node payload.
pub struct StorageEntry {
    /// Owner heap id in the low 31 bits, mark bit on top. Zero means free.
    pub ctx_id_markbit: u32,
    /// How many handles point at this entry.
    pub count: u32,
    /// The node stored in this entry.
    pub inner: Node,
}

impl StorageEntry {
    /// The owner heap id: the cell without its mark bit.
    pub open spec fn spec_owner(&self) -> u32 {
        self.ctx_id_markbit & 0x7FFF_FFFF
    }

    /// The mark bit: the cell's top bit.
    pub open spec fn spec_markbit(&self) -> bool {
        (self.ctx_id_markbit >> 31) != 0
    }

    /// A free slot has the whole cell zeroed.
    pub open spec fn spec_is_free(&self) -> bool {
        self.ctx_id_markbit == 0
    }

    /// Set the mark bit, leaving the owner id untouched.
    pub fn set_markbit(&mut self, bit: bool)
        ensures
            final(self).spec_owner() == old(self).spec_owner(),
            final(self).spec_markbit() == bit,
            final(self).count == old(self).count,
            final(self).inner == old(self).inner,
    {
        let id = self.ctx_id_markbit;
        if bit {
            self.ctx_id_markbit = id | 0x8000_0000;
            proof {
                assert((id | 0x8000_0000u32) & 0x7FFF_FFFFu32 == id & 0x7FFF_FFFFu32) by (bit_vector);
                assert(((id | 0x8000_0000u32) >> 31) != 0) by (bit_vector);
            }
        } else {
            self.ctx_id_markbit = id & 0x7FFF_FFFF;
            proof {
                assert((id & 0x7FFF_FFFFu32) & 0x7FFF_FFFFu32 == id & 0x7FFF_FFFFu32) by (bit_vector);
                assert(((id & 0x7FFF_FFFFu32) >> 31) == 0) by (bit_vector);
            }
        }
    }

    /// Read the mark bit.
    pub fn markbit(&self) -> (b: bool)
        ensures
            b == self.spec_markbit(),
    {
        (self.ctx_id_markbit >> 31) != 0
    }

    /// Whether this slot is free.
    pub fn is_free(&self) -> (b: bool)
        ensures
            b == self.spec_is_free(),
    {
        self.ctx_id_markbit == 0
    }
}

/// Sum of the handle refcounts of one chunk.
pub open spec fn row_count_sum(row: Seq<StorageEntry>) -> int
    decreases row.len(),
{
    if row.len() == 0 {
        0
    } else {
        row_count_sum(row.drop_last()) + row.last().count
    }
}

/// Sum of the handle refcounts of a whole heap.
pub open spec fn chunks_count_sum(ch: Seq<Seq<StorageEntry>>) -> int
    decreases ch.len(),
{
    if ch.len() == 0 {
        0
    } else {
        chunks_count_sum(ch.drop_last()) + row_count_sum(ch.last())
    }
}

proof fn lemma_row_sum_update(row: Seq<StorageEntry>, i: int, e: StorageEntry)
    requires
        0 <= i < row.len(),
    ensures
        row_count_sum(row.update(i, e)) == row_count_sum(row) - row[i].count + e.count,
    decreases row.len(),
{
    let r2 = row.update(i, e);
    if i == row.len() - 1 {
        assert(r2.drop_last() =~= row.drop_last());
    } else {
        assert(r2.drop_last() =~= row.drop_last().update(i, e));
        lemma_row_sum_update(row.drop_last(), i, e);
    }
}

proof fn lemma_chunks_sum_update(ch: Seq<Seq<StorageEntry>>, c: int, row: Seq<StorageEntry>)
    requires
        0 <= c < ch.len(),
    ensures
        chunks_count_sum(ch.update(c, row)) == chunks_count_sum(ch) - row_count_sum(ch[c])
            + row_count_sum(row),
    decreases ch.len(),
{
    let c2 = ch.update(c, row);
    if c == ch.len() - 1 {
        assert(c2.drop_last() =~= ch.drop_last());
    } else {
        assert(c2.drop_last() =~= ch.drop_last().update(c, row));
        lemma_chunks_sum_update(ch.drop_last(), c, row);
    }
}

proof fn lemma_row_sum_push(row: Seq<StorageEntry>, e: StorageEntry)
    ensures
        row_count_sum(row.push(e)) == row_count_sum(row) + e.count,
{
    assert(row.push(e).drop_last() =~= row);
}

proof fn lemma_chunks_sum_push(ch: Seq<Seq<StorageEntry>>, row: Seq<StorageEntry>)
    ensures
        chunks_count_sum(ch.push(row)) == chunks_count_sum(ch) + row_count_sum(row),
{
    assert(ch.push(row).drop_last() =~= ch);
}

proof fn lemma_row_sum_bound(row: Seq<StorageEntry>, i: int)
    requires
        0 <= i < row.len(),
    ensures
        row_count_sum(row) >= row[i].count,
        row_count_sum(row) >= 0,
    decreases row.len(),
{
    lemma_row_sum_nonneg(row.drop_last());
    if i < row.len() - 1 {
        lemma_row_sum_bound(row.drop_last(), i);
    }
}

proof fn lemma_row_sum_nonneg(row: Seq<StorageEntry>)
    ensures
        row_count_sum(row) >= 0,
    decreases row.len(),
{
    if row.len() > 0 {
        lemma_row_sum_nonneg(row.drop_last());
    }
}

proof fn lemma_chunks_sum_nonneg(ch: Seq<Seq<StorageEntry>>)
    ensures
        chunks_count_sum(ch) >= 0,
    decreases ch.len(),
{
    if ch.len() > 0 {
        lemma_chunks_sum_nonneg(ch.drop_last());
        lemma_row_sum_nonneg(ch.last());
    }
}

proof fn lemma_chunks_sum_bound(ch: Seq<Seq<StorageEntry>>, c: int, s: int)
    requires
        0 <= c < ch.len(),
        0 <= s < ch[c].len(),
    ensures
        chunks_count_sum(ch) >= ch[c][s].count,
        chunks_count_sum(ch) >= 0,
    decreases ch.len(),
{
    lemma_chunks_sum_nonneg(ch.drop_last());
    lemma_row_sum_nonneg(ch.last());
    if c == ch.len() - 1 {
        lemma_row_sum_bound(ch[c], s);
    } else {
        lemma_chunks_sum_bound(ch.drop_last(), c, s);
    }
}

/// Two heaps of the same shape have equal count sums when every slot's count
/// agrees.
proof fn lemma_row_sum_same(r1: Seq<StorageEntry>, r2: Seq<StorageEntry>)
    requires
        r1.len() == r2.len(),
        forall|i: int| 0 <= i < r1.len() ==> r1[i].count == r2[i].count,
    ensures
        row_count_sum(r1) == row_count_sum(r2),
    decreases r1.len(),
{
    if r1.len() > 0 {
        lemma_row_sum_same(r1.drop_last(), r2.drop_last());
    }
}

proof fn lemma_chunks_sum_same(c1: Seq<Seq<StorageEntry>>, c2: Seq<Seq<StorageEntry>>)
    requires
        c1.len() == c2.len(),
        forall|c: int| 0 <= c < c1.len() ==> c1[c].len() == c2[c].len(),
        forall|c: int, s: int| 0 <= c < c1.len() && 0 <= s < c1[c].len() ==> c1[c][s].count
            == c2[c][s].count,
    ensures
        chunks_count_sum(c1) == chunks_count_sum(c2),
    decreases c1.len(),
{
    if c1.len() > 0 {
        lemma_chunks_sum_same(c1.drop_last(), c2.drop_last());
        lemma_row_sum_same(c1.last(), c2.last());
    }
}

proof fn lemma_row_sum_zero(row: Seq<StorageEntry>)
    requires
        forall|i: int| 0 <= i < row.len() ==> row[i].count == 0,
    ensures
        row_count_sum(row) == 0,
    decreases row.len(),
{
    if row.len() > 0 {
        lemma_row_sum_zero(row.drop_last());
    }
}

proof fn lemma_chunks_sum_zero(ch: Seq<Seq<StorageEntry>>)
    requires
        forall|c: int, s: int| 0 <= c < ch.len() && 0 <= s < ch[c].len() ==> ch[c][s].count == 0,
    ensures
        chunks_count_sum(ch) == 0,
    decreases ch.len(),
{
    if ch.len() > 0 {
        lemma_chunks_sum_zero(ch.drop_last());
        lemma_row_sum_zero(ch.last());
    }
}

/// Hands out heap ids from a monotonically increasing 32-bit counter
/// starting at 1, so every heap drawn from one counter has a distinct id.
pub struct ContextIdCounter {
    next: u32,
}

impl ContextIdCounter {
    /// The id the next heap will get.
    pub closed spec fn spec_next(&self) -> u32 {
        self.next
    }

    /// Ids stay in the 31-bit space that the packed owner cell can hold.
    pub open spec fn wf(&self) -> bool {
        1 <= self.spec_next() <= 0x8000_0000
    }

    /// A counter whose first id is 1.
    pub fn new() -> (r: ContextIdCounter)
        ensures
            r.wf(),
            r.spec_next() == 1,
    {
        ContextIdCounter { next: 1 }
    }

    /// Draw a fresh id.
    pub fn fresh_id(&mut self) -> (id: u32)
        requires
            old(self).wf(),
            old(self).spec_next() < 0x8000_0000,
        ensures
            final(self).wf(),
            id == old(self).spec_next(),
            final(self).spec_next() == id + 1,
            1 <= id < 0x8000_0000,
    {
        let id = self.next;
        self.next = id + 1;
        id
    }
}

/// Errors of the heap's access protocol. All three mark programming errors
/// that the checked entry points surface instead of corrupting the heap.
#[derive(Clone, Copy, PartialEq, Eq, Structural, Debug)]
pub enum HeapError {
    /// A handle was dereferenced through a session over a different heap.
    CrossHeapDereference {
        /// Id of the heap the handle belongs to.
        ptr_ctx: u32,
        /// Id of the heap the session views.
        gc_ctx: u32,
    },
    /// A second session was opened while one was already active.
    MultipleSessions,
    /// A heap was torn down while handles into it were still live.
    HeapDestroyedWithLiveHandles {
        /// The first entry, in chunk order, whose handle count is not zero.
        entry: NodeId,
    },
}

/// The storage for AST nodes: allocates nodes into chunks, reuses freed
/// slots, and reclaims unreachable nodes on explicit collection.
pub struct Context {
    /// Unique id of this heap; also stamped into every live entry.
    id: u32,
    /// The chunks. None is ever resized after allocation.
    chunks: Vec<Vec<StorageEntry>>,
    /// Capacity of each chunk, fixed at chunk creation.
    chunk_caps: Vec<usize>,
    /// Addresses of free slots available for reuse.
    free: Vec<NodeId>,
    /// Total number of live handles into this heap.
    handle_count: u64,
    /// Capacity the next chunk will get.
    next_chunk_capacity: usize,
    /// All identifiers are kept here.
    atom_tab: AtomTable,
    /// Source manager of this heap.
    source_mgr: SourceManager,
    /// Which mark-bit value currently means "marked"; flips every collection.
    markbit_marked: bool,
    /// Whether strict mode has been forced.
    strict_mode: bool,
}

impl Context {
    /// This heap's id.
    pub closed spec fn spec_id(&self) -> u32 {
        self.id
    }

    /// The chunks, as a sequence of sequences of entries.
    pub closed spec fn chunks_seq(&self) -> Seq<Seq<StorageEntry>> {
        self.chunks@.map_values(|v: Vec<StorageEntry>| v@)
    }

    /// The fixed capacity of each chunk.
    pub closed spec fn caps_seq(&self) -> Seq<usize> {
        self.chunk_caps@
    }

    /// The free list: addresses available for reuse, oldest first.
    pub closed spec fn free_list(&self) -> Seq<NodeId> {
        self.free@
    }

    /// Total number of live handles into this heap.
    pub closed spec fn handle_total(&self) -> u64 {
        self.handle_count
    }

    /// Capacity the next chunk will get.
    pub closed spec fn next_cap(&self) -> usize {
        self.next_chunk_capacity
    }

    /// Which mark-bit value currently means "marked".
    pub closed spec fn polarity(&self) -> bool {
        self.markbit_marked
    }

    /// Whether strict mode has been forced.
    pub closed spec fn strict(&self) -> bool {
        self.strict_mode
    }

    /// This heap's atom table.
    pub closed spec fn spec_atoms(&self) -> AtomTable {
        self.atom_tab
    }

    /// The interned strings of this heap's atom table.
    pub open spec fn atoms_view(&self) -> Seq<Seq<char>> {
        self.spec_atoms().atoms_seq()
    }

    /// This heap's source manager.
    pub closed spec fn spec_sm(&self) -> SourceManager {
        self.source_mgr
    }

    /// How many chunks the heap has.
    pub open spec fn num_chunks(&self) -> int {
        self.chunks_seq().len() as int
    }

    /// How many entries chunk `c` holds.
    pub open spec fn chunk_len(&self, c: int) -> int {
        self.chunks_seq()[c].len() as int
    }

    /// Whether `id` addresses an existing slot.
    pub open spec fn valid_id(&self, id: NodeId) -> bool {
        &&& (id.chunk as int) < self.num_chunks()
        &&& (id.slot as int) < self.chunk_len(id.chunk as int)
    }

    /// The entry at address `id`.
    pub open spec fn entry_at(&self, id: NodeId) -> StorageEntry {
        self.chunks_seq()[id.chunk as int][id.slot as int]
    }

    /// Whether `id` addresses a live (non-free) entry.
    pub open spec fn is_live(&self, id: NodeId) -> bool {
        self.valid_id(id) && !self.entry_at(id).spec_is_free()
    }

    /// Owner id stamped on the entry at `id`.
    pub open spec fn owner_of(&self, id: NodeId) -> u32 {
        self.entry_at(id).spec_owner()
    }

    /// Mark bit of the entry at `id`.
    pub open spec fn mark_of(&self, id: NodeId) -> bool {
        self.entry_at(id).spec_markbit()
    }

    /// Handle refcount of the entry at `id`.
    pub open spec fn count_of(&self, id: NodeId) -> u32 {
        self.entry_at(id).count
    }

    /// The node stored at `id`.
    pub open spec fn node_at(&self, id: NodeId) -> Node {
        self.entry_at(id).inner
    }

    /// The child addresses of the node stored at `id`.
    pub open spec fn children_at(&self, id: NodeId) -> Seq<NodeId> {
        crate::node::node_children(self.node_at(id))
    }

    /// A root: a live entry some handle points at.
    pub open spec fn is_root(&self, id: NodeId) -> bool {
        self.is_live(id) && self.count_of(id) > 0
    }

    /// One step of reachability: `b` is a child of the live entry `a`.
    pub open spec fn step(&self, a: NodeId, b: NodeId) -> bool {
        self.is_live(a) && self.children_at(a).contains(b)
    }

    /// A path: starts at a root and follows child edges.
    pub open spec fn is_path(&self, p: Seq<NodeId>) -> bool {
        &&& 0 < p.len()
        &&& self.is_root(p[0])
        &&& forall|i: int| 0 <= i < p.len() - 1 ==> #[trigger] self.step(p[i], p[i + 1])
    }

    /// Reachable from the handles: some path from a root ends at `id`.
    pub open spec fn reachable(&self, id: NodeId) -> bool {
        exists|p: Seq<NodeId>| self.is_path(p) && p.last() == id
    }

    /// Whether a template's children all address live entries of this heap.
    pub open spec fn template_ok(&self, t: NodeTemplate) -> bool {
        forall|j: int| 0 <= j < template_children(t).len() ==> self.is_live(
            #[trigger] template_children(t)[j],
        )
    }

    /// The heap's internal invariant: chunk capacities follow the doubling
    /// rule and earlier chunks are full; live entries carry this heap's id,
    /// rest unmarked, and live children; free slots are exactly the free
    /// list; and the handle counter equals the sum of all entry refcounts.
    pub open spec fn wf(&self) -> bool {
        self.heap_wf() && self.spec_atoms().wf()
    }

    /// The storage part of the invariant, independent of the atom table.
    pub open spec fn heap_wf(&self) -> bool {
        &&& 1 <= self.spec_id() < 0x8000_0000
        &&& self.num_chunks() >= 1
        &&& self.caps_seq().len() == self.num_chunks()
        &&& forall|c: int| 0 <= c < self.num_chunks() ==> #[trigger] self.caps_seq()[c] == cap_of(c)
        &&& forall|c: int| 0 <= c < self.num_chunks() ==> #[trigger] self.chunk_len(c)
            <= self.caps_seq()[c]
        &&& forall|c: int| 0 <= c < self.num_chunks() - 1 ==> #[trigger] self.chunk_len(c)
            == self.caps_seq()[c]
        &&& self.next_cap() == cap_of(self.num_chunks())
        &&& forall|id: NodeId| #[trigger] self.is_live(id) ==> self.owner_of(id) == self.spec_id()
        &&& forall|id: NodeId| #[trigger] self.is_live(id) ==> self.mark_of(id) == !self.polarity()
        &&& forall|id: NodeId, j: int|
            self.is_live(id) && 0 <= j < self.children_at(id).len() ==> self.is_live(
                #[trigger] self.children_at(id)[j],
            )
        &&& forall|id: NodeId|
            self.valid_id(id) && self.entry_at(id).spec_is_free() ==> self.count_of(id) == 0
                && self.free_list().contains(id)
        &&& forall|i: int| 0 <= i < self.free_list().len() ==> self.valid_id(
            #[trigger] self.free_list()[i],
        ) && self.entry_at(self.free_list()[i]).spec_is_free()
        &&& forall|i: int, j: int| 0 <= i < j < self.free_list().len() ==> self.free_list()[i]
            != self.free_list()[j]
        &&& self.handle_total() == chunks_count_sum(self.chunks_seq())
    }

    /// The storage invariant transfers between two heap values whose storage
    /// views agree, whatever their atom tables and source managers hold.
    pub proof fn lemma_heap_wf_transfer(pre: Context, post: Context)
        requires
            pre.heap_wf(),
            post.spec_id() == pre.spec_id(),
            post.chunks_seq() == pre.chunks_seq(),
            post.caps_seq() == pre.caps_seq(),
            post.free_list() == pre.free_list(),
            post.handle_total() == pre.handle_total(),
            post.next_cap() == pre.next_cap(),
            post.polarity() == pre.polarity(),
        ensures
            post.heap_wf(),
    {
        assert forall|c: int| 0 <= c < post.num_chunks() implies #[trigger] post.caps_seq()[c]
            == cap_of(c) by {
            assert(pre.caps_seq()[c] == cap_of(c));
        }
        assert forall|c: int| 0 <= c < post.num_chunks() implies #[trigger] post.chunk_len(c)
            <= post.caps_seq()[c] by {
            assert(pre.chunk_len(c) <= pre.caps_seq()[c]);
        }
        assert forall|c: int| 0 <= c < post.num_chunks() - 1 implies #[trigger] post.chunk_len(c)
            == post.caps_seq()[c] by {
            assert(pre.chunk_len(c) == pre.caps_seq()[c]);
        }
        assert forall|id: NodeId| #[trigger] post.is_live(id) implies post.owner_of(id)
            == post.spec_id() && post.mark_of(id) == !post.polarity() by {
            assert(pre.is_live(id));
        }
        assert forall|id: NodeId, j: int|
            post.is_live(id) && 0 <= j < post.children_at(id).len() implies post.is_live(
            #[trigger] post.children_at(id)[j],
        ) by {
            assert(pre.is_live(id));
            assert(pre.is_live(pre.children_at(id)[j]));
        }
        assert forall|id: NodeId|
            post.valid_id(id) && post.entry_at(id).spec_is_free() implies post.count_of(id) == 0
                && post.free_list().contains(id) by {
            assert(pre.valid_id(id) && pre.entry_at(id).spec_is_free());
            assert(pre.free_list().contains(id));
        }
        assert forall|i: int| 0 <= i < post.free_list().len() implies post.valid_id(
            #[trigger] post.free_list()[i],
        ) && post.entry_at(post.free_list()[i]).spec_is_free() by {
            assert(pre.valid_id(pre.free_list()[i]));
        }
    }

    /// Allocate a heap with the given id and an initial chunk of 1024
    /// entries. Callers draw ids from a [`ContextIdCounter`], so each heap in
    /// a process gets its own.
    pub fn new(id: u32) -> (r: Context)
        requires
            1 <= id < 0x8000_0000,
        ensures
            r.wf(),
            r.spec_id() == id,
            r.num_chunks() == 1,
            r.chunk_len(0) == 0,
            r.caps_seq()[0] == 1024,
            r.next_cap() == 2048,
            r.free_list().len() == 0,
            r.handle_total() == 0,
            r.polarity() == true,
            r.strict() == false,
            r.atoms_view().len() == 0,
    {
        let mut chunks: Vec<Vec<StorageEntry>> = Vec::new();
        chunks.push(Vec::new());
        let mut chunk_caps: Vec<usize> = Vec::new();
        chunk_caps.push(MIN_CHUNK_CAPACITY);
        let r = Context {
            id,
            chunks,
            chunk_caps,
            free: Vec::new(),
            handle_count: 0,
            next_chunk_capacity: 2 * MIN_CHUNK_CAPACITY,
            atom_tab: AtomTable::new(),
            source_mgr: SourceManager::new(),
            markbit_marked: true,
            strict_mode: false,
        };
        proof {
            assert(cap_of(0) == 1024);
            assert(cap_of(1) == 2048);
            assert(r.chunks_seq() =~= seq![Seq::<StorageEntry>::empty()]);
            assert(row_count_sum(Seq::<StorageEntry>::empty()) == 0);
            assert(r.chunks_seq().drop_last() =~= Seq::<Seq<StorageEntry>>::empty());
            assert(chunks_count_sum(Seq::<Seq<StorageEntry>>::empty()) == 0);
            assert(r.chunks_seq().last() =~= Seq::<StorageEntry>::empty());
            assert(chunks_count_sum(r.chunks_seq()) == chunks_count_sum(
                r.chunks_seq().drop_last(),
            ) + row_count_sum(r.chunks_seq().last()));
            assert(chunks_count_sum(r.chunks_seq()) == 0);
        }
        r
    }

    /// Return the atom table.
    pub fn atom_table(&self) -> (r: &AtomTable)
        ensures
            *r == self.spec_atoms(),
    {
        &self.atom_tab
    }

    /// Add a string to the identifier table.
    pub fn atom(&mut self, value: &str) -> (a: Atom)
        requires
            old(self).wf(),
            old(self).atoms_view().len() + 1 < u32::MAX,
        ensures
            final(self).wf(),
            1 <= a.0 <= final(self).atoms_view().len(),
            final(self).atoms_view()[a.0 - 1] == value@,
            old(self).atoms_view().contains(value@) ==> final(self).atoms_view() == old(
                self,
            ).atoms_view(),
            !old(self).atoms_view().contains(value@) ==> final(self).atoms_view() == old(
                self,
            ).atoms_view().push(value@) && a.0 == old(self).atoms_view().len() + 1,
            final(self).spec_id() == old(self).spec_id(),
            final(self).chunks_seq() == old(self).chunks_seq(),
            final(self).caps_seq() == old(self).caps_seq(),
            final(self).free_list() == old(self).free_list(),
            final(self).handle_total() == old(self).handle_total(),
            final(self).next_cap() == old(self).next_cap(),
            final(self).polarity() == old(self).polarity(),
            final(self).strict() == old(self).strict(),
            final(self).spec_sm() == old(self).spec_sm(),
    {
        let a = self.atom_tab.atom(value);
        proof {
            Context::lemma_heap_wf_transfer(*old(self), *self);
        }
        a
    }

    /// Obtain the contents of an atom from the atom table.
    pub fn str(&self, index: Atom) -> (r: &str)
        requires
            1 <= index.0 <= self.atoms_view().len(),
        ensures
            r@ == self.atoms_view()[index.0 - 1],
    {
        self.atom_tab.str(index)
    }

    /// Return an immutable reference to the source manager.
    pub fn sm(&self) -> (r: &SourceManager)
        ensures
            *r == self.spec_sm(),
    {
        &self.source_mgr
    }

    /// Return a mutable reference to the source manager.
    pub fn sm_mut(&mut self) -> (r: &mut SourceManager)
        ensures
            *r == old(self).spec_sm(),
            final(self).spec_sm() == *final(r),
            final(self).spec_id() == old(self).spec_id(),
            final(self).chunks_seq() == old(self).chunks_seq(),
            final(self).caps_seq() == old(self).caps_seq(),
            final(self).free_list() == old(self).free_list(),
            final(self).handle_total() == old(self).handle_total(),
            final(self).next_cap() == old(self).next_cap(),
            final(self).polarity() == old(self).polarity(),
            final(self).strict() == old(self).strict(),
            final(self).atoms_view() == old(self).atoms_view(),
    {
        &mut self.source_mgr
    }

    /// Return true if strict mode has been forced globally.
    pub fn strict_mode(&self) -> (r: bool)
        ensures
            r == self.strict(),
    {
        self.strict_mode
    }

    /// Enable strict mode. Note that it cannot be unset.
    pub fn enable_strict_mode(&mut self)
        ensures
            final(self).strict(),
            final(self).spec_id() == old(self).spec_id(),
            final(self).chunks_seq() == old(self).chunks_seq(),
            final(self).caps_seq() == old(self).caps_seq(),
            final(self).free_list() == old(self).free_list(),
            final(self).handle_total() == old(self).handle_total(),
            final(self).next_cap() == old(self).next_cap(),
            final(self).polarity() == old(self).polarity(),
            final(self).atoms_view() == old(self).atoms_view(),
            final(self).spec_sm() == old(self).spec_sm(),
            old(self).wf() ==> final(self).wf(),
    {
        self.strict_mode = true;
        proof {
            if old(self).heap_wf() {
                Context::lemma_heap_wf_transfer(*old(self), *self);
            }
        }
    }
}


/// Two heaps have the same storage shape: equally many chunks, with equal
/// capacities and equal lengths.
pub open spec fn same_shape(pre: Context, post: Context) -> bool {
    &&& post.num_chunks() == pre.num_chunks()
    &&& post.caps_seq() == pre.caps_seq()
    &&& forall|c: int| 0 <= c < pre.num_chunks() ==> #[trigger] post.chunk_len(c)
        == pre.chunk_len(c)
}

/// The parts of a heap no storage operation touches: id, polarity, strict
/// flag, atom table and source manager.
pub open spec fn same_config(pre: Context, post: Context) -> bool {
    &&& post.spec_id() == pre.spec_id()
    &&& post.polarity() == pre.polarity()
    &&& post.strict() == pre.strict()
    &&& post.spec_atoms() == pre.spec_atoms()
    &&& post.spec_sm() == pre.spec_sm()
}

/// What promoting or releasing one handle does to a heap: one entry's
/// refcount and the handle total move by `delta`; nothing else changes.
pub open spec fn handle_bump_rel(pre: Context, post: Context, id: NodeId, delta: int) -> bool {
    &&& same_shape(pre, post)
    &&& same_config(pre, post)
    &&& post.next_cap() == pre.next_cap()
    &&& post.free_list() == pre.free_list()
    &&& forall|id2: NodeId|
        pre.valid_id(id2) && id2 != id ==> #[trigger] post.entry_at(id2) == pre.entry_at(id2)
    &&& post.entry_at(id).ctx_id_markbit == pre.entry_at(id).ctx_id_markbit
    &&& post.entry_at(id).inner == pre.entry_at(id).inner
    &&& post.count_of(id) == pre.count_of(id) + delta
    &&& post.handle_total() == pre.handle_total() + delta
}

/// What allocation does to a heap. A free slot is reused last-in first-out;
/// otherwise the node goes at the end of the tail chunk, growing a new chunk
/// of the next (doubled) capacity when the tail is full. The fresh entry is
/// stamped with the heap's id, handle count zero, mark bit at the unmarked
/// polarity, and holds exactly the template's node. No other entry changes.
pub open spec fn alloc_rel(pre: Context, post: Context, t: NodeTemplate, r: NodeId) -> bool {
    &&& same_config(pre, post)
    &&& post.handle_total() == pre.handle_total()
    &&& post.is_live(r)
    &&& post.owner_of(r) == pre.spec_id()
    &&& post.count_of(r) == 0
    &&& post.mark_of(r) == !pre.polarity()
    &&& post.node_at(r) == template_node(t)
    &&& forall|id2: NodeId|
        pre.valid_id(id2) && id2 != r ==> #[trigger] post.entry_at(id2) == pre.entry_at(id2)
    &&& if pre.free_list().len() > 0 {
        &&& r == pre.free_list().last()
        &&& post.free_list() == pre.free_list().drop_last()
        &&& same_shape(pre, post)
        &&& post.next_cap() == pre.next_cap()
    } else {
        &&& post.free_list() == pre.free_list()
        &&& if pre.chunk_len(pre.num_chunks() - 1) < pre.caps_seq()[pre.num_chunks() - 1] {
            &&& r.chunk as int == pre.num_chunks() - 1
            &&& r.slot as int == pre.chunk_len(pre.num_chunks() - 1)
            &&& post.num_chunks() == pre.num_chunks()
            &&& post.caps_seq() == pre.caps_seq()
            &&& forall|c: int|
                0 <= c < pre.num_chunks() - 1 ==> #[trigger] post.chunk_len(c) == pre.chunk_len(c)
            &&& post.chunk_len(pre.num_chunks() - 1) == pre.chunk_len(pre.num_chunks() - 1) + 1
            &&& post.next_cap() == pre.next_cap()
        } else {
            &&& r.chunk as int == pre.num_chunks()
            &&& r.slot == 0
            &&& post.num_chunks() == pre.num_chunks() + 1
            &&& post.caps_seq() == pre.caps_seq().push(pre.next_cap())
            &&& forall|c: int|
                0 <= c < pre.num_chunks() ==> #[trigger] post.chunk_len(c) == pre.chunk_len(c)
            &&& post.chunk_len(pre.num_chunks()) == 1
            &&& post.next_cap() == cap_of(pre.num_chunks() + 1)
        }
    }
}

impl Context {
    /// Borrow the entry at `id` for writing.
    fn entry_mut(&mut self, id: NodeId) -> (e: &mut StorageEntry)
        requires
            old(self).valid_id(id),
        ensures
            *e == old(self).entry_at(id),
            final(self).chunks_seq() == old(self).chunks_seq().update(
                id.chunk as int,
                old(self).chunks_seq()[id.chunk as int].update(id.slot as int, *final(e)),
            ),
            final(self).spec_id() == old(self).spec_id(),
            final(self).caps_seq() == old(self).caps_seq(),
            final(self).free_list() == old(self).free_list(),
            final(self).handle_total() == old(self).handle_total(),
            final(self).next_cap() == old(self).next_cap(),
            final(self).polarity() == old(self).polarity(),
            final(self).strict() == old(self).strict(),
            final(self).spec_atoms() == old(self).spec_atoms(),
            final(self).spec_sm() == old(self).spec_sm(),
    {
        let row: &mut Vec<StorageEntry> = &mut self.chunks[id.chunk];
        let e: &mut StorageEntry = &mut row[id.slot];
        e
    }

    /// Allocate a new chunk at the next (doubled) capacity.
    fn new_chunk(&mut self)
        requires
            old(self).wf(),
            old(self).chunk_len(old(self).num_chunks() - 1) == old(self).caps_seq()[old(
                self,
            ).num_chunks() - 1],
        ensures
            final(self).wf(),
            final(self).num_chunks() == old(self).num_chunks() + 1,
            final(self).caps_seq() == old(self).caps_seq().push(old(self).next_cap()),
            forall|c: int|
                0 <= c < old(self).num_chunks() ==> #[trigger] final(self).chunk_len(c) == old(
                    self,
                ).chunk_len(c),
            final(self).chunk_len(old(self).num_chunks()) == 0,
            final(self).next_cap() == cap_of(old(self).num_chunks() + 1),
            forall|id2: NodeId|
                old(self).valid_id(id2) ==> #[trigger] final(self).entry_at(id2) == old(
                    self,
                ).entry_at(id2),
            final(self).free_list() == old(self).free_list(),
            final(self).handle_total() == old(self).handle_total(),
            same_config(*old(self), *final(self)),
    {
        proof {
            lemma_cap_of_bounds(self.num_chunks());
        }
        self.chunks.push(Vec::new());
        self.chunk_caps.push(self.next_chunk_capacity);
        if self.next_chunk_capacity < MAX_CHUNK_CAPACITY {
            self.next_chunk_capacity = self.next_chunk_capacity * 2;
        }
        proof {
            let pre = *old(self);
            let post = *self;
            assert(post.chunks_seq() =~= pre.chunks_seq().push(Seq::<StorageEntry>::empty()));
            lemma_chunks_sum_push(pre.chunks_seq(), Seq::<StorageEntry>::empty());
            assert(row_count_sum(Seq::<StorageEntry>::empty()) == 0);
            assert forall|id2: NodeId| pre.valid_id(id2) implies #[trigger] post.entry_at(id2)
                == pre.entry_at(id2) by {}
            assert forall|c: int| 0 <= c < post.num_chunks() implies #[trigger] post.caps_seq()[c]
                == cap_of(c) by {
                if c < pre.num_chunks() {
                    assert(pre.caps_seq()[c] == cap_of(c));
                }
            }
            assert forall|c: int| 0 <= c < post.num_chunks() implies #[trigger] post.chunk_len(c)
                <= post.caps_seq()[c] by {
                if c < pre.num_chunks() {
                    assert(pre.chunk_len(c) <= pre.caps_seq()[c]);
                } else {
                    lemma_cap_of_bounds(c);
                }
            }
            assert forall|c: int| 0 <= c < post.num_chunks() - 1 implies #[trigger] post.chunk_len(c)
                == post.caps_seq()[c] by {
                if c < pre.num_chunks() - 1 {
                    assert(pre.chunk_len(c) == pre.caps_seq()[c]);
                } else {
                    assert(c == pre.num_chunks() - 1);
                }
            }
            assert forall|id: NodeId| #[trigger] post.is_live(id) implies post.owner_of(id)
                == post.spec_id() && post.mark_of(id) == !post.polarity() by {
                assert(pre.is_live(id));
            }
            assert forall|id: NodeId, j: int|
                post.is_live(id) && 0 <= j < post.children_at(id).len() implies post.is_live(
                #[trigger] post.children_at(id)[j],
            ) by {
                assert(pre.is_live(id));
                assert(pre.is_live(pre.children_at(id)[j]));
            }
            assert forall|id: NodeId|
                post.valid_id(id) && post.entry_at(id).spec_is_free() implies post.count_of(id)
                    == 0 && post.free_list().contains(id) by {
                assert(pre.valid_id(id) && pre.entry_at(id).spec_is_free());
                assert(pre.free_list().contains(id));
            }
            assert forall|i: int| 0 <= i < post.free_list().len() implies post.valid_id(
                #[trigger] post.free_list()[i],
            ) && post.entry_at(post.free_list()[i]).spec_is_free() by {
                assert(pre.valid_id(pre.free_list()[i]));
            }
        }
    }

    /// Allocate a new node described by `template`, reusing a free slot when
    /// one exists and growing the tail chunk otherwise.
    pub(crate) fn alloc_node(&mut self, template: NodeTemplate) -> (r: NodeId)
        requires
            old(self).wf(),
            old(self).template_ok(template),
        ensures
            final(self).wf(),
            alloc_rel(*old(self), *final(self), template, r),
    {
        let ghost t = template;
        let node = build_node(template);
        let ctxid = self.id;
        proof {
            assert(ctxid & 0x7FFF_FFFFu32 == ctxid) by (bit_vector)
                requires
                    ctxid < 0x8000_0000u32,
            ;
        }
        let mut entry = StorageEntry { ctx_id_markbit: ctxid, count: 0, inner: node };
        entry.set_markbit(!self.markbit_marked);
        proof {
            assert(entry.spec_owner() == ctxid);
            assert(!entry.spec_is_free()) by {
                if entry.ctx_id_markbit == 0 {
                    assert(entry.spec_owner() == 0u32 & 0x7FFF_FFFFu32);
                    assert(0u32 & 0x7FFF_FFFFu32 == 0u32) by (bit_vector);
                }
            }
        }
        let ghost pre = *self;
        if self.free.len() > 0 {
            let id = self.free.pop().unwrap();
            proof {
                assert(pre.free_list().contains(pre.free_list().last()));
                assert(pre.valid_id(id));
                assert(pre.entry_at(id).spec_is_free());
                assert(pre.count_of(id) == 0);
            }
            let slot = self.entry_mut(id);
            let ghost old_entry = *slot;
            *slot = entry;
            proof {
                self.lemma_alloc_reuse_wf(pre, t, id, entry);
            }
            id
        } else {
            let c_last = self.chunks.len() - 1;
            let full = self.chunks[c_last].len() >= self.chunk_caps[c_last];
            if full {
                self.new_chunk();
            }
            let ghost mid = *self;
            let c2 = self.chunks.len() - 1;
            let row: &mut Vec<StorageEntry> = &mut self.chunks[c2];
            let s = row.len();
            proof {
                lemma_cap_of_bounds(c2 as int);
            }
            row.push(entry);
            let r = NodeId { chunk: c2, slot: s };
            proof {
                assert(final(row)@ == mid.chunks_seq()[c2 as int].push(entry));
                assert(self.chunks_seq() =~= mid.chunks_seq().update(
                    c2 as int,
                    mid.chunks_seq()[c2 as int].push(entry),
                ));
                self.lemma_alloc_push_wf(pre, mid, t, r, entry);
            }
            r
        }
    }
}


impl Context {
    /// After reusing the free slot `id` for `entry`, the heap is well formed
    /// and the allocation relation holds.
    proof fn lemma_alloc_reuse_wf(&self, pre: Context, t: NodeTemplate, id: NodeId, entry: StorageEntry)
        requires
            pre.wf(),
            pre.template_ok(t),
            pre.free_list().len() > 0,
            id == pre.free_list().last(),
            entry.spec_owner() == pre.spec_id(),
            !entry.spec_is_free(),
            entry.spec_markbit() == !pre.polarity(),
            entry.count == 0,
            entry.inner == template_node(t),
            self.chunks_seq() == pre.chunks_seq().update(
                id.chunk as int,
                pre.chunks_seq()[id.chunk as int].update(id.slot as int, entry),
            ),
            self.free_list() == pre.free_list().drop_last(),
            self.caps_seq() == pre.caps_seq(),
            self.handle_total() == pre.handle_total(),
            self.next_cap() == pre.next_cap(),
            same_config(pre, *self),
        ensures
            self.wf(),
            alloc_rel(pre, *self, t, id),
    {
        let post = *self;
        assert(pre.valid_id(id) && pre.entry_at(id).spec_is_free() && pre.count_of(id) == 0);
        assert(post.num_chunks() == pre.num_chunks());
        assert forall|c: int| 0 <= c < post.num_chunks() implies #[trigger] post.chunk_len(c)
            == pre.chunk_len(c) by {}
        assert forall|id2: NodeId| pre.valid_id(id2) && id2 != id implies #[trigger] post.entry_at(
            id2,
        ) == pre.entry_at(id2) by {}
        assert(post.entry_at(id) == entry);
        assert(post.children_at(id) == template_children(t));
        // well-formedness
        assert forall|c: int| 0 <= c < post.num_chunks() implies #[trigger] post.caps_seq()[c]
            == cap_of(c) by {
            assert(pre.caps_seq()[c] == cap_of(c));
        }
        assert forall|c: int| 0 <= c < post.num_chunks() implies #[trigger] post.chunk_len(c)
            <= post.caps_seq()[c] by {
            assert(pre.chunk_len(c) <= pre.caps_seq()[c]);
        }
        assert forall|c: int| 0 <= c < post.num_chunks() - 1 implies #[trigger] post.chunk_len(c)
            == post.caps_seq()[c] by {
            assert(pre.chunk_len(c) == pre.caps_seq()[c]);
        }
        assert forall|id2: NodeId| #[trigger] post.is_live(id2) implies post.owner_of(id2)
            == post.spec_id() && post.mark_of(id2) == !post.polarity() by {
            if id2 != id {
                assert(pre.is_live(id2));
            }
        }
        assert forall|id2: NodeId, j: int|
            post.is_live(id2) && 0 <= j < post.children_at(id2).len() implies post.is_live(
            #[trigger] post.children_at(id2)[j],
        ) by {
            if id2 == id {
                assert(pre.is_live(template_children(t)[j]));
                assert(template_children(t)[j] != id);
            } else {
                assert(pre.is_live(id2));
                assert(pre.is_live(pre.children_at(id2)[j]));
                assert(pre.children_at(id2)[j] != id);
            }
        }
        assert forall|id2: NodeId|
            post.valid_id(id2) && post.entry_at(id2).spec_is_free() implies post.count_of(id2)
                == 0 && post.free_list().contains(id2) by {
            assert(id2 != id);
            assert(pre.valid_id(id2) && pre.entry_at(id2).spec_is_free());
            assert(pre.free_list().contains(id2));
            let i = choose|i: int| 0 <= i < pre.free_list().len() && pre.free_list()[i] == id2;
            assert(i < pre.free_list().len() - 1);
            assert(post.free_list()[i] == id2);
        }
        assert forall|i: int| 0 <= i < post.free_list().len() implies post.valid_id(
            #[trigger] post.free_list()[i],
        ) && post.entry_at(post.free_list()[i]).spec_is_free() by {
            assert(pre.valid_id(pre.free_list()[i]));
            assert(pre.free_list()[i] != pre.free_list()[pre.free_list().len() - 1]);
        }
        lemma_chunks_sum_update(
            pre.chunks_seq(),
            id.chunk as int,
            pre.chunks_seq()[id.chunk as int].update(id.slot as int, entry),
        );
        lemma_row_sum_update(pre.chunks_seq()[id.chunk as int], id.slot as int, entry);
        assert(post.handle_total() == chunks_count_sum(post.chunks_seq()));
    }

    /// After appending `entry` at the end of the tail chunk, the heap is well
    /// formed and the allocation relation holds. `mid` is the heap after the
    /// tail chunk was grown, if growing was needed.
    proof fn lemma_alloc_push_wf(
        &self,
        pre: Context,
        mid: Context,
        t: NodeTemplate,
        r: NodeId,
        entry: StorageEntry,
    )
        requires
            pre.wf(),
            pre.template_ok(t),
            pre.free_list().len() == 0,
            mid.wf(),
            same_config(pre, mid),
            mid.free_list() == pre.free_list(),
            mid.handle_total() == pre.handle_total(),
            forall|id2: NodeId|
                pre.valid_id(id2) ==> #[trigger] mid.entry_at(id2) == pre.entry_at(id2),
            pre.chunk_len(pre.num_chunks() - 1) < pre.caps_seq()[pre.num_chunks() - 1] ==> {
                &&& mid.num_chunks() == pre.num_chunks()
                &&& mid.caps_seq() == pre.caps_seq()
                &&& forall|c: int|
                    0 <= c < pre.num_chunks() ==> #[trigger] mid.chunk_len(c) == pre.chunk_len(c)
                &&& mid.next_cap() == pre.next_cap()
            },
            pre.chunk_len(pre.num_chunks() - 1) == pre.caps_seq()[pre.num_chunks() - 1] ==> {
                &&& mid.num_chunks() == pre.num_chunks() + 1
                &&& mid.caps_seq() == pre.caps_seq().push(pre.next_cap())
                &&& forall|c: int|
                    0 <= c < pre.num_chunks() ==> #[trigger] mid.chunk_len(c) == pre.chunk_len(c)
                &&& mid.chunk_len(pre.num_chunks()) == 0
                &&& mid.next_cap() == cap_of(pre.num_chunks() + 1)
            },
            mid.chunk_len(mid.num_chunks() - 1) < mid.caps_seq()[mid.num_chunks() - 1],
            r.chunk as int == mid.num_chunks() - 1,
            r.slot as int == mid.chunk_len(mid.num_chunks() - 1),
            entry.spec_owner() == pre.spec_id(),
            !entry.spec_is_free(),
            entry.spec_markbit() == !pre.polarity(),
            entry.count == 0,
            entry.inner == template_node(t),
            self.chunks_seq() == mid.chunks_seq().update(
                (mid.num_chunks() - 1) as int,
                mid.chunks_seq()[mid.num_chunks() - 1].push(entry),
            ),
            self.free_list() == mid.free_list(),
            self.caps_seq() == mid.caps_seq(),
            self.handle_total() == mid.handle_total(),
            self.next_cap() == mid.next_cap(),
            same_config(mid, *self),
        ensures
            self.wf(),
            alloc_rel(pre, *self, t, r),
    {
        let post = *self;
        let last = mid.num_chunks() - 1;
        assert(post.num_chunks() == mid.num_chunks());
        assert(!pre.valid_id(r)) by {
            let pl = pre.num_chunks() - 1;
            if pre.chunk_len(pl) < pre.caps_seq()[pl] {
                assert(mid.chunk_len(pl) == pre.chunk_len(pl));
            } else {
                assert(pre.chunk_len(pl) == pre.caps_seq()[pl]);
                assert(r.chunk as int == pre.num_chunks());
            }
        }
        assert forall|c: int| 0 <= c < post.num_chunks() && c != last implies #[trigger] post.chunk_len(c)
            == mid.chunk_len(c) by {}
        assert(post.chunk_len(last) == mid.chunk_len(last) + 1);
        assert forall|id2: NodeId| pre.valid_id(id2) && id2 != r implies #[trigger] post.entry_at(
            id2,
        ) == pre.entry_at(id2) by {
            assert(mid.entry_at(id2) == pre.entry_at(id2));
            if id2.chunk as int == last {
                assert(id2.slot as int != r.slot as int);
            }
        }
        assert(post.entry_at(r) == entry);
        assert(post.children_at(r) == template_children(t));
        // well-formedness
        assert forall|c: int| 0 <= c < post.num_chunks() implies #[trigger] post.caps_seq()[c]
            == cap_of(c) by {
            assert(mid.caps_seq()[c] == cap_of(c));
        }
        assert forall|c: int| 0 <= c < post.num_chunks() implies #[trigger] post.chunk_len(c)
            <= post.caps_seq()[c] by {
            assert(mid.chunk_len(c) <= mid.caps_seq()[c]);
        }
        assert forall|c: int| 0 <= c < post.num_chunks() - 1 implies #[trigger] post.chunk_len(c)
            == post.caps_seq()[c] by {
            assert(mid.chunk_len(c) == mid.caps_seq()[c]);
        }
        assert forall|id2: NodeId| #[trigger] post.is_live(id2) implies post.owner_of(id2)
            == post.spec_id() && post.mark_of(id2) == !post.polarity() by {
            if id2 != r {
                assert(post.valid_id(id2));
                assert(mid.valid_id(id2));
                assert(mid.is_live(id2));
            }
        }
        assert forall|id2: NodeId, j: int|
            post.is_live(id2) && 0 <= j < post.children_at(id2).len() implies post.is_live(
            #[trigger] post.children_at(id2)[j],
        ) by {
            if id2 == r {
                assert(pre.is_live(template_children(t)[j]));
                assert(template_children(t)[j] != r);
                assert(mid.is_live(template_children(t)[j]));
            } else {
                assert(mid.is_live(id2));
                assert(mid.is_live(mid.children_at(id2)[j]));
                assert(mid.valid_id(mid.children_at(id2)[j]));
                assert(mid.children_at(id2)[j] != r) by {
                    if mid.children_at(id2)[j] == r {
                        assert(mid.chunk_len(last) <= r.slot as int);
                    }
                }
            }
        }
        assert forall|id2: NodeId|
            post.valid_id(id2) && post.entry_at(id2).spec_is_free() implies post.count_of(id2)
                == 0 && post.free_list().contains(id2) by {
            assert(id2 != r);
            assert(mid.valid_id(id2) && mid.entry_at(id2).spec_is_free());
            assert(mid.free_list().contains(id2));
        }
        assert forall|i: int| 0 <= i < post.free_list().len() implies post.valid_id(
            #[trigger] post.free_list()[i],
        ) && post.entry_at(post.free_list()[i]).spec_is_free() by {}
        lemma_chunks_sum_update(
            mid.chunks_seq(),
            last,
            mid.chunks_seq()[last].push(entry),
        );
        lemma_row_sum_push(mid.chunks_seq()[last], entry);
        assert(post.handle_total() == chunks_count_sum(post.chunks_seq()));
    }
}


/// Whether `a` comes strictly before `b` in chunk order.
pub open spec fn id_before(a: NodeId, b: NodeId) -> bool {
    a.chunk < b.chunk || (a.chunk == b.chunk && a.slot < b.slot)
}

impl Context {
    /// This heap's unique id.
    pub fn id(&self) -> (r: u32)
        ensures
            r == self.spec_id(),
    {
        self.id
    }

    /// How many chunks the heap has.
    pub fn chunk_count(&self) -> (r: usize)
        ensures
            r == self.num_chunks(),
    {
        self.chunks.len()
    }

    /// How many entries chunk `c` currently holds.
    pub fn chunk_size(&self, c: usize) -> (r: usize)
        requires
            (c as int) < self.num_chunks(),
        ensures
            r == self.chunk_len(c as int),
    {
        self.chunks[c].len()
    }

    /// The fixed capacity of chunk `c`.
    pub fn chunk_capacity(&self, c: usize) -> (r: usize)
        requires
            (c as int) < self.num_chunks(),
            self.caps_seq().len() == self.num_chunks(),
        ensures
            r == self.caps_seq()[c as int],
    {
        self.chunk_caps[c]
    }

    /// Read the entry at `id`.
    pub fn entry(&self, id: NodeId) -> (e: &StorageEntry)
        requires
            self.valid_id(id),
        ensures
            *e == self.entry_at(id),
    {
        &self.chunks[id.chunk][id.slot]
    }

    /// How many slots the free list offers for reuse.
    pub fn free_count(&self) -> (r: usize)
        ensures
            r == self.free_list().len(),
    {
        self.free.len()
    }

    /// How many handles point into this heap.
    pub fn num_handles(&self) -> (r: u64)
        ensures
            r == self.handle_total(),
    {
        self.handle_count
    }

    /// Which mark-bit value currently means "marked".
    pub fn mark_polarity(&self) -> (r: bool)
        ensures
            r == self.polarity(),
    {
        self.markbit_marked
    }

    /// Count one more handle on the entry at `id`.
    pub(crate) fn bump_handle(&mut self, id: NodeId)
        requires
            old(self).wf(),
            old(self).is_live(id),
            old(self).handle_total() < 0xFFFF_FFFF,
        ensures
            final(self).wf(),
            handle_bump_rel(*old(self), *final(self), id, 1),
    {
        proof {
            lemma_chunks_sum_bound(self.chunks_seq(), id.chunk as int, id.slot as int);
        }
        let ghost pre = *self;
        let e = self.entry_mut(id);
        let c = e.count;
        e.count = c + 1;
        self.handle_count = self.handle_count + 1;
        proof {
            self.lemma_bump_wf(pre, id, 1);
        }
    }

    /// Count one handle less on the entry at `id`.
    pub(crate) fn drop_handle(&mut self, id: NodeId)
        requires
            old(self).wf(),
            old(self).is_live(id),
            old(self).count_of(id) >= 1,
        ensures
            final(self).wf(),
            handle_bump_rel(*old(self), *final(self), id, -1),
    {
        proof {
            lemma_chunks_sum_bound(self.chunks_seq(), id.chunk as int, id.slot as int);
        }
        let ghost pre = *self;
        let e = self.entry_mut(id);
        let c = e.count;
        e.count = c - 1;
        self.handle_count = self.handle_count - 1;
        proof {
            self.lemma_bump_wf(pre, id, -1);
        }
    }

    /// After one entry's count and the total moved together by `delta`, the
    /// heap is well formed and the bump relation holds.
    proof fn lemma_bump_wf(&self, pre: Context, id: NodeId, delta: int)
        requires
            pre.wf(),
            pre.is_live(id),
            self.chunks_seq() == pre.chunks_seq().update(
                id.chunk as int,
                pre.chunks_seq()[id.chunk as int].update(id.slot as int, self.entry_at(id)),
            ),
            self.entry_at(id).ctx_id_markbit == pre.entry_at(id).ctx_id_markbit,
            self.entry_at(id).inner == pre.entry_at(id).inner,
            self.count_of(id) == pre.count_of(id) + delta,
            self.free_list() == pre.free_list(),
            self.caps_seq() == pre.caps_seq(),
            self.handle_total() == pre.handle_total() + delta,
            self.next_cap() == pre.next_cap(),
            same_config(pre, *self),
        ensures
            self.wf(),
            handle_bump_rel(pre, *self, id, delta),
    {
        let post = *self;
        assert(post.num_chunks() == pre.num_chunks());
        assert forall|c: int| 0 <= c < post.num_chunks() implies #[trigger] post.chunk_len(c)
            == pre.chunk_len(c) by {}
        assert forall|id2: NodeId| pre.valid_id(id2) && id2 != id implies #[trigger] post.entry_at(
            id2,
        ) == pre.entry_at(id2) by {}
        assert forall|c: int| 0 <= c < post.num_chunks() implies #[trigger] post.caps_seq()[c]
            == cap_of(c) by {
            assert(pre.caps_seq()[c] == cap_of(c));
        }
        assert forall|c: int| 0 <= c < post.num_chunks() implies #[trigger] post.chunk_len(c)
            <= post.caps_seq()[c] by {
            assert(pre.chunk_len(c) <= pre.caps_seq()[c]);
        }
        assert forall|c: int| 0 <= c < post.num_chunks() - 1 implies #[trigger] post.chunk_len(c)
            == post.caps_seq()[c] by {
            assert(pre.chunk_len(c) == pre.caps_seq()[c]);
        }
        assert forall|id2: NodeId| #[trigger] post.is_live(id2) implies post.owner_of(id2)
            == post.spec_id() && post.mark_of(id2) == !post.polarity() by {
            assert(pre.is_live(id2));
            if id2 != id {
            } else {
                assert(pre.entry_at(id).spec_owner() == post.entry_at(id).spec_owner());
            }
        }
        assert forall|id2: NodeId, j: int|
            post.is_live(id2) && 0 <= j < post.children_at(id2).len() implies post.is_live(
            #[trigger] post.children_at(id2)[j],
        ) by {
            assert(pre.is_live(id2));
            assert(post.children_at(id2) == pre.children_at(id2));
            assert(pre.is_live(pre.children_at(id2)[j]));
        }
        assert forall|id2: NodeId|
            post.valid_id(id2) && post.entry_at(id2).spec_is_free() implies post.count_of(id2)
                == 0 && post.free_list().contains(id2) by {
            assert(id2 != id);
            assert(pre.valid_id(id2) && pre.entry_at(id2).spec_is_free());
            assert(pre.free_list().contains(id2));
        }
        assert forall|i: int| 0 <= i < post.free_list().len() implies post.valid_id(
            #[trigger] post.free_list()[i],
        ) && post.entry_at(post.free_list()[i]).spec_is_free() by {
            assert(pre.valid_id(pre.free_list()[i]));
            assert(pre.free_list()[i] != id);
        }
        lemma_chunks_sum_update(
            pre.chunks_seq(),
            id.chunk as int,
            pre.chunks_seq()[id.chunk as int].update(id.slot as int, post.entry_at(id)),
        );
        lemma_row_sum_update(
            pre.chunks_seq()[id.chunk as int],
            id.slot as int,
            post.entry_at(id),
        );
        assert(post.handle_total() == chunks_count_sum(post.chunks_seq()));
    }

    /// The first entry, in chunk order, that a handle still points at.
    pub fn first_handle_holder(&self) -> (r: Option<NodeId>)
        ensures
            match r {
                Some(id) => self.valid_id(id) && self.count_of(id) > 0 && forall|id2: NodeId|
                    self.valid_id(id2) && id_before(id2, id) ==> #[trigger] self.count_of(id2)
                        == 0,
                None => forall|id2: NodeId|
                    self.valid_id(id2) ==> #[trigger] self.count_of(id2) == 0,
            },
    {
        let mut c: usize = 0;
        while c < self.chunks.len()
            invariant
                c <= self.num_chunks(),
                forall|id2: NodeId|
                    self.valid_id(id2) && (id2.chunk as int) < c ==> #[trigger] self.count_of(id2)
                        == 0,
            decreases self.num_chunks() - c,
        {
            let mut s: usize = 0;
            while s < self.chunks[c].len()
                invariant
                    (c as int) < self.num_chunks(),
                    s <= self.chunk_len(c as int),
                    forall|id2: NodeId|
                        self.valid_id(id2) && (id2.chunk as int) < c ==> #[trigger] self.count_of(
                            id2,
                        ) == 0,
                    forall|id2: NodeId|
                        self.valid_id(id2) && id2.chunk == c && (id2.slot as int) < s
                            ==> #[trigger] self.count_of(id2) == 0,
                decreases self.chunk_len(c as int) - s,
            {
                let id = NodeId { chunk: c, slot: s };
                if self.entry(id).count > 0 {
                    return Some(id);
                }
                s += 1;
            }
            c += 1;
        }
        None
    }

    /// Tear the heap down. This is only allowed once no handle points into
    /// it; otherwise the heap is left untouched and the error names the
    /// first entry still held.
    pub fn finish(self) -> (r: Result<(), HeapError>)
        requires
            self.wf(),
        ensures
            r is Ok <==> self.handle_total() == 0,
            match r {
                Ok(_) => true,
                Err(e) => e matches HeapError::HeapDestroyedWithLiveHandles { entry }
                    && self.valid_id(entry) && self.count_of(entry) > 0,
            },
    {
        if self.handle_count > 0 {
            let first = self.first_handle_holder();
            proof {
                if first is None {
                    assert forall|c: int, s: int|
                        0 <= c < self.chunks_seq().len() && 0 <= s < self.chunks_seq()[c].len()
                            implies self.chunks_seq()[c][s].count == 0 by {
                        let id2 = NodeId { chunk: c as usize, slot: s as usize };
                        assert(self.valid_id(id2));
                        assert(self.count_of(id2) == 0);
                    }
                    lemma_chunks_sum_zero(self.chunks_seq());
                }
            }
            Err(HeapError::HeapDestroyedWithLiveHandles { entry: first.unwrap() })
        } else {
            Ok(())
        }
    }
}


impl Context {
    /// A root reaches itself by the one-element path.
    pub proof fn lemma_root_reachable(&self, id: NodeId)
        requires
            self.is_root(id),
        ensures
            self.reachable(id),
    {
        let p = seq![id];
        assert(self.is_path(p));
        assert(p.last() == id);
    }

    /// Reachability follows child edges.
    pub proof fn lemma_step_reachable(&self, a: NodeId, b: NodeId)
        requires
            self.reachable(a),
            self.step(a, b),
        ensures
            self.reachable(b),
    {
        let p = choose|p: Seq<NodeId>| self.is_path(p) && p.last() == a;
        let q = p.push(b);
        assert forall|i: int| 0 <= i < q.len() - 1 implies #[trigger] self.step(q[i], q[i + 1]) by {
            if i < p.len() - 1 {
                assert(self.step(p[i], p[i + 1]));
            } else {
                assert(q[i] == p.last());
            }
        }
        assert(self.is_path(q));
        assert(q.last() == b);
    }

    /// In a well-formed heap, whatever is reachable is live: a path ends
    /// either at its root or at a child of a live entry.
    pub proof fn lemma_reachable_live(&self, id: NodeId)
        requires
            self.wf(),
            self.reachable(id),
        ensures
            self.is_live(id),
    {
        let p = choose|p: Seq<NodeId>| self.is_path(p) && p.last() == id;
        if p.len() == 1 {
            assert(self.is_root(p[0]));
        } else {
            let n = p.len() as int;
            assert(self.step(p[n - 2], p[n - 2 + 1]));
            assert(self.children_at(p[n - 2]).contains(id));
            let j = choose|j: int|
                0 <= j < self.children_at(p[n - 2]).len() && #[trigger] self.children_at(
                    p[n - 2],
                )[j] == id;
            assert(self.is_live(self.children_at(p[n - 2])[j]));
        }
    }

    proof fn lemma_path_in_closed(&self, mset: Set<NodeId>, p: Seq<NodeId>)
        requires
            self.is_path(p),
            forall|id: NodeId| self.is_root(id) ==> #[trigger] mset.contains(id),
            forall|a: NodeId, b: NodeId|
                #![trigger mset.contains(a), self.step(a, b)]
                mset.contains(a) && self.step(a, b) ==> mset.contains(b),
        ensures
            mset.contains(p.last()),
        decreases p.len(),
    {
        if p.len() == 1 {
            assert(self.is_root(p[0]));
        } else {
            let q = p.drop_last();
            assert forall|i: int| 0 <= i < q.len() - 1 implies #[trigger] self.step(q[i], q[i + 1]) by {
                assert(self.step(p[i], p[i + 1]));
            }
            assert(self.is_path(q));
            self.lemma_path_in_closed(mset, q);
            let n = p.len() as int;
            assert(self.step(p[n - 2], p[n - 2 + 1]));
            assert(q.last() == p[n - 2]);
        }
    }

    /// Any set that holds every root and is closed under child edges holds
    /// everything reachable. This is what makes a mark phase complete.
    pub proof fn lemma_reachable_in_closed(&self, mset: Set<NodeId>)
        requires
            forall|id: NodeId| self.is_root(id) ==> #[trigger] mset.contains(id),
            forall|a: NodeId, b: NodeId|
                #![trigger mset.contains(a), self.step(a, b)]
                mset.contains(a) && self.step(a, b) ==> mset.contains(b),
        ensures
            forall|id: NodeId| self.reachable(id) ==> #[trigger] mset.contains(id),
    {
        assert forall|id: NodeId| self.reachable(id) implies #[trigger] mset.contains(id) by {
            let p = choose|p: Seq<NodeId>| self.is_path(p) && p.last() == id;
            self.lemma_path_in_closed(mset, p);
        }
    }
}

/// The entries of chunk `c` before slot `s` that a collection of `pre`
/// reclaims, in slot order: the live entries no path from a root reaches.
pub open spec fn swept_row_upto(pre: Context, c: int, s: int) -> Seq<NodeId>
    decreases s,
{
    if s <= 0 {
        Seq::empty()
    } else {
        let rest = swept_row_upto(pre, c, s - 1);
        let id = NodeId { chunk: c as usize, slot: (s - 1) as usize };
        if pre.is_live(id) && !pre.reachable(id) {
            rest.push(id)
        } else {
            rest
        }
    }
}

/// What a collection of `pre` reclaims in the chunks before `c`, in chunk
/// order.
pub open spec fn swept_chunks_upto(pre: Context, c: int) -> Seq<NodeId>
    decreases c,
{
    if c <= 0 {
        Seq::empty()
    } else {
        swept_chunks_upto(pre, c - 1) + swept_row_upto(pre, c - 1, pre.chunk_len(c - 1))
    }
}

/// Everything a collection of `pre` reclaims, in deterministic chunk order.
pub open spec fn swept_order(pre: Context) -> Seq<NodeId> {
    swept_chunks_upto(pre, pre.num_chunks())
}

/// The reclaimed entries of one chunk prefix: each is in that chunk, below
/// the bound, live and unreachable; they appear in strictly increasing slot
/// order; and every such entry appears.
pub proof fn lemma_swept_row_props(pre: Context, c: int, s: int)
    requires
        0 <= c <= usize::MAX,
        0 <= s <= usize::MAX,
    ensures
        forall|i: int| 0 <= i < swept_row_upto(pre, c, s).len() ==> {
            let id = #[trigger] swept_row_upto(pre, c, s)[i];
            id.chunk == c && (id.slot as int) < s && pre.is_live(id) && !pre.reachable(id)
        },
        forall|i: int, j: int|
            0 <= i < j < swept_row_upto(pre, c, s).len() ==> swept_row_upto(pre, c, s)[i].slot
                < swept_row_upto(pre, c, s)[j].slot,
        forall|id: NodeId|
            id.chunk == c && (id.slot as int) < s && pre.is_live(id) && !pre.reachable(id)
                ==> #[trigger] swept_row_upto(pre, c, s).contains(id),
    decreases s,
{
    if s > 0 {
        lemma_swept_row_props(pre, c, s - 1);
        let rest = swept_row_upto(pre, c, s - 1);
        let whole = swept_row_upto(pre, c, s);
        let id = NodeId { chunk: c as usize, slot: (s - 1) as usize };
        assert(id.chunk == c && id.slot == s - 1);
        assert forall|i: int| 0 <= i < whole.len() implies {
            let e = #[trigger] whole[i];
            e.chunk == c && (e.slot as int) < s && pre.is_live(e) && !pre.reachable(e)
        } by {
            if i < rest.len() {
                assert(whole[i] == rest[i]);
            } else {
                assert(whole[i] == id);
            }
        }
        assert forall|i: int, j: int| 0 <= i < j < whole.len() implies whole[i].slot
            < whole[j].slot by {
            if j < rest.len() {
                assert(whole[i] == rest[i] && whole[j] == rest[j]);
            } else if whole.len() > rest.len() {
                assert(whole[j] == id);
                assert(whole[i] == rest[i]);
                assert((rest[i].slot as int) < s - 1);
            }
        }
        assert forall|id2: NodeId|
            id2.chunk == c && (id2.slot as int) < s && pre.is_live(id2) && !pre.reachable(id2)
                implies #[trigger] swept_row_upto(pre, c, s).contains(id2) by {
            if (id2.slot as int) < s - 1 {
                assert(rest.contains(id2));
                let i = choose|i: int| 0 <= i < rest.len() && rest[i] == id2;
                assert(whole[i] == id2);
            } else {
                assert(id2.slot == id.slot && id2.chunk == id.chunk);
                assert(id2 == id);
                assert(whole.last() == id2);
            }
        }
    }
}

/// The reclaimed entries of a heap prefix: each lies in a chunk below the
/// bound, is live and unreachable; they are pairwise distinct; and every
/// such entry appears.
pub proof fn lemma_swept_chunks_props(pre: Context, c: int)
    requires
        0 <= c <= pre.num_chunks(),
        pre.num_chunks() <= usize::MAX,
        forall|cc: int| 0 <= cc < pre.num_chunks() ==> #[trigger] pre.chunk_len(cc) <= usize::MAX,
    ensures
        forall|i: int| 0 <= i < swept_chunks_upto(pre, c).len() ==> {
            let id = #[trigger] swept_chunks_upto(pre, c)[i];
            (id.chunk as int) < c && pre.valid_id(id) && pre.is_live(id) && !pre.reachable(id)
        },
        forall|i: int, j: int|
            0 <= i < j < swept_chunks_upto(pre, c).len() ==> swept_chunks_upto(pre, c)[i]
                != swept_chunks_upto(pre, c)[j],
        forall|id: NodeId|
            (id.chunk as int) < c && pre.valid_id(id) && pre.is_live(id) && !pre.reachable(id)
                ==> #[trigger] swept_chunks_upto(pre, c).contains(id),
    decreases c,
{
    if c > 0 {
        lemma_swept_chunks_props(pre, c - 1);
        lemma_swept_row_props(pre, c - 1, pre.chunk_len(c - 1));
        let a = swept_chunks_upto(pre, c - 1);
        let b = swept_row_upto(pre, c - 1, pre.chunk_len(c - 1));
        let whole = swept_chunks_upto(pre, c);
        assert(whole == a + b);
        assert forall|i: int| 0 <= i < whole.len() implies {
            let id = #[trigger] whole[i];
            (id.chunk as int) < c && pre.valid_id(id) && pre.is_live(id) && !pre.reachable(id)
        } by {
            if i < a.len() {
                assert(whole[i] == a[i]);
            } else {
                assert(whole[i] == b[i - a.len()]);
            }
        }
        assert forall|i: int, j: int| 0 <= i < j < whole.len() implies whole[i] != whole[j] by {
            if i < a.len() && j >= a.len() {
                assert((whole[i].chunk as int) < c - 1);
                assert(whole[j].chunk as int == c - 1);
            } else if i >= a.len() {
                assert(whole[i] == b[i - a.len()] && whole[j] == b[j - a.len()]);
                assert(b[i - a.len()].slot < b[j - a.len()].slot);
            }
        }
        assert forall|id: NodeId|
            (id.chunk as int) < c && pre.valid_id(id) && pre.is_live(id) && !pre.reachable(id)
                implies #[trigger] whole.contains(id) by {
            if (id.chunk as int) < c - 1 {
                assert(a.contains(id));
                let i = choose|i: int| 0 <= i < a.len() && a[i] == id;
                assert(whole[i] == id);
            } else {
                assert(b.contains(id));
                let i = choose|i: int| 0 <= i < b.len() && b[i] == id;
                assert(whole[a.len() + i] == id);
            }
        }
    }
}


/// Whether an entry counts as still awaiting a mark at the given polarity:
/// live, with its mark bit away from `polarity`.
pub open spec fn unmarked_live(e: StorageEntry, polarity: bool) -> bool {
    !e.spec_is_free() && e.spec_markbit() != polarity
}

/// How many entries of one chunk still await a mark.
pub open spec fn row_unmarked(row: Seq<StorageEntry>, polarity: bool) -> int
    decreases row.len(),
{
    if row.len() == 0 {
        0
    } else {
        row_unmarked(row.drop_last(), polarity) + if unmarked_live(row.last(), polarity) {
            1int
        } else {
            0int
        }
    }
}

/// How many entries of the whole heap still await a mark.
pub open spec fn chunks_unmarked(ch: Seq<Seq<StorageEntry>>, polarity: bool) -> int
    decreases ch.len(),
{
    if ch.len() == 0 {
        0
    } else {
        chunks_unmarked(ch.drop_last(), polarity) + row_unmarked(ch.last(), polarity)
    }
}

proof fn lemma_row_unmarked_nonneg(row: Seq<StorageEntry>, polarity: bool)
    ensures
        row_unmarked(row, polarity) >= 0,
    decreases row.len(),
{
    if row.len() > 0 {
        lemma_row_unmarked_nonneg(row.drop_last(), polarity);
    }
}

proof fn lemma_chunks_unmarked_nonneg(ch: Seq<Seq<StorageEntry>>, polarity: bool)
    ensures
        chunks_unmarked(ch, polarity) >= 0,
    decreases ch.len(),
{
    if ch.len() > 0 {
        lemma_chunks_unmarked_nonneg(ch.drop_last(), polarity);
        lemma_row_unmarked_nonneg(ch.last(), polarity);
    }
}

proof fn lemma_row_unmarked_update(row: Seq<StorageEntry>, i: int, e: StorageEntry, polarity: bool)
    requires
        0 <= i < row.len(),
    ensures
        row_unmarked(row.update(i, e), polarity) == row_unmarked(row, polarity) - (
        if unmarked_live(row[i], polarity) {
            1int
        } else {
            0int
        }) + (
        if unmarked_live(e, polarity) {
            1int
        } else {
            0int
        }),
    decreases row.len(),
{
    let r2 = row.update(i, e);
    if i == row.len() - 1 {
        assert(r2.drop_last() =~= row.drop_last());
    } else {
        assert(r2.drop_last() =~= row.drop_last().update(i, e));
        lemma_row_unmarked_update(row.drop_last(), i, e, polarity);
    }
}

proof fn lemma_chunks_unmarked_update(
    ch: Seq<Seq<StorageEntry>>,
    c: int,
    row: Seq<StorageEntry>,
    polarity: bool,
)
    requires
        0 <= c < ch.len(),
    ensures
        chunks_unmarked(ch.update(c, row), polarity) == chunks_unmarked(ch, polarity)
            - row_unmarked(ch[c], polarity) + row_unmarked(row, polarity),
    decreases ch.len(),
{
    let c2 = ch.update(c, row);
    if c == ch.len() - 1 {
        assert(c2.drop_last() =~= ch.drop_last());
    } else {
        assert(c2.drop_last() =~= ch.drop_last().update(c, row));
        lemma_chunks_unmarked_update(ch.drop_last(), c, row, polarity);
    }
}

/// An entry whose owner id is not zero is not free.
proof fn lemma_owner_nonzero_not_free(e: StorageEntry)
    requires
        e.spec_owner() != 0,
    ensures
        !e.spec_is_free(),
{
    if e.ctx_id_markbit == 0 {
        assert(0u32 & 0x7FFF_FFFFu32 == 0u32) by (bit_vector);
    }
}

/// How a marking pass may change one entry of `pre`: count, payload and
/// owner never move, and only the mark bit of a reachable live entry may
/// move, to the marked polarity.
pub open spec fn mark_evolved(pre: Context, cur: Context, id: NodeId) -> bool {
    if pre.is_live(id) {
        &&& cur.entry_at(id).count == pre.entry_at(id).count
        &&& cur.entry_at(id).inner == pre.entry_at(id).inner
        &&& cur.entry_at(id).spec_owner() == pre.entry_at(id).spec_owner()
        &&& !cur.entry_at(id).spec_is_free()
        &&& (cur.entry_at(id).spec_markbit() == pre.entry_at(id).spec_markbit() || (pre.reachable(
            id,
        ) && cur.entry_at(id).spec_markbit() == pre.polarity()))
    } else {
        cur.entry_at(id) == pre.entry_at(id)
    }
}

/// Whether the entry at `id` carries the mark of `pre`'s marking pass.
pub open spec fn marked(pre: Context, cur: Context, id: NodeId) -> bool {
    pre.is_live(id) && cur.entry_at(id).spec_markbit() == pre.polarity()
}

/// Whether `id` lies before the sweep position `(c0, s0)` in chunk order.
pub open spec fn before_pos(id: NodeId, c0: int, s0: int) -> bool {
    (id.chunk as int) < c0 || (id.chunk as int == c0 && (id.slot as int) < s0)
}

/// What one entry looks like once the sweep has passed position `(c0, s0)`:
/// behind the position, unreachable live entries of `pre` are freed in place
/// (owner cell zeroed, count and payload left) and everything else keeps its
/// marked-state form `ms`; ahead of it, entries still hold their `ms` form.
pub open spec fn sweep_entry_ok(
    pre: Context,
    ms: Context,
    cur: Context,
    id: NodeId,
    c0: int,
    s0: int,
) -> bool {
    if before_pos(id, c0, s0) {
        if pre.is_live(id) && !pre.reachable(id) {
            &&& cur.entry_at(id).ctx_id_markbit == 0
            &&& cur.entry_at(id).count == pre.entry_at(id).count
            &&& cur.entry_at(id).inner == pre.entry_at(id).inner
        } else {
            cur.entry_at(id) == ms.entry_at(id)
        }
    } else {
        cur.entry_at(id) == ms.entry_at(id)
    }
}

/// What collection does to one entry: reachable entries survive untouched
/// but rest at the marked polarity (which the closing flip renames to
/// unmarked); unreachable live entries are freed in place; free entries
/// stay as they were.
pub open spec fn gc_entry_rel(pre: Context, post: Context, id: NodeId) -> bool {
    if pre.is_live(id) && pre.reachable(id) {
        &&& post.is_live(id)
        &&& post.entry_at(id).spec_owner() == pre.entry_at(id).spec_owner()
        &&& post.entry_at(id).count == pre.entry_at(id).count
        &&& post.entry_at(id).inner == pre.entry_at(id).inner
        &&& post.entry_at(id).spec_markbit() == pre.polarity()
    } else if pre.is_live(id) {
        &&& post.entry_at(id).ctx_id_markbit == 0
        &&& post.entry_at(id).count == pre.entry_at(id).count
        &&& post.entry_at(id).inner == pre.entry_at(id).inner
    } else {
        post.entry_at(id) == pre.entry_at(id)
    }
}

/// What one collection does to a heap: the shape, id, handle counts, atom
/// table and source manager stay; the polarity flips; every entry follows
/// [`gc_entry_rel`]; and the addresses of the reclaimed entries are pushed
/// onto the free list in deterministic chunk order.
pub open spec fn gc_rel(pre: Context, post: Context) -> bool {
    &&& same_shape(pre, post)
    &&& post.spec_id() == pre.spec_id()
    &&& post.strict() == pre.strict()
    &&& post.spec_atoms() == pre.spec_atoms()
    &&& post.spec_sm() == pre.spec_sm()
    &&& post.polarity() == !pre.polarity()
    &&& post.next_cap() == pre.next_cap()
    &&& post.handle_total() == pre.handle_total()
    &&& forall|id: NodeId| pre.valid_id(id) ==> #[trigger] gc_entry_rel(pre, post, id)
    &&& post.free_list() == pre.free_list() + swept_order(pre)
}


impl Context {
    /// Reclaim every entry that no handle and no chain of child edges from a
    /// handle reaches.
    ///
    /// Roots are the entries with a positive handle count. The collector
    /// marks everything reachable from them, frees the rest in place in
    /// deterministic chunk order, and flips the heap's mark polarity so that
    /// every survivor reads as unmarked again without another pass.
    pub fn gc(&mut self)
        requires
            old(self).wf(),
        ensures
            final(self).wf(),
            gc_rel(*old(self), *final(self)),
    {
        let ghost pre = *old(self);
        // Gather the roots: every live entry some handle points at.
        let mut work: Vec<NodeId> = Vec::new();
        let mut c: usize = 0;
        while c < self.chunks.len()
            invariant
                *self == pre,
                pre.wf(),
                c <= pre.num_chunks(),
                forall|i: int| 0 <= i < work@.len() ==> pre.is_root(#[trigger] work@[i]),
                forall|id: NodeId|
                    #[trigger] pre.is_root(id) && (id.chunk as int) < c ==> work@.contains(id),
            decreases pre.num_chunks() - c,
        {
            let mut s: usize = 0;
            while s < self.chunks[c].len()
                invariant
                    *self == pre,
                    pre.wf(),
                    (c as int) < pre.num_chunks(),
                    s <= pre.chunk_len(c as int),
                    forall|i: int| 0 <= i < work@.len() ==> pre.is_root(#[trigger] work@[i]),
                    forall|id: NodeId|
                        #[trigger] pre.is_root(id) && (id.chunk as int) < c ==> work@.contains(id),
                    forall|id: NodeId|
                        #[trigger] pre.is_root(id) && id.chunk == c && (id.slot as int) < s
                            ==> work@.contains(id),
                decreases pre.chunk_len(c as int) - s,
            {
                let id = NodeId { chunk: c, slot: s };
                let ghost work0 = work@;
                let e = self.entry(id);
                let pushed = !e.is_free() && e.count > 0;
                if pushed {
                    work.push(id);
                }
                proof {
                    assert forall|id2: NodeId| work0.contains(id2) implies work@.contains(id2) by {
                        let i = choose|i: int| 0 <= i < work0.len() && work0[i] == id2;
                        assert(work@[i] == id2);
                    }
                    if pushed {
                        assert(work@.last() == id);
                        assert(work@.contains(id));
                    } else {
                        assert(!pre.is_root(id));
                    }
                    assert forall|id2: NodeId|
                        #[trigger] pre.is_root(id2) && id2.chunk == c && (id2.slot as int) < s + 1
                            implies work@.contains(id2) by {
                        if (id2.slot as int) < s {
                        } else {
                            assert(id2 == id);
                        }
                    }
                }
                s += 1;
            }
            c += 1;
        }
        proof {
            assert forall|i: int| 0 <= i < work@.len() implies pre.reachable(#[trigger] work@[i])
                && pre.is_live(work@[i]) by {
                assert(pre.is_root(work@[i]));
                pre.lemma_root_reachable(work@[i]);
            }
            assert forall|id: NodeId| #[trigger] pre.is_root(id) implies work@.contains(id) by {
                assert((id.chunk as int) < pre.num_chunks());
            }
            assert forall|id: NodeId| pre.valid_id(id) implies #[trigger] mark_evolved(
                pre,
                *self,
                id,
            ) by {
                if pre.is_live(id) {
                    lemma_owner_nonzero_not_free(pre.entry_at(id));
                }
            }
            assert forall|id: NodeId| pre.is_live(id) implies !marked(pre, *self, id) by {
                assert(pre.mark_of(id) == !pre.polarity());
            }
        }
        // Mark everything reachable from the roots.
        while work.len() > 0
            invariant
                pre.wf(),
                self.spec_id() == pre.spec_id(),
                self.caps_seq() == pre.caps_seq(),
                self.free_list() == pre.free_list(),
                self.handle_total() == pre.handle_total(),
                self.next_cap() == pre.next_cap(),
                self.polarity() == pre.polarity(),
                self.strict() == pre.strict(),
                self.spec_atoms() == pre.spec_atoms(),
                self.spec_sm() == pre.spec_sm(),
                self.num_chunks() == pre.num_chunks(),
                forall|cc: int|
                    0 <= cc < pre.num_chunks() ==> #[trigger] self.chunk_len(cc) == pre.chunk_len(
                        cc,
                    ),
                forall|id: NodeId| pre.valid_id(id) ==> #[trigger] mark_evolved(pre, *self, id),
                forall|i: int|
                    0 <= i < work@.len() ==> pre.reachable(#[trigger] work@[i]) && pre.is_live(
                        work@[i],
                    ),
                forall|id: NodeId|
                    #[trigger] pre.is_root(id) ==> marked(pre, *self, id) || work@.contains(id),
                forall|id: NodeId, j: int|
                    #![trigger marked(pre, *self, id), pre.children_at(id)[j]]
                    marked(pre, *self, id) && 0 <= j < pre.children_at(id).len() ==> marked(
                        pre,
                        *self,
                        pre.children_at(id)[j],
                    ) || work@.contains(pre.children_at(id)[j]),
            decreases chunks_unmarked(self.chunks_seq(), pre.polarity()), work@.len(),
        {
            let ghost work_pre = work@;
            let ghost cur0 = *self;
            let id = work.pop().unwrap();
            proof {
                assert(pre.is_live(id));
                assert(mark_evolved(pre, *self, id));
                assert(self.valid_id(id));
                lemma_chunks_unmarked_nonneg(self.chunks_seq(), pre.polarity());
            }
            let mb = self.entry(id).markbit();
            let pol = self.markbit_marked;
            if mb != pol {
                let ghost cur1 = *self;
                let e = self.entry_mut(id);
                e.set_markbit(pol);
                proof {
                    let cur2 = *self;
                    assert(cur2.entry_at(id).spec_markbit() == pre.polarity());
                    assert(marked(pre, cur2, id));
                    assert forall|id2: NodeId| pre.valid_id(id2) && id2 != id implies cur2.entry_at(
                        id2,
                    ) == cur1.entry_at(id2) by {}
                    assert forall|id2: NodeId| pre.valid_id(id2) implies #[trigger] mark_evolved(
                        pre,
                        cur2,
                        id2,
                    ) by {
                        assert(mark_evolved(pre, cur1, id2));
                        if id2 == id {
                            assert(pre.reachable(id));
                            lemma_owner_nonzero_not_free(cur2.entry_at(id));
                        }
                    }
                    // the freshly marked entry was unmarked, so the count drops
                    lemma_chunks_unmarked_update(
                        cur1.chunks_seq(),
                        id.chunk as int,
                        cur1.chunks_seq()[id.chunk as int].update(
                            id.slot as int,
                            cur2.entry_at(id),
                        ),
                        pre.polarity(),
                    );
                    lemma_row_unmarked_update(
                        cur1.chunks_seq()[id.chunk as int],
                        id.slot as int,
                        cur2.entry_at(id),
                        pre.polarity(),
                    );
                    assert(unmarked_live(cur1.entry_at(id), pre.polarity()));
                    assert(!unmarked_live(cur2.entry_at(id), pre.polarity()));
                    assert(chunks_unmarked(cur2.chunks_seq(), pre.polarity()) == chunks_unmarked(
                        cur1.chunks_seq(),
                        pre.polarity(),
                    ) - 1);
                    assert forall|cc: int| 0 <= cc < pre.num_chunks() implies
                        #[trigger] cur2.chunk_len(cc) == pre.chunk_len(cc) by {
                        assert(cur1.chunk_len(cc) == pre.chunk_len(cc));
                    }
                }
                let children = collect_children(&self.entry(id).inner);
                proof {
                    assert(children@ == pre.children_at(id));
                    let cur2 = *self;
                    assert forall|id2: NodeId| marked(pre, cur0, id2) implies marked(
                        pre,
                        cur2,
                        id2,
                    ) by {
                        if id2 != id {
                            assert(cur2.entry_at(id2) == cur0.entry_at(id2));
                        }
                    }
                    assert forall|id2: NodeId| #[trigger] pre.is_root(id2) implies marked(
                        pre,
                        cur2,
                        id2,
                    ) || work@.contains(id2) by {
                        if !marked(pre, cur0, id2) {
                            assert(work_pre.contains(id2));
                            let i = choose|i: int| 0 <= i < work_pre.len() && work_pre[i] == id2;
                            if i == work_pre.len() - 1 {
                                assert(id2 == id);
                            } else {
                                assert(work@[i] == id2);
                            }
                        }
                    }
                    assert forall|id2: NodeId, jj: int|
                        #![trigger marked(pre, cur2, id2), pre.children_at(id2)[jj]]
                        marked(pre, cur2, id2) && id2 != id && 0 <= jj < pre.children_at(
                            id2,
                        ).len() implies marked(pre, cur2, pre.children_at(id2)[jj])
                            || work@.contains(pre.children_at(id2)[jj]) by {
                        assert(cur2.entry_at(id2) == cur0.entry_at(id2));
                        assert(marked(pre, cur0, id2));
                        let ch = pre.children_at(id2)[jj];
                        assert(marked(pre, cur0, ch) || work_pre.contains(ch));
                        if !marked(pre, cur0, ch) {
                            let i = choose|i: int| 0 <= i < work_pre.len() && work_pre[i] == ch;
                            if i == work_pre.len() - 1 {
                                assert(ch == id);
                                assert(marked(pre, cur2, ch));
                            } else {
                                assert(work@[i] == ch);
                            }
                        }
                    }
                }
                let mut j: usize = 0;
                while j < children.len()
                    invariant
                        pre.wf(),
                        children@ == pre.children_at(id),
                        pre.is_live(id),
                        pre.reachable(id),
                        marked(pre, *self, id),
                        j <= children.len(),
                        forall|i: int|
                            0 <= i < work@.len() ==> pre.reachable(#[trigger] work@[i])
                                && pre.is_live(work@[i]),
                        forall|id2: NodeId|
                            #[trigger] pre.is_root(id2) ==> marked(pre, *self, id2)
                                || work@.contains(id2),
                        forall|id2: NodeId, jj: int|
                            #![trigger marked(pre, *self, id2), pre.children_at(id2)[jj]]
                            marked(pre, *self, id2) && id2 != id && 0 <= jj < pre.children_at(
                                id2,
                            ).len() ==> marked(pre, *self, pre.children_at(id2)[jj])
                                || work@.contains(pre.children_at(id2)[jj]),
                        forall|jj: int|
                            0 <= jj < j ==> marked(pre, *self, children@[jj]) || work@.contains(
                                #[trigger] children@[jj],
                            ),
                    decreases children.len() - j,
                {
                    let ghost work0 = work@;
                    let ch = children[j];
                    proof {
                        pre.lemma_step_reachable(id, children@[j as int]);
                        assert(pre.is_live(pre.children_at(id)[j as int]));
                    }
                    work.push(ch);
                    proof {
                        assert forall|id2: NodeId| work0.contains(id2) implies work@.contains(
                            id2,
                        ) by {
                            let i = choose|i: int| 0 <= i < work0.len() && work0[i] == id2;
                            assert(work@[i] == id2);
                        }
                        assert(work@.last() == ch);
                        assert(work@.contains(ch));
                    }
                    j += 1;
                }
                proof {
                    assert forall|id2: NodeId, jj: int|
                        #![trigger marked(pre, *self, id2), pre.children_at(id2)[jj]]
                        marked(pre, *self, id2) && 0 <= jj < pre.children_at(id2).len() implies
                        marked(pre, *self, pre.children_at(id2)[jj]) || work@.contains(
                        pre.children_at(id2)[jj],
                    ) by {
                        if id2 == id {
                            assert(marked(pre, *self, children@[jj]) || work@.contains(
                                children@[jj],
                            ));
                        }
                    }
                    lemma_chunks_unmarked_nonneg(self.chunks_seq(), pre.polarity());
                }
            } else {
                proof {
                    assert(marked(pre, *self, id));
                    assert forall|id2: NodeId| work_pre.contains(id2) && id2 != id implies
                        work@.contains(id2) || marked(pre, *self, id2) by {
                        let i = choose|i: int| 0 <= i < work_pre.len() && work_pre[i] == id2;
                        if i < work_pre.len() - 1 {
                            assert(work@[i] == id2);
                        }
                    }
                    assert forall|id2: NodeId| #[trigger] pre.is_root(id2) implies marked(
                        pre,
                        *self,
                        id2,
                    ) || work@.contains(id2) by {
                        if work_pre.contains(id2) {
                            let i = choose|i: int| 0 <= i < work_pre.len() && work_pre[i] == id2;
                            if i == work_pre.len() - 1 {
                                assert(id2 == id);
                            } else {
                                assert(work@[i] == id2);
                            }
                        }
                    }
                    assert forall|id2: NodeId, jj: int|
                        #![trigger marked(pre, *self, id2), pre.children_at(id2)[jj]]
                        marked(pre, *self, id2) && 0 <= jj < pre.children_at(id2).len() implies
                        marked(pre, *self, pre.children_at(id2)[jj]) || work@.contains(
                        pre.children_at(id2)[jj],
                    ) by {
                        let ch = pre.children_at(id2)[jj];
                        if work_pre.contains(ch) {
                            let i = choose|i: int| 0 <= i < work_pre.len() && work_pre[i] == ch;
                            if i == work_pre.len() - 1 {
                                assert(ch == id);
                                assert(marked(pre, *self, ch));
                            } else {
                                assert(work@[i] == ch);
                            }
                        }
                    }
                }
            }
        }
        // The mark phase is complete: marked is exactly reachable.
        let ghost ms = *self;
        proof {
            let mset = Set::new(|id: NodeId| marked(pre, ms, id));
            assert forall|id: NodeId| pre.is_root(id) implies #[trigger] mset.contains(id) by {
                assert(marked(pre, ms, id) || work@.contains(id));
            }
            assert forall|a: NodeId, b: NodeId|
                #![trigger mset.contains(a), pre.step(a, b)]
                mset.contains(a) && pre.step(a, b) implies mset.contains(b) by {
                assert(marked(pre, ms, a));
                assert(pre.children_at(a).contains(b));
                let j = choose|j: int|
                    0 <= j < pre.children_at(a).len() && #[trigger] pre.children_at(a)[j] == b;
                assert(marked(pre, ms, pre.children_at(a)[j]) || work@.contains(
                    pre.children_at(a)[j],
                ));
            }
            pre.lemma_reachable_in_closed(mset);
            assert forall|id: NodeId| pre.is_live(id) implies (marked(pre, ms, id)
                <==> pre.reachable(id)) by {
                if marked(pre, ms, id) {
                    assert(mark_evolved(pre, ms, id));
                    assert(pre.entry_at(id).spec_markbit() == !pre.polarity());
                }
                if pre.reachable(id) {
                    assert(mset.contains(id));
                }
            }
        }
        // Sweep: free every live entry the marking did not reach.
        let mut c2: usize = 0;
        while c2 < self.chunks.len()
            invariant
                pre.wf(),
                forall|id: NodeId| pre.valid_id(id) ==> #[trigger] mark_evolved(pre, ms, id),
                forall|id: NodeId|
                    #[trigger] pre.is_live(id) ==> (marked(pre, ms, id) <==> pre.reachable(id)),
                ms.num_chunks() == pre.num_chunks(),
                self.spec_id() == pre.spec_id(),
                self.caps_seq() == pre.caps_seq(),
                self.handle_total() == pre.handle_total(),
                self.next_cap() == pre.next_cap(),
                self.polarity() == pre.polarity(),
                self.strict() == pre.strict(),
                self.spec_atoms() == pre.spec_atoms(),
                self.spec_sm() == pre.spec_sm(),
                self.num_chunks() == pre.num_chunks(),
                forall|cc: int|
                    0 <= cc < pre.num_chunks() ==> #[trigger] self.chunk_len(cc) == pre.chunk_len(
                        cc,
                    ),
                c2 <= pre.num_chunks(),
                forall|id: NodeId|
                    pre.valid_id(id) ==> #[trigger] sweep_entry_ok(pre, ms, *self, id, c2 as int, 0),
                self.free_list() == pre.free_list() + swept_chunks_upto(pre, c2 as int),
            decreases pre.num_chunks() - c2,
        {
            let mut s2: usize = 0;
            while s2 < self.chunks[c2].len()
                invariant
                    pre.wf(),
                    forall|id: NodeId| pre.valid_id(id) ==> #[trigger] mark_evolved(pre, ms, id),
                    forall|id: NodeId|
                        #[trigger] pre.is_live(id) ==> (marked(pre, ms, id) <==> pre.reachable(
                            id,
                        )),
                    ms.num_chunks() == pre.num_chunks(),
                    self.spec_id() == pre.spec_id(),
                    self.caps_seq() == pre.caps_seq(),
                    self.handle_total() == pre.handle_total(),
                    self.next_cap() == pre.next_cap(),
                    self.polarity() == pre.polarity(),
                    self.strict() == pre.strict(),
                    self.spec_atoms() == pre.spec_atoms(),
                    self.spec_sm() == pre.spec_sm(),
                    self.num_chunks() == pre.num_chunks(),
                    forall|cc: int|
                        0 <= cc < pre.num_chunks() ==> #[trigger] self.chunk_len(cc)
                            == pre.chunk_len(cc),
                    (c2 as int) < pre.num_chunks(),
                    s2 <= pre.chunk_len(c2 as int),
                    forall|id: NodeId|
                        pre.valid_id(id) ==> #[trigger] sweep_entry_ok(
                            pre,
                            ms,
                            *self,
                            id,
                            c2 as int,
                            s2 as int,
                        ),
                    self.free_list() == pre.free_list() + swept_chunks_upto(pre, c2 as int)
                        + swept_row_upto(pre, c2 as int, s2 as int),
                decreases pre.chunk_len(c2 as int) - s2,
            {
                let id = NodeId { chunk: c2, slot: s2 };
                proof {
                    assert(self.chunks@[c2 as int]@ == self.chunks_seq()[c2 as int]);
                    assert((s2 as int) < self.chunk_len(c2 as int));
                    assert(pre.valid_id(id));
                    assert(sweep_entry_ok(pre, ms, *self, id, c2 as int, s2 as int));
                    assert(self.entry_at(id) == ms.entry_at(id));
                }
                let e = self.entry(id);
                let efree = e.is_free();
                let ecount = e.count;
                let emark = e.markbit();
                let pol2 = self.markbit_marked;
                if !efree && ecount == 0 && emark != pol2 {
                    proof {
                        assert(mark_evolved(pre, ms, id));
                        assert(pre.is_live(id));
                        assert(!marked(pre, ms, id));
                        assert(!pre.reachable(id));
                    }
                    let ghost cur1 = *self;
                    let e2 = self.entry_mut(id);
                    e2.ctx_id_markbit = 0;
                    self.free.push(id);
                    proof {
                        let cur2 = *self;
                        assert forall|id2: NodeId| pre.valid_id(id2) implies
                            #[trigger] sweep_entry_ok(
                            pre,
                            ms,
                            cur2,
                            id2,
                            c2 as int,
                            s2 + 1 as int,
                        ) by {
                            assert(sweep_entry_ok(pre, ms, cur1, id2, c2 as int, s2 as int));
                            assert(cur1.valid_id(id2));
                            if id2 != id {
                                assert(cur2.chunks_seq() == cur1.chunks_seq().update(
                                    id.chunk as int,
                                    cur1.chunks_seq()[id.chunk as int].update(
                                        id.slot as int,
                                        cur2.entry_at(id),
                                    ),
                                ));
                                assert(cur2.entry_at(id2) == cur1.entry_at(id2));
                            } else {
                                assert(cur2.entry_at(id).ctx_id_markbit == 0);
                            }
                        }
                        assert forall|cc: int| 0 <= cc < pre.num_chunks() implies
                            #[trigger] cur2.chunk_len(cc) == pre.chunk_len(cc) by {
                            assert(cur1.chunk_len(cc) == pre.chunk_len(cc));
                        }
                        assert(swept_row_upto(pre, c2 as int, s2 + 1 as int) == swept_row_upto(
                            pre,
                            c2 as int,
                            s2 as int,
                        ).push(id));
                        assert(cur2.free_list() =~= pre.free_list() + swept_chunks_upto(
                            pre,
                            c2 as int,
                        ) + swept_row_upto(pre, c2 as int, s2 + 1 as int));
                    }
                } else {
                    proof {
                        if pre.is_live(id) && !pre.reachable(id) {
                            assert(mark_evolved(pre, ms, id));
                            assert(!marked(pre, ms, id));
                            assert(ms.entry_at(id).spec_markbit() != pre.polarity());
                            assert(!ms.entry_at(id).spec_is_free());
                            if ecount > 0 {
                                assert(pre.count_of(id) > 0);
                                assert(pre.is_root(id));
                                pre.lemma_root_reachable(id);
                            }
                        }
                        assert forall|id2: NodeId| pre.valid_id(id2) implies
                            #[trigger] sweep_entry_ok(
                            pre,
                            ms,
                            *self,
                            id2,
                            c2 as int,
                            s2 + 1 as int,
                        ) by {
                            assert(sweep_entry_ok(pre, ms, *self, id2, c2 as int, s2 as int));
                        }
                        assert(swept_row_upto(pre, c2 as int, s2 + 1 as int) == swept_row_upto(
                            pre,
                            c2 as int,
                            s2 as int,
                        ));
                    }
                }
                s2 += 1;
            }
            proof {
                assert(self.chunks@[c2 as int]@ == self.chunks_seq()[c2 as int]);
                assert(self.chunk_len(c2 as int) == pre.chunk_len(c2 as int));
                assert(s2 as int == pre.chunk_len(c2 as int));
                assert(swept_chunks_upto(pre, c2 + 1 as int) == swept_chunks_upto(pre, c2 as int)
                    + swept_row_upto(pre, c2 as int, pre.chunk_len(c2 as int)));
                assert(self.free_list() =~= pre.free_list() + swept_chunks_upto(
                    pre,
                    c2 + 1 as int,
                ));
                assert forall|id2: NodeId| pre.valid_id(id2) implies #[trigger] sweep_entry_ok(
                    pre,
                    ms,
                    *self,
                    id2,
                    c2 + 1 as int,
                    0,
                ) by {
                    assert(sweep_entry_ok(pre, ms, *self, id2, c2 as int, pre.chunk_len(
                        c2 as int,
                    )));
                }
            }
            c2 += 1;
        }
        let ghost sw = *self;
        // Flip the polarity: survivors read as unmarked again.
        self.markbit_marked = !self.markbit_marked;
        proof {
            broadcast use vstd::std_specs::vec::axiom_spec_len;
            assert(vstd::std_specs::vec::spec_vec_len(&pre.chunks) == pre.chunks@.len());
            assert forall|cc: int| 0 <= cc < pre.num_chunks() implies #[trigger] pre.chunk_len(cc)
                <= usize::MAX by {
                assert(vstd::std_specs::vec::spec_vec_len(&pre.chunks@[cc])
                    == pre.chunks@[cc]@.len());
            }
            assert forall|cc: int| 0 <= cc < pre.num_chunks() implies #[trigger] self.chunk_len(
                cc,
            ) == pre.chunk_len(cc) by {
                assert(sw.chunk_len(cc) == pre.chunk_len(cc));
            }
            self.lemma_gc_finish(pre, ms, sw);
        }
    }
}


impl Context {
    /// Assemble collection's contract once marking and sweeping are done and
    /// the polarity has flipped: the heap is well formed again and relates
    /// to its pre-collection state by [`gc_rel`].
    proof fn lemma_gc_finish(&self, pre: Context, ms: Context, sw: Context)
        requires
            pre.wf(),
            forall|id: NodeId| pre.valid_id(id) ==> #[trigger] mark_evolved(pre, ms, id),
            forall|id: NodeId|
                #[trigger] pre.is_live(id) ==> (marked(pre, ms, id) <==> pre.reachable(id)),
            forall|id: NodeId|
                pre.valid_id(id) ==> #[trigger] sweep_entry_ok(
                    pre,
                    ms,
                    sw,
                    id,
                    pre.num_chunks(),
                    0,
                ),
            sw.free_list() == pre.free_list() + swept_order(pre),
            pre.num_chunks() <= usize::MAX,
            forall|cc: int| 0 <= cc < pre.num_chunks() ==> #[trigger] pre.chunk_len(cc)
                <= usize::MAX,
            self.chunks_seq() == sw.chunks_seq(),
            self.free_list() == sw.free_list(),
            self.spec_id() == pre.spec_id(),
            self.caps_seq() == pre.caps_seq(),
            self.handle_total() == pre.handle_total(),
            self.next_cap() == pre.next_cap(),
            self.polarity() == !pre.polarity(),
            self.strict() == pre.strict(),
            self.spec_atoms() == pre.spec_atoms(),
            self.spec_sm() == pre.spec_sm(),
            self.num_chunks() == pre.num_chunks(),
            forall|cc: int| 0 <= cc < pre.num_chunks() ==> #[trigger] self.chunk_len(cc)
                == pre.chunk_len(cc),
        ensures
            self.wf(),
            gc_rel(pre, *self),
    {
        let post = *self;
        lemma_swept_chunks_props(pre, pre.num_chunks());
        let swept = swept_order(pre);
        let fl = pre.free_list().len() as int;
        assert forall|id: NodeId| pre.valid_id(id) implies #[trigger] gc_entry_rel(
            pre,
            post,
            id,
        ) by {
            assert(sweep_entry_ok(pre, ms, sw, id, pre.num_chunks(), 0));
            assert(mark_evolved(pre, ms, id));
            if pre.is_live(id) && pre.reachable(id) {
                assert(marked(pre, ms, id));
                assert(post.entry_at(id) == ms.entry_at(id));
                assert(pre.owner_of(id) == pre.spec_id());
                lemma_owner_nonzero_not_free(post.entry_at(id));
            }
        }
        assert forall|c: int| 0 <= c < post.num_chunks() implies #[trigger] post.caps_seq()[c]
            == cap_of(c) by {
            assert(pre.caps_seq()[c] == cap_of(c));
        }
        assert forall|c: int| 0 <= c < post.num_chunks() implies #[trigger] post.chunk_len(c)
            <= post.caps_seq()[c] by {
            assert(pre.chunk_len(c) <= pre.caps_seq()[c]);
        }
        assert forall|c: int| 0 <= c < post.num_chunks() - 1 implies #[trigger] post.chunk_len(c)
            == post.caps_seq()[c] by {
            assert(pre.chunk_len(c) == pre.caps_seq()[c]);
        }
        assert forall|id: NodeId| #[trigger] post.is_live(id) implies post.owner_of(id)
            == post.spec_id() && post.mark_of(id) == !post.polarity() by {
            assert(gc_entry_rel(pre, post, id));
            if pre.is_live(id) && pre.reachable(id) {
                assert(pre.owner_of(id) == pre.spec_id());
            } else if pre.is_live(id) {
                assert(post.entry_at(id).ctx_id_markbit == 0);
            } else {
                assert(pre.entry_at(id).spec_is_free());
            }
        }
        assert forall|id: NodeId, j: int|
            post.is_live(id) && 0 <= j < post.children_at(id).len() implies post.is_live(
            #[trigger] post.children_at(id)[j],
        ) by {
            assert(gc_entry_rel(pre, post, id));
            assert(pre.is_live(id) && pre.reachable(id));
            assert(post.children_at(id) == pre.children_at(id));
            let chd = pre.children_at(id)[j];
            assert(pre.is_live(chd));
            assert(pre.children_at(id).contains(chd));
            assert(pre.step(id, chd));
            pre.lemma_step_reachable(id, chd);
            assert(gc_entry_rel(pre, post, chd));
        }
        assert forall|id: NodeId|
            post.valid_id(id) && post.entry_at(id).spec_is_free() implies post.count_of(id) == 0
                && post.free_list().contains(id) by {
            assert(gc_entry_rel(pre, post, id));
            if pre.is_live(id) && pre.reachable(id) {
                assert(post.is_live(id));
            } else if pre.is_live(id) {
                if pre.count_of(id) > 0 {
                    pre.lemma_root_reachable(id);
                }
                assert(post.count_of(id) == 0);
                assert(swept.contains(id));
                let i = choose|i: int| 0 <= i < swept.len() && swept[i] == id;
                assert(post.free_list()[fl + i] == id);
                assert(post.free_list().contains(id));
            } else {
                assert(pre.entry_at(id).spec_is_free());
                assert(pre.count_of(id) == 0 && pre.free_list().contains(id));
                let i = choose|i: int|
                    0 <= i < pre.free_list().len() && pre.free_list()[i] == id;
                assert(post.free_list()[i] == id);
                assert(post.free_list().contains(id));
            }
        }
        assert forall|i: int| 0 <= i < post.free_list().len() implies post.valid_id(
            #[trigger] post.free_list()[i],
        ) && post.entry_at(post.free_list()[i]).spec_is_free() by {
            if i < fl {
                let id = pre.free_list()[i];
                assert(pre.valid_id(id) && pre.entry_at(id).spec_is_free());
                assert(gc_entry_rel(pre, post, id));
                assert(post.free_list()[i] == id);
            } else {
                let id = swept[i - fl];
                assert(pre.valid_id(id) && pre.is_live(id) && !pre.reachable(id));
                assert(gc_entry_rel(pre, post, id));
                assert(post.free_list()[i] == id);
                assert(post.entry_at(id).ctx_id_markbit == 0);
            }
        }
        assert forall|i: int, j: int| 0 <= i < j < post.free_list().len() implies post.free_list()[i]
            != post.free_list()[j] by {
            if j < fl {
                assert(pre.free_list()[i] != pre.free_list()[j]);
            } else if i < fl {
                let a = pre.free_list()[i];
                let b = swept[j - fl];
                assert(pre.entry_at(a).spec_is_free());
                assert(pre.is_live(b));
                assert(post.free_list()[i] == a && post.free_list()[j] == b);
            } else {
                assert(swept[i - fl] != swept[j - fl]);
            }
        }
        assert forall|c: int| 0 <= c < post.chunks_seq().len() implies post.chunks_seq()[c].len()
            == pre.chunks_seq()[c].len() by {
            assert(post.chunk_len(c) == pre.chunk_len(c));
        }
        assert forall|c: int, s: int|
            0 <= c < post.chunks_seq().len() && 0 <= s < post.chunks_seq()[c].len() implies
            post.chunks_seq()[c][s].count == pre.chunks_seq()[c][s].count by {
            assert(pre.chunk_len(c) <= usize::MAX);
            assert(0 <= s < pre.chunk_len(c));
            let id = NodeId { chunk: c as usize, slot: s as usize };
            assert(id.chunk as int == c && id.slot as int == s);
            assert(pre.valid_id(id));
            assert(gc_entry_rel(pre, post, id));
        }
        lemma_chunks_sum_same(post.chunks_seq(), pre.chunks_seq());
        assert(post.handle_total() == chunks_count_sum(post.chunks_seq()));
    }
}


impl Context {
    /// Every element of a path is itself reachable: cut the path off there.
    proof fn lemma_path_element_reachable(&self, p: Seq<NodeId>, i: int)
        requires
            self.is_path(p),
            0 <= i < p.len(),
        ensures
            self.reachable(p[i]),
    {
        let q = p.take(i + 1);
        assert forall|k: int| 0 <= k < q.len() - 1 implies #[trigger] self.step(q[k], q[k + 1]) by {
            assert(self.step(p[k], p[k + 1]));
        }
        assert(self.is_path(q));
        assert(q.last() == p[i]);
    }
}

proof fn lemma_swept_row_empty(pre: Context, c: int, s: int)
    requires
        forall|id: NodeId| #[trigger] pre.is_live(id) ==> pre.reachable(id),
    ensures
        swept_row_upto(pre, c, s).len() == 0,
    decreases s,
{
    if s > 0 {
        lemma_swept_row_empty(pre, c, s - 1);
    }
}

proof fn lemma_swept_empty(pre: Context, c: int)
    requires
        forall|id: NodeId| #[trigger] pre.is_live(id) ==> pre.reachable(id),
    ensures
        swept_chunks_upto(pre, c).len() == 0,
    decreases c,
{
    if c > 0 {
        lemma_swept_empty(pre, c - 1);
        lemma_swept_row_empty(pre, c - 1, pre.chunk_len(c - 1));
    }
}

/// After a collection, the live entries are exactly the entries that were
/// reachable from the handles, and reachability itself is unchanged: the
/// collection neither loses nor gains paths.
pub proof fn lemma_gc_reachability(pre: Context, post: Context)
    requires
        pre.wf(),
        gc_rel(pre, post),
    ensures
        forall|id: NodeId| #[trigger] post.is_live(id) <==> pre.is_live(id) && pre.reachable(id),
        forall|id: NodeId| #[trigger] post.reachable(id) <==> pre.reachable(id),
{
    assert forall|id: NodeId| #[trigger] post.is_live(id) <==> pre.is_live(id) && pre.reachable(
        id,
    ) by {
        if pre.valid_id(id) {
            assert(gc_entry_rel(pre, post, id));
            if post.is_live(id) {
                if pre.is_live(id) && !pre.reachable(id) {
                    assert(post.entry_at(id).ctx_id_markbit == 0);
                }
                if !pre.is_live(id) {
                    assert(post.entry_at(id) == pre.entry_at(id));
                }
            }
        } else {
            assert(!post.valid_id(id));
        }
    }
    assert forall|id: NodeId| #[trigger] post.is_root(id) <==> pre.is_root(id) by {
        if pre.valid_id(id) {
            assert(gc_entry_rel(pre, post, id));
            if pre.is_root(id) {
                pre.lemma_root_reachable(id);
            }
        } else {
            assert(!post.valid_id(id));
        }
    }
    assert forall|id: NodeId| #[trigger] post.reachable(id) implies pre.reachable(id) by {
        let p = choose|p: Seq<NodeId>| post.is_path(p) && p.last() == id;
        assert forall|i: int| 0 <= i < p.len() - 1 implies #[trigger] pre.step(p[i], p[i + 1]) by {
            assert(post.step(p[i], p[i + 1]));
            assert(post.is_live(p[i]));
            assert(gc_entry_rel(pre, post, p[i]));
            assert(post.node_at(p[i]) == pre.node_at(p[i]));
        }
        assert(pre.is_path(p));
    }
    assert forall|id: NodeId| pre.reachable(id) implies #[trigger] post.reachable(id) by {
        let p = choose|p: Seq<NodeId>| pre.is_path(p) && p.last() == id;
        assert forall|i: int| 0 <= i < p.len() - 1 implies #[trigger] post.step(p[i], p[i + 1]) by {
            pre.lemma_path_element_reachable(p, i);
            assert(pre.step(p[i], p[i + 1]));
            assert(pre.is_live(p[i]) && pre.reachable(p[i]));
            assert(post.is_live(p[i]));
            assert(gc_entry_rel(pre, post, p[i]));
            assert(post.node_at(p[i]) == pre.node_at(p[i]));
        }
        assert(post.is_path(p));
    }
}

/// Collection's guarantees, entry by entry: an entry some handle points at
/// survives with its count and node intact; whatever such an entry reaches
/// survives; a live entry that is neither is reclaimed, its owner id
/// cleared to zero and its address on the free list; and every survivor
/// rests unmarked.
pub proof fn lemma_collect_guarantees(pre: Context, post: Context)
    requires
        pre.wf(),
        post.wf(),
        gc_rel(pre, post),
    ensures
        forall|id: NodeId|
            #[trigger] pre.is_root(id) ==> post.is_live(id) && post.count_of(id) == pre.count_of(
                id,
            ) && post.node_at(id) == pre.node_at(id),
        forall|id: NodeId|
            #[trigger] pre.reachable(id) ==> post.is_live(id) && post.node_at(id) == pre.node_at(
                id,
            ),
        forall|id: NodeId|
            pre.is_live(id) && !pre.reachable(id) ==> !post.is_live(id) && post.owner_of(id) == 0
                && post.free_list().contains(id),
        forall|id: NodeId| #[trigger] post.is_live(id) ==> post.mark_of(id) == !post.polarity(),
{
    lemma_gc_reachability(pre, post);
    assert forall|id: NodeId| #[trigger] pre.is_root(id) implies post.is_live(id)
        && post.count_of(id) == pre.count_of(id) && post.node_at(id) == pre.node_at(id) by {
        pre.lemma_root_reachable(id);
        assert(gc_entry_rel(pre, post, id));
    }
    assert forall|id: NodeId| #[trigger] pre.reachable(id) implies post.is_live(id)
        && post.node_at(id) == pre.node_at(id) by {
        pre.lemma_reachable_live(id);
        assert(gc_entry_rel(pre, post, id));
    }
    assert forall|id: NodeId| pre.is_live(id) && !pre.reachable(id) implies !post.is_live(id)
        && post.owner_of(id) == 0 && post.free_list().contains(id) by {
        assert(gc_entry_rel(pre, post, id));
        assert(post.chunk_len(id.chunk as int) == pre.chunk_len(id.chunk as int));
        assert(post.valid_id(id));
        assert(post.entry_at(id).ctx_id_markbit == 0);
        assert(0u32 & 0x7FFF_FFFFu32 == 0u32) by (bit_vector);
        assert(post.owner_of(id) == 0);
        assert(post.entry_at(id).spec_is_free());
        assert(post.free_list().contains(id));
    }
}

/// Two back-to-back collections with no mutation in between: the second
/// reclaims nothing. Liveness, reachability, counts, nodes and the free
/// list all come out identical.
pub proof fn lemma_collect_idempotent(h0: Context, h1: Context, h2: Context)
    requires
        h0.wf(),
        h1.wf(),
        gc_rel(h0, h1),
        gc_rel(h1, h2),
    ensures
        h2.free_list() == h1.free_list(),
        forall|id: NodeId| #[trigger] h2.is_live(id) <==> h1.is_live(id),
        forall|id: NodeId| #[trigger] h2.reachable(id) <==> h1.reachable(id),
        forall|id: NodeId|
            h1.valid_id(id) ==> #[trigger] h2.entry_at(id).count == h1.entry_at(id).count
                && h2.entry_at(id).inner == h1.entry_at(id).inner,
{
    lemma_gc_reachability(h0, h1);
    lemma_gc_reachability(h1, h2);
    assert forall|id: NodeId| #[trigger] h1.is_live(id) implies h1.reachable(id) by {
        assert(h0.is_live(id) && h0.reachable(id));
    }
    lemma_swept_empty(h1, h1.num_chunks());
    assert(h2.free_list() =~= h1.free_list());
    assert forall|id: NodeId|
        h1.valid_id(id) implies #[trigger] h2.entry_at(id).count == h1.entry_at(id).count
        && h2.entry_at(id).inner == h1.entry_at(id).inner by {
        assert(gc_entry_rel(h1, h2, id));
    }
}


/// Stability under allocation: allocating writes one slot — a reused free
/// slot or a fresh one — and no other entry moves or changes.
pub proof fn lemma_entry_stable_under_alloc(
    pre: Context,
    post: Context,
    t: NodeTemplate,
    r: NodeId,
    id: NodeId,
)
    requires
        alloc_rel(pre, post, t, r),
        pre.valid_id(id),
        id != r,
    ensures
        post.entry_at(id) == pre.entry_at(id),
{
}

/// Stability under collection: a reachable entry keeps its address, its
/// node and its handle count through a collection.
pub proof fn lemma_entry_stable_under_collect(pre: Context, post: Context, id: NodeId)
    requires
        pre.wf(),
        gc_rel(pre, post),
        pre.reachable(id),
    ensures
        post.is_live(id),
        post.node_at(id) == pre.node_at(id),
        post.count_of(id) == pre.count_of(id),
{
    pre.lemma_reachable_live(id);
    assert(gc_entry_rel(pre, post, id));
}

} // verus!
