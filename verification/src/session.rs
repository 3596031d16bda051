//! Scoped viewing sessions over a heap, and the session-independent handles
//! that keep entries alive across collections.
//!
//! A [`GCContext`] binds one heap for the length of a scope: while it lives
//! it is the only way to allocate nodes or follow a [`NodePtr`], and a
//! per-thread [`SessionFlag`] refuses a second session on the same thread.
//! A [`NodePtr`] outlives sessions: it pins its entry as a collection root
//! until it is explicitly released.

use vstd::prelude::*;
use crate::atom_table::Atom;
use crate::heap::{alloc_rel, handle_bump_rel, Context, HeapError};
use crate::node::{Node, NodeId, NodeTemplate};
use crate::source::SourceManager;

verus! {

/// The per-thread "a session is open" flag. Each thread owns exactly one;
/// opening a session sets it and closing the session clears it, so no two
/// sessions can view heaps from the same thread at once.
pub struct SessionFlag {
    in_use: bool,
}

impl SessionFlag {
    /// Whether a session currently holds this flag.
    pub closed spec fn spec_in_use(&self) -> bool {
        self.in_use
    }

    /// The flag of a thread with no open session.
    pub fn new() -> (r: SessionFlag)
        ensures
            !r.spec_in_use(),
    {
        SessionFlag { in_use: false }
    }

    /// Whether a session currently holds this flag.
    pub fn in_use(&self) -> (r: bool)
        ensures
            r == self.spec_in_use(),
    {
        self.in_use
    }
}

/// A scoped, thread-exclusive view over one heap: the only gateway for
/// allocating nodes and for dereferencing handles.
pub struct GCContext {
    ctx: Context,
}

impl GCContext {
    /// The heap this session views.
    pub closed spec fn ctx_spec(&self) -> Context {
        self.ctx
    }

    /// The viewed heap's invariant.
    pub open spec fn wf(&self) -> bool {
        self.ctx_spec().wf()
    }

    /// The viewed heap's id.
    pub open spec fn id_spec(&self) -> u32 {
        self.ctx_spec().spec_id()
    }

    /// Whether `id` addresses a live entry of the viewed heap.
    pub open spec fn is_live(&self, id: NodeId) -> bool {
        self.ctx_spec().is_live(id)
    }

    /// The node stored at `id` in the viewed heap.
    pub open spec fn node_at(&self, id: NodeId) -> Node {
        self.ctx_spec().node_at(id)
    }

    /// Open a session over `ctx`. The flag must be clear: at most one
    /// session may exist per thread at any time.
    pub fn new(flag: &mut SessionFlag, ctx: Context) -> (gc: GCContext)
        requires
            !old(flag).spec_in_use(),
        ensures
            final(flag).spec_in_use(),
            gc.ctx_spec() == ctx,
    {
        flag.in_use = true;
        GCContext { ctx }
    }

    /// Open a session over `ctx`, surfacing [`HeapError::MultipleSessions`]
    /// (with the heap handed back) instead of the fatal path when a session
    /// is already open on this thread.
    pub fn try_new(flag: &mut SessionFlag, ctx: Context) -> (r: Result<
        GCContext,
        (Context, HeapError),
    >)
        ensures
            old(flag).spec_in_use() ==> final(flag).spec_in_use() && (r matches Err(p) && p.0
                == ctx && p.1 == HeapError::MultipleSessions),
            !old(flag).spec_in_use() ==> final(flag).spec_in_use() && (r matches Ok(gc)
                && gc.ctx_spec() == ctx),
    {
        if flag.in_use {
            Err((ctx, HeapError::MultipleSessions))
        } else {
            flag.in_use = true;
            Ok(GCContext { ctx })
        }
    }

    /// End the session: clear the thread's flag and hand the heap back.
    /// Every node reference (id) obtained through this session must be
    /// considered dead from here on; only handles survive.
    pub fn finish(self, flag: &mut SessionFlag) -> (ctx: Context)
        requires
            old(flag).spec_in_use(),
        ensures
            !final(flag).spec_in_use(),
            ctx == self.ctx_spec(),
    {
        flag.in_use = false;
        self.ctx
    }

    /// Allocate a node described by `template` in the viewed heap.
    pub fn alloc_node(&mut self, template: NodeTemplate) -> (r: NodeId)
        requires
            old(self).wf(),
            old(self).ctx_spec().template_ok(template),
        ensures
            final(self).wf(),
            alloc_rel(old(self).ctx_spec(), final(self).ctx_spec(), template, r),
    {
        self.ctx.alloc_node(template)
    }

    /// Return a reference to the owning heap.
    pub fn ctx(&self) -> (r: &Context)
        ensures
            *r == self.ctx_spec(),
    {
        &self.ctx
    }

    /// The viewed heap's id.
    pub fn id(&self) -> (r: u32)
        ensures
            r == self.id_spec(),
    {
        self.ctx.id()
    }

    /// Read the node stored at `id`. The reference lives only as long as
    /// the session borrow.
    pub fn node(&self, id: NodeId) -> (n: &Node)
        requires
            self.is_live(id),
        ensures
            *n == self.node_at(id),
    {
        &self.ctx.entry(id).inner
    }

    /// Add a string to the identifier table.
    pub fn atom(&mut self, value: &str) -> (a: Atom)
        requires
            old(self).wf(),
            old(self).ctx_spec().atoms_view().len() + 1 < u32::MAX,
        ensures
            final(self).wf(),
            1 <= a.0 <= final(self).ctx_spec().atoms_view().len(),
            final(self).ctx_spec().atoms_view()[a.0 - 1] == value@,
            old(self).ctx_spec().atoms_view().contains(value@) ==> final(self).ctx_spec().atoms_view()
                == old(self).ctx_spec().atoms_view(),
            !old(self).ctx_spec().atoms_view().contains(value@)
                ==> final(self).ctx_spec().atoms_view()
                == old(self).ctx_spec().atoms_view().push(value@)
                && a.0 == old(self).ctx_spec().atoms_view().len() + 1,
            final(self).ctx_spec().spec_id() == old(self).ctx_spec().spec_id(),
            final(self).ctx_spec().chunks_seq() == old(self).ctx_spec().chunks_seq(),
            final(self).ctx_spec().caps_seq() == old(self).ctx_spec().caps_seq(),
            final(self).ctx_spec().free_list() == old(self).ctx_spec().free_list(),
            final(self).ctx_spec().handle_total() == old(self).ctx_spec().handle_total(),
            final(self).ctx_spec().next_cap() == old(self).ctx_spec().next_cap(),
            final(self).ctx_spec().polarity() == old(self).ctx_spec().polarity(),
            final(self).ctx_spec().strict() == old(self).ctx_spec().strict(),
            final(self).ctx_spec().spec_sm() == old(self).ctx_spec().spec_sm(),
    {
        self.ctx.atom(value)
    }

    /// Obtain the contents of an atom from the atom table.
    pub fn str(&self, index: Atom) -> (r: &str)
        requires
            1 <= index.0 <= self.ctx_spec().atoms_view().len(),
        ensures
            r@ == self.ctx_spec().atoms_view()[index.0 - 1],
    {
        self.ctx.str(index)
    }

    /// Return an immutable reference to the source manager.
    pub fn sm(&self) -> (r: &SourceManager)
        ensures
            *r == self.ctx_spec().spec_sm(),
    {
        self.ctx.sm()
    }

    /// Return a mutable reference to the source manager.
    pub fn sm_mut(&mut self) -> (r: &mut SourceManager)
        ensures
            *r == old(self).ctx_spec().spec_sm(),
            final(self).ctx_spec().spec_sm() == *final(r),
            final(self).ctx_spec().spec_id() == old(self).ctx_spec().spec_id(),
            final(self).ctx_spec().chunks_seq() == old(self).ctx_spec().chunks_seq(),
            final(self).ctx_spec().caps_seq() == old(self).ctx_spec().caps_seq(),
            final(self).ctx_spec().free_list() == old(self).ctx_spec().free_list(),
            final(self).ctx_spec().handle_total() == old(self).ctx_spec().handle_total(),
            final(self).ctx_spec().next_cap() == old(self).ctx_spec().next_cap(),
            final(self).ctx_spec().polarity() == old(self).ctx_spec().polarity(),
            final(self).ctx_spec().strict() == old(self).ctx_spec().strict(),
            final(self).ctx_spec().atoms_view() == old(self).ctx_spec().atoms_view(),
    {
        self.ctx.sm_mut()
    }
}

/// Reference counted pointer to a node in some heap.
///
/// It keeps references to nodes outside the lifetime of any session — and
/// keeps its target alive across collections — but the only way to inspect
/// the node is through a session over the same heap. Equality is identity:
/// two pointers are equal when they name the same slot of the same heap.
#[derive(PartialEq, Eq, Structural, Debug)]
pub struct NodePtr {
    /// Id of the heap the entry belongs to.
    ctx_id: u32,
    /// Address of the entry holding the node.
    entry: NodeId,
}

impl NodePtr {
    /// Id of the heap the entry belongs to.
    pub closed spec fn spec_ctx_id(&self) -> u32 {
        self.ctx_id
    }

    /// Address of the entry holding the node.
    pub closed spec fn spec_entry(&self) -> NodeId {
        self.entry
    }

    /// A handle is in good standing with heap `h` when it names `h`, its
    /// entry is live there, and the entry's refcount covers it.
    pub open spec fn ok_for(&self, h: Context) -> bool {
        &&& self.spec_ctx_id() == h.spec_id()
        &&& h.is_live(self.spec_entry())
        &&& h.count_of(self.spec_entry()) >= 1
    }

    /// Turn a session-scoped node reference into a handle, counting one more
    /// handle on the entry and on the heap.
    pub fn from_node(gc: &mut GCContext, node: NodeId) -> (p: NodePtr)
        requires
            old(gc).wf(),
            old(gc).is_live(node),
            old(gc).ctx_spec().handle_total() < 0xFFFF_FFFF,
        ensures
            final(gc).wf(),
            handle_bump_rel(old(gc).ctx_spec(), final(gc).ctx_spec(), node, 1),
            p.spec_ctx_id() == old(gc).id_spec(),
            p.spec_entry() == node,
            p.ok_for(final(gc).ctx_spec()),
    {
        let ctx_id = gc.ctx.id();
        gc.ctx.bump_handle(node);
        NodePtr { ctx_id, entry: node }
    }

    /// An independent copy of this handle, counting one more handle on the
    /// entry and on the heap.
    pub fn clone_ptr(&self, gc: &mut GCContext) -> (p: NodePtr)
        requires
            old(gc).wf(),
            self.ok_for(old(gc).ctx_spec()),
            old(gc).ctx_spec().handle_total() < 0xFFFF_FFFF,
        ensures
            final(gc).wf(),
            handle_bump_rel(old(gc).ctx_spec(), final(gc).ctx_spec(), self.spec_entry(), 1),
            p == *self,
            p.ok_for(final(gc).ctx_spec()),
            self.ok_for(final(gc).ctx_spec()),
    {
        gc.ctx.bump_handle(self.entry);
        NodePtr { ctx_id: self.ctx_id, entry: self.entry }
    }

    /// Destroy the handle, giving its counts back. Needs no session: a heap
    /// can always take a release, but the release must not be elided.
    pub fn free(self, ctx: &mut Context)
        requires
            old(ctx).wf(),
            self.ok_for(*old(ctx)),
        ensures
            final(ctx).wf(),
            handle_bump_rel(*old(ctx), *final(ctx), self.spec_entry(), -1),
    {
        ctx.drop_handle(self.entry);
    }

    /// Return the node this handle points to, through a session over the
    /// same heap. Dereferencing through a session over another heap is the
    /// fatal cross-heap error; this entry point excludes it by contract, and
    /// [`NodePtr::try_node`] surfaces it as a value.
    pub fn node<'a>(&self, gc: &'a GCContext) -> (n: &'a Node)
        requires
            self.ok_for(gc.ctx_spec()),
        ensures
            *n == gc.node_at(self.spec_entry()),
    {
        gc.node(self.entry)
    }

    /// Like [`NodePtr::node`], but a session over the wrong heap yields
    /// [`HeapError::CrossHeapDereference`] carrying both ids.
    pub fn try_node<'a>(&self, gc: &'a GCContext) -> (r: Result<&'a Node, HeapError>)
        requires
            self.spec_ctx_id() == gc.id_spec() ==> self.ok_for(gc.ctx_spec()),
        ensures
            self.spec_ctx_id() == gc.id_spec() ==> (r matches Ok(n) && *n == gc.node_at(
                self.spec_entry(),
            )),
            self.spec_ctx_id() != gc.id_spec() ==> (r matches Err(e) && e
                == (HeapError::CrossHeapDereference {
                ptr_ctx: self.spec_ctx_id(),
                gc_ctx: gc.id_spec(),
            })),
    {
        let gc_id = gc.id();
        if self.ctx_id != gc_id {
            Err(HeapError::CrossHeapDereference { ptr_ctx: self.ctx_id, gc_ctx: gc_id })
        } else {
            Ok(gc.node(self.entry))
        }
    }
}

} // verus!
