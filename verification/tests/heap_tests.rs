use juno_ast::{
    Context, ContextIdCounter, GCContext, HeapError, NodeId, NodePtr, NodeTemplate, SessionFlag,
    TemplateMetadata,
};

fn num_template(value: f64) -> NodeTemplate {
    NodeTemplate::NumericLiteral { metadata: TemplateMetadata::default(), value: value.to_bits() }
}

fn live_count(ctx: &Context) -> usize {
    let mut n = 0;
    for c in 0..ctx.chunk_count() {
        for s in 0..ctx.chunk_size(c) {
            if !ctx.entry(NodeId { chunk: c, slot: s }).is_free() {
                n += 1;
            }
        }
    }
    n
}

#[test]
fn fresh_heap_shape() {
    let mut ids = ContextIdCounter::new();
    let ctx = Context::new(ids.fresh_id());
    assert_eq!(ctx.chunk_count(), 1);
    assert_eq!(ctx.chunk_capacity(0), 1024);
    assert_eq!(ctx.chunk_size(0), 0);
    assert_eq!(ctx.free_count(), 0);
    assert_eq!(ctx.num_handles(), 0);
    assert!(ctx.mark_polarity());
    assert!(!ctx.strict_mode());
}

#[test]
fn id_counter_is_monotonic() {
    let mut ids = ContextIdCounter::new();
    let a = ids.fresh_id();
    let b = ids.fresh_id();
    let c = ids.fresh_id();
    assert_eq!(a, 1);
    assert_eq!(b, 2);
    assert_eq!(c, 3);
}

#[test]
fn strict_mode_is_monotonic() {
    let mut ctx = Context::new(7);
    assert!(!ctx.strict_mode());
    ctx.enable_strict_mode();
    assert!(ctx.strict_mode());
    ctx.enable_strict_mode();
    assert!(ctx.strict_mode());
}

#[test]
fn collect_without_roots_reclaims_everything() {
    // S2: allocate three nodes, promote none, collect.
    let mut flag = SessionFlag::new();
    let ctx = Context::new(1);
    let mut gc = GCContext::new(&mut flag, ctx);
    let a = gc.alloc_node(num_template(1.0));
    let b = gc.alloc_node(num_template(2.0));
    let c = gc.alloc_node(
        NodeTemplate::BinaryExpression {
            metadata: TemplateMetadata::default(),
            operator: juno_ast::BinaryExpressionOperator::Plus,
            left: a,
            right: b,
        },
    );
    assert_ne!(a, c);
    let mut ctx = gc.finish(&mut flag);
    assert!(ctx.mark_polarity());
    ctx.gc();
    assert_eq!(live_count(&ctx), 0);
    assert_eq!(ctx.free_count(), 3);
    assert!(!ctx.mark_polarity());
}

#[test]
fn collect_keeps_what_a_handle_reaches() {
    // S1: build 1 + 2, promote the sum, collect, and read it back.
    let mut flag = SessionFlag::new();
    let ctx = Context::new(1);
    let mut gc = GCContext::new(&mut flag, ctx);
    let a = gc.alloc_node(num_template(1.0));
    let b = gc.alloc_node(num_template(2.0));
    let c = gc.alloc_node(
        NodeTemplate::BinaryExpression {
            metadata: TemplateMetadata::default(),
            operator: juno_ast::BinaryExpressionOperator::Plus,
            left: a,
            right: b,
        },
    );
    let h = NodePtr::from_node(&mut gc, c);
    let mut ctx = gc.finish(&mut flag);
    ctx.gc();
    assert_eq!(live_count(&ctx), 3);
    let gc = GCContext::new(&mut flag, ctx);
    match h.node(&gc) {
        juno_ast::Node::BinaryExpression { operator, left, right, .. } => {
            assert_eq!(*operator, juno_ast::BinaryExpressionOperator::Plus);
            assert_eq!(*left, a);
            assert_eq!(*right, b);
            match gc.node(*left) {
                juno_ast::Node::NumericLiteral { value, .. } => {
                    assert_eq!(f64::from_bits(*value), 1.0)
                }
                _ => panic!("left child is not a numeric literal"),
            }
            match gc.node(*right) {
                juno_ast::Node::NumericLiteral { value, .. } => {
                    assert_eq!(f64::from_bits(*value), 2.0)
                }
                _ => panic!("right child is not a numeric literal"),
            }
        }
        _ => panic!("expected a binary expression"),
    }
    let mut ctx = gc.finish(&mut flag);
    h.free(&mut ctx);
    assert!(ctx.finish().is_ok());
}

#[test]
fn collect_reclaims_what_no_handle_reaches() {
    // S3: promote only the first literal; the others are reclaimed.
    let mut flag = SessionFlag::new();
    let ctx = Context::new(1);
    let mut gc = GCContext::new(&mut flag, ctx);
    let a = gc.alloc_node(num_template(1.0));
    let b = gc.alloc_node(num_template(2.0));
    let c = gc.alloc_node(
        NodeTemplate::BinaryExpression {
            metadata: TemplateMetadata::default(),
            operator: juno_ast::BinaryExpressionOperator::Plus,
            left: a,
            right: b,
        },
    );
    let h = NodePtr::from_node(&mut gc, a);
    let mut ctx = gc.finish(&mut flag);
    ctx.gc();
    assert_eq!(live_count(&ctx), 1);
    assert!(ctx.entry(b).is_free());
    assert!(ctx.entry(c).is_free());
    let gc = GCContext::new(&mut flag, ctx);
    match h.node(&gc) {
        juno_ast::Node::NumericLiteral { value, .. } => assert_eq!(f64::from_bits(*value), 1.0),
        _ => panic!("expected the promoted literal"),
    }
    let mut ctx = gc.finish(&mut flag);
    h.free(&mut ctx);
}

#[test]
fn cross_heap_dereference_is_reported() {
    // S4: a handle from one heap, a session over another.
    let mut flag = SessionFlag::new();
    let mut ids = ContextIdCounter::new();
    let h1 = Context::new(ids.fresh_id());
    let h2 = Context::new(ids.fresh_id());
    let id1 = h1.id();
    let id2 = h2.id();
    let mut gc = GCContext::new(&mut flag, h1);
    let a = gc.alloc_node(num_template(1.0));
    let p = NodePtr::from_node(&mut gc, a);
    let mut h1 = gc.finish(&mut flag);
    let gc = GCContext::new(&mut flag, h2);
    match p.try_node(&gc) {
        Err(HeapError::CrossHeapDereference { ptr_ctx, gc_ctx }) => {
            assert_eq!(ptr_ctx, id1);
            assert_eq!(gc_ctx, id2);
        }
        _ => panic!("expected a cross-heap dereference error"),
    }
    let _h2 = gc.finish(&mut flag);
    p.free(&mut h1);
}

#[test]
fn second_session_on_a_thread_is_refused() {
    // S5: while one session is live, another cannot be opened.
    let mut flag = SessionFlag::new();
    let mut ids = ContextIdCounter::new();
    let h1 = Context::new(ids.fresh_id());
    let h2 = Context::new(ids.fresh_id());
    let gc = GCContext::new(&mut flag, h1);
    assert!(flag.in_use());
    match GCContext::try_new(&mut flag, h2) {
        Err((h2_back, HeapError::MultipleSessions)) => {
            assert_eq!(h2_back.chunk_count(), 1);
        }
        _ => panic!("expected the multiple-sessions error"),
    }
    let _h1 = gc.finish(&mut flag);
    assert!(!flag.in_use());
}

#[test]
fn chunks_double_and_addresses_stay() {
    // S6: 2048 allocations fill the first chunk and grow a doubled one.
    let mut flag = SessionFlag::new();
    let ctx = Context::new(1);
    let mut gc = GCContext::new(&mut flag, ctx);
    let mut entry_1025 = None;
    let mut first = None;
    for i in 0..2048u32 {
        let id = gc.alloc_node(num_template(i as f64));
        if i == 0 {
            first = Some(id);
        }
        if i == 1024 {
            entry_1025 = Some(id);
        }
    }
    let ctx = gc.finish(&mut flag);
    assert!(ctx.chunk_count() >= 2);
    assert_eq!(ctx.chunk_capacity(0), 1024);
    assert_eq!(ctx.chunk_capacity(1), 2048);
    assert_eq!(ctx.chunk_size(0), 1024);
    let id1025 = entry_1025.unwrap();
    assert_eq!(id1025.chunk, 1);
    assert_eq!(id1025.slot, 0);
    let id1 = first.unwrap();
    assert_eq!(id1.chunk, 0);
    assert_eq!(id1.slot, 0);
    match ctx.entry(id1025).inner {
        juno_ast::Node::NumericLiteral { value, .. } => {
            assert_eq!(f64::from_bits(value), 1024.0)
        }
        _ => panic!("expected a numeric literal"),
    }
}

#[test]
fn free_slots_are_reused_last_in_first_out() {
    let mut flag = SessionFlag::new();
    let ctx = Context::new(1);
    let mut gc = GCContext::new(&mut flag, ctx);
    let _a = gc.alloc_node(num_template(1.0));
    let b = gc.alloc_node(num_template(2.0));
    let keep = gc.alloc_node(num_template(3.0));
    let h = NodePtr::from_node(&mut gc, keep);
    let mut ctx = gc.finish(&mut flag);
    ctx.gc();
    assert_eq!(ctx.free_count(), 2);
    let mut gc = GCContext::new(&mut flag, ctx);
    let reused = gc.alloc_node(num_template(4.0));
    // the sweep pushed slot a then slot b; reuse pops b first
    assert_eq!(reused, b);
    let mut ctx = gc.finish(&mut flag);
    assert_eq!(ctx.free_count(), 1);
    h.free(&mut ctx);
}

#[test]
fn collect_twice_changes_nothing_more() {
    let mut flag = SessionFlag::new();
    let ctx = Context::new(1);
    let mut gc = GCContext::new(&mut flag, ctx);
    let a = gc.alloc_node(num_template(1.0));
    let _b = gc.alloc_node(num_template(2.0));
    let h = NodePtr::from_node(&mut gc, a);
    let mut ctx = gc.finish(&mut flag);
    ctx.gc();
    let free_after_first = ctx.free_count();
    let live_after_first = live_count(&ctx);
    ctx.gc();
    assert_eq!(ctx.free_count(), free_after_first);
    assert_eq!(live_count(&ctx), live_after_first);
    h.free(&mut ctx);
}

#[test]
fn handle_counts_are_tracked() {
    let mut flag = SessionFlag::new();
    let ctx = Context::new(1);
    let mut gc = GCContext::new(&mut flag, ctx);
    let a = gc.alloc_node(num_template(1.0));
    let h1 = NodePtr::from_node(&mut gc, a);
    let h2 = h1.clone_ptr(&mut gc);
    assert_eq!(h1, h2);
    assert_eq!(gc.ctx().num_handles(), 2);
    assert_eq!(gc.ctx().entry(a).count, 2);
    let mut ctx = gc.finish(&mut flag);
    h1.free(&mut ctx);
    assert_eq!(ctx.num_handles(), 1);
    h2.free(&mut ctx);
    assert_eq!(ctx.num_handles(), 0);
    assert!(ctx.finish().is_ok());
}

#[test]
fn heap_with_live_handles_refuses_teardown() {
    let mut flag = SessionFlag::new();
    let ctx = Context::new(1);
    let mut gc = GCContext::new(&mut flag, ctx);
    let a = gc.alloc_node(num_template(1.0));
    let h = NodePtr::from_node(&mut gc, a);
    let ctx = gc.finish(&mut flag);
    assert_eq!(ctx.first_handle_holder(), Some(a));
    match ctx.finish() {
        Err(HeapError::HeapDestroyedWithLiveHandles { entry }) => assert_eq!(entry, a),
        _ => panic!("expected the live-handles error"),
    }
    drop(h);
}
