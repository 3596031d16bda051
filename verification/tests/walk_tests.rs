use juno_ast::{
    Context, GCContext, Node, NodeId, NodeTemplate, SessionFlag, TemplateMetadata, TransformResult,
    Visitor, VisitorMut,
};
use juno_ast::visitor::{transform_node_list, visit_list_mut, visit_opt_mut};

fn num_template(value: f64) -> NodeTemplate {
    NodeTemplate::NumericLiteral { metadata: TemplateMetadata::default(), value: value.to_bits() }
}

struct CountingVisitor {
    seen: Vec<(NodeId, Option<NodeId>)>,
}

impl Visitor for CountingVisitor {
    fn call(&mut self, _gc: &GCContext, node: NodeId, parent: Option<NodeId>) {
        self.seen.push((node, parent));
    }
}

struct KeepAll;

impl VisitorMut for KeepAll {
    fn call(
        &mut self,
        _gc: &mut GCContext,
        _node: NodeId,
        _parent: Option<NodeId>,
    ) -> TransformResult<NodeId> {
        TransformResult::Unchanged
    }
}

struct ReplaceOne {
    target: NodeId,
    replacement: NodeId,
}

impl VisitorMut for ReplaceOne {
    fn call(
        &mut self,
        _gc: &mut GCContext,
        node: NodeId,
        _parent: Option<NodeId>,
    ) -> TransformResult<NodeId> {
        if node == self.target {
            TransformResult::Changed(self.replacement)
        } else {
            TransformResult::Unchanged
        }
    }
}

#[test]
fn read_only_walk_sees_children_in_order() {
    let mut flag = SessionFlag::new();
    let ctx = Context::new(1);
    let mut gc = GCContext::new(&mut flag, ctx);
    let a = gc.alloc_node(num_template(1.0));
    let b = gc.alloc_node(num_template(2.0));
    let c = gc.alloc_node(num_template(3.0));
    let p = gc.alloc_node(
        NodeTemplate::Program { metadata: TemplateMetadata::default(), body: vec![a, b, c] },
    );
    let mut v = CountingVisitor { seen: Vec::new() };
    Node::visit(&gc, &mut v, p, None);
    assert_eq!(v.seen, vec![(p, None)]);
    v.seen.clear();
    Node::visit_children(&gc, &mut v, p);
    assert_eq!(v.seen, vec![(a, Some(p)), (b, Some(p)), (c, Some(p))]);
    gc.finish(&mut flag);
}

#[test]
fn unchanged_walk_keeps_the_node_list_identity() {
    // S7, second half: a walk that reports Unchanged everywhere allocates
    // nothing and leaves the containing node untouched.
    let mut flag = SessionFlag::new();
    let ctx = Context::new(1);
    let mut gc = GCContext::new(&mut flag, ctx);
    let body: Vec<NodeId> = (0..5).map(|i| gc.alloc_node(num_template(i as f64))).collect();
    let p = gc.alloc_node(
        NodeTemplate::Program { metadata: TemplateMetadata::default(), body: body.clone() },
    );
    let before = gc.ctx().chunk_size(0);
    let mut keep = KeepAll;
    match Node::visit_children_mut(&mut gc, &mut keep, p) {
        TransformResult::Unchanged => {}
        TransformResult::Changed(_) => panic!("nothing changed, so the node must be kept"),
    }
    assert_eq!(gc.ctx().chunk_size(0), before);
    match gc.node(p) {
        Node::Program { body: after, .. } => assert_eq!(*after, body),
        _ => panic!("expected the program node"),
    }
    gc.finish(&mut flag);
}

#[test]
fn changed_walk_replaces_exactly_one_element() {
    // S7, first half: Changed at index 2 keeps the other four elements
    // pointer-equal and swaps in the replacement.
    let mut flag = SessionFlag::new();
    let ctx = Context::new(1);
    let mut gc = GCContext::new(&mut flag, ctx);
    let body: Vec<NodeId> = (0..5).map(|i| gc.alloc_node(num_template(i as f64))).collect();
    let p = gc.alloc_node(
        NodeTemplate::Program { metadata: TemplateMetadata::default(), body: body.clone() },
    );
    let replacement = gc.alloc_node(num_template(99.0));
    let mut v = ReplaceOne { target: body[2], replacement };
    let new_p = match Node::visit_children_mut(&mut gc, &mut v, p) {
        TransformResult::Changed(n) => n,
        TransformResult::Unchanged => panic!("index 2 changed, so the node must be rebuilt"),
    };
    assert_ne!(new_p, p);
    match gc.node(new_p) {
        Node::Program { body: after, .. } => {
            assert_eq!(after.len(), 5);
            assert_eq!(after[0], body[0]);
            assert_eq!(after[1], body[1]);
            assert_eq!(after[2], replacement);
            assert_eq!(after[3], body[3]);
            assert_eq!(after[4], body[4]);
        }
        _ => panic!("expected the rebuilt program node"),
    }
    gc.finish(&mut flag);
}

#[test]
fn visit_mut_hands_back_the_standing_node() {
    let mut flag = SessionFlag::new();
    let ctx = Context::new(1);
    let mut gc = GCContext::new(&mut flag, ctx);
    let a = gc.alloc_node(num_template(1.0));
    let b = gc.alloc_node(num_template(2.0));
    let mut keep = KeepAll;
    assert_eq!(Node::visit_mut(&mut gc, &mut keep, a, None), a);
    let mut swap = ReplaceOne { target: a, replacement: b };
    assert_eq!(Node::visit_mut(&mut gc, &mut swap, a, None), b);
    gc.finish(&mut flag);
}

#[test]
fn binary_children_are_rebuilt_on_change() {
    let mut flag = SessionFlag::new();
    let ctx = Context::new(1);
    let mut gc = GCContext::new(&mut flag, ctx);
    let a = gc.alloc_node(num_template(1.0));
    let b = gc.alloc_node(num_template(2.0));
    let c = gc.alloc_node(num_template(3.0));
    let e = gc.alloc_node(
        NodeTemplate::BinaryExpression {
            metadata: TemplateMetadata::default(),
            operator: juno_ast::BinaryExpressionOperator::Mult,
            left: a,
            right: b,
        },
    );
    let mut v = ReplaceOne { target: b, replacement: c };
    let new_e = match Node::visit_children_mut(&mut gc, &mut v, e) {
        TransformResult::Changed(n) => n,
        TransformResult::Unchanged => panic!("the right child changed"),
    };
    match gc.node(new_e) {
        Node::BinaryExpression { operator, left, right, .. } => {
            assert_eq!(*operator, juno_ast::BinaryExpressionOperator::Mult);
            assert_eq!(*left, a);
            assert_eq!(*right, c);
        }
        _ => panic!("expected the rebuilt binary expression"),
    }
    gc.finish(&mut flag);
}

#[test]
fn optional_child_walks() {
    let mut flag = SessionFlag::new();
    let ctx = Context::new(1);
    let mut gc = GCContext::new(&mut flag, ctx);
    let a = gc.alloc_node(num_template(1.0));
    let b = gc.alloc_node(num_template(2.0));
    let mut keep = KeepAll;
    match visit_opt_mut(&mut gc, &mut keep, None, a) {
        TransformResult::Unchanged => {}
        _ => panic!("a missing child stays missing"),
    }
    let mut v = ReplaceOne { target: a, replacement: b };
    match visit_opt_mut(&mut gc, &mut v, Some(a), b) {
        TransformResult::Changed(Some(n)) => assert_eq!(n, b),
        _ => panic!("the present child was replaced"),
    }
    gc.finish(&mut flag);
}

#[test]
fn list_transform_materializes_decisions() {
    let list: Vec<NodeId> = (0..4).map(|i| NodeId { chunk: 0, slot: i }).collect();
    let replacement = NodeId { chunk: 0, slot: 9 };
    let all_kept = vec![
        TransformResult::Unchanged,
        TransformResult::Unchanged,
        TransformResult::Unchanged,
        TransformResult::Unchanged,
    ];
    match transform_node_list(&list, &all_kept) {
        TransformResult::Unchanged => {}
        _ => panic!("no decision changed anything"),
    }
    let one_changed = vec![
        TransformResult::Unchanged,
        TransformResult::Changed(replacement),
        TransformResult::Unchanged,
        TransformResult::Unchanged,
    ];
    match transform_node_list(&list, &one_changed) {
        TransformResult::Changed(out) => {
            assert_eq!(out, vec![list[0], replacement, list[2], list[3]]);
        }
        _ => panic!("one decision changed the list"),
    }
}

#[test]
fn list_walk_with_visitor_matches_decisions() {
    let mut flag = SessionFlag::new();
    let ctx = Context::new(1);
    let mut gc = GCContext::new(&mut flag, ctx);
    let parent = gc.alloc_node(num_template(0.0));
    let list: Vec<NodeId> = (0..3).map(|i| gc.alloc_node(num_template(i as f64))).collect();
    let replacement = gc.alloc_node(num_template(7.0));
    let mut v = ReplaceOne { target: list[0], replacement };
    match visit_list_mut(&mut gc, &mut v, &list, parent) {
        TransformResult::Changed(out) => {
            assert_eq!(out, vec![replacement, list[1], list[2]]);
        }
        _ => panic!("the first element was replaced"),
    }
    gc.finish(&mut flag);
}

#[test]
fn transform_result_accessors() {
    let changed: TransformResult<u32> = TransformResult::Changed(5);
    assert_eq!(changed.unwrap(), 5);
    let changed: TransformResult<u32> = TransformResult::Changed(5);
    assert_eq!(changed.unwrap_or(1), 5);
    let kept: TransformResult<u32> = TransformResult::Unchanged;
    assert_eq!(kept.unwrap_or(1), 1);
}
