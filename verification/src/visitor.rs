//! Traversal scaffolding: read-only and transforming walks over the child
//! structure of stored nodes.
//!
//! Neither visitor contract prescribes traversal order or which children
//! are visited; a visitor composes its policy by choosing when, if ever, to
//! invoke the child walks on the node it receives.

use vstd::prelude::*;
use crate::node::{collect_children, duplicate_node, Node, NodeId, NodeList, NodeTemplate};
use crate::session::GCContext;

verus! {

/// Result of one transforming visit: either the node is kept, or a
/// replacement node is offered.
pub enum TransformResult<T> {
    /// The visited value stands.
    Unchanged,
    /// The visited value is replaced by the payload.
    Changed(T),
}

impl<T> TransformResult<T> {
    /// The replacement value. Calling this on `Unchanged` is a programming
    /// error, which this entry point excludes by contract.
    pub fn unwrap(self) -> (t: T)
        requires
            self is Changed,
        ensures
            self == TransformResult::Changed(t),
    {
        match self {
            TransformResult::Changed(t) => t,
            TransformResult::Unchanged => vstd::pervasive::unreached(),
        }
    }

    /// The replacement value, or `default` where nothing changed.
    pub fn unwrap_or(self, default: T) -> (t: T)
        ensures
            match self {
                TransformResult::Unchanged => t == default,
                TransformResult::Changed(v) => t == v,
            },
    {
        match self {
            TransformResult::Unchanged => default,
            TransformResult::Changed(t) => t,
        }
    }
}

/// A read-only walk callback: sees each visited node with its parent, and
/// recurses by calling [`Node::visit_children`] itself if it wants to.
pub trait Visitor {
    /// Visit the node `node` with the given `parent`.
    fn call(&mut self, gc: &GCContext, node: NodeId, parent: Option<NodeId>);
}

/// A transforming walk callback: sees each visited node with its parent and
/// answers whether to keep it or which node replaces it.
///
/// The contract on `call` is what any implementation restricted to this
/// crate's public session interface satisfies: the heap it is lent stays
/// well formed and keeps every already-live node, and a replacement it
/// offers is itself a live node. The walkers rely on it; implementations
/// outside this crate are not checked against it.
pub trait VisitorMut {
    /// Visit the node `node` with the given `parent`.
    fn call(&mut self, gc: &mut GCContext, node: NodeId, parent: Option<NodeId>) -> (r:
        TransformResult<NodeId>)
        ensures
            old(gc).wf() ==> final(gc).wf(),
            final(gc).id_spec() == old(gc).id_spec(),
            forall|id: NodeId|
                old(gc).is_live(id) ==> final(gc).is_live(id) && final(gc).node_at(id) == old(
                    gc,
                ).node_at(id),
            r matches TransformResult::Changed(n) ==> final(gc).is_live(n),
    ;
}

impl Node {
    /// Start a read-only walk at `node`: hand it to the visitor.
    pub fn visit<V: Visitor>(gc: &GCContext, visitor: &mut V, node: NodeId, parent: Option<
        NodeId,
    >) {
        visitor.call(gc, node, parent);
    }

    /// Start a transforming walk at `node`: hand it to the visitor and
    /// return the node that stands afterwards — `node` itself when the
    /// visitor kept it, the replacement otherwise.
    pub fn visit_mut<V: VisitorMut>(
        gc: &mut GCContext,
        visitor: &mut V,
        node: NodeId,
        parent: Option<NodeId>,
    ) -> (r: NodeId)
        requires
            old(gc).wf(),
            old(gc).is_live(node),
        ensures
            final(gc).wf(),
            final(gc).id_spec() == old(gc).id_spec(),
            forall|id: NodeId|
                old(gc).is_live(id) ==> final(gc).is_live(id) && final(gc).node_at(id) == old(
                    gc,
                ).node_at(id),
            final(gc).is_live(r),
    {
        match visitor.call(gc, node, parent) {
            TransformResult::Unchanged => node,
            TransformResult::Changed(new_node) => new_node,
        }
    }

    /// Invoke the visitor once for each child of `node`, in order, with
    /// `node` as the parent. Scalar fields have no children to offer.
    pub fn visit_children<V: Visitor>(gc: &GCContext, visitor: &mut V, node: NodeId)
        requires
            gc.is_live(node),
    {
        let children = collect_children(gc.node(node));
        let mut i: usize = 0;
        while i < children.len()
            invariant
                i <= children@.len(),
            decreases children@.len() - i,
        {
            visitor.call(gc, children[i], Some(node));
            i += 1;
        }
    }

    /// Invoke the transforming visitor once for each child of `node`, in
    /// order. If every child is kept, nothing is allocated and the result
    /// is `Unchanged`; otherwise a fresh node is allocated that copies
    /// `node`'s scalar fields and takes the replaced children, and the
    /// result is `Changed` with its address.
    pub fn visit_children_mut<V: VisitorMut>(gc: &mut GCContext, visitor: &mut V, node: NodeId) -> (r:
        TransformResult<NodeId>)
        requires
            old(gc).wf(),
            old(gc).is_live(node),
        ensures
            final(gc).wf(),
            final(gc).id_spec() == old(gc).id_spec(),
            forall|id: NodeId|
                old(gc).is_live(id) ==> final(gc).is_live(id) && final(gc).node_at(id) == old(
                    gc,
                ).node_at(id),
            r matches TransformResult::Changed(n) ==> final(gc).is_live(n),
    {
        let template = duplicate_node(gc.node(node));
        proof {
            assert(crate::node::template_children(template) == old(gc).ctx_spec().children_at(
                node,
            ));
            assert forall|j: int|
                0 <= j < crate::node::template_children(template).len() implies old(gc).is_live(
                #[trigger] crate::node::template_children(template)[j],
            ) by {
                assert(old(gc).ctx_spec().is_live(old(gc).ctx_spec().children_at(node)[j]));
            }
        }
        match template {
            NodeTemplate::Program { metadata, body } => {
                match visit_list_mut(gc, visitor, &body, node) {
                    TransformResult::Unchanged => TransformResult::Unchanged,
                    TransformResult::Changed(new_body) => {
                        let id = gc.alloc_node(NodeTemplate::Program { metadata, body: new_body });
                        TransformResult::Changed(id)
                    }
                }
            }
            NodeTemplate::BlockStatement { metadata, body } => {
                match visit_list_mut(gc, visitor, &body, node) {
                    TransformResult::Unchanged => TransformResult::Unchanged,
                    TransformResult::Changed(new_body) => {
                        let id = gc.alloc_node(
                            NodeTemplate::BlockStatement { metadata, body: new_body },
                        );
                        TransformResult::Changed(id)
                    }
                }
            }
            NodeTemplate::ExpressionStatement { metadata, expression, directive } => {
                match visitor.call(gc, expression, Some(node)) {
                    TransformResult::Unchanged => TransformResult::Unchanged,
                    TransformResult::Changed(new_expr) => {
                        let id = gc.alloc_node(
                            NodeTemplate::ExpressionStatement {
                                metadata,
                                expression: new_expr,
                                directive,
                            },
                        );
                        TransformResult::Changed(id)
                    }
                }
            }
            NodeTemplate::ReturnStatement { metadata, argument } => {
                match visit_opt_mut(gc, visitor, argument, node) {
                    TransformResult::Unchanged => TransformResult::Unchanged,
                    TransformResult::Changed(new_arg) => {
                        let id = gc.alloc_node(
                            NodeTemplate::ReturnStatement { metadata, argument: new_arg },
                        );
                        TransformResult::Changed(id)
                    }
                }
            }
            NodeTemplate::Identifier { .. } => TransformResult::Unchanged,
            NodeTemplate::NumericLiteral { .. } => TransformResult::Unchanged,
            NodeTemplate::BooleanLiteral { .. } => TransformResult::Unchanged,
            NodeTemplate::StringLiteral { .. } => TransformResult::Unchanged,
            NodeTemplate::UnaryExpression { metadata, operator, argument } => {
                match visitor.call(gc, argument, Some(node)) {
                    TransformResult::Unchanged => TransformResult::Unchanged,
                    TransformResult::Changed(new_arg) => {
                        let id = gc.alloc_node(
                            NodeTemplate::UnaryExpression { metadata, operator, argument: new_arg },
                        );
                        TransformResult::Changed(id)
                    }
                }
            }
            NodeTemplate::BinaryExpression { metadata, operator, left, right } => {
                let r1 = visitor.call(gc, left, Some(node));
                let r2 = visitor.call(gc, right, Some(node));
                match (r1, r2) {
                    (TransformResult::Unchanged, TransformResult::Unchanged) => {
                        TransformResult::Unchanged
                    }
                    (a, b) => {
                        let new_left = a.unwrap_or(left);
                        let new_right = b.unwrap_or(right);
                        let id = gc.alloc_node(
                            NodeTemplate::BinaryExpression {
                                metadata,
                                operator,
                                left: new_left,
                                right: new_right,
                            },
                        );
                        TransformResult::Changed(id)
                    }
                }
            }
            NodeTemplate::CallExpression { metadata, callee, arguments } => {
                let ghost args0 = arguments@;
                let r1 = visitor.call(gc, callee, Some(node));
                let r2 = visit_list_mut(gc, visitor, &arguments, node);
                match (r1, r2) {
                    (TransformResult::Unchanged, TransformResult::Unchanged) => {
                        TransformResult::Unchanged
                    }
                    (a, b) => {
                        let new_callee = a.unwrap_or(callee);
                        let new_args = b.unwrap_or(arguments);
                        proof {
                            assert forall|j: int| 0 <= j < new_args@.len() implies gc.is_live(
                                #[trigger] new_args@[j],
                            ) by {
                                assert(old(gc).is_live(args0[j])) by {
                                    assert(old(gc).ctx_spec().children_at(node)[j + 1]
                                        == args0[j]);
                                    assert(old(gc).is_live(old(gc).ctx_spec().children_at(
                                        node,
                                    )[j + 1]));
                                }
                            }
                        }
                        let ghost na = new_args@;
                        let t2 = NodeTemplate::CallExpression {
                            metadata,
                            callee: new_callee,
                            arguments: new_args,
                        };
                        proof {
                            assert(old(gc).is_live(callee)) by {
                                assert(old(gc).ctx_spec().children_at(node)[0] == callee);
                                assert(old(gc).is_live(old(gc).ctx_spec().children_at(node)[0]));
                            }
                            assert forall|j: int|
                                0 <= j < crate::node::template_children(t2).len() implies
                                gc.ctx_spec().is_live(
                                #[trigger] crate::node::template_children(t2)[j],
                            ) by {
                                if j == 0 {
                                    assert(crate::node::template_children(t2)[0] == new_callee);
                                } else {
                                    assert(crate::node::template_children(t2)[j] == na[j - 1]);
                                }
                            }
                        }
                        let id = gc.alloc_node(t2);
                        TransformResult::Changed(id)
                    }
                }
            }
            NodeTemplate::NewExpression { metadata, callee, arguments } => {
                let r1 = visitor.call(gc, callee, Some(node));
                match arguments {
                    None => {
                        match r1 {
                            TransformResult::Unchanged => TransformResult::Unchanged,
                            TransformResult::Changed(new_callee) => {
                                let id = gc.alloc_node(
                                    NodeTemplate::NewExpression {
                                        metadata,
                                        callee: new_callee,
                                        arguments: None,
                                    },
                                );
                                TransformResult::Changed(id)
                            }
                        }
                    }
                    Some(list) => {
                        let ghost args0 = list@;
                        let r2 = visit_list_mut(gc, visitor, &list, node);
                        match (r1, r2) {
                            (TransformResult::Unchanged, TransformResult::Unchanged) => {
                                TransformResult::Unchanged
                            }
                            (a, b) => {
                                let new_callee = a.unwrap_or(callee);
                                let new_args = b.unwrap_or(list);
                                proof {
                                    assert forall|j: int| 0 <= j < new_args@.len() implies
                                        gc.is_live(#[trigger] new_args@[j]) by {
                                        assert(old(gc).is_live(args0[j])) by {
                                            assert(old(gc).ctx_spec().children_at(node)[j + 1]
                                                == args0[j]);
                                            assert(old(gc).is_live(old(
                                                gc,
                                            ).ctx_spec().children_at(node)[j + 1]));
                                        }
                                    }
                                }
                                let t2 = NodeTemplate::NewExpression {
                                    metadata,
                                    callee: new_callee,
                                    arguments: Some(new_args),
                                };
                                proof {
                                    assert(old(gc).is_live(callee)) by {
                                        assert(old(gc).ctx_spec().children_at(node)[0]
                                            == callee);
                                        assert(old(gc).is_live(old(gc).ctx_spec().children_at(
                                            node,
                                        )[0]));
                                    }
                                    assert forall|j: int|
                                        0 <= j < crate::node::template_children(t2).len() implies
                                        gc.ctx_spec().is_live(
                                        #[trigger] crate::node::template_children(t2)[j],
                                    ) by {
                                        if j == 0 {
                                            assert(crate::node::template_children(t2)[0]
                                                == new_callee);
                                        }
                                    }
                                }
                                let id = gc.alloc_node(t2);
                                TransformResult::Changed(id)
                            }
                        }
                    }
                }
            }
        }
    }
}

/// Visit an optional child: a missing child is kept as missing.
pub fn visit_opt_mut<V: VisitorMut>(
    gc: &mut GCContext,
    visitor: &mut V,
    opt: Option<NodeId>,
    parent: NodeId,
) -> (r: TransformResult<Option<NodeId>>)
    requires
        old(gc).wf(),
    ensures
        final(gc).wf(),
        final(gc).id_spec() == old(gc).id_spec(),
        forall|id: NodeId|
            old(gc).is_live(id) ==> final(gc).is_live(id) && final(gc).node_at(id) == old(
                gc,
            ).node_at(id),
        opt is None ==> r is Unchanged,
        r matches TransformResult::Changed(o) ==> (o matches Some(n) && final(gc).is_live(n)),
{
    match opt {
        None => TransformResult::Unchanged,
        Some(inner) => match visitor.call(gc, inner, Some(parent)) {
            TransformResult::Unchanged => TransformResult::Unchanged,
            TransformResult::Changed(new_node) => TransformResult::Changed(Some(new_node)),
        },
    }
}

/// Materialize the outcome of a transforming walk over a node list from the
/// per-element decisions, with the copy-on-first-change discipline: no
/// output list is built while every element is kept; on the first change
/// the kept prefix is copied, the replacement appended, and the rest filled
/// in element by element.
pub fn transform_node_list(list: &NodeList, changes: &Vec<TransformResult<NodeId>>) -> (r:
    TransformResult<NodeList>)
    requires
        changes@.len() == list@.len(),
    ensures
        r is Unchanged <==> (forall|i: int|
            0 <= i < changes@.len() ==> #[trigger] changes@[i] is Unchanged),
        r matches TransformResult::Changed(out) ==> out@.len() == list@.len() && (forall|i: int|
            0 <= i < out@.len() ==> out@[i] == (match changes@[i] {
                TransformResult::Unchanged => list@[i],
                TransformResult::Changed(n) => n,
            })),
{
    let len = list.len();
    let mut index: usize = 0;
    while index < len
        invariant
            len == list@.len(),
            changes@.len() == list@.len(),
            index <= len,
            forall|i: int| 0 <= i < index ==> #[trigger] changes@[i] is Unchanged,
        decreases len - index,
    {
        let changed_here = match &changes[index] {
            TransformResult::Unchanged => false,
            TransformResult::Changed(_) => true,
        };
        if changed_here {
            let mut result: NodeList = Vec::new();
            let mut i: usize = 0;
            while i < index
                invariant
                    i <= index <= len,
                    len == list@.len(),
                    changes@.len() == list@.len(),
                    result@ == list@.take(i as int),
                decreases index - i,
            {
                result.push(list[i]);
                assert(result@ =~= list@.take(i + 1 as int));
                i += 1;
            }
            let mut j: usize = index;
            while j < len
                invariant
                    index <= j <= len,
                    len == list@.len(),
                    changes@.len() == list@.len(),
                    result@.len() == j,
                    forall|k: int|
                        0 <= k < j ==> result@[k] == (match changes@[k] {
                            TransformResult::Unchanged => list@[k],
                            TransformResult::Changed(n) => n,
                        }),
                decreases len - j,
            {
                match &changes[j] {
                    TransformResult::Unchanged => {
                        result.push(list[j]);
                    }
                    TransformResult::Changed(n) => {
                        result.push(*n);
                    }
                }
                j += 1;
            }
            proof {
                assert(changes@[index as int] is Changed);
            }
            return TransformResult::Changed(result);
        }
        index += 1;
    }
    TransformResult::Unchanged
}

/// Walk a node list with a transforming visitor: every element is visited
/// in order, and the decisions are materialized by
/// [`transform_node_list`], so the result is `Unchanged` exactly when the
/// visitor kept every element.
pub fn visit_list_mut<V: VisitorMut>(
    gc: &mut GCContext,
    visitor: &mut V,
    list: &NodeList,
    parent: NodeId,
) -> (r: TransformResult<NodeList>)
    requires
        old(gc).wf(),
    ensures
        final(gc).wf(),
        final(gc).id_spec() == old(gc).id_spec(),
        forall|id: NodeId|
            old(gc).is_live(id) ==> final(gc).is_live(id) && final(gc).node_at(id) == old(
                gc,
            ).node_at(id),
        r matches TransformResult::Changed(out) ==> out@.len() == list@.len() && (forall|i: int|
            0 <= i < out@.len() ==> out@[i] == list@[i] || final(gc).is_live(#[trigger] out@[i])),
{
    let mut changes: Vec<TransformResult<NodeId>> = Vec::new();
    let mut i: usize = 0;
    while i < list.len()
        invariant
            i <= list@.len(),
            changes@.len() == i,
            gc.wf(),
            gc.id_spec() == old(gc).id_spec(),
            forall|id: NodeId|
                old(gc).is_live(id) ==> gc.is_live(id) && gc.node_at(id) == old(gc).node_at(id),
            forall|k: int|
                0 <= k < i ==> (#[trigger] changes@[k] matches TransformResult::Changed(n)
                    ==> gc.is_live(n)),
        decreases list@.len() - i,
    {
        let ghost ch0 = changes@;
        let d = visitor.call(gc, list[i], Some(parent));
        changes.push(d);
        proof {
            assert forall|k: int|
                0 <= k < i + 1 implies (#[trigger] changes@[k] matches TransformResult::Changed(n)
                ==> gc.is_live(n)) by {
                if k < i {
                    assert(changes@[k] == ch0[k]);
                }
            }
        }
        i += 1;
    }
    transform_node_list(list, &changes)
}

} // verus!
