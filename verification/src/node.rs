//! Syntax tree nodes: a closed tagged union over a representative set of
//! variants, together with the plain "template" aggregates used to allocate
//! them.
//!
//! A node lives in a heap slot and references its children by [`NodeId`],
//! the stable address of another slot in the same heap. A child field is one
//! of: a scalar leaf, an optional scalar leaf, a single child id, an optional
//! child id, an ordered list of child ids, or an optional such list.

use vstd::prelude::*;
use crate::atom_table::Atom;
use crate::operators::{BinaryExpressionOperator, UnaryExpressionOperator};
use crate::source::SourceRange;

verus! {

/// Stable address of a storage entry: a chunk index and a slot inside that
/// chunk. Chunks are never resized, moved or freed, so the id of a live
/// entry stays valid for the life of its heap.
#[derive(Clone, Copy, PartialEq, Eq, Structural, Debug, Hash)]
pub struct NodeId {
    /// Which chunk of the heap the entry lives in.
    pub chunk: usize,
    /// The slot within that chunk.
    pub slot: usize,
}

/// An identifier, held as an interned atom.
pub type NodeLabel = Atom;

/// A list of children owned by a parent node.
pub type NodeList = Vec<NodeId>;

/// What the `u"..."` rendering of a sequence of UTF-16 code units looks
/// like. Relies on `String::from_utf16_lossy` and on the standard `Debug`
/// formatting of strings; the result depends on the units alone.
pub uninterp spec fn utf16_debug_of(units: Seq<u16>) -> Seq<char>;

/// Render UTF-16 code units as a `u"..."` string.
///
/// Relies on `String::from_utf16_lossy` (unpaired surrogates become the
/// replacement character) and the standard `Debug` formatting of the
/// resulting string, which quotes and escapes it.
#[verifier::external_body]
fn utf16_debug(units: &Vec<u16>) -> (r: String)
    ensures
        r@ == utf16_debug_of(units@),
{
    format!("u{:?}", String::from_utf16_lossy(units))
}

/// A string literal's contents. Source strings may contain unpaired
/// surrogates, so they are kept as raw UTF-16 code units rather than as a
/// Rust string.
#[derive(Clone, Debug)]
pub struct NodeString {
    /// The UTF-16 code units of the literal.
    pub str: Vec<u16>,
}

impl NodeString {
    /// Render the literal as a `u"..."` string for debugging.
    pub fn to_debug_string(&self) -> (r: String)
        ensures
            r@ == utf16_debug_of(self.str@),
    {
        utf16_debug(&self.str)
    }
}

/// Metadata common to all nodes: where in the source the node came from.
#[derive(Clone, Copy, PartialEq, Eq, Structural, Debug)]
pub struct NodeMetadata {
    /// The source range the node covers.
    pub range: SourceRange,
}

impl NodeMetadata {
    /// Build node metadata from the template form.
    pub fn build_template(template: TemplateMetadata) -> (r: NodeMetadata)
        ensures
            r.range == template.range,
    {
        NodeMetadata { range: template.range }
    }
}

/// Metadata common to all templates; constructed freely by allocating code.
#[derive(Clone, Copy, PartialEq, Eq, Structural, Debug)]
pub struct TemplateMetadata {
    /// The source range the node will cover.
    pub range: SourceRange,
}

impl Default for TemplateMetadata {
    /// A template metadata naming no file and no location.
    fn default() -> (r: Self)
        ensures
            r.range.file.0 == u32::MAX,
            r.range.start.line == 0,
            r.range.start.col == 0,
            r.range.end.line == 0,
            r.range.end.col == 0,
    {
        TemplateMetadata { range: SourceRange::invalid() }
    }
}

/// A syntax tree node: metadata plus variant-specific fields. Children are
/// ids of other entries in the same heap.
pub enum Node {
    /// A whole program: an ordered list of statements.
    Program { metadata: NodeMetadata, body: NodeList },
    /// A braced statement list.
    BlockStatement { metadata: NodeMetadata, body: NodeList },
    /// An expression in statement position, with an optional directive text.
    ExpressionStatement { metadata: NodeMetadata, expression: NodeId, directive: Option<NodeString> },
    /// `return`, with an optional argument.
    ReturnStatement { metadata: NodeMetadata, argument: Option<NodeId> },
    /// An identifier, interned in the heap's atom table.
    Identifier { metadata: NodeMetadata, name: NodeLabel },
    /// A numeric literal. The value is carried as its IEEE-754 bit pattern;
    /// the heap stores and duplicates it but never computes on it.
    NumericLiteral { metadata: NodeMetadata, value: u64 },
    /// A boolean literal.
    BooleanLiteral { metadata: NodeMetadata, value: bool },
    /// A string literal, as raw UTF-16 code units.
    StringLiteral { metadata: NodeMetadata, value: NodeString },
    /// A unary operator applied to one child.
    UnaryExpression { metadata: NodeMetadata, operator: UnaryExpressionOperator, argument: NodeId },
    /// A binary operator applied to two children, left first.
    BinaryExpression { metadata: NodeMetadata, operator: BinaryExpressionOperator, left: NodeId, right: NodeId },
    /// A call: callee followed by its arguments in order.
    CallExpression { metadata: NodeMetadata, callee: NodeId, arguments: NodeList },
    /// A `new` expression: callee and, optionally, arguments.
    NewExpression { metadata: NodeMetadata, callee: NodeId, arguments: Option<NodeList> },
}

/// The child ids of a node, in visiting order.
pub open spec fn node_children(n: Node) -> Seq<NodeId> {
    match n {
        Node::Program { body, .. } => body@,
        Node::BlockStatement { body, .. } => body@,
        Node::ExpressionStatement { expression, .. } => seq![expression],
        Node::ReturnStatement { argument, .. } => match argument {
            Some(a) => seq![a],
            None => Seq::empty(),
        },
        Node::Identifier { .. } => Seq::empty(),
        Node::NumericLiteral { .. } => Seq::empty(),
        Node::BooleanLiteral { .. } => Seq::empty(),
        Node::StringLiteral { .. } => Seq::empty(),
        Node::UnaryExpression { argument, .. } => seq![argument],
        Node::BinaryExpression { left, right, .. } => seq![left, right],
        Node::CallExpression { callee, arguments, .. } => seq![callee] + arguments@,
        Node::NewExpression { callee, arguments, .. } => match arguments {
            Some(l) => seq![callee] + l@,
            None => seq![callee],
        },
    }
}

/// The metadata of a node, whatever its variant.
pub open spec fn node_metadata(n: Node) -> NodeMetadata {
    match n {
        Node::Program { metadata, .. } => metadata,
        Node::BlockStatement { metadata, .. } => metadata,
        Node::ExpressionStatement { metadata, .. } => metadata,
        Node::ReturnStatement { metadata, .. } => metadata,
        Node::Identifier { metadata, .. } => metadata,
        Node::NumericLiteral { metadata, .. } => metadata,
        Node::BooleanLiteral { metadata, .. } => metadata,
        Node::StringLiteral { metadata, .. } => metadata,
        Node::UnaryExpression { metadata, .. } => metadata,
        Node::BinaryExpression { metadata, .. } => metadata,
        Node::CallExpression { metadata, .. } => metadata,
        Node::NewExpression { metadata, .. } => metadata,
    }
}

/// A plain aggregate mirroring one node variant, used to describe the fields
/// of a node at allocation time. Only an allocator turns a template into a
/// stored node.
pub enum NodeTemplate {
    /// See [`Node::Program`].
    Program { metadata: TemplateMetadata, body: NodeList },
    /// See [`Node::BlockStatement`].
    BlockStatement { metadata: TemplateMetadata, body: NodeList },
    /// See [`Node::ExpressionStatement`].
    ExpressionStatement { metadata: TemplateMetadata, expression: NodeId, directive: Option<NodeString> },
    /// See [`Node::ReturnStatement`].
    ReturnStatement { metadata: TemplateMetadata, argument: Option<NodeId> },
    /// See [`Node::Identifier`].
    Identifier { metadata: TemplateMetadata, name: NodeLabel },
    /// See [`Node::NumericLiteral`].
    NumericLiteral { metadata: TemplateMetadata, value: u64 },
    /// See [`Node::BooleanLiteral`].
    BooleanLiteral { metadata: TemplateMetadata, value: bool },
    /// See [`Node::StringLiteral`].
    StringLiteral { metadata: TemplateMetadata, value: NodeString },
    /// See [`Node::UnaryExpression`].
    UnaryExpression { metadata: TemplateMetadata, operator: UnaryExpressionOperator, argument: NodeId },
    /// See [`Node::BinaryExpression`].
    BinaryExpression { metadata: TemplateMetadata, operator: BinaryExpressionOperator, left: NodeId, right: NodeId },
    /// See [`Node::CallExpression`].
    CallExpression { metadata: TemplateMetadata, callee: NodeId, arguments: NodeList },
    /// See [`Node::NewExpression`].
    NewExpression { metadata: TemplateMetadata, callee: NodeId, arguments: Option<NodeList> },
}

/// The node a template describes.
pub open spec fn template_node(t: NodeTemplate) -> Node {
    match t {
        NodeTemplate::Program { metadata, body } => Node::Program {
            metadata: NodeMetadata { range: metadata.range }, body,
        },
        NodeTemplate::BlockStatement { metadata, body } => Node::BlockStatement {
            metadata: NodeMetadata { range: metadata.range }, body,
        },
        NodeTemplate::ExpressionStatement { metadata, expression, directive } => Node::ExpressionStatement {
            metadata: NodeMetadata { range: metadata.range }, expression, directive,
        },
        NodeTemplate::ReturnStatement { metadata, argument } => Node::ReturnStatement {
            metadata: NodeMetadata { range: metadata.range }, argument,
        },
        NodeTemplate::Identifier { metadata, name } => Node::Identifier {
            metadata: NodeMetadata { range: metadata.range }, name,
        },
        NodeTemplate::NumericLiteral { metadata, value } => Node::NumericLiteral {
            metadata: NodeMetadata { range: metadata.range }, value,
        },
        NodeTemplate::BooleanLiteral { metadata, value } => Node::BooleanLiteral {
            metadata: NodeMetadata { range: metadata.range }, value,
        },
        NodeTemplate::StringLiteral { metadata, value } => Node::StringLiteral {
            metadata: NodeMetadata { range: metadata.range }, value,
        },
        NodeTemplate::UnaryExpression { metadata, operator, argument } => Node::UnaryExpression {
            metadata: NodeMetadata { range: metadata.range }, operator, argument,
        },
        NodeTemplate::BinaryExpression { metadata, operator, left, right } => Node::BinaryExpression {
            metadata: NodeMetadata { range: metadata.range }, operator, left, right,
        },
        NodeTemplate::CallExpression { metadata, callee, arguments } => Node::CallExpression {
            metadata: NodeMetadata { range: metadata.range }, callee, arguments,
        },
        NodeTemplate::NewExpression { metadata, callee, arguments } => Node::NewExpression {
            metadata: NodeMetadata { range: metadata.range }, callee, arguments,
        },
    }
}

/// The child ids a template references, in visiting order; the node built
/// from the template has exactly these children.
pub open spec fn template_children(t: NodeTemplate) -> Seq<NodeId> {
    node_children(template_node(t))
}

/// Build the stored node a template describes.
pub(crate) fn build_node(t: NodeTemplate) -> (r: Node)
    ensures
        r == template_node(t),
{
    match t {
        NodeTemplate::Program { metadata, body } => Node::Program {
            metadata: NodeMetadata::build_template(metadata), body,
        },
        NodeTemplate::BlockStatement { metadata, body } => Node::BlockStatement {
            metadata: NodeMetadata::build_template(metadata), body,
        },
        NodeTemplate::ExpressionStatement { metadata, expression, directive } => Node::ExpressionStatement {
            metadata: NodeMetadata::build_template(metadata), expression, directive,
        },
        NodeTemplate::ReturnStatement { metadata, argument } => Node::ReturnStatement {
            metadata: NodeMetadata::build_template(metadata), argument,
        },
        NodeTemplate::Identifier { metadata, name } => Node::Identifier {
            metadata: NodeMetadata::build_template(metadata), name,
        },
        NodeTemplate::NumericLiteral { metadata, value } => Node::NumericLiteral {
            metadata: NodeMetadata::build_template(metadata), value,
        },
        NodeTemplate::BooleanLiteral { metadata, value } => Node::BooleanLiteral {
            metadata: NodeMetadata::build_template(metadata), value,
        },
        NodeTemplate::StringLiteral { metadata, value } => Node::StringLiteral {
            metadata: NodeMetadata::build_template(metadata), value,
        },
        NodeTemplate::UnaryExpression { metadata, operator, argument } => Node::UnaryExpression {
            metadata: NodeMetadata::build_template(metadata), operator, argument,
        },
        NodeTemplate::BinaryExpression { metadata, operator, left, right } => Node::BinaryExpression {
            metadata: NodeMetadata::build_template(metadata), operator, left, right,
        },
        NodeTemplate::CallExpression { metadata, callee, arguments } => Node::CallExpression {
            metadata: NodeMetadata::build_template(metadata), callee, arguments,
        },
        NodeTemplate::NewExpression { metadata, callee, arguments } => Node::NewExpression {
            metadata: NodeMetadata::build_template(metadata), callee, arguments,
        },
    }
}

/// Duplicate the spine of a node list: the same child ids, in a fresh list.
pub fn duplicate_node_list(list: &NodeList) -> (r: NodeList)
    ensures
        r@ == list@,
{
    let mut out: NodeList = Vec::new();
    let mut i: usize = 0;
    while i < list.len()
        invariant
            i <= list.len(),
            out@ == list@.take(i as int),
        decreases list.len() - i,
    {
        out.push(list[i]);
        assert(out@ =~= list@.take(i + 1 as int));
        i += 1;
    }
    assert(out@ =~= list@);
    out
}

/// Collect the child ids of a node, in visiting order.
pub fn collect_children(n: &Node) -> (r: Vec<NodeId>)
    ensures
        r@ == node_children(*n),
{
    let mut out: Vec<NodeId> = Vec::new();
    match n {
        Node::Program { body, .. } => {
            out = duplicate_node_list(body);
        }
        Node::BlockStatement { body, .. } => {
            out = duplicate_node_list(body);
        }
        Node::ExpressionStatement { expression, .. } => {
            out.push(*expression);
        }
        Node::ReturnStatement { argument, .. } => {
            if let Some(a) = argument {
                out.push(*a);
            }
        }
        Node::Identifier { .. } => {}
        Node::NumericLiteral { .. } => {}
        Node::BooleanLiteral { .. } => {}
        Node::StringLiteral { .. } => {}
        Node::UnaryExpression { argument, .. } => {
            out.push(*argument);
        }
        Node::BinaryExpression { left, right, .. } => {
            out.push(*left);
            out.push(*right);
        }
        Node::CallExpression { callee, arguments, .. } => {
            out.push(*callee);
            let mut i: usize = 0;
            while i < arguments.len()
                invariant
                    i <= arguments.len(),
                    out@ == seq![*callee] + arguments@.take(i as int),
                decreases arguments.len() - i,
            {
                out.push(arguments[i]);
                assert(out@ =~= seq![*callee] + arguments@.take(i + 1 as int));
                i += 1;
            }
            assert(out@ =~= seq![*callee] + arguments@);
        }
        Node::NewExpression { callee, arguments, .. } => {
            out.push(*callee);
            if let Some(list) = arguments {
                let mut i: usize = 0;
                while i < list.len()
                    invariant
                        i <= list.len(),
                        out@ == seq![*callee] + list@.take(i as int),
                    decreases list.len() - i,
                {
                    out.push(list[i]);
                    assert(out@ =~= seq![*callee] + list@.take(i + 1 as int));
                    i += 1;
                }
                assert(out@ =~= seq![*callee] + list@);
            }
        }
    }
    assert(out@ =~= node_children(*n));
    out
}


/// An owned template replica of a stored node, suitable for allocating a
/// fresh node: scalars are copied, child ids are copied (a node duplicates
/// to itself), and list spines are cloned.
pub fn duplicate_node(n: &Node) -> (t: NodeTemplate)
    ensures
        template_children(t) == node_children(*n),
        node_metadata(template_node(t)) == node_metadata(*n),
        template_node(t) is Program <==> *n is Program,
{
    match n {
        Node::Program { metadata, body } => NodeTemplate::Program {
            metadata: TemplateMetadata { range: metadata.range },
            body: duplicate_node_list(body),
        },
        Node::BlockStatement { metadata, body } => NodeTemplate::BlockStatement {
            metadata: TemplateMetadata { range: metadata.range },
            body: duplicate_node_list(body),
        },
        Node::ExpressionStatement { metadata, expression, directive } => NodeTemplate::ExpressionStatement {
            metadata: TemplateMetadata { range: metadata.range },
            expression: *expression,
            directive: directive.clone(),
        },
        Node::ReturnStatement { metadata, argument } => NodeTemplate::ReturnStatement {
            metadata: TemplateMetadata { range: metadata.range },
            argument: *argument,
        },
        Node::Identifier { metadata, name } => NodeTemplate::Identifier {
            metadata: TemplateMetadata { range: metadata.range },
            name: *name,
        },
        Node::NumericLiteral { metadata, value } => NodeTemplate::NumericLiteral {
            metadata: TemplateMetadata { range: metadata.range },
            value: *value,
        },
        Node::BooleanLiteral { metadata, value } => NodeTemplate::BooleanLiteral {
            metadata: TemplateMetadata { range: metadata.range },
            value: *value,
        },
        Node::StringLiteral { metadata, value } => NodeTemplate::StringLiteral {
            metadata: TemplateMetadata { range: metadata.range },
            value: value.clone(),
        },
        Node::UnaryExpression { metadata, operator, argument } => NodeTemplate::UnaryExpression {
            metadata: TemplateMetadata { range: metadata.range },
            operator: *operator,
            argument: *argument,
        },
        Node::BinaryExpression { metadata, operator, left, right } => NodeTemplate::BinaryExpression {
            metadata: TemplateMetadata { range: metadata.range },
            operator: *operator,
            left: *left,
            right: *right,
        },
        Node::CallExpression { metadata, callee, arguments } => NodeTemplate::CallExpression {
            metadata: TemplateMetadata { range: metadata.range },
            callee: *callee,
            arguments: duplicate_node_list(arguments),
        },
        Node::NewExpression { metadata, callee, arguments } => NodeTemplate::NewExpression {
            metadata: TemplateMetadata { range: metadata.range },
            callee: *callee,
            arguments: match arguments {
                Some(l) => Some(duplicate_node_list(l)),
                None => None,
            },
        },
    }
}

} // verus!
