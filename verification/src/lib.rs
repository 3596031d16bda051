//! A managed, garbage-collected heap for abstract syntax tree nodes.
//!
//! Nodes of a JavaScript-family syntax tree are allocated into a chunked
//! arena owned by a [`heap::Context`]. Transient code views and allocates
//! nodes through a scoped session; long-lived code promotes node references
//! to refcounted handles that survive sessions and act as the roots of an
//! explicit mark-and-sweep collection.
//!
//! Node references are slot addresses: a chunk index and a slot index into a
//! chunk that is never resized or moved, so the address of a live entry is
//! stable for the life of its heap.

pub mod source;
pub mod atom_table;
pub mod operators;
pub mod node;
pub mod heap;
pub mod session;
pub mod visitor;

pub use source::{SourceId, SourceLoc, SourceRange, SourceManager};
pub use heap::{Context, ContextIdCounter, StorageEntry, HeapError};
pub use session::{GCContext, NodePtr, SessionFlag};
pub use visitor::{TransformResult, Visitor, VisitorMut};
pub use atom_table::{Atom, AtomTable};
pub use node::{
    Node, NodeId, NodeLabel, NodeList, NodeString, NodeMetadata, TemplateMetadata, NodeTemplate,
};
pub use operators::{
    TryFromStringError, UnaryExpressionOperator, BinaryExpressionOperator,
    LogicalExpressionOperator, UpdateExpressionOperator, AssignmentExpressionOperator,
    VariableDeclarationKind, PropertyKind, MethodDefinitionKind, ImportKind, ExportKind,
};
