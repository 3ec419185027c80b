//! Typed decoding of compiler syntax-tree dumps, read as a stream of
//! document events.
//!
//! A document is a tree of objects, each with an optional hex `id`, a `kind`
//! naming its category, further fields and an optional `inner` array of
//! children. The caller's [`schema::Schema`] decides which fields are kept;
//! everything else is skipped. Source positions omit fields that repeat the
//! previous position, and are resolved against a cursor that runs through the
//! whole document; file names are shared through a per-decode table.
use vstd::prelude::*;

pub mod error;
pub mod event;
pub mod id;
pub mod intern;
pub mod loc;
pub mod schema;
pub mod tree;

use crate::id::Id;

verus! {

/// One node of the decoded tree: its identifier, what the schema made of its
/// category, and its children in document order.
#[derive(Debug)]
pub struct Node<T> {
    pub id: Id,
    pub kind: T,
    pub inner: Vec<Node<T>>,
}

} // verus!
