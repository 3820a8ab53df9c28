//! Core of a modal text editor: a character-indexed edit model with an
//! operational-transformation function, selections, a branching undo
//! history, a rope-backed buffer and text-object matchers.

pub mod buffer;
pub mod context;
pub mod edit;
pub mod history;
pub mod operations;
pub mod selection;

pub use buffer::Buffer;
pub use context::{Context, EditError};
pub use edit::ot;
pub use edit::{Edit, EditView};
pub use history::{HistoryNode, HistoryTree, NodeId};
pub use selection::{Selection, SelectionGroup};

use vstd::prelude::*;

verus! {

/// Identifies a collaborating client.
pub type ClientId = u64;

} // verus!
