//! Branching undo/redo history.

pub mod node;
pub mod tree;

pub use node::{HistoryNode, NodeId};
pub use tree::HistoryTree;

