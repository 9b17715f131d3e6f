//! Node positions and span records kept alongside stored document trees.
use vstd::prelude::*;

verus! {

/// A span of tokens identified during semantic token collection.
#[derive(Debug, Clone, Copy, PartialEq, Eq)]
pub struct TokenSpan {
    pub start_row: u32,
    pub start_col: u32,
    pub end_row: u32,
    pub end_col: u32,
    pub token_type: u32,
}

/// The position of a node in a tree store.
#[derive(Debug, Clone, Copy, PartialEq, Eq)]
pub struct NodeId(pub usize);

} // verus!
