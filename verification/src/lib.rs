//! Core document runtime for a structured text workspace: the job and
//! snapshot lifecycle, streaming source bookkeeping, and the text rules used
//! to plan value edits in JSON, YAML, TOML, CSV and Python sources.
use vstd::prelude::*;

pub mod document;
pub mod errors;
pub mod evaluation;
pub mod evaluator;
pub mod line_index;
pub mod text;
pub mod tree_store;
pub mod value_edit;

verus! {

} // verus!
