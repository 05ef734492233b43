//! Cognitive-complexity scoring for parsed source files.
//!
//! The crate walks an already-parsed syntax tree and assigns every top-level
//! function an integer score: a weighted count of control-flow constructs in
//! which nesting makes each construct cost more.  Obtaining source text,
//! parsing it, and reporting the scores are left to the caller.

pub mod ast;
pub mod complexity;
pub mod changes;

use vstd::prelude::*;

verus! {

/// One row of the combined report: a file, how many commits changed it,
/// and the complexity of each of its functions.
pub struct TopComplexities {
    pub code_filename: String,
    pub num_changes: u32,
    pub function_complexities: Vec<crate::complexity::FunctionComplexity>,
}

} // verus!
