//! The datastructs a compile call hands back to its caller.

use vstd::prelude::*;

verus! {

/// The span, in input-statement coordinates, that one expanded directive's
/// braced body occupied.
#[derive(Clone, Debug)]
pub struct CombinedResultNodeSlice {
    pub scope_begin: usize,
    pub scope_end: usize,
}

/// The compiled artifact: the pretty-printed output statement and, per
/// expanded directive, the span of its braced body in the input.
#[derive(Debug)]
pub struct CompiledQueryDescriptor {
    pub statement: String,
    pub combined_result_node_slices: Vec<CombinedResultNodeSlice>,
}

impl CompiledQueryDescriptor {
    /// Packs a statement and its scope ranges into one record.
    pub fn new(statement: String, combined_result_node_slices: Vec<CombinedResultNodeSlice>) -> (r:
        Self)
        ensures
            r.statement == statement,
            r.combined_result_node_slices == combined_result_node_slices,
    {
        Self { statement, combined_result_node_slices }
    }
}

} // verus!
