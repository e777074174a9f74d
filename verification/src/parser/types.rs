//! The container the parser keeps its gathered directives in.

use vstd::prelude::*;

verus! {

/// The directives completed so far and the one still being gathered.
pub struct NodesState<TNode> {
    pub all_nodes: Vec<TNode>,
    pub current_node: Option<TNode>,
}

impl<TNode> NodesState<TNode> {
    /// An empty state: nothing completed, nothing in progress.
    pub fn new() -> (r: Self)
        ensures
            r.all_nodes@ =~= Seq::<TNode>::empty(),
            r.current_node is None,
    {
        Self { all_nodes: Vec::new(), current_node: None }
    }
}

} // verus!
