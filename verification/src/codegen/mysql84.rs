//! The MySQL 8.4 compiler surface: the traits the codegen phase is built
//! on, and the emitter that replaces each directive's span with generated
//! SQL and pretty-prints the result.

use crate::codegen::common::host_marker_vec;
use crate::codegen::common::lemma_markers_utf8;
use crate::codegen::common::stand_in_vec;
use crate::codegen::common::unmasked_markers;
use crate::codegen::sqlast::bytes_to_string;
use crate::codegen::sqlast::replace_str;
use crate::codegen::sqlast::format_pretty;
use crate::codegen::sqlast::pretty_printed;
use crate::error::QueryCompilerError;
use crate::parser::FinalParserState;
use crate::parser::Node;
use crate::parser::model::CompleteView;
use crate::parser::model::complete_node_wf;
use crate::parser::model::directives_wf;
use crate::parser::nodes::CompleteCombinedResultNode;
use crate::parser::nodes::generate_code_bytes;
use crate::parser::nodes::node_gen;
use crate::text::subrange_vec;
use crate::types::CombinedResultNodeSlice;
use crate::types::CompiledQueryDescriptor;
use core::cmp::Ordering;
use vstd::prelude::*;
use vstd::string::StrSliceExecFns;
use vstd::string::StringSliceAdditionalSpecFns;
use vstd::utf8::encode_utf8;

verus! {

/// A trait supposed to be implemented upon `FinalParserState`.
pub trait MySql84QueryCompiler {
    /// What the implementation asks of the state it compiles.
    spec fn compile_req(&self) -> bool;

    /// What the implementation promises of the descriptor it produces.
    spec fn compile_post(&self, r: &Result<CompiledQueryDescriptor, QueryCompilerError>) -> bool;

    /// What the implementation leaves untouched of the state it compiles.
    spec fn compile_frame(&self, post: &Self) -> bool;

    fn generate_code(&mut self) -> (r: Result<CompiledQueryDescriptor, QueryCompilerError>)
        requires
            old(self).compile_req(),
        ensures
            old(self).compile_post(&r),
            old(self).compile_frame(final(self)),
    ;
}

/// A trait supposed to be implemented upon any parsed node.
pub trait MySql84NodeCompiler {
    /// What the implementation promises of the code it generates.
    spec fn gen_post(&self, r: &Result<String, QueryCompilerError>) -> bool;

    fn generate_code(&self) -> (r: Result<String, QueryCompilerError>)
        ensures
            self.gen_post(&r),
    ;
}

/// Orders nodes by descending end position, so that spans later in the
/// statement are replaced first.
pub fn get_node_ordering_key<N: Node>(lhs: &N, rhs: &N) -> (r: Ordering)
    ensures
        r == (if lhs.spec_end_position() > rhs.spec_end_position() {
            Ordering::Less
        } else {
            Ordering::Greater
        }),
{
    if lhs.get_end_position() > rhs.get_end_position() {
        Ordering::Less
    } else {
        Ordering::Greater
    }
}


/// The statement after the directives `k .. nodes.len()` have been
/// replaced, in descending order, each span `[begin, end]` by the
/// directive's generated bytes in parentheses; `None` when a rewrite
/// fails.
pub open spec fn splice_state(s0: Seq<u8>, nodes: Seq<CompleteView>, k: int) -> Option<Seq<u8>>
    decreases nodes.len() - k,
{
    if k < 0 || k >= nodes.len() {
        Some(s0)
    } else {
        match splice_state(s0, nodes, k + 1) {
            None => None,
            Some(cur) => match node_gen(nodes[k]) {
                None => None,
                Some(g) => Some(
                    cur.subrange(0, nodes[k].begin) + seq![40u8] + g + seq![41u8] + cur.skip(
                        nodes[k].end + 1,
                    ),
                ),
            },
        }
    }
}

/// Once a splice stage is undefined, every earlier stage is undefined.
pub proof fn lemma_splice_none(s0: Seq<u8>, nodes: Seq<CompleteView>, j: int, k: int)
    requires
        0 <= j <= k,
        splice_state(s0, nodes, k) is None,
    ensures
        splice_state(s0, nodes, j) is None,
    decreases k - j,
{
    if j < k {
        lemma_splice_none(s0, nodes, j + 1, k);
    }
}

/// What compiling a final state promises: one scope range per directive,
/// each the directive's braced span in the input, in source order and in
/// bounds; an input without directives comes back as its own
/// pretty-printed form; and every failure is an inner-query or
/// resulting-query error.
pub open spec fn descriptor_post(
    s: Seq<u8>,
    nodes: Seq<CompleteView>,
    r: &Result<CompiledQueryDescriptor, QueryCompilerError>,
) -> bool {
    &&& (r matches Ok(d) ==> {
        &&& d.combined_result_node_slices@.len() == nodes.len()
        &&& (forall|i: int|
            0 <= i < nodes.len() ==> (#[trigger] d.combined_result_node_slices@[i]).scope_begin
                as int == nodes[i].inner_query_begin && d.combined_result_node_slices@[i].scope_end
                as int == nodes[i].end)
        &&& (forall|i: int|
            0 <= i < nodes.len() ==> 0 <= (#[trigger] d.combined_result_node_slices@[i]).scope_begin
                && (d.combined_result_node_slices@[i].scope_begin as int)
                < (d.combined_result_node_slices@[i].scope_end as int)
                && (d.combined_result_node_slices@[i].scope_end as int) < s.len())
        &&& (forall|i: int, j: int|
            0 <= i < j < nodes.len() ==> ((#[trigger] d.combined_result_node_slices@[i]).scope_end
                as int) < ((#[trigger] d.combined_result_node_slices@[j]).scope_begin as int))
    })
    &&& (nodes.len() == 0 && s.len() == 0 ==> (r matches Ok(d) && d.statement@ == Seq::<
        char,
    >::empty()))
    &&& (nodes.len() == 0 && s.len() > 0 ==> (match pretty_printed(s) {
        Some(p) => r matches Ok(d) && d.statement@ == p,
        None => r matches Err(e) && e matches QueryCompilerError::ResultingQueryInvalid(_, _),
    }))
    &&& (nodes.len() > 0 ==> (match splice_state(s, nodes, 0) {
        None => r matches Err(e) && e matches QueryCompilerError::InnerQueryInvalid(_),
        Some(b) => match pretty_printed(b) {
            None => r matches Err(e) && e matches QueryCompilerError::ResultingQueryInvalid(_, _),
            Some(p) => r matches Ok(d) && encode_utf8(d.statement@) == unmasked_markers(
                encode_utf8(p),
            ),
        },
    }))
    &&& (r matches Err(e) ==> (e matches QueryCompilerError::InnerQueryInvalid(_) || e matches
        QueryCompilerError::ResultingQueryInvalid(_, _)))
}

impl FinalParserState {
    /// The directives this state carries, as their mathematical views.
    pub open spec fn nodes_view(&self) -> Seq<CompleteView> {
        self.combined_result_nodes@.map_values(|n: CompleteCombinedResultNode| n@)
    }
}

/// Replaces each directive's span `[begin, end]` in the statement by the
/// generated SQL in parentheses, processing spans in descending end order
/// so that replacements never move a span still to be replaced. Only the
/// statement is mutated; the first failing rewrite ends the pass, spans
/// already replaced staying replaced.
fn process_nodes_in_order(state: &mut FinalParserState) -> (r: Result<(), QueryCompilerError>)
    requires
        directives_wf(old(state).statement@, old(state).nodes_view()),
    ensures
        final(state).combined_result_nodes == old(state).combined_result_nodes,
        old(state).nodes_view().len() == 0 ==> final(state).statement@ == old(state).statement@
            && r is Ok,
        r matches Err(e) ==> e matches QueryCompilerError::InnerQueryInvalid(_),
        match splice_state(old(state).statement@, old(state).nodes_view(), 0) {
            Some(b) => r is Ok && final(state).statement@ == b,
            None => r matches Err(e) && e matches QueryCompilerError::InnerQueryInvalid(_),
        },
        r is Err ==> exists|k: int|
            0 <= k < old(state).nodes_view().len() && node_gen(
                #[trigger] old(state).nodes_view()[k],
            ) is None && splice_state(old(state).statement@, old(state).nodes_view(), k + 1)
                == Some(final(state).statement@),
{
    let ghost s0 = state.statement@;
    let ghost nodes = state.nodes_view();
    let n = state.combined_result_nodes.len();
    let mut k: usize = n;
    while k > 0
        invariant
            k <= n,
            n == state.combined_result_nodes.len(),
            state.combined_result_nodes == old(state).combined_result_nodes,
            nodes == state.nodes_view(),
            s0 == old(state).statement@,
            directives_wf(s0, nodes),
            splice_state(s0, nodes, k as int) == Some(state.statement@),
            n == 0 ==> state.statement@ == s0,
            k > 0 ==> state.statement@.len() >= nodes[k - 1].end + 1 && state.statement@.subrange(
                0,
                nodes[k - 1].end + 1,
            ) == s0.subrange(0, nodes[k - 1].end + 1),
        decreases k,
    {
        k = k - 1;
        proof {
            assert(state.combined_result_nodes@[k as int]@ == nodes[k as int]);
            assert(complete_node_wf(s0, nodes[k as int]));
        }
        let node = &state.combined_result_nodes[k];
        let begin = node.get_begin_position();
        let end = node.get_end_position();
        let gen_bytes = match generate_code_bytes(node) {
            Ok(g) => g,
            Err(e) => {
                proof {
                    assert(splice_state(s0, nodes, k as int) is None);
                    lemma_splice_none(s0, nodes, 0, k as int);
                    assert(node_gen(nodes[k as int]) is None && splice_state(
                        s0,
                        nodes,
                        k as int + 1,
                    ) == Some(state.statement@));
                }
                return Err(e);
            },
        };
        let stmt_len = state.statement.len();
        proof {
            assert(begin < end + 1 <= stmt_len);
            assert(state.statement@.subrange(0, nodes[k as int].end + 1) == s0.subrange(
                0,
                nodes[k as int].end + 1,
            ));
        }
        let mut replaced: Vec<u8> = subrange_vec(state.statement.as_slice(), 0, begin);
        replaced.push(40);
        replaced.extend_from_slice(gen_bytes.as_slice());
        replaced.push(41);
        let tail = subrange_vec(state.statement.as_slice(), end + 1, stmt_len);
        replaced.extend_from_slice(tail.as_slice());
        let ghost cur = state.statement@;
        state.statement = replaced;
        proof {
            assert(cur.subrange(end + 1, stmt_len as int) =~= cur.skip(nodes[k as int].end + 1));
            assert(state.statement@ =~= cur.subrange(0, nodes[k as int].begin) + seq![40u8]
                + gen_bytes@ + seq![41u8] + cur.skip(nodes[k as int].end + 1));
            assert(splice_state(s0, nodes, k as int) == Some(state.statement@));
            if k > 0 {
                let x = nodes[k - 1].end + 1;
                assert(nodes[k - 1].end < nodes[k as int].begin);
                assert(x <= begin as int);
                assert forall|j: int| 0 <= j < x implies state.statement@[j] == s0[j] by {
                    assert(state.statement@[j] == cur.subrange(0, nodes[k as int].begin)[j]);
                    assert(cur[j] == s0.subrange(0, nodes[k as int].end + 1)[j]);
                }
                assert(state.statement@.subrange(0, x) =~= s0.subrange(0, x));
            }
        }
    }
    Ok(())
}

impl MySql84QueryCompiler for FinalParserState {
    /// The state's directives are well formed against its statement.
    open spec fn compile_req(&self) -> bool {
        directives_wf(self.statement@, self.nodes_view())
    }

    /// See `descriptor_post`.
    open spec fn compile_post(&self, r: &Result<CompiledQueryDescriptor, QueryCompilerError>) -> bool {
        descriptor_post(self.statement@, self.nodes_view(), r)
    }

    /// Only the statement is mutated: the directive list stays as it was.
    open spec fn compile_frame(&self, post: &Self) -> bool {
        self.combined_result_nodes == post.combined_result_nodes
    }

    fn generate_code(&mut self) -> (r: Result<CompiledQueryDescriptor, QueryCompilerError>)
        ensures
            old(self).compile_post(&r),
            old(self).compile_frame(final(self)),
    {
        let ghost s0 = self.statement@;
        let ghost nodes = self.nodes_view();
        match process_nodes_in_order(self) {
            Ok(()) => {},
            Err(e) => {
                return Err(e);
            },
        }
        let n = self.combined_result_nodes.len();
        let mut combined_result_node_slices: Vec<CombinedResultNodeSlice> = Vec::new();
        let mut i: usize = 0;
        while i < n
            invariant
                i <= n,
                n == self.combined_result_nodes.len(),
                nodes == self.nodes_view(),
                combined_result_node_slices@.len() == i,
                forall|j: int|
                    0 <= j < i ==> (#[trigger] combined_result_node_slices@[j]).scope_begin as int
                        == nodes[j].inner_query_begin && combined_result_node_slices@[j].scope_end
                        as int == nodes[j].end,
            decreases n - i,
        {
            proof {
                assert(self.combined_result_nodes@[i as int]@ == nodes[i as int]);
            }
            let node = &self.combined_result_nodes[i];
            combined_result_node_slices.push(
                CombinedResultNodeSlice {
                    scope_begin: node.get_scope_begin_position(),
                    scope_end: node.get_end_position(),
                },
            );
            i = i + 1;
        }
        if self.statement.len() == 0 {
            let empty = String::new();
            return Ok(CompiledQueryDescriptor::new(empty, combined_result_node_slices));
        }
        let pretty = match format_pretty(self.statement.as_slice()) {
            Ok(p) => p,
            Err(m) => {
                let shown = bytes_to_string(self.statement.as_slice());
                return Err(QueryCompilerError::ResultingQueryInvalid(shown, m));
            },
        };
        proof {
            assert forall|i2: int| 0 <= i2 < nodes.len() implies complete_node_wf(
                s0,
                #[trigger] nodes[i2],
            ) by {}
        }
        if n > 0 {
            let marker = host_marker_vec();
            let stand_in = stand_in_vec();
            proof {
                lemma_markers_utf8();
            }
            let statement_out = replace_str(&pretty, stand_in.as_slice(), marker.as_slice());
            return Ok(CompiledQueryDescriptor::new(statement_out, combined_result_node_slices));
        }
        Ok(CompiledQueryDescriptor::new(pretty, combined_result_node_slices))
    }
}

} // verus!
