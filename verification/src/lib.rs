//! A SQL preprocessor: statements may hold `combined_result(...) AS $var
//! { ... }` directives, which a position-tracking scanner locates and an
//! AST rewriter built on the embedded SQL parser expands into recursive
//! CTEs. The compiled artifact carries the pretty-printed statement and,
//! per directive, the span of its braced body in the input.

use vstd::prelude::*;

pub mod codegen;
pub mod error;
pub mod lex;
pub mod parser;
pub mod scanner;
pub mod text;
pub mod types;

use crate::codegen::mysql84::MySql84QueryCompiler;
use crate::codegen::mysql84::descriptor_post;
use crate::codegen::sqlast::pretty_printed;
use crate::error::ErrView;
use crate::error::QueryCompilerError;
use crate::parser::ParserState;
use crate::parser::model::CompleteView;
use crate::parser::model::StView;
use crate::parser::model::complete_all;
use crate::parser::model::finalize_result;
use crate::parser::model::has_keyword_from;
use crate::parser::model::init_st;
use crate::parser::model::lemma_complete_all;
use crate::parser::model::lemma_run_no_keyword;
use crate::parser::model::parse_result;
use crate::parser::model::parsed_directives;
use crate::parser::nodes::CompleteCombinedResultNode;
use crate::types::CompiledQueryDescriptor;
use vstd::utf8::encode_utf8;

verus! {

/// What one compile call promises, as a function of the statement's
/// bytes: a parse or finalize failure is returned as that error; otherwise
/// the artifact answers for the parsed directives as `descriptor_post`
/// states.
pub open spec fn compile_post_spec(
    s: Seq<u8>,
    r: &Result<CompiledQueryDescriptor, QueryCompilerError>,
) -> bool {
    match parsed_directives(s) {
        Err(e) => r matches Err(err) && err@ == e,
        Ok(nodes) => descriptor_post(s, nodes, r),
    }
}

/// Compiles one MySQL-8.4-flavored statement, expanding every
/// `combined_result` directive into a recursive-CTE query and reporting,
/// per directive, the span of its braced body in input coordinates.
pub fn preprocess_mysql84_query(statement: String) -> (r: Result<
    CompiledQueryDescriptor,
    QueryCompilerError,
>)
    ensures
        compile_post_spec(encode_utf8(statement@), &r),
{
    let ghost s = encode_utf8(statement@);
    let mut parser = ParserState::initialize(&statement);
    match parser.parse() {
        Ok(()) => {},
        Err(e) => {
            return Err(e);
        },
    }
    let mut finalized_state = match parser.finalize() {
        Ok(f) => f,
        Err(e) => {
            return Err(e);
        },
    };
    proof {
        let stv = parse_result(s)->Ok_0;
        match finalize_result(stv) {
            Ok(cs) => {
                assert(finalized_state.nodes_view() =~= cs) by {
                    assert forall|i: int| 0 <= i < cs.len() implies finalized_state.nodes_view()[i]
                        == cs[i] by {
                        assert(cs[i] == finalized_state.combined_result_nodes@.map_values(
                            |n: CompleteCombinedResultNode| n@,
                        )[i]);
                    }
                }
            },
            Err(_) => {},
        }
    }
    finalized_state.generate_code()
}

/// An input without the directive keyword compiles to its own
/// pretty-printed form, with no scope ranges; it fails only when it is no
/// SQL query at all.
pub proof fn lemma_plain_statement_passthrough(
    s: Seq<u8>,
    r: &Result<CompiledQueryDescriptor, QueryCompilerError>,
)
    requires
        !has_keyword_from(s, 0),
        compile_post_spec(s, r),
    ensures
        s.len() == 0 ==> (r matches Ok(d) && d.statement@ == Seq::<char>::empty()
            && d.combined_result_node_slices@.len() == 0),
        s.len() > 0 ==> (match pretty_printed(s) {
            Some(p) => r matches Ok(d) && d.statement@ == p
                && d.combined_result_node_slices@.len() == 0,
            None => r matches Err(e) && e matches QueryCompilerError::ResultingQueryInvalid(_, _),
        }),
{
    lemma_run_no_keyword(s, 0);
    assert(parse_result(s) == Ok::<StView, ErrView>(init_st()));
    assert(parsed_directives(s) == Ok::<Seq<CompleteView>, ErrView>(Seq::empty()));
}

/// Every scope range lies inside the input statement, the ranges are
/// disjoint and appear in source order, and there is exactly one per
/// parsed directive.
pub proof fn lemma_scope_ranges_well_placed(
    s: Seq<u8>,
    r: &Result<CompiledQueryDescriptor, QueryCompilerError>,
)
    requires
        compile_post_spec(s, r),
        r is Ok,
    ensures
        parsed_directives(s) is Ok,
        r matches Ok(d) ==> d.combined_result_node_slices@.len() == parsed_directives(
            s,
        )->Ok_0.len(),
        r matches Ok(d) ==> (forall|i: int|
            0 <= i < d.combined_result_node_slices@.len() ==> 0 <= (
            #[trigger] d.combined_result_node_slices@[i]).scope_begin
                && (d.combined_result_node_slices@[i].scope_begin as int)
                < (d.combined_result_node_slices@[i].scope_end as int)
                && (d.combined_result_node_slices@[i].scope_end as int) < s.len()),
        r matches Ok(d) ==> (forall|i: int, j: int|
            0 <= i < j < d.combined_result_node_slices@.len() ==> ((
            #[trigger] d.combined_result_node_slices@[i]).scope_end as int) < ((
            #[trigger] d.combined_result_node_slices@[j]).scope_begin as int)),
{
}

/// Compiling the same statement twice yields the same outcome: success or
/// failure alike, equal scope ranges, byte-identical output statements,
/// and, for parse failures, the same error.
pub proof fn lemma_compile_deterministic(
    s: Seq<u8>,
    r1: &Result<CompiledQueryDescriptor, QueryCompilerError>,
    r2: &Result<CompiledQueryDescriptor, QueryCompilerError>,
)
    requires
        compile_post_spec(s, r1),
        compile_post_spec(s, r2),
    ensures
        r1 is Ok <==> r2 is Ok,
        match (r1, r2) {
            (Ok(d1), Ok(d2)) => d1.statement@ == d2.statement@
                && d1.combined_result_node_slices@.len()
                == d2.combined_result_node_slices@.len() && (forall|i: int|
                0 <= i < d1.combined_result_node_slices@.len() ==> (
                #[trigger] d1.combined_result_node_slices@[i]).scope_begin == (
                #[trigger] d2.combined_result_node_slices@[i]).scope_begin
                    && d1.combined_result_node_slices@[i].scope_end
                    == d2.combined_result_node_slices@[i].scope_end),
            _ => true,
        },
        parsed_directives(s) is Err ==> (match (r1, r2) {
            (Err(e1), Err(e2)) => e1@ == e2@,
            _ => false,
        }),
{
    match (r1, r2) {
        (Ok(d1), Ok(d2)) => {
            vstd::utf8::encode_utf8_decode_utf8(d1.statement@);
            vstd::utf8::encode_utf8_decode_utf8(d2.statement@);
        },
        _ => {},
    }
}

/// A directive still open when the statement ends fails as incomplete.
pub proof fn lemma_unclosed_directive_fails(
    s: Seq<u8>,
    r: &Result<CompiledQueryDescriptor, QueryCompilerError>,
)
    requires
        compile_post_spec(s, r),
        parse_result(s) matches Ok(st) && st.current is Some,
    ensures
        r matches Err(e) && e@ is DirectiveIncomplete,
{
    let st = parse_result(s)->Ok_0;
    lemma_complete_all(st.done);
}

/// A second directive keyword before the open directive's closing brace
/// fails as unsupported nesting.
pub proof fn lemma_nested_directive_fails(
    s: Seq<u8>,
    r: &Result<CompiledQueryDescriptor, QueryCompilerError>,
)
    requires
        compile_post_spec(s, r),
        parse_result(s) == Err::<StView, ErrView>(ErrView::UnsupportedNesting),
    ensures
        r matches Err(e) && e@ is UnsupportedNesting,
{
}

} // verus!
