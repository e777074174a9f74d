//! The directive records the parser produces: the in-progress form whose
//! attributes are optional, and the complete form the code generator uses.

use crate::codegen::common::mask_parameter_markers;
use crate::codegen::common::masked_markers;
use crate::codegen::mysql84::MySql84NodeCompiler;
use crate::codegen::sqlast::base_alias_of;
use crate::codegen::sqlast::base_name_of;
use crate::codegen::sqlast::base_table_replaced;
use crate::codegen::sqlast::binary_children_of;
use crate::codegen::sqlast::bytes_to_string;
use crate::codegen::sqlast::chain_view;
use crate::codegen::sqlast::chains_view;
use crate::codegen::sqlast::eq_placeholder_of;
use crate::codegen::sqlast::expr_children;
use crate::codegen::sqlast::expr_eq_placeholder;
use crate::codegen::sqlast::expr_parses;
use crate::codegen::sqlast::from_count_of;
use crate::codegen::sqlast::join_count_of;
use crate::codegen::sqlast::join_kind_of;
use crate::codegen::sqlast::join_prepended;
use crate::codegen::sqlast::join_promoted;
use crate::codegen::sqlast::parse_query_to_bytes;
use crate::codegen::sqlast::projection_chains_of;
use crate::codegen::sqlast::projection_prepended;
use crate::codegen::sqlast::query_normalized;
use crate::codegen::sqlast::sel_base_alias;
use crate::codegen::sqlast::sel_base_name;
use crate::codegen::sqlast::sel_from_len;
use crate::codegen::sqlast::sel_join_count;
use crate::codegen::sqlast::sel_join_kind;
use crate::codegen::sqlast::sel_prepend_left_join;
use crate::codegen::sqlast::sel_prepend_projection;
use crate::codegen::sqlast::sel_projection_chains;
use crate::codegen::sqlast::sel_promote_join;
use crate::codegen::sqlast::sel_replace_where;
use crate::codegen::sqlast::sel_set_base_table;
use crate::codegen::sqlast::sel_where_text;
use crate::codegen::sqlast::select_parses;
use crate::codegen::sqlast::table_factor_parses;
use crate::codegen::sqlast::where_replaced;
use crate::codegen::sqlast::where_text_of;
use crate::error::QueryCompilerError;
use crate::lex::KEYWORD_COMBINED_RESULT;
use crate::text::replace_all;
use crate::text::replace_all_spec;
use vstd::slice::slice_to_vec;
use crate::parser::model::CompleteView;
use crate::parser::model::NodeView;
use crate::parser::model::complete_of;
use crate::parser::model::new_node_view;
use crate::parser::model::node_complete;
use crate::text::bytes_eq;
use vstd::prelude::*;
use vstd::string::StrSliceExecFns;
use vstd::string::StringSliceAdditionalSpecFns;
use vstd::utf8::decode_utf8;
use vstd::utf8::encode_utf8;
use vstd::utf8::valid_utf8;

verus! {

/// A parsed object that occupies a span of the source statement.
pub trait Node {
    /// Where the construct's keyword begins.
    spec fn spec_begin_position(&self) -> int;

    /// Where the construct's scope (its braced body) begins.
    spec fn spec_scope_begin_position(&self) -> int;

    /// Where the construct ends.
    spec fn spec_end_position(&self) -> int;

    fn get_begin_position(&self) -> (r: usize)
        ensures
            r as int == self.spec_begin_position(),
    ;

    fn get_scope_begin_position(&self) -> (r: usize)
        ensures
            r as int == self.spec_scope_begin_position(),
    ;

    fn get_end_position(&self) -> (r: usize)
        ensures
            r as int == self.spec_end_position(),
    ;
}

/// A directive while the parser is still gathering it.
pub struct CombinedResultNode {
    pub begin_position: usize,
    pub end_position: Option<usize>,
    pub iteration_query: Option<Vec<u8>>,
    pub iteration_item_variable: Option<Vec<u8>>,
    pub inner_query_begin: Option<usize>,
    pub inner_query: Option<Vec<u8>>,
}

/// The view of an optional byte vector.
pub open spec fn opt_bytes_view(o: Option<Vec<u8>>) -> Option<Seq<u8>> {
    match o {
        Some(v) => Some(v@),
        None => None,
    }
}

/// The view of an optional offset.
pub open spec fn opt_usize_view(o: Option<usize>) -> Option<int> {
    match o {
        Some(v) => Some(v as int),
        None => None,
    }
}

impl View for CombinedResultNode {
    type V = NodeView;

    open spec fn view(&self) -> NodeView {
        NodeView {
            begin: self.begin_position as int,
            end: opt_usize_view(self.end_position),
            iteration_query: opt_bytes_view(self.iteration_query),
            iteration_item_variable: opt_bytes_view(self.iteration_item_variable),
            inner_query_begin: opt_usize_view(self.inner_query_begin),
            inner_query: opt_bytes_view(self.inner_query),
        }
    }
}

impl CombinedResultNode {
    /// A fresh directive whose keyword stands at `begin_position`.
    pub fn new(begin_position: usize) -> (r: Self)
        ensures
            r@ == new_node_view(begin_position as int),
    {
        Self {
            begin_position,
            end_position: None,
            iteration_query: None,
            iteration_item_variable: None,
            inner_query_begin: None,
            inner_query: None,
        }
    }
}

/// A directive with every attribute present.
#[derive(Clone, Debug)]
pub struct CompleteCombinedResultNode {
    begin_position: usize,
    end_position: usize,
    iteration_query: Vec<u8>,
    iteration_item_variable: Vec<u8>,
    inner_query_begin: usize,
    inner_query: Vec<u8>,
}

impl View for CompleteCombinedResultNode {
    type V = CompleteView;

    closed spec fn view(&self) -> CompleteView {
        CompleteView {
            begin: self.begin_position as int,
            end: self.end_position as int,
            iteration_query: self.iteration_query@,
            iteration_item_variable: self.iteration_item_variable@,
            inner_query_begin: self.inner_query_begin as int,
            inner_query: self.inner_query@,
        }
    }
}

impl CompleteCombinedResultNode {
    /// Builds a complete directive record from its attributes.
    pub fn new(
        begin_position: usize,
        end_position: usize,
        iteration_query: String,
        iteration_item_variable: String,
        inner_query_begin: usize,
        inner_query: String,
    ) -> (r: Self)
        ensures
            r@.begin == begin_position as int,
            r@.end == end_position as int,
            r@.iteration_query == encode_utf8(iteration_query@),
            r@.iteration_item_variable == encode_utf8(iteration_item_variable@),
            r@.inner_query_begin == inner_query_begin as int,
            r@.inner_query == encode_utf8(inner_query@),
    {
        Self {
            begin_position,
            end_position,
            iteration_query: iteration_query.as_str().as_bytes_vec(),
            iteration_item_variable: iteration_item_variable.as_str().as_bytes_vec(),
            inner_query_begin,
            inner_query: inner_query.as_str().as_bytes_vec(),
        }
    }

    /// Converts an in-progress directive, failing if any attribute is
    /// missing.
    pub fn try_from(value: CombinedResultNode) -> (r: Result<Self, QueryCompilerError>)
        ensures
            node_complete(value@) ==> (r matches Ok(c) && c@ == complete_of(value@)),
            !node_complete(value@) ==> (r matches Err(e) && (e matches
                QueryCompilerError::DirectiveIncomplete(k, b) && k@ == KEYWORD_COMBINED_RESULT@ && b
                == value.begin_position)),
    {
        let CombinedResultNode {
            begin_position,
            end_position,
            iteration_query,
            iteration_item_variable,
            inner_query_begin,
            inner_query,
        } = value;
        match (end_position, iteration_query, iteration_item_variable, inner_query_begin, inner_query) {
            (Some(e), Some(iq), Some(v), Some(b), Some(inq)) => Ok(
                Self {
                    begin_position,
                    end_position: e,
                    iteration_query: iq,
                    iteration_item_variable: v,
                    inner_query_begin: b,
                    inner_query: inq,
                },
            ),
            _ => Err(
                QueryCompilerError::DirectiveIncomplete(KEYWORD_COMBINED_RESULT, begin_position),
            ),
        }
    }

    /// The bytes of the inner query, as gathered from between the braces.
    pub fn inner_query_bytes(&self) -> (r: &Vec<u8>)
        ensures
            r@ == self@.inner_query,
    {
        &self.inner_query
    }

    /// The bytes of the iteration query, as gathered from the parentheses.
    pub fn iteration_query_bytes(&self) -> (r: &Vec<u8>)
        ensures
            r@ == self@.iteration_query,
    {
        &self.iteration_query
    }

    /// The bytes of the iteration variable, `$` included.
    pub fn iteration_item_variable_bytes(&self) -> (r: &Vec<u8>)
        ensures
            r@ == self@.iteration_item_variable,
    {
        &self.iteration_item_variable
    }
}

impl Node for CompleteCombinedResultNode {
    open spec fn spec_begin_position(&self) -> int {
        self@.begin
    }

    open spec fn spec_scope_begin_position(&self) -> int {
        self@.inner_query_begin
    }

    open spec fn spec_end_position(&self) -> int {
        self@.end
    }

    fn get_begin_position(&self) -> (r: usize)
        ensures
            r as int == self.spec_begin_position(),
    {
        self.begin_position
    }

    fn get_scope_begin_position(&self) -> (r: usize)
        ensures
            r as int == self.spec_scope_begin_position(),
    {
        self.inner_query_begin
    }

    fn get_end_position(&self) -> (r: usize)
        ensures
            r as int == self.spec_end_position(),
    {
        self.end_position
    }
}

/// Maps carriage returns and line feeds to spaces, leaving other bytes.
pub open spec fn space_mapped(b: u8) -> u8 {
    if b == 10 || b == 13 {
        32
    } else {
        b
    }
}

/// The accumulator form of whitespace normalization: bytes from `i` on are
/// appended to `out`, collapsing space runs to one separator between words.
pub open spec fn normalize_from(s: Seq<u8>, i: int, sep: bool, out: Seq<u8>) -> Seq<u8>
    decreases s.len() - i when 0 <= i <= s.len()
{
    if i >= s.len() {
        out
    } else {
        let c = space_mapped(s[i]);
        if c == 32 {
            normalize_from(s, i + 1, true, out)
        } else {
            normalize_from(
                s,
                i + 1,
                false,
                if sep && out.len() > 0 {
                    out + seq![32u8, c]
                } else {
                    out.push(c)
                },
            )
        }
    }
}

/// A query's bytes with line breaks turned into spaces, space runs
/// collapsed, and ends trimmed: the form under which two inner queries
/// count as the same.
pub open spec fn normalize_query_spec(s: Seq<u8>) -> Seq<u8> {
    normalize_from(s, 0, false, Seq::empty())
}

/// Normalizes a query's whitespace, so that reformatted copies compare
/// equal.
fn normalize_query(s: &[u8]) -> (r: Vec<u8>)
    ensures
        r@ == normalize_query_spec(s@),
{
    let n: usize = s.len();
    let mut out: Vec<u8> = Vec::new();
    let mut sep: bool = false;
    let mut i: usize = 0;
    while i < n
        invariant
            i <= n,
            n == s@.len(),
            normalize_from(s@, i as int, sep, out@) == normalize_query_spec(s@),
        decreases n - i,
    {
        let ghost prev_out = out@;
        let ghost prev_sep = sep;
        let b = s[i];
        let c: u8 = if b == 10 || b == 13 {
            32
        } else {
            b
        };
        proof {
            assert(c == space_mapped(s@[i as int]));
        }
        if c == 32 {
            sep = true;
        } else {
            if sep && out.len() > 0 {
                out.push(32);
                out.push(c);
                proof {
                    assert(out@ =~= prev_out + seq![32u8, c]);
                }
            } else {
                out.push(c);
            }
            sep = false;
        }
        i = i + 1;
        proof {
            assert(normalize_from(s@, i as int, sep, out@) == normalize_from(
                s@,
                i - 1,
                prev_sep,
                prev_out,
            ));
        }
    }
    out
}

impl PartialEq for CompleteCombinedResultNode {
    /// Two complete directives are equal when their offsets and fragments
    /// agree, comparing the inner queries under whitespace normalization.
    fn eq(&self, other: &Self) -> (r: bool) {
        self.begin_position == other.begin_position && self.end_position == other.end_position
            && bytes_eq(self.iteration_query.as_slice(), other.iteration_query.as_slice())
            && bytes_eq(
            self.iteration_item_variable.as_slice(),
            other.iteration_item_variable.as_slice(),
        ) && self.inner_query_begin == other.inner_query_begin && bytes_eq(
            normalize_query(self.inner_query.as_slice()).as_slice(),
            normalize_query(other.inner_query.as_slice()).as_slice(),
        )
    }
}

impl vstd::std_specs::cmp::PartialEqSpecImpl for CompleteCombinedResultNode {
    open spec fn obeys_eq_spec() -> bool {
        true
    }

    open spec fn eq_spec(&self, other: &Self) -> bool {
        self@.begin == other@.begin && self@.end == other@.end && self@.iteration_query
            == other@.iteration_query && self@.iteration_item_variable
            == other@.iteration_item_variable && self@.inner_query_begin == other@.inner_query_begin
            && normalize_query_spec(self@.inner_query) == normalize_query_spec(other@.inner_query)
    }
}


/// How deep the WHERE-expression walk will descend before giving up.
pub const ITERATION_WALK_FUEL: usize = 65536;

/// The join-operator codes (see `sel_join_kind`) that the rewriter
/// promotes to LEFT: every constraint-carrying join except cross joins;
/// apply and array joins stay as they stand.
pub open spec fn join_kind_promotable(k: int) -> bool {
    k == 0 || k == 1 || k == 2 || k == 3 || k == 4 || k == 5 || k == 6 || k == 8 || k == 9 || k
        == 10 || k == 11 || k == 12 || k == 13 || k == 16 || k == 17
}

/// The SELECT after promoting its first `i` joins, left to right; `None`
/// when an intermediate serialization stops parsing.
pub open spec fn promote_joins_upto(q: Seq<u8>, i: int) -> Option<Seq<u8>>
    decreases i,
{
    if i <= 0 {
        Some(q)
    } else {
        match promote_joins_upto(q, i - 1) {
            None => None,
            Some(p) => if !select_parses(p) {
                None
            } else if join_kind_promotable(join_kind_of(p, i - 1)) {
                Some(join_promoted(p, i - 1))
            } else {
                Some(p)
            },
        }
    }
}

/// Once a promotion stage is undefined, every later stage is undefined.
pub proof fn lemma_promote_upto_none(q: Seq<u8>, j: int, n: int)
    requires
        j <= n,
        promote_joins_upto(q, j) is None,
    ensures
        promote_joins_upto(q, n) is None,
    decreases n - j,
{
    if j < n {
        lemma_promote_upto_none(q, j + 1, n);
    }
}

/// The SELECT after promoting all of its joins.
pub open spec fn promoted_all(q: Seq<u8>) -> Option<Seq<u8>> {
    if !select_parses(q) {
        None
    } else {
        promote_joins_upto(q, join_count_of(q))
    }
}

/// The anchor's WHERE step: the iteration variable textually replaced by
/// the first-loop-value subquery, reparsed and reinstalled.
pub open spec fn anchor_where_applied(q: Seq<u8>, var: Seq<u8>) -> Option<Seq<u8>> {
    if !select_parses(q) {
        None
    } else {
        match where_text_of(q) {
            None => Some(q),
            Some(w) => if var.len() == 0 {
                None
            } else {
                let wr = replace_all_spec(
                    w,
                    var,
                    encode_utf8("(SELECT * FROM loop_values LIMIT 1)"@),
                );
                if !expr_parses(wr) {
                    None
                } else {
                    Some(where_replaced(q, wr))
                }
            },
        }
    }
}

/// The anchor: the inner query with the seed `0` prepended, joins
/// promoted, and the iteration variable replaced in its WHERE.
pub open spec fn anchor_of(inner: Seq<u8>, var: Seq<u8>) -> Option<Seq<u8>> {
    if !(select_parses(inner) && from_count_of(inner) == 1) {
        None
    } else if !expr_parses(encode_utf8("0"@)) {
        None
    } else {
        match promoted_all(projection_prepended(inner, encode_utf8("0"@))) {
            None => None,
            Some(a2) => anchor_where_applied(a2, var),
        }
    }
}

/// The first equality under the WHERE whose right side is the iteration
/// variable, walking left children first: the left side's chain, or
/// `None` inside when that side is no compound identifier.
pub open spec fn walk_of(q: Seq<u8>, var: Seq<u8>, fuel: int) -> Option<Option<Seq<Seq<u8>>>>
    decreases fuel,
{
    if fuel <= 0 {
        None
    } else if !expr_parses(q) {
        None
    } else {
        let hit = match eq_placeholder_of(q) {
            Some((lhs, p)) => if p == var {
                Some(lhs)
            } else {
                None
            },
            None => None,
        };
        match hit {
            Some(lhs) => Some(lhs),
            None => match binary_children_of(q) {
                None => None,
                Some((l, r)) => match walk_of(l, var, fuel - 1) {
                    Some(x) => Some(x),
                    None => walk_of(r, var, fuel - 1),
                },
            },
        }
    }
}

/// The qualifier and column bound to the iteration variable in a WHERE
/// text, when the equality exists and its left side is `table.column`.
pub open spec fn iteration_target_of(w: Option<Seq<u8>>, var: Seq<u8>) -> Option<
    (Seq<u8>, Seq<u8>),
> {
    match w {
        None => None,
        Some(wt) => match walk_of(wt, var, ITERATION_WALK_FUEL as int) {
            Some(Some(chain)) => if chain.len() == 2 {
                Some((chain[0], chain[1]))
            } else {
                None
            },
            _ => None,
        },
    }
}

/// The base table's alias if present, otherwise its name.
pub open spec fn base_target_of(s: Seq<u8>) -> Option<Seq<u8>> {
    match base_alias_of(s) {
        Some(a) => Some(a),
        None => base_name_of(s),
    }
}

/// The single FROM table of the iteration query.
pub open spec fn iq_table_of(iteration: Seq<u8>) -> Option<Seq<u8>> {
    if !(select_parses(iteration) && from_count_of(iteration) == 1) {
        None
    } else {
        base_name_of(iteration)
    }
}

/// The relation text of the step's loop join: the iteration table under
/// the base target's alias.
pub open spec fn loop_join_rel_of(iq_name: Seq<u8>, tprime: Seq<u8>) -> Seq<u8> {
    iq_name + encode_utf8(" AS "@) + tprime
}

/// The ON text of the step's loop join: the iteration column equals the
/// first loop value greater than the one consumed last.
pub open spec fn loop_join_on_of(tprime: Seq<u8>, col: Seq<u8>) -> Seq<u8> {
    tprime + encode_utf8("."@) + col + encode_utf8(" = (SELECT "@) + col + encode_utf8(
        " FROM loop_values WHERE "@,
    ) + col + encode_utf8(" > all_entries."@) + col + encode_utf8(" LIMIT 1)"@)
}

/// The step after prepending its loop join.
pub open spec fn loop_join_added(cur: Seq<u8>, inner: Seq<u8>, iteration: Seq<u8>, var: Seq<
    u8,
>) -> Option<Seq<u8>> {
    if !select_parses(cur) {
        None
    } else {
        match iteration_target_of(where_text_of(cur), var) {
            None => None,
            Some(target) => if !select_parses(inner) {
                None
            } else {
                match base_target_of(inner) {
                    None => None,
                    Some(tprime) => match iq_table_of(iteration) {
                        None => None,
                        Some(iq_name) => {
                            let rel = loop_join_rel_of(iq_name, tprime);
                            let on = loop_join_on_of(tprime, target.1);
                            if !(table_factor_parses(rel) && expr_parses(on)) {
                                None
                            } else {
                                Some(join_prepended(cur, rel, on))
                            }
                        },
                    },
                }
            },
        }
    }
}

/// The step: the inner query reading from `all_entries`, joins promoted,
/// the loop join prepended, and the recursion bound as its WHERE.
pub open spec fn step_of(inner: Seq<u8>, iteration: Seq<u8>, var: Seq<u8>) -> Option<Seq<u8>> {
    if !(select_parses(inner) && from_count_of(inner) == 1) {
        None
    } else if !expr_parses(encode_utf8("n + 1"@)) {
        None
    } else {
        let s1 = projection_prepended(inner, encode_utf8("n + 1"@));
        if !(select_parses(s1) && table_factor_parses(encode_utf8("all_entries"@))) {
            None
        } else {
            match promoted_all(base_table_replaced(s1, encode_utf8("all_entries"@))) {
                None => None,
                Some(s3) => match loop_join_added(s3, inner, iteration, var) {
                    None => None,
                    Some(s4) => if !(select_parses(s4) && expr_parses(
                        encode_utf8("n + 1 < (SELECT COUNT(*) FROM loop_values)"@),
                    )) {
                        None
                    } else {
                        Some(
                            where_replaced(
                                s4,
                                encode_utf8("n + 1 < (SELECT COUNT(*) FROM loop_values)"@),
                            ),
                        )
                    },
                },
            }
        }
    }
}

/// The trailing identifier of each projection chain, in order.
pub open spec fn chain_cols(chains: Seq<Option<Seq<Seq<u8>>>>) -> Seq<Seq<u8>>
    decreases chains.len(),
{
    if chains.len() == 0 {
        Seq::empty()
    } else {
        let head: Seq<Seq<u8>> = match chains[0] {
            Some(c) => if c.len() > 0 {
                seq![c.last()]
            } else {
                Seq::empty()
            },
            None => Seq::empty(),
        };
        head + chain_cols(chains.drop_first())
    }
}

/// The `(qualifier, column)` pairs of two-part projection chains.
pub open spec fn chain_pairs(chains: Seq<Option<Seq<Seq<u8>>>>) -> Seq<(Seq<u8>, Seq<u8>)>
    decreases chains.len(),
{
    if chains.len() == 0 {
        Seq::empty()
    } else {
        let head: Seq<(Seq<u8>, Seq<u8>)> = match chains[0] {
            Some(c) => if c.len() == 2 {
                seq![(c[0], c[1])]
            } else {
                Seq::empty()
            },
            None => Seq::empty(),
        };
        head + chain_pairs(chains.drop_first())
    }
}

/// The columns whose qualifier is not the base target, in order.
pub open spec fn foreign_cols(pairs: Seq<(Seq<u8>, Seq<u8>)>, target: Seq<u8>) -> Seq<Seq<u8>>
    decreases pairs.len(),
{
    if pairs.len() == 0 {
        Seq::empty()
    } else {
        let head: Seq<Seq<u8>> = if pairs[0].0 != target {
            seq![pairs[0].1]
        } else {
            Seq::empty()
        };
        head + foreign_cols(pairs.drop_first(), target)
    }
}

/// The outer filter's columns: projection columns joined in from a table
/// other than the base target; empty when the base is no plain table.
pub open spec fn fragments_of(inner: Seq<u8>) -> Seq<Seq<u8>> {
    match base_target_of(inner) {
        Some(target) => foreign_cols(chain_pairs(projection_chains_of(inner)), target),
        None => Seq::empty(),
    }
}

/// Fragments rendered as an AND-joined IS-NOT-NULL filter.
pub open spec fn not_null_filter(frags: Seq<Seq<u8>>) -> Seq<u8>
    decreases frags.len(),
{
    if frags.len() == 0 {
        Seq::empty()
    } else if frags.len() == 1 {
        frags[0] + encode_utf8(" IS NOT NULL"@)
    } else {
        frags[0] + encode_utf8(" IS NOT NULL"@) + encode_utf8(" AND "@) + not_null_filter(
            frags.drop_first(),
        )
    }
}

/// Columns joined with commas.
pub open spec fn comma_joined(cols: Seq<Seq<u8>>) -> Seq<u8>
    decreases cols.len(),
{
    if cols.len() == 0 {
        Seq::empty()
    } else if cols.len() == 1 {
        cols[0]
    } else {
        cols[0] + encode_utf8(", "@) + comma_joined(cols.drop_first())
    }
}

/// The outer selection's text over the recursive CTE.
pub open spec fn outer_select_of(cols: Seq<Seq<u8>>, frags: Seq<Seq<u8>>) -> Seq<u8> {
    encode_utf8("SELECT "@) + comma_joined(cols) + encode_utf8(" FROM all_entries WHERE "@) + (
    if frags.len() == 0 {
        encode_utf8("TRUE"@)
    } else {
        not_null_filter(frags)
    })
}

/// The CTE's column list: the counter `n` before the projection columns.
pub open spec fn cte_columns_of(cols: Seq<Seq<u8>>) -> Seq<u8>
    decreases cols.len(),
{
    if cols.len() == 0 {
        Seq::empty()
    } else {
        encode_utf8(", "@) + cols[0] + cte_columns_of(cols.drop_first())
    }
}

/// The whole generated fragment for one directive, as a function of its
/// inner query, iteration query and iteration variable; `None` exactly
/// when some stage's input is refused by the embedded SQL parser, the
/// FROM arity is wrong, or the iteration-variable equality is missing.
pub open spec fn gen_of(inner: Seq<u8>, iteration: Seq<u8>, var: Seq<u8>) -> Option<Seq<u8>> {
    if !select_parses(inner) {
        None
    } else {
        let cols = chain_cols(projection_chains_of(inner));
        match anchor_of(inner, var) {
            None => None,
            Some(anchor) => match step_of(inner, iteration, var) {
                None => None,
                Some(step) => match query_normalized(iteration) {
                    None => None,
                    Some(iqn) => Some(
                        encode_utf8("WITH RECURSIVE all_entries (n"@) + cte_columns_of(cols)
                            + encode_utf8(") AS (WITH loop_values AS ("@) + iqn + encode_utf8(
                            ") "@,
                        ) + anchor + encode_utf8(" UNION ALL "@) + step + encode_utf8(") "@)
                            + outer_select_of(cols, fragments_of(inner)),
                    ),
                },
            },
        }
    }
}

/// What one directive generates: `gen_of` over its masked queries.
pub open spec fn node_gen(c: CompleteView) -> Option<Seq<u8>> {
    gen_of(
        masked_markers(c.inner_query),
        masked_markers(c.iteration_query),
        c.iteration_item_variable,
    )
}

impl MySql84NodeCompiler for CompleteCombinedResultNode {
    /// The rewrite succeeds exactly when `node_gen` is defined, every
    /// failure is an inner-query error, and the returned string decodes
    /// the generated bytes.
    open spec fn gen_post(&self, r: &Result<String, QueryCompilerError>) -> bool {
        &&& (r matches Err(e) ==> e matches QueryCompilerError::InnerQueryInvalid(_))
        &&& (r is Ok <==> node_gen(self@) is Some)
        &&& (match (r, node_gen(self@)) {
            (Ok(s), Some(b)) => valid_utf8(b) ==> s@ == decode_utf8(b),
            _ => true,
        })
    }

    fn generate_code(&self) -> (r: Result<String, QueryCompilerError>)
        ensures
            self.gen_post(&r),
    {
        let bytes = generate_code_bytes(self)?;
        Ok(bytes_to_string(bytes.as_slice()))
    }
}

/// The generated fragment for one directive, as bytes, pinned to
/// `node_gen`.
pub(crate) fn generate_code_bytes(node: &CompleteCombinedResultNode) -> (r: Result<
    Vec<u8>,
    QueryCompilerError,
>)
    ensures
        match node_gen(node@) {
            Some(b) => r matches Ok(v) && v@ == b,
            None => r matches Err(e) && e matches QueryCompilerError::InnerQueryInvalid(_),
        },
{
    let masked_inner = mask_parameter_markers(node.inner_query_bytes().as_slice());
    let masked_iteration = mask_parameter_markers(node.iteration_query_bytes().as_slice());
    compile_final_select(masked_inner.as_slice(), masked_iteration.as_slice(), node)
}

/// Assembles the rewritten query: a recursive CTE holding the anchor and
/// the step, the iteration values attached as the recursive body's inner
/// WITH, and the outer selection over the CTE.
fn compile_final_select(
    inner: &[u8],
    iteration: &[u8],
    node: &CompleteCombinedResultNode,
) -> (r: Result<Vec<u8>, QueryCompilerError>)
    requires
        inner@ == masked_markers(node@.inner_query),
        iteration@ == masked_markers(node@.iteration_query),
    ensures
        match gen_of(inner@, iteration@, node@.iteration_item_variable) {
            Some(b) => r matches Ok(v) && v@ == b,
            None => r matches Err(e) && e matches QueryCompilerError::InnerQueryInvalid(_),
        },
{
    let original_select_column_idents = derive_original_select_columns(inner)?;
    let cte_columns = construct_recursive_cte_columns(&original_select_column_idents);
    let cte_body_anchor = compile_cte_anchor(inner, node)?;
    let cte_body_loop = compile_cte_loop(inner, iteration, node)?;
    let iteration_values = construct_cte_with_iteration(iteration)?;
    let fragments = derive_joined_table_column_names(inner)?;
    let outer_select = compile_recursive_cte(&original_select_column_idents, &fragments);
    let mut out: Vec<u8> = "WITH RECURSIVE all_entries (n".as_bytes_vec();
    out.extend_from_slice(cte_columns.as_slice());
    let open_values = ") AS (WITH loop_values AS (".as_bytes_vec();
    out.extend_from_slice(open_values.as_slice());
    out.extend_from_slice(iteration_values.as_slice());
    let close_paren = ") ".as_bytes_vec();
    out.extend_from_slice(close_paren.as_slice());
    out.extend_from_slice(cte_body_anchor.as_slice());
    let union_all = " UNION ALL ".as_bytes_vec();
    out.extend_from_slice(union_all.as_slice());
    out.extend_from_slice(cte_body_loop.as_slice());
    out.extend_from_slice(close_paren.as_slice());
    out.extend_from_slice(outer_select.as_slice());
    proof {
        assert(out@ =~= gen_of(inner@, iteration@, node@.iteration_item_variable)->Some_0);
    }
    Ok(out)
}

/// The trailing identifier of each identifier projection of the parsed
/// SELECT.
fn derive_original_select_columns(inner: &[u8]) -> (r: Result<Vec<Vec<u8>>, QueryCompilerError>)
    ensures
        r is Ok <==> select_parses(inner@),
        r matches Ok(v) ==> v@.map_values(|x: Vec<u8>| x@) == chain_cols(
            projection_chains_of(inner@),
        ),
        r matches Err(e) ==> e matches QueryCompilerError::InnerQueryInvalid(_),
{
    let chains = match sel_projection_chains(inner) {
        Ok(c) => c,
        Err(m) => return Err(QueryCompilerError::InnerQueryInvalid(m)),
    };
    let ghost gchains = chains_view(chains@);
    let mut out: Vec<Vec<u8>> = Vec::new();
    let n = chains.len();
    let mut i: usize = 0;
    while i < n
        invariant
            i <= n,
            n == chains@.len(),
            gchains == chains_view(chains@),
            gchains == projection_chains_of(inner@),
            out@.map_values(|x: Vec<u8>| x@) == chain_cols(gchains.take(i as int)),
        decreases n - i,
    {
        let ghost prev = out@;
        proof {
            assert(chain_view(chains@[i as int]) == gchains[i as int]);
            lemma_chain_cols_snoc(gchains, i as int);
        }
        match &chains[i] {
            Some(ids) => {
                if ids.len() > 0 {
                    let last = slice_to_vec(ids[ids.len() - 1].as_slice());
                    proof {
                        assert(last@ == gchains[i as int]->Some_0.last());
                    }
                    out.push(last);
                }
            },
            None => {},
        }
        i = i + 1;
        proof {
            assert(out@.map_values(|x: Vec<u8>| x@) =~= chain_cols(gchains.take(i as int)));
        }
    }
    proof {
        assert(gchains.take(n as int) =~= gchains);
    }
    Ok(out)
}

/// Splitting the chain list before its last element splits `chain_cols`.
proof fn lemma_chain_cols_snoc(chains: Seq<Option<Seq<Seq<u8>>>>, i: int)
    requires
        0 <= i < chains.len(),
    ensures
        chain_cols(chains.take(i + 1)) == chain_cols(chains.take(i)) + (match chains[i] {
            Some(c) => if c.len() > 0 {
                seq![c.last()]
            } else {
                Seq::<Seq<u8>>::empty()
            },
            None => Seq::<Seq<u8>>::empty(),
        }),
    decreases i,
{
    if i == 0 {
        assert(chains.take(1) =~= seq![chains[0]]);
        assert(chains.take(1).drop_first() =~= Seq::<Option<Seq<Seq<u8>>>>::empty());
        assert(chains.take(0) =~= Seq::<Option<Seq<Seq<u8>>>>::empty());
        assert(chain_cols(chains.take(0)) =~= Seq::<Seq<u8>>::empty());
    } else {
        lemma_chain_cols_snoc(chains.drop_first(), i - 1);
        assert(chains.take(i + 1).drop_first() =~= chains.drop_first().take(i));
        assert(chains.take(i).drop_first() =~= chains.drop_first().take(i - 1));
        assert(chains.take(i + 1)[0] == chains[0]);
        assert(chains.take(i)[0] == chains[0]);
        assert(chains.drop_first()[i - 1] == chains[i]);
    }
}

/// The `(qualifier, column)` pairs of two-part identifier projections.
fn derive_fully_qualified_original_select_columns(inner: &[u8]) -> (r: Result<
    Vec<(Vec<u8>, Vec<u8>)>,
    QueryCompilerError,
>)
    ensures
        r is Ok <==> select_parses(inner@),
        r matches Ok(v) ==> v@.map_values(|x: (Vec<u8>, Vec<u8>)| (x.0@, x.1@)) == chain_pairs(
            projection_chains_of(inner@),
        ),
        r matches Err(e) ==> e matches QueryCompilerError::InnerQueryInvalid(_),
{
    let chains = match sel_projection_chains(inner) {
        Ok(c) => c,
        Err(m) => return Err(QueryCompilerError::InnerQueryInvalid(m)),
    };
    let ghost gchains = chains_view(chains@);
    let mut out: Vec<(Vec<u8>, Vec<u8>)> = Vec::new();
    let n = chains.len();
    let mut i: usize = 0;
    while i < n
        invariant
            i <= n,
            n == chains@.len(),
            gchains == chains_view(chains@),
            gchains == projection_chains_of(inner@),
            out@.map_values(|x: (Vec<u8>, Vec<u8>)| (x.0@, x.1@)) == chain_pairs(
                gchains.take(i as int),
            ),
        decreases n - i,
    {
        proof {
            assert(chain_view(chains@[i as int]) == gchains[i as int]);
            lemma_chain_pairs_snoc(gchains, i as int);
        }
        match &chains[i] {
            Some(ids) => {
                if ids.len() == 2 {
                    let q = slice_to_vec(ids[0].as_slice());
                    let c = slice_to_vec(ids[1].as_slice());
                    out.push((q, c));
                }
            },
            None => {},
        }
        i = i + 1;
        proof {
            assert(out@.map_values(|x: (Vec<u8>, Vec<u8>)| (x.0@, x.1@)) =~= chain_pairs(
                gchains.take(i as int),
            ));
        }
    }
    proof {
        assert(gchains.take(n as int) =~= gchains);
    }
    Ok(out)
}

/// Splitting the chain list before its last element splits `chain_pairs`.
proof fn lemma_chain_pairs_snoc(chains: Seq<Option<Seq<Seq<u8>>>>, i: int)
    requires
        0 <= i < chains.len(),
    ensures
        chain_pairs(chains.take(i + 1)) == chain_pairs(chains.take(i)) + (match chains[i] {
            Some(c) => if c.len() == 2 {
                seq![(c[0], c[1])]
            } else {
                Seq::<(Seq<u8>, Seq<u8>)>::empty()
            },
            None => Seq::<(Seq<u8>, Seq<u8>)>::empty(),
        }),
    decreases i,
{
    if i == 0 {
        assert(chains.take(1) =~= seq![chains[0]]);
        assert(chains.take(1).drop_first() =~= Seq::<Option<Seq<Seq<u8>>>>::empty());
        assert(chains.take(0) =~= Seq::<Option<Seq<Seq<u8>>>>::empty());
        assert(chain_pairs(chains.take(0)) =~= Seq::<(Seq<u8>, Seq<u8>)>::empty());
    } else {
        lemma_chain_pairs_snoc(chains.drop_first(), i - 1);
        assert(chains.take(i + 1).drop_first() =~= chains.drop_first().take(i));
        assert(chains.take(i).drop_first() =~= chains.drop_first().take(i - 1));
        assert(chains.take(i + 1)[0] == chains[0]);
        assert(chains.take(i)[0] == chains[0]);
        assert(chains.drop_first()[i - 1] == chains[i]);
    }
}

/// The columns of projection pairs whose qualifier is not the base
/// target.
fn derive_joined_table_column_names(inner: &[u8]) -> (r: Result<Vec<Vec<u8>>, QueryCompilerError>)
    ensures
        r is Ok <==> select_parses(inner@),
        r matches Ok(v) ==> v@.map_values(|x: Vec<u8>| x@) == fragments_of(inner@),
        r matches Err(e) ==> e matches QueryCompilerError::InnerQueryInvalid(_),
{
    let pairs = derive_fully_qualified_original_select_columns(inner)?;
    let ghost gpairs = chain_pairs(projection_chains_of(inner@));
    let target = match sel_base_alias(inner) {
        Ok(Some(a)) => Some(a),
        Ok(None) => match sel_base_name(inner) {
            Ok(o) => o,
            Err(m) => return Err(QueryCompilerError::InnerQueryInvalid(m)),
        },
        Err(m) => return Err(QueryCompilerError::InnerQueryInvalid(m)),
    };
    let target = match target {
        Some(t) => t,
        None => {
            proof {
                assert(fragments_of(inner@) =~= Seq::<Seq<u8>>::empty());
            }
            return Ok(Vec::new());
        },
    };
    let ghost gtarget = target@;
    proof {
        assert(base_target_of(inner@) == Some(gtarget));
    }
    let mut out: Vec<Vec<u8>> = Vec::new();
    let n = pairs.len();
    let mut i: usize = 0;
    while i < n
        invariant
            i <= n,
            n == pairs@.len(),
            gtarget == target@,
            pairs@.map_values(|x: (Vec<u8>, Vec<u8>)| (x.0@, x.1@)) == gpairs,
            out@.map_values(|x: Vec<u8>| x@) == foreign_cols(gpairs.take(i as int), gtarget),
        decreases n - i,
    {
        proof {
            assert(gpairs[i as int] == (pairs@[i as int].0@, pairs@[i as int].1@));
            lemma_foreign_cols_snoc(gpairs, gtarget, i as int);
        }
        let ghost prevm = out@.map_values(|x: Vec<u8>| x@);
        let keep = !bytes_eq(pairs[i].0.as_slice(), target.as_slice());
        proof {
            assert(gpairs[i as int].0 == pairs@[i as int].0@);
            assert(gpairs[i as int].1 == pairs@[i as int].1@);
            assert(gtarget == target@);
            assert(keep == (gpairs[i as int].0 != gtarget));
        }
        if keep {
            let col = slice_to_vec(pairs[i].1.as_slice());
            proof {
                assert(col@ == gpairs[i as int].1);
            }
            out.push(col);
        }
        i = i + 1;
        proof {
            if keep {
                assert(out@.map_values(|x: Vec<u8>| x@) =~= prevm.push(gpairs[i - 1].1));
            } else {
                assert(out@.map_values(|x: Vec<u8>| x@) =~= prevm);
            }
            assert(out@.map_values(|x: Vec<u8>| x@) =~= foreign_cols(
                gpairs.take(i as int),
                gtarget,
            ));
        }
    }
    proof {
        assert(gpairs.take(n as int) =~= gpairs);
    }
    Ok(out)
}

/// Splitting the pair list before its last element splits `foreign_cols`.
proof fn lemma_foreign_cols_snoc(pairs: Seq<(Seq<u8>, Seq<u8>)>, target: Seq<u8>, i: int)
    requires
        0 <= i < pairs.len(),
    ensures
        foreign_cols(pairs.take(i + 1), target) == foreign_cols(pairs.take(i), target) + (if pairs[
            i
        ].0 != target {
            seq![pairs[i].1]
        } else {
            Seq::<Seq<u8>>::empty()
        }),
    decreases i,
{
    if i == 0 {
        assert(pairs.take(1) =~= seq![pairs[0]]);
        assert(pairs.take(1).drop_first() =~= Seq::<(Seq<u8>, Seq<u8>)>::empty());
        assert(pairs.take(0) =~= Seq::<(Seq<u8>, Seq<u8>)>::empty());
        assert(foreign_cols(pairs.take(0), target) =~= Seq::<Seq<u8>>::empty());
    } else {
        lemma_foreign_cols_snoc(pairs.drop_first(), target, i - 1);
        assert(pairs.take(i + 1).drop_first() =~= pairs.drop_first().take(i));
        assert(pairs.take(i).drop_first() =~= pairs.drop_first().take(i - 1));
        assert(pairs.take(i + 1)[0] == pairs[0]);
        assert(pairs.take(i)[0] == pairs[0]);
        assert(pairs.drop_first()[i - 1] == pairs[i]);
    }
}

/// The normalized iteration query, which becomes the `loop_values` CTE.
fn construct_cte_with_iteration(iteration: &[u8]) -> (r: Result<Vec<u8>, QueryCompilerError>)
    ensures
        match query_normalized(iteration@) {
            Some(v) => r matches Ok(b) && b@ == v,
            None => r matches Err(e) && e matches QueryCompilerError::InnerQueryInvalid(_),
        },
{
    match parse_query_to_bytes(iteration) {
        Ok(v) => Ok(v),
        Err(m) => Err(QueryCompilerError::InnerQueryInvalid(m)),
    }
}

/// The CTE's column list after the counter `n`: a comma-prefixed column
/// per projection identifier.
fn construct_recursive_cte_columns(cols: &Vec<Vec<u8>>) -> (r: Vec<u8>)
    ensures
        r@ == cte_columns_of(cols@.map_values(|x: Vec<u8>| x@)),
{
    let ghost gcols = cols@.map_values(|x: Vec<u8>| x@);
    let mut out: Vec<u8> = Vec::new();
    let sep = ", ".as_bytes_vec();
    let n = cols.len();
    let mut i: usize = 0;
    proof {
        assert(gcols.skip(0) =~= gcols);
    }
    while i < n
        invariant
            i <= n,
            n == cols@.len(),
            gcols == cols@.map_values(|x: Vec<u8>| x@),
            sep@ == encode_utf8(", "@),
            out@ + cte_columns_of(gcols.skip(i as int)) == cte_columns_of(gcols),
        decreases n - i,
    {
        let ghost prev = out@;
        proof {
            assert(gcols.skip(i as int)[0] == gcols[i as int]);
            assert(gcols.skip(i as int).drop_first() =~= gcols.skip(i as int + 1));
            assert(gcols[i as int] == cols@[i as int]@);
        }
        out.extend_from_slice(sep.as_slice());
        out.extend_from_slice(cols[i].as_slice());
        i = i + 1;
        proof {
            assert(out@ =~= prev + encode_utf8(", "@) + gcols[i - 1]);
            assert(out@ + cte_columns_of(gcols.skip(i as int)) =~= prev + cte_columns_of(
                gcols.skip(i - 1),
            ));
        }
    }
    proof {
        assert(gcols.skip(n as int) =~= Seq::<Seq<u8>>::empty());
        assert(cte_columns_of(gcols.skip(n as int)) =~= Seq::<u8>::empty());
        assert(out@ =~= out@ + Seq::<u8>::empty());
    }
    out
}

/// The outer selection: the projection columns over `all_entries`,
/// keeping only rows where every foreign column is present.
fn compile_recursive_cte(cols: &Vec<Vec<u8>>, fragments: &Vec<Vec<u8>>) -> (r: Vec<u8>)
    ensures
        r@ == outer_select_of(
            cols@.map_values(|x: Vec<u8>| x@),
            fragments@.map_values(|x: Vec<u8>| x@),
        ),
{
    let ghost gcols = cols@.map_values(|x: Vec<u8>| x@);
    let ghost gfrags = fragments@.map_values(|x: Vec<u8>| x@);
    let mut out: Vec<u8> = "SELECT ".as_bytes_vec();
    let sep = ", ".as_bytes_vec();
    let ghost head = out@;
    let n = cols.len();
    let mut i: usize = 0;
    while i < n
        invariant
            i <= n,
            n == cols@.len(),
            gcols == cols@.map_values(|x: Vec<u8>| x@),
            sep@ == encode_utf8(", "@),
            out@ == head + comma_prefix_joined(gcols, i as int),
        decreases n - i,
    {
        proof {
            assert(gcols[i as int] == cols@[i as int]@);
        }
        if i > 0 {
            out.extend_from_slice(sep.as_slice());
        }
        out.extend_from_slice(cols[i].as_slice());
        proof {
            lemma_comma_prefix_step(gcols, i as int);
            assert(out@ =~= head + comma_prefix_joined(gcols, i as int + 1));
        }
        i = i + 1;
    }
    proof {
        lemma_comma_prefix_full(gcols);
    }
    let from_where = " FROM all_entries WHERE ".as_bytes_vec();
    out.extend_from_slice(from_where.as_slice());
    let ghost mid = out@;
    if fragments.len() == 0 {
        let true_lit = "TRUE".as_bytes_vec();
        out.extend_from_slice(true_lit.as_slice());
        proof {
            assert(out@ =~= outer_select_of(gcols, gfrags));
        }
        return out;
    }
    let is_not_null = " IS NOT NULL".as_bytes_vec();
    let sep_and = " AND ".as_bytes_vec();
    let m = fragments.len();
    let mut j: usize = 0;
    while j < m
        invariant
            1 <= m,
            j <= m,
            m == fragments@.len(),
            gfrags == fragments@.map_values(|x: Vec<u8>| x@),
            is_not_null@ == encode_utf8(" IS NOT NULL"@),
            sep_and@ == encode_utf8(" AND "@),
            out@ == mid + filter_prefix_joined(gfrags, j as int),
        decreases m - j,
    {
        proof {
            assert(gfrags[j as int] == fragments@[j as int]@);
        }
        if j > 0 {
            out.extend_from_slice(sep_and.as_slice());
        }
        out.extend_from_slice(fragments[j].as_slice());
        out.extend_from_slice(is_not_null.as_slice());
        proof {
            lemma_filter_prefix_step(gfrags, j as int);
            assert(out@ =~= mid + filter_prefix_joined(gfrags, j as int + 1));
        }
        j = j + 1;
    }
    proof {
        lemma_filter_prefix_full(gfrags);
        assert(out@ =~= outer_select_of(gcols, gfrags));
    }
    out
}

/// The first `i` columns joined with commas, as the building loop walks.
pub open spec fn comma_prefix_joined(cols: Seq<Seq<u8>>, i: int) -> Seq<u8>
    decreases i,
{
    if i <= 0 {
        Seq::empty()
    } else if i == 1 {
        cols[0]
    } else {
        comma_prefix_joined(cols, i - 1) + encode_utf8(", "@) + cols[i - 1]
    }
}

proof fn lemma_comma_prefix_step(cols: Seq<Seq<u8>>, i: int)
    requires
        0 <= i < cols.len(),
    ensures
        comma_prefix_joined(cols, i + 1) == (if i == 0 {
            cols[0]
        } else {
            comma_prefix_joined(cols, i) + encode_utf8(", "@) + cols[i]
        }),
{
}

/// The loop's join equals the recursive comma join.
proof fn lemma_comma_prefix_full(cols: Seq<Seq<u8>>)
    ensures
        comma_prefix_joined(cols, cols.len() as int) == comma_joined(cols),
    decreases cols.len(),
{
    if cols.len() > 1 {
        lemma_comma_prefix_full(cols.drop_first());
        lemma_comma_prefix_shift(cols, cols.len() as int);
    } else if cols.len() == 1 {
        assert(comma_joined(cols) == cols[0]);
    } else {
        assert(comma_joined(cols) =~= Seq::<u8>::empty());
    }
}

/// Prefix joins over a dropped head shift by one.
proof fn lemma_comma_prefix_shift(cols: Seq<Seq<u8>>, i: int)
    requires
        1 <= i <= cols.len(),
        cols.len() >= 1,
    ensures
        comma_prefix_joined(cols, i) == (if i == 1 {
            cols[0]
        } else {
            cols[0] + encode_utf8(", "@) + comma_prefix_joined(cols.drop_first(), i - 1)
        }),
    decreases i,
{
    if i > 1 {
        lemma_comma_prefix_shift(cols, i - 1);
        assert(cols.drop_first()[i - 2] == cols[i - 1]);
        if i == 2 {
            assert(comma_prefix_joined(cols.drop_first(), 1) == cols.drop_first()[0]);
        }
        assert((cols[0] + encode_utf8(", "@) + comma_prefix_joined(cols.drop_first(), i - 2))
            + encode_utf8(", "@) + cols[i - 1] =~= cols[0] + encode_utf8(", "@) + (
        comma_prefix_joined(cols.drop_first(), i - 2) + encode_utf8(", "@) + cols[i - 1]));
    }
}

/// The first `j` fragments rendered and AND-joined, as the loop walks.
pub open spec fn filter_prefix_joined(frags: Seq<Seq<u8>>, j: int) -> Seq<u8>
    decreases j,
{
    if j <= 0 {
        Seq::empty()
    } else if j == 1 {
        frags[0] + encode_utf8(" IS NOT NULL"@)
    } else {
        filter_prefix_joined(frags, j - 1) + encode_utf8(" AND "@) + frags[j - 1] + encode_utf8(
            " IS NOT NULL"@,
        )
    }
}

proof fn lemma_filter_prefix_step(frags: Seq<Seq<u8>>, j: int)
    requires
        0 <= j < frags.len(),
    ensures
        filter_prefix_joined(frags, j + 1) == (if j == 0 {
            frags[0] + encode_utf8(" IS NOT NULL"@)
        } else {
            filter_prefix_joined(frags, j) + encode_utf8(" AND "@) + frags[j] + encode_utf8(
                " IS NOT NULL"@,
            )
        }),
{
}

/// The loop's filter equals the recursive AND join.
proof fn lemma_filter_prefix_full(frags: Seq<Seq<u8>>)
    ensures
        filter_prefix_joined(frags, frags.len() as int) == not_null_filter(frags),
    decreases frags.len(),
{
    if frags.len() > 1 {
        lemma_filter_prefix_full(frags.drop_first());
        lemma_filter_prefix_shift(frags, frags.len() as int);
    } else if frags.len() == 1 {
    } else {
        assert(not_null_filter(frags) =~= Seq::<u8>::empty());
    }
}

/// Filter prefix joins over a dropped head shift by one.
proof fn lemma_filter_prefix_shift(frags: Seq<Seq<u8>>, j: int)
    requires
        1 <= j <= frags.len(),
        frags.len() >= 1,
    ensures
        filter_prefix_joined(frags, j) == (if j == 1 {
            frags[0] + encode_utf8(" IS NOT NULL"@)
        } else {
            frags[0] + encode_utf8(" IS NOT NULL"@) + encode_utf8(" AND "@) + filter_prefix_joined(
                frags.drop_first(),
                j - 1,
            )
        }),
    decreases j,
{
    if j > 1 {
        lemma_filter_prefix_shift(frags, j - 1);
        assert(frags.drop_first()[j - 2] == frags[j - 1]);
        if j == 2 {
        }
        assert((frags[0] + encode_utf8(" IS NOT NULL"@) + encode_utf8(" AND "@)
            + filter_prefix_joined(frags.drop_first(), j - 2)) + encode_utf8(" AND "@) + frags[j
            - 1] + encode_utf8(" IS NOT NULL"@) =~= frags[0] + encode_utf8(" IS NOT NULL"@)
            + encode_utf8(" AND "@) + (filter_prefix_joined(frags.drop_first(), j - 2)
            + encode_utf8(" AND "@) + frags[j - 1] + encode_utf8(" IS NOT NULL"@)));
    }
}

/// The anchor: the inner query with the iteration seed `0` prepended, all
/// joins promoted to LEFT, and the iteration variable replaced by the
/// first of the loop values.
fn compile_cte_anchor(inner: &[u8], node: &CompleteCombinedResultNode) -> (r: Result<
    Vec<u8>,
    QueryCompilerError,
>)
    ensures
        match anchor_of(inner@, node@.iteration_item_variable) {
            Some(b) => r matches Ok(v) && v@ == b,
            None => r matches Err(e) && e matches QueryCompilerError::InnerQueryInvalid(_),
        },
{
    let arity = match sel_from_len(inner) {
        Ok(n) => n,
        Err(m) => return Err(QueryCompilerError::InnerQueryInvalid(m)),
    };
    if arity != 1 {
        let msg = "inner query may only have one table following FROM directive";
        return Err(QueryCompilerError::InnerQueryInvalid(msg.to_owned()));
    }
    let seeded = insert_anchor_iteration_index(inner)?;
    let promoted = transform_all_joins_to_left_joins(seeded)?;
    apply_anchor_iteration_variable(promoted, node)
}

/// Prepends the literal `0` to the anchor's projection: the seed of the
/// iteration counter.
fn insert_anchor_iteration_index(inner: &[u8]) -> (r: Result<Vec<u8>, QueryCompilerError>)
    requires
        select_parses(inner@),
    ensures
        match r {
            Ok(v) => expr_parses(encode_utf8("0"@)) && v@ == projection_prepended(
                inner@,
                encode_utf8("0"@),
            ),
            Err(e) => !expr_parses(encode_utf8("0"@)) && e matches
                QueryCompilerError::InnerQueryInvalid(_),
        },
{
    let zero = "0".as_bytes_vec();
    match sel_prepend_projection(inner, zero.as_slice()) {
        Ok(v) => Ok(v),
        Err(m) => Err(QueryCompilerError::InnerQueryInvalid(m)),
    }
}

/// Promotes every promotable join of the SELECT to a LEFT JOIN with the
/// same constraint, left to right; which operator kinds are promotable is
/// decided here, not at the boundary.
fn transform_all_joins_to_left_joins(q: Vec<u8>) -> (r: Result<Vec<u8>, QueryCompilerError>)
    ensures
        match promoted_all(q@) {
            Some(b) => r matches Ok(v) && v@ == b,
            None => r matches Err(e) && e matches QueryCompilerError::InnerQueryInvalid(_),
        },
{
    let n = match sel_join_count(q.as_slice()) {
        Ok(n) => n,
        Err(m) => return Err(QueryCompilerError::InnerQueryInvalid(m)),
    };
    let mut cur = q;
    let ghost q0 = cur@;
    let mut i: usize = 0;
    while i < n
        invariant
            i <= n,
            q0 == q@,
            n as int == join_count_of(q0),
            select_parses(q0),
            promote_joins_upto(q0, i as int) == Some(cur@),
        decreases n - i,
    {
        let kind = match sel_join_kind(cur.as_slice(), i) {
            Ok(k) => k,
            Err(m) => {
                proof {
                    assert(promote_joins_upto(q0, i as int + 1) is None);
                    lemma_promote_upto_none(q0, i as int + 1, n as int);
                }
                return Err(QueryCompilerError::InnerQueryInvalid(m));
            },
        };
        if kind == 0 || kind == 1 || kind == 2 || kind == 3 || kind == 4 || kind == 5 || kind == 6
            || kind == 8 || kind == 9 || kind == 10 || kind == 11 || kind == 12 || kind == 13
            || kind == 16 || kind == 17 {
            cur = match sel_promote_join(cur.as_slice(), i) {
                Ok(v) => v,
                Err(m) => return Err(QueryCompilerError::InnerQueryInvalid(m)),
            };
        }
        i = i + 1;
    }
    Ok(cur)
}

/// Replaces every occurrence of the iteration variable in the WHERE text
/// by a scalar subquery over the first loop value, and reinstalls the
/// reparsed expression. The substitution is textual on purpose.
fn apply_anchor_iteration_variable(q: Vec<u8>, node: &CompleteCombinedResultNode) -> (r: Result<
    Vec<u8>,
    QueryCompilerError,
>)
    ensures
        match anchor_where_applied(q@, node@.iteration_item_variable) {
            Some(b) => r matches Ok(v) && v@ == b,
            None => r matches Err(e) && e matches QueryCompilerError::InnerQueryInvalid(_),
        },
{
    let selection_text = match sel_where_text(q.as_slice()) {
        Ok(o) => o,
        Err(m) => return Err(QueryCompilerError::InnerQueryInvalid(m)),
    };
    let selection_text = match selection_text {
        Some(w) => w,
        None => return Ok(q),
    };
    let variable = node.iteration_item_variable_bytes();
    if variable.len() == 0 {
        let msg = "should contain iteration variable";
        return Err(QueryCompilerError::InnerQueryInvalid(msg.to_owned()));
    }
    let scalar_subquery = "(SELECT * FROM loop_values LIMIT 1)".as_bytes_vec();
    let transformed = replace_all(
        selection_text.as_slice(),
        variable.as_slice(),
        scalar_subquery.as_slice(),
    );
    match sel_replace_where(q.as_slice(), transformed.as_slice()) {
        Ok(v) => Ok(v),
        Err(m) => Err(QueryCompilerError::InnerQueryInvalid(m)),
    }
}

/// The step: the inner query reading from `all_entries`, joined against
/// the next loop value, with the counter `n + 1` and the recursion bound.
fn compile_cte_loop(
    inner: &[u8],
    iteration: &[u8],
    node: &CompleteCombinedResultNode,
) -> (r: Result<Vec<u8>, QueryCompilerError>)
    ensures
        match step_of(inner@, iteration@, node@.iteration_item_variable) {
            Some(b) => r matches Ok(v) && v@ == b,
            None => r matches Err(e) && e matches QueryCompilerError::InnerQueryInvalid(_),
        },
{
    let arity = match sel_from_len(inner) {
        Ok(n) => n,
        Err(m) => return Err(QueryCompilerError::InnerQueryInvalid(m)),
    };
    if arity != 1 {
        let msg = "inner query may only have one table following FROM directive";
        return Err(QueryCompilerError::InnerQueryInvalid(msg.to_owned()));
    }
    let counted = insert_loop_iteration_index(inner)?;
    let rebased = transform_loop_table_name_to_cte_alias(counted)?;
    let promoted = transform_all_joins_to_left_joins(rebased)?;
    let joined = add_loop_join(promoted, inner, iteration, node)?;
    finalize_selection(joined)
}

/// Prepends the counter expression `n + 1` to the step's projection.
fn insert_loop_iteration_index(inner: &[u8]) -> (r: Result<Vec<u8>, QueryCompilerError>)
    requires
        select_parses(inner@),
    ensures
        match r {
            Ok(v) => expr_parses(encode_utf8("n + 1"@)) && v@ == projection_prepended(
                inner@,
                encode_utf8("n + 1"@),
            ),
            Err(e) => !expr_parses(encode_utf8("n + 1"@)) && e matches
                QueryCompilerError::InnerQueryInvalid(_),
        },
{
    let counter = "n + 1".as_bytes_vec();
    match sel_prepend_projection(inner, counter.as_slice()) {
        Ok(v) => Ok(v),
        Err(m) => Err(QueryCompilerError::InnerQueryInvalid(m)),
    }
}

/// Replaces the step's base table by the recursive CTE itself.
fn transform_loop_table_name_to_cte_alias(q: Vec<u8>) -> (r: Result<Vec<u8>, QueryCompilerError>)
    ensures
        match r {
            Ok(v) => select_parses(q@) && table_factor_parses(encode_utf8("all_entries"@)) && v@
                == base_table_replaced(q@, encode_utf8("all_entries"@)),
            Err(e) => !(select_parses(q@) && table_factor_parses(encode_utf8("all_entries"@))) && e
                matches QueryCompilerError::InnerQueryInvalid(_),
        },
{
    let name = "all_entries".as_bytes_vec();
    match sel_set_base_table(q.as_slice(), name.as_slice()) {
        Ok(v) => Ok(v),
        Err(m) => Err(QueryCompilerError::InnerQueryInvalid(m)),
    }
}

/// Replaces the step's WHERE with the recursion bound: the counter stays
/// below the number of loop values.
fn finalize_selection(q: Vec<u8>) -> (r: Result<Vec<u8>, QueryCompilerError>)
    ensures
        match r {
            Ok(v) => select_parses(q@) && expr_parses(
                encode_utf8("n + 1 < (SELECT COUNT(*) FROM loop_values)"@),
            ) && v@ == where_replaced(
                q@,
                encode_utf8("n + 1 < (SELECT COUNT(*) FROM loop_values)"@),
            ),
            Err(e) => !(select_parses(q@) && expr_parses(
                encode_utf8("n + 1 < (SELECT COUNT(*) FROM loop_values)"@),
            )) && e matches QueryCompilerError::InnerQueryInvalid(_),
        },
{
    let bound = "n + 1 < (SELECT COUNT(*) FROM loop_values)".as_bytes_vec();
    match sel_replace_where(q.as_slice(), bound.as_slice()) {
        Ok(v) => Ok(v),
        Err(m) => Err(QueryCompilerError::InnerQueryInvalid(m)),
    }
}

/// Prepends the LEFT JOIN that feeds the step its next loop value.
fn add_loop_join(
    cur: Vec<u8>,
    inner: &[u8],
    iteration: &[u8],
    node: &CompleteCombinedResultNode,
) -> (r: Result<Vec<u8>, QueryCompilerError>)
    ensures
        match loop_join_added(cur@, inner@, iteration@, node@.iteration_item_variable) {
            Some(b) => r matches Ok(v) && v@ == b,
            None => r matches Err(e) && e matches QueryCompilerError::InnerQueryInvalid(_),
        },
{
    let extracted = extract_table_and_column_for_iteration_variable(cur.as_slice(), node)?;
    let loop_target_column = extracted.1;
    let join_alias = derive_base_target(inner)?;
    let inner_select_table_name = extract_iteration_query_table_name(iteration)?;
    let table_factor_text = construct_loop_join_table_factor(&join_alias, &inner_select_table_name);
    let constraint_text = construct_loop_join_constraint(&join_alias, &loop_target_column);
    match sel_prepend_left_join(
        cur.as_slice(),
        table_factor_text.as_slice(),
        constraint_text.as_slice(),
    ) {
        Ok(v) => Ok(v),
        Err(m) => Err(QueryCompilerError::InnerQueryInvalid(m)),
    }
}

/// The base table's alias if present, otherwise its name.
fn derive_base_target(inner: &[u8]) -> (r: Result<Vec<u8>, QueryCompilerError>)
    ensures
        match (if !select_parses(inner@) {
            None
        } else {
            base_target_of(inner@)
        }) {
            Some(t) => r matches Ok(v) && v@ == t,
            None => r matches Err(e) && e matches QueryCompilerError::InnerQueryInvalid(_),
        },
{
    let alias = match sel_base_alias(inner) {
        Ok(o) => o,
        Err(m) => return Err(QueryCompilerError::InnerQueryInvalid(m)),
    };
    if let Some(a) = alias {
        return Ok(a);
    }
    let name = match sel_base_name(inner) {
        Ok(o) => o,
        Err(m) => return Err(QueryCompilerError::InnerQueryInvalid(m)),
    };
    match name {
        Some(n) => Ok(n),
        None => {
            let msg = "could not derive table name from inner query";
            Err(QueryCompilerError::InnerQueryInvalid(msg.to_owned()))
        },
    }
}

/// The joined relation of the step: the iteration query's table under the
/// base table's alias.
fn construct_loop_join_table_factor(join_alias: &Vec<u8>, inner_select_table_name: &Vec<u8>) -> (r:
    Vec<u8>)
    ensures
        r@ == loop_join_rel_of(inner_select_table_name@, join_alias@),
{
    let mut text: Vec<u8> = slice_to_vec(inner_select_table_name.as_slice());
    let as_kw = " AS ".as_bytes_vec();
    text.extend_from_slice(as_kw.as_slice());
    text.extend_from_slice(join_alias.as_slice());
    proof {
        assert(text@ =~= loop_join_rel_of(inner_select_table_name@, join_alias@));
    }
    text
}

/// The step's ON clause: the iteration column equals the first loop value
/// greater than the one the recursion consumed last.
fn construct_loop_join_constraint(join_alias: &Vec<u8>, loop_target_column: &Vec<u8>) -> (r: Vec<
    u8,
>)
    ensures
        r@ == loop_join_on_of(join_alias@, loop_target_column@),
{
    let mut text: Vec<u8> = slice_to_vec(join_alias.as_slice());
    let dot = ".".as_bytes_vec();
    text.extend_from_slice(dot.as_slice());
    text.extend_from_slice(loop_target_column.as_slice());
    let select_open = " = (SELECT ".as_bytes_vec();
    text.extend_from_slice(select_open.as_slice());
    text.extend_from_slice(loop_target_column.as_slice());
    let from_where = " FROM loop_values WHERE ".as_bytes_vec();
    text.extend_from_slice(from_where.as_slice());
    text.extend_from_slice(loop_target_column.as_slice());
    let greater = " > all_entries.".as_bytes_vec();
    text.extend_from_slice(greater.as_slice());
    text.extend_from_slice(loop_target_column.as_slice());
    let limit = " LIMIT 1)".as_bytes_vec();
    text.extend_from_slice(limit.as_slice());
    proof {
        assert(text@ =~= loop_join_on_of(join_alias@, loop_target_column@));
    }
    text
}

/// The single FROM table of the iteration query, whose rows drive the
/// recursion.
fn extract_iteration_query_table_name(iteration: &[u8]) -> (r: Result<Vec<u8>, QueryCompilerError>)
    ensures
        match iq_table_of(iteration@) {
            Some(t) => r matches Ok(v) && v@ == t,
            None => r matches Err(e) && e matches QueryCompilerError::InnerQueryInvalid(_),
        },
{
    let arity = match sel_from_len(iteration) {
        Ok(n) => n,
        Err(m) => return Err(QueryCompilerError::InnerQueryInvalid(m)),
    };
    if arity != 1 {
        let msg = "expected loop iteration query to have just one table followed by FROM";
        return Err(QueryCompilerError::InnerQueryInvalid(msg.to_owned()));
    }
    let name = match sel_base_name(iteration) {
        Ok(o) => o,
        Err(m) => return Err(QueryCompilerError::InnerQueryInvalid(m)),
    };
    match name {
        Some(n) => Ok(n),
        None => {
            let msg = "could not derive table name from loop iteration query";
            Err(QueryCompilerError::InnerQueryInvalid(msg.to_owned()))
        },
    }
}

/// The qualifier and column of the equality that binds the iteration
/// variable in the step's WHERE.
fn extract_table_and_column_for_iteration_variable(
    cur: &[u8],
    node: &CompleteCombinedResultNode,
) -> (r: Result<(Vec<u8>, Vec<u8>), QueryCompilerError>)
    ensures
        match (if !select_parses(cur@) {
            None
        } else {
            iteration_target_of(where_text_of(cur@), node@.iteration_item_variable)
        }) {
            Some(t) => r matches Ok(v) && v.0@ == t.0 && v.1@ == t.1,
            None => r matches Err(e) && e matches QueryCompilerError::InnerQueryInvalid(_),
        },
{
    let mut idents = extract_iteration_variable_idents(cur, node)?;
    if idents.len() != 2 {
        let msg = "expected lvalue of iteration variable to be of schema: table.column";
        return Err(QueryCompilerError::InnerQueryInvalid(msg.to_owned()));
    }
    let column = match idents.pop() {
        Some(c) => c,
        None => {
            let msg = "expected lvalue of iteration variable to be of schema: table.column";
            return Err(QueryCompilerError::InnerQueryInvalid(msg.to_owned()));
        },
    };
    let qualifier = match idents.pop() {
        Some(q) => q,
        None => {
            let msg = "expected lvalue of iteration variable to be of schema: table.column";
            return Err(QueryCompilerError::InnerQueryInvalid(msg.to_owned()));
        },
    };
    Ok((qualifier, column))
}

/// The identifier chain on the left of the first equality whose right
/// side is the iteration variable.
fn extract_iteration_variable_idents(
    cur: &[u8],
    node: &CompleteCombinedResultNode,
) -> (r: Result<Vec<Vec<u8>>, QueryCompilerError>)
    ensures
        match (if !select_parses(cur@) {
            None
        } else {
            match where_text_of(cur@) {
                None => None,
                Some(w) => walk_of(
                    w,
                    node@.iteration_item_variable,
                    ITERATION_WALK_FUEL as int,
                ),
            }
        }) {
            Some(Some(chain)) => r matches Ok(v) && v@.map_values(|x: Vec<u8>| x@) == chain,
            _ => r matches Err(e) && e matches QueryCompilerError::InnerQueryInvalid(_),
        },
{
    let selection = match sel_where_text(cur) {
        Ok(o) => o,
        Err(m) => return Err(QueryCompilerError::InnerQueryInvalid(m)),
    };
    let selection = match selection {
        Some(w) => w,
        None => {
            let msg = "should contain iteration variable";
            return Err(QueryCompilerError::InnerQueryInvalid(msg.to_owned()));
        },
    };
    let candidate = get_iteration_target_identifier(
        selection.as_slice(),
        node.iteration_item_variable_bytes().as_slice(),
        ITERATION_WALK_FUEL,
    );
    match candidate {
        Some(Some(ids)) => Ok(ids),
        _ => {
            let msg = "should contain iteration variable";
            Err(QueryCompilerError::InnerQueryInvalid(msg.to_owned()))
        },
    }
}

/// Walks the expression tree, left children first, and returns at the
/// first equality whose right side is the iteration variable: the left
/// side's identifier chain, or `None` inside when that side is not a
/// compound identifier.
fn get_iteration_target_identifier(q: &[u8], iteration_variable: &[u8], fuel: usize) -> (r: Option<
    Option<Vec<Vec<u8>>>,
>)
    ensures
        (match r {
            Some(x) => Some(chain_view(x)),
            None => None,
        }) == walk_of(q@, iteration_variable@, fuel as int),
    decreases fuel,
{
    if fuel == 0 {
        return None;
    }
    let hit = match expr_eq_placeholder(q) {
        Ok(o) => o,
        Err(_) => {
            return None;
        },
    };
    if let Some((lhs, placeholder)) = hit {
        if bytes_eq(placeholder.as_slice(), iteration_variable) {
            return Some(lhs);
        }
    }
    let children = match expr_children(q) {
        Ok(o) => o,
        Err(_) => {
            return None;
        },
    };
    if let Some((left, right)) = children {
        let found = get_iteration_target_identifier(left.as_slice(), iteration_variable, fuel - 1);
        if found.is_some() {
            return found;
        }
        return get_iteration_target_identifier(right.as_slice(), iteration_variable, fuel - 1);
    }
    None
}

} // verus!
