//! The mathematical model of the directive scanner: a word-by-word state
//! machine over the statement's bytes. The executable parser is proved to
//! compute exactly what `parse_result` says.

use crate::error::ErrView;
use crate::lex::BRACE_END;
use crate::lex::BRACE_START;
use crate::lex::PARENTHESE_END;
use crate::lex::PARENTHESE_START;
use crate::lex::VARIABLE_START;
use crate::lex::WORD_DELIMITER;
use crate::lex::keyword_bytes;
use crate::text::find_from;
use crate::text::lemma_find_from;
use crate::text::trim_bytes;
use vstd::prelude::*;

verus! {

/// A directive while it is being gathered: every attribute is optional.
pub struct NodeView {
    pub begin: int,
    pub end: Option<int>,
    pub iteration_query: Option<Seq<u8>>,
    pub iteration_item_variable: Option<Seq<u8>>,
    pub inner_query_begin: Option<int>,
    pub inner_query: Option<Seq<u8>>,
}

/// The machine's state: the directives completed so far, in source order,
/// and at most one directive still being gathered.
pub struct StView {
    pub current: Option<NodeView>,
    pub done: Seq<NodeView>,
}

/// A directive with every attribute present.
pub struct CompleteView {
    pub begin: int,
    pub end: int,
    pub iteration_query: Seq<u8>,
    pub iteration_item_variable: Seq<u8>,
    pub inner_query_begin: int,
    pub inner_query: Seq<u8>,
}

/// The state before the first word.
pub open spec fn init_st() -> StView {
    StView { current: None, done: Seq::empty() }
}

/// A fresh in-progress directive whose keyword stands at `begin`.
pub open spec fn new_node_view(begin: int) -> NodeView {
    NodeView {
        begin,
        end: None,
        iteration_query: None,
        iteration_item_variable: None,
        inner_query_begin: None,
        inner_query: None,
    }
}

/// Where the word that starts at `off` ends: at the next space, or at the
/// end of the statement.
pub open spec fn word_end(s: Seq<u8>, off: int) -> int {
    match find_from(s, off, s.len() as int, WORD_DELIMITER) {
        Some(p) => p,
        None => s.len() as int,
    }
}

/// The token a word yields, if any: a whole-word keyword, or one of the
/// initiator characters in first position.
pub enum TokView {
    Keyword(int),
    Paren(int),
    Var(int),
    Brace(int),
    CloseBrace(int),
}

/// Classifies the word `s[off..wend]`.
pub open spec fn classify(s: Seq<u8>, off: int, wend: int) -> Option<TokView> {
    let w = s.subrange(off, wend);
    if w == keyword_bytes() {
        Some(TokView::Keyword(off))
    } else if w.len() > 0 && w[0] == PARENTHESE_START {
        Some(TokView::Paren(off))
    } else if w.len() > 0 && w[0] == VARIABLE_START {
        Some(TokView::Var(off))
    } else if w.len() > 0 && w[0] == BRACE_START {
        Some(TokView::Brace(off))
    } else if w.len() > 0 && w[0] == BRACE_END {
        Some(TokView::CloseBrace(off))
    } else {
        None
    }
}

/// The `combined_result` keyword: opens a directive, or fails on nesting.
pub open spec fn keyword_transition(off: int, st: StView) -> Result<StView, ErrView> {
    match st.current {
        Some(_) => Err(ErrView::UnsupportedNesting),
        None => Ok(StView { current: Some(new_node_view(off)), done: st.done }),
    }
}

/// The `(` token: captures the iteration query, which runs from just after
/// the parenthesis to the first `)` that stands before the first `{`.
pub open spec fn attach_iteration_query_spec(s: Seq<u8>, cursor: int, n: NodeView, done: Seq<
    NodeView,
>) -> Result<StView, ErrView> {
    match find_from(s, cursor, s.len() as int, BRACE_START) {
        None => Err(ErrView::MissingCharacter { ch: BRACE_START as char }),
        Some(bp) => match find_from(s, cursor, bp, PARENTHESE_END) {
            None => Err(ErrView::MissingCharacter { ch: PARENTHESE_END as char }),
            Some(pp) => Ok(
                StView {
                    current: Some(
                        NodeView { iteration_query: Some(s.subrange(cursor, pp)), ..n },
                    ),
                    done,
                },
            ),
        },
    }
}

/// The `$` token: the iteration variable is the whole word, trimmed.
pub open spec fn attach_variable_spec(s: Seq<u8>, off: int, n: NodeView, done: Seq<
    NodeView,
>) -> StView {
    let w = s.subrange(off, word_end(s, off));
    StView {
        current: Some(NodeView { iteration_item_variable: Some(trim_bytes(w)), ..n }),
        done,
    }
}

/// The `}` token: completes the directive and pushes it onto the done list.
pub open spec fn finalize_node_spec(s: Seq<u8>, off: int, n: NodeView, done: Seq<
    NodeView,
>) -> StView {
    let n1 = match n.inner_query_begin {
        Some(b) => NodeView { inner_query: Some(trim_bytes(s.subrange(b + 1, off - 1))), ..n },
        None => n,
    };
    StView { current: None, done: done.push(NodeView { end: Some(off), ..n1 }) }
}

/// One observed token applied to the machine's state.
pub open spec fn transition(s: Seq<u8>, tok: TokView, st: StView) -> Result<StView, ErrView> {
    match tok {
        TokView::Keyword(off) => keyword_transition(off, st),
        TokView::Paren(off) => match st.current {
            Some(n) => attach_iteration_query_spec(s, off + 1, n, st.done),
            None => Ok(st),
        },
        TokView::Var(off) => match st.current {
            Some(n) => Ok(attach_variable_spec(s, off, n, st.done)),
            None => Ok(st),
        },
        TokView::Brace(off) => match st.current {
            Some(n) => Ok(
                StView { current: Some(NodeView { inner_query_begin: Some(off), ..n }), done: st.done },
            ),
            None => Ok(st),
        },
        TokView::CloseBrace(off) => match st.current {
            Some(n) => Ok(finalize_node_spec(s, off, n, st.done)),
            None => Ok(st),
        },
    }
}

/// One word applied to the machine's state.
pub open spec fn step_word(s: Seq<u8>, off: int, wend: int, st: StView) -> Result<StView, ErrView> {
    match classify(s, off, wend) {
        None => Ok(st),
        Some(tok) => transition(s, tok, st),
    }
}

/// Runs the machine from the word that starts at `off` to the end of the
/// statement.
pub open spec fn run_from(s: Seq<u8>, off: int, st: StView) -> Result<StView, ErrView>
    decreases s.len() - off when 0 <= off <= s.len() via check_run_from_decreases
{
    let wend = word_end(s, off);
    match step_word(s, off, wend, st) {
        Err(e) => Err(e),
        Ok(st2) => if wend >= s.len() {
            Ok(st2)
        } else {
            run_from(s, wend + 1, st2)
        },
    }
}

#[via_fn]
proof fn check_run_from_decreases(s: Seq<u8>, off: int, st: StView) {
    lemma_word_end(s, off);
}

/// The word that starts at `off` ends no earlier than `off` and no later
/// than the statement.
pub proof fn lemma_word_end(s: Seq<u8>, off: int)
    requires
        0 <= off <= s.len(),
    ensures
        off <= word_end(s, off) <= s.len(),
        forall|j: int| off <= j < word_end(s, off) ==> s[j] != WORD_DELIMITER,
        word_end(s, off) < s.len() ==> s[word_end(s, off)] == WORD_DELIMITER,
{
    lemma_find_from(s, off, s.len() as int, WORD_DELIMITER);
}

/// The whole statement run through the machine.
pub open spec fn parse_result(s: Seq<u8>) -> Result<StView, ErrView> {
    run_from(s, 0, init_st())
}

/// Whether any word from `off` on is the directive keyword.
pub open spec fn has_keyword_from(s: Seq<u8>, off: int) -> bool
    decreases s.len() - off when 0 <= off <= s.len() via check_has_keyword_decreases
{
    let wend = word_end(s, off);
    if s.subrange(off, wend) == keyword_bytes() {
        true
    } else if wend >= s.len() {
        false
    } else {
        has_keyword_from(s, wend + 1)
    }
}

#[via_fn]
proof fn check_has_keyword_decreases(s: Seq<u8>, off: int) {
    lemma_word_end(s, off);
}

/// Without the keyword no token ever opens a directive: the machine stays
/// in its initial state.
pub proof fn lemma_run_no_keyword(s: Seq<u8>, off: int)
    requires
        0 <= off <= s.len(),
        !has_keyword_from(s, off),
    ensures
        run_from(s, off, init_st()) == Ok::<StView, ErrView>(init_st()),
    decreases s.len() - off,
{
    lemma_word_end(s, off);
    let wend = word_end(s, off);
    assert(step_word(s, off, wend, init_st()) == Ok::<StView, ErrView>(init_st()));
    if wend < s.len() {
        lemma_run_no_keyword(s, wend + 1);
    }
}

/// Whether every attribute of an in-progress directive is present.
pub open spec fn node_complete(n: NodeView) -> bool {
    n.end is Some && n.iteration_query is Some && n.iteration_item_variable is Some
        && n.inner_query_begin is Some && n.inner_query is Some
}

/// The complete form of a directive whose attributes are all present.
pub open spec fn complete_of(n: NodeView) -> CompleteView {
    CompleteView {
        begin: n.begin,
        end: n.end->Some_0,
        iteration_query: n.iteration_query->Some_0,
        iteration_item_variable: n.iteration_item_variable->Some_0,
        inner_query_begin: n.inner_query_begin->Some_0,
        inner_query: n.inner_query->Some_0,
    }
}

/// Converts the gathered directives in order; the first incomplete one
/// yields the error the caller reports.
pub open spec fn complete_all(done: Seq<NodeView>) -> Result<Seq<CompleteView>, ErrView>
    decreases done.len(),
{
    if done.len() == 0 {
        Ok(Seq::empty())
    } else if !node_complete(done[0]) {
        Err(ErrView::DirectiveIncomplete { begin: done[0].begin })
    } else {
        match complete_all(done.drop_first()) {
            Ok(r) => Ok(seq![complete_of(done[0])] + r),
            Err(e) => Err(e),
        }
    }
}

/// What finalizing the machine's end state yields: the complete directives,
/// or the first incompleteness error; a directive still open at the end of
/// the statement is incomplete as well.
pub open spec fn finalize_result(st: StView) -> Result<Seq<CompleteView>, ErrView> {
    match complete_all(st.done) {
        Err(e) => Err(e),
        Ok(r) => match st.current {
            Some(n) => Err(ErrView::DirectiveIncomplete { begin: n.begin }),
            None => Ok(r),
        },
    }
}

/// Parse and finalize, as one function of the statement's bytes.
pub open spec fn parsed_directives(s: Seq<u8>) -> Result<Seq<CompleteView>, ErrView> {
    match parse_result(s) {
        Err(e) => Err(e),
        Ok(st) => finalize_result(st),
    }
}

/// The iteration variable, once gathered, is nonempty and starts with the
/// variable initiator.
pub open spec fn variable_wf(n: NodeView) -> bool {
    n.iteration_item_variable matches Some(v) ==> v.len() > 0 && v[0] == VARIABLE_START
}

/// The offsets a completed directive carries, before conversion.
pub open spec fn done_node_wf(s: Seq<u8>, n: NodeView) -> bool {
    0 <= n.begin && (n.end matches Some(e) && n.begin < e < s.len()) && (n.inner_query_begin
        matches Some(b) ==> n.begin < b && (n.end matches Some(e) && b + 2 <= e)) && variable_wf(n)
}

/// The offsets an in-progress directive carries, relative to the offset of
/// the word being read: the keyword occupies fifteen bytes and a delimiter,
/// and an opening brace occupies at least one byte and a delimiter.
pub open spec fn cur_node_wf(n: NodeView, off: int) -> bool {
    0 <= n.begin && n.begin + 16 <= off && n.end is None && (n.inner_query_begin matches Some(b)
        ==> n.begin < b && b + 2 <= off) && variable_wf(n)
}

/// The machine state's well-formedness while the word at `off` is next:
/// completed directives lie before the open one, which lies before `off`,
/// and all spans are ordered and bounded.
pub open spec fn st_wf(s: Seq<u8>, off: int, st: StView) -> bool {
    (st.current matches Some(n) ==> cur_node_wf(n, off) && (forall|i: int|
        0 <= i < st.done.len() ==> ((#[trigger] st.done[i]).end matches Some(e) && e < n.begin)))
        && (forall|i: int| 0 <= i < st.done.len() ==> done_node_wf(s, #[trigger] st.done[i])) && (
    forall|i: int|
        0 <= i < st.done.len() ==> ((#[trigger] st.done[i]).end matches Some(e) && e < off)) && (
    forall|i: int, j: int|
        0 <= i < j < st.done.len() ==> ((#[trigger] st.done[i]).end matches Some(e) && e < (
        #[trigger] st.done[j]).begin))
}

/// What survives of well-formedness once no further word follows.
pub open spec fn done_wf(s: Seq<u8>, st: StView) -> bool {
    (st.current matches Some(n) ==> 0 <= n.begin) && (forall|i: int|
        0 <= i < st.done.len() ==> done_node_wf(s, #[trigger] st.done[i])) && (forall|
        i: int,
        j: int,
    |
        0 <= i < j < st.done.len() ==> ((#[trigger] st.done[i]).end matches Some(e) && e < (
        #[trigger] st.done[j]).begin))
}

/// Well-formedness keeps holding as the word offset moves right.
pub proof fn lemma_st_wf_monotone(s: Seq<u8>, off1: int, off2: int, st: StView)
    requires
        st_wf(s, off1, st),
        off1 <= off2,
    ensures
        st_wf(s, off2, st),
{
}

/// A well-formed machine state is well formed with no bound at all.
pub proof fn lemma_st_wf_done(s: Seq<u8>, off: int, st: StView)
    requires
        st_wf(s, off, st),
    ensures
        done_wf(s, st),
{
}

/// What a successful conversion of the gathered directives yields: every
/// directive was complete, converted in order.
pub proof fn lemma_complete_all(done: Seq<NodeView>)
    ensures
        match complete_all(done) {
            Ok(cs) => cs.len() == done.len() && (forall|i: int|
                0 <= i < done.len() ==> node_complete(#[trigger] done[i]) && cs[i] == complete_of(
                    done[i],
                )),
            Err(e) => exists|i: int|
                0 <= i < done.len() && !node_complete(#[trigger] done[i]) && e
                    == (ErrView::DirectiveIncomplete { begin: done[i].begin }),
        },
    decreases done.len(),
{
    if done.len() > 0 && node_complete(done[0]) {
        lemma_complete_all(done.drop_first());
        match complete_all(done.drop_first()) {
            Ok(r) => {
                assert forall|i: int|
                    0 <= i < done.len() implies node_complete(#[trigger] done[i]) && complete_all(
                    done,
                )->Ok_0[i] == complete_of(done[i]) by {
                    if i > 0 {
                        assert(done.drop_first()[i - 1] == done[i]);
                    }
                }
            },
            Err(e) => {
                let i = choose|i: int|
                    0 <= i < done.drop_first().len() && !node_complete(
                        #[trigger] done.drop_first()[i],
                    ) && e == (ErrView::DirectiveIncomplete { begin: done.drop_first()[i].begin });
                assert(done[i + 1] == done.drop_first()[i]);
            },
        }
    }
}

/// When the first incomplete directive stands at `i`, conversion fails
/// with that directive's offset.
pub proof fn lemma_complete_all_err(done: Seq<NodeView>, i: int)
    requires
        0 <= i < done.len(),
        !node_complete(done[i]),
        forall|j: int| 0 <= j < i ==> node_complete(#[trigger] done[j]),
    ensures
        complete_all(done) == Err::<Seq<CompleteView>, ErrView>(
            ErrView::DirectiveIncomplete { begin: done[i].begin },
        ),
    decreases i,
{
    if i == 0 {
    } else {
        assert(node_complete(done[0]));
        let t = done.drop_first();
        assert(t[i - 1] == done[i]);
        assert forall|j: int| 0 <= j < i - 1 implies node_complete(#[trigger] t[j]) by {
            assert(t[j] == done[j + 1]);
        }
        lemma_complete_all_err(t, i - 1);
    }
}

/// Conversion of well-formed, ordered directives yields well-formed,
/// ordered complete directives.
pub proof fn lemma_finalize_wf(s: Seq<u8>, st: StView)
    requires
        done_wf(s, st),
    ensures
        finalize_result(st) matches Ok(cs) ==> directives_wf(s, cs),
{
    lemma_complete_all(st.done);
    match finalize_result(st) {
        Ok(cs) => {
            assert forall|i: int| 0 <= i < cs.len() implies complete_node_wf(
                s,
                #[trigger] cs[i],
            ) by {
                assert(done_node_wf(s, st.done[i]));
                assert(cs[i] == complete_of(st.done[i]));
            }
            assert forall|i: int, j: int| 0 <= i < j < cs.len() implies #[trigger] cs[i].end < (
            #[trigger] cs[j]).begin by {
                assert(st.done[i].end matches Some(e) && e < st.done[j].begin);
                assert(cs[i] == complete_of(st.done[i]));
                assert(cs[j] == complete_of(st.done[j]));
            }
        },
        Err(_) => {},
    }
}

/// The offsets a completed directive carries, relative to the statement,
/// and the shape of its iteration variable.
pub open spec fn complete_node_wf(s: Seq<u8>, c: CompleteView) -> bool {
    0 <= c.begin < c.inner_query_begin && c.inner_query_begin + 2 <= c.end && c.end < s.len()
        && c.iteration_item_variable.len() > 0 && c.iteration_item_variable[0] == VARIABLE_START
}

/// Bounds every completed directive satisfies, and their disjoint source
/// order.
pub open spec fn directives_wf(s: Seq<u8>, cs: Seq<CompleteView>) -> bool {
    (forall|i: int| 0 <= i < cs.len() ==> complete_node_wf(s, #[trigger] cs[i])) && (forall|
        i: int,
        j: int,
    |
        0 <= i < j < cs.len() ==> #[trigger] cs[i].end < #[trigger] cs[j].begin)
}

} // verus!
