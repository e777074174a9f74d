//! The parser's state automaton and its finalized form. The automaton is
//! proved to compute exactly the `run_from` machine of the model.

use crate::error::QueryCompilerError;
use crate::lex::BRACE_END;
use crate::lex::BRACE_START;
use crate::lex::KEYWORD_COMBINED_RESULT;
use crate::lex::PARENTHESE_END;
use crate::lex::PARENTHESE_START;
use crate::lex::VARIABLE_START;
use crate::lex::WORD_DELIMITER;
use crate::lex::keyword_bytes;
use crate::parser::model::CompleteView;
use crate::parser::model::NodeView;
use crate::parser::model::StView;
use crate::parser::model::TokView;
use crate::parser::model::attach_iteration_query_spec;
use crate::parser::model::attach_variable_spec;
use crate::parser::model::classify;
use crate::parser::model::complete_all;
use crate::parser::model::complete_of;
use crate::parser::model::cur_node_wf;
use crate::parser::model::directives_wf;
use crate::parser::model::done_wf;
use crate::parser::model::finalize_node_spec;
use crate::parser::model::finalize_result;
use crate::parser::model::init_st;
use crate::parser::model::keyword_transition;
use crate::parser::model::lemma_complete_all;
use crate::parser::model::lemma_complete_all_err;
use crate::parser::model::lemma_finalize_wf;
use crate::parser::model::lemma_st_wf_done;
use crate::parser::model::lemma_st_wf_monotone;
use crate::parser::model::lemma_word_end;
use crate::parser::model::new_node_view;
use crate::parser::model::node_complete;
use crate::parser::model::parse_result;
use crate::parser::model::run_from;
use crate::parser::model::st_wf;
use crate::parser::model::step_word;
use crate::parser::model::transition;
use crate::parser::model::word_end;
use crate::parser::nodes::CombinedResultNode;
use crate::parser::nodes::CompleteCombinedResultNode;
use crate::parser::types::NodesState;
use crate::scanner::TokenState;
use crate::scanner::get_mandatory_succeeding_character_position;
use crate::text::find_byte;
use crate::text::find_from;
use crate::text::lemma_find_from;
use crate::text::lemma_trim_keeps_head;
use crate::text::subrange_vec;
use crate::text::trim_vec;
use vstd::prelude::*;
use vstd::slice::slice_to_vec;
use vstd::string::StrSliceExecFns;
use vstd::string::StringSliceAdditionalSpecFns;
use vstd::utf8::encode_utf8;

verus! {

/// The view of an observed token.
pub open spec fn token_view(t: TokenState) -> TokView {
    match t {
        TokenState::OpeningParenthese(o) => TokView::Paren(o as int),
        TokenState::OpeningBrace(o) => TokView::Brace(o as int),
        TokenState::ClosingBrace(o) => TokView::CloseBrace(o as int),
        TokenState::CombinedResultsKeyword(o) => TokView::Keyword(o as int),
        TokenState::Variable(o) => TokView::Var(o as int),
    }
}

/// A token is faithful to the statement when it carries the offset of the
/// word being read and that word has the token's shape.
pub open spec fn tok_at(s: Seq<u8>, off: int, t: TokView) -> bool {
    match t {
        TokView::Keyword(o) => o == off && 0 <= off && word_end(s, off) == off + 15 && off + 15
            <= s.len(),
        TokView::Paren(o) => o == off && 0 <= off < s.len(),
        TokView::Var(o) => o == off && 0 <= off < s.len() && s[off] == VARIABLE_START,
        TokView::Brace(o) => o == off && 0 <= off < s.len(),
        TokView::CloseBrace(o) => o == off && 0 <= off < s.len(),
    }
}

/// How far to the right well-formedness is re-established after a token:
/// a keyword word spans sixteen bytes with its delimiter, any other token
/// word at least two.
pub open spec fn tok_bound(off: int, t: TokView) -> int {
    match t {
        TokView::Keyword(_) => off + 16,
        _ => off + 2,
    }
}

/// Reflects the current parser state.
///
/// This is the intermediate state automaton: it owns the statement's bytes,
/// the most recently seen token, the gathered directives, and the running
/// word offset.
///
/// For the codegen phase, it's not recommended to use this low-level
/// intermediate state automaton. See `ParserState::finalize()`.
pub struct ParserState {
    statement: Vec<u8>,
    seen_token_state: Option<TokenState>,
    combined_result_nodes_state: NodesState<CombinedResultNode>,
    offset: usize,
}

/// The final parser state. See `ParserState::finalize`.
pub struct FinalParserState {
    pub statement: Vec<u8>,
    pub combined_result_nodes: Vec<CompleteCombinedResultNode>,
}

impl ParserState {
    /// The statement's bytes.
    pub closed spec fn stmt(&self) -> Seq<u8> {
        self.statement@
    }

    /// The running word offset.
    pub closed spec fn spec_offset(&self) -> int {
        self.offset as int
    }

    /// The machine state gathered so far.
    pub closed spec fn st_view(&self) -> StView {
        StView {
            current: match self.combined_result_nodes_state.current_node {
                Some(n) => Some(n@),
                None => None,
            },
            done: self.combined_result_nodes_state.all_nodes@.map_values(
                |n: CombinedResultNode| n@,
            ),
        }
    }

    /// The parser's invariant between words.
    pub open spec fn inv(&self) -> bool {
        0 <= self.spec_offset() <= self.stmt().len() && st_wf(
            self.stmt(),
            self.spec_offset(),
            self.st_view(),
        )
    }

    /// The state a fresh parser starts in.
    pub open spec fn is_initial(&self) -> bool {
        self.spec_offset() == 0 && self.st_view() == init_st()
    }

    /// Builds a parser over a copy of the statement's bytes.
    pub fn initialize(statement: &String) -> (r: Self)
        ensures
            r.stmt() == encode_utf8(statement@),
            r.is_initial(),
            r.inv(),
    {
        let r = Self {
            statement: statement.as_str().as_bytes_vec(),
            seen_token_state: None,
            combined_result_nodes_state: NodesState::new(),
            offset: 0,
        };
        proof {
            assert(r.st_view().done =~= Seq::<NodeView>::empty());
            assert(r.st_view() == init_st());
        }
        r
    }

    /// Steps through the given statement, word by word, and internally
    /// updates the parser state accordingly (i.e. saves which parsed
    /// objects have been seen and which data they contain).
    pub fn parse(&mut self) -> (r: Result<(), QueryCompilerError>)
        requires
            old(self).inv(),
            old(self).is_initial(),
        ensures
            final(self).stmt() == old(self).stmt(),
            match parse_result(old(self).stmt()) {
                Ok(st) => r is Ok && final(self).st_view() == st && done_wf(old(self).stmt(), st),
                Err(e) => r matches Err(err) && err@ == e,
            },
    {
        let ghost s = self.statement@;
        loop
            invariant_except_break
                st_wf(s, self.spec_offset(), self.st_view()),
                run_from(s, self.spec_offset(), self.st_view()) == parse_result(s),
            invariant
                s == old(self).stmt(),
                self.stmt() == s,
                0 <= self.spec_offset() <= s.len(),
            ensures
                self.stmt() == s,
                parse_result(s) matches Ok(st) && st == self.st_view() && done_wf(s, st),
            decreases s.len() - self.spec_offset(),
        {
            let len = self.statement.len();
            let wend = match find_byte(self.statement.as_slice(), self.offset, len, WORD_DELIMITER) {
                Some(p) => p,
                None => len,
            };
            proof {
                lemma_word_end(s, self.spec_offset());
                assert(wend as int == word_end(s, self.spec_offset()));
            }
            let ghost pre = *self;
            match self.advance_word(wend) {
                Ok(()) => {},
                Err(e) => {
                    proof {
                        assert(step_word(s, pre.spec_offset(), wend as int, pre.st_view()) matches
                            Err(ev) && ev == e@);
                        assert(run_from(s, pre.spec_offset(), pre.st_view()) matches Err(ev) && ev
                            == e@);
                        assert(parse_result(s) matches Err(ev) && ev == e@);
                    }
                    return Err(e);
                },
            }
            if wend >= len {
                proof {
                    assert(run_from(s, pre.spec_offset(), pre.st_view()) matches Ok(st) && st
                        == self.st_view());
                    lemma_st_wf_done(s, wend + 1, self.st_view());
                }
                break ;
            }
            self.advance_offset(wend);
        }
        Ok(())
    }

    /// Moves the word offset past the word that ended at `wend` and its
    /// delimiter.
    fn advance_offset(&mut self, wend: usize)
        requires
            old(self).spec_offset() <= wend < old(self).stmt().len(),
        ensures
            final(self).statement == old(self).statement,
            final(self).combined_result_nodes_state == old(self).combined_result_nodes_state,
            final(self).spec_offset() == wend + 1,
            final(self).st_view() == old(self).st_view(),
    {
        let len = self.statement.len();
        assert(wend < len);
        self.offset = wend + 1;
    }

    /// Transforms the intermediate state automaton into a `FinalParserState`.
    ///
    /// It's recommended to use this transformation because:
    /// - In contrast to the low-level state automaton it only makes use of
    ///   optionals where parsed objects' data model explicitly requires it.
    /// - It checks whether the parsed objects are as complete as the codegen
    ///   phase requires (i.e. whether the parsed SQL code was incomplete or
    ///   otherwise truncated).
    pub fn finalize(&self) -> (r: Result<FinalParserState, QueryCompilerError>)
        requires
            done_wf(self.stmt(), self.st_view()),
        ensures
            match finalize_result(self.st_view()) {
                Ok(cs) => r matches Ok(f) && f.statement@ == self.stmt()
                    && f.combined_result_nodes@.map_values(
                    |n: CompleteCombinedResultNode| n@,
                ) == cs && directives_wf(f.statement@, cs),
                Err(e) => r matches Err(err) && err@ == e,
            },
    {
        let nodes = self.get_complete_nodes()?;
        proof {
            lemma_finalize_wf(self.stmt(), self.st_view());
        }
        Ok(
            FinalParserState {
                statement: slice_to_vec(self.statement.as_slice()),
                combined_result_nodes: nodes,
            },
        )
    }

    /// Converts every gathered directive into its complete form, in order,
    /// returning the first incompleteness error instead if one arises.
    fn get_complete_nodes(&self) -> (r: Result<Vec<CompleteCombinedResultNode>, QueryCompilerError>)
        ensures
            match finalize_result(self.st_view()) {
                Ok(cs) => r matches Ok(v) && v@.map_values(|n: CompleteCombinedResultNode| n@)
                    == cs,
                Err(e) => r matches Err(err) && err@ == e,
            },
    {
        let ghost done = self.st_view().done;
        let all = &self.combined_result_nodes_state.all_nodes;
        let mut out: Vec<CompleteCombinedResultNode> = Vec::new();
        let n = all.len();
        let mut i: usize = 0;
        #[verifier::loop_isolation(false)]
        while i < n
            invariant
                i <= n,
                out@.len() == i,
                forall|j: int| 0 <= j < i ==> node_complete(#[trigger] done[j]),
                forall|j: int| 0 <= j < i ==> (#[trigger] out@[j])@ == complete_of(done[j]),
            decreases n - i,
        {
            proof {
                assert(all@[i as int]@ == done[i as int]);
            }
            let node = duplicate_node(&all[i]);
            let c = match CompleteCombinedResultNode::try_from(node) {
                Ok(c) => c,
                Err(e) => {
                    proof {
                        lemma_complete_all_err(done, i as int);
                    }
                    return Err(e);
                },
            };
            proof {
                assert(node_complete(done[i as int]));
                assert(c@ == complete_of(done[i as int]));
            }
            out.push(c);
            i = i + 1;
        }
        proof {
            lemma_complete_all(done);
            match complete_all(done) {
                Ok(cs) => {
                    assert(out@.map_values(|x: CompleteCombinedResultNode| x@) =~= cs);
                },
                Err(_) => {},
            }
        }
        match &self.combined_result_nodes_state.current_node {
            Some(node) => Err(
                QueryCompilerError::DirectiveIncomplete(
                    KEYWORD_COMBINED_RESULT,
                    node.begin_position,
                ),
            ),
            None => Ok(out),
        }
    }

    /// Reads one word and applies the transition its token calls for.
    fn advance_word(&mut self, wend: usize) -> (r: Result<(), QueryCompilerError>)
        requires
            old(self).inv(),
            wend as int == word_end(old(self).stmt(), old(self).spec_offset()),
        ensures
            final(self).stmt() == old(self).stmt(),
            final(self).spec_offset() == old(self).spec_offset(),
            match step_word(
                old(self).stmt(),
                old(self).spec_offset(),
                wend as int,
                old(self).st_view(),
            ) {
                Ok(st2) => r is Ok && final(self).st_view() == st2 && st_wf(
                    old(self).stmt(),
                    wend + 1,
                    st2,
                ),
                Err(e) => r matches Err(err) && err@ == e,
            },
    {
        let ghost s = self.statement@;
        let ghost off = self.spec_offset();
        proof {
            lemma_word_end(s, off);
        }
        let w = subrange_vec(self.statement.as_slice(), self.offset, wend);
        if let Some(current) = TokenState::from_keyword(w.as_slice(), self.offset) {
            proof {
                assert(w@.len() == 15);
                assert(classify(s, off, wend as int) == Some(token_view(current)));
            }
            self.handle_transition(&current)?;
            self.seen_token_state = Some(current);
            return Ok(());
        }
        if w.len() > 0 {
            let initiator = w[0];
            proof {
                assert(initiator == s[off]);
            }
            let state_candidate = self.get_scanner_state_by_char_token(initiator);
            if let Some(state) = state_candidate {
                proof {
                    assert(classify(s, off, wend as int) == Some(token_view(state)));
                }
                self.handle_transition(&state)?;
                self.seen_token_state = Some(state);
            } else {
                proof {
                    assert(classify(s, off, wend as int) is None);
                }
            }
            return Ok(());
        }
        proof {
            assert(classify(s, off, wend as int) is None);
        }
        Ok(())
    }

    /// The token an initiator character yields, carrying the running offset.
    fn get_scanner_state_by_char_token(&self, token: u8) -> (r: Option<TokenState>)
        ensures
            r == (if token == BRACE_START {
                Some(TokenState::OpeningBrace(self.offset_val()))
            } else if token == BRACE_END {
                Some(TokenState::ClosingBrace(self.offset_val()))
            } else if token == PARENTHESE_START {
                Some(TokenState::OpeningParenthese(self.offset_val()))
            } else if token == VARIABLE_START {
                Some(TokenState::Variable(self.offset_val()))
            } else {
                None::<TokenState>
            }),
    {
        if token == BRACE_START {
            Some(TokenState::OpeningBrace(self.offset))
        } else if token == BRACE_END {
            Some(TokenState::ClosingBrace(self.offset))
        } else if token == PARENTHESE_START {
            Some(TokenState::OpeningParenthese(self.offset))
        } else if token == VARIABLE_START {
            Some(TokenState::Variable(self.offset))
        } else {
            None
        }
    }

    /// The running offset, as the exec value.
    pub closed spec fn offset_val(&self) -> usize {
        self.offset
    }

    /// Applies one observed token to the gathered state.
    fn handle_transition(&mut self, current_token_state: &TokenState) -> (r: Result<
        (),
        QueryCompilerError,
    >)
        requires
            old(self).inv(),
            tok_at(old(self).stmt(), old(self).spec_offset(), token_view(*current_token_state)),
        ensures
            final(self).stmt() == old(self).stmt(),
            final(self).spec_offset() == old(self).spec_offset(),
            match transition(
                old(self).stmt(),
                token_view(*current_token_state),
                old(self).st_view(),
            ) {
                Ok(st2) => r is Ok && final(self).st_view() == st2 && st_wf(
                    old(self).stmt(),
                    tok_bound(old(self).spec_offset(), token_view(*current_token_state)),
                    st2,
                ),
                Err(e) => r matches Err(err) && err@ == e,
            },
    {
        let len = self.statement.len();
        let handles_combined_result_node =
            self.combined_result_nodes_state.current_node.is_some();
        match current_token_state {
            TokenState::CombinedResultsKeyword(offset) => {
                self.handle_combined_results_keyword(*offset)
            },
            TokenState::OpeningParenthese(offset) => {
                if handles_combined_result_node {
                    self.attach_iteration_query(*offset + 1)
                } else {
                    Ok(())
                }
            },
            TokenState::Variable(offset) => {
                if handles_combined_result_node {
                    self.attach_variable(*offset)
                } else {
                    Ok(())
                }
            },
            TokenState::OpeningBrace(offset) => {
                if handles_combined_result_node {
                    self.mark_inner_query_begin(*offset)
                } else {
                    Ok(())
                }
            },
            TokenState::ClosingBrace(offset) => {
                if handles_combined_result_node {
                    self.finalize_combined_result_node(*offset);
                }
                Ok(())
            },
        }
    }

    /// Opens a new directive at the keyword's offset, or fails on nesting.
    fn handle_combined_results_keyword(&mut self, offset: usize) -> (r: Result<
        (),
        QueryCompilerError,
    >)
        requires
            old(self).inv(),
            offset as int == old(self).spec_offset(),
        ensures
            final(self).stmt() == old(self).stmt(),
            final(self).spec_offset() == old(self).spec_offset(),
            match keyword_transition(offset as int, old(self).st_view()) {
                Ok(st2) => r is Ok && final(self).st_view() == st2 && st_wf(
                    old(self).stmt(),
                    offset + 16,
                    st2,
                ),
                Err(e) => r matches Err(err) && err@ == e && *final(self) == *old(self),
            },
    {
        if self.combined_result_nodes_state.current_node.is_some() {
            let err = QueryCompilerError::UnsupportedNesting(
                KEYWORD_COMBINED_RESULT,
                KEYWORD_COMBINED_RESULT,
            );
            return Err(err);
        }
        self.combined_result_nodes_state.current_node = Some(CombinedResultNode::new(offset));
        proof {
            lemma_st_wf_monotone(
                self.stmt(),
                self.spec_offset(),
                offset + 16,
                old(self).st_view(),
            );
        }
        Ok(())
    }

    /// Captures the iteration query: the text from `cursor` to the first
    /// `)` that stands before the first `{`.
    fn attach_iteration_query(&mut self, cursor: usize) -> (r: Result<(), QueryCompilerError>)
        requires
            old(self).inv(),
            old(self).st_view().current is Some,
            cursor as int == old(self).spec_offset() + 1,
            old(self).spec_offset() < old(self).stmt().len(),
        ensures
            final(self).stmt() == old(self).stmt(),
            final(self).spec_offset() == old(self).spec_offset(),
            match attach_iteration_query_spec(
                old(self).stmt(),
                cursor as int,
                old(self).st_view().current->Some_0,
                old(self).st_view().done,
            ) {
                Ok(st2) => r is Ok && final(self).st_view() == st2 && st_wf(
                    old(self).stmt(),
                    old(self).spec_offset() + 2,
                    st2,
                ),
                Err(e) => r matches Err(err) && err@ == e,
            },
    {
        let ghost s = self.statement@;
        if self.combined_result_nodes_state.current_node.is_some() {
            let brace_start_pos = get_mandatory_succeeding_character_position(
                cursor,
                self.statement.len(),
                self.statement.as_slice(),
                BRACE_START,
                KEYWORD_COMBINED_RESULT,
            )?;
            proof {
                lemma_find_from(s, cursor as int, s.len() as int, BRACE_START);
            }
            let closing_brace_pos = get_mandatory_succeeding_character_position(
                cursor,
                brace_start_pos,
                self.statement.as_slice(),
                PARENTHESE_END,
                KEYWORD_COMBINED_RESULT,
            )?;
            proof {
                lemma_find_from(s, cursor as int, brace_start_pos as int, PARENTHESE_END);
            }
            let fragment = subrange_vec(self.statement.as_slice(), cursor, closing_brace_pos);
            if let Some(mut node) = self.combined_result_nodes_state.current_node.take() {
                node.iteration_query = Some(fragment);
                self.combined_result_nodes_state.current_node = Some(node);
            }
            proof {
                lemma_st_wf_monotone(
                    s,
                    self.spec_offset(),
                    self.spec_offset() + 2,
                    self.st_view(),
                );
            }
        }
        Ok(())
    }

    /// Captures the iteration variable: the whole word at the token's
    /// offset, trimmed.
    fn attach_variable(&mut self, cursor: usize) -> (r: Result<(), QueryCompilerError>)
        requires
            old(self).inv(),
            old(self).st_view().current is Some,
            cursor as int == old(self).spec_offset(),
            old(self).spec_offset() < old(self).stmt().len(),
            old(self).stmt()[old(self).spec_offset()] == VARIABLE_START,
        ensures
            final(self).stmt() == old(self).stmt(),
            final(self).spec_offset() == old(self).spec_offset(),
            r is Ok,
            final(self).st_view() == attach_variable_spec(
                old(self).stmt(),
                cursor as int,
                old(self).st_view().current->Some_0,
                old(self).st_view().done,
            ),
            st_wf(old(self).stmt(), old(self).spec_offset() + 2, final(self).st_view()),
    {
        let ghost s = self.statement@;
        let len = self.statement.len();
        let word_close = match find_byte(self.statement.as_slice(), cursor, len, WORD_DELIMITER) {
            Some(p) => p,
            None => len,
        };
        proof {
            lemma_word_end(s, cursor as int);
            assert(word_close as int == word_end(s, cursor as int));
        }
        let word = subrange_vec(self.statement.as_slice(), cursor, word_close);
        proof {
            assert(word@.len() > 0) by {
                if word_close == cursor {
                    assert(s[cursor as int] == WORD_DELIMITER);
                }
            }
            assert(word@[0] == s[cursor as int]);
            lemma_trim_keeps_head(word@);
        }
        let found_variable = trim_vec(word.as_slice());
        if let Some(mut node) = self.combined_result_nodes_state.current_node.take() {
            node.iteration_item_variable = Some(found_variable);
            self.combined_result_nodes_state.current_node = Some(node);
        }
        proof {
            lemma_st_wf_monotone(s, self.spec_offset(), self.spec_offset() + 2, self.st_view());
        }
        Ok(())
    }

    /// Records where the inner query's opening brace stands.
    fn mark_inner_query_begin(&mut self, cursor: usize) -> (r: Result<(), QueryCompilerError>)
        requires
            old(self).inv(),
            old(self).st_view().current is Some,
            cursor as int == old(self).spec_offset(),
            old(self).spec_offset() < old(self).stmt().len(),
        ensures
            final(self).stmt() == old(self).stmt(),
            final(self).spec_offset() == old(self).spec_offset(),
            r is Ok,
            final(self).st_view() == (StView {
                current: Some(
                    NodeView {
                        inner_query_begin: Some(cursor as int),
                        ..old(self).st_view().current->Some_0
                    },
                ),
                done: old(self).st_view().done,
            }),
            st_wf(old(self).stmt(), old(self).spec_offset() + 2, final(self).st_view()),
    {
        if let Some(mut node) = self.combined_result_nodes_state.current_node.take() {
            node.inner_query_begin = Some(cursor);
            self.combined_result_nodes_state.current_node = Some(node);
        }
        Ok(())
    }

    /// Completes the open directive at the closing brace and stores it.
    fn finalize_combined_result_node(&mut self, offset: usize)
        requires
            old(self).inv(),
            old(self).st_view().current is Some,
            offset as int == old(self).spec_offset(),
            old(self).spec_offset() < old(self).stmt().len(),
        ensures
            final(self).stmt() == old(self).stmt(),
            final(self).spec_offset() == old(self).spec_offset(),
            final(self).st_view() == finalize_node_spec(
                old(self).stmt(),
                offset as int,
                old(self).st_view().current->Some_0,
                old(self).st_view().done,
            ),
            st_wf(old(self).stmt(), old(self).spec_offset() + 2, final(self).st_view()),
    {
        let ghost s = self.statement@;
        let ghost old_done = self.st_view().done;
        if let Some(mut node) = self.combined_result_nodes_state.current_node.take() {
            if let Some(begin) = node.inner_query_begin {
                let slice_start = begin + 1;
                let slice_end = offset - 1;
                let fragment = subrange_vec(self.statement.as_slice(), slice_start, slice_end);
                node.inner_query = Some(trim_vec(fragment.as_slice()));
            }
            node.end_position = Some(offset);
            self.combined_result_nodes_state.all_nodes.push(node);
        }
        proof {
            assert(self.st_view().done =~= old_done.push(
                finalize_node_spec(s, offset as int, old(self).st_view().current->Some_0, old_done)
                    .done.last(),
            ));
            assert(self.st_view().done =~= finalize_node_spec(
                s,
                offset as int,
                old(self).st_view().current->Some_0,
                old_done,
            ).done);
        }
    }
}

/// A field-for-field copy of an in-progress directive.
fn duplicate_node(n: &CombinedResultNode) -> (r: CombinedResultNode)
    ensures
        r@ == n@,
{
    CombinedResultNode {
        begin_position: n.begin_position,
        end_position: n.end_position,
        iteration_query: match &n.iteration_query {
            Some(v) => Some(slice_to_vec(v.as_slice())),
            None => None,
        },
        iteration_item_variable: match &n.iteration_item_variable {
            Some(v) => Some(slice_to_vec(v.as_slice())),
            None => None,
        },
        inner_query_begin: n.inner_query_begin,
        inner_query: match &n.inner_query {
            Some(v) => Some(slice_to_vec(v.as_slice())),
            None => None,
        },
    }
}

} // verus!
