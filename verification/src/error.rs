//! The compiler's error values.

use vstd::prelude::*;

verus! {

/// Every way a compile call can fail.
#[derive(Clone, Debug)]
pub enum QueryCompilerError {
    /// A required delimiter character was not found after a keyword.
    MissingCharacter(char, &'static str),
    /// A directive keyword was seen while another directive was still open.
    UnsupportedNesting(&'static str, &'static str),
    /// A directive that began at the given offset never became complete.
    DirectiveIncomplete(&'static str, usize),
    /// The inner query or the iteration query violates what the rewriter needs.
    InnerQueryInvalid(String),
    /// The statement produced by substitution does not parse as SQL.
    ResultingQueryInvalid(String, String),
}

/// The mathematical shape of an error: the tag and the data the tag carries,
/// with the constant keyword strings left out.
pub enum ErrView {
    MissingCharacter { ch: char },
    UnsupportedNesting,
    DirectiveIncomplete { begin: int },
    InnerQueryInvalid { msg: Seq<char> },
    ResultingQueryInvalid { statement: Seq<char>, msg: Seq<char> },
}

impl View for QueryCompilerError {
    type V = ErrView;

    open spec fn view(&self) -> ErrView {
        match self {
            QueryCompilerError::MissingCharacter(ch, _) => ErrView::MissingCharacter { ch: *ch },
            QueryCompilerError::UnsupportedNesting(_, _) => ErrView::UnsupportedNesting,
            QueryCompilerError::DirectiveIncomplete(_, begin) => ErrView::DirectiveIncomplete {
                begin: *begin as int,
            },
            QueryCompilerError::InnerQueryInvalid(msg) => ErrView::InnerQueryInvalid { msg: msg@ },
            QueryCompilerError::ResultingQueryInvalid(statement, msg) => ErrView::ResultingQueryInvalid {
                statement: statement@,
                msg: msg@,
            },
        }
    }
}

} // verus!
