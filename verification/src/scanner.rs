//! Token recognition over the statement's bytes.

use crate::error::QueryCompilerError;
use crate::lex::keyword_bytes;
use crate::lex::keyword_vec;
use crate::text::bytes_eq;
use crate::text::find_byte;
use crate::text::find_from;
use vstd::prelude::*;

verus! {

/// Reflects choices which token has been seen recently.
pub enum TokenState {
    OpeningParenthese(usize),
    OpeningBrace(usize),
    ClosingBrace(usize),
    CombinedResultsKeyword(usize),
    Variable(usize),
}

impl TokenState {
    /// Recognizes a whole word equal to the `combined_result` keyword.
    pub fn from_keyword(keyword: &[u8], offset: usize) -> (r: Option<TokenState>)
        ensures
            keyword@ == keyword_bytes() ==> r == Some(TokenState::CombinedResultsKeyword(offset)),
            keyword@ != keyword_bytes() ==> r is None,
    {
        let kw = keyword_vec();
        if bytes_eq(keyword, kw.as_slice()) {
            Some(TokenState::CombinedResultsKeyword(offset))
        } else {
            None
        }
    }
}

/// Returns the position of a required character.
///
/// - `cursor` and `end` determine which byte range of `statement` should be
///   scanned.
/// - `character`: the byte whose position should be returned.
/// - `keyword`: names the construct whose delimiter is missing, for the error.
///
/// The returned offset is absolute to the entire statement, not just
/// the scanned slice.
pub fn get_mandatory_succeeding_character_position(
    cursor: usize,
    end: usize,
    statement: &[u8],
    character: u8,
    keyword: &'static str,
) -> (r: Result<usize, QueryCompilerError>)
    requires
        cursor <= end <= statement@.len(),
    ensures
        match find_from(statement@, cursor as int, end as int, character) {
            Some(i) => r matches Ok(p) && p == i,
            None => r matches Err(e) && (e matches QueryCompilerError::MissingCharacter(c, k) && c
                == character as char && k@ == keyword@),
        },
{
    match find_byte(statement, cursor, end, character) {
        Some(i) => Ok(i),
        None => Err(QueryCompilerError::MissingCharacter(character as char, keyword)),
    }
}

} // verus!
