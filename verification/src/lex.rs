//! Constants which are used while parsing.
//!
//! The scanner works on the statement's bytes, so each delimiter is a byte
//! and the keyword has a byte-sequence form beside its string form.

use vstd::prelude::*;

verus! {

pub const WORD_DELIMITER: u8 = 32;

pub const KEYWORD_COMBINED_RESULT: &'static str = "combined_result";

pub const PARENTHESE_START: u8 = 40;

pub const PARENTHESE_END: u8 = 41;

pub const BRACE_START: u8 = 123;

pub const BRACE_END: u8 = 125;

pub const VARIABLE_START: u8 = 36;

/// The bytes of `combined_result`, the one recognized keyword.
pub open spec fn keyword_bytes() -> Seq<u8> {
    seq![99u8, 111u8, 109u8, 98u8, 105u8, 110u8, 101u8, 100u8, 95u8, 114u8, 101u8, 115u8, 117u8,
        108u8, 116u8]
}

/// The keyword as an owned byte vector, for byte-wise comparison.
pub fn keyword_vec() -> (v: Vec<u8>)
    ensures
        v@ == keyword_bytes(),
{
    let mut v: Vec<u8> = Vec::new();
    v.push(99);
    v.push(111);
    v.push(109);
    v.push(98);
    v.push(105);
    v.push(110);
    v.push(101);
    v.push(100);
    v.push(95);
    v.push(114);
    v.push(101);
    v.push(115);
    v.push(117);
    v.push(108);
    v.push(116);
    proof {
        assert(v@ =~= keyword_bytes());
    }
    v
}

} // verus!
