//! Reformatting of finished SQL text.

use crate::codegen::sqlast::format_pretty;
use crate::codegen::sqlast::pretty_printed;
use crate::error::QueryCompilerError;
use crate::text::replace_all;
use crate::text::replace_all_spec;
use vstd::prelude::*;
use vstd::string::StrSliceExecFns;
use vstd::string::StringSliceAdditionalSpecFns;
use vstd::utf8::valid_utf8;

verus! {

/// The host-level parameter marker `%s`, which the embedded SQL parser
/// cannot read.
pub open spec fn host_marker_bytes() -> Seq<u8> {
    seq![37u8, 115u8]
}

/// The placeholder `$fmtprm` that stands in for `%s` while SQL is parsed
/// and serialized.
pub open spec fn stand_in_bytes() -> Seq<u8> {
    seq![36u8, 102u8, 109u8, 116u8, 112u8, 114u8, 109u8]
}

/// `s` with every `%s` parameter marker replaced by the stand-in
/// placeholder.
pub open spec fn masked_markers(s: Seq<u8>) -> Seq<u8> {
    replace_all_spec(s, host_marker_bytes(), stand_in_bytes())
}

/// `s` with every stand-in placeholder turned back into `%s`.
pub open spec fn unmasked_markers(s: Seq<u8>) -> Seq<u8> {
    replace_all_spec(s, stand_in_bytes(), host_marker_bytes())
}

pub(crate) fn host_marker_vec() -> (v: Vec<u8>)
    ensures
        v@ == host_marker_bytes(),
{
    let mut v: Vec<u8> = Vec::new();
    v.push(37);
    v.push(115);
    proof {
        assert(v@ =~= host_marker_bytes());
    }
    v
}

pub(crate) fn stand_in_vec() -> (v: Vec<u8>)
    ensures
        v@ == stand_in_bytes(),
{
    let mut v: Vec<u8> = Vec::new();
    v.push(36);
    v.push(102);
    v.push(109);
    v.push(116);
    v.push(112);
    v.push(114);
    v.push(109);
    proof {
        assert(v@ =~= stand_in_bytes());
    }
    v
}

/// Replaces every `%s` parameter marker by the stand-in placeholder, so
/// that a host-parameterized query can pass through the embedded SQL
/// parser. Textual, so a `%s` inside a string literal is replaced too.
pub fn mask_parameter_markers(s: &[u8]) -> (r: Vec<u8>)
    ensures
        r@ == masked_markers(s@),
{
    let marker = host_marker_vec();
    let stand_in = stand_in_vec();
    replace_all(s, marker.as_slice(), stand_in.as_slice())
}

/// The marker and its stand-in are nonempty ASCII, hence valid UTF-8.
pub proof fn lemma_markers_utf8()
    ensures
        valid_utf8(host_marker_bytes()),
        valid_utf8(stand_in_bytes()),
        host_marker_bytes().len() > 0,
        stand_in_bytes().len() > 0,
{
    lemma_ascii_valid(host_marker_bytes());
    lemma_ascii_valid(stand_in_bytes());
}

/// A sequence of bytes below 128 is valid UTF-8.
proof fn lemma_ascii_valid(b: Seq<u8>)
    requires
        forall|i: int| 0 <= i < b.len() ==> b[i] < 128,
    ensures
        valid_utf8(b),
{
    assert(b.subrange(0, 0) =~= Seq::<u8>::empty());
    assert(vstd::utf8::partial_valid_utf8(b, 0));
    assert(forall|i: int|
        0 <= i < b.len() ==> #[trigger] vstd::utf8::is_leading_byte_width_1(b[i]));
    vstd::utf8::partial_valid_utf8_extend_ascii_block(b, 0, b.len() as int);
    assert(b.subrange(0, b.len() as int) =~= b);
}

/// Reformats (i.e. indents and normalizes) a given SQL string to make
/// it more human-readable.
///
/// This also ensures the query is valid SQL as far the embedded SQL parser
/// can tell. In case the passed SQL string is invalid, an according error
/// is returned.
pub fn format_query_prettily(query: &str) -> (r: Result<String, QueryCompilerError>)
    ensures
        match pretty_printed(query.spec_bytes()) {
            Some(p) => r matches Ok(s) && s@ == p,
            None => r matches Err(e) && (e matches QueryCompilerError::ResultingQueryInvalid(st, _)
                && st@ == query@),
        },
{
    let bytes = query.as_bytes_vec();
    match format_pretty(bytes.as_slice()) {
        Ok(s) => Ok(s),
        Err(m) => Err(QueryCompilerError::ResultingQueryInvalid(query.to_owned(), m)),
    }
}

} // verus!
