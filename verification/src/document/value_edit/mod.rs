//! Planning graph value edits as text edits of a document's source, and the
//! per-language rules for writing keys and values.
use vstd::prelude::*;
use crate::text::{chars_of, flat_map_chars, lemma_flat_map_chars_step, push_char, push_str};
use super::protocol::{
    DocumentTextEdit, GraphPathSeg, GraphValueEditFallbackReason, GraphValueEditPlan, GraphValueEditPlanMode,
};

pub mod csv;
pub mod edit_value;
pub mod json;
pub mod python;
pub mod scalar;
pub mod toml;
pub mod yaml;

verus! {

/// A byte range of a document's source, with its position.
#[derive(Debug, Clone, Copy, PartialEq, Eq, Default)]
pub struct PathSpan {
    pub start_byte: i32,
    pub end_byte: i32,
    pub row: i32,
    pub column: i32,
}

#[derive(Debug, Clone, Copy, PartialEq, Eq)]
pub enum PathSegTag {
    Key,
    Index,
}

/// One step of a path into a document: a key or an index.
#[derive(Debug, Clone, Copy, PartialEq, Eq)]
pub struct PathSeg<'a> {
    pub tag: PathSegTag,
    pub key: &'a str,
    pub index: i32,
}

/// A plan that replaces the whole value, for `reason`.
pub fn graph_value_edit_fallback(reason: GraphValueEditFallbackReason) -> (r: GraphValueEditPlan)
    ensures
        r.mode == GraphValueEditPlanMode::Replace,
        r.edits@.len() == 0,
        r.reason == Some(reason),
{
    GraphValueEditPlan { mode: GraphValueEditPlanMode::Replace, edits: Vec::new(), reason: Some(reason) }
}

/// A plan made of the given text edits.
pub fn graph_value_edit_edits(edits: Vec<DocumentTextEdit>) -> (r: GraphValueEditPlan)
    ensures
        r.mode == GraphValueEditPlanMode::Edits,
        r.edits == edits,
        r.reason is None,
{
    GraphValueEditPlan { mode: GraphValueEditPlanMode::Edits, edits, reason: None }
}

/// The path step that a graph path segment names: an index for tag one, a
/// key otherwise.
pub open spec fn is_step_of(step: PathSeg, seg: GraphPathSeg) -> bool {
    if seg.tag == 1 {
        step.tag == PathSegTag::Index && step.index == seg.index && step.key@.len() == 0
    } else {
        step.tag == PathSegTag::Key && step.key@ == seg.key@ && step.index == 0
    }
}

/// The path steps of a request's graph path.
pub fn request_path_segments(path: &[GraphPathSeg]) -> (r: Vec<PathSeg<'_>>)
    ensures
        r@.len() == path@.len(),
        forall|i: int| 0 <= i < path@.len() ==> is_step_of(#[trigger] r@[i], path@[i]),
{
    let mut out: Vec<PathSeg<'_>> = Vec::new();
    let mut i: usize = 0;
    while i < path.len()
        invariant
            i <= path@.len(),
            out@.len() == i,
            forall|j: int| 0 <= j < i ==> is_step_of(#[trigger] out@[j], path@[j]),
        decreases path@.len() - i,
    {
        let segment = &path[i];
        if segment.tag == 1 {
            out.push(PathSeg { tag: PathSegTag::Index, key: "", index: segment.index });
            proof {
                reveal_strlit("");
            }
        } else {
            out.push(PathSeg { tag: PathSegTag::Key, key: segment.key.as_str(), index: 0 });
        }
        i = i + 1;
    }
    out
}

/// The byte length of a replacement, taken modulo 2^32.
pub open spec fn replacement_len(replacement: String) -> u32 {
    text_len(replacement@)
}

/// The UTF-8 byte length of a text, taken modulo 2^32.
pub open spec fn text_len(text: Seq<char>) -> u32 {
    #[verifier::truncate] ((vstd::utf8::encode_utf8(text).len() as usize) as u32)
}

/// The edit that replaces the span's bytes with `replacement`; none for a
/// span that is negative or reversed, or an end past `u32::MAX`. The
/// replacement's length is taken modulo 2^32.
pub fn span_to_edit(span: PathSpan, replacement: String) -> (r: Option<DocumentTextEdit>)
    ensures
        if span.start_byte < 0 || span.end_byte < span.start_byte || span.start_byte + replacement_len(replacement) > u32::MAX {
            r is None
        } else {
            r matches Some(edit) && edit.start_byte == span.start_byte && edit.old_end_byte == span.end_byte
                && edit.new_end_byte == span.start_byte + replacement_len(replacement) && edit.replacement == replacement
        },
{
    if span.start_byte < 0 || span.end_byte < span.start_byte {
        return None;
    }
    let start_byte = span.start_byte as u32;
    let old_end_byte = span.end_byte as u32;
    let len: u32 = #[verifier::truncate] (replacement.as_str().len() as u32);
    let new_end_byte = match start_byte.checked_add(len) {
        Some(end) => end,
        None => {
            return None;
        },
    };
    Some(DocumentTextEdit { start_byte, old_end_byte, new_end_byte, replacement })
}

#[verifier::external_type_specification]
#[verifier::external_body]
pub struct ExJsonError(serde_json::Error);

/// The lower-case hexadecimal digit of `d`, which is below sixteen.
pub open spec fn lower_hex_digit(d: int) -> char {
    seq!['0', '1', '2', '3', '4', '5', '6', '7', '8', '9', 'a', 'b', 'c', 'd', 'e', 'f'][d]
}

/// How a character is written inside a JSON string literal: quote and
/// backslash escaped, the named control characters as `\b \t \n \f \r`,
/// other control characters below 0x20 as `\u00xx`, everything else as
/// itself.
pub open spec fn json_escape_char(c: char) -> Seq<char> {
    if c == '"' {
        seq!['\\', '"']
    } else if c == '\\' {
        seq!['\\', '\\']
    } else if c == '\u{8}' {
        seq!['\\', 'b']
    } else if c == '\t' {
        seq!['\\', 't']
    } else if c == '\n' {
        seq!['\\', 'n']
    } else if c == '\u{c}' {
        seq!['\\', 'f']
    } else if c == '\r' {
        seq!['\\', 'r']
    } else if (c as int) < 0x20 {
        seq!['\\', 'u', '0', '0', lower_hex_digit((c as int) / 16), lower_hex_digit((c as int) % 16)]
    } else {
        seq![c]
    }
}

/// The JSON string literal of `s`.
pub open spec fn json_quoted(s: Seq<char>) -> Seq<char> {
    seq!['"'] + flat_map_chars(s, |c: char| json_escape_char(c)) + seq!['"']
}

/// `serde_json::to_string` on a string slice: serializing a `str` into the
/// crate's in-memory buffer cannot fail, and gives the JSON string literal
/// with the crate's escape table (quote, backslash, the five named control
/// escapes, `\u00xx` with lower-case hex for the other bytes below 0x20).
#[verifier::external_body]
fn json_string_literal(value: &str) -> (r: Result<String, serde_json::Error>)
    ensures
        r is Ok,
        r->Ok_0@ == json_quoted(value@),
{
    serde_json::to_string(value)
}

/// The JSON string literal of `value`.
pub fn quote_json_string(value: &str) -> (r: String)
    ensures
        r@ == json_quoted(value@),
{
    match json_string_literal(value) {
        Ok(s) => s,
        Err(_) => "\"\"".to_owned(),
    }
}

} // verus!