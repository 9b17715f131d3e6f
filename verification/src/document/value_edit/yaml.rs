//! YAML rules for writing keys and values and for finding a value's text.
use vstd::prelude::*;
use vstd::utf8::is_char_boundary;
use vstd::string::StringSliceAdditionalSpecFns;
use crate::text::{chars_of, flat_map_chars, lemma_flat_map_chars_step, push_char};
use super::PathSpan;
use super::json::{json_model, json_text, JsonModel, JsonValue};

verus! {

/// How a character is written inside a single-quoted YAML scalar.
pub open spec fn yaml_escape_char(c: char) -> Seq<char> {
    if c == '\'' {
        seq!['\'', '\'']
    } else {
        seq![c]
    }
}

/// The single-quoted YAML scalar of `s`.
pub open spec fn yaml_quoted(s: Seq<char>) -> Seq<char> {
    seq!['\''] + flat_map_chars(s, |c: char| yaml_escape_char(c)) + seq!['\'']
}

/// The single-quoted YAML scalar of `value`.
pub fn quote_yaml_single(value: &str) -> (r: String)
    ensures
        r@ == yaml_quoted(value@),
{
    let chars = chars_of(value);
    let mut out = String::new();
    push_char(&mut out, '\'');
    let mut i: usize = 0;
    while i < chars.len()
        invariant
            chars@ == value@,
            i <= chars@.len(),
            out@ == seq!['\''] + flat_map_chars(chars@.take(i as int), |c: char| yaml_escape_char(c)),
        decreases chars@.len() - i,
    {
        let c = chars[i];
        proof {
            lemma_flat_map_chars_step(chars@, |c: char| yaml_escape_char(c), i as int);
        }
        if c == '\'' {
            push_char(&mut out, '\'');
        }
        push_char(&mut out, c);
        i = i + 1;
        proof {
            assert(out@ =~= seq!['\''] + flat_map_chars(chars@.take(i as int), |c: char| yaml_escape_char(c)));
        }
    }
    push_char(&mut out, '\'');
    proof {
        assert(chars@.take(chars@.len() as int) =~= chars@);
    }
    out
}

/// ASCII whitespace: space, tab, line feed, form feed, carriage return.
pub open spec fn is_ascii_ws(b: u8) -> bool {
    b == 0x20 || b == 0x09 || b == 0x0a || b == 0x0c || b == 0x0d
}

/// The first position at or after `i` and before `end` that is not ASCII
/// whitespace, or `end`.
pub open spec fn skip_ws(b: Seq<u8>, i: int, end: int) -> int
    decreases end - i,
{
    if i >= end || !is_ascii_ws(b[i]) {
        i
    } else {
        skip_ws(b, i + 1, end)
    }
}

/// The first position at or after `i` and before `end` that is ASCII
/// whitespace, or `end`.
pub open spec fn skip_non_ws(b: Seq<u8>, i: int, end: int) -> int
    decreases end - i,
{
    if i >= end || is_ascii_ws(b[i]) {
        i
    } else {
        skip_non_ws(b, i + 1, end)
    }
}

/// Where a YAML value's own text starts at or after `i`: past whitespace,
/// anchors (`&`) and tags (`!`); none at the end or at an alias (`*`).
pub open spec fn yaml_value_start(b: Seq<u8>, i: int, end: int) -> Option<int>
    decreases end - i,
{
    let j = skip_ws(b, i, end);
    if j >= end || i >= end {
        None
    } else if b[j] == 0x2a {
        None
    } else if b[j] == 0x26 || b[j] == 0x21 {
        proof {
            lemma_skip_ws_bounds(b, i, end);
            lemma_skip_non_ws_bounds(b, j + 1, end);
        }
        yaml_value_start(b, skip_non_ws(b, j + 1, end), end)
    } else {
        Some(j)
    }
}

pub proof fn lemma_skip_ws_bounds(b: Seq<u8>, i: int, end: int)
    requires
        i <= end,
    ensures
        i <= skip_ws(b, i, end) <= end,
    decreases end - i,
{
    if i < end && is_ascii_ws(b[i]) {
        lemma_skip_ws_bounds(b, i + 1, end);
    }
}

pub proof fn lemma_skip_non_ws_bounds(b: Seq<u8>, i: int, end: int)
    requires
        i <= end,
    ensures
        i <= skip_non_ws(b, i, end) <= end,
    decreases end - i,
{
    if i < end && !is_ascii_ws(b[i]) {
        lemma_skip_non_ws_bounds(b, i + 1, end);
    }
}

/// Where the value of a span starts in `b`: past a sequence entry's dash,
/// whitespace, anchors and tags.
pub open spec fn yaml_span_value_start(b: Seq<u8>, start: int, end: int) -> Option<int> {
    let cursor = if end - start >= 2 && b[start] == 0x2d && (b[start + 1] == 0x20 || b[start + 1] == 0x09) {
        skip_ws(b, start + 1, end)
    } else {
        start
    };
    yaml_value_start(b, cursor, end)
}

/// The span is a readable byte range of the source.
pub open spec fn yaml_span_in_source(source: &str, span: PathSpan) -> bool {
    0 <= span.start_byte < span.end_byte <= source.spec_bytes().len()
}

/// A span inside the source starts and ends between characters.
pub open spec fn yaml_span_on_boundaries(source: &str, span: PathSpan) -> bool {
    yaml_span_in_source(source, span) ==> is_char_boundary(source.spec_bytes(), span.start_byte as int)
        && is_char_boundary(source.spec_bytes(), span.end_byte as int)
}

/// A value's span narrowed to where its own text starts; none for a span
/// outside the source, an empty one, or one that holds no value text.
pub open spec fn yaml_refined(source: &str, span: PathSpan) -> Option<PathSpan> {
    if !yaml_span_in_source(source, span) {
        None
    } else {
        match yaml_span_value_start(source.spec_bytes(), span.start_byte as int, span.end_byte as int) {
            None => None,
            Some(j) => Some(PathSpan { start_byte: j as i32, ..span }),
        }
    }
}

fn is_ascii_whitespace_byte(b: u8) -> (r: bool)
    ensures
        r == is_ascii_ws(b),
{
    b == 0x20 || b == 0x09 || b == 0x0a || b == 0x0c || b == 0x0d
}

/// Narrows a value's span to where its own text starts: past a sequence
/// entry's dash, whitespace, anchors and tags. None for a span outside the
/// source, an empty one, or an alias.
pub fn refine_yaml_value_span(source: &str, span: PathSpan) -> (r: Option<PathSpan>)
    requires
        yaml_span_on_boundaries(source, span),
    ensures
        r == yaml_refined(source, span),
{
    if span.start_byte < 0 || span.end_byte < 0 {
        return None;
    }
    let start = span.start_byte as usize;
    let end = span.end_byte as usize;
    let bytes = source.as_bytes();
    if end > bytes.len() || start >= end {
        return None;
    }
    let ghost b = bytes@;
    let mut cursor = start;
    if end - start >= 2 && bytes[start] == 0x2d && (bytes[start + 1] == 0x20 || bytes[start + 1] == 0x09) {
        cursor = start + 1;
        while cursor < end && is_ascii_whitespace_byte(bytes[cursor])
            invariant
                b == bytes@,
                end <= b.len(),
                start + 1 <= cursor <= end,
                skip_ws(b, cursor as int, end as int) == skip_ws(b, start + 1, end as int),
            decreases end - cursor,
        {
            cursor = cursor + 1;
        }
        assert(cursor as int == skip_ws(b, start + 1, end as int));
    }
    loop
        invariant
            b == bytes@,
            b == source.spec_bytes(),
            start as int == span.start_byte as int,
            end as int == span.end_byte as int,
            end <= b.len(),
            start <= cursor <= end,
            end <= i32::MAX,
            yaml_value_start(b, cursor as int, end as int) == yaml_span_value_start(b, start as int, end as int),
        ensures
            start <= cursor < end,
            yaml_span_value_start(b, start as int, end as int) == Some(cursor as int),
        decreases end - cursor,
    {
        let ghost at = cursor as int;
        while cursor < end && is_ascii_whitespace_byte(bytes[cursor])
            invariant
                b == bytes@,
                end <= b.len(),
                at <= cursor <= end,
                skip_ws(b, cursor as int, end as int) == skip_ws(b, at, end as int),
            decreases end - cursor,
        {
            cursor = cursor + 1;
        }
        assert(cursor as int == skip_ws(b, at, end as int));
        if cursor >= end {
            return None;
        }
        if bytes[cursor] == 0x2a {
            return None;
        }
        if bytes[cursor] == 0x26 || bytes[cursor] == 0x21 {
            let ghost tag = cursor as int;
            cursor = cursor + 1;
            while cursor < end && !is_ascii_whitespace_byte(bytes[cursor])
                invariant
                    b == bytes@,
                    end <= b.len(),
                    tag + 1 <= cursor <= end,
                    skip_non_ws(b, cursor as int, end as int) == skip_non_ws(b, tag + 1, end as int),
                decreases end - cursor,
            {
                cursor = cursor + 1;
            }
            assert(cursor as int == skip_non_ws(b, tag + 1, end as int));
            continue;
        }
        assert(skip_ws(b, cursor as int, end as int) == cursor as int);
        assert(yaml_value_start(b, cursor as int, end as int) == Some(cursor as int));
        break;
    }
    Some(PathSpan { start_byte: cursor as i32, end_byte: span.end_byte, row: span.row, column: span.column })
}


/// A value written as YAML: `null`, `true`, `false`, numbers as they are,
/// strings single-quoted, lists and maps as compact JSON.
pub open spec fn yaml_value_text(v: JsonModel) -> Seq<char> {
    match v {
        JsonModel::Null => "null"@,
        JsonModel::Bool(b) => if b {
            "true"@
        } else {
            "false"@
        },
        JsonModel::Number(t) => t,
        JsonModel::String(s) => yaml_quoted(s),
        _ => json_text(v),
    }
}

/// A value written as YAML.
pub fn format_yaml_value(value: &JsonValue) -> (r: String)
    ensures
        r@ == yaml_value_text(json_model(*value)),
{
    match value {
        JsonValue::Null => "null".to_owned(),
        JsonValue::Bool(b) => if *b {
            "true".to_owned()
        } else {
            "false".to_owned()
        },
        JsonValue::Number(t) => t.clone(),
        JsonValue::String(s) => quote_yaml_single(s.as_str()),
        _ => value.to_string(),
    }
}

} // verus!
