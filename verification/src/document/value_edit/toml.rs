//! TOML rules: finding the assignment line of a key path in the source,
//! normalizing keys, and writing keys.
use vstd::prelude::*;
use vstd::string::StringSliceAdditionalSpecFns;
use crate::document::protocol::{DocumentTextEdit, GraphPathSeg};
use crate::document::keyed::{str_lookup, str_position, str_put};
use super::{json_quoted, quote_json_string, PathSeg, PathSegTag, PathSpan};
use super::json::{json_model, JsonModel, JsonValue};
use super::scalar::opt_text;
use crate::document::snapshot::SemType;
use crate::text::{
    filter_chars, int_decimal, is_control, push_i32_decimal, push_str,
    chars_of, lemma_utf8_len_mono, lemma_utf8_len_split, lemma_utf8_len_take, push_char, trim_end_in, trim_start_in, utf8_len, utf8_offsets,
    ws_skip_back, ws_skip_fwd,
};

verus! {

/// Quoting state while scanning TOML text: inside a single-quoted string,
/// inside a double-quoted string, and just after a backslash in one.
pub type QuoteState = (bool, bool, bool);

/// The state after reading `c` in state `st`.
pub open spec fn quote_step(st: QuoteState, c: char) -> QuoteState {
    let (single, double, escape) = st;
    if double {
        if escape {
            (false, true, false)
        } else if c == '\\' {
            (false, true, true)
        } else if c == '"' {
            (false, false, false)
        } else {
            st
        }
    } else if single {
        if c == '\'' {
            (false, false, false)
        } else {
            st
        }
    } else if c == '"' {
        (false, true, false)
    } else if c == '\'' {
        (true, false, false)
    } else {
        st
    }
}

/// Outside any string.
pub open spec fn is_outside(st: QuoteState) -> bool {
    !st.0 && !st.1
}

/// The state after reading `s[i..hi]` from state `st`.
pub open spec fn quote_state_after(s: Seq<char>, i: int, hi: int, st: QuoteState) -> QuoteState
    decreases hi - i,
{
    if i >= hi {
        st
    } else {
        quote_state_after(s, i + 1, hi, quote_step(st, s[i]))
    }
}

/// The first position in `s[i..hi]`, read from state `st`, where `needle`
/// stands outside any string (a quote opens a string instead).
pub open spec fn find_outside(s: Seq<char>, needle: char, i: int, hi: int, st: QuoteState) -> Option<int>
    decreases hi - i,
{
    if i >= hi {
        None
    } else if is_outside(st) && s[i] != '"' && s[i] != '\'' && s[i] == needle {
        Some(i)
    } else {
        find_outside(s, needle, i + 1, hi, quote_step(st, s[i]))
    }
}

pub proof fn lemma_find_outside_bounds(s: Seq<char>, needle: char, i: int, hi: int, st: QuoteState)
    ensures
        find_outside(s, needle, i, hi, st) matches Some(k) ==> i <= k < hi && s[k] == needle,
    decreases hi - i,
{
    if i < hi && !(is_outside(st) && s[i] != '"' && s[i] != '\'' && s[i] == needle) {
        lemma_find_outside_bounds(s, needle, i + 1, hi, quote_step(st, s[i]));
    }
}

/// The character position of `needle` outside strings in `chars[lo..hi]`.
fn find_char_outside_quotes_in(chars: &Vec<char>, lo: usize, hi: usize, needle: char) -> (r: Option<usize>)
    requires
        lo <= hi <= chars@.len(),
    ensures
        r == (match find_outside(chars@, needle, lo as int, hi as int, (false, false, false)) {
            Some(k) => Some(k as usize),
            None => None::<usize>,
        }),
        r matches Some(k) ==> lo <= k < hi && chars@[k as int] == needle,
{
    proof {
        lemma_find_outside_bounds(chars@, needle, lo as int, hi as int, (false, false, false));
    }
    let mut single = false;
    let mut double = false;
    let mut escape = false;
    let mut i = lo;
    while i < hi
        invariant
            lo <= i <= hi <= chars@.len(),
            !(single && double),
            !double ==> !escape,
            find_outside(chars@, needle, i as int, hi as int, (single, double, escape))
                == find_outside(chars@, needle, lo as int, hi as int, (false, false, false)),
        decreases hi - i,
    {
        let c = chars[i];
        if double {
            if escape {
                escape = false;
            } else if c == '\\' {
                escape = true;
            } else if c == '"' {
                double = false;
            }
        } else if single {
            if c == '\'' {
                single = false;
            }
        } else if c == '"' {
            double = true;
        } else if c == '\'' {
            single = true;
        } else if c == needle {
            return Some(i);
        }
        i = i + 1;
    }
    None
}

/// The byte index of the first `needle` in `text` that stands outside any
/// quoted string.
pub fn find_toml_char_outside_quotes(text: &str, needle: char) -> (r: Option<usize>)
    ensures
        r == (match find_outside(text@, needle, 0, text@.len() as int, (false, false, false)) {
            Some(k) => Some(utf8_len(text@.take(k)) as usize),
            None => None::<usize>,
        }),
{
    let chars = chars_of(text);
    let byte_len = text.as_bytes().len();
    assert(utf8_len(chars@) == byte_len);
    let offsets = utf8_offsets(&chars);
    assert(chars@ == text@);
    proof {
        lemma_find_outside_bounds(text@, needle, 0, text@.len() as int, (false, false, false));
    }
    match find_char_outside_quotes_in(&chars, 0, chars.len(), needle) {
        Some(k) => {
            assert(offsets@[k as int] == utf8_len(chars@.take(k as int)));
            Some(offsets[k])
        },
        None => None,
    }
}

/// The positions in `s[i..hi]`, read from state `st`, of the dots that
/// stand outside strings.
pub open spec fn key_dots(s: Seq<char>, i: int, hi: int, st: QuoteState) -> Seq<int>
    decreases hi - i,
{
    if i >= hi {
        Seq::empty()
    } else {
        let rest = key_dots(s, i + 1, hi, quote_step(st, s[i]));
        if is_outside(st) && s[i] == '.' {
            seq![i] + rest
        } else {
            rest
        }
    }
}

/// The `j`-th dotted segment of `s[lo..hi]` whose separating dots stand at
/// `dots`.
pub open spec fn key_segment(s: Seq<char>, lo: int, hi: int, dots: Seq<int>, j: int) -> Seq<char> {
    let start = if j == 0 { lo } else { dots[j - 1] + 1 };
    let end = if j < dots.len() { dots[j] } else { hi };
    s.subrange(start, end)
}

/// `out` is what `normalize` makes of the text `seg`.
pub open spec fn normalizes<N: Fn(&str) -> String>(normalize: N, seg: Seq<char>, out: String) -> bool {
    exists|a: &str| a@ == seg && call_ensures(normalize, (a,), out)
}

/// `r` is the key split of `s[lo..hi]`: none when a string is left open,
/// otherwise each dotted segment, normalized.
pub open spec fn is_key_split<N: Fn(&str) -> String>(r: Option<Vec<String>>, s: Seq<char>, lo: int, hi: int, normalize: N) -> bool {
    if !is_outside(quote_state_after(s, lo, hi, (false, false, false))) {
        r is None
    } else {
        let dots = key_dots(s, lo, hi, (false, false, false));
        r matches Some(parts) && parts@.len() == dots.len() + 1
            && forall|j: int| 0 <= j < parts@.len() ==> normalizes(normalize, key_segment(s, lo, hi, dots, j), #[trigger] parts@[j])
    }
}

pub proof fn lemma_key_dots_bounds(s: Seq<char>, i: int, hi: int, st: QuoteState)
    ensures
        forall|j: int| 0 <= j < key_dots(s, i, hi, st).len() ==> i <= #[trigger] key_dots(s, i, hi, st)[j] < hi,
        forall|a: int, b: int| 0 <= a < b < key_dots(s, i, hi, st).len() ==> key_dots(s, i, hi, st)[a] < key_dots(s, i, hi, st)[b],
    decreases hi - i,
{
    if i < hi {
        let next = quote_step(st, s[i]);
        lemma_key_dots_bounds(s, i + 1, hi, next);
        let rest = key_dots(s, i + 1, hi, next);
        let all = key_dots(s, i, hi, st);
        if is_outside(st) && s[i] == '.' {
            assert(all == seq![i] + rest);
            assert forall|j: int| 0 <= j < all.len() implies i <= #[trigger] all[j] < hi by {
                if j > 0 {
                    assert(all[j] == rest[j - 1]);
                }
            }
            assert forall|a: int, b: int| 0 <= a < b < all.len() implies all[a] < all[b] by {
                assert(all[b] == rest[b - 1]);
                if a > 0 {
                    assert(all[a] == rest[a - 1]);
                }
            }
        } else {
            assert(all == rest);
        }
    }
}

/// The text of `chars[lo..hi]`.
pub fn string_of_range(chars: &Vec<char>, lo: usize, hi: usize) -> (r: String)
    requires
        lo <= hi <= chars@.len(),
    ensures
        r@ == chars@.subrange(lo as int, hi as int),
{
    let mut out = String::new();
    let mut i = lo;
    while i < hi
        invariant
            lo <= i <= hi <= chars@.len(),
            out@ == chars@.subrange(lo as int, i as int),
        decreases hi - i,
    {
        push_char(&mut out, chars[i]);
        i = i + 1;
        proof {
            assert(out@ =~= chars@.subrange(lo as int, i as int));
        }
    }
    out
}

/// Splits `chars[lo..hi]` into its dotted key segments, each normalized;
/// none when a string is left open.
fn split_key_parts_in<N: Fn(&str) -> String>(chars: &Vec<char>, lo: usize, hi: usize, normalize: &N) -> (r: Option<Vec<String>>)
    requires
        lo <= hi <= chars@.len(),
        forall|a: &str| call_requires(*normalize, (a,)),
    ensures
        is_key_split(r, chars@, lo as int, hi as int, *normalize),
{
    let ghost s = chars@;
    let ghost init: QuoteState = (false, false, false);
    let ghost mut found: Seq<int> = Seq::empty();
    proof {
        lemma_key_dots_bounds(s, lo as int, hi as int, init);
    }
    let mut parts: Vec<String> = Vec::new();
    let mut single = false;
    let mut double = false;
    let mut escape = false;
    let mut start = lo;
    let mut i = lo;
    while i < hi
        invariant
            s == chars@,
            lo <= start <= i <= hi <= s.len(),
            forall|a: &str| call_requires(*normalize, (a,)),
            !(single && double),
            !double ==> !escape,
            found + key_dots(s, i as int, hi as int, (single, double, escape)) == key_dots(s, lo as int, hi as int, init),
            quote_state_after(s, i as int, hi as int, (single, double, escape)) == quote_state_after(s, lo as int, hi as int, init),
            parts@.len() == found.len(),
            start == (if found.len() == 0 { lo as int } else { found.last() + 1 }),
            forall|j: int| 0 <= j < found.len() ==> lo <= #[trigger] found[j] < i,
            forall|j: int| 0 <= j < parts@.len() ==> normalizes(*normalize,
                s.subrange(if j == 0 { lo as int } else { found[j - 1] + 1 }, found[j]), #[trigger] parts@[j]),
        decreases hi - i,
    {
        let c = chars[i];
        let ghost st: QuoteState = (single, double, escape);
        if double {
            if escape {
                escape = false;
            } else if c == '\\' {
                escape = true;
            } else if c == '"' {
                double = false;
            }
        } else if single {
            if c == '\'' {
                single = false;
            }
        } else if c == '"' {
            double = true;
        } else if c == '\'' {
            single = true;
        } else if c == '.' {
            let segment = string_of_range(chars, start, i);
            let part = normalize(segment.as_str());
            proof {
                assert(normalizes(*normalize, s.subrange(start as int, i as int), part));
            }
            parts.push(part);
            proof {
                found = found.push(i as int);
                assert(seq![i as int] + key_dots(s, i + 1, hi as int, (single, double, escape))
                    == key_dots(s, i as int, hi as int, st));
                assert(found + key_dots(s, i + 1, hi as int, (single, double, escape))
                    =~= found.drop_last() + (seq![i as int] + key_dots(s, i + 1, hi as int, (single, double, escape))));
            }
            start = i + 1;
        }
        assert((single, double, escape) == quote_step(st, c));
        i = i + 1;
    }
    if single || double {
        return None;
    }
    let segment = string_of_range(chars, start, hi);
    let part = normalize(segment.as_str());
    proof {
        assert(normalizes(*normalize, s.subrange(start as int, hi as int), part));
        assert(found =~= key_dots(s, lo as int, hi as int, init));
    }
    parts.push(part);
    Some(parts)
}

/// Splits a dotted key into its segments, each normalized; none when a
/// quoted segment is left open.
pub fn split_toml_key_parts<N: Fn(&str) -> String>(raw: &str, normalize: &N) -> (r: Option<Vec<String>>)
    requires
        forall|a: &str| call_requires(*normalize, (a,)),
    ensures
        is_key_split(r, raw@, 0, raw@.len() as int, *normalize),
{
    let chars = chars_of(raw);
    split_key_parts_in(&chars, 0, chars.len(), normalize)
}

/// A `key = value` line: its key segments, its key text, and the byte spans
/// of its key and its value.
#[derive(Debug)]
pub struct TomlAssignmentLine {
    pub key_parts: Vec<String>,
    pub raw_key_text: String,
    pub key_span: (usize, usize),
    pub value_span: (usize, usize),
}

/// `offsets` holds the byte offset of every character position of `s`.
pub open spec fn are_offsets(offsets: Seq<usize>, s: Seq<char>) -> bool {
    &&& offsets.len() == s.len() + 1
    &&& forall|i: int| 0 <= i <= s.len() ==> offsets[i] == utf8_len(#[trigger] s.take(i))
}

/// `r` is the assignment that the line `s[lo..hi]`, starting at byte
/// `line_offset` of the source, holds: the first `=` outside strings
/// separates a non-empty key, whose segments must close their strings, from
/// a non-empty value; the spans leave out surrounding white space.
pub open spec fn is_assignment_of<N: Fn(&str) -> String>(
    r: Option<TomlAssignmentLine>,
    s: Seq<char>,
    lo: int,
    hi: int,
    line_offset: int,
    normalize: N,
) -> bool {
    match find_outside(s, '=', lo, hi, (false, false, false)) {
        None => r is None,
        Some(e) => {
            let a = ws_skip_fwd(s, lo, e);
            let b = ws_skip_back(s, a, e);
            let vs = ws_skip_fwd(s, e + 1, hi);
            let ve = ws_skip_back(s, lo, hi);
            if a >= b {
                r is None
            } else if !is_outside(quote_state_after(s, a, b, (false, false, false))) {
                r is None
            } else if utf8_len(s.subrange(lo, ve)) <= utf8_len(s.subrange(lo, vs)) {
                r is None
            } else {
                r matches Some(p) && is_key_split(Some(p.key_parts), s, a, b, normalize)
                    && p.raw_key_text@ == s.subrange(a, b)
                    && p.key_span == ((line_offset + utf8_len(s.subrange(lo, a))) as usize, (line_offset + utf8_len(s.subrange(lo, b))) as usize)
                    && p.value_span == ((line_offset + utf8_len(s.subrange(lo, vs))) as usize, (line_offset + utf8_len(s.subrange(lo, ve))) as usize)
            }
        },
    }
}

/// The byte length of `chars[lo..k]`.
fn span_bytes(chars: &Vec<char>, offsets: &Vec<usize>, lo: usize, k: usize) -> (r: usize)
    requires
        lo <= k <= chars@.len(),
        are_offsets(offsets@, chars@),
    ensures
        r == utf8_len(chars@.subrange(lo as int, k as int)),
{
    proof {
        lemma_utf8_len_split(chars@, lo as int, k as int);
        assert(offsets@[k as int] == utf8_len(chars@.take(k as int)));
        assert(offsets@[lo as int] == utf8_len(chars@.take(lo as int)));
    }
    offsets[k] - offsets[lo]
}

/// Parses the line `chars[lo..hi]`, which starts at byte `line_offset`, as
/// an assignment.
fn parse_assignment_in<N: Fn(&str) -> String>(
    chars: &Vec<char>,
    offsets: &Vec<usize>,
    lo: usize,
    hi: usize,
    line_offset: usize,
    normalize: &N,
) -> (r: Option<TomlAssignmentLine>)
    requires
        lo <= hi <= chars@.len(),
        are_offsets(offsets@, chars@),
        line_offset + utf8_len(chars@.subrange(lo as int, hi as int)) <= usize::MAX,
        forall|a: &str| call_requires(*normalize, (a,)),
    ensures
        is_assignment_of(r, chars@, lo as int, hi as int, line_offset as int, *normalize),
{
    proof {
        lemma_find_outside_bounds(chars@, '=', lo as int, hi as int, (false, false, false));
    }
    let e = match find_char_outside_quotes_in(chars, lo, hi, '=') {
        Some(e) => e,
        None => {
            return None;
        },
    };
    let a = trim_start_in(chars, lo, e);
    let b = trim_end_in(chars, a, e);
    if a >= b {
        return None;
    }
    let key_parts = match split_key_parts_in(chars, a, b, normalize) {
        Some(parts) => parts,
        None => {
            return None;
        },
    };
    let vs = trim_start_in(chars, e + 1, hi);
    let ve = trim_end_in(chars, lo, hi);
    let value_start = span_bytes(chars, offsets, lo, vs);
    let value_end = span_bytes(chars, offsets, lo, ve);
    if value_end <= value_start {
        return None;
    }
    let key_start = span_bytes(chars, offsets, lo, a);
    let key_end = span_bytes(chars, offsets, lo, b);
    proof {
        lemma_utf8_len_mono(chars@, lo as int, a as int, hi as int);
        lemma_utf8_len_mono(chars@, lo as int, b as int, hi as int);
        lemma_utf8_len_mono(chars@, lo as int, vs as int, hi as int);
        lemma_utf8_len_mono(chars@, lo as int, ve as int, hi as int);
    }
    Some(TomlAssignmentLine {
        key_parts,
        raw_key_text: string_of_range(chars, a, b),
        key_span: (line_offset + key_start, line_offset + key_end),
        value_span: (line_offset + value_start, line_offset + value_end),
    })
}

/// Parses a `key = value` line that starts at byte `line_offset` of its
/// source.
pub fn parse_toml_assignment_line<N: Fn(&str) -> String>(line: &str, line_offset: usize, normalize: &N) -> (r: Option<TomlAssignmentLine>)
    requires
        line_offset + utf8_len(line@) <= usize::MAX,
        forall|a: &str| call_requires(*normalize, (a,)),
    ensures
        is_assignment_of(r, line@, 0, line@.len() as int, line_offset as int, *normalize),
{
    let chars = chars_of(line);
    let byte_len = line.as_bytes().len();
    assert(utf8_len(chars@) == byte_len);
    let offsets = utf8_offsets(&chars);
    assert(chars@.subrange(0, chars@.len() as int) =~= chars@);
    parse_assignment_in(&chars, &offsets, 0, chars.len(), line_offset, normalize)
}

/// `s[lo..hi]` is a `[[...]]` header.
pub open spec fn is_array_header(s: Seq<char>, lo: int, hi: int) -> bool {
    hi - lo >= 2 && s[lo] == '[' && s[lo + 1] == '[' && s[hi - 2] == ']' && s[hi - 1] == ']'
}

/// `s[lo..hi]` is a `[...]` header.
pub open spec fn is_table_header(s: Seq<char>, lo: int, hi: int) -> bool {
    hi - lo >= 1 && s[lo] == '[' && s[hi - 1] == ']'
}

/// `r` is the header that `s[lo..hi]` holds: whether it is an array of
/// tables, and its key segments; none for a line that is no header or
/// whose key leaves a string open.
pub open spec fn is_header_of<N: Fn(&str) -> String>(r: Option<(bool, Vec<String>)>, s: Seq<char>, lo: int, hi: int, normalize: N) -> bool {
    let parts = match r {
        Some(h) => Some(h.1),
        None => None,
    };
    if is_array_header(s, lo, hi) {
        is_key_split(parts, s, lo + 2, hi - 2, normalize) && (r matches Some(h) ==> h.0)
    } else if is_table_header(s, lo, hi) {
        is_key_split(parts, s, lo + 1, hi - 1, normalize) && (r matches Some(h) ==> !h.0)
    } else {
        r is None
    }
}

/// Parses the header `chars[lo..hi]`.
fn parse_header_in<N: Fn(&str) -> String>(chars: &Vec<char>, lo: usize, hi: usize, normalize: &N) -> (r: Option<(bool, Vec<String>)>)
    requires
        lo <= hi <= chars@.len(),
        forall|a: &str| call_requires(*normalize, (a,)),
    ensures
        is_header_of(r, chars@, lo as int, hi as int, *normalize),
{
    let (inner_lo, inner_hi, is_array) = if hi - lo >= 2 && chars[lo] == '[' && chars[lo + 1] == '[' && chars[hi - 2] == ']'
        && chars[hi - 1] == ']' {
        (lo + 2, hi - 2, true)
    } else if hi - lo >= 1 && chars[lo] == '[' && chars[hi - 1] == ']' {
        (lo + 1, hi - 1, false)
    } else {
        return None;
    };
    match split_key_parts_in(chars, inner_lo, inner_hi, normalize) {
        Some(parts) => Some((is_array, parts)),
        None => None,
    }
}

/// Parses a table header line, `[a.b]` or `[[a.b]]`.
pub fn parse_toml_header_parts<N: Fn(&str) -> String>(line: &str, normalize: &N) -> (r: Option<(bool, Vec<String>)>)
    requires
        forall|a: &str| call_requires(*normalize, (a,)),
    ensures
        is_header_of(r, line@, 0, line@.len() as int, *normalize),
{
    let chars = chars_of(line);
    parse_header_in(&chars, 0, chars.len(), normalize)
}

/// A bare TOML key: non-empty, of ASCII letters, digits, `_` and `-`.
pub open spec fn is_bare_key_bytes(b: Seq<u8>) -> bool {
    b.len() > 0 && forall|i: int| 0 <= i < b.len() ==> {
        let c = #[trigger] b[i];
        (0x30 <= c <= 0x39) || (0x41 <= c <= 0x5a) || (0x61 <= c <= 0x7a) || c == 0x5f || c == 0x2d
    }
}

/// Whether `key` can be written bare.
pub fn is_bare_toml_key(key: &str) -> (r: bool)
    ensures
        r == is_bare_key_bytes(key.spec_bytes()),
{
    let bytes = key.as_bytes();
    if bytes.len() == 0 {
        return false;
    }
    let mut i: usize = 0;
    while i < bytes.len()
        invariant
            bytes@ == key.spec_bytes(),
            i <= bytes@.len(),
            forall|j: int| 0 <= j < i ==> {
                let c = #[trigger] bytes@[j];
                (0x30 <= c <= 0x39) || (0x41 <= c <= 0x5a) || (0x61 <= c <= 0x7a) || c == 0x5f || c == 0x2d
            },
        decreases bytes@.len() - i,
    {
        let c = bytes[i];
        if !((0x30 <= c && c <= 0x39) || (0x41 <= c && c <= 0x5a) || (0x61 <= c && c <= 0x7a) || c == 0x5f || c == 0x2d) {
            return false;
        }
        i = i + 1;
    }
    true
}

/// A key as written in TOML: bare where it can be, JSON-quoted otherwise.
pub fn format_toml_key(key: &str) -> (r: String)
    ensures
        r@ == (if is_bare_key_bytes(key.spec_bytes()) { key@ } else { json_quoted(key@) }),
{
    if is_bare_toml_key(key) {
        key.to_owned()
    } else {
        quote_json_string(key)
    }
}

/// A key with its control characters removed, as keys are compared.
pub open spec fn match_key(s: Seq<char>) -> Seq<char> {
    filter_chars(s, |c: char| !is_control(c))
}

/// The key with its control characters removed.
pub fn normalize_graph_match_key(key: &str) -> (r: String)
    ensures
        r@ == match_key(key@),
{
    let chars = chars_of(key);
    let mut out = String::new();
    let mut i: usize = 0;
    while i < chars.len()
        invariant
            chars@ == key@,
            i <= chars@.len(),
            out@ == match_key(chars@.take(i as int)),
        decreases chars@.len() - i,
    {
        let c = chars[i];
        let v = c as u32;
        proof {
            assert(chars@.take(i + 1).drop_last() =~= chars@.take(i as int));
        }
        if !(v <= 0x1f || (0x7f <= v && v <= 0x9f)) {
            push_char(&mut out, c);
        }
        i = i + 1;
    }
    proof {
        assert(chars@.take(chars@.len() as int) =~= chars@);
    }
    out
}

/// A request path step and a graph path segment name the same step: keys
/// equal once control characters are removed, or the same index.
pub open spec fn step_matches(expected: PathSeg, actual: (i32, Seq<char>, i32)) -> bool {
    match expected.tag {
        PathSegTag::Key => actual.0 == 0 && match_key(expected.key@) == match_key(actual.1),
        PathSegTag::Index => actual.0 == 1 && expected.index == actual.2,
    }
}

/// A request path names the graph path, step by step.
pub open spec fn path_matches(expected: Seq<PathSeg>, actual: Seq<(i32, Seq<char>, i32)>) -> bool {
    expected.len() == actual.len() && forall|i: int| 0 <= i < expected.len() ==> step_matches(#[trigger] expected[i], actual[i])
}

/// Whether a request path names the graph path.
pub fn path_matches_graph_segments(expected: &[PathSeg], actual: &[GraphPathSeg]) -> (r: bool)
    ensures
        r == path_matches(expected@, seg_views(actual@)),
{
    if expected.len() != actual.len() {
        return false;
    }
    let mut i: usize = 0;
    while i < expected.len()
        invariant
            expected@.len() == actual@.len(),
            i <= expected@.len(),
            forall|j: int| 0 <= j < i ==> step_matches(#[trigger] expected@[j], seg_views(actual@)[j]),
        decreases expected@.len() - i,
    {
        let lhs = &expected[i];
        let rhs = &actual[i];
        let ok = match lhs.tag {
            PathSegTag::Key => rhs.tag == 0 && crate::text::str_eq(
                normalize_graph_match_key(lhs.key).as_str(),
                normalize_graph_match_key(rhs.key.as_str()).as_str(),
            ),
            PathSegTag::Index => rhs.tag == 1 && lhs.index == rhs.index,
        };
        if !ok {
            assert(!step_matches(expected@[i as int], seg_views(actual@)[i as int]));
            return false;
        }
        i = i + 1;
    }
    true
}

/// A graph path segment as values: tag, key and index.
pub open spec fn seg_view(seg: GraphPathSeg) -> (i32, Seq<char>, i32) {
    (seg.tag, seg.key@, seg.index)
}

pub open spec fn seg_views(path: Seq<GraphPathSeg>) -> Seq<(i32, Seq<char>, i32)> {
    Seq::new(path.len(), |i: int| seg_view(path[i]))
}

/// The signature of one path segment: `k` and its key, `i` and its index,
/// or nothing for another tag; then a bar.
pub open spec fn segment_signature(seg: (i32, Seq<char>, i32)) -> Seq<char> {
    (if seg.0 == 0 {
        seq!['k'] + seg.1
    } else if seg.0 == 1 {
        seq!['i'] + int_decimal(seg.2 as int)
    } else {
        Seq::empty()
    }) + seq!['|']
}

/// The signature of a graph path: its segments' signatures in order.
pub open spec fn path_signature(path: Seq<(i32, Seq<char>, i32)>) -> Seq<char>
    decreases path.len(),
{
    if path.len() == 0 {
        Seq::empty()
    } else {
        path_signature(path.drop_last()) + segment_signature(path.last())
    }
}

/// The signature of a graph path, which tells table arrays apart.
pub fn toml_graph_path_signature(path: &[GraphPathSeg]) -> (r: String)
    ensures
        r@ == path_signature(seg_views(path@)),
{
    let mut out = String::new();
    let mut i: usize = 0;
    while i < path.len()
        invariant
            i <= path@.len(),
            out@ == path_signature(seg_views(path@.take(i as int))),
        decreases path@.len() - i,
    {
        let segment = &path[i];
        let ghost before = out@;
        if segment.tag == 0 {
            push_char(&mut out, 'k');
            push_str(&mut out, segment.key.as_str());
        } else if segment.tag == 1 {
            push_char(&mut out, 'i');
            push_i32_decimal(&mut out, segment.index);
        }
        push_char(&mut out, '|');
        proof {
            assert(seg_views(path@.take(i + 1)).drop_last() =~= seg_views(path@.take(i as int)));
            assert(seg_views(path@.take(i + 1)).last() == seg_view(path@[i as int]));
            assert(out@ =~= before + segment_signature(seg_view(path@[i as int])));
        }
        i = i + 1;
    }
    proof {
        assert(path@.take(path@.len() as int) =~= path@);
    }
    out
}

/// The index under which the context path `ctx` holds the table array
/// named by `keys[k..]`, its search resumed at `ctx[cursor]`.
pub open spec fn active_index_from(ctx: Seq<GraphPathSeg>, keys: Seq<String>, k: int, cursor: int) -> Option<i32>
    decreases keys.len() - k,
{
    if k >= keys.len() || k < 0 || cursor < 0 || cursor >= ctx.len() {
        None
    } else if ctx[cursor].tag != 0 || ctx[cursor].key@ != keys[k]@ {
        None
    } else {
        let next = cursor + 1;
        let indexed = next < ctx.len() && ctx[next].tag == 1;
        if k + 1 == keys.len() {
            if indexed { Some(ctx[next].index) } else { None }
        } else {
            active_index_from(ctx, keys, k + 1, if indexed { next + 1 } else { next })
        }
    }
}

/// The index of the table-array element that the current context is in,
/// for the table named by `prefix_keys`.
pub fn active_toml_array_index(current_context: &[GraphPathSeg], prefix_keys: &[String]) -> (r: Option<i32>)
    ensures
        r == active_index_from(current_context@, prefix_keys@, 0, 0),
{
    if prefix_keys.len() == 0 {
        return None;
    }
    let mut cursor: usize = 0;
    let mut k: usize = 0;
    while k < prefix_keys.len()
        invariant
            0 < prefix_keys@.len(),
            k < prefix_keys@.len(),
            cursor <= current_context@.len(),
            active_index_from(current_context@, prefix_keys@, k as int, cursor as int)
                == active_index_from(current_context@, prefix_keys@, 0, 0),
        decreases prefix_keys@.len() - k,
    {
        if cursor >= current_context.len() {
            return None;
        }
        let segment = &current_context[cursor];
        if segment.tag != 0 || !crate::text::str_eq(segment.key.as_str(), prefix_keys[k].as_str()) {
            return None;
        }
        cursor = cursor + 1;
        let indexed = cursor < current_context.len() && current_context[cursor].tag == 1;
        if k + 1 == prefix_keys.len() {
            if indexed {
                return Some(current_context[cursor].index);
            }
            return None;
        }
        if indexed {
            cursor = cursor + 1;
        }
        k = k + 1;
    }
    None
}

/// The context that the first `i` parts of a header open, the current
/// context being `cur`: each part as a key, followed by the index of the
/// table-array element that the current context is in, where it is in one.
pub open spec fn header_prefix(cur: Seq<GraphPathSeg>, parts: Seq<String>, i: int) -> Seq<(i32, Seq<char>, i32)>
    decreases i,
{
    if i <= 0 {
        Seq::empty()
    } else {
        header_prefix(cur, parts, i - 1).push((0i32, parts[i - 1]@, 0i32)) + match active_index_from(cur, parts.take(i), 0, 0) {
            Some(ix) => seq![(1i32, Seq::<char>::empty(), ix)],
            None => Seq::empty(),
        }
    }
}

/// The element index a count gives: the count where it fits in an `i32`,
/// zero otherwise.
pub open spec fn count_index(count: usize) -> i32 {
    if count <= i32::MAX { count as i32 } else { 0i32 }
}

/// No table-array count has reached `usize::MAX`.
pub open spec fn counts_bounded(counts: Seq<(String, usize)>) -> bool {
    forall|q: Seq<char>| #[trigger] str_lookup(counts, q) matches Some(c) ==> c < usize::MAX
}

/// What a header with `parts` does, the current context being `cur`: the
/// context it opens is `r`, and a table-array header counts one more
/// element under its parent's signature and its last key.
pub open spec fn header_context_effect(
    cur: Seq<GraphPathSeg>,
    parts: Seq<String>,
    is_array: bool,
    counts_old: Seq<(String, usize)>,
    counts_new: Seq<(String, usize)>,
    r: Seq<GraphPathSeg>,
) -> bool {
    if parts.len() == 0 {
        &&& r.len() == 0
        &&& forall|q: Seq<char>| str_lookup(counts_new, q) == str_lookup(counts_old, q)
    } else {
        let n = parts.len() as int;
        let prefix = header_prefix(cur, parts, n - 1);
        let last = parts[n - 1]@;
        let with_last = prefix.push((0i32, last, 0i32));
        if !is_array {
            &&& seg_views(r) == with_last
            &&& forall|q: Seq<char>| str_lookup(counts_new, q) == str_lookup(counts_old, q)
        } else {
            let key = path_signature(prefix) + seq!['|'] + last;
            let count: usize = match str_lookup(counts_old, key) {
                Some(c) => c,
                None => 0,
            };
            &&& seg_views(r) == with_last.push((1i32, Seq::<char>::empty(), count_index(count)))
            &&& forall|q: Seq<char>| str_lookup(counts_new, q) == (if q == key { Some((count + 1) as usize) } else { str_lookup(counts_old, q) })
        }
    }
}

/// A key segment of a graph path.
fn key_segment_of(key: &String) -> (r: GraphPathSeg)
    ensures
        seg_view(r) == (0i32, key@, 0i32),
{
    GraphPathSeg { tag: 0, key: key.clone(), index: 0 }
}

/// An index segment of a graph path.
fn index_segment_of(index: i32) -> (r: GraphPathSeg)
    ensures
        seg_view(r) == (1i32, Seq::<char>::empty(), index),
{
    GraphPathSeg { tag: 1, key: String::new(), index }
}

/// The context that a header opens: its parts as keys, each inner part
/// followed by the index of the table-array element that the current
/// context is in; a table-array header gets the next index under its
/// parent path and its last key.
pub fn build_toml_header_context(
    current_context: &[GraphPathSeg],
    header_parts: &[String],
    is_array: bool,
    array_counts: &mut Vec<(String, usize)>,
) -> (r: Vec<GraphPathSeg>)
    requires
        counts_bounded(old(array_counts)@),
    ensures
        header_context_effect(current_context@, header_parts@, is_array, old(array_counts)@, final(array_counts)@, r@),
{
    if header_parts.len() == 0 {
        return Vec::new();
    }
    let n = header_parts.len();
    let mut context: Vec<GraphPathSeg> = Vec::new();
    let mut prefix_keys: Vec<String> = Vec::new();
    let mut i: usize = 0;
    while i + 1 < n
        invariant
            n == header_parts@.len(),
            n > 0,
            i + 1 <= n,
            prefix_keys@ == header_parts@.take(i as int),
            seg_views(context@) == header_prefix(current_context@, header_parts@, i as int),
        decreases n - i,
    {
        let ghost before = context@;
        prefix_keys.push(header_parts[i].clone());
        context.push(key_segment_of(&header_parts[i]));
        proof {
            assert(prefix_keys@ =~= header_parts@.take(i + 1));
        }
        match active_toml_array_index(current_context, prefix_keys.as_slice()) {
            Some(index) => {
                context.push(index_segment_of(index));
            },
            None => {},
        }
        proof {
            assert(seg_views(context@) =~= header_prefix(current_context@, header_parts@, i + 1));
        }
        i = i + 1;
    }
    let last = &header_parts[n - 1];
    let parent_signature = toml_graph_path_signature(context.as_slice());
    let ghost prefix_view = seg_views(context@);
    context.push(key_segment_of(last));
    proof {
        assert(seg_views(context@) =~= prefix_view.push((0i32, last@, 0i32)));
    }
    if is_array {
        let mut counter_key = parent_signature;
        push_char(&mut counter_key, '|');
        push_str(&mut counter_key, last.as_str());
        let count: usize = match str_position(array_counts, counter_key.as_str()) {
            Some(k) => array_counts[k].1,
            None => 0,
        };
        let ghost with_last = seg_views(context@);
        let index: i32 = if count <= 0x7fff_ffff { count as i32 } else { 0 };
        context.push(index_segment_of(index));
        proof {
            assert(seg_views(context@) =~= with_last.push((1i32, Seq::<char>::empty(), count_index(count))));
        }
        let ghost key_view = counter_key@;
        assert(key_view == path_signature(prefix_view) + seq!['|'] + last@);
        assert(count == (match str_lookup(old(array_counts)@, key_view) {
            Some(c) => c,
            None => 0usize,
        }));
        str_put(array_counts, counter_key, count + 1);
        assert(seg_views(context@) == header_prefix(current_context@, header_parts@, n - 1).push((0i32, last@, 0i32)).push((1i32, Seq::<char>::empty(), count_index(count))));
    } else {
        assert(seg_views(context@) == header_prefix(current_context@, header_parts@, n - 1).push((0i32, last@, 0i32)));
    }
    context
}

/// Where the line that starts at `i` ends: past its line feed, or at the
/// end of the text.
pub open spec fn line_end(s: Seq<char>, i: int) -> int
    decreases s.len() - i,
{
    if i >= s.len() {
        s.len() as int
    } else if s[i] == '\n' {
        i + 1
    } else {
        line_end(s, i + 1)
    }
}

/// Where the text of the line that starts at `i` ends, its line feed left
/// out.
pub open spec fn line_body_end(s: Seq<char>, i: int) -> int {
    let end = line_end(s, i);
    if end > i && s[end - 1] == '\n' { end - 1 } else { end }
}

pub proof fn lemma_line_end(s: Seq<char>, i: int)
    requires
        0 <= i < s.len(),
    ensures
        i < line_end(s, i) <= s.len(),
        i <= line_body_end(s, i) <= line_end(s, i),
    decreases s.len() - i,
{
    if s[i] != '\n' {
        if i + 1 < s.len() {
            lemma_line_end(s, i + 1);
        } else {
            assert(line_end(s, i + 1) == s.len());
        }
    }
}

pub proof fn lemma_seg_views_push(path: Seq<GraphPathSeg>, x: GraphPathSeg)
    ensures
        seg_views(path.push(x)) == seg_views(path).push(seg_view(x)),
{
    assert(seg_views(path.push(x)) =~= seg_views(path).push(seg_view(x)));
}

/// Key parts as key segments of a graph path.
pub open spec fn key_views(parts: Seq<String>) -> Seq<(i32, Seq<char>, i32)> {
    Seq::new(parts.len(), |j: int| (0i32, parts[j]@, 0i32))
}

/// `r` can be what a scan of the lines of `s` from line start `i` finds
/// for `path`, in context `ctx` with table-array counts `counts`: blank
/// and comment lines are passed over, a header opens its context, and the
/// first assignment whose full path names `path` is the answer.
pub open spec fn scan_lines<N: Fn(&str) -> String>(
    s: Seq<char>,
    path: Seq<PathSeg>,
    f: N,
    i: int,
    ctx: Seq<GraphPathSeg>,
    counts: Seq<(String, usize)>,
    r: Option<TomlAssignmentLine>,
) -> bool
    decreases s.len() - i,
{
    if i < 0 || i >= s.len() {
        r is None
    } else {
        proof {
            lemma_line_end(s, i);
        }
        let end = line_end(s, i);
        let body = line_body_end(s, i);
        let a = ws_skip_fwd(s, i, body);
        let b = ws_skip_back(s, a, body);
        if a >= b || s[a] == '#' {
            scan_lines(s, path, f, end, ctx, counts, r)
        } else if exists|h: (bool, Vec<String>)| is_header_of(Some(h), s, a, b, f) {
            exists|h: (bool, Vec<String>), next_ctx: Seq<GraphPathSeg>, next_counts: Seq<(String, usize)>|
                is_header_of(Some(h), s, a, b, f) && header_context_effect(ctx, h.1@, h.0, counts, next_counts, next_ctx)
                    && scan_lines(s, path, f, end, next_ctx, next_counts, r)
        } else {
            exists|p: Option<TomlAssignmentLine>|
                is_assignment_of(p, s, i, body, utf8_len(s.take(i)) as int, f) && match p {
                    Some(pair) => if path_matches(path, seg_views(ctx) + key_views(pair.key_parts@)) {
                        r == Some(pair)
                    } else {
                        scan_lines(s, path, f, end, ctx, counts, r)
                    },
                    None => scan_lines(s, path, f, end, ctx, counts, r),
                }
        }
    }
}

/// What a scan finds is an assignment read from one of the lines it
/// passes, and its full key, in the context the headers before it open,
/// names the path.
pub proof fn law_found_assignment_names_path<N: Fn(&str) -> String>(
    s: Seq<char>,
    path: Seq<PathSeg>,
    f: N,
    i: int,
    ctx: Seq<GraphPathSeg>,
    counts: Seq<(String, usize)>,
    pair: TomlAssignmentLine,
)
    requires
        scan_lines(s, path, f, i, ctx, counts, Some(pair)),
    ensures
        exists|j: int| #![trigger line_body_end(s, j)]
            0 <= i <= j < s.len() && is_assignment_of(Some(pair), s, j, line_body_end(s, j), utf8_len(s.take(j)) as int, f),
        exists|c: Seq<GraphPathSeg>| path_matches(path, #[trigger] seg_views(c) + key_views(pair.key_parts@)),
    decreases s.len() - i,
{
    lemma_line_end(s, i);
    let end = line_end(s, i);
    let body = line_body_end(s, i);
    let a = ws_skip_fwd(s, i, body);
    let b = ws_skip_back(s, a, body);
    if a >= b || s[a] == '#' {
        law_found_assignment_names_path(s, path, f, end, ctx, counts, pair);
    } else if exists|h: (bool, Vec<String>)| is_header_of(Some(h), s, a, b, f) {
        let (h, next_ctx, next_counts) = choose|h: (bool, Vec<String>), next_ctx: Seq<GraphPathSeg>, next_counts: Seq<(String, usize)>|
            is_header_of(Some(h), s, a, b, f) && header_context_effect(ctx, h.1@, h.0, counts, next_counts, next_ctx)
                && scan_lines(s, path, f, end, next_ctx, next_counts, Some(pair));
        law_found_assignment_names_path(s, path, f, end, next_ctx, next_counts, pair);
    } else {
        let p = choose|p: Option<TomlAssignmentLine>|
            is_assignment_of(p, s, i, body, utf8_len(s.take(i)) as int, f) && match p {
                Some(q) => if path_matches(path, seg_views(ctx) + key_views(q.key_parts@)) {
                    Some(pair) == Some(q)
                } else {
                    scan_lines(s, path, f, end, ctx, counts, Some(pair))
                },
                None => scan_lines(s, path, f, end, ctx, counts, Some(pair)),
            };
        match p {
            Some(q) => {
                if path_matches(path, seg_views(ctx) + key_views(q.key_parts@)) {
                    assert(line_body_end(s, i) == body);
                } else {
                    law_found_assignment_names_path(s, path, f, end, ctx, counts, pair);
                }
            },
            None => {
                law_found_assignment_names_path(s, path, f, end, ctx, counts, pair);
            },
        }
    }
}

/// Where the line that starts at `i` ends.
fn line_end_in(chars: &Vec<char>, i: usize) -> (r: usize)
    requires
        i < chars@.len(),
    ensures
        r == line_end(chars@, i as int),
{
    let mut j = i;
    while j < chars.len() && chars[j] != '\n'
        invariant
            i <= j <= chars@.len(),
            line_end(chars@, j as int) == line_end(chars@, i as int),
        decreases chars@.len() - j,
    {
        j = j + 1;
    }
    if j < chars.len() {
        j + 1
    } else {
        j
    }
}

/// The context with an assignment's key parts appended.
fn full_path_of(context: &Vec<GraphPathSeg>, parts: &Vec<String>) -> (r: Vec<GraphPathSeg>)
    ensures
        seg_views(r@) == seg_views(context@) + key_views(parts@),
{
    let mut out: Vec<GraphPathSeg> = Vec::new();
    let mut i: usize = 0;
    while i < context.len()
        invariant
            i <= context@.len(),
            seg_views(out@) == seg_views(context@.take(i as int)),
        decreases context@.len() - i,
    {
        let ghost before = out@;
        let segment = GraphPathSeg { tag: context[i].tag, key: context[i].key.clone(), index: context[i].index };
        assert(seg_view(segment) == seg_view(context@[i as int]));
        out.push(segment);
        proof {
            lemma_seg_views_push(before, segment);
            lemma_seg_views_push(context@.take(i as int), context@[i as int]);
            assert(context@.take(i as int).push(context@[i as int]) =~= context@.take(i + 1));
        }
        i = i + 1;
    }
    proof {
        assert(context@.take(context@.len() as int) =~= context@);
    }
    let mut j: usize = 0;
    while j < parts.len()
        invariant
            j <= parts@.len(),
            seg_views(out@) == seg_views(context@) + key_views(parts@.take(j as int)),
        decreases parts@.len() - j,
    {
        let ghost before = out@;
        let segment = key_segment_of(&parts[j]);
        out.push(segment);
        proof {
            lemma_seg_views_push(before, segment);
            assert(key_views(parts@.take(j + 1)) =~= key_views(parts@.take(j as int)).push((0i32, parts@[j as int]@, 0i32)));
            assert(seg_views(out@) =~= seg_views(context@) + key_views(parts@.take(j + 1)));
        }
        j = j + 1;
    }
    proof {
        assert(parts@.take(parts@.len() as int) =~= parts@);
    }
    out
}

/// Finds the assignment line of `path` in a TOML source: the first
/// assignment whose key, in the context its table headers open, names the
/// path.
pub fn find_toml_assignment_line<N: Fn(&str) -> String>(source: &str, path: &[PathSeg], normalize: &N) -> (r: Option<TomlAssignmentLine>)
    requires
        forall|a: &str| call_requires(*normalize, (a,)),
    ensures
        scan_lines(source@, path@, *normalize, 0, Seq::empty(), Seq::empty(), r),
{
    let chars = chars_of(source);
    let byte_len = source.as_bytes().len();
    assert(utf8_len(chars@) == byte_len);
    let offsets = utf8_offsets(&chars);
    let ghost s = chars@;
    let mut context: Vec<GraphPathSeg> = Vec::new();
    let mut counts: Vec<(String, usize)> = Vec::new();
    let mut i: usize = 0;
    while i < chars.len()
        invariant
            s == chars@,
            s == source@,
            are_offsets(offsets@, s),
            utf8_len(s) <= usize::MAX,
            i <= s.len(),
            forall|q: Seq<char>| #[trigger] str_lookup(counts@, q) matches Some(c) ==> c <= i,
            forall|a: &str| call_requires(*normalize, (a,)),
            forall|r: Option<TomlAssignmentLine>| #[trigger] scan_lines(s, path@, *normalize, i as int, context@, counts@, r)
                ==> scan_lines(s, path@, *normalize, 0, Seq::empty(), Seq::empty(), r),
        decreases s.len() - i,
    {
        proof {
            lemma_line_end(s, i as int);
        }
        let end = line_end_in(&chars, i);
        let body = if end > i && chars[end - 1] == '\n' { end - 1 } else { end };
        let a = trim_start_in(&chars, i, body);
        let b = trim_end_in(&chars, a, body);
        if a >= b || chars[a] == '#' {
            proof {
                assert forall|r: Option<TomlAssignmentLine>| #[trigger] scan_lines(s, path@, *normalize, end as int, context@, counts@, r)
                    implies scan_lines(s, path@, *normalize, i as int, context@, counts@, r) by {}
            }
            i = end;
            continue;
        }
        match parse_header_in(&chars, a, b, normalize) {
            Some(header) => {
                let (is_array, parts) = header;
                let ghost h = (is_array, parts);
                let ghost old_context = context@;
                let ghost old_counts = counts@;
                context = build_toml_header_context(context.as_slice(), parts.as_slice(), is_array, &mut counts);
                proof {
                    assert(is_header_of(Some(h), s, a as int, b as int, *normalize));
                    assert forall|r: Option<TomlAssignmentLine>| #[trigger] scan_lines(s, path@, *normalize, end as int, context@, counts@, r)
                        implies scan_lines(s, path@, *normalize, i as int, old_context, old_counts, r) by {
                        assert(is_header_of(Some(h), s, a as int, b as int, *normalize)
                            && header_context_effect(old_context, h.1@, h.0, old_counts, counts@, context@)
                            && scan_lines(s, path@, *normalize, end as int, context@, counts@, r));
                    }
                    assert forall|q: Seq<char>| (#[trigger] str_lookup(counts@, q)) is Some implies str_lookup(counts@, q)->Some_0 <= end by {
                        assert(str_lookup(old_counts, q) matches Some(c) ==> c <= i);
                    }
                }
                i = end;
                continue;
            },
            None => {},
        }
        proof {
            assert(!exists|h: (bool, Vec<String>)| is_header_of(Some(h), s, a as int, b as int, *normalize));
            lemma_utf8_len_split(s, i as int, body as int);
            lemma_utf8_len_take(s, body as int);
        }
        let parsed = parse_assignment_in(&chars, &offsets, i, body, offsets[i], normalize);
        let ghost parsed_copy = parsed;
        match parsed {
            Some(pair) => {
                let full_path = full_path_of(&context, &pair.key_parts);
                if path_matches_graph_segments(path, full_path.as_slice()) {
                    proof {
                        assert(is_assignment_of(parsed_copy, s, i as int, body as int, utf8_len(s.take(i as int)) as int, *normalize));
                        assert(scan_lines(s, path@, *normalize, i as int, context@, counts@, Some(pair)));
                    }
                    return Some(pair);
                }
                proof {
                    assert forall|r: Option<TomlAssignmentLine>| #[trigger] scan_lines(s, path@, *normalize, end as int, context@, counts@, r)
                        implies scan_lines(s, path@, *normalize, i as int, context@, counts@, r) by {
                        assert(is_assignment_of(parsed_copy, s, i as int, body as int, utf8_len(s.take(i as int)) as int, *normalize));
                    }
                }
            },
            None => {
                proof {
                    assert forall|r: Option<TomlAssignmentLine>| #[trigger] scan_lines(s, path@, *normalize, end as int, context@, counts@, r)
                        implies scan_lines(s, path@, *normalize, i as int, context@, counts@, r) by {
                        assert(is_assignment_of(parsed_copy, s, i as int, body as int, utf8_len(s.take(i as int)) as int, *normalize));
                    }
                }
            },
        }
        i = end;
    }
    proof {
        assert(scan_lines(s, path@, *normalize, i as int, context@, counts@, None));
    }
    None
}

/// The span of an assignment's key, or of its value, that a request
/// addresses: none where it is empty or does not fit in an `i32`.
pub open spec fn assignment_span(p: TomlAssignmentLine, prefer_key: bool) -> Option<PathSpan> {
    let (start, end) = if prefer_key { p.key_span } else { p.value_span };
    if start > i32::MAX || end > i32::MAX || end <= start {
        None
    } else {
        Some(PathSpan { start_byte: start as i32, end_byte: end as i32, row: 0, column: 0 })
    }
}

/// Recovers the span of the key or the value that `path` names from the
/// source's assignment lines.
pub fn recover_toml_assignment_span<N: Fn(&str) -> String>(
    source: &str,
    path: &[PathSeg],
    prefer_key: bool,
    normalize: &N,
) -> (r: Option<PathSpan>)
    requires
        forall|a: &str| call_requires(*normalize, (a,)),
    ensures
        exists|found: Option<TomlAssignmentLine>| scan_lines(source@, path@, *normalize, 0, Seq::empty(), Seq::empty(), found)
            && match found {
                Some(p) => r == assignment_span(p, prefer_key),
                None => r is None,
            },
{
    let found = find_toml_assignment_line(source, path, normalize);
    let ghost found_copy = found;
    let r = match found {
        Some(assignment) => {
            let (start, end) = if prefer_key { assignment.key_span } else { assignment.value_span };
            if start > 0x7fff_ffff || end > 0x7fff_ffff || end <= start {
                None
            } else {
                Some(PathSpan { start_byte: start as i32, end_byte: end as i32, row: 0, column: 0 })
            }
        },
        None => None,
    };
    proof {
        assert(scan_lines(source@, path@, *normalize, 0, Seq::empty(), Seq::empty(), found_copy));
    }
    r
}

/// The bounds of the key of the assignment that the line `s[lo..hi]`
/// holds, when it holds one (the conditions of [`is_assignment_of`]).
pub open spec fn assignment_key_bounds(s: Seq<char>, lo: int, hi: int) -> Option<(int, int)> {
    match find_outside(s, '=', lo, hi, (false, false, false)) {
        None => None,
        Some(e) => {
            let a = ws_skip_fwd(s, lo, e);
            let b = ws_skip_back(s, a, e);
            let vs = ws_skip_fwd(s, e + 1, hi);
            let ve = ws_skip_back(s, lo, hi);
            if a >= b || !is_outside(quote_state_after(s, a, b, (false, false, false)))
                || utf8_len(s.subrange(lo, ve)) <= utf8_len(s.subrange(lo, vs)) {
                None
            } else {
                Some((a, b))
            }
        },
    }
}

pub proof fn lemma_key_bounds_range(s: Seq<char>, lo: int, hi: int)
    requires
        lo <= hi,
    ensures
        assignment_key_bounds(s, lo, hi) matches Some((a, b)) ==> lo <= a <= b <= hi,
{
    lemma_find_outside_bounds(s, '=', lo, hi, (false, false, false));
    if let Some(e) = find_outside(s, '=', lo, hi, (false, false, false)) {
        crate::text::lemma_ws_skip_bounds(s, lo, e);
        crate::text::lemma_ws_skip_bounds(s, ws_skip_fwd(s, lo, e), e);
    }
}

/// The line `s[lo..hi]` with the key of its assignment, if it holds one,
/// rid of control characters.
pub open spec fn normalized_line(s: Seq<char>, lo: int, hi: int) -> Seq<char> {
    match assignment_key_bounds(s, lo, hi) {
        Some((a, b)) => s.subrange(lo, a) + match_key(s.subrange(a, b)) + s.subrange(b, hi),
        None => s.subrange(lo, hi),
    }
}

/// The text `s` from line start `i` on, every assignment key rid of
/// control characters.
pub open spec fn normalized_from(s: Seq<char>, i: int) -> Seq<char>
    decreases s.len() - i,
{
    if i < 0 || i >= s.len() {
        Seq::empty()
    } else {
        proof {
            lemma_line_end(s, i);
        }
        let end = line_end(s, i);
        let body = line_body_end(s, i);
        normalized_line(s, i, body) + (if body < end { seq!['\n'] } else { Seq::empty() }) + normalized_from(s, end)
    }
}

/// The quoting state after `chars[lo..hi]`, read from outside any string.
fn quote_state_in(chars: &Vec<char>, lo: usize, hi: usize) -> (r: (bool, bool, bool))
    requires
        lo <= hi <= chars@.len(),
    ensures
        r == quote_state_after(chars@, lo as int, hi as int, (false, false, false)),
{
    let mut single = false;
    let mut double = false;
    let mut escape = false;
    let mut i = lo;
    while i < hi
        invariant
            lo <= i <= hi <= chars@.len(),
            !(single && double),
            !double ==> !escape,
            quote_state_after(chars@, i as int, hi as int, (single, double, escape))
                == quote_state_after(chars@, lo as int, hi as int, (false, false, false)),
        decreases hi - i,
    {
        let c = chars[i];
        if double {
            if escape {
                escape = false;
            } else if c == '\\' {
                escape = true;
            } else if c == '"' {
                double = false;
            }
        } else if single {
            if c == '\'' {
                single = false;
            }
        } else if c == '"' {
            double = true;
        } else if c == '\'' {
            single = true;
        }
        i = i + 1;
    }
    (single, double, escape)
}

/// The key bounds of the assignment that the line `chars[lo..hi]` holds.
fn assignment_key_bounds_in(chars: &Vec<char>, offsets: &Vec<usize>, lo: usize, hi: usize) -> (r: Option<(usize, usize)>)
    requires
        lo <= hi <= chars@.len(),
        are_offsets(offsets@, chars@),
    ensures
        r == (match assignment_key_bounds(chars@, lo as int, hi as int) {
            Some((a, b)) => Some((a as usize, b as usize)),
            None => None::<(usize, usize)>,
        }),
        r matches Some((a, b)) ==> lo <= a <= b <= hi,
{
    proof {
        lemma_find_outside_bounds(chars@, '=', lo as int, hi as int, (false, false, false));
    }
    let e = match find_char_outside_quotes_in(chars, lo, hi, '=') {
        Some(e) => e,
        None => {
            return None;
        },
    };
    let a = trim_start_in(chars, lo, e);
    let b = trim_end_in(chars, a, e);
    if a >= b {
        return None;
    }
    let (single, double, _) = quote_state_in(chars, a, b);
    if single || double {
        return None;
    }
    let vs = trim_start_in(chars, e + 1, hi);
    let ve = trim_end_in(chars, lo, hi);
    let value_start = span_bytes(chars, offsets, lo, vs);
    let value_end = span_bytes(chars, offsets, lo, ve);
    if value_end <= value_start {
        return None;
    }
    Some((a, b))
}

/// Appends `chars[lo..hi]` to `out`.
fn push_range(out: &mut String, chars: &Vec<char>, lo: usize, hi: usize)
    requires
        lo <= hi <= chars@.len(),
    ensures
        final(out)@ == old(out)@ + chars@.subrange(lo as int, hi as int),
{
    let mut i = lo;
    while i < hi
        invariant
            lo <= i <= hi <= chars@.len(),
            out@ == old(out)@ + chars@.subrange(lo as int, i as int),
        decreases hi - i,
    {
        push_char(out, chars[i]);
        i = i + 1;
        proof {
            assert(out@ =~= old(out)@ + chars@.subrange(lo as int, i as int));
        }
    }
}

/// Appends `chars[lo..hi]` rid of control characters to `out`.
fn push_match_key_range(out: &mut String, chars: &Vec<char>, lo: usize, hi: usize)
    requires
        lo <= hi <= chars@.len(),
    ensures
        final(out)@ == old(out)@ + match_key(chars@.subrange(lo as int, hi as int)),
{
    let mut i = lo;
    while i < hi
        invariant
            lo <= i <= hi <= chars@.len(),
            out@ == old(out)@ + match_key(chars@.subrange(lo as int, i as int)),
        decreases hi - i,
    {
        let c = chars[i];
        let v = c as u32;
        proof {
            assert(chars@.subrange(lo as int, i + 1).drop_last() =~= chars@.subrange(lo as int, i as int));
        }
        let ghost before = out@;
        if !(v <= 0x1f || (0x7f <= v && v <= 0x9f)) {
            push_char(out, c);
        }
        i = i + 1;
        proof {
            assert(out@ =~= old(out)@ + match_key(chars@.subrange(lo as int, i as int)));
        }
    }
}

/// The source with every assignment key rid of control characters, line
/// by line.
pub fn normalize_toml_source_keys(source: &str) -> (r: String)
    ensures
        r@ == normalized_from(source@, 0),
{
    let chars = chars_of(source);
    let byte_len = source.as_bytes().len();
    assert(utf8_len(chars@) == byte_len);
    let offsets = utf8_offsets(&chars);
    let ghost s = chars@;
    let mut out = String::new();
    let mut i: usize = 0;
    while i < chars.len()
        invariant
            s == chars@,
            are_offsets(offsets@, s),
            i <= s.len(),
            out@ + normalized_from(s, i as int) == normalized_from(s, 0),
        decreases s.len() - i,
    {
        proof {
            lemma_line_end(s, i as int);
        }
        let end = line_end_in(&chars, i);
        let body = if end > i && chars[end - 1] == '\n' { end - 1 } else { end };
        let ghost before = out@;
        proof {
            lemma_key_bounds_range(s, i as int, body as int);
        }
        match assignment_key_bounds_in(&chars, &offsets, i, body) {
            Some((a, b)) => {
                push_range(&mut out, &chars, i, a);
                push_match_key_range(&mut out, &chars, a, b);
                push_range(&mut out, &chars, b, body);
            },
            None => {
                push_range(&mut out, &chars, i, body);
            },
        }
        assert(out@ =~= before + normalized_line(s, i as int, body as int));
        if body < end {
            push_char(&mut out, '\n');
        }
        proof {
            assert(out@ + normalized_from(s, end as int) =~= before + normalized_from(s, i as int));
        }
        i = end;
    }
    proof {
        assert(out@ =~= out@ + normalized_from(s, i as int));
    }
    out
}

/// The spans of an assignment found by a scan stand at character positions
/// of the text.
pub proof fn lemma_scan_spans<N: Fn(&str) -> String>(
    s: Seq<char>,
    path: Seq<PathSeg>,
    f: N,
    i: int,
    ctx: Seq<GraphPathSeg>,
    counts: Seq<(String, usize)>,
    p: TomlAssignmentLine,
)
    requires
        scan_lines(s, path, f, i, ctx, counts, Some(p)),
        utf8_len(s) <= usize::MAX,
    ensures
        exists|a: int, b: int| 0 <= a <= b <= s.len() && #[trigger] utf8_len(s.take(a)) == p.key_span.0 && #[trigger] utf8_len(s.take(b)) == p.key_span.1,
        exists|a: int, b: int| 0 <= a <= b <= s.len() && #[trigger] utf8_len(s.take(a)) == p.value_span.0 && #[trigger] utf8_len(s.take(b)) == p.value_span.1,
    decreases s.len() - i,
{
    lemma_line_end(s, i);
    let end = line_end(s, i);
    let body = line_body_end(s, i);
    let a = ws_skip_fwd(s, i, body);
    let b = ws_skip_back(s, a, body);
    crate::text::lemma_ws_skip_bounds(s, i, body);
    if a >= b || s[a] == '#' {
        lemma_scan_spans(s, path, f, end, ctx, counts, p);
    } else if exists|h: (bool, Vec<String>)| is_header_of(Some(h), s, a, b, f) {
        let (h, next_ctx, next_counts) = choose|h: (bool, Vec<String>), next_ctx: Seq<GraphPathSeg>, next_counts: Seq<(String, usize)>|
            is_header_of(Some(h), s, a, b, f) && header_context_effect(ctx, h.1@, h.0, counts, next_counts, next_ctx)
                && scan_lines(s, path, f, end, next_ctx, next_counts, Some(p));
        lemma_scan_spans(s, path, f, end, next_ctx, next_counts, p);
    } else {
        let q = choose|q: Option<TomlAssignmentLine>| is_assignment_of(q, s, i, body, utf8_len(s.take(i)) as int, f) && match q {
            Some(pair) => if path_matches(path, seg_views(ctx) + key_views(pair.key_parts@)) {
                Some(p) == Some(pair)
            } else {
                scan_lines(s, path, f, end, ctx, counts, Some(p))
            },
            None => scan_lines(s, path, f, end, ctx, counts, Some(p)),
        };
        match q {
            Some(pair) => {
                if path_matches(path, seg_views(ctx) + key_views(pair.key_parts@)) {
                    let e = find_outside(s, '=', i, body, (false, false, false))->Some_0;
                    lemma_find_outside_bounds(s, '=', i, body, (false, false, false));
                    let ka = ws_skip_fwd(s, i, e);
                    crate::text::lemma_ws_skip_bounds(s, i, e);
                    let kb = ws_skip_back(s, ka, e);
                    crate::text::lemma_ws_skip_bounds(s, ka, e);
                    let vs = ws_skip_fwd(s, e + 1, body);
                    crate::text::lemma_ws_skip_bounds(s, e + 1, body);
                    let ve = ws_skip_back(s, i, body);
                    crate::text::lemma_ws_skip_bounds(s, i, body);
                    lemma_utf8_len_split(s, i, ka);
                    lemma_utf8_len_split(s, i, kb);
                    lemma_utf8_len_split(s, i, vs);
                    lemma_utf8_len_split(s, i, ve);
                    lemma_utf8_len_take(s, ka);
                    lemma_utf8_len_take(s, kb);
                    lemma_utf8_len_take(s, vs);
                    lemma_utf8_len_take(s, ve);
                    assert(utf8_len(s.take(ka)) == p.key_span.0 && utf8_len(s.take(kb)) == p.key_span.1);
                    if ve <= vs {
                        lemma_utf8_len_mono(s, i, ve, vs);
                    }
                    assert(vs <= ve);
                    assert(utf8_len(s.take(vs)) == p.value_span.0 && utf8_len(s.take(ve)) == p.value_span.1);
                } else {
                    lemma_scan_spans(s, path, f, end, ctx, counts, p);
                }
            },
            None => {
                lemma_scan_spans(s, path, f, end, ctx, counts, p);
            },
        }
    }
}

/// The text that a missing target is written with: the path's last key as
/// TOML writes keys, or the replacement value.
pub open spec fn missing_target_text(path: Seq<PathSeg>, prefer_key: bool, replacement: Seq<char>) -> Option<Seq<char>> {
    if prefer_key {
        if path.len() == 0 {
            None
        } else {
            let key = path.last().key;
            Some(if is_bare_key_bytes(key.spec_bytes()) { key@ } else { json_quoted(key@) })
        }
    } else {
        Some(replacement)
    }
}

/// `r` rewrites the whole source as `ns` with `[ka, kb)` replaced by
/// `text`, measured in bytes.
pub open spec fn is_whole_source_edit(r: Option<DocumentTextEdit>, source: Seq<char>, ns: Seq<char>, ka: int, kb: int, text: Seq<char>) -> bool {
    let new_text = ns.take(ka) + text + ns.skip(kb);
    if utf8_len(source) > u32::MAX || utf8_len(new_text) > u32::MAX {
        r is None
    } else {
        r matches Some(edit) && edit.start_byte == 0 && edit.old_end_byte == utf8_len(source)
            && edit.new_end_byte == utf8_len(new_text) && edit.replacement@ == new_text
    }
}

/// `r` writes the missing target of assignment `p` of the normalized
/// source `ns` with the key or value text, as one edit of the whole source.
pub open spec fn is_missing_target_edit(
    r: Option<DocumentTextEdit>,
    source: Seq<char>,
    ns: Seq<char>,
    p: TomlAssignmentLine,
    prefer_key: bool,
    text: Seq<char>,
) -> bool {
    let span = if prefer_key { p.key_span } else { p.value_span };
    exists|ka: int, kb: int| 0 <= ka <= kb <= ns.len() && utf8_len(ns.take(ka)) == span.0
        && utf8_len(ns.take(kb)) == span.1 && #[trigger] is_whole_source_edit(r, source, ns, ka, kb, text)
}

/// The character position whose byte offset is `target`.
fn offset_position(offsets: &Vec<usize>, target: usize) -> (r: Option<usize>)
    ensures
        r matches Some(k) ==> k < offsets@.len() && offsets@[k as int] == target,
        r is None ==> forall|k: int| 0 <= k < offsets@.len() ==> offsets@[k] != target,
{
    let mut k: usize = 0;
    while k < offsets.len()
        invariant
            k <= offsets@.len(),
            forall|j: int| 0 <= j < k ==> offsets@[j] != target,
        decreases offsets@.len() - k,
    {
        if offsets[k] == target {
            return Some(k);
        }
        k = k + 1;
    }
    None
}

/// The edit that writes a target the document lacks a node for: the
/// source, its assignment keys normalized, with the addressed key or value
/// of the path's assignment line rewritten, as one edit of the whole text.
pub fn build_toml_missing_target_edit<N: Fn(&str) -> String>(
    source: &str,
    path: &[PathSeg],
    prefer_key: bool,
    replacement: &str,
    normalize: &N,
) -> (r: Option<DocumentTextEdit>)
    requires
        forall|a: &str| call_requires(*normalize, (a,)),
    ensures
        exists|found: Option<TomlAssignmentLine>| scan_lines(normalized_from(source@, 0), path@, *normalize, 0, Seq::empty(), Seq::empty(), found)
            && match found {
                None => r is None,
                Some(p) => match missing_target_text(path@, prefer_key, replacement@) {
                    None => r is None,
                    Some(text) => is_missing_target_edit(r, source@, normalized_from(source@, 0), p, prefer_key, text),
                },
            },
{
    let normalized = normalize_toml_source_keys(source);
    let found = find_toml_assignment_line(normalized.as_str(), path, normalize);
    let ghost found_copy = found;
    let ghost ns = normalized@;
    let assignment = match found {
        Some(a) => a,
        None => {
            return None;
        },
    };
    let (start, end) = if prefer_key { assignment.key_span } else { assignment.value_span };
    let text: String = if prefer_key {
        if path.len() == 0 {
            return None;
        }
        format_toml_key(path[path.len() - 1].key)
    } else {
        replacement.to_owned()
    };
    let chars = chars_of(normalized.as_str());
    let byte_len = normalized.as_str().as_bytes().len();
    assert(utf8_len(chars@) == byte_len);
    let offsets = utf8_offsets(&chars);
    proof {
        lemma_scan_spans(ns, path@, *normalize, 0, Seq::empty(), Seq::empty(), assignment);
    }
    let ka = match offset_position(&offsets, start) {
        Some(k) => k,
        None => {
            proof {
                let (a, b) = choose|a: int, b: int| 0 <= a <= b <= ns.len() && #[trigger] utf8_len(ns.take(a)) == start
                    && #[trigger] utf8_len(ns.take(b)) == end;
                assert(offsets@[a] == utf8_len(ns.take(a)));
            }
            return None;
        },
    };
    let kb = match offset_position(&offsets, end) {
        Some(k) => k,
        None => {
            proof {
                let (a, b) = choose|a: int, b: int| 0 <= a <= b <= ns.len() && #[trigger] utf8_len(ns.take(a)) == start
                    && #[trigger] utf8_len(ns.take(b)) == end;
                assert(offsets@[b] == utf8_len(ns.take(b)));
            }
            return None;
        },
    };
    proof {
        let (a, b) = choose|a: int, b: int| 0 <= a <= b <= ns.len() && #[trigger] utf8_len(ns.take(a)) == start
            && #[trigger] utf8_len(ns.take(b)) == end;
        assert(offsets@[ka as int] == utf8_len(chars@.take(ka as int)));
        assert(offsets@[kb as int] == utf8_len(chars@.take(kb as int)));
        if (ka as int) < a {
            crate::text::lemma_utf8_len_strict(ns, ka as int, a);
        } else if a < (ka as int) {
            crate::text::lemma_utf8_len_strict(ns, a, ka as int);
        }
        if (kb as int) < b {
            crate::text::lemma_utf8_len_strict(ns, kb as int, b);
        } else if b < (kb as int) {
            crate::text::lemma_utf8_len_strict(ns, b, kb as int);
        }
        assert(ka as int == a && kb as int == b);
    }
    let mut out = String::new();
    push_range(&mut out, &chars, 0, ka);
    push_str(&mut out, text.as_str());
    push_range(&mut out, &chars, kb, chars.len());
    proof {
        assert(out@ =~= ns.take(ka as int) + text@ + ns.skip(kb as int));
    }
    let ghost text_view = text@;
    let ghost new_text = out@;
    let source_len = source.as_bytes().len();
    let new_len = out.as_str().as_bytes().len();
    let result = if source_len > 0xffff_ffff || new_len > 0xffff_ffff {
        None
    } else {
        Some(DocumentTextEdit { start_byte: 0, old_end_byte: source_len as u32, new_end_byte: new_len as u32, replacement: out })
    };
    proof {
        assert(found_copy == Some(assignment));
        assert(missing_target_text(path@, prefer_key, replacement@) == Some(text_view));
        assert(is_whole_source_edit(result, source@, ns, ka as int, kb as int, text_view));
        assert(is_missing_target_edit(result, source@, ns, assignment, prefer_key, text_view));
    }
    result
}


/// How a boolean node's text reads: `true` for `true`, `yes` or `y`,
/// `false` for `false`, `no` or `n` (in any case of ASCII letters, around
/// white space); the JSON string literal of the text otherwise.
pub open spec fn toml_bool_text(value: Seq<char>) -> Seq<char> {
    let w = crate::text::ascii_lowercase(crate::text::trimmed(value));
    if w == "true"@ || w == "yes"@ || w == "y"@ {
        "true"@
    } else if w == "false"@ || w == "no"@ || w == "n"@ {
        "false"@
    } else {
        json_quoted(value)
    }
}

/// A string written for a boolean node becomes the boolean it names: one
/// whose trimmed, ASCII-lowercased text is `true`, `yes` or `y` is written
/// `true`, and one that is `false`, `no` or `n` is written `false`.
pub proof fn law_toml_boolean_words(value: Seq<char>)
    ensures
        ({
            let w = crate::text::ascii_lowercase(crate::text::trimmed(value));
            (w == "true"@ || w == "yes"@ || w == "y"@) ==> toml_bool_text(value) == "true"@
        }),
        ({
            let w = crate::text::ascii_lowercase(crate::text::trimmed(value));
            (w == "false"@ || w == "no"@ || w == "n"@) ==> toml_bool_text(value) == "false"@
        }),
{
    reveal_strlit("true");
    reveal_strlit("yes");
    reveal_strlit("y");
    reveal_strlit("false");
    reveal_strlit("no");
    reveal_strlit("n");
    let w = crate::text::ascii_lowercase(crate::text::trimmed(value));
    if w == "false"@ || w == "no"@ || w == "n"@ {
        assert(w.len() == 5 || w.len() == 2 || (w.len() == 1 && w[0] == 'n'));
        assert(w != "true"@);
        assert(w != "yes"@);
        if w == "y"@ {
            assert(w[0] == 'y');
        }
    }
}

/// An integer node keeps an integer written as its decimal text, with or
/// without a sign: the text reads back as that integer, and is written as
/// the same text.
pub proof fn law_toml_integer_text_kept(n: i64)
    ensures
        crate::text::parsed_i64(crate::text::trimmed(crate::text::int_decimal(n as int))) == Some(n as int),
{
    crate::text::lemma_int_decimal_parses(n);
}

/// A string value written for a node of the given semantic type: an
/// integer node takes the integer that the trimmed text reads as (none
/// where it reads as none), a float node what `float_display` gives for the
/// trimmed text, a boolean node `true` or `false` where the text reads as
/// one, and anything else the JSON string literal of the text.
pub fn format_toml_string_for_target<F: Fn(&str) -> Option<String>>(
    value: &str,
    target_sem: Option<SemType>,
    float_display: &F,
) -> (r: Option<String>)
    requires
        forall|s: &str| call_requires(*float_display, (s,)),
    ensures
        match target_sem {
            Some(SemType::Int) => opt_text(r) == match crate::text::parsed_i64(crate::text::trimmed(value@)) {
                Some(n) => Some(crate::text::int_decimal(n)),
                None => None::<Seq<char>>,
            },
            Some(SemType::Float) => exists|s: &str|
                s@ == crate::text::trimmed(value@) && call_ensures(*float_display, (s,), r),
            Some(SemType::Boolean) => opt_text(r) == Some(toml_bool_text(value@)),
            _ => opt_text(r) == Some(json_quoted(value@)),
        },
{
    match target_sem {
        Some(SemType::Int) => {
            let t = crate::text::trim_chars(&chars_of(value));
            match crate::text::parse_i64_chars(&t) {
                Some(n) => Some(crate::text::i64_to_decimal(n)),
                None => None,
            }
        },
        Some(SemType::Float) => {
            let t = crate::text::trim_chars(&chars_of(value));
            let mut text = String::new();
            let mut i: usize = 0;
            while i < t.len()
                invariant
                    i <= t@.len(),
                    text@ == t@.take(i as int),
                decreases t@.len() - i,
            {
                push_char(&mut text, t[i]);
                i = i + 1;
                proof {
                    assert(text@ =~= t@.take(i as int));
                }
            }
            proof {
                assert(t@.take(t@.len() as int) =~= t@);
            }
            float_display(text.as_str())
        },
        Some(SemType::Boolean) => {
            let t = crate::text::trim_chars(&chars_of(value));
            if crate::text::lowercase_is(&t, "true") || crate::text::lowercase_is(&t, "yes")
                || crate::text::lowercase_is(&t, "y") {
                Some("true".to_owned())
            } else if crate::text::lowercase_is(&t, "false") || crate::text::lowercase_is(&t, "no")
                || crate::text::lowercase_is(&t, "n") {
                Some("false".to_owned())
            } else {
                Some(quote_json_string(value))
            }
        },
        _ => Some(quote_json_string(value)),
    }
}

/// A value written for a TOML node of the given semantic type: booleans
/// and numbers as they are, strings by the node's type; null, lists and
/// maps have no scalar text.
pub fn format_toml_value<F: Fn(&str) -> Option<String>>(
    value: &JsonValue,
    target_sem: Option<SemType>,
    float_display: &F,
) -> (r: Option<String>)
    requires
        forall|s: &str| call_requires(*float_display, (s,)),
    ensures
        match json_model(*value) {
            JsonModel::Bool(b) => opt_text(r) == Some(if b {
                "true"@
            } else {
                "false"@
            }),
            JsonModel::Number(t) => opt_text(r) == Some(t),
            JsonModel::String(_) => match value {
                JsonValue::String(s) => match target_sem {
                    Some(SemType::Int) => opt_text(r) == match crate::text::parsed_i64(
                        crate::text::trimmed(s@),
                    ) {
                        Some(n) => Some(crate::text::int_decimal(n)),
                        None => None::<Seq<char>>,
                    },
                    Some(SemType::Float) => exists|f: &str|
                        f@ == crate::text::trimmed(s@) && call_ensures(*float_display, (f,), r),
                    Some(SemType::Boolean) => opt_text(r) == Some(toml_bool_text(s@)),
                    _ => opt_text(r) == Some(json_quoted(s@)),
                },
                _ => false,
            },
            _ => r is None,
        },
{
    match value {
        JsonValue::Bool(b) => Some(if *b {
            "true".to_owned()
        } else {
            "false".to_owned()
        }),
        JsonValue::Number(t) => Some(t.clone()),
        JsonValue::String(s) => format_toml_string_for_target(s.as_str(), target_sem, float_display),
        _ => None,
    }
}

} // verus!