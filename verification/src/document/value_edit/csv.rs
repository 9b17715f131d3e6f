//! CSV rules for writing fields.
use vstd::prelude::*;
use crate::text::{chars_of, contains_char, flat_map_chars, has_char, lemma_flat_map_chars_step, push_char, push_str};

verus! {

/// How a character is written inside a quoted CSV field.
pub open spec fn csv_escape_char(c: char) -> Seq<char> {
    if c == '"' {
        seq!['"', '"']
    } else {
        seq![c]
    }
}

/// A field as written in CSV: as it is unless it holds a comma, a quote or
/// a line break, and then quoted with its quotes doubled.
pub open spec fn csv_field(s: Seq<char>) -> Seq<char> {
    if !(has_char(s, ',') || has_char(s, '"') || has_char(s, '\n') || has_char(s, '\r')) {
        s
    } else {
        seq!['"'] + flat_map_chars(s, |c: char| csv_escape_char(c)) + seq!['"']
    }
}

/// A value written as a CSV field.
pub fn format_csv_field(value: &str) -> (r: String)
    ensures
        r@ == csv_field(value@),
{
    let chars = chars_of(value);
    if !(contains_char(&chars, ',') || contains_char(&chars, '"') || contains_char(&chars, '\n') || contains_char(&chars, '\r')) {
        return value.to_owned();
    }
    let mut out = String::new();
    push_char(&mut out, '"');
    let mut i: usize = 0;
    while i < chars.len()
        invariant
            chars@ == value@,
            i <= chars@.len(),
            out@ == seq!['"'] + flat_map_chars(chars@.take(i as int), |c: char| csv_escape_char(c)),
        decreases chars@.len() - i,
    {
        let c = chars[i];
        proof {
            lemma_flat_map_chars_step(chars@, |c: char| csv_escape_char(c), i as int);
        }
        if c == '"' {
            push_char(&mut out, '"');
        }
        push_char(&mut out, c);
        i = i + 1;
        proof {
            assert(out@ =~= seq!['"'] + flat_map_chars(chars@.take(i as int), |c: char| csv_escape_char(c)));
        }
    }
    push_char(&mut out, '"');
    proof {
        assert(chars@.take(chars@.len() as int) =~= chars@);
    }
    out
}

} // verus!
