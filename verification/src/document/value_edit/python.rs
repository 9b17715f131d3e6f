//! Python rules for writing keys and values.
use vstd::prelude::*;
use crate::text::{chars_of, contains_char, flat_map_chars, has_char, lemma_flat_map_chars_step, push_char, push_str};
use super::{json_quoted, quote_json_string};
use super::json::{
    joined, json_entry_models, json_model, json_models, lemma_entry_decreases, lemma_item_decreases,
    lemma_joined_push, JsonModel, JsonValue,
};

verus! {

/// How a character is written inside a single-quoted Python string.
pub open spec fn python_escape_char(c: char) -> Seq<char> {
    if c == '\\' {
        seq!['\\', '\\']
    } else if c == '\'' {
        seq!['\\', '\'']
    } else if c == '\n' {
        seq!['\\', 'n']
    } else if c == '\r' {
        seq!['\\', 'r']
    } else if c == '\t' {
        seq!['\\', 't']
    } else {
        seq![c]
    }
}

/// The single-quoted Python string literal of `s`.
pub open spec fn python_quoted(s: Seq<char>) -> Seq<char> {
    seq!['\''] + flat_map_chars(s, |c: char| python_escape_char(c)) + seq!['\'']
}

/// The single-quoted Python string literal of `value`.
pub fn quote_python_string(value: &str) -> (r: String)
    ensures
        r@ == python_quoted(value@),
{
    let chars = chars_of(value);
    let mut out = String::new();
    push_char(&mut out, '\'');
    let mut i: usize = 0;
    while i < chars.len()
        invariant
            chars@ == value@,
            i <= chars@.len(),
            out@ == seq!['\''] + flat_map_chars(chars@.take(i as int), |c: char| python_escape_char(c)),
        decreases chars@.len() - i,
    {
        let c = chars[i];
        proof {
            lemma_flat_map_chars_step(chars@, |c: char| python_escape_char(c), i as int);
        }
        if c == '\\' {
            push_str(&mut out, "\\\\");
            proof { reveal_strlit("\\\\"); }
        } else if c == '\'' {
            push_str(&mut out, "\\'");
            proof { reveal_strlit("\\'"); }
        } else if c == '\n' {
            push_str(&mut out, "\\n");
            proof { reveal_strlit("\\n"); }
        } else if c == '\r' {
            push_str(&mut out, "\\r");
            proof { reveal_strlit("\\r"); }
        } else if c == '\t' {
            push_str(&mut out, "\\t");
            proof { reveal_strlit("\\t"); }
        } else {
            push_char(&mut out, c);
        }
        i = i + 1;
        proof {
            assert(out@ =~= seq!['\''] + flat_map_chars(chars@.take(i as int), |c: char| python_escape_char(c)));
        }
    }
    push_char(&mut out, '\'');
    proof {
        assert(chars@.take(chars@.len() as int) =~= chars@);
    }
    out
}

/// A key as a Python string literal: JSON-quoted when it holds a quote or
/// a backslash, single-quoted otherwise.
pub open spec fn python_key(s: Seq<char>) -> Seq<char> {
    if has_char(s, '\'') || has_char(s, '\\') {
        json_quoted(s)
    } else {
        python_quoted(s)
    }
}

/// A key written as a Python string literal.
pub fn format_python_key(value: &str) -> (r: String)
    ensures
        r@ == python_key(value@),
{
    let chars = chars_of(value);
    if contains_char(&chars, '\'') || contains_char(&chars, '\\') {
        return quote_json_string(value);
    }
    quote_python_string(value)
}


/// A value written as a Python literal: `None`, `True`, `False`, numbers as
/// they are, strings single-quoted, lists and dicts with `, ` between items
/// and `: ` between a key and its value.
pub open spec fn python_text(v: JsonModel) -> Seq<char>
    decreases v, 1int,
{
    match v {
        JsonModel::Null => "None"@,
        JsonModel::Bool(b) => if b {
            "True"@
        } else {
            "False"@
        },
        JsonModel::Number(t) => t,
        JsonModel::String(s) => python_quoted(s),
        JsonModel::Array(items) => "["@ + joined(python_item_texts(items), ", "@) + "]"@,
        JsonModel::Object(entries) => "{"@ + joined(python_entry_texts(entries), ", "@) + "}"@,
    }
}

/// The Python texts of the items of a list.
pub open spec fn python_item_texts(s: Seq<JsonModel>) -> Seq<Seq<char>>
    decreases s, 0int,
{
    if s.len() == 0 {
        Seq::empty()
    } else {
        python_item_texts(s.drop_last()).push(python_text(s.last()))
    }
}

/// The Python texts of the entries of a dict, `'key': value`.
pub open spec fn python_entry_texts(s: Seq<(Seq<char>, JsonModel)>) -> Seq<Seq<char>>
    decreases s, 0int,
{
    if s.len() == 0 {
        Seq::empty()
    } else {
        python_entry_texts(s.drop_last()).push(
            python_quoted(s.last().0) + ": "@ + python_text(s.last().1),
        )
    }
}

/// A value written as a Python literal.
pub fn format_python_value(value: &JsonValue) -> (r: String)
    ensures
        r@ == python_text(json_model(*value)),
    decreases value,
{
    match value {
        JsonValue::Null => "None".to_owned(),
        JsonValue::Bool(b) => if *b {
            "True".to_owned()
        } else {
            "False".to_owned()
        },
        JsonValue::Number(t) => t.clone(),
        JsonValue::String(s) => quote_python_string(s.as_str()),
        JsonValue::Array(items) => {
            let mut out = "[".to_owned();
            let mut i: usize = 0;
            while i < items.len()
                invariant
                    i <= items.len(),
                    *value == JsonValue::Array(*items),
                    out@ == "["@ + joined(python_item_texts(json_models(items@.take(i as int))), ", "@),
                decreases items.len() - i,
            {
                proof {
                    lemma_item_decreases(*value, i as int);
                }
                let part = format_python_value(&items[i]);
                proof {
                    assert(items@.take(i + 1).drop_last() =~= items@.take(i as int));
                    let m = json_models(items@.take(i as int));
                    assert(json_models(items@.take(i + 1)).drop_last() =~= m);
                    lemma_joined_push(python_item_texts(m), ", "@, part@);
                }
                if i > 0 {
                    push_str(&mut out, ", ");
                }
                push_str(&mut out, part.as_str());
                i = i + 1;
            }
            push_str(&mut out, "]");
            proof {
                assert(items@.take(items@.len() as int) =~= items@);
            }
            out
        },
        JsonValue::Object(entries) => {
            let mut out = "{".to_owned();
            let mut i: usize = 0;
            while i < entries.len()
                invariant
                    i <= entries.len(),
                    *value == JsonValue::Object(*entries),
                    out@ == "{"@ + joined(python_entry_texts(json_entry_models(entries@.take(i as int))), ", "@),
                decreases entries.len() - i,
            {
                proof {
                    lemma_entry_decreases(*value, i as int);
                }
                let key = quote_python_string(entries[i].0.as_str());
                let item = format_python_value(&entries[i].1);
                proof {
                    assert(entries@.take(i + 1).drop_last() =~= entries@.take(i as int));
                    let m = json_entry_models(entries@.take(i as int));
                    assert(json_entry_models(entries@.take(i + 1)).drop_last() =~= m);
                    lemma_joined_push(python_entry_texts(m), ", "@, key@ + ": "@ + item@);
                }
                if i > 0 {
                    push_str(&mut out, ", ");
                }
                push_str(&mut out, key.as_str());
                push_str(&mut out, ": ");
                push_str(&mut out, item.as_str());
                i = i + 1;
            }
            push_str(&mut out, "}");
            proof {
                assert(entries@.take(entries@.len() as int) =~= entries@);
            }
            out
        },
    }
}

} // verus!
