//! JSON values as edit requests carry them, and their compact JSON text.
use vstd::prelude::*;
use crate::text::push_str;
use super::{json_quoted, quote_json_string};

verus! {

/// A JSON value. A number holds its text as JSON writes it; an object holds
/// its entries in order.
#[derive(Debug, PartialEq)]
pub enum JsonValue {
    Null,
    Bool(bool),
    Number(String),
    String(String),
    Array(Vec<JsonValue>),
    Object(Vec<(String, JsonValue)>),
}

/// What a JSON value is: its strings and numbers as character sequences.
pub enum JsonModel {
    Null,
    Bool(bool),
    Number(Seq<char>),
    String(Seq<char>),
    Array(Seq<JsonModel>),
    Object(Seq<(Seq<char>, JsonModel)>),
}

/// The model of a value.
pub open spec fn json_model(v: JsonValue) -> JsonModel
    decreases v, 1int,
{
    match v {
        JsonValue::Null => JsonModel::Null,
        JsonValue::Bool(b) => JsonModel::Bool(b),
        JsonValue::Number(t) => JsonModel::Number(t@),
        JsonValue::String(s) => JsonModel::String(s@),
        JsonValue::Array(items) => JsonModel::Array(json_models(items@)),
        JsonValue::Object(entries) => JsonModel::Object(json_entry_models(entries@)),
    }
}

/// The models of the items of an array.
pub open spec fn json_models(s: Seq<JsonValue>) -> Seq<JsonModel>
    decreases s, 0int,
{
    if s.len() == 0 {
        Seq::empty()
    } else {
        json_models(s.drop_last()).push(json_model(s.last()))
    }
}

/// The models of the entries of an object.
pub open spec fn json_entry_models(s: Seq<(String, JsonValue)>) -> Seq<(Seq<char>, JsonModel)>
    decreases s, 0int,
{
    if s.len() == 0 {
        Seq::empty()
    } else {
        json_entry_models(s.drop_last()).push((s.last().0@, json_model(s.last().1)))
    }
}

/// The models of a list have its length, item by item.
pub proof fn lemma_json_models(s: Seq<JsonValue>)
    ensures
        json_models(s).len() == s.len(),
        forall|i: int| 0 <= i < s.len() ==> #[trigger] json_models(s)[i] == json_model(s[i]),
    decreases s.len(),
{
    if s.len() > 0 {
        lemma_json_models(s.drop_last());
    }
}

/// The models of an object's entries have its length, entry by entry.
pub proof fn lemma_json_entry_models(s: Seq<(String, JsonValue)>)
    ensures
        json_entry_models(s).len() == s.len(),
        forall|i: int|
            0 <= i < s.len() ==> #[trigger] json_entry_models(s)[i] == (s[i].0@, json_model(s[i].1)),
    decreases s.len(),
{
    if s.len() > 0 {
        lemma_json_entry_models(s.drop_last());
    }
}

/// `parts` written one after another with `sep` between neighbours.
pub open spec fn joined(parts: Seq<Seq<char>>, sep: Seq<char>) -> Seq<char>
    decreases parts.len(),
{
    if parts.len() == 0 {
        Seq::empty()
    } else if parts.len() == 1 {
        parts[0]
    } else {
        joined(parts.drop_last(), sep) + sep + parts.last()
    }
}

/// Appending a part to a joined list appends the separator (where there was
/// a part before) and the part.
pub proof fn lemma_joined_push(parts: Seq<Seq<char>>, sep: Seq<char>, p: Seq<char>)
    ensures
        joined(parts.push(p), sep) == (if parts.len() == 0 {
            p
        } else {
            joined(parts, sep) + sep + p
        }),
{
    assert(parts.push(p).drop_last() =~= parts);
    if parts.len() == 0 {
        assert(parts.push(p)[0] == p);
    }
}

/// The compact JSON text of a value: no whitespace, `,` between items and
/// entries, `:` between a key and its value.
pub open spec fn json_text(v: JsonModel) -> Seq<char>
    decreases v, 1int,
{
    match v {
        JsonModel::Null => "null"@,
        JsonModel::Bool(b) => if b {
            "true"@
        } else {
            "false"@
        },
        JsonModel::Number(t) => t,
        JsonModel::String(s) => json_quoted(s),
        JsonModel::Array(items) => "["@ + joined(json_item_texts(items), ","@) + "]"@,
        JsonModel::Object(entries) => "{"@ + joined(json_entry_texts(entries), ","@) + "}"@,
    }
}

/// The JSON texts of the items of an array.
pub open spec fn json_item_texts(s: Seq<JsonModel>) -> Seq<Seq<char>>
    decreases s, 0int,
{
    if s.len() == 0 {
        Seq::empty()
    } else {
        json_item_texts(s.drop_last()).push(json_text(s.last()))
    }
}

/// The JSON texts of the entries of an object, `"key":value`.
pub open spec fn json_entry_texts(s: Seq<(Seq<char>, JsonModel)>) -> Seq<Seq<char>>
    decreases s, 0int,
{
    if s.len() == 0 {
        Seq::empty()
    } else {
        json_entry_texts(s.drop_last()).push(json_quoted(s.last().0) + ":"@ + json_text(s.last().1))
    }
}

/// An item of an array is smaller than the array.
pub proof fn lemma_item_decreases(v: JsonValue, i: int)
    requires
        v is Array,
        0 <= i < v->Array_0@.len(),
    ensures
        decreases_to!(v => v->Array_0@[i]),
{
    assert(decreases_to!(v => v->Array_0));
    assert(decreases_to!(v->Array_0 => v->Array_0@));
    assert(decreases_to!(v->Array_0@ => v->Array_0@[i]));
}

/// The value of an object's entry is smaller than the object.
pub proof fn lemma_entry_decreases(v: JsonValue, i: int)
    requires
        v is Object,
        0 <= i < v->Object_0@.len(),
    ensures
        decreases_to!(v => v->Object_0@[i].1),
{
    assert(decreases_to!(v => v->Object_0));
    assert(decreases_to!(v->Object_0 => v->Object_0@));
    assert(decreases_to!(v->Object_0@ => v->Object_0@[i]));
    assert(decreases_to!(v->Object_0@[i] => v->Object_0@[i].1));
}

impl Clone for JsonValue {
    fn clone(&self) -> (r: Self)
        ensures
            json_model(r) == json_model(*self),
        decreases self,
    {
        match self {
            JsonValue::Null => JsonValue::Null,
            JsonValue::Bool(b) => JsonValue::Bool(*b),
            JsonValue::Number(t) => JsonValue::Number(t.clone()),
            JsonValue::String(s) => JsonValue::String(s.clone()),
            JsonValue::Array(items) => {
                let mut out: Vec<JsonValue> = Vec::new();
                let mut i: usize = 0;
                while i < items.len()
                    invariant
                        i <= items.len(),
                        *self == JsonValue::Array(*items),
                        json_models(out@) == json_models(items@.take(i as int)),
                    decreases items.len() - i,
                {
                    proof {
                        lemma_item_decreases(*self, i as int);
                    }
                    let c = items[i].clone();
                    proof {
                        assert(out@.push(c).drop_last() =~= out@);
                        assert(items@.take(i + 1).drop_last() =~= items@.take(i as int));
                    }
                    out.push(c);
                    i = i + 1;
                }
                proof {
                    assert(items@.take(items@.len() as int) =~= items@);
                }
                JsonValue::Array(out)
            },
            JsonValue::Object(entries) => {
                let mut out: Vec<(String, JsonValue)> = Vec::new();
                let mut i: usize = 0;
                while i < entries.len()
                    invariant
                        i <= entries.len(),
                        *self == JsonValue::Object(*entries),
                        json_entry_models(out@) == json_entry_models(entries@.take(i as int)),
                    decreases entries.len() - i,
                {
                    let k = entries[i].0.clone();
                    proof {
                        lemma_entry_decreases(*self, i as int);
                    }
                    let c = entries[i].1.clone();
                    proof {
                        assert(out@.push((k, c)).drop_last() =~= out@);
                        assert(entries@.take(i + 1).drop_last() =~= entries@.take(i as int));
                    }
                    out.push((k, c));
                    i = i + 1;
                }
                proof {
                    assert(entries@.take(entries@.len() as int) =~= entries@);
                }
                JsonValue::Object(out)
            },
        }
    }
}

impl JsonValue {
    /// The compact JSON text of the value.
    pub fn to_string(&self) -> (r: String)
        ensures
            r@ == json_text(json_model(*self)),
        decreases self,
    {
        match self {
            JsonValue::Null => "null".to_owned(),
            JsonValue::Bool(b) => if *b {
                "true".to_owned()
            } else {
                "false".to_owned()
            },
            JsonValue::Number(t) => t.clone(),
            JsonValue::String(s) => quote_json_string(s.as_str()),
            JsonValue::Array(items) => {
                let mut out = "[".to_owned();
                let mut i: usize = 0;
                while i < items.len()
                    invariant
                        i <= items.len(),
                        *self == JsonValue::Array(*items),
                        out@ == "["@ + joined(json_item_texts(json_models(items@.take(i as int))), ","@),
                    decreases items.len() - i,
                {
                    proof {
                        lemma_item_decreases(*self, i as int);
                    }
                    let part = items[i].to_string();
                    proof {
                        assert(items@.take(i + 1).drop_last() =~= items@.take(i as int));
                        let m = json_models(items@.take(i as int));
                        assert(json_models(items@.take(i + 1)).drop_last() =~= m);
                        lemma_joined_push(json_item_texts(m), ","@, part@);
                    }
                    if i > 0 {
                        push_str(&mut out, ",");
                    }
                    push_str(&mut out, part.as_str());
                    i = i + 1;
                }
                push_str(&mut out, "]");
                proof {
                    assert(items@.take(items@.len() as int) =~= items@);
                }
                out
            },
            JsonValue::Object(entries) => {
                let mut out = "{".to_owned();
                let mut i: usize = 0;
                while i < entries.len()
                    invariant
                        i <= entries.len(),
                        *self == JsonValue::Object(*entries),
                        out@ == "{"@ + joined(json_entry_texts(json_entry_models(entries@.take(i as int))), ","@),
                    decreases entries.len() - i,
                {
                    let key = quote_json_string(entries[i].0.as_str());
                    proof {
                        lemma_entry_decreases(*self, i as int);
                    }
                    let value = entries[i].1.to_string();
                    proof {
                        assert(entries@.take(i + 1).drop_last() =~= entries@.take(i as int));
                        let m = json_entry_models(entries@.take(i as int));
                        assert(json_entry_models(entries@.take(i + 1)).drop_last() =~= m);
                        lemma_joined_push(
                            json_entry_texts(m),
                            ","@,
                            key@ + ":"@ + value@,
                        );
                    }
                    if i > 0 {
                        push_str(&mut out, ",");
                    }
                    push_str(&mut out, key.as_str());
                    push_str(&mut out, ":");
                    push_str(&mut out, value.as_str());
                    i = i + 1;
                }
                push_str(&mut out, "}");
                proof {
                    assert(entries@.take(entries@.len() as int) =~= entries@);
                }
                out
            },
        }
    }
}

} // verus!
