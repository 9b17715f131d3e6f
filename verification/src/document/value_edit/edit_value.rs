//! Edit values as requests carry them: plain JSON, or the tree form
//! `{kind, children, value, semType}` that a decoded document node takes.
use vstd::prelude::*;
use crate::text::{
    ascii_lowercase, chars_of, i64_to_decimal, int_decimal, lowercase_is, parse_i64_chars, parsed_i64,
    trim_chars, trimmed,
};
use super::json::{
    json_entry_models, json_model, json_models, json_text, lemma_json_entry_models, lemma_json_models,
    JsonModel, JsonValue,
};

verus! {

/// `a` comes before `b` when their characters are compared in turn, a
/// proper prefix first: the order of `String`.
pub open spec fn chars_lt(a: Seq<char>, b: Seq<char>) -> bool
    decreases a.len(),
{
    if a.len() == 0 {
        b.len() > 0
    } else if b.len() == 0 {
        false
    } else if a[0] != b[0] {
        (a[0] as int) < (b[0] as int)
    } else {
        chars_lt(a.drop_first(), b.drop_first())
    }
}

/// Whether `a` comes before `b`.
pub fn str_lt(a: &str, b: &str) -> (r: bool)
    ensures
        r == chars_lt(a@, b@),
{
    let x = chars_of(a);
    let y = chars_of(b);
    let mut i: usize = 0;
    proof {
        assert(a@.skip(0) =~= a@);
        assert(b@.skip(0) =~= b@);
    }
    while i < x.len() && i < y.len() && x[i] == y[i]
        invariant
            x@ == a@,
            y@ == b@,
            i <= x@.len(),
            i <= y@.len(),
            chars_lt(a@, b@) == chars_lt(a@.skip(i as int), b@.skip(i as int)),
        decreases x@.len() - i,
    {
        proof {
            assert(a@.skip(i as int).drop_first() =~= a@.skip(i + 1));
            assert(b@.skip(i as int).drop_first() =~= b@.skip(i + 1));
        }
        i = i + 1;
    }
    proof {
        let p = a@.skip(i as int);
        let q = b@.skip(i as int);
        assert(p.len() == a@.len() - i && q.len() == b@.len() - i);
        if i < x.len() && i < y.len() {
            assert(p[0] == x@[i as int] && q[0] == y@[i as int]);
        }
    }
    if i == x.len() {
        i < y.len()
    } else if i == y.len() {
        false
    } else {
        x[i] < y[i]
    }
}

/// An object's entries after `k` is set to `v`, as an ordered map sets it:
/// the first entry for `k` gets the value, or a new entry goes before the
/// first key that comes after `k`.
pub open spec fn object_insert(s: Seq<(Seq<char>, JsonModel)>, k: Seq<char>, v: JsonModel) -> Seq<
    (Seq<char>, JsonModel),
>
    decreases s.len(),
{
    if s.len() == 0 {
        seq![(k, v)]
    } else if s[0].0 == k {
        seq![(k, v)] + s.drop_first()
    } else if chars_lt(k, s[0].0) {
        seq![(k, v)] + s
    } else {
        seq![s[0]] + object_insert(s.drop_first(), k, v)
    }
}

/// Sets `key` to `value` in an object's entries, keeping keys in order.
pub fn insert_entry(entries: &mut Vec<(String, JsonValue)>, key: String, value: JsonValue)
    ensures
        json_entry_models(final(entries)@) == object_insert(
            json_entry_models(old(entries)@),
            key@,
            json_model(value),
        ),
{
    let ghost m = json_entry_models(old(entries)@);
    proof {
        lemma_json_entry_models(old(entries)@);
    }
    let mut i: usize = 0;
    proof {
        assert(m.skip(0) =~= m);
        assert(m.take(0) + m =~= m);
    }
    while i < entries.len() && !crate::text::str_eq(entries[i].0.as_str(), key.as_str()) && !str_lt(
        key.as_str(),
        entries[i].0.as_str(),
    )
        invariant
            entries@ == old(entries)@,
            m == json_entry_models(entries@),
            m.len() == entries@.len(),
            forall|j: int| 0 <= j < m.len() ==> #[trigger] m[j] == (entries@[j].0@, json_model(entries@[j].1)),
            i <= entries@.len(),
            object_insert(m, key@, json_model(value)) == m.take(i as int) + object_insert(
                m.skip(i as int),
                key@,
                json_model(value),
            ),
        decreases entries@.len() - i,
    {
        proof {
            let t = m.skip(i as int);
            assert(t[0] == m[i as int]);
            assert(t.drop_first() =~= m.skip(i + 1));
            assert(m.take(i + 1) =~= m.take(i as int) + seq![m[i as int]]);
        }
        i = i + 1;
    }
    if i < entries.len() && crate::text::str_eq(entries[i].0.as_str(), key.as_str()) {
        proof {
            let t = m.skip(i as int);
            assert(t[0] == m[i as int]);
            assert(object_insert(m, key@, json_model(value)) =~= m.take(i as int) + seq![
                (key@, json_model(value)),
            ] + m.skip(i + 1));
        }
        entries.set(i, (key, value));
    } else {
        let ghost k = key@;
        let ghost mv = json_model(value);
        proof {
            let t = m.skip(i as int);
            if i < m.len() {
                assert(t[0] == m[i as int]);
            } else {
                assert(t =~= Seq::<(Seq<char>, JsonModel)>::empty());
            }
        }
        entries.insert(i, (key, value));
        proof {
            assert(object_insert(m, k, mv) =~= m.take(i as int) + seq![(k, mv)] + m.skip(i as int));
        }
    }
    proof {
        lemma_json_entry_models(entries@);
        assert(json_entry_models(entries@) =~= object_insert(m, key@, json_model(value)));
    }
}

/// No string comes before itself.
pub proof fn lemma_chars_lt_irreflexive(a: Seq<char>)
    ensures
        !chars_lt(a, a),
    decreases a.len(),
{
    if a.len() > 0 {
        lemma_chars_lt_irreflexive(a.drop_first());
    }
}

/// The order of strings is transitive.
pub proof fn lemma_chars_lt_transitive(a: Seq<char>, b: Seq<char>, c: Seq<char>)
    requires
        chars_lt(a, b),
        chars_lt(b, c),
    ensures
        chars_lt(a, c),
    decreases a.len(),
{
    if a.len() > 0 && b.len() > 0 && c.len() > 0 && a[0] == b[0] && b[0] == c[0] {
        lemma_chars_lt_transitive(a.drop_first(), b.drop_first(), c.drop_first());
    }
}

/// Of two different strings, one comes before the other.
pub proof fn lemma_chars_lt_total(a: Seq<char>, b: Seq<char>)
    requires
        a != b,
    ensures
        chars_lt(a, b) || chars_lt(b, a),
    decreases a.len(),
{
    if a.len() == 0 && b.len() == 0 {
        assert(a =~= b);
    }
    if a.len() > 0 && b.len() > 0 && a[0] == b[0] {
        if a.drop_first() == b.drop_first() {
            assert(a =~= seq![a[0]] + a.drop_first());
            assert(b =~= seq![b[0]] + b.drop_first());
        }
        lemma_chars_lt_total(a.drop_first(), b.drop_first());
    }
}

/// An object's keys are in order, each before the next: no key occurs twice.
pub open spec fn keys_sorted(s: Seq<(Seq<char>, JsonModel)>) -> bool {
    forall|i: int, j: int| 0 <= i < j < s.len() ==> chars_lt(#[trigger] s[i].0, #[trigger] s[j].0)
}

/// The object holds the entry `(k, v)`.
pub open spec fn has_entry(s: Seq<(Seq<char>, JsonModel)>, k: Seq<char>, v: JsonModel) -> bool {
    exists|i: int| 0 <= i < s.len() && #[trigger] s[i] == (k, v)
}

/// Setting a key in an object whose keys are in order is setting it in a
/// map: the keys stay in order, the key holds the new value and no other,
/// and every other key keeps its entry.
pub proof fn law_object_insert_sets_key(s: Seq<(Seq<char>, JsonModel)>, k: Seq<char>, v: JsonModel)
    requires
        keys_sorted(s),
    ensures
        keys_sorted(object_insert(s, k, v)),
        has_entry(object_insert(s, k, v), k, v),
        forall|w: JsonModel| has_entry(object_insert(s, k, v), k, w) ==> w == v,
        forall|q: Seq<char>, w: JsonModel|
            q != k ==> (has_entry(object_insert(s, k, v), q, w) <==> has_entry(s, q, w)),
    decreases s.len(),
{
    let r = object_insert(s, k, v);
    if s.len() == 0 {
        assert(r[0] == (k, v));
    } else if s[0].0 == k {
        let t = s.drop_first();
        assert(r =~= seq![(k, v)] + t);
        assert(r[0] == (k, v));
        assert forall|i: int, j: int| 0 <= i < j < r.len() implies chars_lt(#[trigger] r[i].0, #[trigger] r[j].0) by {
            assert(r[j] == s[j]);
            if i > 0 {
                assert(r[i] == s[i]);
            }
        }
        assert forall|w: JsonModel| has_entry(r, k, w) implies w == v by {
            let i = choose|i: int| 0 <= i < r.len() && #[trigger] r[i] == (k, w);
            if i > 0 {
                assert(r[i] == s[i]);
                assert(chars_lt(s[0].0, s[i].0));
                lemma_chars_lt_irreflexive(k);
            }
        }
        assert forall|q: Seq<char>, w: JsonModel| q != k implies (has_entry(r, q, w) <==> has_entry(s, q, w)) by {
            if has_entry(r, q, w) {
                let i = choose|i: int| 0 <= i < r.len() && #[trigger] r[i] == (q, w);
                assert(s[i] == r[i]);
            }
            if has_entry(s, q, w) {
                let j = choose|j: int| 0 <= j < s.len() && #[trigger] s[j] == (q, w);
                assert(r[j] == s[j]);
            }
        }
    } else if chars_lt(k, s[0].0) {
        assert(r =~= seq![(k, v)] + s);
        assert(r[0] == (k, v));
        assert forall|i: int, j: int| 0 <= i < j < r.len() implies chars_lt(#[trigger] r[i].0, #[trigger] r[j].0) by {
            assert(r[j] == s[j - 1]);
            if i > 0 {
                assert(r[i] == s[i - 1]);
            } else if j > 1 {
                lemma_chars_lt_transitive(k, s[0].0, s[j - 1].0);
            }
        }
        assert forall|w: JsonModel| has_entry(r, k, w) implies w == v by {
            let i = choose|i: int| 0 <= i < r.len() && #[trigger] r[i] == (k, w);
            if i > 0 {
                assert(r[i] == s[i - 1]);
                if i > 1 {
                    lemma_chars_lt_transitive(k, s[0].0, s[i - 1].0);
                }
                lemma_chars_lt_irreflexive(k);
            }
        }
        assert forall|q: Seq<char>, w: JsonModel| q != k implies (has_entry(r, q, w) <==> has_entry(s, q, w)) by {
            if has_entry(r, q, w) {
                let i = choose|i: int| 0 <= i < r.len() && #[trigger] r[i] == (q, w);
                assert(s[i - 1] == r[i]);
            }
            if has_entry(s, q, w) {
                let j = choose|j: int| 0 <= j < s.len() && #[trigger] s[j] == (q, w);
                assert(r[j + 1] == s[j]);
            }
        }
    } else {
        let t = s.drop_first();
        lemma_chars_lt_total(k, s[0].0);
        assert(keys_sorted(t)) by {
            assert forall|i: int, j: int| 0 <= i < j < t.len() implies chars_lt(#[trigger] t[i].0, #[trigger] t[j].0) by {
                assert(t[i] == s[i + 1] && t[j] == s[j + 1]);
            }
        }
        law_object_insert_sets_key(t, k, v);
        let u = object_insert(t, k, v);
        assert(r =~= seq![s[0]] + u);
        // every key of `u` comes after `s[0]`'s key
        assert forall|j: int| 0 <= j < u.len() implies chars_lt(s[0].0, #[trigger] u[j].0) by {
            let q = u[j].0;
            let w = u[j].1;
            assert(has_entry(u, q, w)) by {
                assert(u[j] == (q, w));
            }
            if q != k {
                assert(has_entry(t, q, w));
                let m = choose|m: int| 0 <= m < t.len() && #[trigger] t[m] == (q, w);
                assert(t[m] == s[m + 1]);
            }
        }
        assert forall|i: int, j: int| 0 <= i < j < r.len() implies chars_lt(#[trigger] r[i].0, #[trigger] r[j].0) by {
            assert(r[j] == u[j - 1]);
            if i > 0 {
                assert(r[i] == u[i - 1]);
            }
        }
        let i0 = choose|i: int| 0 <= i < u.len() && #[trigger] u[i] == (k, v);
        assert(r[i0 + 1] == (k, v));
        assert forall|w: JsonModel| has_entry(r, k, w) implies w == v by {
            let i = choose|i: int| 0 <= i < r.len() && #[trigger] r[i] == (k, w);
            if i > 0 {
                assert(u[i - 1] == (k, w));
                assert(has_entry(u, k, w));
            }
        }
        assert forall|q: Seq<char>, w: JsonModel| q != k implies (has_entry(r, q, w) <==> has_entry(s, q, w)) by {
            if has_entry(r, q, w) {
                let i = choose|i: int| 0 <= i < r.len() && #[trigger] r[i] == (q, w);
                if i == 0 {
                    assert(s[0] == (q, w));
                } else {
                    assert(u[i - 1] == (q, w));
                    assert(has_entry(u, q, w));
                    assert(has_entry(t, q, w));
                    let m = choose|m: int| 0 <= m < t.len() && #[trigger] t[m] == (q, w);
                    assert(s[m + 1] == t[m]);
                }
            }
            if has_entry(s, q, w) {
                let j = choose|j: int| 0 <= j < s.len() && #[trigger] s[j] == (q, w);
                if j == 0 {
                    assert(r[0] == s[0]);
                } else {
                    assert(t[j - 1] == (q, w));
                    assert(has_entry(t, q, w));
                    assert(has_entry(u, q, w));
                    let m = choose|m: int| 0 <= m < u.len() && #[trigger] u[m] == (q, w);
                    assert(r[m + 1] == u[m]);
                }
            }
        }
    }
}

/// The position of the last entry for `k`, or -1 when there is none.
pub open spec fn key_index(s: Seq<(Seq<char>, JsonModel)>, k: Seq<char>) -> int
    decreases s.len(),
{
    if s.len() == 0 {
        -1
    } else if s.last().0 == k {
        s.len() - 1
    } else {
        key_index(s.drop_last(), k)
    }
}

/// The position found is an entry for `k`, and no later entry is; -1 means
/// that no entry is.
pub proof fn lemma_key_index(s: Seq<(Seq<char>, JsonModel)>, k: Seq<char>)
    ensures
        -1 <= key_index(s, k) < s.len(),
        key_index(s, k) >= 0 ==> s[key_index(s, k)].0 == k,
        forall|j: int| key_index(s, k) < j < s.len() ==> #[trigger] s[j].0 != k,
    decreases s.len(),
{
    if s.len() > 0 {
        lemma_key_index(s.drop_last(), k);
        if s.last().0 != k {
            assert forall|j: int| key_index(s, k) < j < s.len() implies #[trigger] s[j].0 != k by {
                if j < s.len() - 1 {
                    assert(s.drop_last()[j] == s[j]);
                }
            }
        }
    }
}

/// The value of the last entry for `k`.
pub open spec fn entry_value(s: Seq<(Seq<char>, JsonModel)>, k: Seq<char>) -> Option<JsonModel> {
    if key_index(s, k) >= 0 {
        Some(s[key_index(s, k)].1)
    } else {
        None
    }
}

/// The position of the last entry for `key`.
pub fn entry_index(entries: &Vec<(String, JsonValue)>, key: &str) -> (r: Option<usize>)
    ensures
        r is None ==> key_index(json_entry_models(entries@), key@) == -1,
        r matches Some(i) ==> key_index(json_entry_models(entries@), key@) == i,
{
    let ghost m = json_entry_models(entries@);
    proof {
        lemma_json_entry_models(entries@);
    }
    let mut i: usize = entries.len();
    proof {
        assert(m.take(m.len() as int) =~= m);
    }
    while i > 0
        invariant
            i <= entries@.len(),
            m == json_entry_models(entries@),
            m.len() == entries@.len(),
            forall|j: int| 0 <= j < m.len() ==> #[trigger] m[j] == (entries@[j].0@, json_model(entries@[j].1)),
            key_index(m, key@) == key_index(m.take(i as int), key@),
        decreases i,
    {
        proof {
            assert(m.take(i as int).drop_last() =~= m.take(i - 1));
        }
        if crate::text::str_eq(entries[i - 1].0.as_str(), key) {
            return Some(i - 1);
        }
        i = i - 1;
    }
    None
}


/// What `serde_json` writes for the number that `str::parse` reads from
/// `raw` as a 64-bit float, when that number is finite.
pub uninterp spec fn float_json_text(raw: Seq<char>) -> Option<Seq<char>>;

/// `str::parse` of a 64-bit float, then `serde_json::Number::from_f64` and
/// the number's `to_string`: the JSON text of the finite float in `raw`, or
/// nothing where `raw` is no float or the float is not finite. The text is
/// named, not stated: it is the shortest rendering, by the `zmij` crate,
/// that reads back as the same float.
#[verifier::external_body]
fn float_number_text(raw: &str) -> (r: Option<String>)
    ensures
        r matches Some(t) ==> float_json_text(raw@) == Some(t@),
        r is None ==> float_json_text(raw@) is None,
{
    raw.parse().ok().and_then(serde_json::Number::from_f64).map(|n| n.to_string())
}

/// The integer a number holds, where it is one that fits in an `i64`.
pub open spec fn model_as_i64(v: Option<JsonModel>) -> Option<int> {
    match v {
        Some(JsonModel::Number(t)) => parsed_i64(t),
        _ => None,
    }
}

/// `o`'s integer, or `d` when there is none.
pub open spec fn int_or(o: Option<int>, d: int) -> int {
    match o {
        Some(n) => n,
        None => d,
    }
}

/// The integer a value holds, where it is a number that fits in an `i64`.
pub fn value_as_i64(v: &JsonValue) -> (r: Option<i64>)
    ensures
        r matches Some(n) ==> model_as_i64(Some(json_model(*v))) == Some(n as int),
        r is None ==> model_as_i64(Some(json_model(*v))) is None,
{
    match v {
        JsonValue::Number(t) => parse_i64_chars(&chars_of(t.as_str())),
        _ => None,
    }
}

/// Whether a boolean node's text reads as true: `true`, `yes` or `y`, in
/// any case of ASCII letters, around white space.
pub open spec fn is_true_word(raw: Seq<char>) -> bool {
    let w = ascii_lowercase(trimmed(raw));
    w == "true"@ || w == "yes"@ || w == "y"@
}

/// The plain value of a scalar node's text `raw` by its semantic type:
/// an integer (3) or a float (4) where the text reads as one, a boolean
/// (5), null (6), and a string otherwise.
pub open spec fn scalar_from_raw(raw: Seq<char>, sem: int) -> JsonModel {
    if sem == 3 {
        match parsed_i64(raw) {
            Some(n) => JsonModel::Number(int_decimal(n)),
            None => JsonModel::String(raw),
        }
    } else if sem == 4 {
        match float_json_text(raw) {
            Some(t) => JsonModel::Number(t),
            None => JsonModel::String(raw),
        }
    } else if sem == 5 {
        JsonModel::Bool(is_true_word(raw))
    } else if sem == 6 {
        JsonModel::Null
    } else {
        JsonModel::String(raw)
    }
}

/// The text of a node's `value` entry, or nothing where it holds no string.
pub open spec fn raw_text(entries: Seq<(Seq<char>, JsonModel)>) -> Seq<char> {
    match entry_value(entries, "value"@) {
        Some(JsonModel::String(s)) => s,
        _ => Seq::empty(),
    }
}

/// The items of a node's `children` entry, or none where it holds no array.
pub open spec fn children_of(entries: Seq<(Seq<char>, JsonModel)>) -> Seq<JsonModel> {
    match entry_value(entries, "children"@) {
        Some(JsonModel::Array(c)) => c,
        _ => Seq::empty(),
    }
}

/// The plain JSON of an edit value. A value that is not an object with both
/// `kind` and `children` stands for itself. Otherwise it is a node: kind 0 a
/// sequence of its children; kind 1 a map whose children alternate keys and
/// values (a last unpaired child left out); kinds 2 and 3 a scalar read from
/// its `value` text by its `semType`; any other kind its `value` string, or
/// itself. A missing or non-integer kind counts as 2, a missing `semType` as 2.
pub open spec fn plain_json(v: JsonModel) -> JsonModel
    decreases v, 1int,
{
    match v {
        JsonModel::Object(entries) => {
            if key_index(entries, "kind"@) < 0 || key_index(entries, "children"@) < 0 {
                v
            } else {
                let kind = int_or(model_as_i64(entry_value(entries, "kind"@)), 2);
                if kind == 0 || kind == 1 {
                    if children_of(entries).len() == 0 {
                        if kind == 0 {
                            JsonModel::Array(Seq::empty())
                        } else {
                            JsonModel::Object(Seq::empty())
                        }
                    } else {
                        proof {
                            lemma_children_smaller(v);
                        }
                        if kind == 0 {
                            JsonModel::Array(plain_items(children_of(entries)))
                        } else {
                            JsonModel::Object(plain_object(children_of(entries)))
                        }
                    }
                } else if kind == 2 || kind == 3 {
                    scalar_from_raw(
                        raw_text(entries),
                        int_or(model_as_i64(entry_value(entries, "semType"@)), 2),
                    )
                } else {
                    match entry_value(entries, "value"@) {
                        Some(JsonModel::String(s)) => JsonModel::String(s),
                        _ => v,
                    }
                }
            }
        },
        _ => v,
    }
}

/// The plain JSON of each item.
pub open spec fn plain_items(s: Seq<JsonModel>) -> Seq<JsonModel>
    decreases s, 0int,
{
    if s.len() == 0 {
        Seq::empty()
    } else {
        plain_items(s.drop_last()).push(plain_json(s.last()))
    }
}

/// The map that a map node's children make: each pair of a key and a value
/// inserted in turn, a later key replacing an earlier equal one.
pub open spec fn plain_object(c: Seq<JsonModel>) -> Seq<(Seq<char>, JsonModel)>
    decreases c, 0int,
{
    if c.len() < 2 {
        Seq::empty()
    } else if c.len() % 2 == 1 {
        plain_object(c.drop_last())
    } else {
        object_insert(
            plain_object(c.take(c.len() - 2)),
            scalar_text(c[c.len() - 2]),
            plain_json(c[c.len() - 1]),
        )
    }
}

/// An edit value read as a scalar's text: a string as it is, a number's
/// text, `true` or `false`, nothing for null, and the compact JSON of a
/// list or a map.
pub open spec fn scalar_text(v: JsonModel) -> Seq<char>
    decreases v, 2int,
{
    match plain_json(v) {
        JsonModel::String(s) => s,
        JsonModel::Number(t) => t,
        JsonModel::Bool(b) => if b {
            "true"@
        } else {
            "false"@
        },
        JsonModel::Null => Seq::empty(),
        other => json_text(other),
    }
}

/// The map that a map node's children make has its keys in order, each
/// key once.
pub proof fn law_plain_object_keys_sorted(c: Seq<JsonModel>)
    ensures
        keys_sorted(plain_object(c)),
    decreases c.len(),
{
    if c.len() >= 2 {
        if c.len() % 2 == 1 {
            law_plain_object_keys_sorted(c.drop_last());
        } else {
            let before = c.take(c.len() - 2);
            law_plain_object_keys_sorted(before);
            law_object_insert_sets_key(plain_object(before), scalar_text(c[c.len() - 2]), plain_json(c[c.len() - 1]));
        }
    }
}

/// A node's children are smaller than the node.
pub proof fn lemma_children_smaller(v: JsonModel)
    requires
        v is Object,
        children_of(v->Object_0).len() > 0,
    ensures
        decreases_to!(v => children_of(v->Object_0)),
{
    let entries = v->Object_0;
    lemma_key_index(entries, "children"@);
    let ci = key_index(entries, "children"@);
    assert(decreases_to!(v => v->Object_0));
    assert(decreases_to!(v->Object_0 => v->Object_0[ci]));
    assert(decreases_to!(v->Object_0[ci] => v->Object_0[ci].1));
    assert(decreases_to!(v->Object_0[ci].1 => v->Object_0[ci].1->Array_0));
}


/// A child of a node is smaller than the node.
pub proof fn lemma_child_decreases(v: JsonValue, ci: int, j: int)
    requires
        v is Object,
        0 <= ci < v->Object_0@.len(),
        v->Object_0@[ci].1 is Array,
        0 <= j < v->Object_0@[ci].1->Array_0@.len(),
    ensures
        decreases_to!(v => v->Object_0@[ci].1->Array_0@[j]),
{
    assert(decreases_to!(v => v->Object_0));
    assert(decreases_to!(v->Object_0 => v->Object_0@));
    assert(decreases_to!(v->Object_0@ => v->Object_0@[ci]));
    assert(decreases_to!(v->Object_0@[ci] => v->Object_0@[ci].1));
    assert(decreases_to!(v->Object_0@[ci].1 => v->Object_0@[ci].1->Array_0));
    assert(decreases_to!(v->Object_0@[ci].1->Array_0 => v->Object_0@[ci].1->Array_0@));
    assert(decreases_to!(v->Object_0@[ci].1->Array_0@ => v->Object_0@[ci].1->Array_0@[j]));
}

/// The plain JSON of an edit value: a value in tree form becomes the value
/// it stands for, a value in plain form stays as it is.
pub fn edit_value_to_plain_json(value: &JsonValue) -> (r: JsonValue)
    ensures
        json_model(r) == plain_json(json_model(*value)),
    decreases value, 1int,
{
    let entries = match value {
        JsonValue::Object(entries) => entries,
        _ => {
            return value.clone();
        },
    };
    let ghost m = json_entry_models(entries@);
    proof {
        lemma_json_entry_models(entries@);
        lemma_key_index(m, "kind"@);
        lemma_key_index(m, "children"@);
        lemma_key_index(m, "value"@);
        lemma_key_index(m, "semType"@);
    }
    let (ki, ci) = match (entry_index(entries, "kind"), entry_index(entries, "children")) {
        (Some(a), Some(b)) => (a, b),
        _ => {
            return value.clone();
        },
    };
    let kind: i64 = match value_as_i64(&entries[ki].1) {
        Some(n) => n,
        None => 2,
    };
    if kind == 0 || kind == 1 {
        let items = match &entries[ci].1 {
            JsonValue::Array(items) => items,
            _ => {
                return if kind == 0 {
                    JsonValue::Array(Vec::new())
                } else {
                    JsonValue::Object(Vec::new())
                };
            },
        };
        let ghost c = json_models(items@);
        proof {
            lemma_json_models(items@);
            assert(children_of(m) == c);
        }
        if items.len() == 0 {
            return if kind == 0 {
                JsonValue::Array(Vec::new())
            } else {
                JsonValue::Object(Vec::new())
            };
        }
        if kind == 0 {
            let mut out: Vec<JsonValue> = Vec::new();
            let mut j: usize = 0;
            while j < items.len()
                invariant
                    j <= items.len(),
                    *value == JsonValue::Object(*entries),
                    ci < entries@.len(),
                    entries@[ci as int].1 == JsonValue::Array(*items),
                    json_models(out@) == plain_items(json_models(items@.take(j as int))),
                decreases items.len() - j,
            {
                proof {
                    lemma_child_decreases(*value, ci as int, j as int);
                }
                let p = edit_value_to_plain_json(&items[j]);
                proof {
                    let t = json_models(items@.take(j as int));
                    assert(items@.take(j + 1).drop_last() =~= items@.take(j as int));
                    assert(json_models(items@.take(j + 1)) == t.push(json_model(items@[j as int])));
                    assert(t.push(json_model(items@[j as int])).drop_last() =~= t);
                    assert(out@.push(p).drop_last() =~= out@);
                }
                out.push(p);
                j = j + 1;
            }
            proof {
                assert(items@.take(items@.len() as int) =~= items@);
            }
            return JsonValue::Array(out);
        }
        let mut out: Vec<(String, JsonValue)> = Vec::new();
        let mut j: usize = 0;
        while j < items.len() && items.len() - j > 1
            invariant
                j <= items.len(),
                j % 2 == 0,
                *value == JsonValue::Object(*entries),
                ci < entries@.len(),
                entries@[ci as int].1 == JsonValue::Array(*items),
                c == json_models(items@),
                c.len() == items@.len(),
                forall|k: int| 0 <= k < c.len() ==> #[trigger] c[k] == json_model(items@[k]),
                json_entry_models(out@) == plain_object(c.take(j as int)),
            decreases items.len() - j,
        {
            proof {
                lemma_child_decreases(*value, ci as int, j as int);
                lemma_child_decreases(*value, ci as int, j + 1);
            }
            let key = edit_value_as_scalar_string(&items[j]);
            let item = edit_value_to_plain_json(&items[j + 1]);
            proof {
                let t = c.take(j + 2);
                assert(t.take(j as int) =~= c.take(j as int));
                assert(t[j as int] == c[j as int]);
                assert(t[j + 1] == c[j + 1]);
            }
            insert_entry(&mut out, key, item);
            j = j + 2;
        }
        proof {
            if items@.len() % 2 == 0 {
                assert(c.take(j as int) =~= c);
            } else if items@.len() >= 2 {
                assert(c.drop_last() =~= c.take(j as int));
            }
        }
        return JsonValue::Object(out);
    }
    if kind == 2 || kind == 3 {
        let raw: String = match entry_index(entries, "value") {
            Some(vi) => match &entries[vi].1 {
                JsonValue::String(s) => s.clone(),
                _ => String::new(),
            },
            None => String::new(),
        };
        let sem: i64 = match entry_index(entries, "semType") {
            Some(si) => match value_as_i64(&entries[si].1) {
                Some(n) => n,
                None => 2,
            },
            None => 2,
        };
        proof {
            assert(raw@ == raw_text(m));
        }
        if sem == 3 {
            match parse_i64_chars(&chars_of(raw.as_str())) {
                Some(n) => JsonValue::Number(i64_to_decimal(n)),
                None => JsonValue::String(raw),
            }
        } else if sem == 4 {
            match float_number_text(raw.as_str()) {
                Some(t) => JsonValue::Number(t),
                None => JsonValue::String(raw),
            }
        } else if sem == 5 {
            let t = trim_chars(&chars_of(raw.as_str()));
            JsonValue::Bool(lowercase_is(&t, "true") || lowercase_is(&t, "yes") || lowercase_is(&t, "y"))
        } else if sem == 6 {
            JsonValue::Null
        } else {
            JsonValue::String(raw)
        }
    } else {
        match entry_index(entries, "value") {
            Some(vi) => match &entries[vi].1 {
                JsonValue::String(s) => JsonValue::String(s.clone()),
                _ => value.clone(),
            },
            None => value.clone(),
        }
    }
}

/// An edit value read as a scalar's text.
pub fn edit_value_as_scalar_string(value: &JsonValue) -> (r: String)
    ensures
        r@ == scalar_text(json_model(*value)),
    decreases value, 2int,
{
    let plain = edit_value_to_plain_json(value);
    match plain {
        JsonValue::String(s) => s,
        JsonValue::Number(t) => t,
        JsonValue::Bool(b) => if b {
            "true".to_owned()
        } else {
            "false".to_owned()
        },
        JsonValue::Null => String::new(),
        other => other.to_string(),
    }
}

/// An edit value that stands for a scalar: null, a boolean, a number or a
/// string.
pub open spec fn is_plain_scalar(v: JsonModel) -> bool {
    match plain_json(v) {
        JsonModel::Array(_) | JsonModel::Object(_) => false,
        _ => true,
    }
}

/// Whether an edit value stands for a scalar.
pub fn is_plain_scalar_edit_value(value: &JsonValue) -> (r: bool)
    ensures
        r == is_plain_scalar(json_model(*value)),
{
    match edit_value_to_plain_json(value) {
        JsonValue::Array(_) | JsonValue::Object(_) => false,
        _ => true,
    }
}

} // verus!
