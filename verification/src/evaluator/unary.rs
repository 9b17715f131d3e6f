//! The operations that take one value in: length, keys, conversions, case,
//! split and join, ordering, uniqueness, flattening, extremes and truth.
use vstd::prelude::*;
use super::{string_of, mismatch_error};
use super::literal::numeric_of;
use super::ops::{op_name, AllAtOnceEvaluator, OperationId};
use super::{
    lemma_models_push, bool_text, entry_models, float_bits_of, float_eq, float_lt, float_service, float_text,
    float_text_of, kind_name, lemma_entry_models, lemma_models, models, number_display,
    number_text, numeric_float_bits, outcome, render_text, render_value, truthy, Entry,
    ErrorModel, FloatAnswer, FloatQuery, Numeric, QueryModel, Value, ValueModel, float_bits_eq,
    float_bits_lt,
};
use crate::document::value_edit::toml::string_of_range;
use crate::evaluation::EvaluationError;
use crate::text::{
    chars_of, parse_i64_chars, parsed_i64, push_str, trim_chars, trimmed, utf8_len,
};

verus! {

// ---------------------------------------------------------------------------
// Call arguments in the operation's text
// ---------------------------------------------------------------------------

/// `c` is first found in `s` at `i`.
pub open spec fn is_first_at(s: Seq<char>, c: char, i: int) -> bool {
    0 <= i < s.len() && s[i] == c && forall|j: int| 0 <= j < i ==> s[j] != c
}

/// `c` is last found in `s` at `i`.
pub open spec fn is_last_at(s: Seq<char>, c: char, i: int) -> bool {
    0 <= i < s.len() && s[i] == c && forall|j: int| i < j < s.len() ==> s[j] != c
}

/// Where `c` is first found in `s`, or `-1`.
pub open spec fn first_pos(s: Seq<char>, c: char) -> int {
    if exists|i: int| is_first_at(s, c, i) {
        choose|i: int| is_first_at(s, c, i)
    } else {
        -1
    }
}

/// Where `c` is last found in `s`, or `-1`.
pub open spec fn last_pos(s: Seq<char>, c: char) -> int {
    if exists|i: int| is_last_at(s, c, i) {
        choose|i: int| is_last_at(s, c, i)
    } else {
        -1
    }
}

/// The text between the first `(` and the last `)` of an operation's text,
/// without white space around it.
pub open spec fn call_argument(t: Seq<char>) -> Option<Seq<char>> {
    let o = first_pos(t, '(');
    let c = last_pos(t, ')');
    if o >= 0 && c >= o + 1 {
        Some(trimmed(t.subrange(o + 1, c)))
    } else {
        None
    }
}

/// The call argument without the quotes around it, or empty where there is
/// none.
pub open spec fn string_argument(t: Seq<char>) -> Seq<char> {
    match call_argument(t) {
        Some(a) => if super::literal::is_quoted(a) {
            a.subrange(1, a.len() - 1)
        } else {
            a
        },
        None => Seq::empty(),
    }
}

/// The depth that flattening stops at: the call argument read as an `i32`,
/// where it is one and not negative; no limit otherwise.
pub open spec fn flatten_depth(t: Seq<char>) -> Option<usize> {
    match call_argument(t) {
        Some(a) => match parsed_i64(a) {
            Some(v) => if 0 <= v <= i32::MAX {
                Some(v as usize)
            } else {
                None
            },
            None => None,
        },
        None => None,
    }
}

/// Whether a case change goes to upper case: the operation's name, before
/// any `(`, is `upcase`, `ascii_upcase` or `asciiupcase`.
pub open spec fn is_upper_case_operation(t: Seq<char>) -> bool {
    let o = first_pos(t, '(');
    let name = trimmed(
        if o >= 0 {
            t.subrange(0, o)
        } else {
            t
        },
    );
    name == "upcase"@ || name == "ascii_upcase"@ || name == "asciiupcase"@
}

proof fn lemma_first_pos(s: Seq<char>, c: char, i: int)
    requires
        is_first_at(s, c, i),
    ensures
        first_pos(s, c) == i,
{
    let k = choose|k: int| is_first_at(s, c, k);
    assert(is_first_at(s, c, k));
    if k < i {
        assert(s[k] != c);
    }
    if i < k {
        assert(s[i] != c);
    }
}

proof fn lemma_last_pos(s: Seq<char>, c: char, i: int)
    requires
        is_last_at(s, c, i),
    ensures
        last_pos(s, c) == i,
{
    let k = choose|k: int| is_last_at(s, c, k);
    assert(is_last_at(s, c, k));
    if k < i {
        assert(s[i] != c);
    }
    if i < k {
        assert(s[k] != c);
    }
}

/// Where `c` is first found in `s`, or `-1`.
fn find_first(s: &Vec<char>, c: char) -> (r: Option<usize>)
    ensures
        r matches Some(i) ==> i == first_pos(s@, c) && i < s@.len(),
        r is None ==> first_pos(s@, c) == -1,
{
    let mut i: usize = 0;
    while i < s.len()
        invariant
            i <= s@.len(),
            forall|j: int| 0 <= j < i ==> s@[j] != c,
        decreases s@.len() - i,
    {
        if s[i] == c {
            proof {
                lemma_first_pos(s@, c, i as int);
            }
            return Some(i);
        }
        i = i + 1;
    }
    assert(!exists|k: int| is_first_at(s@, c, k));
    None
}

/// Where `c` is last found in `s`, or `-1`.
fn find_last(s: &Vec<char>, c: char) -> (r: Option<usize>)
    ensures
        r matches Some(i) ==> i == last_pos(s@, c) && i < s@.len(),
        r is None ==> last_pos(s@, c) == -1,
{
    let mut i: usize = s.len();
    while i > 0
        invariant
            i <= s@.len(),
            forall|j: int| i <= j < s@.len() ==> s@[j] != c,
        decreases i,
    {
        if s[i - 1] == c {
            proof {
                lemma_last_pos(s@, c, i - 1);
            }
            return Some(i - 1);
        }
        i = i - 1;
    }
    assert(!exists|k: int| is_last_at(s@, c, k));
    None
}

/// The call argument of an operation's text (see [`call_argument`]).
fn call_argument_of(t: &Vec<char>) -> (r: Option<Vec<char>>)
    ensures
        r matches Some(a) ==> call_argument(t@) == Some(a@),
        r is None ==> call_argument(t@) is None,
{
    let (o, c) = match (find_first(t, '('), find_last(t, ')')) {
        (Some(o), Some(c)) => (o, c),
        _ => {
            return None;
        },
    };
    if c > o {
        let mut inner: Vec<char> = Vec::new();
        let mut i: usize = o + 1;
        let end = c;
        while i < end
            invariant
                0 <= o + 1 <= i <= end <= t@.len(),
                end == c,
                inner@ == t@.subrange(o + 1, i as int),
            decreases end - i,
        {
            inner.push(t[i]);
            i = i + 1;
            proof {
                assert(inner@ =~= t@.subrange(o + 1, i as int));
            }
        }
        Some(trim_chars(&inner))
    } else {
        None
    }
}

/// The string argument of an operation's text (see [`string_argument`]).
fn string_argument_of(t: &Vec<char>) -> (r: Vec<char>)
    ensures
        r@ == string_argument(t@),
{
    match call_argument_of(t) {
        Some(a) => {
            let n = a.len();
            if n >= 2 && ((a[0] == '"' && a[n - 1] == '"') || (a[0] == '\'' && a[n - 1] == '\'')) {
                let mut inner: Vec<char> = Vec::new();
                let mut i: usize = 1;
                while i < n - 1
                    invariant
                        1 <= i <= n - 1,
                        n == a@.len(),
                        inner@ == a@.subrange(1, i as int),
                    decreases n - 1 - i,
                {
                    inner.push(a[i]);
                    i = i + 1;
                    proof {
                        assert(inner@ =~= a@.subrange(1, i as int));
                    }
                }
                inner
            } else {
                a
            }
        },
        None => Vec::new(),
    }
}

/// The flattening depth of an operation's text (see [`flatten_depth`]).
fn flatten_depth_of(t: &Vec<char>) -> (r: Option<usize>)
    ensures
        r == flatten_depth(t@),
{
    match call_argument_of(t) {
        Some(a) => match parse_i64_chars(&a) {
            Some(v) => if 0 <= v && v <= 0x7fff_ffffi64 {
                Some(v as usize)
            } else {
                None
            },
            None => None,
        },
        None => None,
    }
}

fn is_upper_case_operation_of(t: &Vec<char>) -> (r: bool)
    ensures
        r == is_upper_case_operation(t@),
{
    let o = find_first(t, '(');
    let end: usize = match o {
        Some(o) => o,
        None => t.len(),
    };
    let mut head: Vec<char> = Vec::new();
    let mut i: usize = 0;
    while i < end
        invariant
            i <= end <= t@.len(),
            head@ == t@.subrange(0, i as int),
        decreases end - i,
    {
        head.push(t[i]);
        i = i + 1;
        proof {
            assert(head@ =~= t@.subrange(0, i as int));
        }
    }
    proof {
        if o is None {
            assert(t@.subrange(0, t@.len() as int) =~= t@);
        }
    }
    let name = trim_chars(&head);
    let a = chars_of("upcase");
    let b = chars_of("ascii_upcase");
    let c = chars_of("asciiupcase");
    super::literal::same_chars(&name, &a) || super::literal::same_chars(&name, &b)
        || super::literal::same_chars(&name, &c)
}

// ---------------------------------------------------------------------------
// Split and join
// ---------------------------------------------------------------------------

/// The pieces of `s[start..]` between the non-overlapping occurrences of
/// `sep`, found from the left, the search being at `i`.
pub open spec fn split_scan(s: Seq<char>, sep: Seq<char>, start: int, i: int) -> Seq<Seq<char>>
    decreases s.len() - i,
{
    if !(0 <= start <= i <= s.len()) || sep.len() == 0 {
        Seq::empty()
    } else if i + sep.len() > s.len() {
        seq![s.subrange(start, s.len() as int)]
    } else if s.subrange(i, i + sep.len()) == sep {
        seq![s.subrange(start, i)] + split_scan(s, sep, i + sep.len(), i + sep.len())
    } else {
        split_scan(s, sep, start, i + 1)
    }
}

/// What `str::split` gives: each character on its own where the separator
/// is empty, else the pieces between the separator's occurrences.
pub open spec fn split_parts(s: Seq<char>, sep: Seq<char>) -> Seq<Seq<char>> {
    if sep.len() == 0 {
        Seq::new(s.len(), |i: int| seq![s[i]])
    } else {
        split_scan(s, sep, 0, 0)
    }
}

/// The pieces joined with `sep` between them.
pub open spec fn join_texts(parts: Seq<Seq<char>>, sep: Seq<char>) -> Seq<char>
    decreases parts.len(),
{
    if parts.len() == 0 {
        Seq::empty()
    } else if parts.len() == 1 {
        parts[0]
    } else {
        join_texts(parts.drop_last(), sep) + sep + parts[parts.len() - 1]
    }
}

pub open spec fn string_models(parts: Seq<Seq<char>>) -> Seq<ValueModel> {
    Seq::new(parts.len(), |i: int| ValueModel::Str(parts[i]))
}

/// Whether `sep` occurs in `s` at `i`.
pub(crate) fn occurs_at(s: &Vec<char>, sep: &Vec<char>, i: usize) -> (r: bool)
    requires
        i + sep@.len() <= s@.len(),
    ensures
        r == (s@.subrange(i as int, i + sep@.len()) == sep@),
{
    let n = s.len();
    let mut k: usize = 0;
    while k < sep.len()
        invariant
            i + sep@.len() <= s@.len(),
            s@.len() == n,
            k <= sep@.len(),
            forall|j: int| 0 <= j < k ==> s@[i + j] == sep@[j],
        decreases sep@.len() - k,
    {
        assert(i + k < s@.len());
        if s[i + k] != sep[k] {
            assert(s@.subrange(i as int, i + sep@.len())[k as int] != sep@[k as int]);
            return false;
        }
        k = k + 1;
    }
    assert(s@.subrange(i as int, i + sep@.len()) =~= sep@);
    true
}

fn split_values(s: &Vec<char>, sep: &Vec<char>) -> (r: Vec<Value>)
    ensures
        models(r@) == string_models(split_parts(s@, sep@)),
{
    let mut out: Vec<Value> = Vec::new();
    if sep.len() == 0 {
        let mut i: usize = 0;
        while i < s.len()
            invariant
                i <= s@.len(),
                out@.len() == i,
                forall|j: int| 0 <= j < i ==> #[trigger] out@[j].model() == ValueModel::Str(seq![s@[j]]),
            decreases s@.len() - i,
        {
            let one = string_of_range(s, i, i + 1);
            proof {
                assert(s@.subrange(i as int, i + 1) =~= seq![s@[i as int]]);
            }
            out.push(Value::String(one));
            i = i + 1;
        }
        proof {
            lemma_models(out@);
            assert(models(out@) =~= string_models(split_parts(s@, sep@)));
        }
        return out;
    }
    let ghost all = split_scan(s@, sep@, 0, 0);
    let mut start: usize = 0;
    let mut i: usize = 0;
    while sep.len() <= s.len() - i
        invariant
            sep@.len() > 0,
            start <= i <= s@.len(),
            all == split_scan(s@, sep@, 0, 0),
            string_models(all) == models(out@) + string_models(split_scan(s@, sep@, start as int, i as int)),
        decreases s@.len() - i,
    {
        if occurs_at(s, sep, i) {
            let piece = string_of_range(s, start, i);
            let ghost before = out@;
            out.push(Value::String(piece));
            proof {
                assert(out@ =~= before.push(out@[out@.len() - 1]));
                lemma_models_push(before, out@[out@.len() - 1]);
                let rest = split_scan(s@, sep@, (i + sep@.len()) as int, (i + sep@.len()) as int);
                assert(split_scan(s@, sep@, start as int, i as int) == seq![s@.subrange(start as int, i as int)] + rest);
                assert(models(out@) =~= models(before).push(ValueModel::Str(s@.subrange(start as int, i as int))));
                assert(string_models(seq![s@.subrange(start as int, i as int)] + rest) =~= seq![ValueModel::Str(s@.subrange(start as int, i as int))] + string_models(rest));
                assert(models(before) + (seq![ValueModel::Str(s@.subrange(start as int, i as int))] + string_models(rest)) =~= models(out@) + string_models(rest));
            }
            i = i + sep.len();
            start = i;
        } else {
            i = i + 1;
        }
    }
    let piece = string_of_range(s, start, s.len());
    let ghost before = out@;
    out.push(Value::String(piece));
    proof {
        assert(out@ =~= before.push(out@[out@.len() - 1]));
        lemma_models_push(before, out@[out@.len() - 1]);
        assert(split_scan(s@, sep@, start as int, i as int) == seq![s@.subrange(start as int, s@.len() as int)]);
        assert(models(out@) =~= models(before).push(ValueModel::Str(s@.subrange(start as int, s@.len() as int))));
        assert(string_models(seq![s@.subrange(start as int, s@.len() as int)]) =~= seq![ValueModel::Str(s@.subrange(start as int, s@.len() as int))]);
        assert(models(before) + seq![ValueModel::Str(s@.subrange(start as int, s@.len() as int))] =~= models(out@));
    }
    out
}

// ---------------------------------------------------------------------------
// Equality, uniqueness and flattening
// ---------------------------------------------------------------------------

/// `==` on numbers as `#[derive(PartialEq)]` compares them: the same kind,
/// and equal as that kind.
pub open spec fn numeric_same(a: Numeric, b: Numeric) -> bool {
    match (a, b) {
        (Numeric::Int(x), Numeric::Int(y)) => x == y,
        (Numeric::Float(x), Numeric::Float(y)) => float_eq(x, y),
        _ => false,
    }
}

/// `==` on values as `#[derive(PartialEq)]` compares them.
pub open spec fn value_eq(a: ValueModel, b: ValueModel) -> bool
    decreases a,
{
    match a {
        ValueModel::Null => b is Null,
        ValueModel::Bool(x) => match b {
            ValueModel::Bool(y) => x == y,
            _ => false,
        },
        ValueModel::Number(x) => match b {
            ValueModel::Number(y) => numeric_same(x, y),
            _ => false,
        },
        ValueModel::Str(x) => match b {
            ValueModel::Str(y) => x == y,
            _ => false,
        },
        ValueModel::Array(xs) => match b {
            ValueModel::Array(ys) => items_eq(xs, ys),
            _ => false,
        },
        ValueModel::Object(xs) => match b {
            ValueModel::Object(ys) => entries_eq(xs, ys),
            _ => false,
        },
    }
}

/// Two sequences of values of one length, equal item by item.
pub open spec fn items_eq(xs: Seq<ValueModel>, ys: Seq<ValueModel>) -> bool
    decreases xs,
{
    xs.len() == ys.len() && (xs.len() == 0 || (items_eq(xs.drop_last(), ys.drop_last())
        && value_eq(xs[xs.len() - 1], ys[ys.len() - 1])))
}

/// Two sequences of entries of one length, equal entry by entry.
pub open spec fn entries_eq(xs: Seq<(Seq<char>, ValueModel)>, ys: Seq<(Seq<char>, ValueModel)>) -> bool
    decreases xs,
{
    xs.len() == ys.len() && (xs.len() == 0 || (entries_eq(xs.drop_last(), ys.drop_last())
        && xs[xs.len() - 1].0 == ys[ys.len() - 1].0 && value_eq(
        xs[xs.len() - 1].1,
        ys[ys.len() - 1].1,
    )))
}

proof fn lemma_items_eq(xs: Seq<ValueModel>, ys: Seq<ValueModel>)
    ensures
        items_eq(xs, ys) == (xs.len() == ys.len() && forall|i: int|
            0 <= i < xs.len() ==> #[trigger] value_eq(xs[i], ys[i])),
    decreases xs.len(),
{
    if xs.len() > 0 && xs.len() == ys.len() {
        lemma_items_eq(xs.drop_last(), ys.drop_last());
        if items_eq(xs, ys) {
            assert forall|i: int| 0 <= i < xs.len() implies #[trigger] value_eq(xs[i], ys[i]) by {
                if i < xs.len() - 1 {
                    assert(xs.drop_last()[i] == xs[i]);
                    assert(ys.drop_last()[i] == ys[i]);
                }
            }
        }
        if forall|i: int| 0 <= i < xs.len() ==> #[trigger] value_eq(xs[i], ys[i]) {
            assert forall|i: int| 0 <= i < xs.drop_last().len() implies #[trigger] value_eq(
                xs.drop_last()[i],
                ys.drop_last()[i],
            ) by {
                assert(value_eq(xs[i], ys[i]));
            }
            assert(value_eq(xs[xs.len() - 1], ys[ys.len() - 1]));
        }
    }
}

proof fn lemma_entries_eq(xs: Seq<(Seq<char>, ValueModel)>, ys: Seq<(Seq<char>, ValueModel)>)
    ensures
        entries_eq(xs, ys) == (xs.len() == ys.len() && forall|i: int| #![trigger xs[i]]
            0 <= i < xs.len() ==> xs[i].0 == ys[i].0 && value_eq(xs[i].1, ys[i].1)),
    decreases xs.len(),
{
    if xs.len() > 0 && xs.len() == ys.len() {
        lemma_entries_eq(xs.drop_last(), ys.drop_last());
        if entries_eq(xs, ys) {
            assert forall|i: int| #![trigger xs[i]] 0 <= i < xs.len() implies xs[i].0 == ys[i].0 && value_eq(xs[i].1, ys[i].1) by {
                if i < xs.len() - 1 {
                    assert(xs.drop_last()[i] == xs[i]);
                    assert(ys.drop_last()[i] == ys[i]);
                }
            }
        }
        if forall|i: int| #![trigger xs[i]] 0 <= i < xs.len() ==> xs[i].0 == ys[i].0 && value_eq(xs[i].1, ys[i].1) {
            assert forall|i: int| #![trigger xs.drop_last()[i]] 0 <= i < xs.drop_last().len() implies xs.drop_last()[i].0
                == ys.drop_last()[i].0 && value_eq(xs.drop_last()[i].1, ys.drop_last()[i].1) by {
                assert(xs.drop_last()[i] == xs[i]);
                assert(ys.drop_last()[i] == ys[i]);
                assert(xs[i].0 == ys[i].0 && value_eq(xs[i].1, ys[i].1));
            }
            assert(xs[xs.len() - 1].0 == ys[ys.len() - 1].0 && value_eq(xs[xs.len() - 1].1, ys[ys.len() - 1].1));
        }
    }
}

fn numbers_same(a: Numeric, b: Numeric) -> (r: bool)
    ensures
        r == numeric_same(a, b),
{
    match (a, b) {
        (Numeric::Int(x), Numeric::Int(y)) => x == y,
        (Numeric::Float(x), Numeric::Float(y)) => float_bits_eq(x, y),
        _ => false,
    }
}

/// Whether two values are equal (see [`value_eq`]).
pub fn values_same(a: &Value, b: &Value) -> (r: bool)
    ensures
        r == value_eq(a.model(), b.model()),
    decreases a, 0nat,
{
    match (a, b) {
        (Value::Null, Value::Null) => true,
        (Value::Bool(x), Value::Bool(y)) => *x == *y,
        (Value::Number(x), Value::Number(y)) => numbers_same(*x, *y),
        (Value::String(x), Value::String(y)) => crate::text::str_eq(x.as_str(), y.as_str()),
        (Value::Array(xs), Value::Array(ys)) => items_same(xs, ys),
        (Value::Object(xs), Value::Object(ys)) => entries_same(xs, ys),
        _ => false,
    }
}

fn items_same(xs: &Vec<Value>, ys: &Vec<Value>) -> (r: bool)
    ensures
        r == items_eq(models(xs@), models(ys@)),
    decreases xs, 1nat,
{
    proof {
        lemma_models(xs@);
        lemma_models(ys@);
        lemma_items_eq(models(xs@), models(ys@));
    }
    if xs.len() != ys.len() {
        return false;
    }
    let mut i: usize = 0;
    while i < xs.len()
        invariant
            xs@.len() == ys@.len(),
            i <= xs@.len(),
            models(xs@).len() == xs@.len(),
            models(ys@).len() == ys@.len(),
            forall|j: int| 0 <= j < xs@.len() ==> #[trigger] models(xs@)[j] == xs@[j].model(),
            forall|j: int| 0 <= j < ys@.len() ==> #[trigger] models(ys@)[j] == ys@[j].model(),
            forall|j: int| 0 <= j < i ==> #[trigger] value_eq(models(xs@)[j], models(ys@)[j]),
        decreases xs@.len() - i,
    {
        if !values_same(&xs[i], &ys[i]) {
            proof {
                assert(!value_eq(models(xs@)[i as int], models(ys@)[i as int]));
                lemma_items_eq(models(xs@), models(ys@));
            }
            return false;
        }
        i = i + 1;
    }
    proof {
        lemma_items_eq(models(xs@), models(ys@));
    }
    true
}

fn entries_same(xs: &Vec<Entry>, ys: &Vec<Entry>) -> (r: bool)
    ensures
        r == entries_eq(entry_models(xs@), entry_models(ys@)),
    decreases xs, 1nat,
{
    proof {
        lemma_entry_models(xs@);
        lemma_entry_models(ys@);
        lemma_entries_eq(entry_models(xs@), entry_models(ys@));
    }
    if xs.len() != ys.len() {
        return false;
    }
    let mut i: usize = 0;
    while i < xs.len()
        invariant
            xs@.len() == ys@.len(),
            i <= xs@.len(),
            entry_models(xs@).len() == xs@.len(),
            entry_models(ys@).len() == ys@.len(),
            forall|j: int| 0 <= j < xs@.len() ==> #[trigger] entry_models(xs@)[j] == (xs@[j].key@, xs@[j].value.model()),
            forall|j: int| 0 <= j < ys@.len() ==> #[trigger] entry_models(ys@)[j] == (ys@[j].key@, ys@[j].value.model()),
            forall|j: int| #![trigger entry_models(xs@)[j]] 0 <= j < i ==> entry_models(xs@)[j].0 == entry_models(ys@)[j].0
                && value_eq(entry_models(xs@)[j].1, entry_models(ys@)[j].1),
        decreases xs@.len() - i,
    {
        if !crate::text::str_eq(xs[i].key.as_str(), ys[i].key.as_str()) {
            proof {
                assert(entry_models(xs@)[i as int].0 != entry_models(ys@)[i as int].0);
                lemma_entries_eq(entry_models(xs@), entry_models(ys@));
            }
            return false;
        }
        if !values_same(&xs[i].value, &ys[i].value) {
            proof {
                assert(!value_eq(entry_models(xs@)[i as int].1, entry_models(ys@)[i as int].1));
                lemma_entries_eq(entry_models(xs@), entry_models(ys@));
            }
            return false;
        }
        i = i + 1;
    }
    proof {
        lemma_entries_eq(entry_models(xs@), entry_models(ys@));
    }
    true
}

/// The values in order of first appearance, each kept only where no equal
/// one came before it.
pub open spec fn unique_items(s: Seq<ValueModel>) -> Seq<ValueModel>
    decreases s.len(),
{
    if s.len() == 0 {
        Seq::empty()
    } else {
        let p = unique_items(s.drop_last());
        if exists|j: int| 0 <= j < p.len() && #[trigger] value_eq(p[j], s[s.len() - 1]) {
            p
        } else {
            p.push(s[s.len() - 1])
        }
    }
}

/// The next depth down, counting down to zero.
pub open spec fn next_depth(d: Option<usize>) -> Option<usize> {
    match d {
        Some(k) => Some(
            if k == 0 {
                0usize
            } else {
                (k - 1) as usize
            },
        ),
        None => None,
    }
}

/// The values with the arrays among them spliced in, down to depth `d`.
pub open spec fn flat_items(s: Seq<ValueModel>, d: Option<usize>) -> Seq<ValueModel>
    decreases s,
{
    if s.len() == 0 {
        Seq::empty()
    } else {
        flat_items(s.drop_last(), d) + flat_one(s[s.len() - 1], d)
    }
}

/// One value flattened down to depth `d`.
pub open spec fn flat_one(m: ValueModel, d: Option<usize>) -> Seq<ValueModel>
    decreases m,
{
    match m {
        ValueModel::Array(items) => if d == Some(0usize) {
            seq![m]
        } else {
            flat_items(items, next_depth(d))
        },
        _ => seq![m],
    }
}

fn flatten_into(values: &Vec<Value>, out: &mut Vec<Value>, depth: Option<usize>)
    ensures
        models(final(out)@) == models(old(out)@) + flat_items(models(values@), depth),
    decreases values,
{
    let ghost start = models(out@);
    let ghost ms = models(values@);
    proof {
        lemma_models(values@);
    }
    let mut i: usize = 0;
    while i < values.len()
        invariant
            i <= values@.len(),
            ms == models(values@),
            ms.len() == values@.len(),
            forall|j: int| 0 <= j < values@.len() ==> #[trigger] ms[j] == values@[j].model(),
            models(out@) == start + flat_items(ms.take(i as int), depth),
        decreases values@.len() - i,
    {
        let ghost before = out@;
        let ghost m = ms[i as int];
        let spliced = match &values[i] {
            Value::Array(items) => {
                if depth == Some(0usize) {
                    false
                } else {
                    let next = match depth {
                        Some(k) => Some(if k == 0 { 0usize } else { k - 1 }),
                        None => None,
                    };
                    flatten_into(items, out, next);
                    true
                }
            },
            _ => false,
        };
        if !spliced {
            let d = values[i].duplicate();
            out.push(d);
            proof {
                assert(out@ =~= before.push(out@[out@.len() - 1]));
                lemma_models_push(before, out@[out@.len() - 1]);
            }
        }
        proof {
            let t = ms.take(i as int + 1);
            assert(t.drop_last() =~= ms.take(i as int));
            assert(t[t.len() - 1] == m);
            assert(models(out@) =~= models(before) + flat_one(m, depth));
            assert(models(out@) =~= start + flat_items(t, depth));
        }
        i = i + 1;
    }
    proof {
        assert(ms.take(values@.len() as int) =~= ms);
    }
}

// ---------------------------------------------------------------------------
// Ordering
// ---------------------------------------------------------------------------

/// `<` on texts: by code point, the first difference deciding, a proper
/// prefix first. For UTF-8 strings it is the byte order that `String`'s
/// `Ord` follows.
pub open spec fn text_lt(a: Seq<char>, b: Seq<char>) -> bool
    decreases a.len(),
{
    if b.len() == 0 {
        false
    } else if a.len() == 0 {
        true
    } else if a[0] != b[0] {
        (a[0] as u32) < (b[0] as u32)
    } else {
        text_lt(a.drop_first(), b.drop_first())
    }
}

/// The key by which a value sorts: its kind's rank, then its text, a number
/// as its float padded to twenty characters.
pub open spec fn sort_key<F: Fn(FloatQuery) -> FloatAnswer>(f: F, m: ValueModel) -> Seq<char> {
    match m {
        ValueModel::Null => "0:null"@,
        ValueModel::Bool(b) => "1:"@ + bool_text(b),
        ValueModel::Number(n) => "2:"@ + float_text(f, QueryModel::Padded(float_bits_of(f, n))),
        ValueModel::Str(s) => "3:"@ + s,
        _ => "4:"@ + render_text(f, m),
    }
}

/// `x` put into the sorted `s` after every entry whose key is not greater.
pub open spec fn insert_by_key(s: Seq<(Seq<char>, ValueModel)>, x: (Seq<char>, ValueModel)) -> Seq<(Seq<char>, ValueModel)>
    decreases s.len(),
{
    if s.len() == 0 {
        seq![x]
    } else if text_lt(x.0, s[s.len() - 1].0) {
        insert_by_key(s.drop_last(), x).push(s[s.len() - 1])
    } else {
        s.push(x)
    }
}

/// A stable sort by key.
pub open spec fn sort_by_key(s: Seq<(Seq<char>, ValueModel)>) -> Seq<(Seq<char>, ValueModel)>
    decreases s.len(),
{
    if s.len() == 0 {
        Seq::empty()
    } else {
        insert_by_key(sort_by_key(s.drop_last()), s[s.len() - 1])
    }
}

/// The values with their sort keys.
pub open spec fn keyed_values<F: Fn(FloatQuery) -> FloatAnswer>(f: F, items: Seq<ValueModel>) -> Seq<(Seq<char>, ValueModel)> {
    Seq::new(items.len(), |i: int| (sort_key(f, items[i]), items[i]))
}

/// The values sorted stably by their sort keys.
pub open spec fn sorted_items<F: Fn(FloatQuery) -> FloatAnswer>(f: F, items: Seq<ValueModel>) -> Seq<ValueModel> {
    let s = sort_by_key(keyed_values(f, items));
    Seq::new(s.len(), |i: int| s[i].1)
}

pub(crate) fn text_less(a: &Vec<char>, b: &Vec<char>) -> (r: bool)
    ensures
        r == text_lt(a@, b@),
{
    let mut i: usize = 0;
    proof {
        assert(a@.skip(0) =~= a@);
        assert(b@.skip(0) =~= b@);
    }
    while i < a.len() && i < b.len()
        invariant
            i <= a@.len(),
            i <= b@.len(),
            text_lt(a@, b@) == text_lt(a@.skip(i as int), b@.skip(i as int)),
        decreases a@.len() - i,
    {
        proof {
            assert(a@.skip(i as int)[0] == a@[i as int]);
            assert(b@.skip(i as int)[0] == b@[i as int]);
        }
        if a[i] != b[i] {
            return (a[i] as u32) < (b[i] as u32);
        }
        proof {
            assert(a@.skip(i as int).drop_first() =~= a@.skip(i + 1));
            assert(b@.skip(i as int).drop_first() =~= b@.skip(i + 1));
        }
        i = i + 1;
    }
    proof {
        assert(a@.skip(i as int).len() == a@.len() - i);
        assert(b@.skip(i as int).len() == b@.len() - i);
    }
    i < b.len()
}

pub(crate) struct Keyed {
    pub(crate) key: Vec<char>,
    pub(crate) value: Value,
}

pub(crate) open spec fn keyed_models(s: Seq<Keyed>) -> Seq<(Seq<char>, ValueModel)> {
    Seq::new(s.len(), |i: int| (s[i].key@, s[i].value.model()))
}

pub(crate) fn insert_keyed(v: &mut Vec<Keyed>, x: Keyed)
    ensures
        keyed_models(final(v)@) == insert_by_key(keyed_models(old(v)@), (x.key@, x.value.model())),
    decreases old(v)@.len(),
{
    let ghost old_km = keyed_models(v@);
    let ghost xm = (x.key@, x.value.model());
    if v.len() == 0 {
        v.push(x);
        proof {
            assert(keyed_models(v@) =~= seq![xm]);
        }
        return;
    }
    let last = v.pop().unwrap();
    let ghost lm = (last.key@, last.value.model());
    proof {
        assert(keyed_models(v@) =~= old_km.drop_last());
        assert(old_km[old_km.len() - 1] == lm);
    }
    if text_less(&x.key, &last.key) {
        insert_keyed(v, x);
        let ghost mid = keyed_models(v@);
        v.push(last);
        proof {
            assert(keyed_models(v@) =~= mid.push(lm));
        }
    } else {
        v.push(last);
        v.push(x);
        proof {
            assert(keyed_models(v@) =~= old_km.push(xm));
        }
    }
}

pub(crate) fn sort_key_text<F: Fn(FloatQuery) -> FloatAnswer>(v: &Value, floats: &F) -> (r: Vec<char>)
    requires
        float_service(*floats),
    ensures
        r@ == sort_key(*floats, v.model()),
{
    let mut out = String::new();
    match v {
        Value::Null => push_str(&mut out, "0:null"),
        Value::Bool(b) => {
            push_str(&mut out, "1:");
            if *b {
                push_str(&mut out, "true");
            } else {
                push_str(&mut out, "false");
            }
        },
        Value::Number(n) => {
            push_str(&mut out, "2:");
            let bits = numeric_float_bits(*n, floats);
            let t = float_text_of(floats, FloatQuery::Padded(bits));
            push_str(&mut out, t.as_str());
        },
        Value::String(s) => {
            push_str(&mut out, "3:");
            push_str(&mut out, s.as_str());
        },
        _ => {
            push_str(&mut out, "4:");
            let t = render_value(v, floats);
            push_str(&mut out, t.as_str());
        },
    }
    proof {
        assert(out@ =~= sort_key(*floats, v.model()));
    }
    chars_of(out.as_str())
}

fn sort_values<F: Fn(FloatQuery) -> FloatAnswer>(values: &Vec<Value>, floats: &F) -> (r: Vec<Value>)
    requires
        float_service(*floats),
    ensures
        models(r@) == sorted_items(*floats, models(values@)),
{
    let ghost ms = models(values@);
    let ghost ks = keyed_values(*floats, ms);
    proof {
        lemma_models(values@);
    }
    let mut keyed: Vec<Keyed> = Vec::new();
    let mut i: usize = 0;
    while i < values.len()
        invariant
            float_service(*floats),
            i <= values@.len(),
            ms == models(values@),
            ms.len() == values@.len(),
            forall|j: int| 0 <= j < values@.len() ==> #[trigger] ms[j] == values@[j].model(),
            ks == keyed_values(*floats, ms),
            keyed_models(keyed@) == sort_by_key(ks.take(i as int)),
        decreases values@.len() - i,
    {
        let key = sort_key_text(&values[i], floats);
        let value = values[i].duplicate();
        insert_keyed(&mut keyed, Keyed { key, value });
        proof {
            let t = ks.take(i as int + 1);
            assert(t.drop_last() =~= ks.take(i as int));
            assert(t[t.len() - 1] == ks[i as int]);
        }
        i = i + 1;
    }
    proof {
        assert(ks.take(values@.len() as int) =~= ks);
    }
    let ghost sorted = sort_by_key(ks);
    let mut out: Vec<Value> = Vec::new();
    let mut j: usize = 0;
    while j < keyed.len()
        invariant
            j <= keyed@.len(),
            keyed_models(keyed@) == sorted,
            out@.len() == j,
            forall|k: int| 0 <= k < j ==> #[trigger] out@[k].model() == sorted[k].1,
        decreases keyed@.len() - j,
    {
        let d = keyed[j].value.duplicate();
        proof {
            assert(keyed_models(keyed@)[j as int] == (keyed@[j as int].key@, keyed@[j as int].value.model()));
        }
        out.push(d);
        j = j + 1;
    }
    proof {
        lemma_models(out@);
        assert(models(out@) =~= sorted_items(*floats, ms));
    }
    out
}

// ---------------------------------------------------------------------------
// Extremes
// ---------------------------------------------------------------------------

/// A value's number as a float.
pub open spec fn float_number<F: Fn(FloatQuery) -> FloatAnswer>(f: F, m: ValueModel) -> Result<u64, ErrorModel> {
    match numeric_of(f, m) {
        Ok(n) => Ok(float_bits_of(f, n)),
        Err(e) => Err(e),
    }
}

/// Walks `items[i..]`, keeping the smallest (or largest) float so far.
pub open spec fn extreme_from<F: Fn(FloatQuery) -> FloatAnswer>(
    f: F,
    items: Seq<ValueModel>,
    i: int,
    sel: u64,
    min: bool,
) -> Result<u64, ErrorModel>
    decreases items.len() - i,
{
    if i < 0 || i >= items.len() {
        Ok(sel)
    } else {
        match float_number(f, items[i]) {
            Err(e) => Err(e),
            Ok(v) => extreme_from(
                f,
                items,
                i + 1,
                if (min && float_lt(v, sel)) || (!min && float_lt(sel, v)) {
                    v
                } else {
                    sel
                },
                min,
            ),
        }
    }
}

/// The smallest (or largest) of the values' numbers as a float; null for
/// no values; the first value that holds no number fails it.
pub open spec fn extreme<F: Fn(FloatQuery) -> FloatAnswer>(f: F, items: Seq<ValueModel>, min: bool) -> Result<ValueModel, ErrorModel> {
    if items.len() == 0 {
        Ok(ValueModel::Null)
    } else {
        match float_number(f, items[0]) {
            Err(e) => Err(e),
            Ok(first) => match extreme_from(f, items, 1, first, min) {
                Ok(b) => Ok(ValueModel::Number(Numeric::Float(b))),
                Err(e) => Err(e),
            },
        }
    }
}

pub(crate) fn float_number_of<F: Fn(FloatQuery) -> FloatAnswer>(v: &Value, floats: &F) -> (r: Result<u64, EvaluationError>)
    requires
        float_service(*floats),
    ensures
        match r {
            Ok(b) => float_number(*floats, v.model()) == Ok::<u64, ErrorModel>(b),
            Err(e) => float_number(*floats, v.model()) == Err::<u64, ErrorModel>(e.model()),
        },
{
    match v.as_numeric(floats) {
        Ok(n) => Ok(numeric_float_bits(n, floats)),
        Err(e) => Err(e),
    }
}

fn extreme_of<F: Fn(FloatQuery) -> FloatAnswer>(values: &Vec<Value>, min: bool, floats: &F) -> (r: Result<Value, EvaluationError>)
    requires
        float_service(*floats),
    ensures
        outcome(r) == extreme(*floats, models(values@), min),
{
    let ghost ms = models(values@);
    proof {
        lemma_models(values@);
    }
    if values.len() == 0 {
        return Ok(Value::Null);
    }
    proof {
        assert(ms[0] == values@[0].model());
    }
    let mut selected = match float_number_of(&values[0], floats) {
        Ok(b) => b,
        Err(e) => {
            return Err(e);
        },
    };
    let ghost first = selected;
    let mut i: usize = 1;
    while i < values.len()
        invariant
            float_service(*floats),
            1 <= i <= values@.len(),
            ms == models(values@),
            ms.len() == values@.len(),
            forall|j: int| 0 <= j < values@.len() ==> #[trigger] ms[j] == values@[j].model(),
            extreme_from(*floats, ms, i as int, selected, min) == extreme_from(*floats, ms, 1, first, min),
            float_number(*floats, ms[0]) == Ok::<u64, ErrorModel>(first),
        decreases values@.len() - i,
    {
        proof {
            assert(ms[i as int] == values@[i as int].model());
        }
        match float_number_of(&values[i], floats) {
            Ok(v) => {
                if (min && float_bits_lt(v, selected)) || (!min && float_bits_lt(selected, v)) {
                    selected = v;
                }
            },
            Err(e) => {
                return Err(e);
            },
        }
        i = i + 1;
    }
    Ok(Value::Number(Numeric::Float(selected)))
}

// ---------------------------------------------------------------------------
// The one-value operations
// ---------------------------------------------------------------------------

/// The type error for a value of the wrong kind.
pub open spec fn mismatch(expected: Seq<char>, m: ValueModel) -> ErrorModel {
    ErrorModel::TypeMismatch(expected, kind_name(m))
}

/// The length of a value: the byte length of a number's text, the number
/// of characters of a string, of items of an array, of entries of an
/// object; one for a boolean, zero for null.
pub open spec fn length_of<F: Fn(FloatQuery) -> FloatAnswer>(f: F, m: ValueModel) -> i64 {
    match m {
        ValueModel::Null => 0,
        ValueModel::Bool(_) => 1,
        ValueModel::Number(n) => utf8_len(number_text(f, n)) as i64,
        ValueModel::Str(s) => s.len() as i64,
        ValueModel::Array(items) => items.len() as i64,
        ValueModel::Object(entries) => entries.len() as i64,
    }
}

/// The upper-case form of a text, as `str::to_uppercase` gives it.
pub uninterp spec fn upper_case(s: Seq<char>) -> Seq<char>;

/// The lower-case form of a text, as `str::to_lowercase` gives it.
pub uninterp spec fn lower_case(s: Seq<char>) -> Seq<char>;

/// `str::to_uppercase`: the text with each character mapped by Unicode's
/// full case mapping. The mapping is named, not stated.
#[verifier::external_body]
fn to_upper_text(s: &str) -> (r: String)
    ensures
        r@ == upper_case(s@),
{
    s.to_uppercase()
}

/// `str::to_lowercase`: the text with each character mapped by Unicode's
/// full case mapping, final sigma included. The mapping is named, not
/// stated.
#[verifier::external_body]
fn to_lower_text(s: &str) -> (r: String)
    ensures
        r@ == lower_case(s@),
{
    s.to_lowercase()
}

/// What a one-value operation gives for `input`, the operation's text being
/// `text`.
pub open spec fn spec_unary<F: Fn(FloatQuery) -> FloatAnswer>(
    f: F,
    id: OperationId,
    text: Seq<char>,
    input: ValueModel,
) -> Result<ValueModel, ErrorModel> {
    match id {
        OperationId::Length => Ok(ValueModel::Number(Numeric::Int(length_of(f, input)))),
        OperationId::Keys => match input {
            ValueModel::Array(items) => Ok(
                ValueModel::Array(
                    Seq::new(items.len(), |i: int| ValueModel::Number(Numeric::Int(i as i64))),
                ),
            ),
            ValueModel::Object(entries) => Ok(
                ValueModel::Array(Seq::new(entries.len(), |i: int| ValueModel::Str(entries[i].0))),
            ),
            other => Err(mismatch("array or object"@, other)),
        },
        OperationId::ToNumber => match numeric_of(f, input) {
            Ok(n) => Ok(ValueModel::Number(n)),
            Err(e) => Err(e),
        },
        OperationId::ToString => Ok(ValueModel::Str(render_text(f, input))),
        OperationId::Trim => match input {
            ValueModel::Str(s) => Ok(ValueModel::Str(trimmed(s))),
            other => Err(mismatch("string"@, other)),
        },
        OperationId::ChangeCase => match input {
            ValueModel::Str(s) => Ok(
                ValueModel::Str(
                    if is_upper_case_operation(text) {
                        upper_case(s)
                    } else {
                        lower_case(s)
                    },
                ),
            ),
            other => Err(mismatch("string"@, other)),
        },
        OperationId::Split => match input {
            ValueModel::Str(s) => Ok(
                ValueModel::Array(string_models(split_parts(s, string_argument(text)))),
            ),
            other => Err(mismatch("string"@, other)),
        },
        OperationId::Join => match input {
            ValueModel::Array(items) => Ok(
                ValueModel::Str(
                    join_texts(
                        Seq::new(items.len(), |i: int| render_text(f, items[i])),
                        string_argument(text),
                    ),
                ),
            ),
            other => Err(mismatch("array"@, other)),
        },
        OperationId::First => match input {
            ValueModel::Array(items) => Ok(
                if items.len() == 0 {
                    ValueModel::Null
                } else {
                    items[0]
                },
            ),
            other => Err(mismatch("array"@, other)),
        },
        OperationId::Reverse => match input {
            ValueModel::Array(items) => Ok(
                ValueModel::Array(Seq::new(items.len(), |i: int| items[items.len() - 1 - i])),
            ),
            other => Err(mismatch("array"@, other)),
        },
        OperationId::Sort => match input {
            ValueModel::Array(items) => Ok(ValueModel::Array(sorted_items(f, items))),
            other => Err(mismatch("array"@, other)),
        },
        OperationId::Unique => match input {
            ValueModel::Array(items) => Ok(ValueModel::Array(unique_items(items))),
            other => Err(mismatch("array"@, other)),
        },
        OperationId::Flatten => match input {
            ValueModel::Array(items) => Ok(ValueModel::Array(flat_items(items, flatten_depth(text)))),
            other => Err(mismatch("array"@, other)),
        },
        OperationId::Min => match input {
            ValueModel::Array(items) => extreme(f, items, true),
            other => Err(mismatch("array"@, other)),
        },
        OperationId::Max => match input {
            ValueModel::Array(items) => extreme(f, items, false),
            other => Err(mismatch("array"@, other)),
        },
        OperationId::Any => match input {
            ValueModel::Array(items) => Ok(
                ValueModel::Bool(exists|i: int| 0 <= i < items.len() && #[trigger] truthy(items[i])),
            ),
            other => Err(mismatch("array"@, other)),
        },
        OperationId::All => match input {
            ValueModel::Array(items) => Ok(
                ValueModel::Bool(forall|i: int| 0 <= i < items.len() ==> #[trigger] truthy(items[i])),
            ),
            other => Err(mismatch("array"@, other)),
        },
        _ => Err(ErrorModel::UnsupportedOperation(op_name(id))),
    }
}

fn chars_to_string(c: &Vec<char>) -> (r: String)
    ensures
        r@ == c@,
{
    let r = string_of_range(c, 0, c.len());
    assert(c@.subrange(0, c@.len() as int) =~= c@);
    r
}

impl AllAtOnceEvaluator {
    /// Applies the one-value operation `id` to `input`; `operation_text` is
    /// the operation as written, from which a call argument is read. The
    /// float service `floats` answers for the floats involved.
    pub fn evaluate_input_unary<F: Fn(FloatQuery) -> FloatAnswer>(
        &self,
        id: OperationId,
        operation_text: &str,
        input: &Value,
        floats: &F,
    ) -> (r: Result<Value, EvaluationError>)
        requires
            float_service(*floats),
        ensures
            outcome(r) == spec_unary(*floats, id, operation_text@, input.model()),
    {
        let text = chars_of(operation_text);
        proof {
            match input {
                Value::Array(vs) => lemma_models(vs@),
                Value::Object(es) => lemma_entry_models(es@),
                _ => {},
            }
        }
        match id {
            OperationId::Length => {
                let n: i64 = match input {
                    Value::Null => 0,
                    Value::Bool(_) => 1,
                    Value::Number(v) => {
                        let t = number_display(*v, floats);
                        t.as_str().as_bytes().len() as i64
                    },
                    Value::String(s) => chars_of(s.as_str()).len() as i64,
                    Value::Array(vs) => vs.len() as i64,
                    Value::Object(es) => es.len() as i64,
                };
                Ok(Value::Number(Numeric::Int(n)))
            },
            OperationId::Keys => match input {
                Value::Array(vs) => {
                    let mut out: Vec<Value> = Vec::new();
                    let mut i: usize = 0;
                    while i < vs.len()
                        invariant
                            i <= vs@.len(),
                            out@.len() == i,
                            forall|j: int| 0 <= j < i ==> #[trigger] out@[j].model() == ValueModel::Number(Numeric::Int(j as i64)),
                        decreases vs@.len() - i,
                    {
                        out.push(Value::Number(Numeric::Int(i as i64)));
                        i = i + 1;
                    }
                    proof {
                        lemma_models(out@);
                        assert(models(out@) =~= Seq::new(models(vs@).len(), |i: int| ValueModel::Number(Numeric::Int(i as i64))));
                    }
                    Ok(Value::Array(out))
                },
                Value::Object(es) => {
                    let mut out: Vec<Value> = Vec::new();
                    let mut i: usize = 0;
                    while i < es.len()
                        invariant
                            i <= es@.len(),
                            out@.len() == i,
                            forall|j: int| 0 <= j < i ==> #[trigger] out@[j].model() == ValueModel::Str(es@[j].key@),
                        decreases es@.len() - i,
                    {
                        out.push(Value::String(es[i].key.clone()));
                        i = i + 1;
                    }
                    proof {
                        lemma_models(out@);
                        let em = entry_models(es@);
                        assert(models(out@) =~= Seq::new(em.len(), |i: int| ValueModel::Str(em[i].0)));
                    }
                    Ok(Value::Array(out))
                },
                other => Err(mismatch_error("array or object", other)),
            },
            OperationId::ToNumber => match input.as_numeric(floats) {
                Ok(n) => Ok(Value::Number(n)),
                Err(e) => Err(e),
            },
            OperationId::ToString => Ok(Value::String(render_value(input, floats))),
            OperationId::Trim => match input {
                Value::String(s) => {
                    let c = chars_of(s.as_str());
                    let t = trim_chars(&c);
                    Ok(Value::String(chars_to_string(&t)))
                },
                other => Err(mismatch_error("string", other)),
            },
            OperationId::ChangeCase => match input {
                Value::String(s) => {
                    if is_upper_case_operation_of(&text) {
                        Ok(Value::String(to_upper_text(s.as_str())))
                    } else {
                        Ok(Value::String(to_lower_text(s.as_str())))
                    }
                },
                other => Err(mismatch_error("string", other)),
            },
            OperationId::Split => match input {
                Value::String(s) => {
                    let sep = string_argument_of(&text);
                    let c = chars_of(s.as_str());
                    Ok(Value::Array(split_values(&c, &sep)))
                },
                other => Err(mismatch_error("string", other)),
            },
            OperationId::Join => match input {
                Value::Array(vs) => {
                    let sep = string_argument_of(&text);
                    let sep_text = chars_to_string(&sep);
                    let ghost ms = models(vs@);
                    let ghost parts = Seq::new(ms.len(), |i: int| render_text(*floats, ms[i]));
                    let mut out = String::new();
                    let mut i: usize = 0;
                    while i < vs.len()
                        invariant
                            float_service(*floats),
                            i <= vs@.len(),
                            ms == models(vs@),
                            ms.len() == vs@.len(),
                            forall|j: int| 0 <= j < vs@.len() ==> #[trigger] ms[j] == vs@[j].model(),
                            parts == Seq::new(ms.len(), |i: int| render_text(*floats, ms[i])),
                            sep_text@ == string_argument(operation_text@),
                            out@ == join_texts(parts.take(i as int), sep_text@),
                        decreases vs@.len() - i,
                    {
                        if i > 0 {
                            push_str(&mut out, sep_text.as_str());
                        }
                        let t = render_value(&vs[i], floats);
                        push_str(&mut out, t.as_str());
                        proof {
                            let p = parts.take(i as int + 1);
                            assert(p.drop_last() =~= parts.take(i as int));
                            assert(p[p.len() - 1] == parts[i as int]);
                            if i == 0 {
                                assert(p.len() == 1);
                                assert(Seq::<char>::empty() + parts[0] =~= parts[0]);
                            }
                        }
                        i = i + 1;
                    }
                    proof {
                        assert(parts.take(vs@.len() as int) =~= parts);
                    }
                    Ok(Value::String(out))
                },
                other => Err(mismatch_error("array", other)),
            },
            OperationId::First => match input {
                Value::Array(vs) => {
                    if vs.len() == 0 {
                        Ok(Value::Null)
                    } else {
                        Ok(vs[0].duplicate())
                    }
                },
                other => Err(mismatch_error("array", other)),
            },
            OperationId::Reverse => match input {
                Value::Array(vs) => {
                    let ghost ms = models(vs@);
                    let mut out: Vec<Value> = Vec::new();
                    let mut i: usize = vs.len();
                    while i > 0
                        invariant
                            i <= vs@.len(),
                            ms == models(vs@),
                            ms.len() == vs@.len(),
                            forall|j: int| 0 <= j < vs@.len() ==> #[trigger] ms[j] == vs@[j].model(),
                            out@.len() == vs@.len() - i,
                            forall|j: int| 0 <= j < out@.len() ==> #[trigger] out@[j].model() == ms[vs@.len() - 1 - j],
                        decreases i,
                    {
                        out.push(vs[i - 1].duplicate());
                        i = i - 1;
                    }
                    proof {
                        lemma_models(out@);
                        assert(models(out@) =~= Seq::new(ms.len(), |i: int| ms[ms.len() - 1 - i]));
                    }
                    Ok(Value::Array(out))
                },
                other => Err(mismatch_error("array", other)),
            },
            OperationId::Sort => match input {
                Value::Array(vs) => Ok(Value::Array(sort_values(vs, floats))),
                other => Err(mismatch_error("array", other)),
            },
            OperationId::Unique => match input {
                Value::Array(vs) => {
                    let ghost ms = models(vs@);
                    let mut out: Vec<Value> = Vec::new();
                    let mut i: usize = 0;
                    while i < vs.len()
                        invariant
                            i <= vs@.len(),
                            ms == models(vs@),
                            ms.len() == vs@.len(),
                            forall|j: int| 0 <= j < vs@.len() ==> #[trigger] ms[j] == vs@[j].model(),
                            models(out@) == unique_items(ms.take(i as int)),
                        decreases vs@.len() - i,
                    {
                        let ghost p = models(out@);
                        proof {
                            lemma_models(out@);
                            let t = ms.take(i as int + 1);
                            assert(t.drop_last() =~= ms.take(i as int));
                            assert(t[t.len() - 1] == ms[i as int]);
                        }
                        let ghost x = vs@[i as int].model();
                        let mut found = false;
                        let mut k: usize = 0;
                        while k < out.len()
                            invariant
                                k <= out@.len(),
                                i < vs@.len(),
                                x == vs@[i as int].model(),
                                p == models(out@),
                                p.len() == out@.len(),
                                forall|j: int| 0 <= j < out@.len() ==> #[trigger] p[j] == out@[j].model(),
                                found ==> exists|j: int| 0 <= j < p.len() && #[trigger] value_eq(p[j], x),
                                !found ==> forall|j: int| 0 <= j < k ==> !#[trigger] value_eq(p[j], x),
                            decreases out@.len() - k,
                        {
                            let same = values_same(&out[k], &vs[i]);
                            proof {
                                assert(p[k as int] == out@[k as int].model());
                            }
                            if same {
                                found = true;
                            }
                            k = k + 1;
                        }
                        if !found {
                            let ghost before = out@;
                            out.push(vs[i].duplicate());
                            proof {
                                assert(out@ =~= before.push(out@[out@.len() - 1]));
                                lemma_models_push(before, out@[out@.len() - 1]);
                                assert(models(out@) =~= p.push(ms[i as int]));
                            }
                        }
                        i = i + 1;
                    }
                    proof {
                        assert(ms.take(vs@.len() as int) =~= ms);
                    }
                    Ok(Value::Array(out))
                },
                other => Err(mismatch_error("array", other)),
            },
            OperationId::Flatten => match input {
                Value::Array(vs) => {
                    let depth = flatten_depth_of(&text);
                    let mut out: Vec<Value> = Vec::new();
                    flatten_into(vs, &mut out, depth);
                    proof {
                        assert(models(Seq::<Value>::empty()) =~= Seq::<ValueModel>::empty());
                        assert(Seq::<ValueModel>::empty() + flat_items(models(vs@), depth) =~= flat_items(models(vs@), depth));
                    }
                    Ok(Value::Array(out))
                },
                other => Err(mismatch_error("array", other)),
            },
            OperationId::Min | OperationId::Max => match input {
                Value::Array(vs) => extreme_of(vs, id == OperationId::Min, floats),
                other => Err(mismatch_error("array", other)),
            },
            OperationId::Any | OperationId::All => match input {
                Value::Array(vs) => {
                    let ghost ms = models(vs@);
                    let want_all = id == OperationId::All;
                    let mut i: usize = 0;
                    while i < vs.len()
                        invariant
                            i <= vs@.len(),
                            ms == models(vs@),
                            ms.len() == vs@.len(),
                            forall|j: int| 0 <= j < vs@.len() ==> #[trigger] ms[j] == vs@[j].model(),
                            want_all == (id == OperationId::All),
                            id == OperationId::Any || id == OperationId::All,
                            input.model() == ValueModel::Array(ms),
                            want_all ==> forall|j: int| 0 <= j < i ==> #[trigger] truthy(ms[j]),
                            !want_all ==> forall|j: int| 0 <= j < i ==> !#[trigger] truthy(ms[j]),
                        decreases vs@.len() - i,
                    {
                        let t = vs[i].truthy();
                        proof {
                            assert(ms[i as int] == vs@[i as int].model());
                            assert(truthy(ms[i as int]) == t);
                        }
                        if want_all && !t {
                            return Ok(Value::Bool(false));
                        }
                        if !want_all && t {
                            return Ok(Value::Bool(true));
                        }
                        i = i + 1;
                    }
                    Ok(Value::Bool(want_all))
                },
                other => Err(mismatch_error("array", other)),
            },
            _ => Err(EvaluationError::UnsupportedOperation(string_of(id.as_str()))),
        }
    }
}

} // verus!
