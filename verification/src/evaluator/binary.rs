//! Equality of values, lookups in objects, path and index traversal, and
//! the operations that take two values in.
use vstd::prelude::*;
use super::{string_of};
use super::unary::float_number_of;
use super::literal::numeric_of;
use super::numbers::{
    add_numbers, divide_numbers, modulo_numbers, multiply_numbers, numeric_equal, spec_add_numbers, spec_divide_numbers, spec_modulo_numbers, spec_multiply_numbers, spec_numeric_equal, spec_subtract_numbers, subtract_numbers,
};
use super::ops::{op_name, AllAtOnceEvaluator, OperationId};
use super::unary::{
    float_number, value_eq, values_same,
};
use super::{
    entry_models, float_bits_lt, float_is_nan, float_lt, float_rank, float_service, is_nan_bits, lemma_entry_models, lemma_models, models, outcome, render_text, render_value, truthy, Entry, ErrorModel, FloatAnswer, FloatQuery, Numeric, Value, ValueModel,
};
use crate::evaluation::EvaluationError;
use crate::text::{push_str, str_eq};

verus! {

// ---------------------------------------------------------------------------
// Lookup and equality
// ---------------------------------------------------------------------------

/// The value of the first entry with key `k`.
pub open spec fn lookup(es: Seq<(Seq<char>, ValueModel)>, k: Seq<char>) -> Option<ValueModel>
    decreases es.len(),
{
    if es.len() == 0 {
        None
    } else if es[0].0 == k {
        Some(es[0].1)
    } else {
        lookup(es.drop_first(), k)
    }
}

proof fn lemma_lookup(es: Seq<(Seq<char>, ValueModel)>, k: Seq<char>, i: int)
    requires
        0 <= i <= es.len(),
        forall|j: int| 0 <= j < i ==> es[j].0 != k,
    ensures
        i < es.len() && es[i].0 == k ==> lookup(es, k) == Some(es[i].1),
        i == es.len() ==> lookup(es, k) is None,
    decreases i,
{
    if i > 0 {
        lemma_lookup(es.drop_first(), k, i - 1);
        assert(es.drop_first().len() == es.len() - 1);
        if i < es.len() {
            assert(es.drop_first()[i - 1] == es[i]);
        }
        assert forall|j: int| 0 <= j < i - 1 implies es.drop_first()[j].0 != k by {
            assert(es.drop_first()[j] == es[j + 1]);
        }
    }
}

/// Where the first entry with key `k` is.
pub(crate) fn find_key(es: &Vec<Entry>, k: &str) -> (r: Option<usize>)
    ensures
        r matches Some(i) ==> i < es@.len() && lookup(entry_models(es@), k@) == Some(es@[i as int].value.model()),
        r is None ==> lookup(entry_models(es@), k@) is None,
{
    let ghost em = entry_models(es@);
    proof {
        lemma_entry_models(es@);
    }
    let mut i: usize = 0;
    while i < es.len()
        invariant
            i <= es@.len(),
            em == entry_models(es@),
            em.len() == es@.len(),
            forall|j: int| 0 <= j < es@.len() ==> #[trigger] em[j] == (es@[j].key@, es@[j].value.model()),
            forall|j: int| 0 <= j < i ==> em[j].0 != k@,
        decreases es@.len() - i,
    {
        if str_eq(es[i].key.as_str(), k) {
            proof {
                lemma_lookup(em, k@, i as int);
            }
            return Some(i);
        }
        proof {
            assert(em[i as int].0 != k@);
        }
        i = i + 1;
    }
    proof {
        lemma_lookup(em, k@, i as int);
    }
    None
}

/// `==` as the evaluator compares values: numbers across kinds, arrays item
/// by item, objects of one size whose entries the other holds equal; any
/// other two as `#[derive(PartialEq)]` compares them.
pub open spec fn values_equal<F: Fn(FloatQuery) -> FloatAnswer>(f: F, a: ValueModel, b: ValueModel) -> bool
    decreases a,
{
    match a {
        ValueModel::Number(x) => match b {
            ValueModel::Number(y) => spec_numeric_equal(f, x, y),
            _ => value_eq(a, b),
        },
        ValueModel::Array(xs) => match b {
            ValueModel::Array(ys) => items_equal(f, xs, ys),
            _ => value_eq(a, b),
        },
        ValueModel::Object(xs) => match b {
            ValueModel::Object(ys) => xs.len() == ys.len() && entries_held(f, xs, ys),
            _ => value_eq(a, b),
        },
        _ => value_eq(a, b),
    }
}

/// Two sequences of one length, equal item by item (see [`values_equal`]).
pub open spec fn items_equal<F: Fn(FloatQuery) -> FloatAnswer>(f: F, xs: Seq<ValueModel>, ys: Seq<ValueModel>) -> bool
    decreases xs,
{
    xs.len() == ys.len() && (xs.len() == 0 || (items_equal(f, xs.drop_last(), ys.drop_last())
        && values_equal(f, xs[xs.len() - 1], ys[ys.len() - 1])))
}

/// Each entry of `xs` has its key in `ys`, with an equal value.
pub open spec fn entries_held<F: Fn(FloatQuery) -> FloatAnswer>(
    f: F,
    xs: Seq<(Seq<char>, ValueModel)>,
    ys: Seq<(Seq<char>, ValueModel)>,
) -> bool
    decreases xs,
{
    xs.len() == 0 || (entries_held(f, xs.drop_last(), ys) && match lookup(ys, xs[xs.len() - 1].0) {
        Some(v) => values_equal(f, xs[xs.len() - 1].1, v),
        None => false,
    })
}

proof fn lemma_items_equal<F: Fn(FloatQuery) -> FloatAnswer>(f: F, xs: Seq<ValueModel>, ys: Seq<ValueModel>)
    ensures
        items_equal(f, xs, ys) == (xs.len() == ys.len() && forall|i: int|
            0 <= i < xs.len() ==> #[trigger] values_equal(f, xs[i], ys[i])),
    decreases xs.len(),
{
    if xs.len() > 0 && xs.len() == ys.len() {
        lemma_items_equal(f, xs.drop_last(), ys.drop_last());
        if items_equal(f, xs, ys) {
            assert forall|i: int| 0 <= i < xs.len() implies #[trigger] values_equal(f, xs[i], ys[i]) by {
                if i < xs.len() - 1 {
                    assert(xs.drop_last()[i] == xs[i]);
                    assert(ys.drop_last()[i] == ys[i]);
                }
            }
        }
        if forall|i: int| 0 <= i < xs.len() ==> #[trigger] values_equal(f, xs[i], ys[i]) {
            assert forall|i: int| 0 <= i < xs.drop_last().len() implies #[trigger] values_equal(
                f,
                xs.drop_last()[i],
                ys.drop_last()[i],
            ) by {
                assert(values_equal(f, xs[i], ys[i]));
            }
            assert(values_equal(f, xs[xs.len() - 1], ys[ys.len() - 1]));
        }
    }
}

pub open spec fn entry_held<F: Fn(FloatQuery) -> FloatAnswer>(f: F, x: (Seq<char>, ValueModel), ys: Seq<(Seq<char>, ValueModel)>) -> bool {
    match lookup(ys, x.0) {
        Some(v) => values_equal(f, x.1, v),
        None => false,
    }
}

proof fn lemma_entries_held<F: Fn(FloatQuery) -> FloatAnswer>(
    f: F,
    xs: Seq<(Seq<char>, ValueModel)>,
    ys: Seq<(Seq<char>, ValueModel)>,
)
    ensures
        entries_held(f, xs, ys) == forall|i: int| 0 <= i < xs.len() ==> #[trigger] entry_held(f, xs[i], ys),
    decreases xs.len(),
{
    if xs.len() > 0 {
        lemma_entries_held(f, xs.drop_last(), ys);
        if entries_held(f, xs, ys) {
            assert forall|i: int| 0 <= i < xs.len() implies #[trigger] entry_held(f, xs[i], ys) by {
                if i < xs.len() - 1 {
                    assert(xs.drop_last()[i] == xs[i]);
                }
            }
        }
        if forall|i: int| 0 <= i < xs.len() ==> #[trigger] entry_held(f, xs[i], ys) {
            assert forall|i: int| 0 <= i < xs.drop_last().len() implies #[trigger] entry_held(
                f,
                xs.drop_last()[i],
                ys,
            ) by {
                assert(entry_held(f, xs[i], ys));
            }
            assert(entry_held(f, xs[xs.len() - 1], ys));
        }
    }
}

/// Whether two values are equal (see [`values_equal`]).
pub fn values_equal_of<F: Fn(FloatQuery) -> FloatAnswer>(lhs: &Value, rhs: &Value, floats: &F) -> (r: bool)
    requires
        float_service(*floats),
    ensures
        r == values_equal(*floats, lhs.model(), rhs.model()),
    decreases lhs, 0nat,
{
    match (lhs, rhs) {
        (Value::Number(x), Value::Number(y)) => numeric_equal(*x, *y, floats),
        (Value::Array(xs), Value::Array(ys)) => items_equal_of(xs, ys, floats),
        (Value::Object(xs), Value::Object(ys)) => {
            proof {
                lemma_entry_models(xs@);
                lemma_entry_models(ys@);
            }
            xs.len() == ys.len() && entries_held_of(xs, ys, floats)
        },
        _ => values_same(lhs, rhs),
    }
}

fn items_equal_of<F: Fn(FloatQuery) -> FloatAnswer>(xs: &Vec<Value>, ys: &Vec<Value>, floats: &F) -> (r: bool)
    requires
        float_service(*floats),
    ensures
        r == items_equal(*floats, models(xs@), models(ys@)),
    decreases xs, 1nat,
{
    proof {
        lemma_models(xs@);
        lemma_models(ys@);
        lemma_items_equal(*floats, models(xs@), models(ys@));
    }
    if xs.len() != ys.len() {
        return false;
    }
    let mut i: usize = 0;
    while i < xs.len()
        invariant
            float_service(*floats),
            xs@.len() == ys@.len(),
            i <= xs@.len(),
            models(xs@).len() == xs@.len(),
            models(ys@).len() == ys@.len(),
            forall|j: int| 0 <= j < xs@.len() ==> #[trigger] models(xs@)[j] == xs@[j].model(),
            forall|j: int| 0 <= j < ys@.len() ==> #[trigger] models(ys@)[j] == ys@[j].model(),
            forall|j: int| 0 <= j < i ==> #[trigger] values_equal(*floats, models(xs@)[j], models(ys@)[j]),
        decreases xs@.len() - i,
    {
        if !values_equal_of(&xs[i], &ys[i], floats) {
            proof {
                assert(!values_equal(*floats, models(xs@)[i as int], models(ys@)[i as int]));
                lemma_items_equal(*floats, models(xs@), models(ys@));
            }
            return false;
        }
        i = i + 1;
    }
    proof {
        lemma_items_equal(*floats, models(xs@), models(ys@));
    }
    true
}

fn entries_held_of<F: Fn(FloatQuery) -> FloatAnswer>(xs: &Vec<Entry>, ys: &Vec<Entry>, floats: &F) -> (r: bool)
    requires
        float_service(*floats),
    ensures
        r == entries_held(*floats, entry_models(xs@), entry_models(ys@)),
    decreases xs, 1nat,
{
    let ghost xm = entry_models(xs@);
    let ghost ym = entry_models(ys@);
    proof {
        lemma_entry_models(xs@);
        lemma_entries_held(*floats, xm, ym);
    }
    let mut i: usize = 0;
    while i < xs.len()
        invariant
            float_service(*floats),
            i <= xs@.len(),
            xm == entry_models(xs@),
            ym == entry_models(ys@),
            xm.len() == xs@.len(),
            forall|j: int| 0 <= j < xs@.len() ==> #[trigger] xm[j] == (xs@[j].key@, xs@[j].value.model()),
            forall|j: int| 0 <= j < i ==> #[trigger] entry_held(*floats, xm[j], ym),
        decreases xs@.len() - i,
    {
        let held = match find_key(ys, xs[i].key.as_str()) {
            Some(k) => values_equal_of(&xs[i].value, &ys[k].value, floats),
            None => false,
        };
        proof {
            assert(xm[i as int] == (xs@[i as int].key@, xs@[i as int].value.model()));
            assert(held == entry_held(*floats, xm[i as int], ym));
        }
        if !held {
            proof {
                lemma_entries_held(*floats, xm, ym);
            }
            return false;
        }
        i = i + 1;
    }
    proof {
        lemma_entries_held(*floats, xm, ym);
    }
    true
}

// ---------------------------------------------------------------------------
// Two-value operations
// ---------------------------------------------------------------------------

/// `<=` on two floats.
pub open spec fn float_le(a: u64, b: u64) -> bool {
    !float_is_nan(a) && !float_is_nan(b) && float_rank(a) <= float_rank(b)
}

fn float_bits_le(a: u64, b: u64) -> (r: bool)
    ensures
        r == float_le(a, b),
{
    !is_nan_bits(a) && !is_nan_bits(b) && !float_bits_lt(b, a)
}

/// Both values' numbers, the left one asked first.
pub open spec fn number_pair<F: Fn(FloatQuery) -> FloatAnswer>(f: F, l: ValueModel, r: ValueModel) -> Result<(Numeric, Numeric), ErrorModel> {
    match numeric_of(f, l) {
        Err(e) => Err(e),
        Ok(a) => match numeric_of(f, r) {
            Err(e) => Err(e),
            Ok(b) => Ok((a, b)),
        },
    }
}

/// What an operation on two values gives; `lexeme` is the operator as
/// written, which a comparison is read from.
pub open spec fn spec_binary<F: Fn(FloatQuery) -> FloatAnswer>(
    f: F,
    lexeme: Seq<char>,
    id: OperationId,
    l: ValueModel,
    r: ValueModel,
) -> Result<ValueModel, ErrorModel> {
    match id {
        OperationId::Add => match (l, r) {
            (ValueModel::Number(a), ValueModel::Number(b)) => Ok(ValueModel::Number(spec_add_numbers(f, a, b))),
            (ValueModel::Str(a), ValueModel::Str(b)) => Ok(ValueModel::Str(a + b)),
            _ => Ok(ValueModel::Str(render_text(f, l) + render_text(f, r))),
        },
        OperationId::Subtract => match number_pair(f, l, r) {
            Ok((a, b)) => Ok(ValueModel::Number(spec_subtract_numbers(f, a, b))),
            Err(e) => Err(e),
        },
        OperationId::Multiply => match number_pair(f, l, r) {
            Ok((a, b)) => Ok(ValueModel::Number(spec_multiply_numbers(f, a, b))),
            Err(e) => Err(e),
        },
        OperationId::Divide => match number_pair(f, l, r) {
            Ok((a, b)) => match spec_divide_numbers(f, a, b) {
                Ok(n) => Ok(ValueModel::Number(n)),
                Err(e) => Err(e),
            },
            Err(e) => Err(e),
        },
        OperationId::Modulo => match number_pair(f, l, r) {
            Ok((a, b)) => match spec_modulo_numbers(f, a, b) {
                Ok(n) => Ok(ValueModel::Number(n)),
                Err(e) => Err(e),
            },
            Err(e) => Err(e),
        },
        OperationId::And => Ok(ValueModel::Bool(truthy(l) && truthy(r))),
        OperationId::Or => Ok(ValueModel::Bool(truthy(l) || truthy(r))),
        OperationId::Equals => Ok(ValueModel::Bool(values_equal(f, l, r))),
        OperationId::NotEquals => Ok(ValueModel::Bool(!values_equal(f, l, r))),
        OperationId::Alternative => Ok(
            if truthy(l) {
                l
            } else {
                r
            },
        ),
        OperationId::Relational => match float_number(f, l) {
            Err(e) => Err(e),
            Ok(a) => match float_number(f, r) {
                Err(e) => Err(e),
                Ok(b) => if lexeme == "<"@ {
                    Ok(ValueModel::Bool(float_lt(a, b)))
                } else if lexeme == "<="@ {
                    Ok(ValueModel::Bool(float_le(a, b)))
                } else if lexeme == ">"@ {
                    Ok(ValueModel::Bool(float_lt(b, a)))
                } else if lexeme == ">="@ {
                    Ok(ValueModel::Bool(float_le(b, a)))
                } else {
                    Err(ErrorModel::UnsupportedOperation(lexeme))
                },
            },
        },
        _ => Err(ErrorModel::UnsupportedOperation(op_name(id))),
    }
}

fn numbers_of<F: Fn(FloatQuery) -> FloatAnswer>(l: &Value, r: &Value, floats: &F) -> (p: Result<(Numeric, Numeric), EvaluationError>)
    requires
        float_service(*floats),
    ensures
        match p {
            Ok(ab) => number_pair(*floats, l.model(), r.model()) == Ok::<(Numeric, Numeric), ErrorModel>(ab),
            Err(e) => number_pair(*floats, l.model(), r.model()) == Err::<(Numeric, Numeric), ErrorModel>(e.model()),
        },
{
    let a = match l.as_numeric(floats) {
        Ok(a) => a,
        Err(e) => {
            return Err(e);
        },
    };
    match r.as_numeric(floats) {
        Ok(b) => Ok((a, b)),
        Err(e) => Err(e),
    }
}

impl AllAtOnceEvaluator {
    /// Applies the two-value operation `id` to `lhs` and `rhs`
    /// (see [`spec_binary`]).
    pub fn evaluate_binary<F: Fn(FloatQuery) -> FloatAnswer>(
        &self,
        lexeme: &str,
        id: OperationId,
        lhs: Value,
        rhs: Value,
        floats: &F,
    ) -> (r: Result<Value, EvaluationError>)
        requires
            float_service(*floats),
        ensures
            outcome(r) == spec_binary(*floats, lexeme@, id, lhs.model(), rhs.model()),
    {
        match id {
            OperationId::Add => match (&lhs, &rhs) {
                (Value::Number(a), Value::Number(b)) => Ok(Value::Number(add_numbers(*a, *b, floats))),
                (Value::String(a), Value::String(b)) => {
                    let mut out = a.clone();
                    push_str(&mut out, b.as_str());
                    Ok(Value::String(out))
                },
                _ => {
                    let mut out = render_value(&lhs, floats);
                    let t = render_value(&rhs, floats);
                    push_str(&mut out, t.as_str());
                    Ok(Value::String(out))
                },
            },
            OperationId::Subtract => match numbers_of(&lhs, &rhs, floats) {
                Ok((a, b)) => Ok(Value::Number(subtract_numbers(a, b, floats))),
                Err(e) => Err(e),
            },
            OperationId::Multiply => match numbers_of(&lhs, &rhs, floats) {
                Ok((a, b)) => Ok(Value::Number(multiply_numbers(a, b, floats))),
                Err(e) => Err(e),
            },
            OperationId::Divide => match numbers_of(&lhs, &rhs, floats) {
                Ok((a, b)) => match divide_numbers(a, b, floats) {
                    Ok(n) => Ok(Value::Number(n)),
                    Err(e) => Err(e),
                },
                Err(e) => Err(e),
            },
            OperationId::Modulo => match numbers_of(&lhs, &rhs, floats) {
                Ok((a, b)) => match modulo_numbers(a, b, floats) {
                    Ok(n) => Ok(Value::Number(n)),
                    Err(e) => Err(e),
                },
                Err(e) => Err(e),
            },
            OperationId::And => {
                let a = lhs.truthy();
                let b = rhs.truthy();
                Ok(Value::Bool(a && b))
            },
            OperationId::Or => {
                let a = lhs.truthy();
                let b = rhs.truthy();
                Ok(Value::Bool(a || b))
            },
            OperationId::Equals => Ok(Value::Bool(values_equal_of(&lhs, &rhs, floats))),
            OperationId::NotEquals => Ok(Value::Bool(!values_equal_of(&lhs, &rhs, floats))),
            OperationId::Alternative => {
                if lhs.truthy() {
                    Ok(lhs)
                } else {
                    Ok(rhs)
                }
            },
            OperationId::Relational => {
                let a = match float_number_of(&lhs, floats) {
                    Ok(a) => a,
                    Err(e) => {
                        return Err(e);
                    },
                };
                let b = match float_number_of(&rhs, floats) {
                    Ok(b) => b,
                    Err(e) => {
                        return Err(e);
                    },
                };
                if str_eq(lexeme, "<") {
                    Ok(Value::Bool(float_bits_lt(a, b)))
                } else if str_eq(lexeme, "<=") {
                    Ok(Value::Bool(float_bits_le(a, b)))
                } else if str_eq(lexeme, ">") {
                    Ok(Value::Bool(float_bits_lt(b, a)))
                } else if str_eq(lexeme, ">=") {
                    Ok(Value::Bool(float_bits_le(b, a)))
                } else {
                    Err(EvaluationError::UnsupportedOperation(string_of(lexeme)))
                }
            },
            _ => Err(EvaluationError::UnsupportedOperation(string_of(id.as_str()))),
        }
    }
}

} // verus!
