//! Stepping into objects by key and arrays by index, and asking whether a
//! value holds another.
use vstd::prelude::*;
use super::{string_of, mismatch_error};
use super::unary::float_number_of;
use super::binary::{find_key, lookup};
use super::numbers::{clamp, float_is_whole, float_trunc, numeric_index, numeric_path_key, spec_numeric_index, spec_numeric_path_key};
use super::ops::{op_name, AllAtOnceEvaluator, OperationId};
use super::unary::{
    float_number, mismatch,
};
use super::{
    float_bits_answer, float_bits_lt, float_lt, float_service, float_text, float_text_of, float_whole_answer, lemma_models, lemma_models_push, models, outcome, render_text, render_value, ErrorModel, FloatAnswer, FloatQuery, QueryModel, Value, ValueModel,
};
use crate::evaluation::EvaluationError;

verus! {

/// The error for a float that is no index.
pub open spec fn index_error<F: Fn(FloatQuery) -> FloatAnswer>(f: F, x: u64) -> ErrorModel {
    ErrorModel::TypeMismatch("non-negative integer"@, float_text(f, QueryModel::Display(x)))
}

/// A float is an index where it is whole and not below zero; the index is
/// its integer part saturated to `usize`.
pub open spec fn float_index<F: Fn(FloatQuery) -> FloatAnswer>(f: F, x: u64) -> Option<usize> {
    if !float_is_whole(f, x) || float_lt(x, 0) {
        None
    } else {
        Some(clamp(float_trunc(f, x) as int, 0, usize::MAX as int) as usize)
    }
}

/// The item at `k`, or null past the end.
pub open spec fn item_or_null(items: Seq<ValueModel>, k: usize) -> ValueModel {
    if k < items.len() {
        items[k as int]
    } else {
        ValueModel::Null
    }
}

/// The items at the indices `indices[i..]` appended to `acc`; one item
/// alone, else an array of them.
pub open spec fn select_from<F: Fn(FloatQuery) -> FloatAnswer>(
    f: F,
    items: Seq<ValueModel>,
    indices: Seq<ValueModel>,
    i: int,
    acc: Seq<ValueModel>,
) -> Result<ValueModel, ErrorModel>
    decreases indices.len() - i,
{
    if i < 0 || i >= indices.len() {
        Ok(
            if acc.len() == 1 {
                acc[0]
            } else {
                ValueModel::Array(acc)
            },
        )
    } else {
        match float_number(f, indices[i]) {
            Err(e) => Err(e),
            Ok(x) => match float_index(f, x) {
                None => Err(index_error(f, x)),
                Some(k) => select_from(f, items, indices, i + 1, acc.push(item_or_null(items, k))),
            },
        }
    }
}

/// A key from a path step: a string, or a number's path key.
pub open spec fn path_key<F: Fn(FloatQuery) -> FloatAnswer>(f: F, rhs: ValueModel) -> Result<Seq<char>, ErrorModel> {
    match rhs {
        ValueModel::Str(s) => Ok(s),
        ValueModel::Number(n) => match spec_numeric_path_key(f, n) {
            Some(k) => Ok(k),
            None => Err(mismatch("string"@, rhs)),
        },
        other => Err(mismatch("string"@, other)),
    }
}

/// What a traversal step gives: a key into an object (null where it is
/// missing), or into an array all of it, the items at several indices, or
/// the item at one index (null past the end).
pub open spec fn spec_traversal<F: Fn(FloatQuery) -> FloatAnswer>(
    f: F,
    id: OperationId,
    lhs: ValueModel,
    rhs: ValueModel,
) -> Result<ValueModel, ErrorModel> {
    match id {
        OperationId::TraversePath => match path_key(f, rhs) {
            Err(e) => Err(e),
            Ok(key) => match lhs {
                ValueModel::Object(entries) => Ok(
                    match lookup(entries, key) {
                        Some(v) => v,
                        None => ValueModel::Null,
                    },
                ),
                other => Err(mismatch("object"@, other)),
            },
        },
        OperationId::TraverseArray => match rhs {
            ValueModel::Array(indices) => if indices.len() == 0 {
                match lhs {
                    ValueModel::Array(_) => Ok(lhs),
                    other => Err(mismatch("array"@, other)),
                }
            } else {
                match lhs {
                    ValueModel::Array(items) => select_from(f, items, indices, 0, Seq::empty()),
                    other => Err(mismatch("array"@, other)),
                }
            },
            _ => match float_number(f, rhs) {
                Err(e) => Err(e),
                Ok(x) => match float_index(f, x) {
                    None => Err(index_error(f, x)),
                    Some(k) => match lhs {
                        ValueModel::Array(items) => Ok(item_or_null(items, k)),
                        other => Err(mismatch("array"@, other)),
                    },
                },
            },
        },
        _ => Err(ErrorModel::UnsupportedOperation(op_name(id))),
    }
}

fn float_index_of<F: Fn(FloatQuery) -> FloatAnswer>(x: u64, floats: &F) -> (r: Result<usize, EvaluationError>)
    requires
        float_service(*floats),
    ensures
        match r {
            Ok(k) => float_index(*floats, x) == Some(k),
            Err(e) => float_index(*floats, x) is None && e.model() == index_error(*floats, x),
        },
{
    let fr = float_bits_answer(floats, FloatQuery::Fract(x));
    if !super::float_bits_eq(fr, 0) || float_bits_lt(x, 0) {
        let t = float_text_of(floats, FloatQuery::Display(x));
        return Err(EvaluationError::TypeMismatch { expected: "non-negative integer", actual: t });
    }
    let w = float_whole_answer(floats, FloatQuery::Truncate(x));
    let k: usize = if w < 0 {
        0
    } else if w > (usize::MAX as i128) {
        usize::MAX
    } else {
        w as usize
    };
    Ok(k)
}

/// The items of `values` at the indices `indices`: the one item alone, else
/// an array of them.
pub fn select_array_indices<F: Fn(FloatQuery) -> FloatAnswer>(values: &Vec<Value>, indices: &Vec<Value>, floats: &F) -> (r: Result<Value, EvaluationError>)
    requires
        float_service(*floats),
    ensures
        outcome(r) == select_from(*floats, models(values@), models(indices@), 0, Seq::empty()),
{
    let ghost vm = models(values@);
    let ghost im = models(indices@);
    proof {
        lemma_models(values@);
        lemma_models(indices@);
    }
    let mut selected: Vec<Value> = Vec::new();
    let mut i: usize = 0;
    while i < indices.len()
        invariant
            float_service(*floats),
            i <= indices@.len(),
            vm == models(values@),
            im == models(indices@),
            vm.len() == values@.len(),
            im.len() == indices@.len(),
            forall|j: int| 0 <= j < values@.len() ==> #[trigger] vm[j] == values@[j].model(),
            forall|j: int| 0 <= j < indices@.len() ==> #[trigger] im[j] == indices@[j].model(),
            select_from(*floats, vm, im, i as int, models(selected@)) == select_from(*floats, vm, im, 0, Seq::empty()),
        decreases indices@.len() - i,
    {
        proof {
            assert(im[i as int] == indices@[i as int].model());
        }
        let x = match float_number_of(&indices[i], floats) {
            Ok(x) => x,
            Err(e) => {
                return Err(e);
            },
        };
        let k = match float_index_of(x, floats) {
            Ok(k) => k,
            Err(e) => {
                return Err(e);
            },
        };
        let ghost before = selected@;
        if k < values.len() {
            selected.push(values[k].duplicate());
        } else {
            selected.push(Value::Null);
        }
        proof {
            assert(selected@ =~= before.push(selected@[selected@.len() - 1]));
            lemma_models_push(before, selected@[selected@.len() - 1]);
        }
        i = i + 1;
    }
    proof {
        lemma_models(selected@);
    }
    if selected.len() == 1 {
        let v = selected.pop().unwrap();
        Ok(v)
    } else {
        Ok(Value::Array(selected))
    }
}

impl AllAtOnceEvaluator {
    /// Applies a traversal step (see [`spec_traversal`]).
    pub fn evaluate_traversal<F: Fn(FloatQuery) -> FloatAnswer>(
        &self,
        id: OperationId,
        lhs: Value,
        rhs: Value,
        floats: &F,
    ) -> (r: Result<Value, EvaluationError>)
        requires
            float_service(*floats),
        ensures
            outcome(r) == spec_traversal(*floats, id, lhs.model(), rhs.model()),
    {
        match id {
            OperationId::TraversePath => {
                let key: String = match &rhs {
                    Value::String(s) => s.clone(),
                    Value::Number(n) => match numeric_path_key(*n, floats) {
                        Some(k) => k,
                        None => {
                            return Err(mismatch_error("string", &rhs));
                        },
                    },
                    other => {
                        return Err(mismatch_error("string", other));
                    },
                };
                match &lhs {
                    Value::Object(es) => match find_key(es, key.as_str()) {
                        Some(k) => Ok(es[k].value.duplicate()),
                        None => Ok(Value::Null),
                    },
                    other => Err(mismatch_error("object", other)),
                }
            },
            OperationId::TraverseArray => {
                match &rhs {
                    Value::Array(indices) => {
                        proof {
                            lemma_models(indices@);
                        }
                        if indices.len() == 0 {
                            match &lhs {
                                Value::Array(_) => Ok(lhs),
                                other => Err(mismatch_error("array", other)),
                            }
                        } else {
                            match &lhs {
                                Value::Array(items) => select_array_indices(items, indices, floats),
                                other => Err(mismatch_error("array", other)),
                            }
                        }
                    },
                    _ => {
                        let x = match float_number_of(&rhs, floats) {
                            Ok(x) => x,
                            Err(e) => {
                                return Err(e);
                            },
                        };
                        let k = match float_index_of(x, floats) {
                            Ok(k) => k,
                            Err(e) => {
                                return Err(e);
                            },
                        };
                        match &lhs {
                            Value::Array(items) => {
                                proof {
                                    lemma_models(items@);
                                }
                                if k < items.len() {
                                    Ok(items[k].duplicate())
                                } else {
                                    Ok(Value::Null)
                                }
                            },
                            other => Err(mismatch_error("array", other)),
                        }
                    },
                }
            },
            _ => Err(EvaluationError::UnsupportedOperation(string_of(id.as_str()))),
        }
    }
}

/// What `has` gives: whether an object holds the key that the value
/// renders as, or an array is longer than the index.
pub open spec fn spec_value_has<F: Fn(FloatQuery) -> FloatAnswer>(f: F, lhs: ValueModel, rhs: ValueModel) -> Result<bool, ErrorModel> {
    match lhs {
        ValueModel::Object(entries) => Ok(lookup(entries, render_text(f, rhs)) is Some),
        ValueModel::Array(items) => match rhs {
            ValueModel::Number(n) => match spec_numeric_index(f, n) {
                Some(k) => Ok(k < items.len()),
                None => Err(mismatch("non-negative integer"@, rhs)),
            },
            other => Err(mismatch("non-negative integer"@, other)),
        },
        other => Err(mismatch("array or object"@, other)),
    }
}

pub open spec fn bool_outcome(r: Result<bool, EvaluationError>) -> Result<bool, ErrorModel> {
    match r {
        Ok(b) => Ok(b),
        Err(e) => Err(e.model()),
    }
}

impl AllAtOnceEvaluator {
    /// Whether `lhs` has `rhs` (see [`spec_value_has`]).
    pub fn value_has<F: Fn(FloatQuery) -> FloatAnswer>(&self, lhs: &Value, rhs: &Value, floats: &F) -> (r: Result<bool, EvaluationError>)
        requires
            float_service(*floats),
        ensures
            bool_outcome(r) == spec_value_has(*floats, lhs.model(), rhs.model()),
    {
        match lhs {
            Value::Object(es) => {
                let key = render_value(rhs, floats);
                Ok(find_key(es, key.as_str()).is_some())
            },
            Value::Array(vs) => {
                proof {
                    lemma_models(vs@);
                }
                match rhs {
                    Value::Number(n) => match numeric_index(*n, floats) {
                        Some(k) => Ok(k < vs.len()),
                        None => Err(mismatch_error("non-negative integer", rhs)),
                    },
                    other => Err(mismatch_error("non-negative integer", other)),
                }
            },
            other => Err(mismatch_error("array or object", other)),
        }
    }
}

} // verus!
