//! Evaluating an expression tree against a whole value.
use vstd::prelude::*;
use super::{string_of};
use super::binary::spec_binary;
use super::literal::literal_value;
use super::node::{
    assign_at, assign_path, consumes_array, contains_value, map_insert, map_insert_entry,
    pipe_rhs_consumes_array, segment_models, top_level_array_update, value_contains,
    is_top_level_array_update_assign, AssignPathSegment, ExpressionNode, SegmentModel,
    assign_path_value, flattens_top_level_array, should_flatten_top_level_array_result,
};
use super::ops::{
    AllAtOnceEvaluator, OperationId,
};
use super::traversal::{
    spec_traversal, spec_value_has,
};
use super::unary::{
    insert_keyed, keyed_models, mismatch, sort_by_key, sort_key, sort_key_text, spec_unary, Keyed,
};
use super::{
    entry_models, float_service, lemma_entry_models, lemma_models, lemma_models_push, models,
    outcome, render_text, render_value, truthy, Entry, ErrorModel, FloatAnswer, FloatQuery, Value,
    ValueModel,
};
use crate::evaluation::EvaluationError;

verus! {

/// How each item's result is kept: mapped, piped (a select's null
/// dropped), or the item filtered by its result's truth.
pub open spec fn each_step(p: Seq<ValueModel>, item: ValueModel, v: ValueModel, mode: u8, rhs_id: OperationId) -> Seq<ValueModel> {
    if mode == 0 {
        p.push(v)
    } else if mode == 1 {
        if (rhs_id == OperationId::Select || rhs_id == OperationId::Filter) && v is Null {
            p
        } else {
            p.push(v)
        }
    } else {
        if truthy(v) {
            p.push(item)
        } else {
            p
        }
    }
}

/// The stable sort of `values` by the sort keys of `keys`.
pub open spec fn sorted_by_keys<F: Fn(FloatQuery) -> FloatAnswer>(f: F, keys: Seq<ValueModel>, values: Seq<ValueModel>) -> Seq<ValueModel> {
    let s = sort_by_key(Seq::new(values.len(), |i: int| (sort_key(f, keys[i]), values[i])));
    Seq::new(s.len(), |i: int| s[i].1)
}

/// The entries of `vs` put one by one into `acc`.
pub open spec fn extend_entries(acc: Seq<(Seq<char>, ValueModel)>, vs: Seq<(Seq<char>, ValueModel)>) -> Seq<(Seq<char>, ValueModel)>
    decreases vs.len(),
{
    if vs.len() == 0 {
        acc
    } else {
        map_insert(extend_entries(acc, vs.drop_last()), vs[vs.len() - 1].0, vs[vs.len() - 1].1)
    }
}

/// An assignment's result: `input` with `assigned` written at the path
/// that `lhs` names.
pub open spec fn assign_value<F: Fn(FloatQuery) -> FloatAnswer>(f: F, input: ValueModel, lhs: ExpressionNode, assigned: ValueModel) -> Result<ValueModel, ErrorModel> {
    match assign_path(f, lhs) {
        Err(e) => Err(e),
        Ok(p) => Ok(assign_at(input, p, 0, assigned)),
    }
}

/// What evaluating `node` against `input` gives.
pub open spec fn eval<F: Fn(FloatQuery) -> FloatAnswer>(f: F, input: ValueModel, node: ExpressionNode) -> Result<ValueModel, ErrorModel>
    decreases node, 0nat,
{
    let id = node.operation.id;
    let text = node.operation.string_value@;
    match id {
        OperationId::Value => Ok(literal_value(f, text)),
        OperationId::SelfRef => Ok(input),
        OperationId::Empty => Ok(ValueModel::Array(Seq::empty())),
        OperationId::Not => match node.rhs {
            None => Err(ErrorModel::MissingOperand("rhs"@)),
            Some(r) => match eval(f, input, *r) {
                Err(e) => Err(e),
                Ok(v) => Ok(ValueModel::Bool(!truthy(v))),
            },
        },
        OperationId::Pipe | OperationId::ShortPipe => match node.lhs {
            None => Err(ErrorModel::MissingOperand("lhs"@)),
            Some(l) => match node.rhs {
                None => Err(ErrorModel::MissingOperand("rhs"@)),
                Some(r) => match eval(f, input, *l) {
                    Err(e) => Err(e),
                    Ok(piped) => match piped {
                        ValueModel::Array(values) => if consumes_array(*r) {
                            eval(f, piped, *r)
                        } else {
                            match each(f, values, *r, 1) {
                                Ok(out) => Ok(ValueModel::Array(out)),
                                Err(e) => Err(e),
                            }
                        },
                        _ => if (l.operation.id == OperationId::Select || l.operation.id
                            == OperationId::Filter) && piped is Null {
                            Ok(ValueModel::Array(Seq::empty()))
                        } else {
                            eval(f, piped, *r)
                        },
                    },
                },
            },
        },
        OperationId::Block => match node.lhs {
            None => Err(ErrorModel::MissingOperand("lhs"@)),
            Some(l) => match node.rhs {
                None => Err(ErrorModel::MissingOperand("rhs"@)),
                Some(r) => match eval(f, input, *l) {
                    Err(e) => Err(e),
                    Ok(_) => eval(f, input, *r),
                },
            },
        },
        OperationId::Assign => match node.lhs {
            None => Err(ErrorModel::MissingOperand("lhs"@)),
            Some(l) => match node.rhs {
                None => Err(ErrorModel::MissingOperand("rhs"@)),
                Some(r) => if node.operation.update_assign {
                    match eval(f, input, *l) {
                        Err(e) => Err(e),
                        Ok(current) => {
                            let assigned = match current {
                                ValueModel::Array(values) => match each(f, values, *r, 0) {
                                    Ok(out) => Ok(ValueModel::Array(out)),
                                    Err(e) => Err(e),
                                },
                                _ => eval(f, current, *r),
                            };
                            match assigned {
                                Err(e) => Err(e),
                                Ok(a) => if top_level_array_update(*l) {
                                    Ok(a)
                                } else {
                                    assign_value(f, input, *l, a)
                                },
                            }
                        },
                    }
                } else {
                    match eval(f, input, *r) {
                        Err(e) => Err(e),
                        Ok(a) => assign_value(f, input, *l, a),
                    }
                },
            },
        },
        OperationId::CreateMap => match node.lhs {
            None => Err(ErrorModel::MissingOperand("lhs"@)),
            Some(l) => match node.rhs {
                None => Err(ErrorModel::MissingOperand("rhs"@)),
                Some(r) => match eval(f, input, *l) {
                    Err(e) => Err(e),
                    Ok(k) => match eval(f, input, *r) {
                        Err(e) => Err(e),
                        Ok(v) => Ok(ValueModel::Object(seq![(render_text(f, k), v)])),
                    },
                },
            },
        },
        OperationId::Collect => match node.rhs {
            None => Err(ErrorModel::MissingOperand("rhs"@)),
            Some(r) => match union_items(f, input, *r) {
                Ok(items) => Ok(ValueModel::Array(items)),
                Err(e) => Err(e),
            },
        },
        OperationId::CollectObject => match node.rhs {
            None => Err(ErrorModel::MissingOperand("rhs"@)),
            Some(r) => match object_entries(f, input, *r, Seq::empty()) {
                Ok(es) => Ok(ValueModel::Object(es)),
                Err(e) => Err(e),
            },
        },
        OperationId::Union => match node.lhs {
            None => Err(ErrorModel::MissingOperand("lhs"@)),
            Some(l) => match node.rhs {
                None => Err(ErrorModel::MissingOperand("rhs"@)),
                Some(r) => match union_items(f, input, *l) {
                    Err(e) => Err(e),
                    Ok(a) => match union_items(f, input, *r) {
                        Err(e) => Err(e),
                        Ok(b) => Ok(ValueModel::Array(a + b)),
                    },
                },
            },
        },
        OperationId::TraversePath | OperationId::TraverseArray => {
            let lhs_r = match node.lhs {
                Some(l) => eval(f, input, *l),
                None => Ok(input),
            };
            match lhs_r {
                Err(e) => Err(e),
                Ok(lv) => {
                    let rhs_r = match node.rhs {
                        Some(r) => eval(f, input, *r),
                        None => if id == OperationId::TraversePath {
                            Ok(ValueModel::Str(text))
                        } else {
                            Ok(ValueModel::Array(Seq::empty()))
                        },
                    };
                    match rhs_r {
                        Err(e) => Err(e),
                        Ok(rv) => spec_traversal(f, id, lv, rv),
                    }
                },
            }
        },
        OperationId::MapItems => match node.rhs {
            None => Err(ErrorModel::MissingOperand("rhs"@)),
            Some(r) => match input {
                ValueModel::Array(values) => match each(f, values, *r, 0) {
                    Ok(out) => Ok(ValueModel::Array(out)),
                    Err(e) => Err(e),
                },
                other => Err(mismatch("array"@, other)),
            },
        },
        OperationId::Select | OperationId::Filter => match node.rhs {
            None => Err(ErrorModel::MissingOperand("rhs"@)),
            Some(r) => match input {
                ValueModel::Array(values) => match each(f, values, *r, 2) {
                    Ok(out) => Ok(ValueModel::Array(out)),
                    Err(e) => Err(e),
                },
                _ => match eval(f, input, *r) {
                    Err(e) => Err(e),
                    Ok(res) => Ok(
                        if truthy(res) {
                            input
                        } else {
                            ValueModel::Null
                        },
                    ),
                },
            },
        },
        OperationId::SortBy => match node.rhs {
            None => Err(ErrorModel::MissingOperand("rhs"@)),
            Some(r) => match input {
                ValueModel::Array(values) => match each(f, values, *r, 0) {
                    Ok(keys) => Ok(ValueModel::Array(sorted_by_keys(f, keys, values))),
                    Err(e) => Err(e),
                },
                other => Err(mismatch("array"@, other)),
            },
        },
        OperationId::Length | OperationId::Keys | OperationId::ToNumber | OperationId::ToString
        | OperationId::Trim | OperationId::ChangeCase | OperationId::Split | OperationId::Join
        | OperationId::First | OperationId::Reverse | OperationId::Flatten | OperationId::Min
        | OperationId::Max | OperationId::Any | OperationId::All | OperationId::Sort
        | OperationId::Unique => spec_unary(f, id, text, input),
        OperationId::Contains | OperationId::Has => {
            let lhs_r = match node.lhs {
                Some(l) => eval(f, input, *l),
                None => Ok(input),
            };
            match lhs_r {
                Err(e) => Err(e),
                Ok(lv) => match node.rhs {
                    None => Err(ErrorModel::MissingOperand("rhs"@)),
                    Some(r) => match eval(f, input, *r) {
                        Err(e) => Err(e),
                        Ok(rv) => if id == OperationId::Contains {
                            Ok(ValueModel::Bool(contains_value(lv, rv)))
                        } else {
                            match spec_value_has(f, lv, rv) {
                                Ok(b) => Ok(ValueModel::Bool(b)),
                                Err(e) => Err(e),
                            }
                        },
                    },
                },
            }
        },
        _ => match node.lhs {
            None => Err(ErrorModel::MissingOperand("lhs"@)),
            Some(l) => match node.rhs {
                None => Err(ErrorModel::MissingOperand("rhs"@)),
                Some(r) => match eval(f, input, *l) {
                    Err(e) => Err(e),
                    Ok(lv) => match eval(f, input, *r) {
                        Err(e) => Err(e),
                        Ok(rv) => spec_binary(f, text, id, lv, rv),
                    },
                },
            },
        },
    }
}

/// `rhs` evaluated against each item in turn, kept as `mode` says; the
/// first failure ends it.
pub open spec fn each<F: Fn(FloatQuery) -> FloatAnswer>(f: F, items: Seq<ValueModel>, rhs: ExpressionNode, mode: u8) -> Result<Seq<ValueModel>, ErrorModel>
    decreases rhs, items.len() + 1,
{
    if items.len() == 0 {
        Ok(Seq::empty())
    } else {
        match each(f, items.drop_last(), rhs, mode) {
            Err(e) => Err(e),
            Ok(p) => match eval(f, items[items.len() - 1], rhs) {
                Err(e) => Err(e),
                Ok(v) => Ok(each_step(p, items[items.len() - 1], v, mode, rhs.operation.id)),
            },
        }
    }
}

/// The items of a union: each side's items in turn, nothing for `empty`,
/// any other node's value as one item.
pub open spec fn union_items<F: Fn(FloatQuery) -> FloatAnswer>(f: F, input: ValueModel, node: ExpressionNode) -> Result<Seq<ValueModel>, ErrorModel>
    decreases node, 1nat,
{
    match node.operation.id {
        OperationId::Union => match node.lhs {
            None => Err(ErrorModel::MissingOperand("lhs"@)),
            Some(l) => match node.rhs {
                None => Err(ErrorModel::MissingOperand("rhs"@)),
                Some(r) => match union_items(f, input, *l) {
                    Err(e) => Err(e),
                    Ok(a) => match union_items(f, input, *r) {
                        Err(e) => Err(e),
                        Ok(b) => Ok(a + b),
                    },
                },
            },
        },
        OperationId::Empty => Ok(Seq::empty()),
        _ => match eval(f, input, node) {
            Err(e) => Err(e),
            Ok(v) => Ok(seq![v]),
        },
    }
}

/// The entries of an object construction put into `acc`: a pair's key
/// (rendered) and value, an object's entries, nothing for `empty`.
pub open spec fn object_entries<F: Fn(FloatQuery) -> FloatAnswer>(
    f: F,
    input: ValueModel,
    node: ExpressionNode,
    acc: Seq<(Seq<char>, ValueModel)>,
) -> Result<Seq<(Seq<char>, ValueModel)>, ErrorModel>
    decreases node, 1nat,
{
    match node.operation.id {
        OperationId::Union => match node.lhs {
            None => Err(ErrorModel::MissingOperand("lhs"@)),
            Some(l) => match node.rhs {
                None => Err(ErrorModel::MissingOperand("rhs"@)),
                Some(r) => match object_entries(f, input, *l, acc) {
                    Err(e) => Err(e),
                    Ok(a) => object_entries(f, input, *r, a),
                },
            },
        },
        OperationId::Empty => Ok(acc),
        OperationId::CreateMap => match node.lhs {
            None => Err(ErrorModel::MissingOperand("lhs"@)),
            Some(l) => match node.rhs {
                None => Err(ErrorModel::MissingOperand("rhs"@)),
                Some(r) => match eval(f, input, *l) {
                    Err(e) => Err(e),
                    Ok(k) => match eval(f, input, *r) {
                        Err(e) => Err(e),
                        Ok(v) => Ok(map_insert(acc, render_text(f, k), v)),
                    },
                },
            },
        },
        _ => match eval(f, input, node) {
            Err(e) => Err(e),
            Ok(ValueModel::Object(vs)) => Ok(extend_entries(acc, vs)),
            Ok(other) => Err(mismatch("object"@, other)),
        },
    }
}

proof fn lemma_each_err<F: Fn(FloatQuery) -> FloatAnswer>(f: F, items: Seq<ValueModel>, rhs: ExpressionNode, mode: u8, k: int)
    requires
        0 <= k <= items.len(),
        each(f, items.take(k), rhs, mode) is Err,
    ensures
        each(f, items, rhs, mode) == each(f, items.take(k), rhs, mode),
    decreases items.len(),
{
    if k == items.len() {
        assert(items.take(k) =~= items);
    } else {
        assert(items.drop_last().take(k) =~= items.take(k));
        lemma_each_err(f, items.drop_last(), rhs, mode, k);
    }
}

proof fn lemma_each_len<F: Fn(FloatQuery) -> FloatAnswer>(f: F, items: Seq<ValueModel>, rhs: ExpressionNode)
    ensures
        each(f, items, rhs, 0) matches Ok(p) ==> p.len() == items.len(),
    decreases items.len(),
{
    if items.len() > 0 {
        lemma_each_len(f, items.drop_last(), rhs);
    }
}

pub open spec fn items_outcome(r: Result<Vec<Value>, EvaluationError>) -> Result<Seq<ValueModel>, ErrorModel> {
    match r {
        Ok(v) => Ok(models(v@)),
        Err(e) => Err(e.model()),
    }
}

pub open spec fn entries_outcome(r: Result<Vec<Entry>, EvaluationError>) -> Result<Seq<(Seq<char>, ValueModel)>, ErrorModel> {
    match r {
        Ok(v) => Ok(entry_models(v@)),
        Err(e) => Err(e.model()),
    }
}

fn extend_with(acc: &mut Vec<Entry>, vs: &Vec<Entry>)
    ensures
        entry_models(final(acc)@) == extend_entries(entry_models(old(acc)@), entry_models(vs@)),
{
    let ghost start = entry_models(acc@);
    let ghost vm = entry_models(vs@);
    proof {
        lemma_entry_models(vs@);
    }
    let mut i: usize = 0;
    while i < vs.len()
        invariant
            i <= vs@.len(),
            vm == entry_models(vs@),
            vm.len() == vs@.len(),
            forall|j: int| 0 <= j < vs@.len() ==> #[trigger] vm[j] == (vs@[j].key@, vs@[j].value.model()),
            entry_models(acc@) == extend_entries(start, vm.take(i as int)),
        decreases vs@.len() - i,
    {
        let k = vs[i].key.clone();
        let v = vs[i].value.duplicate();
        map_insert_entry(acc, k, v);
        proof {
            let t = vm.take(i as int + 1);
            assert(t.drop_last() =~= vm.take(i as int));
            assert(t[t.len() - 1] == vm[i as int]);
        }
        i = i + 1;
    }
    proof {
        assert(vm.take(vs@.len() as int) =~= vm);
    }
}

impl AllAtOnceEvaluator {
    /// Evaluates `node` against `input` (see [`eval`]). The float service
    /// `floats` answers for the floats involved.
    #[verifier::rlimit(100)]
    pub fn evaluate_owned_node<F: Fn(FloatQuery) -> FloatAnswer>(&self, input: &Value, node: &ExpressionNode, floats: &F) -> (r: Result<Value, EvaluationError>)
        requires
            float_service(*floats),
        ensures
            outcome(r) == eval(*floats, input.model(), *node),
        decreases node, 0nat,
    {
        let id = node.operation.id;
        match id {
            OperationId::Value => Ok(Value::from_literal(node.operation.string_value.as_str(), floats)),
            OperationId::SelfRef => Ok(input.duplicate()),
            OperationId::Empty => Ok(Value::Array(Vec::new())),
            OperationId::Not => {
                let r = match &node.rhs {
                    Some(r) => r,
                    None => {
                        return Err(EvaluationError::MissingOperand("rhs"));
                    },
                };
                match self.evaluate_owned_node(input, r, floats) {
                    Ok(v) => Ok(Value::Bool(!v.truthy())),
                    Err(e) => Err(e),
                }
            },
            OperationId::Pipe | OperationId::ShortPipe => {
                let l = match &node.lhs {
                    Some(l) => l,
                    None => {
                        return Err(EvaluationError::MissingOperand("lhs"));
                    },
                };
                let r = match &node.rhs {
                    Some(r) => r,
                    None => {
                        return Err(EvaluationError::MissingOperand("rhs"));
                    },
                };
                let piped = match self.evaluate_owned_node(input, l, floats) {
                    Ok(v) => v,
                    Err(e) => {
                        return Err(e);
                    },
                };
                match piped {
                    Value::Array(values) => {
                        if pipe_rhs_consumes_array(r) {
                            self.evaluate_owned_node(&Value::Array(values), r, floats)
                        } else {
                            match self.evaluate_each(&values, r, 1, floats) {
                                Ok(out) => Ok(Value::Array(out)),
                                Err(e) => Err(e),
                            }
                        }
                    },
                    value => {
                        let is_null = match &value {
                            Value::Null => true,
                            _ => false,
                        };
                        if (l.operation.id == OperationId::Select || l.operation.id == OperationId::Filter) && is_null {
                            Ok(Value::Array(Vec::new()))
                        } else {
                            self.evaluate_owned_node(&value, r, floats)
                        }
                    },
                }
            },
            OperationId::Block => {
                let l = match &node.lhs {
                    Some(l) => l,
                    None => {
                        return Err(EvaluationError::MissingOperand("lhs"));
                    },
                };
                let r = match &node.rhs {
                    Some(r) => r,
                    None => {
                        return Err(EvaluationError::MissingOperand("rhs"));
                    },
                };
                match self.evaluate_owned_node(input, l, floats) {
                    Ok(_) => self.evaluate_owned_node(input, r, floats),
                    Err(e) => Err(e),
                }
            },
            OperationId::Assign => {
                let l = match &node.lhs {
                    Some(l) => l,
                    None => {
                        return Err(EvaluationError::MissingOperand("lhs"));
                    },
                };
                let r = match &node.rhs {
                    Some(r) => r,
                    None => {
                        return Err(EvaluationError::MissingOperand("rhs"));
                    },
                };
                if node.operation.update_assign {
                    let current = match self.evaluate_owned_node(input, l, floats) {
                        Ok(v) => v,
                        Err(e) => {
                            return Err(e);
                        },
                    };
                    let assigned = match current {
                        Value::Array(values) => match self.evaluate_each(&values, r, 0, floats) {
                            Ok(out) => Value::Array(out),
                            Err(e) => {
                                return Err(e);
                            },
                        },
                        value => match self.evaluate_owned_node(&value, r, floats) {
                            Ok(v) => v,
                            Err(e) => {
                                return Err(e);
                            },
                        },
                    };
                    if is_top_level_array_update_assign(l) {
                        return Ok(assigned);
                    }
                    self.evaluate_assign(input, l, assigned, floats)
                } else {
                    match self.evaluate_owned_node(input, r, floats) {
                        Ok(a) => self.evaluate_assign(input, l, a, floats),
                        Err(e) => Err(e),
                    }
                }
            },
            OperationId::CreateMap => {
                let l = match &node.lhs {
                    Some(l) => l,
                    None => {
                        return Err(EvaluationError::MissingOperand("lhs"));
                    },
                };
                let r = match &node.rhs {
                    Some(r) => r,
                    None => {
                        return Err(EvaluationError::MissingOperand("rhs"));
                    },
                };
                let k = match self.evaluate_owned_node(input, l, floats) {
                    Ok(k) => k,
                    Err(e) => {
                        return Err(e);
                    },
                };
                let v = match self.evaluate_owned_node(input, r, floats) {
                    Ok(v) => v,
                    Err(e) => {
                        return Err(e);
                    },
                };
                let key = render_value(&k, floats);
                let mut es: Vec<Entry> = Vec::new();
                es.push(Entry { key, value: v });
                proof {
                    lemma_entry_models(es@);
                    assert(entry_models(es@) =~= seq![(render_text(*floats, k.model()), v.model())]);
                }
                Ok(Value::Object(es))
            },
            OperationId::Collect => {
                let r = match &node.rhs {
                    Some(r) => r,
                    None => {
                        return Err(EvaluationError::MissingOperand("rhs"));
                    },
                };
                match self.collect_union_items(input, r, floats) {
                    Ok(items) => Ok(Value::Array(items)),
                    Err(e) => Err(e),
                }
            },
            OperationId::CollectObject => {
                let r = match &node.rhs {
                    Some(r) => r,
                    None => {
                        return Err(EvaluationError::MissingOperand("rhs"));
                    },
                };
                proof {
                    lemma_entry_models(Seq::<Entry>::empty());
                    assert(entry_models(Seq::<Entry>::empty()) =~= Seq::<(Seq<char>, ValueModel)>::empty());
                }
                match self.collect_object_entries(input, r, Vec::new(), floats) {
                    Ok(es) => Ok(Value::Object(es)),
                    Err(e) => Err(e),
                }
            },
            OperationId::Union => {
                let l = match &node.lhs {
                    Some(l) => l,
                    None => {
                        return Err(EvaluationError::MissingOperand("lhs"));
                    },
                };
                let r = match &node.rhs {
                    Some(r) => r,
                    None => {
                        return Err(EvaluationError::MissingOperand("rhs"));
                    },
                };
                let mut a = match self.collect_union_items(input, l, floats) {
                    Ok(a) => a,
                    Err(e) => {
                        return Err(e);
                    },
                };
                let mut b = match self.collect_union_items(input, r, floats) {
                    Ok(b) => b,
                    Err(e) => {
                        return Err(e);
                    },
                };
                let ghost sa = a@;
                let ghost sb = b@;
                a.append(&mut b);
                proof {
                    assert(a@ =~= sa + sb);
                    super::lemma_models_append(sa, sb);
                }
                Ok(Value::Array(a))
            },
            OperationId::TraversePath | OperationId::TraverseArray => {
                let lv = match &node.lhs {
                    Some(l) => match self.evaluate_owned_node(input, l, floats) {
                        Ok(v) => v,
                        Err(e) => {
                            return Err(e);
                        },
                    },
                    None => input.duplicate(),
                };
                let rv = match &node.rhs {
                    Some(r) => match self.evaluate_owned_node(input, r, floats) {
                        Ok(v) => v,
                        Err(e) => {
                            return Err(e);
                        },
                    },
                    None => if id == OperationId::TraversePath {
                        Value::String(node.operation.string_value.clone())
                    } else {
                        Value::Array(Vec::new())
                    },
                };
                proof {
                    assert(models(Seq::<Value>::empty()) =~= Seq::<ValueModel>::empty());
                }
                self.evaluate_traversal(id, lv, rv, floats)
            },
            OperationId::MapItems => {
                let r = match &node.rhs {
                    Some(r) => r,
                    None => {
                        return Err(EvaluationError::MissingOperand("rhs"));
                    },
                };
                match input {
                    Value::Array(values) => match self.evaluate_each(values, r, 0, floats) {
                        Ok(out) => Ok(Value::Array(out)),
                        Err(e) => Err(e),
                    },
                    other => Err(EvaluationError::TypeMismatch { expected: "array", actual: other.kind_name() }),
                }
            },
            OperationId::Select | OperationId::Filter => {
                let r = match &node.rhs {
                    Some(r) => r,
                    None => {
                        return Err(EvaluationError::MissingOperand("rhs"));
                    },
                };
                match input {
                    Value::Array(values) => match self.evaluate_each(values, r, 2, floats) {
                        Ok(out) => Ok(Value::Array(out)),
                        Err(e) => Err(e),
                    },
                    value => match self.evaluate_owned_node(value, r, floats) {
                        Ok(res) => {
                            if res.truthy() {
                                Ok(value.duplicate())
                            } else {
                                Ok(Value::Null)
                            }
                        },
                        Err(e) => Err(e),
                    },
                }
            },
            OperationId::SortBy => {
                let r = match &node.rhs {
                    Some(r) => r,
                    None => {
                        return Err(EvaluationError::MissingOperand("rhs"));
                    },
                };
                match input {
                    Value::Array(values) => match self.evaluate_each(values, r, 0, floats) {
                        Ok(keys) => {
                            proof {
                                lemma_each_len(*floats, models(values@), **r);
                                lemma_models(keys@);
                                lemma_models(values@);
                            }
                            Ok(Value::Array(sort_values_by_keys(&keys, values, floats)))
                        },
                        Err(e) => Err(e),
                    },
                    other => Err(EvaluationError::TypeMismatch { expected: "array", actual: other.kind_name() }),
                }
            },
            OperationId::Length | OperationId::Keys | OperationId::ToNumber | OperationId::ToString
            | OperationId::Trim | OperationId::ChangeCase | OperationId::Split | OperationId::Join
            | OperationId::First | OperationId::Reverse | OperationId::Flatten | OperationId::Min
            | OperationId::Max | OperationId::Any | OperationId::All | OperationId::Sort
            | OperationId::Unique => self.evaluate_input_unary(id, node.operation.string_value.as_str(), input, floats),
            OperationId::Contains | OperationId::Has => {
                let lv = match &node.lhs {
                    Some(l) => match self.evaluate_owned_node(input, l, floats) {
                        Ok(v) => v,
                        Err(e) => {
                            return Err(e);
                        },
                    },
                    None => input.duplicate(),
                };
                let r = match &node.rhs {
                    Some(r) => r,
                    None => {
                        return Err(EvaluationError::MissingOperand("rhs"));
                    },
                };
                let rv = match self.evaluate_owned_node(input, r, floats) {
                    Ok(v) => v,
                    Err(e) => {
                        return Err(e);
                    },
                };
                if id == OperationId::Contains {
                    Ok(Value::Bool(value_contains(&lv, &rv)))
                } else {
                    match self.value_has(&lv, &rv, floats) {
                        Ok(b) => Ok(Value::Bool(b)),
                        Err(e) => Err(e),
                    }
                }
            },
            _ => {
                let l = match &node.lhs {
                    Some(l) => l,
                    None => {
                        return Err(EvaluationError::MissingOperand("lhs"));
                    },
                };
                let r = match &node.rhs {
                    Some(r) => r,
                    None => {
                        return Err(EvaluationError::MissingOperand("rhs"));
                    },
                };
                let lv = match self.evaluate_owned_node(input, l, floats) {
                    Ok(v) => v,
                    Err(e) => {
                        return Err(e);
                    },
                };
                let rv = match self.evaluate_owned_node(input, r, floats) {
                    Ok(v) => v,
                    Err(e) => {
                        return Err(e);
                    },
                };
                self.evaluate_binary(node.operation.string_value.as_str(), id, lv, rv, floats)
            },
        }
    }

    /// `rhs` evaluated against each of `items` (see [`each`]).
    fn evaluate_each<F: Fn(FloatQuery) -> FloatAnswer>(&self, items: &Vec<Value>, rhs: &ExpressionNode, mode: u8, floats: &F) -> (r: Result<Vec<Value>, EvaluationError>)
        requires
            float_service(*floats),
        ensures
            items_outcome(r) == each(*floats, models(items@), *rhs, mode),
        decreases rhs, items@.len() + 1,
    {
        let ghost ms = models(items@);
        proof {
            lemma_models(items@);
            assert(ms.take(0) =~= Seq::<ValueModel>::empty());
            assert(models(Seq::<Value>::empty()) =~= Seq::<ValueModel>::empty());
        }
        let mut out: Vec<Value> = Vec::new();
        let mut i: usize = 0;
        while i < items.len()
            invariant
                float_service(*floats),
                i <= items@.len(),
                ms == models(items@),
                ms.len() == items@.len(),
                forall|j: int| 0 <= j < items@.len() ==> #[trigger] ms[j] == items@[j].model(),
                each(*floats, ms.take(i as int), *rhs, mode) == Ok::<Seq<ValueModel>, ErrorModel>(models(out@)),
            decreases items@.len() - i,
        {
            let ghost t = ms.take(i as int + 1);
            proof {
                assert(t.drop_last() =~= ms.take(i as int));
                assert(t[t.len() - 1] == ms[i as int]);
            }
            let v = match self.evaluate_owned_node(&items[i], rhs, floats) {
                Ok(v) => v,
                Err(e) => {
                    proof {
                        lemma_each_err(*floats, ms, *rhs, mode, i as int + 1);
                    }
                    return Err(e);
                },
            };
            let ghost before = out@;
            let ghost vm = v.model();
            let keep_item = mode == 2;
            if mode == 0 {
                out.push(v);
            } else if mode == 1 {
                let is_null = match &v {
                    Value::Null => true,
                    _ => false,
                };
                if !((rhs.operation.id == OperationId::Select || rhs.operation.id == OperationId::Filter) && is_null) {
                    out.push(v);
                }
            } else {
                if v.truthy() {
                    out.push(items[i].duplicate());
                }
            }
            proof {
                if out@.len() > before.len() {
                    assert(out@ =~= before.push(out@[out@.len() - 1]));
                    lemma_models_push(before, out@[out@.len() - 1]);
                } else {
                    assert(out@ =~= before);
                }
                assert(models(out@) =~= each_step(models(before), ms[i as int], vm, mode, rhs.operation.id));
            }
            i = i + 1;
        }
        proof {
            assert(ms.take(items@.len() as int) =~= ms);
        }
        Ok(out)
    }

    /// The items of a union (see [`union_items`]).
    fn collect_union_items<F: Fn(FloatQuery) -> FloatAnswer>(&self, input: &Value, node: &ExpressionNode, floats: &F) -> (r: Result<Vec<Value>, EvaluationError>)
        requires
            float_service(*floats),
        ensures
            items_outcome(r) == union_items(*floats, input.model(), *node),
        decreases node, 1nat,
    {
        match node.operation.id {
            OperationId::Union => {
                let l = match &node.lhs {
                    Some(l) => l,
                    None => {
                        return Err(EvaluationError::MissingOperand("lhs"));
                    },
                };
                let r = match &node.rhs {
                    Some(r) => r,
                    None => {
                        return Err(EvaluationError::MissingOperand("rhs"));
                    },
                };
                let mut a = match self.collect_union_items(input, l, floats) {
                    Ok(a) => a,
                    Err(e) => {
                        return Err(e);
                    },
                };
                let mut b = match self.collect_union_items(input, r, floats) {
                    Ok(b) => b,
                    Err(e) => {
                        return Err(e);
                    },
                };
                let ghost sa = a@;
                let ghost sb = b@;
                a.append(&mut b);
                proof {
                    assert(a@ =~= sa + sb);
                    super::lemma_models_append(sa, sb);
                }
                Ok(a)
            },
            OperationId::Empty => {
                proof {
                    assert(models(Seq::<Value>::empty()) =~= Seq::<ValueModel>::empty());
                }
                Ok(Vec::new())
            },
            _ => match self.evaluate_owned_node(input, node, floats) {
                Ok(v) => {
                    let mut out: Vec<Value> = Vec::new();
                    out.push(v);
                    proof {
                        lemma_models(out@);
                        assert(models(out@) =~= seq![out@[0].model()]);
                    }
                    Ok(out)
                },
                Err(e) => Err(e),
            },
        }
    }

    /// The entries of an object construction put into `acc` (see
    /// [`object_entries`]).
    fn collect_object_entries<F: Fn(FloatQuery) -> FloatAnswer>(&self, input: &Value, node: &ExpressionNode, acc: Vec<Entry>, floats: &F) -> (r: Result<Vec<Entry>, EvaluationError>)
        requires
            float_service(*floats),
        ensures
            entries_outcome(r) == object_entries(*floats, input.model(), *node, entry_models(acc@)),
        decreases node, 1nat,
    {
        match node.operation.id {
            OperationId::Union => {
                let l = match &node.lhs {
                    Some(l) => l,
                    None => {
                        return Err(EvaluationError::MissingOperand("lhs"));
                    },
                };
                let r = match &node.rhs {
                    Some(r) => r,
                    None => {
                        return Err(EvaluationError::MissingOperand("rhs"));
                    },
                };
                match self.collect_object_entries(input, l, acc, floats) {
                    Ok(a) => self.collect_object_entries(input, r, a, floats),
                    Err(e) => Err(e),
                }
            },
            OperationId::Empty => Ok(acc),
            OperationId::CreateMap => {
                let l = match &node.lhs {
                    Some(l) => l,
                    None => {
                        return Err(EvaluationError::MissingOperand("lhs"));
                    },
                };
                let r = match &node.rhs {
                    Some(r) => r,
                    None => {
                        return Err(EvaluationError::MissingOperand("rhs"));
                    },
                };
                let k = match self.evaluate_owned_node(input, l, floats) {
                    Ok(k) => k,
                    Err(e) => {
                        return Err(e);
                    },
                };
                let v = match self.evaluate_owned_node(input, r, floats) {
                    Ok(v) => v,
                    Err(e) => {
                        return Err(e);
                    },
                };
                let key = render_value(&k, floats);
                let mut acc = acc;
                map_insert_entry(&mut acc, key, v);
                Ok(acc)
            },
            _ => match self.evaluate_owned_node(input, node, floats) {
                Ok(Value::Object(vs)) => {
                    let mut acc = acc;
                    extend_with(&mut acc, &vs);
                    Ok(acc)
                },
                Ok(other) => Err(EvaluationError::TypeMismatch { expected: "object", actual: other.kind_name() }),
                Err(e) => Err(e),
            },
        }
    }

    /// `input` with `assigned` written at the path that `lhs` names.
    fn evaluate_assign<F: Fn(FloatQuery) -> FloatAnswer>(&self, input: &Value, lhs: &ExpressionNode, assigned: Value, floats: &F) -> (r: Result<Value, EvaluationError>)
        requires
            float_service(*floats),
        ensures
            outcome(r) == assign_value(*floats, input.model(), *lhs, assigned.model()),
    {
        match collect_assign_path(lhs, floats) {
            Ok(path) => {
                let target = input.duplicate();
                Ok(assign_path_value(target, &path, 0, assigned))
            },
            Err(e) => Err(e),
        }
    }

    /// Evaluates an expression against `input`; with no expression, the
    /// input itself.
    pub fn evaluate<F: Fn(FloatQuery) -> FloatAnswer>(&self, input: &Value, expression: Option<&ExpressionNode>, floats: &F) -> (r: Result<Value, EvaluationError>)
        requires
            float_service(*floats),
        ensures
            outcome(r) == match expression {
                Some(node) => eval(*floats, input.model(), *node),
                None => Ok(input.model()),
            },
    {
        match expression {
            Some(node) => self.evaluate_owned_node(input, node, floats),
            None => Ok(input.duplicate()),
        }
    }
}

/// The result of an optional expression against one input.
pub open spec fn eval_opt<F: Fn(FloatQuery) -> FloatAnswer>(f: F, input: ValueModel, expression: Option<ExpressionNode>) -> Result<ValueModel, ErrorModel> {
    match expression {
        Some(node) => eval(f, input, node),
        None => Ok(input),
    }
}

/// The results of an expression against each input in turn, an update of
/// every item of an input array handing out the items; the first failure
/// ends it.
pub open spec fn evaluate_all<F: Fn(FloatQuery) -> FloatAnswer>(f: F, inputs: Seq<ValueModel>, expression: Option<ExpressionNode>) -> Result<Seq<ValueModel>, ErrorModel>
    decreases inputs.len(),
{
    if inputs.len() == 0 {
        Ok(Seq::empty())
    } else {
        match evaluate_all(f, inputs.drop_last(), expression) {
            Err(e) => Err(e),
            Ok(p) => match eval_opt(f, inputs[inputs.len() - 1], expression) {
                Err(e) => Err(e),
                Ok(v) => Ok(
                    match v {
                        ValueModel::Array(items) => if flattens_top_level_array(expression) {
                            p + items
                        } else {
                            p.push(v)
                        },
                        _ => p.push(v),
                    },
                ),
            },
        }
    }
}

proof fn lemma_evaluate_all_err<F: Fn(FloatQuery) -> FloatAnswer>(f: F, inputs: Seq<ValueModel>, expression: Option<ExpressionNode>, k: int)
    requires
        0 <= k <= inputs.len(),
        evaluate_all(f, inputs.take(k), expression) is Err,
    ensures
        evaluate_all(f, inputs, expression) == evaluate_all(f, inputs.take(k), expression),
    decreases inputs.len(),
{
    if k == inputs.len() {
        assert(inputs.take(k) =~= inputs);
    } else {
        assert(inputs.drop_last().take(k) =~= inputs.take(k));
        lemma_evaluate_all_err(f, inputs.drop_last(), expression, k);
    }
}

impl AllAtOnceEvaluator {
    /// The results of `expression` against each of `inputs` (see
    /// [`evaluate_all`]).
    pub fn evaluate_many<F: Fn(FloatQuery) -> FloatAnswer>(&self, inputs: &Vec<Value>, expression: Option<&ExpressionNode>, floats: &F) -> (r: Result<Vec<Value>, EvaluationError>)
        requires
            float_service(*floats),
        ensures
            items_outcome(r) == evaluate_all(
                *floats,
                models(inputs@),
                match expression {
                    Some(n) => Some(*n),
                    None => None,
                },
            ),
    {
        let ghost ex = match expression {
            Some(n) => Some(*n),
            None => None,
        };
        let flatten = should_flatten_top_level_array_result(expression);
        let ghost ms = models(inputs@);
        proof {
            lemma_models(inputs@);
            assert(ms.take(0) =~= Seq::<ValueModel>::empty());
            assert(models(Seq::<Value>::empty()) =~= Seq::<ValueModel>::empty());
        }
        let mut out: Vec<Value> = Vec::new();
        let mut i: usize = 0;
        while i < inputs.len()
            invariant
                float_service(*floats),
                i <= inputs@.len(),
                ms == models(inputs@),
                ms.len() == inputs@.len(),
                forall|j: int| 0 <= j < inputs@.len() ==> #[trigger] ms[j] == inputs@[j].model(),
                ex == match expression {
                    Some(n) => Some(*n),
                    None => None::<ExpressionNode>,
                },
                flatten == flattens_top_level_array(ex),
                evaluate_all(*floats, ms.take(i as int), ex) == Ok::<Seq<ValueModel>, ErrorModel>(models(out@)),
            decreases inputs@.len() - i,
        {
            let ghost t = ms.take(i as int + 1);
            proof {
                assert(t.drop_last() =~= ms.take(i as int));
                assert(t[t.len() - 1] == ms[i as int]);
            }
            let v = match self.evaluate(&inputs[i], expression, floats) {
                Ok(v) => v,
                Err(e) => {
                    proof {
                        lemma_evaluate_all_err(*floats, ms, ex, i as int + 1);
                    }
                    return Err(e);
                },
            };
            let ghost before = out@;
            let ghost vm = v.model();
            match v {
                Value::Array(mut items) => {
                    if flatten {
                        let ghost si = items@;
                        out.append(&mut items);
                        proof {
                            assert(out@ =~= before + si);
                            super::lemma_models_append(before, si);
                        }
                    } else {
                        out.push(Value::Array(items));
                        proof {
                            assert(out@ =~= before.push(out@[out@.len() - 1]));
                            lemma_models_push(before, out@[out@.len() - 1]);
                        }
                    }
                },
                other => {
                    out.push(other);
                    proof {
                        assert(out@ =~= before.push(out@[out@.len() - 1]));
                        lemma_models_push(before, out@[out@.len() - 1]);
                    }
                },
            }
            i = i + 1;
        }
        proof {
            assert(ms.take(inputs@.len() as int) =~= ms);
        }
        Ok(out)
    }
}

pub open spec fn path_outcome(r: Result<Vec<AssignPathSegment>, EvaluationError>) -> Result<Seq<SegmentModel>, ErrorModel> {
    match r {
        Ok(p) => Ok(segment_models(p@)),
        Err(e) => Err(e.model()),
    }
}

/// The path that an assignment's left side writes to (see [`assign_path`]).
pub fn collect_assign_path<F: Fn(FloatQuery) -> FloatAnswer>(node: &ExpressionNode, floats: &F) -> (r: Result<Vec<AssignPathSegment>, EvaluationError>)
    requires
        float_service(*floats),
    ensures
        path_outcome(r) == assign_path(*floats, *node),
    decreases node,
{
    match node.operation.id {
        OperationId::SelfRef => {
            proof {
                assert(segment_models(Seq::<AssignPathSegment>::empty()) =~= Seq::<SegmentModel>::empty());
            }
            Ok(Vec::new())
        },
        OperationId::Collect => match &node.rhs {
            Some(r) => collect_assign_path(r, floats),
            None => Err(EvaluationError::MissingOperand("rhs")),
        },
        OperationId::ShortPipe => {
            let l = match &node.lhs {
                Some(l) => l,
                None => {
                    return Err(EvaluationError::MissingOperand("lhs"));
                },
            };
            let r = match &node.rhs {
                Some(r) => r,
                None => {
                    return Err(EvaluationError::MissingOperand("rhs"));
                },
            };
            let mut p = match collect_assign_path(l, floats) {
                Ok(p) => p,
                Err(e) => {
                    return Err(e);
                },
            };
            let mut q = match collect_assign_path(r, floats) {
                Ok(q) => q,
                Err(e) => {
                    return Err(e);
                },
            };
            let ghost pm = segment_models(p@);
            let ghost qm = segment_models(q@);
            p.append(&mut q);
            proof {
                assert(segment_models(p@) =~= pm + qm);
            }
            Ok(p)
        },
        OperationId::TraversePath => {
            let mut p = match &node.lhs {
                Some(l) => match collect_assign_path(l, floats) {
                    Ok(p) => p,
                    Err(e) => {
                        return Err(e);
                    },
                },
                None => {
                    proof {
                        assert(segment_models(Seq::<AssignPathSegment>::empty()) =~= Seq::<SegmentModel>::empty());
                    }
                    Vec::new()
                },
            };
            let key = match &node.rhs {
                Some(r) => match extract_path_key(r, floats) {
                    Ok(k) => k,
                    Err(e) => {
                        return Err(e);
                    },
                },
                None => node.operation.string_value.clone(),
            };
            let ghost pm = segment_models(p@);
            p.push(AssignPathSegment::Key(key));
            proof {
                assert(segment_models(p@) =~= pm.push(p@[p@.len() - 1].model()));
            }
            Ok(p)
        },
        OperationId::TraverseArray => {
            let l = match &node.lhs {
                Some(l) => l,
                None => {
                    return Err(EvaluationError::MissingOperand("lhs"));
                },
            };
            let r = match &node.rhs {
                Some(r) => r,
                None => {
                    return Err(EvaluationError::MissingOperand("rhs"));
                },
            };
            let mut p = match collect_assign_path(l, floats) {
                Ok(p) => p,
                Err(e) => {
                    return Err(e);
                },
            };
            if super::node::is_collect_empty(r) {
                return Ok(p);
            }
            let k = match extract_path_index(r, floats) {
                Ok(k) => k,
                Err(e) => {
                    return Err(e);
                },
            };
            let ghost pm = segment_models(p@);
            p.push(AssignPathSegment::Index(k));
            proof {
                assert(segment_models(p@) =~= pm.push(p@[p@.len() - 1].model()));
            }
            Ok(p)
        },
        other => Err(EvaluationError::UnsupportedOperation(string_of(other.as_str()))),
    }
}

pub open spec fn text_outcome(r: Result<String, EvaluationError>) -> Result<Seq<char>, ErrorModel> {
    match r {
        Ok(t) => Ok(t@),
        Err(e) => Err(e.model()),
    }
}

/// The key a literal path step names (see [`super::node::path_key_of`]).
pub fn extract_path_key<F: Fn(FloatQuery) -> FloatAnswer>(node: &ExpressionNode, floats: &F) -> (r: Result<String, EvaluationError>)
    requires
        float_service(*floats),
    ensures
        text_outcome(r) == super::node::path_key_of(*floats, *node),
{
    if node.operation.id != OperationId::Value {
        return Err(EvaluationError::UnsupportedOperation(string_of(node.operation.id.as_str())));
    }
    let v = Value::from_literal(node.operation.string_value.as_str(), floats);
    match v {
        Value::String(s) => Ok(s),
        Value::Number(n) => match super::numbers::numeric_path_key(n, floats) {
            Some(k) => Ok(k),
            None => Err(EvaluationError::TypeMismatch { expected: "string", actual: Value::Number(n).kind_name() }),
        },
        other => Err(EvaluationError::TypeMismatch { expected: "string", actual: other.kind_name() }),
    }
}

pub open spec fn index_outcome(r: Result<usize, EvaluationError>) -> Result<usize, ErrorModel> {
    match r {
        Ok(k) => Ok(k),
        Err(e) => Err(e.model()),
    }
}

/// The index a literal path step names (see [`super::node::path_index_of`]).
pub fn extract_path_index<F: Fn(FloatQuery) -> FloatAnswer>(node: &ExpressionNode, floats: &F) -> (r: Result<usize, EvaluationError>)
    requires
        float_service(*floats),
    ensures
        index_outcome(r) == super::node::path_index_of(*floats, *node),
{
    if node.operation.id != OperationId::Value {
        return Err(EvaluationError::UnsupportedOperation(string_of(node.operation.id.as_str())));
    }
    let v = Value::from_literal(node.operation.string_value.as_str(), floats);
    match v {
        Value::Number(n) => match super::numbers::numeric_index(n, floats) {
            Some(k) => Ok(k),
            None => Err(EvaluationError::TypeMismatch { expected: "non-negative integer", actual: Value::Number(n).kind_name() }),
        },
        other => Err(EvaluationError::TypeMismatch { expected: "non-negative integer", actual: other.kind_name() }),
    }
}

/// `values` sorted stably by the sort keys of `keys`.
fn sort_values_by_keys<F: Fn(FloatQuery) -> FloatAnswer>(keys: &Vec<Value>, values: &Vec<Value>, floats: &F) -> (r: Vec<Value>)
    requires
        float_service(*floats),
        keys@.len() == values@.len(),
    ensures
        models(r@) == sorted_by_keys(*floats, models(keys@), models(values@)),
{
    let ghost km = models(keys@);
    let ghost vm = models(values@);
    let ghost ks = Seq::new(vm.len(), |i: int| (sort_key(*floats, km[i]), vm[i]));
    proof {
        lemma_models(keys@);
        lemma_models(values@);
    }
    let mut keyed: Vec<Keyed> = Vec::new();
    let mut i: usize = 0;
    while i < values.len()
        invariant
            float_service(*floats),
            i <= values@.len(),
            keys@.len() == values@.len(),
            km == models(keys@),
            vm == models(values@),
            km.len() == keys@.len(),
            vm.len() == values@.len(),
            forall|j: int| 0 <= j < keys@.len() ==> #[trigger] km[j] == keys@[j].model(),
            forall|j: int| 0 <= j < values@.len() ==> #[trigger] vm[j] == values@[j].model(),
            ks == Seq::new(vm.len(), |i: int| (sort_key(*floats, km[i]), vm[i])),
            keyed_models(keyed@) == sort_by_key(ks.take(i as int)),
        decreases values@.len() - i,
    {
        let key = sort_key_text(&keys[i], floats);
        let value = values[i].duplicate();
        insert_keyed(&mut keyed, Keyed { key, value });
        proof {
            let t = ks.take(i as int + 1);
            assert(t.drop_last() =~= ks.take(i as int));
            assert(t[t.len() - 1] == ks[i as int]);
        }
        i = i + 1;
    }
    proof {
        assert(ks.take(values@.len() as int) =~= ks);
    }
    let ghost sorted = sort_by_key(ks);
    let mut out: Vec<Value> = Vec::new();
    let mut j: usize = 0;
    while j < keyed.len()
        invariant
            j <= keyed@.len(),
            keyed_models(keyed@) == sorted,
            out@.len() == j,
            forall|k: int| 0 <= k < j ==> #[trigger] out@[k].model() == sorted[k].1,
        decreases keyed@.len() - j,
    {
        let d = keyed[j].value.duplicate();
        proof {
            assert(keyed_models(keyed@)[j as int] == (keyed@[j as int].key@, keyed@[j as int].value.model()));
        }
        out.push(d);
        j = j + 1;
    }
    proof {
        lemma_models(out@);
        assert(models(out@) =~= sorted_by_keys(*floats, km, vm));
    }
    out
}

} // verus!
