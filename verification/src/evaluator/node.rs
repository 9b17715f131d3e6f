//! Expression nodes, the paths that assignments write to, and whether one
//! value contains another.
use vstd::prelude::*;
use super::{string_of};
use super::binary::{find_key, lookup};
use super::literal::literal_value;
use super::numbers::{
    spec_numeric_index, spec_numeric_path_key,
};
use super::ops::{op_name, OperationId};
use super::unary::{mismatch, occurs_at, text_less, text_lt, value_eq, values_same};
use super::{
    entry_models, lemma_entry_models, lemma_models, lemma_models_push, models, Entry, ErrorModel, FloatAnswer, FloatQuery, Value, ValueModel,
};
use crate::text::chars_of;

verus! {

/// What an expression node does.
pub struct Operation {
    pub id: OperationId,
    /// The operation as written: a literal's text, a path key, an
    /// operator's lexeme or a call with its argument.
    pub string_value: String,
    /// An assignment that updates (`|=`) rather than sets.
    pub update_assign: bool,
}

/// A node of a parsed expression.
pub struct ExpressionNode {
    pub operation: Operation,
    pub lhs: Option<Box<ExpressionNode>>,
    pub rhs: Option<Box<ExpressionNode>>,
}

/// The node's operation.
pub open spec fn id_of(node: ExpressionNode) -> OperationId {
    node.operation.id
}

/// A pipe whose right side takes the whole array in, rather than each item:
/// flatten, sort, unique and sort-by, or a pipe that starts with one.
pub open spec fn consumes_array(node: ExpressionNode) -> bool
    decreases node,
{
    match node.operation.id {
        OperationId::Flatten | OperationId::Sort | OperationId::Unique | OperationId::SortBy => true,
        OperationId::Pipe | OperationId::ShortPipe => match node.lhs {
            Some(l) => consumes_array(*l),
            None => false,
        },
        _ => false,
    }
}

pub fn pipe_rhs_consumes_array(node: &ExpressionNode) -> (r: bool)
    ensures
        r == consumes_array(*node),
    decreases node,
{
    match node.operation.id {
        OperationId::Flatten | OperationId::Sort | OperationId::Unique | OperationId::SortBy => true,
        OperationId::Pipe | OperationId::ShortPipe => match &node.lhs {
            Some(l) => pipe_rhs_consumes_array(l),
            None => false,
        },
        _ => false,
    }
}

/// A collect of nothing: `[]`.
pub open spec fn collect_empty(node: ExpressionNode) -> bool {
    node.operation.id == OperationId::Collect && match node.rhs {
        Some(r) => r.operation.id == OperationId::Empty,
        None => false,
    }
}

pub fn is_collect_empty(node: &ExpressionNode) -> (r: bool)
    ensures
        r == collect_empty(*node),
{
    node.operation.id == OperationId::Collect && match &node.rhs {
        Some(r) => r.operation.id == OperationId::Empty,
        None => false,
    }
}

/// An update of every item of the input array: `.[]`, maybe collected.
pub open spec fn top_level_array_update(node: ExpressionNode) -> bool
    decreases node,
{
    match node.operation.id {
        OperationId::Collect => match node.rhs {
            Some(r) => top_level_array_update(*r),
            None => false,
        },
        OperationId::TraverseArray => (match node.lhs {
            Some(l) => l.operation.id == OperationId::SelfRef,
            None => false,
        }) && (match node.rhs {
            Some(r) => collect_empty(*r) || r.operation.id == OperationId::Empty,
            None => false,
        }),
        _ => false,
    }
}

pub fn is_top_level_array_update_assign(node: &ExpressionNode) -> (r: bool)
    ensures
        r == top_level_array_update(*node),
    decreases node,
{
    match node.operation.id {
        OperationId::Collect => match &node.rhs {
            Some(r) => is_top_level_array_update_assign(r),
            None => false,
        },
        OperationId::TraverseArray => {
            let left = match &node.lhs {
                Some(l) => l.operation.id == OperationId::SelfRef,
                None => false,
            };
            let right = match &node.rhs {
                Some(r) => is_collect_empty(r) || r.operation.id == OperationId::Empty,
                None => false,
            };
            left && right
        },
        _ => false,
    }
}

/// Whether an expression's array result is handed out item by item: an
/// update assignment of every item of the input array.
pub open spec fn flattens_top_level_array(expression: Option<ExpressionNode>) -> bool {
    match expression {
        Some(node) => node.operation.id == OperationId::Assign && node.operation.update_assign
            && match node.lhs {
            Some(l) => top_level_array_update(*l),
            None => false,
        },
        None => false,
    }
}

pub fn should_flatten_top_level_array_result(expression: Option<&ExpressionNode>) -> (r: bool)
    ensures
        r == flattens_top_level_array(
            match expression {
                Some(n) => Some(*n),
                None => None,
            },
        ),
{
    match expression {
        Some(node) => node.operation.id == OperationId::Assign && node.operation.update_assign
            && match &node.lhs {
            Some(l) => is_top_level_array_update_assign(l),
            None => false,
        },
        None => false,
    }
}

// ---------------------------------------------------------------------------
// Assignment paths
// ---------------------------------------------------------------------------

/// A step of an assignment path.
pub enum AssignPathSegment {
    Key(String),
    Index(usize),
}

pub enum SegmentModel {
    Key(Seq<char>),
    Index(usize),
}

impl AssignPathSegment {
    pub open spec fn model(self) -> SegmentModel {
        match self {
            AssignPathSegment::Key(k) => SegmentModel::Key(k@),
            AssignPathSegment::Index(i) => SegmentModel::Index(i),
        }
    }
}

pub open spec fn segment_models(s: Seq<AssignPathSegment>) -> Seq<SegmentModel> {
    Seq::new(s.len(), |i: int| s[i].model())
}

/// The key a literal path step names.
pub open spec fn path_key_of<F: Fn(FloatQuery) -> FloatAnswer>(f: F, node: ExpressionNode) -> Result<Seq<char>, ErrorModel> {
    if node.operation.id != OperationId::Value {
        Err(ErrorModel::UnsupportedOperation(op_name(node.operation.id)))
    } else {
        match literal_value(f, node.operation.string_value@) {
            ValueModel::Str(s) => Ok(s),
            ValueModel::Number(n) => match spec_numeric_path_key(f, n) {
                Some(k) => Ok(k),
                None => Err(mismatch("string"@, ValueModel::Number(n))),
            },
            other => Err(mismatch("string"@, other)),
        }
    }
}

/// The index a literal path step names.
pub open spec fn path_index_of<F: Fn(FloatQuery) -> FloatAnswer>(f: F, node: ExpressionNode) -> Result<usize, ErrorModel> {
    if node.operation.id != OperationId::Value {
        Err(ErrorModel::UnsupportedOperation(op_name(node.operation.id)))
    } else {
        match literal_value(f, node.operation.string_value@) {
            ValueModel::Number(n) => match spec_numeric_index(f, n) {
                Some(k) => Ok(k),
                None => Err(mismatch("non-negative integer"@, ValueModel::Number(n))),
            },
            other => Err(mismatch("non-negative integer"@, other)),
        }
    }
}

/// The path that an assignment's left side writes to.
pub open spec fn assign_path<F: Fn(FloatQuery) -> FloatAnswer>(f: F, node: ExpressionNode) -> Result<Seq<SegmentModel>, ErrorModel>
    decreases node,
{
    match node.operation.id {
        OperationId::SelfRef => Ok(Seq::empty()),
        OperationId::Collect => match node.rhs {
            Some(r) => assign_path(f, *r),
            None => Err(ErrorModel::MissingOperand("rhs"@)),
        },
        OperationId::ShortPipe => match node.lhs {
            None => Err(ErrorModel::MissingOperand("lhs"@)),
            Some(l) => match node.rhs {
                None => Err(ErrorModel::MissingOperand("rhs"@)),
                Some(r) => match assign_path(f, *l) {
                    Err(e) => Err(e),
                    Ok(p) => match assign_path(f, *r) {
                        Err(e) => Err(e),
                        Ok(q) => Ok(p + q),
                    },
                },
            },
        },
        OperationId::TraversePath => {
            let base = match node.lhs {
                Some(l) => assign_path(f, *l),
                None => Ok(Seq::empty()),
            };
            match base {
                Err(e) => Err(e),
                Ok(p) => match node.rhs {
                    Some(r) => match path_key_of(f, *r) {
                        Err(e) => Err(e),
                        Ok(k) => Ok(p.push(SegmentModel::Key(k))),
                    },
                    None => Ok(p.push(SegmentModel::Key(node.operation.string_value@))),
                },
            }
        },
        OperationId::TraverseArray => match node.lhs {
            None => Err(ErrorModel::MissingOperand("lhs"@)),
            Some(l) => match node.rhs {
                None => Err(ErrorModel::MissingOperand("rhs"@)),
                Some(r) => match assign_path(f, *l) {
                    Err(e) => Err(e),
                    Ok(p) => if collect_empty(*r) {
                        Ok(p)
                    } else {
                        match path_index_of(f, *r) {
                            Err(e) => Err(e),
                            Ok(k) => Ok(p.push(SegmentModel::Index(k))),
                        }
                    },
                },
            },
        },
        other => Err(ErrorModel::UnsupportedOperation(op_name(other))),
    }
}

/// `(k, v)` put into the entries, which are in ascending key order: in
/// place of the entry with key `k`, or where the order puts it.
pub open spec fn map_insert(es: Seq<(Seq<char>, ValueModel)>, k: Seq<char>, v: ValueModel) -> Seq<(Seq<char>, ValueModel)>
    decreases es.len(),
{
    if es.len() == 0 {
        seq![(k, v)]
    } else if es[es.len() - 1].0 == k {
        es.drop_last().push((k, v))
    } else if text_lt(k, es[es.len() - 1].0) {
        map_insert(es.drop_last(), k, v).push(es[es.len() - 1])
    } else {
        es.push((k, v))
    }
}

/// `target` with `assigned` written at `path[i..]`: a key step makes the
/// target an object (an empty one where it was none) and writes into the
/// key's value (null where it was missing); an index step makes it an
/// array, pads it with nulls up to the index and writes into that item.
pub open spec fn assign_at(target: ValueModel, path: Seq<SegmentModel>, i: int, assigned: ValueModel) -> ValueModel
    decreases path.len() - i,
{
    if i < 0 || i >= path.len() {
        assigned
    } else {
        match path[i] {
            SegmentModel::Key(k) => {
                let es = match target {
                    ValueModel::Object(es) => es,
                    _ => Seq::empty(),
                };
                let cur = match lookup(es, k) {
                    Some(v) => v,
                    None => ValueModel::Null,
                };
                ValueModel::Object(map_insert(es, k, assign_at(cur, path, i + 1, assigned)))
            },
            SegmentModel::Index(n) => {
                let items = match target {
                    ValueModel::Array(items) => items,
                    _ => Seq::empty(),
                };
                let padded = if items.len() > n {
                    items
                } else {
                    items + Seq::new((n + 1 - items.len()) as nat, |j: int| ValueModel::Null)
                };
                ValueModel::Array(padded.update(n as int, assign_at(padded[n as int], path, i + 1, assigned)))
            },
        }
    }
}

/// Puts `(k, v)` into the entries (see [`map_insert`]).
pub(crate) fn map_insert_entry(es: &mut Vec<Entry>, k: String, v: Value)
    ensures
        entry_models(final(es)@) == map_insert(entry_models(old(es)@), k@, v.model()),
    decreases old(es)@.len(),
{
    let ghost old_m = entry_models(es@);
    proof {
        lemma_entry_models(es@);
    }
    if es.len() == 0 {
        es.push(Entry { key: k, value: v });
        proof {
            lemma_entry_models(es@);
            assert(entry_models(es@) =~= seq![(k@, v.model())]);
        }
        return;
    }
    let last = es.pop().unwrap();
    let ghost lm = (last.key@, last.value.model());
    proof {
        assert(es@ =~= old(es)@.drop_last());
        assert(old(es)@.drop_last().push(last) =~= old(es)@);
        assert(old_m[old_m.len() - 1] == lm);
        assert(entry_models(es@) =~= old_m.drop_last());
    }
    if crate::text::str_eq(last.key.as_str(), k.as_str()) {
        es.push(Entry { key: k, value: v });
        proof {
            lemma_entry_models(es@);
            assert(entry_models(es@) =~= old_m.drop_last().push((k@, v.model())));
        }
    } else {
        let kc = chars_of(k.as_str());
        let lc = chars_of(last.key.as_str());
        if text_less(&kc, &lc) {
            map_insert_entry(es, k, v);
            let ghost mid = es@;
            es.push(last);
            proof {
                lemma_entry_models(es@);
                lemma_entry_models(mid);
                assert(entry_models(es@) =~= entry_models(mid).push(lm));
            }
        } else {
            let ghost base = es@;
            es.push(last);
            es.push(Entry { key: k, value: v });
            proof {
                lemma_entry_models(es@);
                assert(entry_models(es@) =~= old_m.push((k@, v.model())));
            }
        }
    }
}

/// `target` with `assigned` written at `path[i..]` (see [`assign_at`]).
pub(crate) fn assign_path_value(target: Value, path: &Vec<AssignPathSegment>, i: usize, assigned: Value) -> (r: Value)
    requires
        i <= path@.len(),
    ensures
        r.model() == assign_at(target.model(), segment_models(path@), i as int, assigned.model()),
    decreases path@.len() - i,
{
    if i >= path.len() {
        return assigned;
    }
    proof {
        assert(segment_models(path@)[i as int] == path@[i as int].model());
    }
    match &path[i] {
        AssignPathSegment::Key(k) => {
            let mut es: Vec<Entry> = match target {
                Value::Object(es) => es,
                _ => Vec::new(),
            };
            proof {
                lemma_entry_models(es@);
            }
            let cur = match find_key(&es, k.as_str()) {
                Some(j) => es[j].value.duplicate(),
                None => Value::Null,
            };
            let written = assign_path_value(cur, path, i + 1, assigned);
            map_insert_entry(&mut es, string_of(k.as_str()), written);
            Value::Object(es)
        },
        AssignPathSegment::Index(n) => {
            let n = *n;
            let mut items: Vec<Value> = match target {
                Value::Array(items) => items,
                _ => Vec::new(),
            };
            let ghost start = models(items@);
            proof {
                lemma_models(items@);
            }
            let ghost target_items = items@;
            while items.len() <= n
                invariant
                    start.len() <= items@.len(),
                    items@.len() <= (if start.len() > n { start.len() as int } else { n + 1 }),
                    models(items@) == start + Seq::new((items@.len() - start.len()) as nat, |j: int| ValueModel::Null),
                decreases n + 1 - items@.len(),
            {
                let ghost before = items@;
                items.push(Value::Null);
                proof {
                    assert(items@ =~= before.push(Value::Null));
                    lemma_models_push(before, Value::Null);
                    assert(models(items@) =~= start + Seq::new((items@.len() - start.len()) as nat, |j: int| ValueModel::Null));
                }
            }
            let ghost padded = models(items@);
            proof {
                lemma_models(items@);
                if start.len() > n {
                    assert(padded =~= start);
                }
            }
            let cur = items[n].duplicate();
            let written = assign_path_value(cur, path, i + 1, assigned);
            let ghost wm = written.model();
            items.set(n, written);
            proof {
                lemma_models(items@);
                assert(models(items@) =~= padded.update(n as int, wm));
            }
            Value::Array(items)
        },
    }
}

// ---------------------------------------------------------------------------
// Containment
// ---------------------------------------------------------------------------

/// `needle` occurs in `hay`.
pub open spec fn has_substring(hay: Seq<char>, needle: Seq<char>) -> bool {
    exists|i: int| 0 <= i <= hay.len() - needle.len() && #[trigger] hay.subrange(i, i + needle.len()) == needle
}

/// Whether `lhs` contains `rhs`: an object every entry of the other (its
/// key held, its value contained), an array every item of another array
/// (or one value) in some item, a string another as a substring; any other
/// two are equal.
pub open spec fn contains_value(l: ValueModel, r: ValueModel) -> bool
    decreases l, 0nat,
{
    match l {
        ValueModel::Object(es) => match r {
            ValueModel::Object(req) => object_contains(es, req),
            _ => false,
        },
        ValueModel::Array(items) => match r {
            ValueModel::Array(req) => all_found(items, req),
            _ => any_contains(items, r),
        },
        ValueModel::Str(s) => match r {
            ValueModel::Str(n) => has_substring(s, n),
            _ => false,
        },
        _ => value_eq(l, r),
    }
}

/// Every required entry is held by `es`.
pub open spec fn object_contains(es: Seq<(Seq<char>, ValueModel)>, req: Seq<(Seq<char>, ValueModel)>) -> bool
    decreases es, req.len() + 1,
{
    req.len() == 0 || (object_contains(es, req.drop_last()) && key_contains(
        es,
        req[req.len() - 1].0,
        req[req.len() - 1].1,
    ))
}

/// The first entry of `es` with key `k` contains `rv`.
pub open spec fn key_contains(es: Seq<(Seq<char>, ValueModel)>, k: Seq<char>, rv: ValueModel) -> bool
    decreases es, 0nat,
{
    if es.len() == 0 {
        false
    } else if es[0].0 == k {
        contains_value(es[0].1, rv)
    } else {
        key_contains(es.drop_first(), k, rv)
    }
}

/// Every required item is contained in some item.
pub open spec fn all_found(items: Seq<ValueModel>, req: Seq<ValueModel>) -> bool
    decreases items, req.len() + 1,
{
    req.len() == 0 || (all_found(items, req.drop_last()) && any_contains(items, req[req.len() - 1]))
}

/// Some item contains `x`.
pub open spec fn any_contains(items: Seq<ValueModel>, x: ValueModel) -> bool
    decreases items, 1nat,
{
    items.len() != 0 && (any_contains(items.drop_last(), x) || contains_value(items[items.len() - 1], x))
}

proof fn lemma_any_contains(items: Seq<ValueModel>, x: ValueModel)
    ensures
        any_contains(items, x) == exists|i: int| 0 <= i < items.len() && #[trigger] contains_value(items[i], x),
    decreases items.len(),
{
    if items.len() > 0 {
        lemma_any_contains(items.drop_last(), x);
        if any_contains(items.drop_last(), x) {
            let i = choose|i: int| 0 <= i < items.drop_last().len() && #[trigger] contains_value(items.drop_last()[i], x);
            assert(items.drop_last()[i] == items[i]);
            assert(contains_value(items[i], x));
        }
        if contains_value(items[items.len() - 1], x) {
            assert(contains_value(items[items.len() - 1], x));
        }
        if exists|i: int| 0 <= i < items.len() && #[trigger] contains_value(items[i], x) {
            let i = choose|i: int| 0 <= i < items.len() && #[trigger] contains_value(items[i], x);
            if i < items.len() - 1 {
                assert(items.drop_last()[i] == items[i]);
                assert(contains_value(items.drop_last()[i], x));
            }
        }
    }
}

proof fn lemma_all_found(items: Seq<ValueModel>, req: Seq<ValueModel>)
    ensures
        all_found(items, req) == forall|j: int| 0 <= j < req.len() ==> #[trigger] any_contains(items, req[j]),
    decreases req.len(),
{
    if req.len() > 0 {
        lemma_all_found(items, req.drop_last());
        if all_found(items, req) {
            assert forall|j: int| 0 <= j < req.len() implies #[trigger] any_contains(items, req[j]) by {
                if j < req.len() - 1 {
                    assert(req.drop_last()[j] == req[j]);
                }
            }
        }
        if forall|j: int| 0 <= j < req.len() ==> #[trigger] any_contains(items, req[j]) {
            assert forall|j: int| 0 <= j < req.drop_last().len() implies #[trigger] any_contains(items, req.drop_last()[j]) by {
                assert(any_contains(items, req[j]));
            }
            assert(any_contains(items, req[req.len() - 1]));
        }
    }
}

proof fn lemma_object_contains(es: Seq<(Seq<char>, ValueModel)>, req: Seq<(Seq<char>, ValueModel)>)
    ensures
        object_contains(es, req) == forall|j: int| 0 <= j < req.len() ==> #[trigger] key_contains(es, req[j].0, req[j].1),
    decreases req.len(),
{
    if req.len() > 0 {
        lemma_object_contains(es, req.drop_last());
        if object_contains(es, req) {
            assert forall|j: int| 0 <= j < req.len() implies #[trigger] key_contains(es, req[j].0, req[j].1) by {
                if j < req.len() - 1 {
                    assert(req.drop_last()[j] == req[j]);
                }
            }
        }
        if forall|j: int| 0 <= j < req.len() ==> #[trigger] key_contains(es, req[j].0, req[j].1) {
            assert forall|j: int| 0 <= j < req.drop_last().len() implies #[trigger] key_contains(es, req.drop_last()[j].0, req.drop_last()[j].1) by {
                assert(req.drop_last()[j] == req[j]);
                assert(key_contains(es, req[j].0, req[j].1));
            }
            assert(key_contains(es, req[req.len() - 1].0, req[req.len() - 1].1));
        }
    }
}

proof fn lemma_key_contains(es: Seq<(Seq<char>, ValueModel)>, k: Seq<char>, rv: ValueModel)
    ensures
        key_contains(es, k, rv) == match lookup(es, k) {
            Some(v) => contains_value(v, rv),
            None => false,
        },
    decreases es.len(),
{
    if es.len() > 0 && es[0].0 != k {
        lemma_key_contains(es.drop_first(), k, rv);
    }
}

fn substring_in(hay: &Vec<char>, needle: &Vec<char>) -> (r: bool)
    ensures
        r == has_substring(hay@, needle@),
{
    if needle.len() > hay.len() {
        return false;
    }
    let last = hay.len() - needle.len();
    let mut i: usize = 0;
    while i < last
        invariant
            needle@.len() <= hay@.len(),
            last == hay@.len() - needle@.len(),
            i <= last,
            forall|j: int| 0 <= j < i ==> #[trigger] hay@.subrange(j, j + needle@.len()) != needle@,
        decreases last - i,
    {
        if occurs_at(hay, needle, i) {
            return true;
        }
        i = i + 1;
    }
    occurs_at(hay, needle, last)
}

/// Whether `lhs` contains `rhs` (see [`contains_value`]).
pub fn value_contains(lhs: &Value, rhs: &Value) -> (r: bool)
    ensures
        r == contains_value(lhs.model(), rhs.model()),
    decreases lhs, 0nat,
{
    match lhs {
        Value::Object(es) => match rhs {
            Value::Object(req) => object_contains_of(es, req),
            _ => false,
        },
        Value::Array(items) => match rhs {
            Value::Array(req) => all_found_of(items, req),
            _ => any_contains_of(items, rhs),
        },
        Value::String(s) => match rhs {
            Value::String(n) => {
                let h = chars_of(s.as_str());
                let c = chars_of(n.as_str());
                substring_in(&h, &c)
            },
            _ => false,
        },
        _ => values_same(lhs, rhs),
    }
}

fn any_contains_of(items: &Vec<Value>, x: &Value) -> (r: bool)
    ensures
        r == any_contains(models(items@), x.model()),
    decreases items, 1nat,
{
    let ghost ms = models(items@);
    proof {
        lemma_models(items@);
        lemma_any_contains(ms, x.model());
    }
    let mut i: usize = 0;
    while i < items.len()
        invariant
            i <= items@.len(),
            ms == models(items@),
            ms.len() == items@.len(),
            forall|j: int| 0 <= j < items@.len() ==> #[trigger] ms[j] == items@[j].model(),
            forall|j: int| 0 <= j < i ==> !#[trigger] contains_value(ms[j], x.model()),
        decreases items@.len() - i,
    {
        if value_contains(&items[i], x) {
            proof {
                assert(contains_value(ms[i as int], x.model()));
                lemma_any_contains(ms, x.model());
            }
            return true;
        }
        i = i + 1;
    }
    proof {
        lemma_any_contains(ms, x.model());
    }
    false
}

fn all_found_of(items: &Vec<Value>, req: &Vec<Value>) -> (r: bool)
    ensures
        r == all_found(models(items@), models(req@)),
    decreases items, 2nat,
{
    let ghost ms = models(items@);
    let ghost rs = models(req@);
    proof {
        lemma_models(req@);
        lemma_all_found(ms, rs);
    }
    let mut j: usize = 0;
    while j < req.len()
        invariant
            j <= req@.len(),
            ms == models(items@),
            rs == models(req@),
            rs.len() == req@.len(),
            forall|k: int| 0 <= k < req@.len() ==> #[trigger] rs[k] == req@[k].model(),
            forall|k: int| 0 <= k < j ==> #[trigger] any_contains(ms, rs[k]),
        decreases req@.len() - j,
    {
        if !any_contains_of(items, &req[j]) {
            proof {
                assert(!any_contains(ms, rs[j as int]));
                lemma_all_found(ms, rs);
            }
            return false;
        }
        j = j + 1;
    }
    proof {
        lemma_all_found(ms, rs);
    }
    true
}

fn key_contains_of(es: &Vec<Entry>, k: &str, rv: &Value) -> (r: bool)
    ensures
        r == key_contains(entry_models(es@), k@, rv.model()),
    decreases es, 1nat,
{
    proof {
        lemma_key_contains(entry_models(es@), k@, rv.model());
    }
    match find_key(es, k) {
        Some(j) => value_contains(&es[j].value, rv),
        None => false,
    }
}

fn object_contains_of(es: &Vec<Entry>, req: &Vec<Entry>) -> (r: bool)
    ensures
        r == object_contains(entry_models(es@), entry_models(req@)),
    decreases es, 2nat,
{
    let ghost em = entry_models(es@);
    let ghost rm = entry_models(req@);
    proof {
        lemma_entry_models(req@);
        lemma_object_contains(em, rm);
    }
    let mut j: usize = 0;
    while j < req.len()
        invariant
            j <= req@.len(),
            em == entry_models(es@),
            rm == entry_models(req@),
            rm.len() == req@.len(),
            forall|k: int| 0 <= k < req@.len() ==> #[trigger] rm[k] == (req@[k].key@, req@[k].value.model()),
            forall|k: int| 0 <= k < j ==> #[trigger] key_contains(em, rm[k].0, rm[k].1),
        decreases req@.len() - j,
    {
        if !key_contains_of(es, req[j].key.as_str(), &req[j].value) {
            proof {
                assert(rm[j as int] == (req@[j as int].key@, req@[j as int].value.model()));
                assert(!key_contains(em, rm[j as int].0, rm[j as int].1));
                lemma_object_contains(em, rm);
            }
            return false;
        }
        proof {
            assert(rm[j as int] == (req@[j as int].key@, req@[j as int].value.model()));
        }
        j = j + 1;
    }
    proof {
        lemma_object_contains(em, rm);
    }
    true
}

} // verus!
