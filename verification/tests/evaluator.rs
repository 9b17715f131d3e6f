use treease_core::evaluation::EvaluationError;
use treease_core::evaluator::node::{ExpressionNode, Operation};
use treease_core::evaluator::numbers::{
    add_numbers, divide_numbers, modulo_numbers, multiply_numbers, subtract_numbers,
};
use treease_core::evaluator::ops::{AllAtOnceEvaluator, OperationId};
use treease_core::evaluator::{Entry, FloatAnswer, FloatArith, FloatQuery, Numeric, Value};

fn floats(q: FloatQuery) -> FloatAnswer {
    match q {
        FloatQuery::FromInt(i) => FloatAnswer::Bits((i as f64).to_bits()),
        FloatQuery::Parse(s) => match s.parse::<f64>() {
            Ok(x) => FloatAnswer::Bits(x.to_bits()),
            Err(_) => FloatAnswer::Nothing,
        },
        FloatQuery::Display(b) => FloatAnswer::Text(f64::from_bits(b).to_string()),
        FloatQuery::Debug(b) => FloatAnswer::Text(format!("{:?}", f64::from_bits(b))),
        FloatQuery::Padded(b) => FloatAnswer::Text(format!("{:020}", f64::from_bits(b))),
        FloatQuery::Arith(op, a, b) => {
            let (x, y) = (f64::from_bits(a), f64::from_bits(b));
            let r = match op {
                FloatArith::Add => x + y,
                FloatArith::Subtract => x - y,
                FloatArith::Multiply => x * y,
                FloatArith::Divide => x / y,
                FloatArith::Remainder => x % y,
            };
            FloatAnswer::Bits(r.to_bits())
        }
        FloatQuery::FromSize(n) => FloatAnswer::Bits((n as f64).to_bits()),
        FloatQuery::Fract(b) => FloatAnswer::Bits(f64::from_bits(b).fract().to_bits()),
        FloatQuery::Truncate(b) => FloatAnswer::Whole(f64::from_bits(b) as i128),
        FloatQuery::WholeText(b) => FloatAnswer::Text(format!("{:.0}", f64::from_bits(b))),
    }
}

fn node(
    id: OperationId,
    text: &str,
    lhs: Option<ExpressionNode>,
    rhs: Option<ExpressionNode>,
) -> ExpressionNode {
    ExpressionNode {
        operation: Operation {
            id,
            string_value: text.to_string(),
            update_assign: false,
        },
        lhs: lhs.map(Box::new),
        rhs: rhs.map(Box::new),
    }
}

fn lit(text: &str) -> ExpressionNode {
    node(OperationId::Value, text, None, None)
}

fn this() -> ExpressionNode {
    node(OperationId::SelfRef, ".", None, None)
}

fn key(name: &str) -> ExpressionNode {
    node(OperationId::TraversePath, name, None, None)
}

fn int_value(v: i64) -> Value {
    Value::Number(Numeric::Int(v))
}

fn float(v: f64) -> Value {
    Value::Number(Numeric::Float(v.to_bits()))
}

fn text(s: &str) -> Value {
    Value::String(s.to_string())
}

fn array(items: Vec<Value>) -> Value {
    Value::Array(items)
}

fn object(entries: Vec<(&str, Value)>) -> Value {
    Value::Object(
        entries
            .into_iter()
            .map(|(k, v)| Entry { key: k.to_string(), value: v })
            .collect(),
    )
}

fn eval(input: &Value, expression: &ExpressionNode) -> Result<Value, EvaluationError> {
    AllAtOnceEvaluator::new().evaluate_owned_node(input, expression, &floats)
}

fn unary(id: OperationId, op_text: &str, input: &Value) -> Result<Value, EvaluationError> {
    AllAtOnceEvaluator::new().evaluate_input_unary(id, op_text, input, &floats)
}

#[test]
fn evaluates_basic_arithmetic() {
    let tree = node(
        OperationId::Add,
        "+",
        Some(lit("1")),
        Some(node(OperationId::Multiply, "*", Some(lit("2")), Some(lit("3")))),
    );
    let value = AllAtOnceEvaluator::new()
        .evaluate(&Value::Null, Some(&tree), &floats)
        .expect("evaluation should succeed");

    assert_eq!(value, Value::Number(Numeric::Int(7)));
}

#[test]
fn numeric_extremes_promote_to_float_instead_of_panicking() {
    assert!(matches!(add_numbers(Numeric::Int(i64::MAX), Numeric::Int(1), &floats), Numeric::Float(_)));
    assert!(matches!(subtract_numbers(Numeric::Int(i64::MIN), Numeric::Int(1), &floats), Numeric::Float(_)));
    assert!(matches!(multiply_numbers(Numeric::Int(i64::MAX), Numeric::Int(2), &floats), Numeric::Float(_)));
    assert!(matches!(divide_numbers(Numeric::Int(i64::MIN), Numeric::Int(-1), &floats), Ok(Numeric::Float(_))));
    assert!(matches!(modulo_numbers(Numeric::Int(i64::MIN), Numeric::Int(-1), &floats), Ok(Numeric::Float(_))));
}

#[test]
fn integer_arithmetic_stays_integral_and_inexact_division_goes_to_float() {
    assert_eq!(divide_numbers(Numeric::Int(6), Numeric::Int(3), &floats), Ok(Numeric::Int(2)));
    assert_eq!(divide_numbers(Numeric::Int(7), Numeric::Int(2), &floats), Ok(Numeric::Float(3.5f64.to_bits())));
    assert_eq!(modulo_numbers(Numeric::Int(-7), Numeric::Int(2), &floats), Ok(Numeric::Int(-1)));
    assert_eq!(divide_numbers(Numeric::Int(1), Numeric::Int(0), &floats), Err(EvaluationError::DivisionByZero));
    assert_eq!(
        divide_numbers(Numeric::Int(1), Numeric::Float((-0.0f64).to_bits()), &floats),
        Err(EvaluationError::DivisionByZero)
    );
    assert_eq!(add_numbers(Numeric::Int(2), Numeric::Float(0.5f64.to_bits()), &floats), Numeric::Float(2.5f64.to_bits()));
}

#[test]
fn length_counts_characters_items_entries_and_number_text() {
    assert_eq!(unary(OperationId::Length, "length", &text("héllo")), Ok(int_value(5)));
    assert_eq!(unary(OperationId::Length, "length", &float(1.5)), Ok(int_value(3)));
    assert_eq!(unary(OperationId::Length, "length", &int_value(-120)), Ok(int_value(4)));
    assert_eq!(unary(OperationId::Length, "length", &Value::Null), Ok(int_value(0)));
    assert_eq!(unary(OperationId::Length, "length", &Value::Bool(false)), Ok(int_value(1)));
    assert_eq!(unary(OperationId::Length, "length", &array(vec![int_value(1), int_value(2)])), Ok(int_value(2)));
}

#[test]
fn keys_of_arrays_and_objects() {
    assert_eq!(
        unary(OperationId::Keys, "keys", &array(vec![text("x"), text("y")])),
        Ok(array(vec![int_value(0), int_value(1)]))
    );
    assert_eq!(
        unary(OperationId::Keys, "keys", &object(vec![("a", int_value(1)), ("b", int_value(2))])),
        Ok(array(vec![text("a"), text("b")]))
    );
    assert_eq!(
        unary(OperationId::Keys, "keys", &text("s")),
        Err(EvaluationError::TypeMismatch { expected: "array or object", actual: "string".to_string() })
    );
}

#[test]
fn to_string_renders_scalars_and_debug_form_of_containers() {
    assert_eq!(unary(OperationId::ToString, "tostring", &int_value(12)), Ok(text("12")));
    assert_eq!(unary(OperationId::ToString, "tostring", &float(2.0)), Ok(text("2")));
    assert_eq!(
        unary(OperationId::ToString, "tostring", &array(vec![int_value(1), text("x"), float(1.0)])),
        Ok(text("[Number(Int(1)), String(\"x\"), Number(Float(1.0))]"))
    );
    assert_eq!(
        unary(OperationId::ToString, "tostring", &object(vec![("k", Value::Null)])),
        Ok(text("{\"k\": Null}"))
    );
}

#[test]
fn to_number_reads_literals() {
    assert_eq!(unary(OperationId::ToNumber, "tonumber", &text("42")), Ok(int_value(42)));
    assert_eq!(unary(OperationId::ToNumber, "tonumber", &text("2.5")), Ok(float(2.5)));
    assert_eq!(
        unary(OperationId::ToNumber, "tonumber", &text(" 42")),
        Err(EvaluationError::TypeMismatch { expected: "number", actual: "string".to_string() })
    );
    assert_eq!(
        unary(OperationId::ToNumber, "tonumber", &Value::Bool(true)),
        Err(EvaluationError::TypeMismatch { expected: "number", actual: "bool".to_string() })
    );
}

#[test]
fn literals_follow_their_reading_rules() {
    assert_eq!(Value::from_literal("NULL", &floats), Value::Null);
    assert_eq!(Value::from_literal("True", &floats), Value::Bool(true));
    assert_eq!(Value::from_literal("'quoted'", &floats), text("quoted"));
    assert_eq!(Value::from_literal(" padded ", &floats), text(" padded "));
    assert_eq!(Value::from_literal("-17", &floats), int_value(-17));
    assert_eq!(Value::from_literal("1e3", &floats), float(1000.0));
    assert_eq!(Value::from_literal("word", &floats), text("word"));
}

#[test]
fn trim_and_change_case() {
    assert_eq!(unary(OperationId::Trim, "trim", &text("  a b \n")), Ok(text("a b")));
    assert_eq!(unary(OperationId::ChangeCase, "ascii_upcase", &text("abc")), Ok(text("ABC")));
    assert_eq!(unary(OperationId::ChangeCase, "upcase()", &text("straße")), Ok(text("STRASSE")));
    assert_eq!(unary(OperationId::ChangeCase, "downcase", &text("ABC")), Ok(text("abc")));
    assert_eq!(
        unary(OperationId::Trim, "trim", &int_value(1)),
        Err(EvaluationError::TypeMismatch { expected: "string", actual: "number".to_string() })
    );
}

#[test]
fn split_and_join_with_call_arguments() {
    assert_eq!(
        unary(OperationId::Split, "split(\",\")", &text("a,b,,c")),
        Ok(array(vec![text("a"), text("b"), text(""), text("c")]))
    );
    assert_eq!(
        unary(OperationId::Split, "split(\"\")", &text("ab")),
        Ok(array(vec![text("a"), text("b")]))
    );
    assert_eq!(
        unary(OperationId::Split, "split(\"::\")", &text(":::a")),
        Ok(array(vec![text(""), text(":a")]))
    );
    assert_eq!(
        unary(OperationId::Join, "join(\"-\")", &array(vec![int_value(1), text("a"), Value::Null])),
        Ok(text("1-a-null"))
    );
    assert_eq!(unary(OperationId::Join, "join", &array(vec![text("x"), text("y")])), Ok(text("xy")));
}

#[test]
fn first_reverse_any_all() {
    let items = array(vec![int_value(0), text(""), int_value(3)]);
    assert_eq!(unary(OperationId::First, "first", &items), Ok(int_value(0)));
    assert_eq!(unary(OperationId::First, "first", &array(vec![])), Ok(Value::Null));
    assert_eq!(
        unary(OperationId::Reverse, "reverse", &items),
        Ok(array(vec![int_value(3), text(""), int_value(0)]))
    );
    assert_eq!(unary(OperationId::Any, "any", &items), Ok(Value::Bool(true)));
    assert_eq!(unary(OperationId::All, "all", &items), Ok(Value::Bool(false)));
    assert_eq!(unary(OperationId::All, "all", &array(vec![])), Ok(Value::Bool(true)));
}

#[test]
fn sort_orders_by_kind_then_text_and_keeps_ties_stable() {
    let items = array(vec![text("b"), int_value(3), Value::Null, int_value(1), Value::Bool(true), text("a")]);
    assert_eq!(
        unary(OperationId::Sort, "sort", &items),
        Ok(array(vec![Value::Null, Value::Bool(true), int_value(1), int_value(3), text("a"), text("b")]))
    );
    let ties = array(vec![int_value(1), float(1.0)]);
    assert_eq!(unary(OperationId::Sort, "sort", &ties), Ok(array(vec![int_value(1), float(1.0)])));
}

#[test]
fn unique_keeps_first_of_equal_values() {
    let items = array(vec![int_value(1), int_value(2), int_value(1), float(1.0), float(f64::NAN), float(f64::NAN)]);
    let out = unary(OperationId::Unique, "unique", &items).unwrap();
    match out {
        Value::Array(v) => {
            assert_eq!(v.len(), 5);
            assert_eq!(v[0], int_value(1));
            assert_eq!(v[1], int_value(2));
            assert_eq!(v[2], float(1.0));
        }
        other => panic!("unexpected {:?}", other),
    }
}

#[test]
fn flatten_to_a_depth() {
    let items = array(vec![array(vec![int_value(1), array(vec![int_value(2)])]), int_value(3)]);
    assert_eq!(
        unary(OperationId::Flatten, "flatten", &items),
        Ok(array(vec![int_value(1), int_value(2), int_value(3)]))
    );
    assert_eq!(
        unary(OperationId::Flatten, "flatten(1)", &items),
        Ok(array(vec![int_value(1), array(vec![int_value(2)]), int_value(3)]))
    );
    assert_eq!(
        unary(OperationId::Flatten, "flatten(0)", &items),
        Ok(array(vec![array(vec![int_value(1), array(vec![int_value(2)])]), int_value(3)]))
    );
}

#[test]
fn min_and_max_read_numbers_as_floats() {
    let items = array(vec![int_value(3), float(1.5), text("2")]);
    assert_eq!(unary(OperationId::Min, "min", &items), Ok(float(1.5)));
    assert_eq!(unary(OperationId::Max, "max", &items), Ok(float(3.0)));
    assert_eq!(unary(OperationId::Max, "max", &array(vec![])), Ok(Value::Null));
    assert_eq!(
        unary(OperationId::Min, "min", &array(vec![int_value(1), Value::Null])),
        Err(EvaluationError::TypeMismatch { expected: "number", actual: "null".to_string() })
    );
}

#[test]
fn a_non_unary_operation_is_unsupported_there() {
    assert_eq!(
        unary(OperationId::Add, "+", &Value::Null),
        Err(EvaluationError::UnsupportedOperation("add".to_string()))
    );
}

#[test]
fn paths_and_indices_traverse_values() {
    let input = object(vec![("a", array(vec![int_value(10), int_value(20), int_value(30)])), ("b", text("x"))]);
    assert_eq!(eval(&input, &key("b")), Ok(text("x")));
    assert_eq!(eval(&input, &key("missing")), Ok(Value::Null));
    let second = node(OperationId::TraverseArray, "[]", Some(key("a")), Some(lit("1")));
    assert_eq!(eval(&input, &second), Ok(int_value(20)));
    let past = node(OperationId::TraverseArray, "[]", Some(key("a")), Some(lit("9")));
    assert_eq!(eval(&input, &past), Ok(Value::Null));
    let negative = node(OperationId::TraverseArray, "[]", Some(key("a")), Some(lit("-1")));
    assert_eq!(
        eval(&input, &negative),
        Err(EvaluationError::TypeMismatch { expected: "non-negative integer", actual: "-1".to_string() })
    );
    assert_eq!(
        eval(&int_value(1), &key("a")),
        Err(EvaluationError::TypeMismatch { expected: "object", actual: "number".to_string() })
    );
}

#[test]
fn several_indices_select_several_items() {
    let ev = AllAtOnceEvaluator::new();
    let values = array(vec![text("a"), text("b"), text("c")]);
    let picked = ev.evaluate_traversal(OperationId::TraverseArray, values, array(vec![int_value(2), int_value(0)]), &floats);
    assert_eq!(picked, Ok(array(vec![text("c"), text("a")])));
    let values = array(vec![text("a"), text("b")]);
    let one = ev.evaluate_traversal(OperationId::TraverseArray, values, array(vec![int_value(1)]), &floats);
    assert_eq!(one, Ok(text("b")));
}

#[test]
fn pipes_maps_selects_and_sorts() {
    let input = array(vec![int_value(3), int_value(1), int_value(2)]);
    let greater_than_one = node(OperationId::Relational, ">", Some(this()), Some(lit("1")));
    let select = node(OperationId::Select, "select", None, Some(greater_than_one));
    assert_eq!(eval(&input, &select), Ok(array(vec![int_value(3), int_value(2)])));

    let doubled = node(OperationId::Multiply, "*", Some(this()), Some(lit("2")));
    let map = node(OperationId::MapItems, "map", None, Some(doubled));
    assert_eq!(eval(&input, &map), Ok(array(vec![int_value(6), int_value(2), int_value(4)])));

    let sort_by = node(OperationId::SortBy, "sort_by", None, Some(this()));
    assert_eq!(eval(&input, &sort_by), Ok(array(vec![int_value(1), int_value(2), int_value(3)])));
    let by_name = node(OperationId::SortBy, "sort_by", None, Some(key("n")));
    let people = array(vec![
        object(vec![("i", int_value(0)), ("n", text("b"))]),
        object(vec![("i", int_value(1)), ("n", text("a"))]),
        object(vec![("i", int_value(2)), ("n", text("b"))]),
    ]);
    assert_eq!(
        eval(&people, &by_name),
        Ok(array(vec![
            object(vec![("i", int_value(1)), ("n", text("a"))]),
            object(vec![("i", int_value(0)), ("n", text("b"))]),
            object(vec![("i", int_value(2)), ("n", text("b"))]),
        ]))
    );

    let is_two = node(OperationId::Equals, "==", Some(this()), Some(lit("2")));
    let pipe = node(
        OperationId::Pipe,
        "|",
        Some(this()),
        Some(node(OperationId::Select, "select", None, Some(is_two))),
    );
    assert_eq!(eval(&input, &pipe), Ok(array(vec![int_value(2)])));
}

#[test]
fn assignments_write_paths_and_updates_map_items() {
    let set = node(OperationId::Assign, "=", Some(key("a")), Some(lit("1")));
    assert_eq!(eval(&Value::Null, &set), Ok(object(vec![("a", int_value(1))])));

    let at_two = node(OperationId::TraverseArray, "[]", Some(this()), Some(lit("2")));
    let set_index = node(OperationId::Assign, "=", Some(at_two), Some(lit("x")));
    assert_eq!(
        eval(&array(vec![int_value(0)]), &set_index),
        Ok(array(vec![int_value(0), Value::Null, text("x")]))
    );

    let every = node(
        OperationId::TraverseArray,
        "[]",
        Some(this()),
        Some(node(OperationId::Collect, "[]", None, Some(node(OperationId::Empty, "", None, None)))),
    );
    let plus_one = node(OperationId::Add, "+", Some(this()), Some(lit("1")));
    let mut update = node(OperationId::Assign, "|=", Some(every), Some(plus_one));
    update.operation.update_assign = true;
    assert_eq!(eval(&array(vec![int_value(1), int_value(2)]), &update), Ok(array(vec![int_value(2), int_value(3)])));
    let results = AllAtOnceEvaluator::new()
        .evaluate_many(&vec![array(vec![int_value(1), int_value(2)]), array(vec![int_value(4)])], Some(&update), &floats)
        .unwrap();
    assert_eq!(results, vec![int_value(2), int_value(3), int_value(5)]);
}

#[test]
fn collections_build_arrays_and_objects() {
    let union = node(OperationId::Union, ",", Some(lit("1")), Some(lit("\"two\"")));
    let collect = node(OperationId::Collect, "[]", None, Some(union));
    assert_eq!(eval(&Value::Null, &collect), Ok(array(vec![int_value(1), text("two")])));

    let pair_b = node(OperationId::CreateMap, ":", Some(lit("b")), Some(lit("2")));
    let pair_a = node(OperationId::CreateMap, ":", Some(lit("a")), Some(lit("1")));
    let both = node(OperationId::Union, ",", Some(pair_b), Some(pair_a));
    let object_node = node(OperationId::CollectObject, "{}", None, Some(both));
    assert_eq!(eval(&Value::Null, &object_node), Ok(object(vec![("a", int_value(1)), ("b", int_value(2))])));
}

#[test]
fn contains_has_and_comparisons() {
    let input = object(vec![("a", array(vec![int_value(1), text("xyz")]))]);
    let needle = node(OperationId::Value, "yz", None, None);
    let contains = node(OperationId::Contains, "contains", Some(key("a")), Some(needle));
    assert_eq!(eval(&input, &contains), Ok(Value::Bool(true)));
    let has = node(OperationId::Has, "has", None, Some(lit("a")));
    assert_eq!(eval(&input, &has), Ok(Value::Bool(true)));
    let has_index = node(OperationId::Has, "has", Some(key("a")), Some(lit("5")));
    assert_eq!(eval(&input, &has_index), Ok(Value::Bool(false)));
    let equal = node(OperationId::Equals, "==", Some(lit("1")), Some(lit("1.0")));
    assert_eq!(eval(&Value::Null, &equal), Ok(Value::Bool(true)));
    let alt = node(OperationId::Alternative, "//", Some(lit("null")), Some(lit("7")));
    assert_eq!(eval(&Value::Null, &alt), Ok(int_value(7)));
    let concat = node(OperationId::Add, "+", Some(lit("\"a\"")), Some(lit("1")));
    assert_eq!(eval(&Value::Null, &concat), Ok(text("a1")));
}

#[test]
fn evaluation_errors_name_their_cause() {
    let missing = node(OperationId::Add, "+", Some(lit("1")), None);
    assert_eq!(eval(&Value::Null, &missing), Err(EvaluationError::MissingOperand("rhs")));
    let divide = node(OperationId::Divide, "/", Some(lit("1")), Some(lit("0")));
    assert_eq!(eval(&Value::Null, &divide), Err(EvaluationError::DivisionByZero));
    let compare = node(OperationId::Relational, "<>", Some(lit("1")), Some(lit("2")));
    assert_eq!(eval(&Value::Null, &compare), Err(EvaluationError::UnsupportedOperation("<>".to_string())));
    let map = node(OperationId::MapItems, "map", None, Some(this()));
    assert_eq!(
        eval(&int_value(1), &map),
        Err(EvaluationError::TypeMismatch { expected: "array", actual: "number".to_string() })
    );
}

#[test]
fn an_assigned_key_reads_back_and_other_keys_stay() {
    let input = object(vec![("a", int_value(1)), ("c", int_value(3))]);
    let set = node(OperationId::Assign, "=", Some(key("b")), Some(lit("2")));
    let written = eval(&input, &set).unwrap();
    assert_eq!(
        written,
        object(vec![("a", int_value(1)), ("b", int_value(2)), ("c", int_value(3))])
    );
    assert_eq!(eval(&written, &key("b")), Ok(int_value(2)));
    assert_eq!(eval(&written, &key("a")), Ok(int_value(1)));
    let overwrite = node(OperationId::Assign, "=", Some(key("a")), Some(lit("9")));
    assert_eq!(
        eval(&written, &overwrite),
        Ok(object(vec![("a", int_value(9)), ("b", int_value(2)), ("c", int_value(3))]))
    );
}

#[test]
fn numbers_as_floats_and_text() {
    assert_eq!(Numeric::Int(3).as_f64(&floats), 3.0f64.to_bits());
    assert_eq!(Numeric::Float(2.5f64.to_bits()).display(&floats), "2.5");
    assert_eq!(Numeric::Int(-4).display(&floats), "-4");
    assert_eq!(text("7").as_number(&floats), Ok(7.0f64.to_bits()));
    assert!(Numeric::Float((-0.0f64).to_bits()).is_zero());
    assert!(Value::Number(Numeric::Float(f64::NAN.to_bits())).truthy());
}

#[test]
fn a_key_written_into_a_scalar_reads_back() {
    let set = node(OperationId::Assign, "=", Some(key("k")), Some(lit("[1]")));
    let written = eval(&text("scalar"), &set).unwrap();
    assert_eq!(written, object(vec![("k", text("[1]"))]));
    assert_eq!(eval(&written, &key("k")), Ok(text("[1]")));
}

#[test]
fn a_cloned_value_is_equal() {
    let v = object(vec![("a", array(vec![int_value(1), float(2.5), Value::Null]))]);
    assert_eq!(v.clone(), v);
    assert_eq!(v.duplicate(), v);
}
