use treease_core::document::protocol::{GraphValueEditFallbackReason, GraphValueEditPlanMode};
use treease_core::document::snapshot::{SemType, TreeNodeKind};
use treease_core::document::value_edit::edit_value::{
    edit_value_as_scalar_string, edit_value_to_plain_json, is_plain_scalar_edit_value, str_lt,
};
use treease_core::document::value_edit::json::JsonValue;
use treease_core::document::value_edit::python::format_python_value;
use treease_core::document::value_edit::scalar::{
    normalize_default_scalar_graph_edit_span, ScalarGraphValueEditPlanner, ScalarGraphValueEditRules,
};
use treease_core::document::value_edit::toml::{format_toml_string_for_target, format_toml_value};
use treease_core::document::value_edit::yaml::format_yaml_value;
use treease_core::document::value_edit::PathSpan;

fn st(x: &str) -> JsonValue {
    JsonValue::String(x.to_owned())
}

fn num(x: &str) -> JsonValue {
    JsonValue::Number(x.to_owned())
}

fn obj(entries: Vec<(&str, JsonValue)>) -> JsonValue {
    JsonValue::Object(entries.into_iter().map(|(k, v)| (k.to_owned(), v)).collect())
}

/// A scalar node of the tree form.
fn scalar_node(raw: &str, sem: i64) -> JsonValue {
    obj(vec![
        ("kind", num("2")),
        ("children", JsonValue::Array(vec![])),
        ("value", st(raw)),
        ("semType", num(&sem.to_string())),
    ])
}

fn sample() -> JsonValue {
    obj(vec![("a", num("1")), ("b", JsonValue::Array(vec![JsonValue::Bool(true), JsonValue::Null, st("x\"y")]))])
}

fn float_display(s: &str) -> Option<String> {
    s.parse::<f64>().ok().map(|f| f.to_string())
}

fn span(start: i32, end: i32) -> PathSpan {
    PathSpan { start_byte: start, end_byte: end, row: 0, column: 0 }
}

#[test]
fn compact_json_text() {
    assert_eq!(sample().to_string(), r#"{"a":1,"b":[true,null,"x\"y"]}"#);
    assert_eq!(JsonValue::Array(vec![]).to_string(), "[]");
    assert_eq!(obj(vec![]).to_string(), "{}");
    assert_eq!(st("tab\there").to_string(), r#""tab\there""#);
}

#[test]
fn clone_keeps_the_value() {
    let v = sample();
    assert_eq!(v.clone(), v);
}

#[test]
fn python_value_text() {
    assert_eq!(format_python_value(&sample()), r#"{'a': 1, 'b': [True, None, 'x"y']}"#);
    assert_eq!(format_python_value(&st("it's\n")), r"'it\'s\n'");
    assert_eq!(format_python_value(&JsonValue::Bool(false)), "False");
}

#[test]
fn yaml_value_text() {
    assert_eq!(format_yaml_value(&st("it's")), "'it''s'");
    assert_eq!(format_yaml_value(&JsonValue::Null), "null");
    assert_eq!(format_yaml_value(&num("-2.5")), "-2.5");
    assert_eq!(format_yaml_value(&sample()), r#"{"a":1,"b":[true,null,"x\"y"]}"#);
}

#[test]
fn string_order() {
    assert!(str_lt("a", "b"));
    assert!(str_lt("ab", "abc"));
    assert!(!str_lt("abc", "ab"));
    assert!(!str_lt("same", "same"));
    assert!(str_lt("Z", "a"));
    assert!(str_lt("z", "é"));
}

#[test]
fn plain_values_stand_for_themselves() {
    let v = sample();
    assert_eq!(edit_value_to_plain_json(&v), v);
    let only_kind = obj(vec![("kind", num("0"))]);
    assert_eq!(edit_value_to_plain_json(&only_kind), only_kind);
    assert_eq!(edit_value_to_plain_json(&st("x")), st("x"));
}

#[test]
fn sequence_node_becomes_an_array() {
    let node = obj(vec![
        ("kind", num("0")),
        ("children", JsonValue::Array(vec![scalar_node("1", 3), scalar_node("yes", 5), st("plain")])),
    ]);
    assert_eq!(
        edit_value_to_plain_json(&node),
        JsonValue::Array(vec![num("1"), JsonValue::Bool(true), st("plain")])
    );
    let no_children = obj(vec![("kind", num("0")), ("children", st("none"))]);
    assert_eq!(edit_value_to_plain_json(&no_children), JsonValue::Array(vec![]));
}

#[test]
fn map_node_becomes_an_ordered_object() {
    let node = obj(vec![
        ("kind", num("1")),
        (
            "children",
            JsonValue::Array(vec![
                st("zeta"),
                num("1"),
                st("alpha"),
                num("2"),
                st("zeta"),
                num("3"),
                num("7"),
                JsonValue::Null,
                st("unpaired"),
            ]),
        ),
    ]);
    assert_eq!(
        edit_value_to_plain_json(&node),
        obj(vec![("7", JsonValue::Null), ("alpha", num("2")), ("zeta", num("3"))])
    );
}

#[test]
fn scalar_nodes_read_their_text_by_type() {
    assert_eq!(edit_value_to_plain_json(&scalar_node("42", 3)), num("42"));
    assert_eq!(edit_value_to_plain_json(&scalar_node("+7", 3)), num("7"));
    assert_eq!(
        edit_value_to_plain_json(&scalar_node("-9223372036854775808", 3)),
        num("-9223372036854775808")
    );
    assert_eq!(edit_value_to_plain_json(&scalar_node("9223372036854775808", 3)), st("9223372036854775808"));
    assert_eq!(edit_value_to_plain_json(&scalar_node(" 4", 3)), st(" 4"));
    assert_eq!(edit_value_to_plain_json(&scalar_node("1.5", 4)), num("1.5"));
    assert_eq!(edit_value_to_plain_json(&scalar_node("2", 4)), num("2.0"));
    assert_eq!(edit_value_to_plain_json(&scalar_node("inf", 4)), st("inf"));
    assert_eq!(edit_value_to_plain_json(&scalar_node(" YES ", 5)), JsonValue::Bool(true));
    assert_eq!(edit_value_to_plain_json(&scalar_node("no", 5)), JsonValue::Bool(false));
    assert_eq!(edit_value_to_plain_json(&scalar_node("~", 6)), JsonValue::Null);
    assert_eq!(edit_value_to_plain_json(&scalar_node("text", 2)), st("text"));
    let untyped = obj(vec![("kind", num("3")), ("children", JsonValue::Array(vec![])), ("value", st("12"))]);
    assert_eq!(edit_value_to_plain_json(&untyped), st("12"));
    let no_value = obj(vec![("kind", num("2")), ("children", JsonValue::Array(vec![])), ("semType", num("3"))]);
    assert_eq!(edit_value_to_plain_json(&no_value), st(""));
}

#[test]
fn other_kinds_take_their_value_string() {
    let alias = obj(vec![("kind", num("4")), ("children", JsonValue::Array(vec![])), ("value", st("*ref"))]);
    assert_eq!(edit_value_to_plain_json(&alias), st("*ref"));
    let bare = obj(vec![("kind", num("9")), ("children", JsonValue::Array(vec![]))]);
    assert_eq!(edit_value_to_plain_json(&bare), bare);
    let float_kind = obj(vec![("kind", num("0.5")), ("children", JsonValue::Array(vec![])), ("value", st("v"))]);
    assert_eq!(edit_value_to_plain_json(&float_kind), st("v"));
}

#[test]
fn scalar_strings() {
    assert_eq!(edit_value_as_scalar_string(&st("x")), "x");
    assert_eq!(edit_value_as_scalar_string(&num("12")), "12");
    assert_eq!(edit_value_as_scalar_string(&JsonValue::Bool(true)), "true");
    assert_eq!(edit_value_as_scalar_string(&JsonValue::Null), "");
    assert_eq!(edit_value_as_scalar_string(&sample()), r#"{"a":1,"b":[true,null,"x\"y"]}"#);
    assert_eq!(edit_value_as_scalar_string(&scalar_node("5", 3)), "5");
    assert!(is_plain_scalar_edit_value(&scalar_node("5", 3)));
    assert!(!is_plain_scalar_edit_value(&sample()));
}

#[test]
fn default_span_normalization() {
    assert_eq!(normalize_default_scalar_graph_edit_span(span(2, 5)), Some(span(2, 5)));
    assert_eq!(normalize_default_scalar_graph_edit_span(span(2, 2)), None);
    assert_eq!(normalize_default_scalar_graph_edit_span(span(-1, 2)), None);
}

#[test]
fn language_rules_write_keys_and_values() {
    let json = ScalarGraphValueEditRules::Json;
    assert!(json.supports_key_edit());
    assert_eq!(json.format_key("k\"").unwrap(), r#""k\"""#);
    assert_eq!(json.format_value(&scalar_node("3", 3)).unwrap(), "3");
    assert_eq!(json.format_subtree_value(&sample()).unwrap(), r#"{"a":1,"b":[true,null,"x\"y"]}"#);
    let csv = ScalarGraphValueEditRules::Csv;
    assert_eq!(csv.format_value(&st("a,b")).unwrap(), "\"a,b\"");
    assert_eq!(csv.format_key("plain").unwrap(), "plain");
    assert_eq!(csv.format_subtree_value(&sample()), None);
    let yaml = ScalarGraphValueEditRules::Yaml;
    assert_eq!(yaml.format_key("it's").unwrap(), "'it''s'");
    let python = ScalarGraphValueEditRules::Python;
    assert_eq!(python.format_key("a'b").unwrap(), r#""a'b""#);
    assert_eq!(python.format_value(&JsonValue::Null).unwrap(), "None");
}

#[test]
fn yaml_rules_narrow_value_spans() {
    let yaml = ScalarGraphValueEditRules::Yaml;
    let source = "k: &anchor value\n";
    assert_eq!(yaml.normalize_span(source, false, span(3, 16)), Some(span(11, 16)));
    assert_eq!(yaml.normalize_span(source, true, span(0, 1)), Some(span(0, 1)));
    assert_eq!(yaml.normalize_span(source, false, span(3, 3)), None);
}

#[test]
fn planner_replaces_a_scalar() {
    let planner = ScalarGraphValueEditPlanner::new(ScalarGraphValueEditRules::Json);
    let source = r#"{"k":1}"#;
    let plan = planner.plan(source, false, &st("x"), Some(TreeNodeKind::Scalar), span(5, 6));
    assert_eq!(plan.mode, GraphValueEditPlanMode::Edits);
    assert_eq!(plan.reason, None);
    assert_eq!(plan.edits.len(), 1);
    assert_eq!((plan.edits[0].start_byte, plan.edits[0].old_end_byte, plan.edits[0].new_end_byte), (5, 6, 8));
    assert_eq!(plan.edits[0].replacement, "\"x\"");
    let key_plan = planner.plan(source, true, &st("n"), Some(TreeNodeKind::Scalar), span(1, 4));
    assert_eq!(key_plan.edits[0].replacement, "\"n\"");
}

#[test]
fn planner_falls_back() {
    let json = ScalarGraphValueEditPlanner::new(ScalarGraphValueEditRules::Json);
    let yaml = ScalarGraphValueEditPlanner::new(ScalarGraphValueEditRules::Yaml);
    let source = "{\"k\":[1]}";
    let missing = json.plan(source, false, &st("x"), None, span(0, 1));
    assert_eq!(missing.mode, GraphValueEditPlanMode::Replace);
    assert_eq!(missing.reason, Some(GraphValueEditFallbackReason::InvalidPath));
    assert!(missing.edits.is_empty());
    let list_value = json.plan(source, false, &sample(), Some(TreeNodeKind::Scalar), span(5, 8));
    assert_eq!(list_value.reason, Some(GraphValueEditFallbackReason::UnsupportedEdit));
    let subtree_yaml = yaml.plan("k:\n  - 1\n", false, &sample(), Some(TreeNodeKind::Sequence), span(3, 9));
    assert_eq!(subtree_yaml.reason, Some(GraphValueEditFallbackReason::UnsupportedEdit));
    let bad_span = json.plan(source, false, &st("x"), Some(TreeNodeKind::Scalar), span(-1, 3));
    assert_eq!(bad_span.reason, Some(GraphValueEditFallbackReason::InvalidPath));
}

#[test]
fn planner_replaces_a_subtree_as_json() {
    let json = ScalarGraphValueEditPlanner::new(ScalarGraphValueEditRules::Json);
    let plan = json.plan("{\"k\":[1]}", false, &JsonValue::Array(vec![num("2")]), Some(TreeNodeKind::Sequence), span(5, 8));
    assert_eq!(plan.mode, GraphValueEditPlanMode::Edits);
    assert_eq!(plan.edits[0].replacement, "[2]");
    assert_eq!(plan.edits[0].new_end_byte, 8);
}

#[test]
fn toml_values_follow_the_target_type() {
    assert_eq!(format_toml_string_for_target(" 42 ", Some(SemType::Int), &float_display), Some("42".to_owned()));
    assert_eq!(format_toml_string_for_target("4x", Some(SemType::Int), &float_display), None);
    assert_eq!(format_toml_string_for_target(" 2.50 ", Some(SemType::Float), &float_display), Some("2.5".to_owned()));
    assert_eq!(format_toml_string_for_target("Yes", Some(SemType::Boolean), &float_display), Some("true".to_owned()));
    assert_eq!(format_toml_string_for_target(" N", Some(SemType::Boolean), &float_display), Some("false".to_owned()));
    assert_eq!(
        format_toml_string_for_target("maybe", Some(SemType::Boolean), &float_display),
        Some("\"maybe\"".to_owned())
    );
    assert_eq!(format_toml_string_for_target("x", None, &float_display), Some("\"x\"".to_owned()));
    assert_eq!(format_toml_value(&JsonValue::Bool(true), None, &float_display), Some("true".to_owned()));
    assert_eq!(format_toml_value(&num("3"), Some(SemType::Str), &float_display), Some("3".to_owned()));
    assert_eq!(format_toml_value(&JsonValue::Null, None, &float_display), None);
    assert_eq!(format_toml_value(&sample(), None, &float_display), None);
}
