use treease_core::document::protocol::{GraphPathSeg, GraphValueEditFallbackReason, GraphValueEditPlanMode};
use treease_core::document::value_edit::csv::format_csv_field;
use treease_core::document::value_edit::python::{format_python_key, quote_python_string};
use treease_core::document::value_edit::toml::{
    active_toml_array_index, build_toml_header_context, build_toml_missing_target_edit, find_toml_assignment_line,
    find_toml_char_outside_quotes, format_toml_key, is_bare_toml_key, normalize_graph_match_key,
    normalize_toml_source_keys, parse_toml_assignment_line, parse_toml_header_parts, path_matches_graph_segments,
    recover_toml_assignment_span, split_toml_key_parts, toml_graph_path_signature,
};
use treease_core::document::value_edit::yaml::{quote_yaml_single, refine_yaml_value_span};
use treease_core::document::value_edit::{
    graph_value_edit_edits, graph_value_edit_fallback, quote_json_string, request_path_segments, span_to_edit, PathSeg,
    PathSegTag, PathSpan,
};

/// Unquotes a quoted key segment and trims white space around it.
fn unquote(raw: &str) -> String {
    let t = raw.trim();
    if t.len() >= 2 && ((t.starts_with('"') && t.ends_with('"')) || (t.starts_with('\'') && t.ends_with('\''))) {
        t[1..t.len() - 1].to_owned()
    } else {
        t.to_owned()
    }
}

fn key(k: &str) -> PathSeg<'_> {
    PathSeg { tag: PathSegTag::Key, key: k, index: 0 }
}

fn index(i: i32) -> PathSeg<'static> {
    PathSeg { tag: PathSegTag::Index, key: "", index: i }
}

fn graph_key(k: &str) -> GraphPathSeg {
    GraphPathSeg { tag: 0, key: k.to_owned(), index: 0 }
}

fn graph_index(i: i32) -> GraphPathSeg {
    GraphPathSeg { tag: 1, key: String::new(), index: i }
}

#[test]
fn quote_json_string_escapes_like_json() {
    assert_eq!(quote_json_string("plain"), "\"plain\"");
    assert_eq!(quote_json_string("a\"b\\c"), "\"a\\\"b\\\\c\"");
    assert_eq!(quote_json_string("t\tn\nr\r\u{8}\u{c}"), "\"t\\tn\\nr\\r\\b\\f\"");
    assert_eq!(quote_json_string("\u{1}\u{1f}\u{7f}é"), "\"\\u0001\\u001f\u{7f}é\"");
}

#[test]
fn csv_fields_are_quoted_only_when_needed() {
    assert_eq!(format_csv_field("plain"), "plain");
    assert_eq!(format_csv_field("a,b"), "\"a,b\"");
    assert_eq!(format_csv_field("say \"hi\""), "\"say \"\"hi\"\"\"");
    assert_eq!(format_csv_field("line\nbreak"), "\"line\nbreak\"");
    assert_eq!(format_csv_field(""), "");
}

#[test]
fn python_strings_and_keys() {
    assert_eq!(quote_python_string("it's"), "'it\\'s'");
    assert_eq!(quote_python_string("a\\b\n\t\r"), "'a\\\\b\\n\\t\\r'");
    assert_eq!(format_python_key("name"), "'name'");
    assert_eq!(format_python_key("it's"), "\"it's\"");
    assert_eq!(format_python_key("a\\b"), "\"a\\\\b\"");
}

#[test]
fn yaml_single_quotes_double_inner_quotes() {
    assert_eq!(quote_yaml_single("it's"), "'it''s'");
    assert_eq!(quote_yaml_single(""), "''");
}

#[test]
fn yaml_value_span_skips_dash_anchors_and_tags() {
    let source = "key: - &a !tag value\n";
    let span = PathSpan { start_byte: 5, end_byte: 20, row: 1, column: 2 };
    assert_eq!(
        refine_yaml_value_span(source, span),
        Some(PathSpan { start_byte: 15, end_byte: 20, row: 1, column: 2 })
    );
    let alias = "k: *ref";
    assert_eq!(refine_yaml_value_span(alias, PathSpan { start_byte: 3, end_byte: 7, row: 0, column: 0 }), None);
    assert_eq!(refine_yaml_value_span(alias, PathSpan { start_byte: 3, end_byte: 99, row: 0, column: 0 }), None);
    assert_eq!(refine_yaml_value_span(alias, PathSpan { start_byte: -1, end_byte: 2, row: 0, column: 0 }), None);
    assert_eq!(refine_yaml_value_span("a:   ", PathSpan { start_byte: 2, end_byte: 5, row: 0, column: 0 }), None);
}

#[test]
fn span_to_edit_checks_the_span() {
    let edit = span_to_edit(PathSpan { start_byte: 3, end_byte: 5, row: 0, column: 0 }, "héllo".to_owned()).unwrap();
    assert_eq!((edit.start_byte, edit.old_end_byte, edit.new_end_byte), (3, 5, 9));
    assert_eq!(edit.replacement, "héllo");
    assert!(span_to_edit(PathSpan { start_byte: -1, end_byte: 5, row: 0, column: 0 }, String::new()).is_none());
    assert!(span_to_edit(PathSpan { start_byte: 6, end_byte: 5, row: 0, column: 0 }, String::new()).is_none());
}

#[test]
fn edit_plans_carry_mode_and_reason() {
    let fallback = graph_value_edit_fallback(GraphValueEditFallbackReason::InvalidPath);
    assert_eq!(fallback.mode, GraphValueEditPlanMode::Replace);
    assert!(fallback.edits.is_empty());
    assert_eq!(fallback.reason, Some(GraphValueEditFallbackReason::InvalidPath));
    let plan = graph_value_edit_edits(vec![]);
    assert_eq!(plan.mode, GraphValueEditPlanMode::Edits);
    assert_eq!(plan.reason, None);
}

#[test]
fn request_path_segments_map_tags() {
    let path = vec![graph_key("rows"), graph_index(2)];
    let steps = request_path_segments(&path);
    assert_eq!(steps, vec![key("rows"), index(2)]);
}

#[test]
fn toml_char_search_skips_quoted_text() {
    assert_eq!(find_toml_char_outside_quotes("a = 1", '='), Some(2));
    assert_eq!(find_toml_char_outside_quotes("\"a=b\" = 1", '='), Some(6));
    assert_eq!(find_toml_char_outside_quotes("'x=' = 2", '='), Some(5));
    assert_eq!(find_toml_char_outside_quotes("\"a\\\"=\" = 3", '='), Some(7));
    assert_eq!(find_toml_char_outside_quotes("é = 1", '='), Some(3));
    assert_eq!(find_toml_char_outside_quotes("\"unterminated = 1", '='), None);
}

#[test]
fn toml_keys_split_on_dots_outside_quotes() {
    assert_eq!(split_toml_key_parts("a.b.c", &unquote), Some(vec!["a".to_owned(), "b".to_owned(), "c".to_owned()]));
    assert_eq!(split_toml_key_parts("a.\"b.c\"", &unquote), Some(vec!["a".to_owned(), "b.c".to_owned()]));
    assert_eq!(split_toml_key_parts(" x . y ", &unquote), Some(vec!["x".to_owned(), "y".to_owned()]));
    assert_eq!(split_toml_key_parts("'open", &unquote), None);
}

#[test]
fn toml_assignment_lines_give_key_and_value_spans() {
    let line = parse_toml_assignment_line("  name = \"value\"  ", 10, &unquote).unwrap();
    assert_eq!(line.key_parts, vec!["name".to_owned()]);
    assert_eq!(line.raw_key_text, "name");
    assert_eq!(line.key_span, (12, 16));
    assert_eq!(line.value_span, (19, 26));
    assert!(parse_toml_assignment_line("novalue =   ", 0, &unquote).is_none());
    assert!(parse_toml_assignment_line(" = 1", 0, &unquote).is_none());
    assert!(parse_toml_assignment_line("plain text", 0, &unquote).is_none());
}

#[test]
fn toml_headers_parse_tables_and_arrays() {
    assert_eq!(parse_toml_header_parts("[a.b]", &unquote), Some((false, vec!["a".to_owned(), "b".to_owned()])));
    assert_eq!(parse_toml_header_parts("[[items]]", &unquote), Some((true, vec!["items".to_owned()])));
    assert_eq!(parse_toml_header_parts("key = 1", &unquote), None);
}

#[test]
fn toml_bare_keys_and_key_formatting() {
    assert!(is_bare_toml_key("a_b-1"));
    assert!(!is_bare_toml_key(""));
    assert!(!is_bare_toml_key("a b"));
    assert_eq!(format_toml_key("plain"), "plain");
    assert_eq!(format_toml_key("with space"), "\"with space\"");
}

#[test]
fn graph_match_keys_drop_control_characters() {
    assert_eq!(normalize_graph_match_key("a\u{1}b\u{7f}c\u{85}d"), "abcd");
    assert!(path_matches_graph_segments(&[key("a\u{1}"), index(1)], &[graph_key("a"), graph_index(1)]));
    assert!(!path_matches_graph_segments(&[key("a")], &[graph_index(0)]));
    assert!(!path_matches_graph_segments(&[key("a")], &[]));
}

#[test]
fn toml_signatures_and_array_indices() {
    assert_eq!(toml_graph_path_signature(&[graph_key("a"), graph_index(-3)]), "ka|i-3|");
    let context = vec![graph_key("items"), graph_index(2), graph_key("sub")];
    assert_eq!(active_toml_array_index(&context, &["items".to_owned()]), Some(2));
    assert_eq!(active_toml_array_index(&context, &["items".to_owned(), "sub".to_owned()]), None);
    assert_eq!(active_toml_array_index(&context, &["other".to_owned()]), None);
    assert_eq!(active_toml_array_index(&context, &[]), None);
}

#[test]
fn toml_header_contexts_count_array_elements() {
    let mut counts: Vec<(String, usize)> = Vec::new();
    let first = build_toml_header_context(&[], &["items".to_owned()], true, &mut counts);
    assert_eq!(first, vec![graph_key("items"), graph_index(0)]);
    let second = build_toml_header_context(&first, &["items".to_owned()], true, &mut counts);
    assert_eq!(second, vec![graph_key("items"), graph_index(1)]);
    let nested = build_toml_header_context(&second, &["items".to_owned(), "meta".to_owned()], false, &mut counts);
    assert_eq!(nested, vec![graph_key("items"), graph_index(1), graph_key("meta")]);
    assert!(build_toml_header_context(&nested, &[], false, &mut counts).is_empty());
}

const SOURCE: &str = "# config\ntitle = \"x\"\n\n[server]\nport = 80\n\n[[items]]\nname = \"a\"\n[[items]]\nname = \"b\"\n";

#[test]
fn toml_assignment_lines_are_found_in_their_tables() {
    let port = find_toml_assignment_line(SOURCE, &[key("server"), key("port")], &unquote).unwrap();
    assert_eq!(&SOURCE[port.value_span.0..port.value_span.1], "80");
    let second = find_toml_assignment_line(SOURCE, &[key("items"), index(1), key("name")], &unquote).unwrap();
    assert_eq!(&SOURCE[second.value_span.0..second.value_span.1], "\"b\"");
    assert!(find_toml_assignment_line(SOURCE, &[key("missing")], &unquote).is_none());
    assert_eq!(
        recover_toml_assignment_span(SOURCE, &[key("title")], true, &unquote),
        Some(PathSpan { start_byte: 9, end_byte: 14, row: 0, column: 0 })
    );
}

#[test]
fn toml_missing_targets_rewrite_the_whole_source() {
    let source = "a\u{1} = 1\nb = 2\n";
    assert_eq!(normalize_toml_source_keys(source), "a = 1\nb = 2\n");
    let edit = build_toml_missing_target_edit(source, &[key("b")], false, "3", &unquote).unwrap();
    assert_eq!(edit.start_byte, 0);
    assert_eq!(edit.old_end_byte, source.len() as u32);
    assert_eq!(edit.replacement, "a = 1\nb = 3\n");
    assert_eq!(edit.new_end_byte, edit.replacement.len() as u32);
    let renamed = build_toml_missing_target_edit(source, &[key("a")], true, "", &unquote).unwrap();
    assert_eq!(renamed.replacement, "a = 1\nb = 2\n");
    assert!(build_toml_missing_target_edit(source, &[key("zzz")], false, "3", &unquote).is_none());
}
