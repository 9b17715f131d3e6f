//! The planner shared by languages whose edits replace one scalar's text:
//! it decides, from the node at the path and the edit value, whether the
//! edit can be made in place and which text goes where.
use vstd::prelude::*;
use crate::document::protocol::{GraphValueEditFallbackReason, GraphValueEditPlan, GraphValueEditPlanMode};
use crate::document::snapshot::TreeNodeKind;
use super::{graph_value_edit_edits, graph_value_edit_fallback, json_quoted, quote_json_string, span_to_edit, text_len, PathSpan};
use super::csv::{csv_field, format_csv_field};
use super::edit_value::{
    edit_value_as_scalar_string, edit_value_to_plain_json, is_plain_scalar, is_plain_scalar_edit_value,
    plain_json, scalar_text,
};
use super::json::{json_model, json_text, JsonModel, JsonValue};
use super::python::{format_python_key, format_python_value, python_key, python_text};
use super::yaml::{
    format_yaml_value, quote_yaml_single, refine_yaml_value_span, yaml_quoted, yaml_refined,
    yaml_span_on_boundaries, yaml_value_text,
};

verus! {

/// A span that starts at a byte of the source and is not empty.
pub open spec fn default_normalized(span: PathSpan) -> Option<PathSpan> {
    if span.start_byte >= 0 && span.end_byte > span.start_byte {
        Some(span)
    } else {
        None
    }
}

/// The span itself where it starts at a byte of the source and is not empty.
pub fn normalize_default_scalar_graph_edit_span(span: PathSpan) -> (r: Option<PathSpan>)
    ensures
        r == default_normalized(span),
{
    if span.start_byte >= 0 && span.end_byte > span.start_byte {
        Some(span)
    } else {
        None
    }
}

/// The text of an optional string.
pub open spec fn opt_text(r: Option<String>) -> Option<Seq<char>> {
    match r {
        Some(s) => Some(s@),
        None => None,
    }
}

/// The languages whose edits replace a scalar's text, each with its rules
/// for spans, keys and values.
#[derive(Debug, Clone, Copy, PartialEq, Eq)]
pub enum ScalarGraphValueEditRules {
    Json,
    Yaml,
    Csv,
    Python,
}

impl ScalarGraphValueEditRules {
    /// Whether keys can be edited: they can in every one of these languages.
    pub open spec fn key_edits(self) -> bool {
        true
    }

    /// Whether keys can be edited.
    pub fn supports_key_edit(&self) -> (r: bool)
        ensures
            r == self.key_edits(),
    {
        true
    }

    /// A computed span made fit to be replaced: a YAML value's span narrowed
    /// to its own text.
    pub open spec fn normalized(self, source: &str, prefer_key: bool, span: PathSpan) -> Option<PathSpan> {
        match default_normalized(span) {
            None => None,
            Some(s) => match self {
                ScalarGraphValueEditRules::Yaml => if prefer_key {
                    Some(s)
                } else {
                    yaml_refined(source, s)
                },
                _ => Some(s),
            },
        }
    }

    /// A computed span made fit to be replaced.
    pub fn normalize_span(&self, source: &str, prefer_key: bool, span: PathSpan) -> (r: Option<PathSpan>)
        requires
            yaml_span_on_boundaries(source, span),
        ensures
            r == self.normalized(source, prefer_key, span),
    {
        let span = match normalize_default_scalar_graph_edit_span(span) {
            Some(s) => s,
            None => {
                return None;
            },
        };
        match self {
            ScalarGraphValueEditRules::Yaml => if prefer_key {
                Some(span)
            } else {
                refine_yaml_value_span(source, span)
            },
            _ => Some(span),
        }
    }

    /// The text that replaces a whole list or map: JSON writes the value;
    /// the others write none.
    pub open spec fn subtree_text(self, value: JsonModel) -> Option<Seq<char>> {
        match self {
            ScalarGraphValueEditRules::Json => Some(json_text(value)),
            _ => None,
        }
    }

    /// The text that replaces a whole list or map.
    pub fn format_subtree_value(&self, value: &JsonValue) -> (r: Option<String>)
        ensures
            opt_text(r) == self.subtree_text(json_model(*value)),
    {
        match self {
            ScalarGraphValueEditRules::Json => Some(value.to_string()),
            _ => None,
        }
    }

    /// A key as the language writes it.
    pub open spec fn key_text(self, key: Seq<char>) -> Option<Seq<char>> {
        match self {
            ScalarGraphValueEditRules::Json => Some(json_quoted(key)),
            ScalarGraphValueEditRules::Yaml => Some(yaml_quoted(key)),
            ScalarGraphValueEditRules::Csv => Some(csv_field(key)),
            ScalarGraphValueEditRules::Python => Some(python_key(key)),
        }
    }

    /// A key as the language writes it.
    pub fn format_key(&self, key: &str) -> (r: Option<String>)
        ensures
            opt_text(r) == self.key_text(key@),
    {
        match self {
            ScalarGraphValueEditRules::Json => Some(quote_json_string(key)),
            ScalarGraphValueEditRules::Yaml => Some(quote_yaml_single(key)),
            ScalarGraphValueEditRules::Csv => Some(format_csv_field(key)),
            ScalarGraphValueEditRules::Python => Some(format_python_key(key)),
        }
    }

    /// A scalar value as the language writes it.
    pub open spec fn value_text(self, value: JsonModel) -> Option<Seq<char>> {
        match self {
            ScalarGraphValueEditRules::Json => Some(json_text(plain_json(value))),
            ScalarGraphValueEditRules::Yaml => Some(yaml_value_text(value)),
            ScalarGraphValueEditRules::Csv => Some(csv_field(scalar_text(value))),
            ScalarGraphValueEditRules::Python => Some(python_text(value)),
        }
    }

    /// A scalar value as the language writes it.
    pub fn format_value(&self, value: &JsonValue) -> (r: Option<String>)
        ensures
            opt_text(r) == self.value_text(json_model(*value)),
    {
        match self {
            ScalarGraphValueEditRules::Json => Some(edit_value_to_plain_json(value).to_string()),
            ScalarGraphValueEditRules::Yaml => Some(format_yaml_value(value)),
            ScalarGraphValueEditRules::Csv => {
                let text = edit_value_as_scalar_string(value);
                Some(format_csv_field(text.as_str()))
            },
            ScalarGraphValueEditRules::Python => Some(format_python_value(value)),
        }
    }
}

/// What a plan comes to: a whole-value replacement for a reason, or one
/// text edit that puts `text` in place of the span's bytes.
pub enum PlanOutcome {
    Fallback(GraphValueEditFallbackReason),
    Replace(PathSpan, Seq<char>),
}

/// The edit of `span` by `text`, where the span is a forward byte range
/// whose new end fits in `u32`.
pub open spec fn edit_outcome(span: PathSpan, text: Seq<char>) -> PlanOutcome {
    if span.start_byte < 0 || span.end_byte < span.start_byte || span.start_byte + text_len(text) > u32::MAX {
        PlanOutcome::Fallback(GraphValueEditFallbackReason::InvalidPath)
    } else {
        PlanOutcome::Replace(span, text)
    }
}

/// The plan `r` is the outcome `o`.
pub open spec fn plan_is(r: GraphValueEditPlan, o: PlanOutcome) -> bool {
    match o {
        PlanOutcome::Fallback(reason) => r.mode == GraphValueEditPlanMode::Replace && r.edits@.len() == 0
            && r.reason == Some(reason),
        PlanOutcome::Replace(span, text) => r.mode == GraphValueEditPlanMode::Edits && r.reason is None
            && r.edits@.len() == 1 && r.edits@[0].start_byte == span.start_byte && r.edits@[0].old_end_byte
            == span.end_byte && r.edits@[0].new_end_byte == span.start_byte + text_len(text)
            && r.edits@[0].replacement@ == text,
    }
}

/// The plan that replaces `span` with `replacement`, or replaces the whole
/// value where the span cannot be edited.
fn edit_plan(span: PathSpan, replacement: String) -> (r: GraphValueEditPlan)
    ensures
        plan_is(r, edit_outcome(span, replacement@)),
{
    match span_to_edit(span, replacement) {
        Some(edit) => graph_value_edit_edits(vec![edit]),
        None => graph_value_edit_fallback(GraphValueEditFallbackReason::InvalidPath),
    }
}

/// The planner of one language.
#[derive(Debug, Clone, Copy, PartialEq, Eq)]
pub struct ScalarGraphValueEditPlanner {
    pub rules: ScalarGraphValueEditRules,
}

/// The text that an edit puts in place: the key as the language writes it,
/// for a key edit; the value as it writes it, otherwise.
pub open spec fn replacement_text(rules: ScalarGraphValueEditRules, prefer_key: bool, value: JsonModel) -> Option<
    Seq<char>,
> {
    if prefer_key {
        rules.key_text(scalar_text(plain_json(value)))
    } else {
        rules.value_text(plain_json(value))
    }
}

/// The plan of an edit. `target_kind` is the kind of the node at the path,
/// if there is one, and `computed_span` the span found for the path. A node
/// that is a list or a map is replaced as a whole where the language writes
/// such values; a path with no node cannot be edited; a key edit needs a
/// language that edits keys; a value edit needs a scalar value; then the
/// span, made fit, takes the replacement text.
pub open spec fn planned(
    rules: ScalarGraphValueEditRules,
    source: &str,
    prefer_key: bool,
    value: JsonModel,
    target_kind: Option<TreeNodeKind>,
    computed_span: PathSpan,
) -> PlanOutcome {
    match target_kind {
        None => PlanOutcome::Fallback(GraphValueEditFallbackReason::InvalidPath),
        Some(kind) => if kind != TreeNodeKind::Scalar {
            match rules.subtree_text(plain_json(value)) {
                Some(text) => match rules.normalized(source, prefer_key, computed_span) {
                    Some(span) => edit_outcome(span, text),
                    None => PlanOutcome::Fallback(GraphValueEditFallbackReason::InvalidPath),
                },
                None => PlanOutcome::Fallback(GraphValueEditFallbackReason::UnsupportedEdit),
            }
        } else if prefer_key && !rules.key_edits() {
            PlanOutcome::Fallback(GraphValueEditFallbackReason::UnsupportedEdit)
        } else if !prefer_key && !is_plain_scalar(value) {
            PlanOutcome::Fallback(GraphValueEditFallbackReason::UnsupportedEdit)
        } else {
            match replacement_text(rules, prefer_key, value) {
                None => PlanOutcome::Fallback(GraphValueEditFallbackReason::InvalidReplacement),
                Some(text) => match rules.normalized(source, prefer_key, computed_span) {
                    Some(span) => edit_outcome(span, text),
                    None => PlanOutcome::Fallback(GraphValueEditFallbackReason::InvalidPath),
                },
            }
        },
    }
}

impl ScalarGraphValueEditPlanner {
    /// The planner of a language.
    pub fn new(rules: ScalarGraphValueEditRules) -> (r: Self)
        ensures
            r.rules == rules,
    {
        ScalarGraphValueEditPlanner { rules }
    }

    /// The text that an edit puts in place.
    pub fn format_replacement(&self, prefer_key: bool, value: &JsonValue) -> (r: Option<String>)
        ensures
            opt_text(r) == replacement_text(self.rules, prefer_key, json_model(*value)),
    {
        let plain = edit_value_to_plain_json(value);
        if prefer_key {
            let key = edit_value_as_scalar_string(&plain);
            return self.rules.format_key(key.as_str());
        }
        self.rules.format_value(&plain)
    }

    /// Plans an edit of the node at a path: `target_kind` is that node's
    /// kind, if there is one, and `computed_span` the span found for it.
    pub fn plan(
        &self,
        source: &str,
        prefer_key: bool,
        value: &JsonValue,
        target_kind: Option<TreeNodeKind>,
        computed_span: PathSpan,
    ) -> (r: GraphValueEditPlan)
        requires
            yaml_span_on_boundaries(source, computed_span),
        ensures
            plan_is(r, planned(self.rules, source, prefer_key, json_model(*value), target_kind, computed_span)),
    {
        let kind = match target_kind {
            Some(kind) => kind,
            None => {
                return graph_value_edit_fallback(GraphValueEditFallbackReason::InvalidPath);
            },
        };
        let is_scalar = match kind {
            TreeNodeKind::Scalar => true,
            _ => false,
        };
        if !is_scalar {
            let plain = edit_value_to_plain_json(value);
            return match self.rules.format_subtree_value(&plain) {
                Some(formatted) => match self.rules.normalize_span(source, prefer_key, computed_span) {
                    Some(span) => edit_plan(span, formatted),
                    None => graph_value_edit_fallback(GraphValueEditFallbackReason::InvalidPath),
                },
                None => graph_value_edit_fallback(GraphValueEditFallbackReason::UnsupportedEdit),
            };
        }
        if prefer_key && !self.rules.supports_key_edit() {
            return graph_value_edit_fallback(GraphValueEditFallbackReason::UnsupportedEdit);
        }
        if !prefer_key && !is_plain_scalar_edit_value(value) {
            return graph_value_edit_fallback(GraphValueEditFallbackReason::UnsupportedEdit);
        }
        let replacement = match self.format_replacement(prefer_key, value) {
            Some(text) => text,
            None => {
                return graph_value_edit_fallback(GraphValueEditFallbackReason::InvalidReplacement);
            },
        };
        match self.rules.normalize_span(source, prefer_key, computed_span) {
            Some(span) => edit_plan(span, replacement),
            None => graph_value_edit_fallback(GraphValueEditFallbackReason::InvalidPath),
        }
    }
}

} // verus!
