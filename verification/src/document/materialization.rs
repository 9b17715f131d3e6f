//! How a non-streaming job becomes a candidate snapshot. The runtime stays
//! responsible for snapshot identity, freshness, commit and the terminal
//! lifecycle; decoding the source is the materializer's work.
use vstd::prelude::*;
use vstd::utf8::{encode_utf8, valid_utf8};
use crate::text::{push_str, str_eq};
use crate::line_index::LineIndex;
use super::job_entry::{DocumentJobHandle, JobEntry};
use super::protocol::{
    copy_edits, copy_string, DocumentInputPlan, DocumentJobKind, DocumentTextEdit, JobTerminal, OutputPlan, SnapshotId,
};
use super::runtime::DocumentRuntime;
use super::snapshot::{
    build_source_only_analysis, is_source_only_analysis, AnalysisBundle, DecodedDocument, DocumentSnapshot,
    GraphProjection, IncrementalState,
};
use super::engine::snapshot_output_error;

verus! {

/// What the materializer produced for a job's source.
#[derive(Debug)]
pub struct MaterializeResult {
    pub analysis: AnalysisBundle,
    pub graph: Option<GraphProjection>,
    pub incremental: Option<IncrementalState>,
    pub terminal: Option<JobTerminal>,
}

/// The source a materializer decodes and what it is asked to produce.
#[derive(Debug)]
pub struct MaterializeRequest {
    pub input: DocumentInputPlan,
    pub document_key: String,
    pub language: String,
    pub source: String,
    pub output: OutputPlan,
    pub edits: Vec<DocumentTextEdit>,
}

/// What an edit can reuse of the snapshot it is based on.
#[derive(Debug, Clone, Copy)]
pub struct MaterializeBaseContext<'a> {
    pub document: Option<&'a DecodedDocument>,
    pub incremental: Option<&'a IncrementalState>,
    pub line_index: Option<&'a LineIndex>,
    pub semantic_tokens: Option<&'a [u32]>,
}

impl<'a> MaterializeBaseContext<'a> {
    /// The parts of a base snapshot that an edit can reuse.
    pub fn from_snapshot(base: &'a DocumentSnapshot) -> (r: Self)
        ensures
            match base.analysis {
                Some(a) => (r.document matches Some(d) && a.document == Some(*d)) || (r.document is None && a.document is None),
                None => r.document is None,
            },
            match base.incremental {
                Some(i) => r.incremental matches Some(x) && *x == i,
                None => r.incremental is None,
            },
            match base.analysis {
                Some(a) => r.line_index matches Some(l) && *l == a.line_index,
                None => r.line_index is None,
            },
            match base.analysis {
                Some(a) => r.semantic_tokens matches Some(t) && t@ == a.semantic_tokens@,
                None => r.semantic_tokens is None,
            },
    {
        match &base.analysis {
            Some(analysis) => MaterializeBaseContext {
                document: analysis.document.as_ref(),
                incremental: base.incremental.as_ref(),
                line_index: Some(&analysis.line_index),
                semantic_tokens: Some(analysis.semantic_tokens.as_slice()),
            },
            None => MaterializeBaseContext {
                document: None,
                incremental: base.incremental.as_ref(),
                line_index: None,
                semantic_tokens: None,
            },
        }
    }
}

/// Result classification for one non-streaming job materialization.
#[derive(Debug)]
pub enum MaterializationOutcome {
    Ready { snapshot: DocumentSnapshot, output: OutputPlan },
    DiagnosticsOnly { snapshot: DocumentSnapshot, output: OutputPlan },
    Rejected { code: String, detail: String },
}

/// The outcome is a rejection under `code` with `detail`.
pub open spec fn is_rejected_outcome(r: MaterializationOutcome, code: Seq<char>, detail: Seq<char>) -> bool {
    r matches MaterializationOutcome::Rejected { code: c, detail: d } && c@ == code && d@ == detail
}

/// `s` is the candidate snapshot of `result` for document `key`.
pub open spec fn is_candidate(s: DocumentSnapshot, key: Seq<char>, result: MaterializeResult) -> bool {
    &&& s.snapshot_id == SnapshotId(0)
    &&& s.document_key@ == key
    &&& s.analysis == Some(result.analysis)
    &&& s.graph == result.graph
    &&& s.incremental == result.incremental
}

/// The materialization produced only diagnostics: no document, and at
/// least one diagnostic.
pub open spec fn is_diagnostics_only(result: MaterializeResult) -> bool {
    result.analysis.document is None && result.analysis.diagnostics@.len() > 0
}

/// `r` classifies `result` for document `key` and the requested `output`.
pub open spec fn classifies(r: MaterializationOutcome, key: Seq<char>, output: OutputPlan, result: MaterializeResult) -> bool {
    if is_diagnostics_only(result) {
        r matches MaterializationOutcome::DiagnosticsOnly { snapshot, output: o } && is_candidate(snapshot, key, result) && o == output
    } else {
        match snapshot_output_error(result.graph, output) {
            Some(message) => is_rejected_outcome(r, "missing_requested_main_graph"@, message),
            None => r matches MaterializationOutcome::Ready { snapshot, output: o } && is_candidate(snapshot, key, result) && o == output,
        }
    }
}

/// A source that is empty or holds only white space.
pub open spec fn is_blank_text(source: Seq<char>) -> bool {
    crate::text::trimmed(source).len() == 0
}

/// Whether the source is empty or holds only white space.
pub fn is_blank_source(source: &str) -> (r: bool)
    ensures
        r == is_blank_text(source@),
{
    let chars = crate::text::chars_of(source);
    crate::text::trim_chars(&chars).len() == 0
}

/// `res` is what a blank source materializes to: an analysis of the source
/// alone, a cleared main graph where one was asked for, no incremental
/// state and no terminal.
pub open spec fn is_blank_result(res: MaterializeResult, key: Seq<char>, language: Seq<char>, source: &str, output: OutputPlan) -> bool {
    &&& is_source_only_analysis(res.analysis, key, language, source)
    &&& res.graph == (if output.graph {
        Some(GraphProjection { ready: true, clear: true, graph_data: None })
    } else {
        None
    })
    &&& res.incremental is None
    &&& res.terminal is None
}

/// What a blank source materializes to: nothing to decode, so an analysis
/// of the source alone and, where asked for, a main graph that clears
/// what was shown.
pub fn materialize_blank_document(document_key: &str, language: &str, source: &str, output: &OutputPlan) -> (r: MaterializeResult)
    ensures
        is_blank_result(r, document_key@, language@, source, *output),
{
    MaterializeResult {
        analysis: build_source_only_analysis(document_key, language, source),
        graph: if output.graph {
            Some(GraphProjection { ready: true, clear: true, graph_data: None })
        } else {
            None
        },
        incremental: None,
        terminal: None,
    }
}

/// Classifies a materialization: diagnostics alone make a diagnostics-only
/// snapshot; otherwise the requested main graph must be there.
pub fn classify_materialization(document_key: &str, output: OutputPlan, result: MaterializeResult) -> (r: MaterializationOutcome)
    ensures
        classifies(r, document_key@, output, result),
{
    let diagnostics_only = result.analysis.document.is_none() && result.analysis.diagnostics.len() > 0;
    if !diagnostics_only {
        match super::engine::validate_snapshot_ready_outputs(result.graph.as_ref(), &output) {
            Ok(()) => {},
            Err(detail) => {
                return MaterializationOutcome::Rejected { code: "missing_requested_main_graph".to_owned(), detail };
            },
        }
    }
    let snapshot = DocumentSnapshot {
        snapshot_id: SnapshotId(0),
        document_key: document_key.to_owned(),
        analysis: Some(result.analysis),
        graph: result.graph,
        incremental: result.incremental,
    };
    if diagnostics_only {
        MaterializationOutcome::DiagnosticsOnly { snapshot, output }
    } else {
        MaterializationOutcome::Ready { snapshot, output }
    }
}

/// The rejection for a handle that no job is registered under.
pub fn reject_missing_job(handle: DocumentJobHandle) -> (r: MaterializationOutcome)
    ensures
        is_rejected_outcome(r, "document_runtime_missing_job"@,
            "No document runtime job registered for handle "@ + crate::text::decimal(handle.0 as nat)),
{
    let mut detail = String::new();
    push_str(&mut detail, "No document runtime job registered for handle ");
    crate::text::push_decimal(&mut detail, handle.0);
    MaterializationOutcome::Rejected { code: "document_runtime_missing_job".to_owned(), detail }
}

/// The message of a UTF-8 decoding error (its `Display`), which describes
/// where the invalid sequence is; nothing is stated of the text.
#[verifier::external_body]
fn utf8_error_text(error: &std::string::FromUtf8Error) -> String {
    error.to_string()
}

/// The entry after its submitted source was taken.
pub open spec fn source_taken(e: JobEntry) -> JobEntry {
    JobEntry {
        source_bytes: None,
        source_buffer: if e.source_bytes is Some { e.source_buffer } else { None },
        ..e
    }
}

/// The submitted source decodes as text.
pub open spec fn source_ok(e: JobEntry) -> bool {
    e.source_bytes is None || valid_utf8(e.submitted_bytes())
}

/// `req` asks to materialize `source` for the job `e`: an analysis of the
/// source itself, or the job's edits applied to it.
pub open spec fn is_request_for(req: MaterializeRequest, e: JobEntry, source: Seq<char>) -> bool {
    &&& req.document_key@ == e.spec.document_key@
    &&& req.language@ == e.spec.language@
    &&& req.source@ == source
    &&& req.output == e.spec.output
    &&& match e.spec.kind {
        DocumentJobKind::AnalyzeSource => req.input == DocumentInputPlan::SourceText && req.edits@.len() == 0,
        DocumentJobKind::ApplyEdits => req.input == DocumentInputPlan::BaseTextWithEdits && req.edits@ == e.spec.edits@,
    }
}

/// The detail of a source that is not valid UTF-8 starts with this text.
pub open spec fn invalid_utf8_prefix() -> Seq<char> {
    "document source is not valid UTF-8: "@
}

/// Materializing job `h` with `f` took `old` to `new` and gave `r`.
pub open spec fn materialize_job_post<F: FnOnce(MaterializeRequest, Option<&DocumentSnapshot>) -> MaterializeResult>(
    old: DocumentRuntime,
    new: DocumentRuntime,
    h: u64,
    f: F,
    r: MaterializationOutcome,
) -> bool {
    match old.job_of(h) {
        None => is_rejected_outcome(r, "document_runtime_missing_job"@,
            "No document runtime job registered for handle "@ + crate::text::decimal(h as nat)) && new.same_as(&old),
        Some(e) => {
            let key = e.spec.document_key@;
            &&& new.job_of(h) == Some(source_taken(e))
            &&& forall|h2: u64| h2 != h ==> new.job_of(h2) == old.job_of(h2)
            &&& new.same_but_jobs(&old)
            &&& if !source_ok(e) {
                r matches MaterializationOutcome::Rejected { code, detail } && code@ == "invalid_utf8_source"@
                    && detail@.len() >= invalid_utf8_prefix().len()
                    && detail@.subrange(0, invalid_utf8_prefix().len() as int) == invalid_utf8_prefix()
            } else {
                match e.spec.kind {
                    DocumentJobKind::AnalyzeSource => exists|source: &str|
                        encode_utf8(source@) == e.submitted_bytes() && if is_blank_text(source@) {
                            exists|res: MaterializeResult|
                                is_blank_result(res, key, e.spec.language@, source, e.spec.output)
                                    && classifies(r, key, e.spec.output, res)
                        } else {
                            exists|req: MaterializeRequest, res: MaterializeResult|
                                is_request_for(req, e, source@) && call_ensures(f, (req, None), res)
                                    && classifies(r, key, e.spec.output, res)
                        },
                    DocumentJobKind::ApplyEdits => match e.spec.base_snapshot_id {
                        None => is_rejected_outcome(r, "missing_base_snapshot"@, "ApplyEdits requires a base snapshot"@),
                        Some(base_id) => match old.stored(base_id.0) {
                            None => is_rejected_outcome(r, "base_snapshot_not_found"@, "ApplyEdits base snapshot is not available"@),
                            Some(base) => if base.document_key@ != key {
                                is_rejected_outcome(r, "base_snapshot_document_mismatch"@, "ApplyEdits base snapshot belongs to a different document"@)
                            } else {
                                match base.analysis {
                                    None => is_rejected_outcome(r, "base_snapshot_missing_analysis"@, "ApplyEdits base snapshot has no analysis"@),
                                    Some(base_analysis) => exists|req: MaterializeRequest, res: MaterializeResult|
                                        is_request_for(req, e, base_analysis.source@)
                                            && call_ensures(f, (req, Some(&base)), res) && classifies(r, key, e.spec.output, res),
                                }
                            },
                        },
                    },
                }
            }
        },
    }
}

/// Turns job `handle` into a candidate snapshot: takes its submitted
/// source, checks the base snapshot of an edit, has `materialize` decode
/// the source and classifies what it produced.
pub fn materialize_job<F: FnOnce(MaterializeRequest, Option<&DocumentSnapshot>) -> MaterializeResult>(
    runtime: &mut DocumentRuntime,
    handle: DocumentJobHandle,
    materialize: F,
) -> (r: MaterializationOutcome)
    requires
        old(runtime).wf(),
        forall|req: MaterializeRequest, base: Option<&DocumentSnapshot>| call_requires(materialize, (req, base)),
    ensures
        final(runtime).wf(),
        materialize_job_post(*old(runtime), *final(runtime), handle.0, materialize, r),
{
    let mut entry = match runtime.take_job(handle) {
        Some(e) => e,
        None => {
            return reject_missing_job(handle);
        },
    };
    let ghost original = entry;
    let source_result = entry.take_source_text();
    let kind = entry.spec.kind;
    let document_key = copy_string(&entry.spec.document_key);
    let language = copy_string(&entry.spec.language);
    let output = entry.spec.output;
    let base_snapshot_id = entry.spec.base_snapshot_id;
    let edits = copy_edits(&entry.spec.edits);
    proof {
        assert(entry == source_taken(original));
    }
    runtime.restore_job(handle, entry);
    let source = match source_result {
        Ok(source) => source,
        Err(error) => {
            let mut detail = String::new();
            push_str(&mut detail, "document source is not valid UTF-8: ");
            let text = utf8_error_text(&error);
            push_str(&mut detail, text.as_str());
            proof {
                assert(detail@.subrange(0, invalid_utf8_prefix().len() as int) =~= invalid_utf8_prefix());
            }
            return MaterializationOutcome::Rejected { code: "invalid_utf8_source".to_owned(), detail };
        },
    };
    match kind {
        DocumentJobKind::AnalyzeSource => {
            let text = source.as_str();
            if is_blank_source(text) {
                let result = materialize_blank_document(document_key.as_str(), language.as_str(), text, &output);
                return classify_materialization(document_key.as_str(), output, result);
            }
            let request = MaterializeRequest {
                input: DocumentInputPlan::SourceText,
                document_key: copy_string(&document_key),
                language,
                source,
                output,
                edits: Vec::new(),
            };
            let ghost req = request;
            let result = materialize(request, None);
            proof {
                assert(is_request_for(req, original, req.source@));
            }
            classify_materialization(document_key.as_str(), output, result)
        },
        DocumentJobKind::ApplyEdits => {
            let base_snapshot_id = match base_snapshot_id {
                Some(id) => id,
                None => {
                    return MaterializationOutcome::Rejected {
                        code: "missing_base_snapshot".to_owned(),
                        detail: "ApplyEdits requires a base snapshot".to_owned(),
                    };
                },
            };
            let base = match runtime.snapshot(base_snapshot_id) {
                Some(base) => base,
                None => {
                    return MaterializationOutcome::Rejected {
                        code: "base_snapshot_not_found".to_owned(),
                        detail: "ApplyEdits base snapshot is not available".to_owned(),
                    };
                },
            };
            if !str_eq(base.document_key.as_str(), document_key.as_str()) {
                return MaterializationOutcome::Rejected {
                    code: "base_snapshot_document_mismatch".to_owned(),
                    detail: "ApplyEdits base snapshot belongs to a different document".to_owned(),
                };
            }
            let base_analysis = match &base.analysis {
                Some(a) => a,
                None => {
                    return MaterializationOutcome::Rejected {
                        code: "base_snapshot_missing_analysis".to_owned(),
                        detail: "ApplyEdits base snapshot has no analysis".to_owned(),
                    };
                },
            };
            let request = MaterializeRequest {
                input: DocumentInputPlan::BaseTextWithEdits,
                document_key: copy_string(&document_key),
                language,
                source: copy_string(&base_analysis.source),
                output,
                edits,
            };
            let ghost req = request;
            let result = materialize(request, Some(base));
            proof {
                assert(is_request_for(req, original, base_analysis.source@));
            }
            classify_materialization(document_key.as_str(), output, result)
        },
    }
}

} // verus!