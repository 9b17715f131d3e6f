//! The document engine: starts, advances, closes and cancels jobs on a
//! runtime, and turns committed snapshots into events.
use vstd::prelude::*;
use super::job_entry::DocumentJobHandle;
use super::metrics::DocumentEngineMetrics;
use super::metrics::saturating_inc;
use super::protocol::{
    DocumentEvent, DocumentJobSpec, EventBatch, JobTerminal, OutputPlan, ProjectionDelta, SnapshotId, GraphDelta,
};
use super::runtime::{close_job_terminal, DocumentRuntime, is_missing_job_terminal, missing_job_terminal};
use super::materialization::{materialize_job, materialize_job_post, MaterializationOutcome, MaterializeRequest, MaterializeResult};
use super::job_entry::{text_appended, bytes_appended};
use super::protocol::{AdvanceInput, CommitMode};
use super::snapshot::DocumentSnapshot;
use crate::text::decimal;
use vstd::string::StringSliceAdditionalSpecFns;
use super::snapshot::{analysis_payload_from_bundle, is_payload_of, AnalysisBundle, GraphProjection};

verus! {

/// `b` ends a job with a rejection under `code` with `detail`.
pub open spec fn is_rejection(b: EventBatch, request_seq: u64, code: Seq<char>, detail: Seq<char>) -> bool {
    &&& b.request_seq == request_seq
    &&& b.events@.len() == 0
    &&& b.terminal matches Some(JobTerminal::Rejected { code: c, detail: d }) && c@ == code && d@ == detail
}

/// A batch that ends the job with a rejection.
pub fn rejected_batch(request_seq: u64, code: &str, detail: &str) -> (r: EventBatch)
    ensures
        is_rejection(r, request_seq, code@, detail@),
{
    EventBatch {
        request_seq,
        events: Vec::new(),
        terminal: Some(JobTerminal::Rejected { code: code.to_owned(), detail: detail.to_owned() }),
    }
}

/// A batch that leaves the job open.
pub fn open_batch(request_seq: u64, events: Vec<DocumentEvent>) -> (r: EventBatch)
    ensures
        r.request_seq == request_seq,
        r.events == events,
        r.terminal is None,
{
    EventBatch { request_seq, events, terminal: None }
}

/// A batch that ends the job with `terminal`.
pub fn terminal_batch(request_seq: u64, events: Vec<DocumentEvent>, terminal: JobTerminal) -> (r: EventBatch)
    ensures
        r.request_seq == request_seq,
        r.events == events,
        r.terminal == Some(terminal),
{
    EventBatch { request_seq, events, terminal: Some(terminal) }
}

/// `b` is a copy of the graph data `a`.
pub open spec fn graph_data_copy(a: Option<GraphDelta>, b: Option<GraphDelta>) -> bool {
    &&& (a is None <==> b is None)
    &&& (a is Some ==> cloned::<GraphDelta>(a->Some_0, b->Some_0))
}

/// `r` is the main-graph update that `graph` yields.
pub open spec fn is_projection_of(r: Option<ProjectionDelta>, graph: Option<GraphProjection>) -> bool {
    match graph {
        None => r is None,
        Some(g) => r matches Some(p) && p.clear == g.clear && graph_data_copy(g.graph_data, p.graph_data)
            && p.patch_seq == 0 && p.base_graph_version == 0 && p.graph_version == 0,
    }
}

/// The main-graph update of a snapshot's graph projection.
pub fn projection_from_graph(graph: Option<&GraphProjection>) -> (r: Option<ProjectionDelta>)
    ensures
        is_projection_of(r, match graph {
            Some(g) => Some(*g),
            None => None,
        }),
{
    match graph {
        Some(projection) => Some(ProjectionDelta {
            clear: projection.clear,
            graph_data: projection.graph_data.clone(),
            patch_seq: 0,
            base_graph_version: 0,
            graph_version: 0,
        }),
        None => None,
    }
}

/// Why a requested main graph cannot be announced, if it cannot.
pub open spec fn snapshot_output_error(graph: Option<GraphProjection>, output: OutputPlan) -> Option<Seq<char>> {
    if !output.graph {
        None
    } else {
        match graph {
            None => Some("requested main graph was not produced"@),
            Some(p) => if p.graph_data is None && !p.clear {
                Some("requested main graph was empty"@)
            } else {
                None
            },
        }
    }
}

/// Checks that a requested main graph was produced and is not an empty
/// update: it must carry data or clear the graph.
pub fn validate_snapshot_ready_outputs(graph: Option<&GraphProjection>, output: &OutputPlan) -> (r: Result<(), String>)
    ensures
        match snapshot_output_error(match graph {
            Some(g) => Some(*g),
            None => None,
        }, *output) {
            None => r is Ok,
            Some(message) => r matches Err(e) && e@ == message,
        },
{
    if !output.graph {
        return Ok(());
    }
    let projection = match graph {
        Some(p) => p,
        None => {
            return Err("requested main graph was not produced".to_owned());
        },
    };
    if projection.graph_data.is_none() && !projection.clear {
        return Err("requested main graph was empty".to_owned());
    }
    Ok(())
}

/// `event` announces snapshot `id` with what `output` asks for.
pub open spec fn is_snapshot_ready_event(
    event: DocumentEvent,
    id: SnapshotId,
    analysis: AnalysisBundle,
    graph: Option<GraphProjection>,
    output: OutputPlan,
) -> bool {
    event matches DocumentEvent::SnapshotReady { snapshot_id, analysis: payload, main_graph, source_text }
        && snapshot_id == id
        && (if output.analysis { payload matches Some(p) && is_payload_of(p, analysis, true) } else { payload is None })
        && (if output.graph { is_projection_of(main_graph, graph) } else { main_graph is None })
        && source_text is None
}

/// The event that announces a committed snapshot, or why it cannot be
/// announced.
pub fn snapshot_ready_event(
    snapshot_id: SnapshotId,
    analysis: &AnalysisBundle,
    graph: Option<&GraphProjection>,
    output: &OutputPlan,
) -> (r: Result<DocumentEvent, String>)
    ensures
        match snapshot_output_error(match graph {
            Some(g) => Some(*g),
            None => None,
        }, *output) {
            None => r matches Ok(event) && is_snapshot_ready_event(event, snapshot_id, *analysis, match graph {
                Some(g) => Some(*g),
                None => None,
            }, *output),
            Some(message) => r matches Err(e) && e@ == message,
        },
{
    let analysis_payload = if output.analysis {
        Some(analysis_payload_from_bundle(analysis, true))
    } else {
        None
    };
    match validate_snapshot_ready_outputs(graph, output) {
        Ok(()) => {},
        Err(e) => {
            return Err(e);
        },
    }
    let main_graph = if output.graph {
        projection_from_graph(graph)
    } else {
        None
    };
    Ok(DocumentEvent::SnapshotReady { snapshot_id, analysis: analysis_payload, main_graph, source_text: None })
}

/// `r` reports the failed parse of snapshot `id`: its diagnostics, then a
/// clear of the graph.
pub open spec fn are_parse_failed_events(r: Seq<DocumentEvent>, id: SnapshotId, analysis: AnalysisBundle) -> bool {
    &&& r.len() == 2
    &&& r[0] matches DocumentEvent::ParseFailed { snapshot_id, analysis: p }
        && snapshot_id == id && is_payload_of(p, analysis, false)
    &&& r[1] == (DocumentEvent::ProjectionDelta {
        clear: true,
        graph_data: None,
        patch_seq: 0,
        base_graph_version: 0,
        graph_version: 0,
    })
}

/// The events of a snapshot whose parse failed: its diagnostics, and a
/// clear of the graph.
pub fn parse_failed_events(snapshot_id: SnapshotId, analysis: &AnalysisBundle) -> (r: Vec<DocumentEvent>)
    ensures
        are_parse_failed_events(r@, snapshot_id, *analysis),
{
    vec![
        DocumentEvent::ParseFailed { snapshot_id, analysis: analysis_payload_from_bundle(analysis, false) },
        DocumentEvent::ProjectionDelta {
            clear: true,
            graph_data: None,
            patch_seq: 0,
            base_graph_version: 0,
            graph_version: 0,
        },
    ]
}

/// A snapshot-ready event that carries `source_text`; other events are
/// returned unchanged.
pub fn with_snapshot_source_text(event: DocumentEvent, source_text: Option<&str>) -> (r: DocumentEvent)
    ensures
        match event {
            DocumentEvent::SnapshotReady { snapshot_id, analysis, main_graph, .. } => r matches DocumentEvent::SnapshotReady {
                snapshot_id: id,
                analysis: a,
                main_graph: g,
                source_text: t,
            } && id == snapshot_id && a == analysis && g == main_graph && match source_text {
                Some(s) => t matches Some(ts) && ts@ == s@,
                None => t is None,
            },
            _ => r == event,
        },
{
    match event {
        DocumentEvent::SnapshotReady { snapshot_id, analysis, main_graph, .. } => DocumentEvent::SnapshotReady {
            snapshot_id,
            analysis,
            main_graph,
            source_text: match source_text {
                Some(s) => Some(s.to_owned()),
                None => None,
            },
        },
        other => other,
    }
}

/// `event` announces snapshot `id` as `output` asks, carrying `text` as the
/// source.
pub open spec fn announces(
    event: DocumentEvent,
    id: SnapshotId,
    analysis: AnalysisBundle,
    graph: Option<GraphProjection>,
    output: OutputPlan,
    text: Option<Seq<char>>,
) -> bool {
    event matches DocumentEvent::SnapshotReady { snapshot_id, analysis: payload, main_graph, source_text }
        && snapshot_id == id
        && (if output.analysis { payload matches Some(p) && is_payload_of(p, analysis, true) } else { payload is None })
        && (if output.graph { is_projection_of(main_graph, graph) } else { main_graph is None })
        && match text {
            Some(t) => source_text matches Some(st) && st@ == t,
            None => source_text is None,
        }
}

/// The events that close job `h` of `rt` with `terminal`: the announcement
/// of the job's latest snapshot for a completed job, its diagnostics for a
/// failed parse, and nothing otherwise or where the snapshot has no
/// analysis.
pub open spec fn terminal_events(
    r: Seq<DocumentEvent>,
    rt: DocumentRuntime,
    h: u64,
    terminal: JobTerminal,
    output: OutputPlan,
    text: Option<Seq<char>>,
) -> bool {
    let latest = match rt.job_of(h) {
        Some(e) => e.latest_snapshot_id,
        None => None,
    };
    match latest {
        None => r.len() == 0,
        Some(id) => match rt.stored(id.0) {
            None => r.len() == 0,
            Some(snapshot) => match snapshot.analysis {
                None => r.len() == 0,
                Some(analysis) => match terminal {
                    JobTerminal::Completed => match snapshot_output_error(snapshot.graph, output) {
                        Some(_) => r.len() == 0,
                        None => r.len() == 1 && announces(r[0], id, analysis, snapshot.graph, output, text),
                    },
                    JobTerminal::ParseFailed => are_parse_failed_events(r, id, analysis),
                    _ => r.len() == 0,
                },
            },
        },
    }
}

/// The latest snapshot recorded by the job.
pub fn latest_job_snapshot_id(runtime: &DocumentRuntime, handle: DocumentJobHandle) -> (r: Option<SnapshotId>)
    ensures
        r == (match runtime.job_of(handle.0) {
            Some(e) => e.latest_snapshot_id,
            None => None,
        }),
{
    runtime.job_snapshot_id(handle)
}

/// The events that report how the job ended.
pub fn snapshot_events_for_terminal(
    runtime: &DocumentRuntime,
    handle: DocumentJobHandle,
    terminal: &JobTerminal,
    output: &OutputPlan,
    source_text: Option<&str>,
) -> (r: Vec<DocumentEvent>)
    ensures
        terminal_events(r@, *runtime, handle.0, *terminal, *output, match source_text {
            Some(t) => Some(t@),
            None => None,
        }),
{
    let snapshot_id = match latest_job_snapshot_id(runtime, handle) {
        Some(id) => id,
        None => {
            return Vec::new();
        },
    };
    let snapshot = match runtime.snapshot(snapshot_id) {
        Some(s) => s,
        None => {
            return Vec::new();
        },
    };
    let analysis = match &snapshot.analysis {
        Some(a) => a,
        None => {
            return Vec::new();
        },
    };
    match terminal {
        JobTerminal::Completed => match snapshot_ready_event(snapshot_id, analysis, snapshot.graph.as_ref(), output) {
            Ok(event) => vec![with_snapshot_source_text(event, source_text)],
            Err(_) => Vec::new(),
        },
        JobTerminal::ParseFailed => parse_failed_events(snapshot_id, analysis),
        _ => Vec::new(),
    }
}

/// Starts a job on the runtime and counts it.
pub fn start_job(runtime: &mut DocumentRuntime, metrics: &mut DocumentEngineMetrics, spec: DocumentJobSpec) -> (r: DocumentJobHandle)
    ensures
        r.0 == saturating_inc(old(runtime).last_handle()),
        final(runtime).last_handle() == r.0,
        forall|k: Seq<char>| final(runtime).seq_of(k) == (if k == spec.document_key@ {
            saturating_inc(old(runtime).seq_of(k))
        } else {
            old(runtime).seq_of(k)
        }),
        forall|h: u64| h != r.0 ==> final(runtime).job_of(h) == old(runtime).job_of(h),
        final(runtime).job_of(r.0) matches Some(e) && e.spec == spec
            && e.request_seq == saturating_inc(old(runtime).seq_of(spec.document_key@))
            && e.latest_snapshot_id is None && e.terminal is None && e.source_buffer is None
            && e.source_bytes is None && e.line_count == 0,
        forall|id: u64| final(runtime).stored(id) == old(runtime).stored(id),
        forall|k: Seq<char>| final(runtime).latest_of(k) == old(runtime).latest_of(k),
        final(runtime).last_snapshot_id() == old(runtime).last_snapshot_id(),
        old(runtime).wf() ==> final(runtime).wf(),
        *final(metrics) == (DocumentEngineMetrics { jobs_started: saturating_inc(old(metrics).jobs_started), ..*old(metrics) }),
{
    let started = runtime.insert_job(spec);
    metrics.record_job_started();
    started.handle
}

/// Closes the job with `terminal` unless it already has one, and counts
/// the batch.
pub fn close_job(
    runtime: &mut DocumentRuntime,
    metrics: &mut DocumentEngineMetrics,
    handle: DocumentJobHandle,
    terminal: JobTerminal,
) -> (r: EventBatch)
    ensures
        DocumentRuntime::close_post(old(runtime), final(runtime), handle.0, terminal, r),
        *final(metrics) == (DocumentEngineMetrics { terminal_batches: old(metrics).terminal_count_after(&r), ..*old(metrics) }),
{
    let batch = close_job_terminal(runtime, handle, terminal);
    metrics.record_job_closed(&batch);
    batch
}

/// Cancels the job unless it already has a terminal, which is then
/// reported unchanged.
pub fn cancel_job(runtime: &mut DocumentRuntime, metrics: &mut DocumentEngineMetrics, handle: DocumentJobHandle) -> (r: EventBatch)
    ensures
        DocumentRuntime::close_post(old(runtime), final(runtime), handle.0, JobTerminal::Cancelled, r),
        match old(runtime).job_of(handle.0) {
            Some(e) if e.terminal is Some => *final(metrics) == (DocumentEngineMetrics {
                terminal_batches: old(metrics).terminal_count_after(&r),
                ..*old(metrics)
            }),
            _ => *final(metrics) == (DocumentEngineMetrics {
                jobs_cancelled: saturating_inc(old(metrics).jobs_cancelled),
                terminal_batches: old(metrics).terminal_count_after(&r),
                ..*old(metrics)
            }),
        },
{
    let existing = match runtime.job(handle) {
        Some(entry) => match &entry.terminal {
            Some(terminal) => Some((entry.request_seq, terminal.duplicate())),
            None => None,
        },
        None => None,
    };
    match existing {
        Some((request_seq, terminal)) => {
            let batch = EventBatch { request_seq, events: Vec::new(), terminal: Some(terminal) };
            metrics.record_job_closed(&batch);
            batch
        },
        None => {
            let batch = close_job_terminal(runtime, handle, JobTerminal::Cancelled);
            metrics.record_job_cancelled(&batch);
            batch
        },
    }
}

/// After a materialization that gave `outcome` left the runtime as `mid`,
/// the close committed it, took `mid` to `new` and answered `r`.
pub open spec fn close_outcome_post(
    mid: DocumentRuntime,
    new: DocumentRuntime,
    h: u64,
    request_seq: u64,
    outcome: MaterializationOutcome,
    r: EventBatch,
) -> bool {
    match outcome {
        MaterializationOutcome::Rejected { code, detail } => is_rejection(r, request_seq, code@, detail@) && new.same_as(&mid),
        MaterializationOutcome::Ready { snapshot, output } => {
            &&& r.request_seq == request_seq
            &&& r.terminal matches Some(t)
                && DocumentRuntime::commit_post(&mid, &new, h, snapshot, CommitMode::Authoritative, t)
                && terminal_events(r.events@, new, h, t, output, None)
        },
        MaterializationOutcome::DiagnosticsOnly { snapshot, output } => {
            &&& r.request_seq == request_seq
            &&& r.terminal matches Some(t)
                && DocumentRuntime::commit_post(&mid, &new, h, snapshot, CommitMode::DiagnosticsOnly, t)
                && terminal_events(r.events@, new, h, t, output, None)
        },
    }
}

/// Closes a non-streaming job: materializes its source, commits the
/// snapshot in the mode the materialization calls for, and reports how the
/// job ended.
pub fn advance_close<F: FnOnce(MaterializeRequest, Option<&DocumentSnapshot>) -> MaterializeResult>(
    runtime: &mut DocumentRuntime,
    handle: DocumentJobHandle,
    request_seq: u64,
    materialize: F,
) -> (r: EventBatch)
    requires
        old(runtime).wf(),
        forall|req: MaterializeRequest, base: Option<&DocumentSnapshot>| call_requires(materialize, (req, base)),
    ensures
        final(runtime).wf(),
        exists|mid: DocumentRuntime, outcome: MaterializationOutcome|
            materialize_job_post(*old(runtime), mid, handle.0, materialize, outcome)
                && close_outcome_post(mid, *final(runtime), handle.0, request_seq, outcome, r),
{
    let outcome = materialize_job(runtime, handle, materialize);
    let ghost mid = *runtime;
    let ghost outcome_copy = outcome;
    let batch = match outcome {
        MaterializationOutcome::Rejected { code, detail } => rejected_batch(request_seq, code.as_str(), detail.as_str()),
        MaterializationOutcome::Ready { snapshot, output } => {
            let terminal = runtime.commit_snapshot(handle, snapshot, CommitMode::Authoritative);
            let events = snapshot_events_for_terminal(runtime, handle, &terminal, &output, None);
            terminal_batch(request_seq, events, terminal)
        },
        MaterializationOutcome::DiagnosticsOnly { snapshot, output } => {
            let terminal = runtime.commit_snapshot(handle, snapshot, CommitMode::DiagnosticsOnly);
            let events = snapshot_events_for_terminal(runtime, handle, &terminal, &output, None);
            terminal_batch(request_seq, events, terminal)
        },
    };
    proof {
        assert(materialize_job_post(*old(runtime), mid, handle.0, materialize, outcome_copy));
        assert(close_outcome_post(mid, *runtime, handle.0, request_seq, outcome_copy, batch));
    }
    batch
}

/// What advancing job `h` with `input` did, given what closing it does.
pub open spec fn advance_post<F: FnOnce(MaterializeRequest, Option<&DocumentSnapshot>) -> MaterializeResult>(
    old: DocumentRuntime,
    new: DocumentRuntime,
    h: u64,
    input: AdvanceInput,
    f: F,
    r: EventBatch,
) -> bool {
    match old.job_of(h) {
        None => is_rejection(r, 0, "document_runtime_missing_job"@,
            "No document runtime job registered for handle "@ + decimal(h as nat)) && new.same_as(&old),
        Some(e) => if e.terminal is Some {
            r.request_seq == e.request_seq && r.events@.len() == 0 && r.terminal == e.terminal && new.same_as(&old)
        } else {
            match input {
                AdvanceInput::Poll => r.request_seq == e.request_seq && r.events@.len() == 0 && r.terminal is None && new.same_as(&old),
                AdvanceInput::TextChunk(text) => {
                    &&& r.request_seq == e.request_seq && r.events@.len() == 0 && r.terminal is None
                    &&& new.job_of(h) matches Some(e2) && text_appended(e, e2, text@, vstd::utf8::encode_utf8(text@))
                    &&& forall|h2: u64| h2 != h ==> new.job_of(h2) == old.job_of(h2)
                    &&& new.same_but_jobs(&old)
                },
                AdvanceInput::BinaryChunk(bytes) => {
                    &&& r.request_seq == e.request_seq && r.events@.len() == 0 && r.terminal is None
                    &&& new.job_of(h) matches Some(e2) && bytes_appended(e, e2, bytes@)
                    &&& forall|h2: u64| h2 != h ==> new.job_of(h2) == old.job_of(h2)
                    &&& new.same_but_jobs(&old)
                },
                AdvanceInput::Close => exists|mid: DocumentRuntime, outcome: MaterializationOutcome|
                    materialize_job_post(old, mid, h, f, outcome) && close_outcome_post(mid, new, h, e.request_seq, outcome, r),
            }
        },
    }
}

/// Advances a job: a chunk adds to its submitted source, a poll reports
/// nothing new, and a close materializes and commits it. A job that has
/// ended reports its terminal again; every call is counted.
pub fn advance_job<F: FnOnce(MaterializeRequest, Option<&DocumentSnapshot>) -> MaterializeResult>(
    runtime: &mut DocumentRuntime,
    metrics: &mut DocumentEngineMetrics,
    handle: DocumentJobHandle,
    input: AdvanceInput,
    materialize: F,
) -> (r: EventBatch)
    requires
        old(runtime).wf(),
        forall|req: MaterializeRequest, base: Option<&DocumentSnapshot>| call_requires(materialize, (req, base)),
    ensures
        final(runtime).wf(),
        advance_post(*old(runtime), *final(runtime), handle.0, input, materialize, r),
        *final(metrics) == (DocumentEngineMetrics {
            jobs_advanced: saturating_inc(old(metrics).jobs_advanced),
            terminal_batches: old(metrics).terminal_count_after(&r),
            ..*old(metrics)
        }),
{
    let existing = match runtime.job(handle) {
        Some(entry) => Some((entry.request_seq, match &entry.terminal {
            Some(t) => Some(t.duplicate()),
            None => None,
        })),
        None => None,
    };
    let (request_seq, terminal) = match existing {
        Some(x) => x,
        None => {
            let mut detail = String::new();
            crate::text::push_str(&mut detail, "No document runtime job registered for handle ");
            crate::text::push_decimal(&mut detail, handle.0);
            let batch = rejected_batch(0, "document_runtime_missing_job", detail.as_str());
            metrics.record_job_advanced(&batch);
            return batch;
        },
    };
    if terminal.is_some() {
        let batch = EventBatch { request_seq, events: Vec::new(), terminal };
        metrics.record_job_advanced(&batch);
        return batch;
    }
    let batch = match input {
        AdvanceInput::TextChunk(text) => {
            let mut entry = match runtime.take_job(handle) {
                Some(e) => e,
                None => {
                    return open_batch(request_seq, Vec::new());
                },
            };
            entry.append_source_text(text.as_str());
            runtime.restore_job(handle, entry);
            open_batch(request_seq, Vec::new())
        },
        AdvanceInput::BinaryChunk(bytes) => {
            let mut entry = match runtime.take_job(handle) {
                Some(e) => e,
                None => {
                    return open_batch(request_seq, Vec::new());
                },
            };
            entry.append_source_bytes(bytes.as_slice());
            runtime.restore_job(handle, entry);
            open_batch(request_seq, Vec::new())
        },
        AdvanceInput::Close => advance_close(runtime, handle, request_seq, materialize),
        AdvanceInput::Poll => open_batch(request_seq, Vec::new()),
    };
    metrics.record_job_advanced(&batch);
    batch
}

/// Starts a job on the engine's runtime.
pub fn start_global_job(runtime: &mut DocumentRuntime, metrics: &mut DocumentEngineMetrics, spec: DocumentJobSpec) -> (r: DocumentJobHandle)
    ensures
        r.0 == saturating_inc(old(runtime).last_handle()),
        final(runtime).job_of(r.0) matches Some(e) && e.spec == spec
            && e.request_seq == saturating_inc(old(runtime).seq_of(spec.document_key@)) && e.terminal is None,
        forall|h: u64| h != r.0 ==> final(runtime).job_of(h) == old(runtime).job_of(h),
        old(runtime).wf() ==> final(runtime).wf(),
        *final(metrics) == (DocumentEngineMetrics { jobs_started: saturating_inc(old(metrics).jobs_started), ..*old(metrics) }),
{
    start_job(runtime, metrics, spec)
}

/// Cancels a job on the engine's runtime.
pub fn cancel_global_job(runtime: &mut DocumentRuntime, metrics: &mut DocumentEngineMetrics, handle: DocumentJobHandle) -> (r: EventBatch)
    ensures
        DocumentRuntime::close_post(old(runtime), final(runtime), handle.0, JobTerminal::Cancelled, r),
        match old(runtime).job_of(handle.0) {
            Some(e) if e.terminal is Some => *final(metrics) == (DocumentEngineMetrics {
                terminal_batches: old(metrics).terminal_count_after(&r),
                ..*old(metrics)
            }),
            _ => *final(metrics) == (DocumentEngineMetrics {
                jobs_cancelled: saturating_inc(old(metrics).jobs_cancelled),
                terminal_batches: old(metrics).terminal_count_after(&r),
                ..*old(metrics)
            }),
        },
{
    cancel_job(runtime, metrics, handle)
}

/// Advances a job on the engine's runtime.
pub fn advance_global_job<F: FnOnce(MaterializeRequest, Option<&DocumentSnapshot>) -> MaterializeResult>(
    runtime: &mut DocumentRuntime,
    metrics: &mut DocumentEngineMetrics,
    handle: DocumentJobHandle,
    input: AdvanceInput,
    materialize: F,
) -> (r: EventBatch)
    requires
        old(runtime).wf(),
        forall|req: MaterializeRequest, base: Option<&DocumentSnapshot>| call_requires(materialize, (req, base)),
    ensures
        final(runtime).wf(),
        advance_post(*old(runtime), *final(runtime), handle.0, input, materialize, r),
        *final(metrics) == (DocumentEngineMetrics {
            jobs_advanced: saturating_inc(old(metrics).jobs_advanced),
            terminal_batches: old(metrics).terminal_count_after(&r),
            ..*old(metrics)
        }),
{
    advance_job(runtime, metrics, handle, input, materialize)
}

/// Closes a job on the engine's runtime.
pub fn close_global_job(
    runtime: &mut DocumentRuntime,
    metrics: &mut DocumentEngineMetrics,
    handle: DocumentJobHandle,
    terminal: JobTerminal,
) -> (r: EventBatch)
    ensures
        DocumentRuntime::close_post(old(runtime), final(runtime), handle.0, terminal, r),
        *final(metrics) == (DocumentEngineMetrics { terminal_batches: old(metrics).terminal_count_after(&r), ..*old(metrics) }),
{
    close_job(runtime, metrics, handle, terminal)
}

} // verus!