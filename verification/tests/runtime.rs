use treease_core::document::engine::{advance_job, close_job, start_job};
use treease_core::document::job_entry::{DocumentJobHandle, JobEntry};
use treease_core::document::materialization::{MaterializeRequest, MaterializeResult};
use treease_core::document::metrics::DocumentEngineMetrics;
use treease_core::document::projection::build_hover_subgraph_projection;
use treease_core::document::protocol::{
    AdvanceInput, CommitMode, DocumentEvent, DocumentInputPlan, DocumentJobKind, DocumentJobSettings, DocumentJobSpec,
    DocumentTreeNode, JobTerminal, OutputPlan, ProjectionDelta, ProjectionRequest, QueryKind, QueryResult, SnapshotId,
    SnapshotQuery, SnapshotReadResult,
};
use treease_core::document::runtime::{
    close_job_terminal, commit_snapshot, document_runtime_contains_document_for_tests,
    document_runtime_job_count_for_tests, document_runtime_latest_job_spec_for_document_for_tests,
    document_runtime_terminal_for_document_for_tests, reset_runtime_for_tests, start_global_job, DocumentRuntime,
    SnapshotReadState,
};
use treease_core::document::snapshot::{build_source_only_analysis, DecodedDocument, DocumentSnapshot, GraphProjection};

fn job_spec(document_key: &str) -> DocumentJobSpec {
    DocumentJobSpec {
        kind: DocumentJobKind::AnalyzeSource,
        document_key: document_key.to_owned(),
        language: "json".to_owned(),
        input: DocumentInputPlan::SourceText,
        settings: DocumentJobSettings::default(),
        output: OutputPlan { analysis: true, graph: true },
        base_snapshot_id: None,
        edits: vec![],
    }
}

fn snapshot(document_key: &str) -> DocumentSnapshot {
    DocumentSnapshot {
        document_key: document_key.to_owned(),
        graph: Some(GraphProjection { ready: true, clear: true, graph_data: None }),
        ..DocumentSnapshot::default()
    }
}

fn semantic_snapshot(document_key: &str, source: &str) -> DocumentSnapshot {
    let mut analysis = build_source_only_analysis(document_key, "json", source);
    analysis.document = Some(DecodedDocument {
        tree: DocumentTreeNode { kind: 1, sem_type: 0, tag: String::new(), value: String::new(), children: vec![] },
    });
    DocumentSnapshot::with_analysis(document_key, analysis)
}

fn insert_job(runtime: &mut DocumentRuntime, document_key: &str, request_seq: u64) -> DocumentJobHandle {
    let handle = runtime.allocate_job_handle();
    runtime.insert_job_entry_for_test(handle, JobEntry::new(job_spec(document_key), request_seq));
    handle
}

fn root_query(snapshot_id: SnapshotId) -> SnapshotQuery {
    SnapshotQuery { snapshot_id, kind: QueryKind::RootValueKind, ..SnapshotQuery::default() }
}

fn read_root(_snapshot: &DocumentSnapshot) -> QueryResult {
    QueryResult { root_value_kind: Some("object".to_owned()), ..QueryResult::default() }
}

fn no_materialize(_request: MaterializeRequest, _base: Option<&DocumentSnapshot>) -> MaterializeResult {
    unreachable!("these jobs are not closed through materialization")
}

#[test]
fn close_job_terminal_is_idempotent_and_emits_snapshot_ready_once() {
    let mut runtime = DocumentRuntime::default();
    let handle = insert_job(&mut runtime, "doc-close", 1);
    let mut stored = snapshot("doc-close");
    stored.snapshot_id = SnapshotId(7);
    runtime.store_snapshot_for_document("doc-close", stored, true);

    let first = close_job_terminal(&mut runtime, handle, JobTerminal::Completed);
    assert_eq!(
        first.events,
        vec![DocumentEvent::SnapshotReady { snapshot_id: SnapshotId(7), analysis: None, main_graph: None, source_text: None }]
    );
    assert_eq!(first.terminal, Some(JobTerminal::Completed));

    let second = close_job_terminal(&mut runtime, handle, JobTerminal::Cancelled);
    assert!(second.events.is_empty());
    assert_eq!(second.terminal, first.terminal);
}

#[test]
fn second_completed_close_announces_nothing() {
    let mut runtime = DocumentRuntime::default();
    let handle = insert_job(&mut runtime, "doc-twice", 1);
    let mut stored = snapshot("doc-twice");
    stored.snapshot_id = SnapshotId(7);
    runtime.store_snapshot_for_document("doc-twice", stored, true);
    let first = close_job_terminal(&mut runtime, handle, JobTerminal::Completed);
    assert_eq!(first.events.len(), 1);
    let second = close_job_terminal(&mut runtime, handle, JobTerminal::Completed);
    assert!(second.events.is_empty());
    assert_eq!(second.terminal, Some(JobTerminal::Completed));
    assert_eq!(second.request_seq, first.request_seq);
}

#[test]
fn diagnostics_only_commit_clears_graph_and_does_not_replace_latest_snapshot() {
    let mut runtime = DocumentRuntime::default();
    let initial = runtime.store_snapshot_for_document("doc-diagnostics", snapshot("doc-diagnostics"), true);
    let handle = insert_job(&mut runtime, "doc-diagnostics", 1);

    let terminal = commit_snapshot(&mut runtime, handle, snapshot("doc-diagnostics"), CommitMode::DiagnosticsOnly);
    assert!(matches!(terminal, JobTerminal::ParseFailed));
    let diagnostics_snapshot_id = runtime.job_snapshot_id(handle).expect("diagnostics snapshot id should be recorded");

    assert_eq!(runtime.latest_authoritative_snapshot_id("doc-diagnostics"), Some(initial));
    assert_eq!(runtime.snapshot(diagnostics_snapshot_id).and_then(|stored| stored.graph.as_ref()), None);
    assert_eq!(runtime.job(handle).and_then(|entry| entry.terminal.clone()), Some(JobTerminal::ParseFailed));
}

#[test]
fn stale_authoritative_commit_does_not_replace_latest_snapshot() {
    let mut runtime = DocumentRuntime::default();
    let latest = runtime.store_snapshot_for_document("doc-stale", snapshot("doc-stale"), true);
    runtime.allocate_request_seq("doc-stale");
    runtime.allocate_request_seq("doc-stale");
    let handle = insert_job(&mut runtime, "doc-stale", 1);

    let terminal = commit_snapshot(&mut runtime, handle, snapshot("doc-stale"), CommitMode::Authoritative);
    assert!(matches!(terminal, JobTerminal::Completed));
    let stale_snapshot_id = runtime.job_snapshot_id(handle).expect("stale snapshot id should be recorded");

    assert_ne!(stale_snapshot_id, latest);
    assert_eq!(runtime.latest_authoritative_snapshot_id("doc-stale"), Some(latest));
    assert_eq!(runtime.job(handle).and_then(|entry| entry.terminal.clone()), Some(JobTerminal::Completed));
}

#[test]
fn terminal_identity_lives_on_event_batch_request_seq() {
    let mut runtime = DocumentRuntime::default();
    let handle = insert_job(&mut runtime, "doc-req-seq", 42);

    let terminal = commit_snapshot(&mut runtime, handle, snapshot("doc-req-seq"), CommitMode::Authoritative);
    assert!(matches!(terminal, JobTerminal::Completed));

    let batch = close_job_terminal(&mut runtime, handle, JobTerminal::Completed);
    assert_eq!(batch.request_seq, 42);
    assert_eq!(batch.terminal, Some(JobTerminal::Completed));
}

#[test]
fn latest_active_job_does_not_inherit_older_terminal() {
    let mut runtime = DocumentRuntime::default();
    let mut metrics = DocumentEngineMetrics::default();
    let older = start_job(&mut runtime, &mut metrics, job_spec("doc-terminal"));
    close_job(&mut runtime, &mut metrics, older, JobTerminal::Cancelled);
    start_job(&mut runtime, &mut metrics, job_spec("doc-terminal"));

    let terminal = runtime.latest_terminal_for_document("doc-terminal");

    assert_eq!(terminal, None);
}

#[test]
fn parse_failed_terminal_is_lifecycle_only() {
    let mut runtime = DocumentRuntime::default();
    let handle = insert_job(&mut runtime, "doc-parse-fail-seq", 7);

    let terminal = commit_snapshot(&mut runtime, handle, snapshot("doc-parse-fail-seq"), CommitMode::DiagnosticsOnly);
    assert!(matches!(terminal, JobTerminal::ParseFailed));

    let entry = runtime.job(handle).expect("job should exist");
    assert_eq!(entry.request_seq, 7);
    assert!(entry.latest_snapshot_id.is_some());
    assert_eq!(entry.terminal, Some(JobTerminal::ParseFailed));
}

#[test]
fn runtime_state_machine_keeps_older_authoritative_commit_out_of_latest() {
    let mut runtime = DocumentRuntime::default();
    let mut metrics = DocumentEngineMetrics::default();
    let older = runtime.start_job_with_identity(&mut metrics, job_spec("doc-freshness")).handle;
    let newer = runtime.start_job_with_identity(&mut metrics, job_spec("doc-freshness")).handle;

    runtime.commit_snapshot(newer, snapshot("doc-freshness"), CommitMode::Authoritative);
    let latest_after_newer = runtime
        .latest_authoritative_snapshot_id("doc-freshness")
        .expect("newer snapshot should become authoritative");

    runtime.commit_snapshot(older, snapshot("doc-freshness"), CommitMode::Authoritative);

    assert_eq!(runtime.latest_authoritative_snapshot_id("doc-freshness"), Some(latest_after_newer));
}

#[test]
fn runtime_snapshot_read_requires_matching_document_identity() {
    let mut runtime = DocumentRuntime::default();
    let snapshot_id = runtime.store_snapshot_for_document("doc-read", snapshot("doc-read"), true);
    let query = root_query(snapshot_id);

    let result = runtime.query_snapshot("other-document", &query, read_root);

    assert_eq!(result, SnapshotReadResult::SnapshotNotReady);
}

#[test]
fn runtime_snapshot_read_never_falls_back_to_latest_snapshot() {
    let mut runtime = DocumentRuntime::default();
    runtime.store_snapshot_for_document("doc-read", snapshot("doc-read"), true);
    let query = root_query(SnapshotId(u64::MAX));

    let result = runtime.query_snapshot("doc-read", &query, read_root);

    assert_eq!(result, SnapshotReadResult::SnapshotNotReady);
}

#[test]
fn diagnostics_only_snapshot_is_not_semantically_readable_across_all_read_kinds() {
    let mut runtime = DocumentRuntime::default();
    let mut diagnostics = semantic_snapshot("doc-diagnostics-read", r#"{"value":1}"#);
    diagnostics.analysis.as_mut().expect("analysis should exist").document = None;
    let snapshot_id = runtime.store_snapshot_for_document("doc-diagnostics-read", diagnostics, false);

    let query = runtime.query_snapshot("doc-diagnostics-read", &root_query(snapshot_id), read_root);
    let hover = runtime
        .build_hover_subgraph_projection(
            &ProjectionRequest { snapshot_id, path: "$".to_owned() },
            |_| Ok(ProjectionDelta::default()),
        )
        .expect("unavailable semantic data is a read status");

    assert_eq!(query, SnapshotReadResult::SnapshotNotReady);
    assert_eq!(hover, SnapshotReadResult::SnapshotNotReady);
}

#[test]
fn runtime_hover_projection_read_requires_explicit_snapshot() {
    let runtime = DocumentRuntime::default();
    let request = ProjectionRequest { snapshot_id: SnapshotId(1), path: "$".to_owned() };

    let result = runtime
        .build_hover_subgraph_projection(&request, |_| Ok(ProjectionDelta::default()))
        .expect("missing snapshot is a read status, not a projection error");

    assert_eq!(result, SnapshotReadResult::SnapshotNotReady);
}

#[test]
fn semantic_snapshot_is_readable_for_its_document() {
    let mut runtime = DocumentRuntime::default();
    let snapshot_id = runtime.store_snapshot_for_document("doc-ok", semantic_snapshot("doc-ok", "{}"), true);
    assert_eq!(snapshot_id, SnapshotId(1));
    let result = runtime.query_snapshot("doc-ok", &root_query(snapshot_id), read_root);
    assert_eq!(
        result,
        SnapshotReadResult::Ready { data: QueryResult { root_value_kind: Some("object".to_owned()), ..QueryResult::default() } }
    );
    assert!(matches!(runtime.resolve_snapshot_read(Some("doc-ok"), snapshot_id), SnapshotReadState::Ready(_)));
    assert!(matches!(runtime.resolve_snapshot_read(Some("doc-x"), snapshot_id), SnapshotReadState::DocumentIdentityMismatch));
    assert!(matches!(runtime.resolve_snapshot_read(None, SnapshotId(9)), SnapshotReadState::Missing));
}

#[test]
fn hover_projection_propagates_projection_errors() {
    let mut runtime = DocumentRuntime::default();
    let snapshot_id = runtime.store_snapshot_for_document("doc-h", semantic_snapshot("doc-h", "{}"), true);
    let request = ProjectionRequest { snapshot_id, path: "$.missing".to_owned() };
    assert_eq!(runtime.build_hover_subgraph_projection(&request, |_| Err("path not found")), Err("path not found"));
    assert_eq!(
        build_hover_subgraph_projection(&runtime, &ProjectionRequest { snapshot_id: SnapshotId(5), path: "$".to_owned() }, |_| {
            Err("unused")
        }),
        Ok(SnapshotReadResult::SnapshotNotReady)
    );
}

#[test]
fn request_sequence_numbers_increase_and_mark_older_requests_stale() {
    let mut runtime = DocumentRuntime::default();
    assert_eq!(runtime.allocate_request_seq("doc"), 1);
    assert!(!runtime.is_stale("doc", 1));
    assert_eq!(runtime.allocate_request_seq("doc"), 2);
    assert!(runtime.is_stale("doc", 1));
    assert!(!runtime.is_stale("other", 0));
    assert_eq!(runtime.allocate_request_seq("other"), 1);
}

#[test]
fn store_keeps_explicit_snapshot_ids_and_allocates_after_them() {
    let mut runtime = DocumentRuntime::default();
    let mut explicit = snapshot("doc-ids");
    explicit.snapshot_id = SnapshotId(10);
    assert_eq!(runtime.store_snapshot_for_document("doc-ids", explicit, false), SnapshotId(10));
    assert_eq!(runtime.latest_authoritative_snapshot_id("doc-ids"), None);
    assert_eq!(runtime.store_snapshot_for_document("doc-ids", snapshot("doc-ids"), true), SnapshotId(11));
    assert_eq!(runtime.latest_authoritative_snapshot_id("doc-ids"), Some(SnapshotId(11)));
    assert_eq!(runtime.newest_snapshot_for_document("doc-ids").map(|s| s.snapshot_id), Some(SnapshotId(11)));
    assert!(runtime.newest_snapshot_for_document("nothing").is_none());
}

#[test]
fn store_records_snapshot_on_active_jobs_of_the_document_only() {
    let mut runtime = DocumentRuntime::default();
    let active = insert_job(&mut runtime, "doc-a", 1);
    let other = insert_job(&mut runtime, "doc-b", 1);
    let id = runtime.store_snapshot_for_document("doc-a", snapshot("doc-a"), true);
    assert_eq!(runtime.job_snapshot_id(active), Some(id));
    assert_eq!(runtime.job_snapshot_id(other), None);
    assert_eq!(runtime.job_lifecycle(active), Some((1, None)));
    assert_eq!(runtime.job_lifecycle(DocumentJobHandle(77)), None);
}

#[test]
fn testing_views_follow_the_runtime() {
    let mut runtime = DocumentRuntime::default();
    let mut metrics = DocumentEngineMetrics::default();
    let started = start_global_job(&mut runtime, &mut metrics, job_spec("doc-view"));
    assert_eq!(started.request_seq, 1);
    assert_eq!(document_runtime_job_count_for_tests(&runtime), 1);
    assert!(document_runtime_contains_document_for_tests(&runtime, "doc-view"));
    assert_eq!(document_runtime_terminal_for_document_for_tests(&runtime, "doc-view"), None);
    assert_eq!(
        document_runtime_latest_job_spec_for_document_for_tests(&runtime, "doc-view").map(|spec| spec.document_key),
        Some("doc-view".to_owned())
    );
    advance_job(&mut runtime, &mut metrics, started.handle, AdvanceInput::Poll, no_materialize);
    close_job(&mut runtime, &mut metrics, started.handle, JobTerminal::Cancelled);
    assert_eq!(document_runtime_job_count_for_tests(&runtime), 0);
    assert!(!document_runtime_contains_document_for_tests(&runtime, "doc-view"));
    assert_eq!(document_runtime_terminal_for_document_for_tests(&runtime, "doc-view"), Some(JobTerminal::Cancelled));
    reset_runtime_for_tests(&mut runtime);
    assert_eq!(document_runtime_job_count_for_tests(&runtime), 0);
    assert!(runtime.job(started.handle).is_none());
}
