use treease_core::document::engine::{advance_job, cancel_job, close_job, start_job, validate_snapshot_ready_outputs};
use treease_core::document::job_entry::{DocumentJobHandle, JobEntry};
use treease_core::document::materialization::{MaterializeRequest, MaterializeResult};
use treease_core::document::metrics::DocumentEngineMetrics;
use treease_core::document::protocol::{
    AdvanceInput, DocumentEvent, DocumentInputPlan, DocumentJobKind, DocumentJobSettings, DocumentJobSpec,
    DocumentTextEdit, DocumentTreeNode, EventBatch, JobTerminal, OutputPlan, SnapshotId,
};
use treease_core::document::runtime::DocumentRuntime;
use treease_core::document::snapshot::{
    build_source_only_analysis, generic_parse_failed_diagnostics, DecodedDocument, DocumentSnapshot, GraphProjection,
};

fn make_spec(key: &str) -> DocumentJobSpec {
    DocumentJobSpec {
        kind: DocumentJobKind::AnalyzeSource,
        document_key: key.to_owned(),
        language: "json".to_owned(),
        input: DocumentInputPlan::SourceText,
        settings: DocumentJobSettings::default(),
        output: OutputPlan { analysis: true, graph: false },
        base_snapshot_id: None,
        edits: vec![],
    }
}

fn add_job(rt: &mut DocumentRuntime, key: &str) -> DocumentJobHandle {
    let h = rt.allocate_job_handle();
    let seq = rt.allocate_request_seq(key);
    rt.insert_job_entry_for_test(h, JobEntry::new(make_spec(key), seq));
    h
}

/// Decodes a source into a one-node document; a source that starts with
/// `!` only yields a diagnostic.
fn test_materialize(request: MaterializeRequest, _base: Option<&DocumentSnapshot>) -> MaterializeResult {
    let mut analysis = build_source_only_analysis(&request.document_key, &request.language, &request.source);
    if request.source.starts_with('!') {
        analysis.diagnostics = generic_parse_failed_diagnostics(&request.source);
    } else {
        analysis.document = Some(DecodedDocument {
            tree: DocumentTreeNode { kind: 2, sem_type: 2, tag: String::new(), value: request.source.clone(), children: vec![] },
        });
    }
    let graph = if request.output.graph {
        Some(GraphProjection { ready: true, clear: true, graph_data: None })
    } else {
        None
    };
    MaterializeResult { analysis, graph, incremental: None, terminal: None }
}

#[test]
fn validate_snapshot_ready_outputs_accepts_requested_graph_data() {
    let graph = GraphProjection { ready: true, clear: true, graph_data: Some(Default::default()) };
    let output = OutputPlan { analysis: true, graph: true };

    assert!(validate_snapshot_ready_outputs(Some(&graph), &output).is_ok());
}

#[test]
fn validate_snapshot_ready_outputs_accepts_requested_clear_only_graph() {
    let graph = GraphProjection { ready: true, clear: true, graph_data: None };
    let output = OutputPlan { analysis: false, graph: true };

    assert!(validate_snapshot_ready_outputs(Some(&graph), &output).is_ok());
}

#[test]
fn validate_snapshot_ready_outputs_rejects_requested_non_clear_empty_graph() {
    let graph = GraphProjection { ready: true, clear: false, graph_data: None };
    let output = OutputPlan { analysis: false, graph: true };

    assert_eq!(
        validate_snapshot_ready_outputs(Some(&graph), &output),
        Err("requested main graph was empty".to_owned()),
    );
}

#[test]
fn validate_snapshot_ready_outputs_rejects_missing_requested_graph() {
    let output = OutputPlan { analysis: false, graph: true };
    assert_eq!(
        validate_snapshot_ready_outputs(None, &output),
        Err("requested main graph was not produced".to_owned()),
    );
    let unrequested = OutputPlan { analysis: true, graph: false };
    assert!(validate_snapshot_ready_outputs(None, &unrequested).is_ok());
}

#[test]
fn advance_job_poll_returns_no_terminal() {
    let mut rt = DocumentRuntime::default();
    let mut m = DocumentEngineMetrics::default();
    let h = add_job(&mut rt, "t2");
    let b = advance_job(&mut rt, &mut m, h, AdvanceInput::Poll, test_materialize);
    assert!(b.events.is_empty() && b.terminal.is_none());
}

#[test]
fn advance_job_close_materializes_analyze_source() {
    let mut rt = DocumentRuntime::default();
    let mut m = DocumentEngineMetrics::default();
    let h = add_job(&mut rt, "t3");
    advance_job(&mut rt, &mut m, h, AdvanceInput::TextChunk(r#"{"k":1}"#.into()), test_materialize);
    let b = advance_job(&mut rt, &mut m, h, AdvanceInput::Close, test_materialize);
    assert!(matches!(b.terminal, Some(JobTerminal::Completed)));
    let id = b
        .events
        .iter()
        .find_map(|event| match event {
            DocumentEvent::SnapshotReady { snapshot_id, .. } => Some(*snapshot_id),
            _ => None,
        })
        .expect("Close should emit SnapshotReady");
    assert!(rt.snapshot(id).is_some());
    assert_eq!(rt.snapshot(id).unwrap().document_key, "t3");
}

#[test]
fn advance_job_missing_job_returns_rejected() {
    let mut rt = DocumentRuntime::default();
    let mut m = DocumentEngineMetrics::default();
    let b = advance_job(&mut rt, &mut m, DocumentJobHandle(999), AdvanceInput::Close, test_materialize);
    assert!(matches!(b.terminal, Some(JobTerminal::Rejected { .. })));
}

#[test]
fn advance_job_idempotent_close() {
    let mut rt = DocumentRuntime::default();
    let mut m = DocumentEngineMetrics::default();
    let h = add_job(&mut rt, "t4");
    advance_job(&mut rt, &mut m, h, AdvanceInput::TextChunk(r#"{"k":2}"#.into()), test_materialize);
    let first = advance_job(&mut rt, &mut m, h, AdvanceInput::Close, test_materialize);
    assert!(first.terminal.is_some());
    let second = advance_job(&mut rt, &mut m, h, AdvanceInput::Close, test_materialize);
    assert_eq!(first.terminal, second.terminal);
}

#[test]
fn non_streaming_binary_chunks_accumulate_until_close() {
    let mut rt = DocumentRuntime::default();
    let mut m = DocumentEngineMetrics::default();
    let h = rt.allocate_job_handle();
    let seq = rt.allocate_request_seq("binary-csv");
    rt.insert_job_entry_for_test(
        h,
        JobEntry::new(
            DocumentJobSpec {
                kind: DocumentJobKind::AnalyzeSource,
                document_key: "binary-csv".into(),
                language: "csv".into(),
                input: DocumentInputPlan::SourceText,
                settings: DocumentJobSettings::default(),
                output: OutputPlan { analysis: true, graph: true },
                base_snapshot_id: None,
                edits: vec![],
            },
            seq,
        ),
    );

    let first = advance_job(&mut rt, &mut m, h, AdvanceInput::BinaryChunk(b"a,b\n".to_vec()), test_materialize);
    assert!(first.terminal.is_none());
    assert!(first.events.is_empty());

    let second = advance_job(&mut rt, &mut m, h, AdvanceInput::BinaryChunk(b"1,2".to_vec()), test_materialize);
    assert!(second.terminal.is_none());
    assert!(second.events.is_empty());

    let close = advance_job(&mut rt, &mut m, h, AdvanceInput::Close, test_materialize);
    assert!(matches!(close.terminal, Some(JobTerminal::Completed)));
    let snapshot_id = close
        .events
        .iter()
        .find_map(|event| match event {
            DocumentEvent::SnapshotReady { snapshot_id, .. } => Some(*snapshot_id),
            _ => None,
        })
        .expect("csv binary close should emit SnapshotReady");
    let snapshot = rt.snapshot(snapshot_id).unwrap();
    assert_eq!(snapshot.analysis.as_ref().unwrap().source, "a,b\n1,2");
}

#[test]
fn binary_chunks_reject_invalid_utf8_on_close_without_snapshot() {
    let mut rt = DocumentRuntime::default();
    let mut m = DocumentEngineMetrics::default();
    let h = add_job(&mut rt, "binary-invalid-utf8");

    let chunk = advance_job(&mut rt, &mut m, h, AdvanceInput::BinaryChunk(vec![0xff]), test_materialize);
    assert!(chunk.terminal.is_none());

    let close = advance_job(&mut rt, &mut m, h, AdvanceInput::Close, test_materialize);
    assert!(matches!(
        close.terminal,
        Some(JobTerminal::Rejected { ref code, .. }) if code == "invalid_utf8_source"
    ));
    assert!(rt.newest_snapshot_for_document("binary-invalid-utf8").is_none());
}

#[test]
fn advance_job_apply_edits_without_base_snapshot_is_rejected() {
    let mut rt = DocumentRuntime::default();
    let mut m = DocumentEngineMetrics::default();
    let h = rt.allocate_job_handle();
    let seq = rt.allocate_request_seq("t6");
    let mut entry = JobEntry::new(
        DocumentJobSpec {
            kind: DocumentJobKind::ApplyEdits,
            document_key: "t6".into(),
            language: "json".into(),
            input: DocumentInputPlan::BaseTextWithEdits,
            settings: DocumentJobSettings::default(),
            output: OutputPlan { analysis: true, graph: false },
            base_snapshot_id: None,
            edits: vec![DocumentTextEdit { start_byte: 0, old_end_byte: 0, new_end_byte: 0, replacement: "x".into() }],
        },
        seq,
    );
    entry.source_buffer = Some(r#"{"k":1}"#.into());
    rt.insert_job_entry_for_test(h, entry);
    let b = advance_job(&mut rt, &mut m, h, AdvanceInput::Close, test_materialize);
    assert!(matches!(b.terminal, Some(JobTerminal::Rejected { .. })));
}

#[test]
fn advance_job_multiple_text_chunks_then_close_produces_snapshot() {
    let mut rt = DocumentRuntime::default();
    let mut m = DocumentEngineMetrics::default();
    let h = start_job(
        &mut rt,
        &mut m,
        DocumentJobSpec {
            kind: DocumentJobKind::AnalyzeSource,
            document_key: "t-chunks".into(),
            language: "csv".into(),
            input: DocumentInputPlan::SourceText,
            settings: DocumentJobSettings::default(),
            output: OutputPlan { analysis: true, graph: false },
            base_snapshot_id: None,
            edits: vec![],
        },
    );
    let b1 = advance_job(&mut rt, &mut m, h, AdvanceInput::TextChunk("a,b\n".into()), test_materialize);
    assert!(b1.terminal.is_none());
    assert!(b1.events.is_empty());
    let b2 = advance_job(&mut rt, &mut m, h, AdvanceInput::TextChunk("1,2".into()), test_materialize);
    assert!(b2.terminal.is_none());
    let b3 = advance_job(&mut rt, &mut m, h, AdvanceInput::Close, test_materialize);
    assert!(matches!(b3.terminal, Some(JobTerminal::Completed)));
}

#[test]
fn engine_counts_started_advanced_and_terminal_batches() {
    let mut rt = DocumentRuntime::default();
    let mut m = DocumentEngineMetrics::default();
    let h = start_job(&mut rt, &mut m, make_spec("metrics"));
    advance_job(&mut rt, &mut m, h, AdvanceInput::Poll, test_materialize);
    let cancelled = cancel_job(&mut rt, &mut m, h);
    assert_eq!(cancelled.terminal, Some(JobTerminal::Cancelled));
    let again = cancel_job(&mut rt, &mut m, h);
    assert_eq!(again.terminal, Some(JobTerminal::Cancelled));
    assert_eq!(m.jobs_started, 1);
    assert_eq!(m.jobs_advanced, 1);
    assert_eq!(m.jobs_cancelled, 1);
    assert_eq!(m.terminal_batches, 2);
}

#[test]
fn unparsable_source_commits_diagnostics_only_snapshot_with_parse_failed_events() {
    let mut rt = DocumentRuntime::default();
    let mut m = DocumentEngineMetrics::default();
    let h = start_job(&mut rt, &mut m, make_spec("bad"));
    advance_job(&mut rt, &mut m, h, AdvanceInput::TextChunk("!x".into()), test_materialize);
    let close = advance_job(&mut rt, &mut m, h, AdvanceInput::Close, test_materialize);
    assert_eq!(close.terminal, Some(JobTerminal::ParseFailed));
    assert_eq!(close.events.len(), 2);
    match &close.events[0] {
        DocumentEvent::ParseFailed { snapshot_id, analysis } => {
            assert_eq!(*snapshot_id, SnapshotId(1));
            assert_eq!(analysis.diagnostics.len(), 1);
            assert!(analysis.tree.is_none());
        }
        other => panic!("unexpected event {other:?}"),
    }
    assert_eq!(rt.latest_authoritative_snapshot_id("bad"), None);
}

fn blank_source_spec(key: &str, language: &str) -> DocumentJobSpec {
    DocumentJobSpec {
        kind: DocumentJobKind::AnalyzeSource,
        document_key: key.to_owned(),
        language: language.to_owned(),
        input: DocumentInputPlan::SourceText,
        settings: DocumentJobSettings::default(),
        output: OutputPlan { analysis: true, graph: true },
        base_snapshot_id: None,
        edits: vec![],
    }
}

/// A materializer that a blank source must never reach.
fn refuse_materialize(_request: MaterializeRequest, _base: Option<&DocumentSnapshot>) -> MaterializeResult {
    unreachable!("a blank source is materialized without decoding")
}

fn assert_blank_source_clear_snapshot(rt: &DocumentRuntime, batch: &EventBatch, document_key: &str) -> SnapshotId {
    assert!(matches!(batch.terminal, Some(JobTerminal::Completed)));
    let (snapshot_id, analysis, main_graph) = batch
        .events
        .iter()
        .find_map(|event| match event {
            DocumentEvent::SnapshotReady { snapshot_id, analysis, main_graph, .. } => {
                Some((*snapshot_id, analysis.as_ref(), main_graph.as_ref()))
            }
            _ => None,
        })
        .expect("blank source close should emit SnapshotReady");
    let analysis = analysis.expect("blank source SnapshotReady should carry analysis");
    assert!(analysis.tree.is_none());
    assert!(analysis.value_json.is_none());
    assert!(analysis.diagnostics.is_empty());
    let main_graph = main_graph.expect("blank source SnapshotReady should carry mainGraph");
    assert!(main_graph.clear);
    assert!(main_graph.graph_data.is_none());
    let snapshot = rt.snapshot(snapshot_id).expect("empty snapshot should be stored");
    let stored = snapshot.analysis.as_ref().expect("empty snapshot should keep analysis");
    assert!(stored.document.is_none());
    assert!(stored.diagnostics.is_empty());
    assert_eq!(stored.source, "");
    assert_eq!(
        rt.latest_authoritative_snapshot_id(document_key),
        Some(snapshot_id),
        "blank source should become the authoritative latest snapshot",
    );
    snapshot_id
}

#[test]
fn blank_non_streaming_source_close_commits_authoritative_clear_snapshot() {
    let mut rt = DocumentRuntime::default();
    let mut m = DocumentEngineMetrics::default();
    let h = start_job(&mut rt, &mut m, blank_source_spec("blank-yaml-close", "yaml"));

    let batch = advance_job(&mut rt, &mut m, h, AdvanceInput::Close, refuse_materialize);

    assert_blank_source_clear_snapshot(&rt, &batch, "blank-yaml-close");
}

#[test]
fn white_space_source_is_blank_too() {
    let mut rt = DocumentRuntime::default();
    let mut m = DocumentEngineMetrics::default();
    let h = start_job(&mut rt, &mut m, blank_source_spec("blank-ws", "toml"));
    advance_job(&mut rt, &mut m, h, AdvanceInput::TextChunk(" \n\t ".into()), refuse_materialize);
    let batch = advance_job(&mut rt, &mut m, h, AdvanceInput::Close, refuse_materialize);
    assert!(matches!(batch.terminal, Some(JobTerminal::Completed)));
    let stored = rt.newest_snapshot_for_document("blank-ws").unwrap();
    assert_eq!(stored.analysis.as_ref().unwrap().source, " \n\t ");
    assert!(stored.graph.as_ref().unwrap().clear);
}

#[test]
fn streaming_csv_chunk_still_accumulates_no_events() {
    let mut rt = DocumentRuntime::default();
    let mut m = DocumentEngineMetrics::default();
    let h = rt.allocate_job_handle();
    let seq = rt.allocate_request_seq("csv-1");
    rt.insert_job_entry_for_test(
        h,
        JobEntry::new(
            DocumentJobSpec {
                kind: DocumentJobKind::AnalyzeSource,
                document_key: "csv-1".into(),
                language: "csv".into(),
                input: DocumentInputPlan::SourceText,
                settings: DocumentJobSettings::default(),
                output: OutputPlan { analysis: true, graph: true },
                base_snapshot_id: None,
                edits: vec![],
            },
            seq,
        ),
    );
    let b = advance_job(&mut rt, &mut m, h, AdvanceInput::TextChunk("a,b\n1,2".into()), test_materialize);
    assert!(b.terminal.is_none());
    assert!(b.events.is_empty(), "CSV chunk should not emit streaming events");
    assert_eq!(rt.job(h).unwrap().source_buffer.as_deref(), Some("a,b\n1,2"));
}

#[test]
fn streaming_non_streaming_language_chunks_accumulate_until_close() {
    let cases = [
        ("yaml", "root:\n", "  k: v\n"),
        ("toml", "name = ", "\"Ada\"\n"),
        ("csv", "name,age\n", "Ada,37\n"),
        ("python", "{\"name\": ", "\"Ada\"}"),
        ("javascript", "({name: ", "\"Ada\"})"),
    ];

    for (language, first, second) in cases {
        let mut rt = DocumentRuntime::default();
        let mut m = DocumentEngineMetrics::default();
        let h = start_job(&mut rt, &mut m, blank_source_spec(&format!("non-stream-{language}"), language));

        let b1 = advance_job(&mut rt, &mut m, h, AdvanceInput::TextChunk(first.into()), test_materialize);
        assert!(b1.terminal.is_none(), "{language} first chunk should stay open");
        assert!(b1.events.is_empty(), "{language} first chunk should not stream events");
        let b2 = advance_job(&mut rt, &mut m, h, AdvanceInput::TextChunk(second.into()), test_materialize);
        assert!(b2.terminal.is_none(), "{language} second chunk should stay open");
        assert!(b2.events.is_empty(), "{language} second chunk should not stream events");

        let batch = advance_job(&mut rt, &mut m, h, AdvanceInput::Close, test_materialize);
        assert!(matches!(batch.terminal, Some(JobTerminal::Completed)), "{language} close should materialize once");
        assert!(
            batch.events.iter().any(|event| matches!(event, DocumentEvent::SnapshotReady { .. })),
            "{language} close should emit SnapshotReady",
        );
    }
}

#[test]
fn close_job_reports_missing_handle() {
    let mut rt = DocumentRuntime::default();
    let mut m = DocumentEngineMetrics::default();
    let b = close_job(&mut rt, &mut m, DocumentJobHandle(42), JobTerminal::Completed);
    assert_eq!(b.request_seq, 0);
    assert_eq!(
        b.terminal,
        Some(JobTerminal::Rejected {
            code: "document_runtime_missing_job".to_owned(),
            detail: "No document runtime job registered for handle 42".to_owned(),
        })
    );
}
