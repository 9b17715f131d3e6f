use treease_core::document::stream_state::{event_commit_end, Meta, SourceRewrite, StreamingEvent, StreamingSourceDoc};

fn scalar_event(start: u32, end: u32) -> StreamingEvent {
    StreamingEvent::Scalar { value: String::new(), meta: Meta { start_byte: start, end_byte: end, ..Meta::default() } }
}

#[test]
fn source_doc_keeps_only_pending_raw_bytes_after_commit() {
    let mut source = StreamingSourceDoc::new();
    source.push_input(b"abc");

    let _ = source.commit_events(vec![scalar_event(0, 2)], Vec::new()).expect("commit should succeed");

    assert_eq!(source.source_text(), "ab");
    assert_eq!(
        source.pending_raw_len(),
        1,
        "committed raw bytes should not be retained alongside raw JobEntry and canonical source"
    );
}

#[test]
fn source_doc_keeps_rewrite_offsets_correct_after_raw_compaction() {
    let mut source = StreamingSourceDoc::new();
    source.push_input(br#""{}" 1"#);

    let (events, _) = source
        .commit_events(
            vec![scalar_event(0, 4)],
            vec![SourceRewrite { start_byte: 0, old_end_byte: 4, replacement: "{}".to_owned() }],
        )
        .expect("rewrite should succeed");
    let first = match &events[0] {
        StreamingEvent::Scalar { meta, .. } => meta,
        _ => panic!("expected scalar"),
    };
    assert_eq!((first.start_byte, first.end_byte), (0, 2));
    assert_eq!(source.source_text(), "{}");
    assert_eq!(source.pending_raw_len(), 2);

    source.push_input(b"2");
    let (events, _) = source.commit_events(vec![scalar_event(5, 7)], Vec::new()).expect("second commit should succeed");
    let second = match &events[0] {
        StreamingEvent::Scalar { meta, .. } => meta,
        _ => panic!("expected scalar"),
    };
    assert_eq!((second.start_byte, second.end_byte), (3, 5));
    assert_eq!(source.source_text(), "{} 12");
}

#[test]
fn committed_events_carry_one_based_locations() {
    let mut source = StreamingSourceDoc::new();
    source.push_input(b"a\nbc");
    let (events, update) = source.commit_events(vec![scalar_event(2, 4)], Vec::new()).expect("commit");
    match &events[0] {
        StreamingEvent::Scalar { meta, .. } => {
            assert_eq!((meta.start_byte, meta.end_byte), (2, 4));
            assert_eq!((meta.line, meta.column), (2, 1));
        }
        _ => panic!("expected scalar"),
    }
    assert_eq!(update.processed_bytes, 4);
    assert_eq!(update.appended_line_count, 1);
    assert_eq!(source.processed_bytes(), 4);
}

#[test]
fn finish_commits_the_rest_and_rejects_invalid_utf8() {
    let mut source = StreamingSourceDoc::new();
    source.push_input("é".as_bytes());
    let update = source.finish().expect("valid text");
    assert_eq!(update.processed_bytes, 2);
    assert_eq!(source.source_text(), "é");

    let mut broken = StreamingSourceDoc::new();
    broken.push_input(&[0xff]);
    assert!(broken.finish().is_err());
}

#[test]
fn event_commit_end_reads_event_ends() {
    assert_eq!(event_commit_end(&scalar_event(1, 5)), Some(5));
    assert_eq!(event_commit_end(&StreamingEvent::DocStart(Meta { start_byte: 3, end_byte: 9, ..Meta::default() })), Some(9));
}
