use treease_core::document::input::{BaseTextWithEdits, ByteStream, OwnedText};
use treease_core::document::snapshot::{build_source_only_analysis, DocumentSnapshot, IncrementalState};

#[test]
fn input_carriers_keep_their_text() {
    assert_eq!(OwnedText::new("a: 1").as_str(), "a: 1");
    assert_eq!(ByteStream::from_text("{\"k\":1}").as_str(), "{\"k\":1}");
    let base = BaseTextWithEdits::new("base");
    assert_eq!(base.base.as_str(), "base");
    assert!(base.edits.is_empty());
}

#[test]
fn fallback_state_keeps_its_reason() {
    let state = IncrementalState::fallback("parse_failed");
    assert_eq!(state.fallback_reason.as_deref(), Some("parse_failed"));
    assert!(!state.can_resume);
    assert!(!state.structural_safe);
}

#[test]
fn snapshots_name_their_document() {
    let analysis = build_source_only_analysis("doc", "json", "{}");
    let s = DocumentSnapshot::with_incremental_analysis("doc-key", analysis, IncrementalState::resumable());
    assert_eq!(s.document_key, "doc-key");
    assert!(s.incremental.is_some());
}
