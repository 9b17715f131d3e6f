use treease_core::document::projection::{
    build_hover_subgraph_projection_for_snapshot, parse_snapshot_path, snapshot_path_tokens, SnapshotPathSeg,
    SnapshotPathToken,
};
use treease_core::document::protocol::{GraphDelta, ProjectionDelta};
use treease_core::document::snapshot::{build_source_only_analysis, DecodedDocument, DocumentSnapshot};

fn key(k: &str) -> SnapshotPathSeg {
    SnapshotPathSeg::Key(k.to_owned())
}

#[test]
fn empty_and_root_paths_have_no_steps() {
    assert_eq!(parse_snapshot_path(""), Some(vec![]));
    assert_eq!(parse_snapshot_path("$"), Some(vec![]));
}

#[test]
fn dotted_keys_and_indices() {
    assert_eq!(
        parse_snapshot_path("$.rows[2].name"),
        Some(vec![key("rows"), SnapshotPathSeg::Index(2), key("name")])
    );
    assert_eq!(parse_snapshot_path(".a.$b_1"), Some(vec![key("a"), key("$b_1")]));
    assert_eq!(parse_snapshot_path("$[ -3 ]"), Some(vec![SnapshotPathSeg::Index(-3)]));
}

#[test]
fn quoted_keys_are_unescaped() {
    assert_eq!(
        parse_snapshot_path(r#"$["a key"]["q\"x"]"#),
        Some(vec![key("a key"), key("q\"x")])
    );
    assert_eq!(parse_snapshot_path(r#"$["broken]"#), None);
    assert_eq!(
        snapshot_path_tokens(r#"$[ "k" ]"#),
        Some(vec![SnapshotPathToken::Quoted("\"k\"".to_owned())])
    );
}

#[test]
fn unreadable_paths() {
    assert_eq!(parse_snapshot_path("$."), None);
    assert_eq!(parse_snapshot_path("$.a-b"), None);
    assert_eq!(parse_snapshot_path("$[1"), None);
    assert_eq!(parse_snapshot_path("$[x]"), None);
    assert_eq!(parse_snapshot_path("$[2147483648]"), None);
    assert_eq!(parse_snapshot_path("rows"), None);
    assert_eq!(parse_snapshot_path("$.é"), None);
}

#[test]
fn hover_projection_checks_the_snapshot_and_the_path() {
    let hover = |_d: &DecodedDocument, steps: &[SnapshotPathSeg]| {
        let mut g = GraphDelta::default();
        g.nodes_removed = vec![steps.len() as u32];
        g
    };
    let bare = DocumentSnapshot::default();
    assert_eq!(build_hover_subgraph_projection_for_snapshot(&bare, "$", hover), Err("no analysis"));
    let analysis = build_source_only_analysis("doc", "json", "{}");
    let no_document = DocumentSnapshot::with_analysis("doc", analysis.clone());
    assert_eq!(
        build_hover_subgraph_projection_for_snapshot(&no_document, "$", hover),
        Err("no document")
    );
    let mut with_document = analysis;
    with_document.document = Some(DecodedDocument::default());
    let snapshot = DocumentSnapshot::with_analysis("doc", with_document);
    assert_eq!(
        build_hover_subgraph_projection_for_snapshot(&snapshot, "$[", hover),
        Err("invalid path")
    );
    let delta = build_hover_subgraph_projection_for_snapshot(&snapshot, "$.a[0]", hover).unwrap();
    let mut expected = GraphDelta::default();
    expected.nodes_removed = vec![2];
    assert_eq!(delta, ProjectionDelta { clear: true, graph_data: Some(expected), ..Default::default() });
}
