use treease_core::document::reads::{project_semantic_tokens, source_slice_by_bytes};
use treease_core::document::snapshot::AnalysisBundle;
use treease_core::line_index::LineIndex;

fn analysis(source: &str, tokens: Vec<u32>) -> AnalysisBundle {
    AnalysisBundle {
        source: source.to_string(),
        semantic_tokens: tokens,
        line_index: LineIndex::build(source),
        ..Default::default()
    }
}

#[test]
fn projects_tokens_of_a_part_relative_to_its_start() {
    let a = analysis("ab\n  cd ef", vec![0, 0, 2, 1, 0, 1, 2, 2, 2, 0, 0, 3, 2, 3, 0]);
    assert_eq!(
        project_semantic_tokens(&a, 5, 10),
        vec![0, 0, 2, 2, 0, 0, 3, 2, 3, 0]
    );
    assert_eq!(
        project_semantic_tokens(&a, 0, 10),
        vec![0, 0, 2, 1, 0, 1, 2, 2, 2, 0, 0, 3, 2, 3, 0]
    );
    assert_eq!(project_semantic_tokens(&a, 0, 4), vec![0, 0, 2, 1, 0]);
}

#[test]
fn token_columns_count_utf16_units() {
    let source = "é😀ab";
    let a = analysis(source, vec![0, 3, 2, 1, 0]);
    assert_eq!(project_semantic_tokens(&a, 0, source.len() as u32), vec![0, 3, 2, 1, 0]);
    assert_eq!(project_semantic_tokens(&a, 6, source.len() as u32), vec![0, 0, 2, 1, 0]);
}

#[test]
fn an_offset_inside_a_character_projects_nothing() {
    let a = analysis("é😀ab", vec![0, 3, 2, 1, 0]);
    assert_eq!(project_semantic_tokens(&a, 1, 8), Vec::<u32>::new());
}

#[test]
fn source_slices_follow_character_boundaries() {
    assert_eq!(source_slice_by_bytes("héllo", 0, 3), "hé");
    assert_eq!(source_slice_by_bytes("héllo", 0, 2), "");
    assert_eq!(source_slice_by_bytes("héllo", 3, 1), "");
    assert_eq!(source_slice_by_bytes("héllo", 3, 6), "llo");
    assert_eq!(source_slice_by_bytes("héllo", 3, 7), "");
}
