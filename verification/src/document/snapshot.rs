//! Committed document snapshots: analysis bundles, graph projections and the
//! state that lets a later edit resume incrementally.
use vstd::prelude::*;
use vstd::string::StringSliceAdditionalSpecFns;
use super::protocol::{
    copy_string, tree_model, DocumentAnalysisPayload, DocumentDiagnostic, DocumentTreeNode,
    GraphDelta, SemanticTokensPayload, SnapshotId,
};
use crate::line_index::{line_starts_of, usize_seq_as_int, LineIndex};
use crate::tree_store::{NodeId, TokenSpan};

verus! {

/// How far a decoded document's node spans can be trusted: not known, all
/// of them, or all but the listed nodes.
#[derive(Debug, Clone, PartialEq, Eq)]
pub enum DecodedSpanAuthority {
    Unknown,
    Complete,
    UnresolvedNodes(Vec<NodeId>),
}

impl Default for DecodedSpanAuthority {
    fn default() -> (r: Self)
        ensures
            r == DecodedSpanAuthority::Unknown,
    {
        DecodedSpanAuthority::Unknown
    }
}

/// Structural kind of a decoded tree node.
#[derive(Debug, Clone, Copy, PartialEq, Eq)]
pub enum TreeNodeKind {
    Mapping,
    Sequence,
    Scalar,
    Alias,
    Unknown,
}

/// Semantic type of a decoded value.
#[derive(Debug, Clone, Copy, PartialEq, Eq)]
pub enum SemType {
    Mapping,
    Sequence,
    Str,
    Int,
    Float,
    Boolean,
    Nil,
}

pub open spec fn spec_tree_kind_code(kind: TreeNodeKind) -> i32 {
    match kind {
        TreeNodeKind::Sequence => 0,
        TreeNodeKind::Mapping => 1,
        TreeNodeKind::Scalar => 2,
        TreeNodeKind::Alias => 3,
        TreeNodeKind::Unknown => 4,
    }
}

pub open spec fn spec_sem_type_code(sem_type: Option<SemType>) -> i32 {
    match sem_type {
        Some(SemType::Mapping) => 0,
        Some(SemType::Sequence) => 1,
        Some(SemType::Str) => 2,
        Some(SemType::Int) => 3,
        Some(SemType::Float) => 4,
        Some(SemType::Boolean) => 5,
        Some(SemType::Nil) => 6,
        None => -1i32,
    }
}

/// The wire code of a node kind.
pub fn tree_kind_code(kind: TreeNodeKind) -> (r: i32)
    ensures
        r == spec_tree_kind_code(kind),
{
    match kind {
        TreeNodeKind::Sequence => 0,
        TreeNodeKind::Mapping => 1,
        TreeNodeKind::Scalar => 2,
        TreeNodeKind::Alias => 3,
        TreeNodeKind::Unknown => 4,
    }
}

/// The wire code of a semantic type; `-1` when there is none.
pub fn sem_type_code(sem_type: Option<SemType>) -> (r: i32)
    ensures
        r == spec_sem_type_code(sem_type),
{
    match sem_type {
        Some(SemType::Mapping) => 0,
        Some(SemType::Sequence) => 1,
        Some(SemType::Str) => 2,
        Some(SemType::Int) => 3,
        Some(SemType::Float) => 4,
        Some(SemType::Boolean) => 5,
        Some(SemType::Nil) => 6,
        None => -1,
    }
}

/// A decoded document, held as the tree that analysis payloads report.
#[derive(Debug, Clone, PartialEq, Eq, Default)]
pub struct DecodedDocument {
    pub tree: DocumentTreeNode,
}

#[derive(Debug, Clone, Default)]
pub struct AnalysisBundle {
    pub key: String,
    pub language: String,
    pub source: String,
    pub source_byte_length: u32,
    pub document: Option<DecodedDocument>,
    pub token_spans: Vec<TokenSpan>,
    pub diagnostics: Vec<u32>,
    pub semantic_tokens: Vec<u32>,
    pub value_json: String,
    pub line_index: LineIndex,
}

#[derive(Debug, Clone, PartialEq, Default)]
pub struct GraphProjection {
    pub ready: bool,
    pub clear: bool,
    pub graph_data: Option<GraphDelta>,
}

#[derive(Debug, Clone, PartialEq, Eq, Default)]
pub struct IncrementalState {
    pub can_resume: bool,
    pub structural_safe: bool,
    pub fallback_reason: Option<String>,
}

impl IncrementalState {
    pub fn resumable() -> (r: Self)
        ensures
            r.can_resume,
            !r.structural_safe,
            r.fallback_reason is None,
    {
        IncrementalState { can_resume: true, structural_safe: false, fallback_reason: None }
    }

    pub fn fallback(reason: &str) -> (r: Self)
        ensures
            !r.can_resume,
            !r.structural_safe,
            r.fallback_reason matches Some(text) && text@ == reason@,
    {
        IncrementalState { can_resume: false, structural_safe: false, fallback_reason: Some(reason.to_owned()) }
    }
}

#[derive(Debug, Clone, Default)]
pub struct DocumentSnapshot {
    pub snapshot_id: SnapshotId,
    pub document_key: String,
    pub analysis: Option<AnalysisBundle>,
    pub graph: Option<GraphProjection>,
    pub incremental: Option<IncrementalState>,
}

impl DocumentSnapshot {
    fn with_analysis_parts(
        document_key: &str,
        analysis: AnalysisBundle,
        incremental: Option<IncrementalState>,
    ) -> (r: Self)
        ensures
            r.snapshot_id == SnapshotId(0),
            r.document_key@ == document_key@,
            r.analysis == Some(analysis),
            r.graph is None,
            r.incremental == incremental,
    {
        DocumentSnapshot {
            snapshot_id: SnapshotId(0),
            document_key: document_key.to_owned(),
            analysis: Some(analysis),
            graph: None,
            incremental,
        }
    }

    pub fn with_analysis(document_key: &str, analysis: AnalysisBundle) -> (r: Self)
        ensures
            r.snapshot_id == SnapshotId(0),
            r.document_key@ == document_key@,
            r.analysis == Some(analysis),
            r.graph is None,
            r.incremental is None,
    {
        Self::with_analysis_parts(document_key, analysis, None)
    }

    pub fn with_incremental_analysis(
        document_key: &str,
        analysis: AnalysisBundle,
        incremental: IncrementalState,
    ) -> (r: Self)
        ensures
            r.snapshot_id == SnapshotId(0),
            r.document_key@ == document_key@,
            r.analysis == Some(analysis),
            r.graph is None,
            r.incremental == Some(incremental),
    {
        Self::with_analysis_parts(document_key, analysis, Some(incremental))
    }

    pub fn analysis_payload(&self, include_tree_value: bool) -> (r: Option<DocumentAnalysisPayload>)
        ensures
            r is Some <==> self.analysis is Some,
            r matches Some(p) ==> is_payload_of(p, self.analysis->Some_0, include_tree_value),
    {
        match &self.analysis {
            Some(analysis) => Some(analysis_payload_from_bundle(analysis, include_tree_value)),
            None => None,
        }
    }
}

/// `x + 1`, held at `u32::MAX`.
pub open spec fn sat_inc_u32(x: u32) -> u32 {
    if x == u32::MAX { x } else { (x + 1) as u32 }
}

/// Diagnostics decoded from flat quintuples (zero-based line, column, end
/// line, end column, kind); the positions become one-based and an
/// incomplete trailing group is ignored.
pub open spec fn diagnostics_from_flat(raw: Seq<u32>) -> Seq<DocumentDiagnostic> {
    Seq::new(
        (raw.len() / 5) as nat,
        |i: int|
            DocumentDiagnostic {
                start_line_number: sat_inc_u32(raw[5 * i]),
                start_column: sat_inc_u32(raw[5 * i + 1]),
                end_line_number: sat_inc_u32(raw[5 * i + 2]),
                end_column: sat_inc_u32(raw[5 * i + 3]),
                kind: raw[5 * i + 4],
            },
    )
}

impl DocumentDiagnostic {
    pub fn from_flat(raw: &[u32]) -> (r: Vec<Self>)
        ensures
            r@ == diagnostics_from_flat(raw@),
    {
        let mut out: Vec<DocumentDiagnostic> = Vec::new();
        let groups = raw.len() / 5;
        let mut i: usize = 0;
        while i < groups
            invariant
                groups == raw@.len() / 5,
                raw@.len() <= usize::MAX,
                i <= groups,
                out@ == diagnostics_from_flat(raw@).take(i as int),
            decreases groups - i,
        {
            assert(5 * i + 4 < raw@.len()) by (nonlinear_arith)
                requires
                    i < groups,
                    groups == raw@.len() / 5,
            ;
            let base = 5 * i;
            out.push(
                DocumentDiagnostic {
                    start_line_number: raw[base].saturating_add(1),
                    start_column: raw[base + 1].saturating_add(1),
                    end_line_number: raw[base + 2].saturating_add(1),
                    end_column: raw[base + 3].saturating_add(1),
                    kind: raw[base + 4],
                },
            );
            i = i + 1;
            proof {
                assert(out@ =~= diagnostics_from_flat(raw@).take(i as int));
            }
        }
        proof {
            assert(diagnostics_from_flat(raw@).take(groups as int) =~= diagnostics_from_flat(raw@));
        }
        out
    }
}

/// `p` is the payload that `analysis` yields: the tree and value JSON only
/// when asked for, diagnostics decoded from their flat form, semantic tokens
/// at version one.
pub open spec fn is_payload_of(p: DocumentAnalysisPayload, analysis: AnalysisBundle, include_tree_value: bool) -> bool {
    &&& (if include_tree_value && analysis.document is Some {
        p.tree matches Some(t) && tree_model(t) == tree_model(analysis.document->Some_0.tree)
    } else {
        p.tree is None
    })
    &&& p.value_json == (if include_tree_value && analysis.value_json@.len() > 0 {
        Some(analysis.value_json)
    } else {
        None
    })
    &&& p.diagnostics@ == diagnostics_from_flat(analysis.diagnostics@)
    &&& p.semantic_tokens.data@ == analysis.semantic_tokens@
    &&& p.semantic_tokens.version == 1
    &&& p.source_byte_length == analysis.source_byte_length
    &&& p.source_line_count == 0
    &&& p.language == analysis.language
}

fn copy_u32s(v: &Vec<u32>) -> (r: Vec<u32>)
    ensures
        r@ == v@,
{
    let mut out: Vec<u32> = Vec::new();
    let mut i: usize = 0;
    while i < v.len()
        invariant
            i <= v@.len(),
            out@ == v@.take(i as int),
        decreases v@.len() - i,
    {
        out.push(v[i]);
        i = i + 1;
        proof {
            assert(out@ =~= v@.take(i as int));
        }
    }
    proof {
        assert(v@.take(v@.len() as int) =~= v@);
    }
    out
}

pub fn analysis_payload_from_bundle(analysis: &AnalysisBundle, include_tree_value: bool) -> (r: DocumentAnalysisPayload)
    ensures
        is_payload_of(r, *analysis, include_tree_value),
{
    let tree = if include_tree_value {
        match &analysis.document {
            Some(doc) => Some(doc.tree.clone()),
            None => None,
        }
    } else {
        None
    };
    let value_json = if include_tree_value && !analysis.value_json.as_str().is_empty() {
        Some(copy_string(&analysis.value_json))
    } else {
        None
    };
    DocumentAnalysisPayload {
        tree,
        value_json,
        diagnostics: DocumentDiagnostic::from_flat(analysis.diagnostics.as_slice()),
        semantic_tokens: SemanticTokensPayload { data: copy_u32s(&analysis.semantic_tokens), version: 1 },
        source_byte_length: analysis.source_byte_length,
        source_line_count: 0,
        language: copy_string(&analysis.language),
    }
}

#[derive(Debug, Clone, Copy, PartialEq, Eq)]
pub struct RawErrorSpan {
    pub start_row: u32,
    pub start_col: u32,
    pub end_row: u32,
    pub end_col: u32,
    pub kind: u32,
}

/// Error spans flattened into quintuples.
pub open spec fn flat_error_spans(spans: Seq<RawErrorSpan>) -> Seq<u32>
    decreases spans.len(),
{
    if spans.len() == 0 {
        Seq::empty()
    } else {
        let s = spans.last();
        flat_error_spans(spans.drop_last()) + seq![s.start_row, s.start_col, s.end_row, s.end_col, s.kind]
    }
}

pub fn encode_error_spans_raw(spans: &[RawErrorSpan]) -> (r: Vec<u32>)
    ensures
        r@ == flat_error_spans(spans@),
{
    let mut raw: Vec<u32> = Vec::new();
    let mut i: usize = 0;
    while i < spans.len()
        invariant
            i <= spans@.len(),
            raw@ == flat_error_spans(spans@.take(i as int)),
        decreases spans@.len() - i,
    {
        let span = spans[i];
        raw.push(span.start_row);
        raw.push(span.start_col);
        raw.push(span.end_row);
        raw.push(span.end_col);
        raw.push(span.kind);
        proof {
            assert(spans@.take(i + 1).drop_last() =~= spans@.take(i as int));
            assert(spans@.take(i + 1).last() == span);
            assert(raw@ =~= flat_error_spans(spans@.take(i + 1)));
        }
        i = i + 1;
    }
    proof {
        assert(spans@.take(spans@.len() as int) =~= spans@);
    }
    raw
}

/// One error over the whole first line's worth of the source: the
/// diagnostics of a parse that failed without a location. The end column is
/// the source's byte length, truncated to 32 bits.
pub fn generic_parse_failed_diagnostics(source: &str) -> (r: Vec<u32>)
    ensures
        r@ == seq![0u32, 0u32, 0u32, #[verifier::truncate] ((source.spec_bytes().len() as usize) as u32), 1u32],
{
    let end_col: u32 = #[verifier::truncate] (source.len() as u32);
    let spans = [RawErrorSpan { start_row: 0, start_col: 0, end_row: 0, end_col, kind: 1 }];
    let r = encode_error_spans_raw(&spans);
    proof {
        assert(spans@.drop_last() =~= Seq::<RawErrorSpan>::empty());
        assert(flat_error_spans(Seq::<RawErrorSpan>::empty()) =~= Seq::<u32>::empty());
        assert(flat_error_spans(spans@) =~= seq![0u32, 0u32, 0u32, end_col, 1u32]);
    }
    r
}

/// `r` analyses `source` without a decoded document: no tokens, no
/// diagnostics, no value, and the source's line index.
pub open spec fn is_source_only_analysis(r: AnalysisBundle, key: Seq<char>, language: Seq<char>, source: &str) -> bool {
    &&& r.key@ == key
    &&& r.language@ == language
    &&& r.source@ == source@
    &&& r.source_byte_length == (source.spec_bytes().len() as usize) as u32
    &&& r.document is None
    &&& r.token_spans@.len() == 0
    &&& r.diagnostics@.len() == 0
    &&& r.semantic_tokens@.len() == 0
    &&& r.value_json@.len() == 0
    &&& usize_seq_as_int(r.line_index.line_starts@) == line_starts_of(source.spec_bytes())
    &&& r.line_index.len == source.spec_bytes().len()
}

/// An analysis of a source without a decoded document.
pub fn build_source_only_analysis(key: &str, language: &str, source: &str) -> (r: AnalysisBundle)
    ensures
        is_source_only_analysis(r, key@, language@, source),
{
    AnalysisBundle {
        key: key.to_owned(),
        language: language.to_owned(),
        source: source.to_owned(),
        source_byte_length: source.len() as u32,
        document: None,
        token_spans: Vec::new(),
        diagnostics: Vec::new(),
        semantic_tokens: Vec::new(),
        value_json: String::new(),
        line_index: LineIndex::build(source),
    }
}

} // verus!
