//! Wire-level types of the document protocol: job specifications, events,
//! graph deltas, analysis payloads and snapshot queries.
use vstd::prelude::*;

verus! {

/// A copy of a string with the same characters.
pub fn copy_string(s: &String) -> (r: String)
    ensures
        r == *s,
{
    s.clone()
}

/// Identity of a committed snapshot; `0` means "not yet assigned".
#[derive(Debug, Clone, Copy, Default, PartialEq, Eq, Hash, PartialOrd, Ord)]
pub struct SnapshotId(pub u64);

#[derive(Debug, Clone, Copy, PartialEq, Eq, Default)]
pub enum CommitMode {
    #[default]
    Authoritative,
    DiagnosticsOnly,
}

#[derive(Debug, Clone, Copy, PartialEq, Eq, Default)]
pub enum DocumentJobKind {
    #[default]
    AnalyzeSource,
    ApplyEdits,
}

#[derive(Debug, Clone, PartialEq, Eq, Default)]
pub enum DocumentInputPlan {
    #[default]
    SourceText,
    BaseTextWithEdits,
    ByteStream,
}

#[derive(Debug, Clone, Copy, PartialEq, Eq, Default)]
pub struct OutputPlan {
    pub analysis: bool,
    pub graph: bool,
}

#[derive(Debug, Clone, Copy, PartialEq, Eq)]
pub struct DocumentParserSettings {
    pub enable_nest: bool,
    pub nest_max_depth: u8,
}

impl Default for DocumentParserSettings {
    fn default() -> (r: Self)
        ensures
            !r.enable_nest,
            r.nest_max_depth == 8,
    {
        Self { enable_nest: false, nest_max_depth: 8 }
    }
}

#[derive(Debug, Clone, Copy, PartialEq, Eq)]
pub struct DocumentFormattingSettings {
    pub indent: i32,
    pub smart: bool,
    pub format_source_on_close: bool,
    pub max_line_length: i32,
    pub max_inline_complexity: i32,
    pub max_array_inline_items: i32,
    pub align_object_arrays: bool,
}

impl Default for DocumentFormattingSettings {
    fn default() -> (r: Self)
        ensures
            r.indent == 2,
            !r.smart,
            r.format_source_on_close,
            r.max_line_length == 100,
            r.max_inline_complexity == 1,
            r.max_array_inline_items == 6,
            r.align_object_arrays,
    {
        Self {
            indent: 2,
            smart: false,
            format_source_on_close: true,
            max_line_length: 100,
            max_inline_complexity: 1,
            max_array_inline_items: 6,
            align_object_arrays: true,
        }
    }
}

#[derive(Debug, Clone, Copy, PartialEq, Eq, Default)]
pub struct DocumentJobSettings {
    pub parser: DocumentParserSettings,
    pub formatting: DocumentFormattingSettings,
}

/// One byte-range replacement in a document's source text.
#[derive(Debug, Clone, PartialEq, Eq, Default)]
pub struct DocumentTextEdit {
    pub start_byte: u32,
    pub old_end_byte: u32,
    pub new_end_byte: u32,
    pub replacement: String,
}

#[derive(Debug, Clone, PartialEq, Eq, Default)]
pub struct DocumentJobSpec {
    pub kind: DocumentJobKind,
    pub document_key: String,
    pub language: String,
    pub input: DocumentInputPlan,
    pub settings: DocumentJobSettings,
    pub output: OutputPlan,
    pub base_snapshot_id: Option<SnapshotId>,
    pub edits: Vec<DocumentTextEdit>,
}

impl DocumentTextEdit {
    /// A copy of this edit.
    pub fn duplicate(&self) -> (r: Self)
        ensures
            r == *self,
    {
        DocumentTextEdit {
            start_byte: self.start_byte,
            old_end_byte: self.old_end_byte,
            new_end_byte: self.new_end_byte,
            replacement: copy_string(&self.replacement),
        }
    }
}

impl DocumentInputPlan {
    /// A copy of this plan.
    pub fn duplicate(&self) -> (r: Self)
        ensures
            r == *self,
    {
        match self {
            DocumentInputPlan::SourceText => DocumentInputPlan::SourceText,
            DocumentInputPlan::BaseTextWithEdits => DocumentInputPlan::BaseTextWithEdits,
            DocumentInputPlan::ByteStream => DocumentInputPlan::ByteStream,
        }
    }
}

/// A copy of a list of edits.
pub fn copy_edits(v: &Vec<DocumentTextEdit>) -> (r: Vec<DocumentTextEdit>)
    ensures
        r@ == v@,
{
    let mut edits: Vec<DocumentTextEdit> = Vec::new();
    let mut i: usize = 0;
    while i < v.len()
        invariant
            i <= v@.len(),
            edits@ == v@.take(i as int),
        decreases v@.len() - i,
    {
        edits.push(v[i].duplicate());
        i = i + 1;
        proof {
            assert(edits@ =~= v@.take(i as int));
        }
    }
    proof {
        assert(v@.take(v@.len() as int) =~= v@);
    }
    edits
}

impl DocumentJobSpec {
    /// Equal field by field, the edits compared by their contents.
    pub open spec fn same_as(&self, other: &Self) -> bool {
        &&& self.kind == other.kind
        &&& self.document_key == other.document_key
        &&& self.language == other.language
        &&& self.input == other.input
        &&& self.settings == other.settings
        &&& self.output == other.output
        &&& self.base_snapshot_id == other.base_snapshot_id
        &&& self.edits@ == other.edits@
    }

    /// A copy of this specification.
    pub fn duplicate(&self) -> (r: Self)
        ensures
            r.same_as(self),
    {
        let edits = copy_edits(&self.edits);
        DocumentJobSpec {
            kind: self.kind,
            document_key: copy_string(&self.document_key),
            language: copy_string(&self.language),
            input: self.input.duplicate(),
            settings: self.settings,
            output: self.output,
            base_snapshot_id: self.base_snapshot_id,
            edits,
        }
    }
}

#[derive(Debug, Clone, PartialEq, Eq, Default)]
pub struct GraphPathSeg {
    pub tag: i32,
    pub key: String,
    pub index: i32,
}

#[derive(Debug, Clone, Copy, PartialEq, Eq, Default)]
pub enum GraphValueEditPlanMode {
    #[default]
    Edits,
    Replace,
}

#[derive(Debug, Clone, Copy, PartialEq, Eq, Default)]
pub enum GraphValueEditFallbackReason {
    #[default]
    UnsupportedEdit,
    SnapshotNotReady,
    MissingAnalysis,
    MissingDocument,
    InvalidPath,
    InvalidReplacement,
    UnsupportedLanguage,
    UnsafeEdit,
}

#[derive(Debug, Clone, PartialEq, Default)]
pub struct GraphValueEditPlan {
    pub mode: GraphValueEditPlanMode,
    pub edits: Vec<DocumentTextEdit>,
    pub reason: Option<GraphValueEditFallbackReason>,
}

#[derive(Debug, Clone, Copy, PartialEq, Eq, Default)]
pub struct GraphBoxArgs {
    pub x: i32,
    pub y: i32,
    pub width: i32,
    pub height: i32,
    pub corner_radius: i32,
}

#[derive(Debug, Clone, PartialEq, Eq, Default)]
pub struct GraphTextArgs {
    pub x: i32,
    pub y: i32,
    pub width: i32,
    pub height: i32,
    pub text: String,
    pub text_align: u8,
    pub text_vertical_align: u8,
    pub editable: bool,
}

#[derive(Debug, Clone, PartialEq, Eq, Default)]
pub struct GraphCellData {
    pub sem_type: u32,
    pub is_missing: bool,
    pub path: Vec<GraphPathSeg>,
    pub text: String,
    pub value: String,
    pub format_text: String,
    pub box_args: GraphBoxArgs,
    pub text_args: GraphTextArgs,
}

#[derive(Debug, Clone, PartialEq, Eq, Default)]
pub struct GraphRowData {
    pub index: i32,
    pub box_args: GraphBoxArgs,
    pub cell_box_args: GraphBoxArgs,
    pub cells: Vec<GraphCellData>,
}

#[derive(Debug, Clone, PartialEq, Eq, Default)]
pub struct GraphTableData {
    pub columns: Vec<GraphCellData>,
    pub rows: Vec<GraphRowData>,
    pub header_height: i32,
    pub total_height: i32,
    pub view_height: i32,
    pub row_height: i32,
}

/// A node in the graph projection tree: a value at a document path.
///
/// `table` is populated on an initial projection (a delta with `clear`) and
/// absent on incremental updates, where table changes travel only through
/// [`GraphDelta::table_patches`].
#[derive(Debug, Clone, PartialEq, Eq, Default)]
pub struct GraphNodeData {
    pub render_handle: u32,
    pub kind: i32,
    pub path: Vec<GraphPathSeg>,
    pub depth: u32,
    pub box_args: GraphBoxArgs,
    pub meta: Option<GraphCellData>,
    pub rows: Vec<GraphRowData>,
    pub table: Option<GraphTableData>,
}

#[derive(Debug, Clone, Copy, PartialEq, Eq, Default)]
pub struct GraphBezierArgsData {
    pub from_x: i32,
    pub from_y: i32,
    pub c1x: i32,
    pub c1y: i32,
    pub c2x: i32,
    pub c2y: i32,
    pub to_x: i32,
    pub to_y: i32,
}

#[derive(Debug, Clone, PartialEq, Eq, Default)]
pub struct GraphEdgeData {
    pub from_render_handle: u32,
    pub from_kind: i32,
    pub from_path: Vec<GraphPathSeg>,
    pub from_row: i32,
    pub to_render_handle: u32,
    pub to_kind: i32,
    pub to_path: Vec<GraphPathSeg>,
    pub to_row: i32,
    pub bezier_args: GraphBezierArgsData,
    pub bezier_from_x: i32,
    pub bezier_from_y: i32,
    pub bezier_c1x: i32,
    pub bezier_c1y: i32,
    pub bezier_c2x: i32,
    pub bezier_c2y: i32,
    pub bezier_to_x: i32,
    pub bezier_to_y: i32,
}

#[derive(Debug, Clone, Copy, PartialEq, Eq, Default)]
pub struct GraphEdgeRemoved {
    pub from: u32,
    pub to: u32,
}

/// A change to the projected graph. On an initial projection a
/// `TableCreated` patch accompanies each table node; afterwards table
/// mutations travel only through `table_patches`.
#[derive(Debug, Clone, PartialEq, Default)]
pub struct GraphDelta {
    pub nodes_added: Vec<GraphNodeData>,
    pub nodes_updated: Vec<GraphNodeData>,
    pub nodes_removed: Vec<u32>,
    pub edges_added: Vec<GraphEdgeData>,
    pub edges_removed: Vec<GraphEdgeRemoved>,
    pub table_patches: Vec<TablePatch>,
    pub layout_patches: Vec<LayoutPatch>,
}

/// Incremental table mutation emitted during streaming graph projection.
#[derive(Debug, Clone, PartialEq)]
pub enum TablePatch {
    TableCreated { table_handle: u32, columns: Vec<GraphCellData> },
    RowsAppended {
        table_handle: u32,
        start_index: u32,
        rows: Vec<GraphRowData>,
        total_height: i32,
        view_height: i32,
        header_height: i32,
        row_height: i32,
    },
    CellsUpdated { table_handle: u32, cells: Vec<TableCellPatchData> },
    ColumnsAdded { table_handle: u32, columns: Vec<GraphCellData> },
    TableReplaced { table_handle: u32, table: GraphTableData },
}

#[derive(Debug, Clone, PartialEq, Eq, Default)]
pub struct TableCellPatchData {
    pub row_index: u32,
    pub column_index: u32,
    pub cell: GraphCellData,
}

/// Incremental layout hint emitted during streaming graph projection.
#[derive(Debug, Clone, PartialEq)]
pub enum LayoutPatch {
    NodeBoundsUpdated { render_handle: u32, box_args: GraphBoxArgs },
    GroupLayoutUpdated { group_handle: u32, width: i32, height: i32 },
    ViewportLayoutHint { total_height: i32, appended_height: i32 },
}

#[derive(Debug, Clone, Copy, PartialEq, Eq, Default)]
pub struct DocumentDiagnostic {
    pub start_line_number: u32,
    pub start_column: u32,
    pub end_line_number: u32,
    pub end_column: u32,
    pub kind: u32,
}

#[derive(Debug, Clone, PartialEq, Eq, Default)]
pub struct SemanticTokensPayload {
    pub data: Vec<u32>,
    pub version: u32,
}

#[derive(Debug, PartialEq, Eq, Default)]
pub struct DocumentTreeNode {
    pub kind: i32,
    pub sem_type: i32,
    pub tag: String,
    pub value: String,
    pub children: Vec<DocumentTreeNode>,
}

/// The content of a document tree node: its fields with the children's
/// contents in order.
pub ghost struct TreeModel {
    pub kind: i32,
    pub sem_type: i32,
    pub tag: Seq<char>,
    pub value: Seq<char>,
    pub children: Seq<TreeModel>,
}

pub open spec fn tree_model(n: DocumentTreeNode) -> TreeModel
    decreases n, 1int,
{
    TreeModel {
        kind: n.kind,
        sem_type: n.sem_type,
        tag: n.tag@,
        value: n.value@,
        children: tree_models(n.children@),
    }
}

pub open spec fn tree_models(s: Seq<DocumentTreeNode>) -> Seq<TreeModel>
    decreases s, 0int,
{
    if s.len() == 0 {
        Seq::empty()
    } else {
        seq![tree_model(s[0])] + tree_models(s.drop_first())
    }
}

pub proof fn lemma_tree_models_push(s: Seq<DocumentTreeNode>, n: DocumentTreeNode)
    ensures
        tree_models(s.push(n)) == tree_models(s).push(tree_model(n)),
    decreases s.len(),
{
    if s.len() == 0 {
        assert(s.push(n).drop_first() =~= Seq::<DocumentTreeNode>::empty());
        assert(tree_models(Seq::<DocumentTreeNode>::empty()) =~= Seq::<TreeModel>::empty());
        assert(s.push(n)[0] == n);
        assert(tree_models(s) =~= Seq::<TreeModel>::empty());
        assert(tree_models(s.push(n)) =~= seq![tree_model(n)]);
    } else {
        assert(s.push(n).drop_first() =~= s.drop_first().push(n));
        lemma_tree_models_push(s.drop_first(), n);
        assert(s.push(n)[0] == s[0]);
        assert(tree_models(s.push(n)) =~= tree_models(s).push(tree_model(n)));
    }
}

impl Clone for DocumentTreeNode {
    fn clone(&self) -> (r: Self)
        ensures
            tree_model(r) == tree_model(*self),
        decreases self,
    {
        let mut children: Vec<DocumentTreeNode> = Vec::new();
        let mut i: usize = 0;
        while i < self.children.len()
            invariant
                i <= self.children.len(),
                tree_models(children@) == tree_models(self.children@.take(i as int)),
            decreases self.children.len() - i,
        {
            let c = self.children[i].clone();
            proof {
                lemma_tree_models_push(children@, c);
                lemma_tree_models_push(self.children@.take(i as int), self.children@[i as int]);
                assert(self.children@.take(i as int).push(self.children@[i as int]) =~= self.children@.take(i + 1));
            }
            children.push(c);
            i = i + 1;
        }
        proof {
            assert(self.children@.take(self.children@.len() as int) =~= self.children@);
        }
        DocumentTreeNode {
            kind: self.kind,
            sem_type: self.sem_type,
            tag: self.tag.clone(),
            value: self.value.clone(),
            children,
        }
    }
}


#[derive(Debug, Clone, PartialEq, Default)]
pub struct DocumentAnalysisPayload {
    pub tree: Option<DocumentTreeNode>,
    pub value_json: Option<String>,
    pub diagnostics: Vec<DocumentDiagnostic>,
    pub semantic_tokens: SemanticTokensPayload,
    pub source_byte_length: u32,
    pub source_line_count: u32,
    pub language: String,
}

#[derive(Debug, Clone, PartialEq, Default)]
pub struct SnapshotReady {
    pub snapshot_id: SnapshotId,
    pub analysis: Option<DocumentAnalysisPayload>,
    pub main_graph: Option<ProjectionDelta>,
    pub source_text: Option<String>,
}

#[derive(Debug, Clone, PartialEq, Default)]
pub struct ParseFailed {
    pub snapshot_id: SnapshotId,
    pub analysis: DocumentAnalysisPayload,
}

/// A request to build a hover subgraph projection on an existing snapshot.
#[derive(Debug, Clone, PartialEq, Eq, Default)]
pub struct ProjectionRequest {
    pub snapshot_id: SnapshotId,
    pub path: String,
}

#[derive(Debug, Clone, PartialEq, Default)]
pub struct ProjectionDelta {
    pub clear: bool,
    pub graph_data: Option<GraphDelta>,
    /// Monotonically increasing patch sequence number within a job.
    pub patch_seq: u64,
    /// Graph version the consumer must be at to apply this patch.
    pub base_graph_version: u64,
    /// Graph version after applying this patch.
    pub graph_version: u64,
}

#[derive(Debug, Clone, PartialEq, Eq, Default)]
pub enum AdvanceInput {
    #[default]
    Poll,
    TextChunk(String),
    BinaryChunk(Vec<u8>),
    Close,
}

#[derive(Debug, Clone, PartialEq)]
pub enum DocumentEvent {
    Progress { processed_bytes: u32 },
    AnalysisDelta { analysis: DocumentAnalysisPayload },
    SnapshotReady {
        snapshot_id: SnapshotId,
        analysis: Option<DocumentAnalysisPayload>,
        main_graph: Option<ProjectionDelta>,
        source_text: Option<String>,
    },
    ParseFailed { snapshot_id: SnapshotId, analysis: DocumentAnalysisPayload },
    /// Incremental graph projection update emitted during streaming decode.
    ProjectionDelta {
        clear: bool,
        graph_data: Option<GraphDelta>,
        patch_seq: u64,
        base_graph_version: u64,
        graph_version: u64,
    },
}

#[derive(Debug, Clone, PartialEq, Default)]
pub struct EventBatch {
    pub request_seq: u64,
    pub events: Vec<DocumentEvent>,
    pub terminal: Option<JobTerminal>,
}

#[derive(Debug, Clone, PartialEq, Eq)]
pub enum JobTerminal {
    Completed,
    ParseFailed,
    Rejected { code: String, detail: String },
    Cancelled,
}

impl JobTerminal {
    /// A copy of this terminal.
    pub fn duplicate(&self) -> (r: Self)
        ensures
            r == *self,
    {
        match self {
            JobTerminal::Completed => JobTerminal::Completed,
            JobTerminal::ParseFailed => JobTerminal::ParseFailed,
            JobTerminal::Rejected { code, detail } => JobTerminal::Rejected {
                code: copy_string(code),
                detail: copy_string(detail),
            },
            JobTerminal::Cancelled => JobTerminal::Cancelled,
        }
    }
}

#[derive(Debug, Clone, PartialEq, Eq)]
pub struct DocumentAnchor {
    pub snapshot_id: SnapshotId,
    pub path: String,
    pub span_start: u32,
    pub span_end: u32,
}

#[derive(Debug, Clone, Copy, PartialEq, Eq, Default)]
pub enum QueryKind {
    #[default]
    FindAnchors,
    ResolvePath,
    ResolveHover,
    RootValueKind,
    NodePreview,
    PathValue,
    FieldLabels,
    SearchIndex,
}

#[derive(Debug, Clone, Copy, PartialEq, Eq, Default)]
pub enum QueryTargetKind {
    Key,
    #[default]
    Value,
    Node,
}

#[derive(Debug, Clone, PartialEq, Eq, Default)]
pub struct SnapshotQuery {
    pub snapshot_id: SnapshotId,
    pub kind: QueryKind,
    pub path_pattern: Option<String>,
    pub span: Option<(u32, u32)>,
    pub target: Option<QueryTargetKind>,
}

#[derive(Debug, Clone, PartialEq, Eq, Default)]
pub struct DocumentSearchItem {
    pub path: String,
    pub path_text: String,
    pub label: String,
    pub key_text: String,
    pub value_text: String,
    pub target: QueryTargetKind,
}

#[derive(Debug, Clone, PartialEq, Eq, Default)]
pub struct QueryResult {
    pub anchors: Vec<DocumentAnchor>,
    pub root_value_kind: Option<String>,
    pub node_preview: Option<DocumentNodePreview>,
    pub path_value: Option<DocumentPathValue>,
    pub field_labels: Vec<String>,
    pub search_items: Vec<DocumentSearchItem>,
}

#[derive(Debug, Clone, PartialEq, Eq, Default)]
pub struct DocumentNodePreview {
    pub kind: i32,
    pub sem_type: i32,
    pub tag: String,
    pub value: String,
    pub value_type: String,
    pub is_scalar: bool,
}

#[derive(Debug, Clone, PartialEq, Eq, Default)]
pub struct DocumentPathValue {
    pub value_type: String,
    pub value: String,
    pub source_text: String,
    pub display_text: String,
}

#[derive(Debug, Clone, PartialEq)]
pub enum SnapshotReadResult<T> {
    Ready { data: T },
    SnapshotNotReady,
}

} // verus!
