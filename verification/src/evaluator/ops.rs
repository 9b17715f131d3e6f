//! The operations of an expression, and the evaluator that applies them.
use vstd::prelude::*;

verus! {

/// The operation of an expression node.
#[derive(Debug, Clone, Copy, PartialEq, Eq, Structural)]
pub enum OperationId {
    SelfRef,
    Value,
    Empty,
    Not,
    Pipe,
    ShortPipe,
    Block,
    Assign,
    CreateMap,
    Collect,
    CollectObject,
    Union,
    TraversePath,
    TraverseArray,
    MapItems,
    Select,
    Filter,
    SortBy,
    Length,
    Keys,
    ToNumber,
    ToString,
    Trim,
    ChangeCase,
    Split,
    Join,
    First,
    Reverse,
    Flatten,
    Min,
    Max,
    Any,
    All,
    Sort,
    Unique,
    Contains,
    Has,
    Add,
    Subtract,
    Multiply,
    Divide,
    Modulo,
    And,
    Or,
    Equals,
    NotEquals,
    Alternative,
    Relational,
}

/// The name of an operation.
pub open spec fn op_name(id: OperationId) -> Seq<char> {
    match id {
        OperationId::SelfRef => "self"@,
        OperationId::Value => "value"@,
        OperationId::Empty => "empty"@,
        OperationId::Not => "not"@,
        OperationId::Pipe => "pipe"@,
        OperationId::ShortPipe => "short_pipe"@,
        OperationId::Block => "block"@,
        OperationId::Assign => "assign"@,
        OperationId::CreateMap => "create_map"@,
        OperationId::Collect => "collect"@,
        OperationId::CollectObject => "collect_object"@,
        OperationId::Union => "union"@,
        OperationId::TraversePath => "traverse_path"@,
        OperationId::TraverseArray => "traverse_array"@,
        OperationId::MapItems => "map"@,
        OperationId::Select => "select"@,
        OperationId::Filter => "filter"@,
        OperationId::SortBy => "sort_by"@,
        OperationId::Length => "length"@,
        OperationId::Keys => "keys"@,
        OperationId::ToNumber => "to_number"@,
        OperationId::ToString => "to_string"@,
        OperationId::Trim => "trim"@,
        OperationId::ChangeCase => "change_case"@,
        OperationId::Split => "split"@,
        OperationId::Join => "join"@,
        OperationId::First => "first"@,
        OperationId::Reverse => "reverse"@,
        OperationId::Flatten => "flatten"@,
        OperationId::Min => "min"@,
        OperationId::Max => "max"@,
        OperationId::Any => "any"@,
        OperationId::All => "all"@,
        OperationId::Sort => "sort"@,
        OperationId::Unique => "unique"@,
        OperationId::Contains => "contains"@,
        OperationId::Has => "has"@,
        OperationId::Add => "add"@,
        OperationId::Subtract => "subtract"@,
        OperationId::Multiply => "multiply"@,
        OperationId::Divide => "divide"@,
        OperationId::Modulo => "modulo"@,
        OperationId::And => "and"@,
        OperationId::Or => "or"@,
        OperationId::Equals => "equals"@,
        OperationId::NotEquals => "not_equals"@,
        OperationId::Alternative => "alternative"@,
        OperationId::Relational => "relational"@,
    }
}

impl OperationId {
    /// The name of the operation.
    pub fn as_str(self) -> (r: &'static str)
        ensures
            r@ == op_name(self),
    {
        match self {
            OperationId::SelfRef => "self",
            OperationId::Value => "value",
            OperationId::Empty => "empty",
            OperationId::Not => "not",
            OperationId::Pipe => "pipe",
            OperationId::ShortPipe => "short_pipe",
            OperationId::Block => "block",
            OperationId::Assign => "assign",
            OperationId::CreateMap => "create_map",
            OperationId::Collect => "collect",
            OperationId::CollectObject => "collect_object",
            OperationId::Union => "union",
            OperationId::TraversePath => "traverse_path",
            OperationId::TraverseArray => "traverse_array",
            OperationId::MapItems => "map",
            OperationId::Select => "select",
            OperationId::Filter => "filter",
            OperationId::SortBy => "sort_by",
            OperationId::Length => "length",
            OperationId::Keys => "keys",
            OperationId::ToNumber => "to_number",
            OperationId::ToString => "to_string",
            OperationId::Trim => "trim",
            OperationId::ChangeCase => "change_case",
            OperationId::Split => "split",
            OperationId::Join => "join",
            OperationId::First => "first",
            OperationId::Reverse => "reverse",
            OperationId::Flatten => "flatten",
            OperationId::Min => "min",
            OperationId::Max => "max",
            OperationId::Any => "any",
            OperationId::All => "all",
            OperationId::Sort => "sort",
            OperationId::Unique => "unique",
            OperationId::Contains => "contains",
            OperationId::Has => "has",
            OperationId::Add => "add",
            OperationId::Subtract => "subtract",
            OperationId::Multiply => "multiply",
            OperationId::Divide => "divide",
            OperationId::Modulo => "modulo",
            OperationId::And => "and",
            OperationId::Or => "or",
            OperationId::Equals => "equals",
            OperationId::NotEquals => "not_equals",
            OperationId::Alternative => "alternative",
            OperationId::Relational => "relational",
        }
    }
}

/// The evaluator that takes whole values in and gives whole values out.
pub struct AllAtOnceEvaluator {}

impl AllAtOnceEvaluator {
    pub fn new() -> (r: Self) {
        AllAtOnceEvaluator {  }
    }
}

} // verus!
