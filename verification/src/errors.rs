//! Error kinds shared by the parsing, formatting and evaluation layers.
use vstd::prelude::*;
use crate::text::{decimal, int_decimal, push_decimal, push_i32_decimal, push_str};

verus! {

#[derive(Debug, Clone, PartialEq, Eq)]
pub enum SystemError {
    Error,
    EndOfStream,
    StreamTooLong,
    InvalidUtf8,
    NulInNulSeparatedOutput,
    Io(String),
}

#[derive(Debug, Clone, PartialEq, Eq)]
pub enum ParseError {
    InvalidSyntax,
    InvalidYaml,
    InvalidJson,
    InvalidPython,
    InvalidJavaScript,
    InvalidGo,
    BadParameter,
    BadCsv,
    BadTomlStringEscape,
    BadTomlKey,
    BadTomlBoolean,
    UnsupportedTomlValue,
    BadTomlPair,
    BadTomlDocument,
    BadTomlTable,
    BadTomlArrayTable,
    UnsupportedTomlTopLevel,
    TreeSitterSetLanguageFailed,
    TreeSitterParseFailed,
    CodepointTooLarge,
    Utf8CannotEncodeSurrogateHalf,
    NegativeIndex,
    InvalidPadding,
    InvalidCharacter,
    UnknownToken,
    UnterminatedString,
}

#[derive(Debug, Clone, PartialEq, Eq)]
pub enum FormatError {
    UnknownFormat,
    TomlRequiresMap,
    TomlEmptyPath,
    TomlNoAliases,
    TomlUnsupportedKind,
}

#[derive(Debug, Clone, PartialEq, Eq)]
pub enum EvalError {
    UnknownOperator,
    MissingRhs,
    MissingLhs,
    MissingTreeNode,
    MustUseVariableWithPipe,
    InvalidVariableRhs,
    KeysOnlyWorksForMapsAndArrays,
    CannotConvertValueToNumber,
    CannotConvertNodeToNumber,
    NodeIsNotArray,
    ExpectedSingleNumber,
    UniqueOnlySupportsArrays,
    CannotModuloByZero,
    CannotModuloTypes,
    CannotModuloNull,
    CannotModuloNonScalars,
    CannotDivideTypes,
    CannotDivideNull,
    CannotDivideNonScalars,
    StringsCannotBeSubtracted,
    CannotSubtractTypes,
    MapsNotSupportedForSubtraction,
    CannotSubtractNonSequence,
    CannotSubtractNonScalar,
    Unsupported,
    ExpectedMap,
    NoKeys,
    FromEntriesOnlyRunsAgainstArrays,
    CannotIndexArray,
    CannotPickIndicesFromType,
    NegativeRepeat,
    RepeatTooLarge,
    CannotMultiplyTypes,
    CannotAddTypes,
    CannotAddNonMapToMap,
    CannotAddNonScalarToScalar,
    IndexOutOfRange,
}

#[derive(Debug, Clone, PartialEq, Eq)]
pub enum CoreError {
    OutOfMemory,
    System(SystemError),
    Parse(ParseError),
    Format(FormatError),
    Eval(EvalError),
    Io(String),
    ParseMessage { line: usize, column: usize, message: String },
    OperatorMessage { op: String, message: String },
    WasmProtocol { code: i32 },
    CapabilityMissing { language: String, capability: &'static str },
}

impl From<SystemError> for CoreError {
    fn from(value: SystemError) -> (r: Self) {
        CoreError::System(value)
    }
}

impl vstd::std_specs::convert::FromSpecImpl<SystemError> for CoreError {
    open spec fn obeys_from_spec() -> bool {
        true
    }

    open spec fn from_spec(value: SystemError) -> Self {
        CoreError::System(value)
    }
}

impl From<ParseError> for CoreError {
    fn from(value: ParseError) -> (r: Self) {
        CoreError::Parse(value)
    }
}

impl vstd::std_specs::convert::FromSpecImpl<ParseError> for CoreError {
    open spec fn obeys_from_spec() -> bool {
        true
    }

    open spec fn from_spec(value: ParseError) -> Self {
        CoreError::Parse(value)
    }
}

impl From<FormatError> for CoreError {
    fn from(value: FormatError) -> (r: Self) {
        CoreError::Format(value)
    }
}

impl vstd::std_specs::convert::FromSpecImpl<FormatError> for CoreError {
    open spec fn obeys_from_spec() -> bool {
        true
    }

    open spec fn from_spec(value: FormatError) -> Self {
        CoreError::Format(value)
    }
}

impl From<EvalError> for CoreError {
    fn from(value: EvalError) -> (r: Self) {
        CoreError::Eval(value)
    }
}

impl vstd::std_specs::convert::FromSpecImpl<EvalError> for CoreError {
    open spec fn obeys_from_spec() -> bool {
        true
    }

    open spec fn from_spec(value: EvalError) -> Self {
        CoreError::Eval(value)
    }
}

impl SystemError {
    /// The variant's name, as its debug form prints it.
    pub open spec fn variant_name(self) -> Seq<char> {
        match self {
            SystemError::Error => "Error"@,
            SystemError::EndOfStream => "EndOfStream"@,
            SystemError::StreamTooLong => "StreamTooLong"@,
            SystemError::InvalidUtf8 => "InvalidUtf8"@,
            SystemError::NulInNulSeparatedOutput => "NulInNulSeparatedOutput"@,
            SystemError::Io(_) => "Io"@,
        }
    }

    /// The variant's name, as its debug form prints it.
    pub fn name(&self) -> (r: &'static str)
        ensures
            r@ == self.variant_name(),
    {
        match self {
            SystemError::Error => "Error",
            SystemError::EndOfStream => "EndOfStream",
            SystemError::StreamTooLong => "StreamTooLong",
            SystemError::InvalidUtf8 => "InvalidUtf8",
            SystemError::NulInNulSeparatedOutput => "NulInNulSeparatedOutput",
            SystemError::Io(_) => "Io",
        }
    }

    /// The error's message.
    pub open spec fn rendered(self) -> Seq<char> {
        match self {
            SystemError::Io(message) => "I/O error: "@ + message@,
            _ => "system error: "@ + self.variant_name(),
        }
    }

    /// The error's message: the I/O message, or the variant's name.
    pub fn to_string(&self) -> (r: String)
        ensures
            r@ == self.rendered(),
    {
        match self {
            SystemError::Io(message) => {
                let mut out = "I/O error: ".to_owned();
                push_str(&mut out, message.as_str());
                out
            },
            _ => {
                let mut out = "system error: ".to_owned();
                push_str(&mut out, self.name());
                out
            },
        }
    }
}


impl ParseError {
    /// The variant's name, as its debug form prints it.
    pub open spec fn variant_name(self) -> Seq<char> {
        match self {
            ParseError::InvalidSyntax => "InvalidSyntax"@,
            ParseError::InvalidYaml => "InvalidYaml"@,
            ParseError::InvalidJson => "InvalidJson"@,
            ParseError::InvalidPython => "InvalidPython"@,
            ParseError::InvalidJavaScript => "InvalidJavaScript"@,
            ParseError::InvalidGo => "InvalidGo"@,
            ParseError::BadParameter => "BadParameter"@,
            ParseError::BadCsv => "BadCsv"@,
            ParseError::BadTomlStringEscape => "BadTomlStringEscape"@,
            ParseError::BadTomlKey => "BadTomlKey"@,
            ParseError::BadTomlBoolean => "BadTomlBoolean"@,
            ParseError::UnsupportedTomlValue => "UnsupportedTomlValue"@,
            ParseError::BadTomlPair => "BadTomlPair"@,
            ParseError::BadTomlDocument => "BadTomlDocument"@,
            ParseError::BadTomlTable => "BadTomlTable"@,
            ParseError::BadTomlArrayTable => "BadTomlArrayTable"@,
            ParseError::UnsupportedTomlTopLevel => "UnsupportedTomlTopLevel"@,
            ParseError::TreeSitterSetLanguageFailed => "TreeSitterSetLanguageFailed"@,
            ParseError::TreeSitterParseFailed => "TreeSitterParseFailed"@,
            ParseError::CodepointTooLarge => "CodepointTooLarge"@,
            ParseError::Utf8CannotEncodeSurrogateHalf => "Utf8CannotEncodeSurrogateHalf"@,
            ParseError::NegativeIndex => "NegativeIndex"@,
            ParseError::InvalidPadding => "InvalidPadding"@,
            ParseError::InvalidCharacter => "InvalidCharacter"@,
            ParseError::UnknownToken => "UnknownToken"@,
            ParseError::UnterminatedString => "UnterminatedString"@,
        }
    }

    /// The variant's name, as its debug form prints it.
    pub fn name(&self) -> (r: &'static str)
        ensures
            r@ == self.variant_name(),
    {
        match self {
            ParseError::InvalidSyntax => "InvalidSyntax",
            ParseError::InvalidYaml => "InvalidYaml",
            ParseError::InvalidJson => "InvalidJson",
            ParseError::InvalidPython => "InvalidPython",
            ParseError::InvalidJavaScript => "InvalidJavaScript",
            ParseError::InvalidGo => "InvalidGo",
            ParseError::BadParameter => "BadParameter",
            ParseError::BadCsv => "BadCsv",
            ParseError::BadTomlStringEscape => "BadTomlStringEscape",
            ParseError::BadTomlKey => "BadTomlKey",
            ParseError::BadTomlBoolean => "BadTomlBoolean",
            ParseError::UnsupportedTomlValue => "UnsupportedTomlValue",
            ParseError::BadTomlPair => "BadTomlPair",
            ParseError::BadTomlDocument => "BadTomlDocument",
            ParseError::BadTomlTable => "BadTomlTable",
            ParseError::BadTomlArrayTable => "BadTomlArrayTable",
            ParseError::UnsupportedTomlTopLevel => "UnsupportedTomlTopLevel",
            ParseError::TreeSitterSetLanguageFailed => "TreeSitterSetLanguageFailed",
            ParseError::TreeSitterParseFailed => "TreeSitterParseFailed",
            ParseError::CodepointTooLarge => "CodepointTooLarge",
            ParseError::Utf8CannotEncodeSurrogateHalf => "Utf8CannotEncodeSurrogateHalf",
            ParseError::NegativeIndex => "NegativeIndex",
            ParseError::InvalidPadding => "InvalidPadding",
            ParseError::InvalidCharacter => "InvalidCharacter",
            ParseError::UnknownToken => "UnknownToken",
            ParseError::UnterminatedString => "UnterminatedString",
        }
    }

    /// The error's message: the variant's name.
    pub open spec fn rendered(self) -> Seq<char> {
        self.variant_name()
    }

    /// The error's message: the variant's name.
    pub fn to_string(&self) -> (r: String)
        ensures
            r@ == self.rendered(),
    {
        self.name().to_owned()
    }
}

impl FormatError {
    /// The variant's name, as its debug form prints it.
    pub open spec fn variant_name(self) -> Seq<char> {
        match self {
            FormatError::UnknownFormat => "UnknownFormat"@,
            FormatError::TomlRequiresMap => "TomlRequiresMap"@,
            FormatError::TomlEmptyPath => "TomlEmptyPath"@,
            FormatError::TomlNoAliases => "TomlNoAliases"@,
            FormatError::TomlUnsupportedKind => "TomlUnsupportedKind"@,
        }
    }

    /// The variant's name, as its debug form prints it.
    pub fn name(&self) -> (r: &'static str)
        ensures
            r@ == self.variant_name(),
    {
        match self {
            FormatError::UnknownFormat => "UnknownFormat",
            FormatError::TomlRequiresMap => "TomlRequiresMap",
            FormatError::TomlEmptyPath => "TomlEmptyPath",
            FormatError::TomlNoAliases => "TomlNoAliases",
            FormatError::TomlUnsupportedKind => "TomlUnsupportedKind",
        }
    }

    /// The error's message.
    pub open spec fn rendered(self) -> Seq<char> {
        "format error: "@ + self.variant_name()
    }

    /// The error's message: a fixed prefix and the variant's name.
    pub fn to_string(&self) -> (r: String)
        ensures
            r@ == self.rendered(),
    {
        let mut out = "format error: ".to_owned();
        push_str(&mut out, self.name());
        out
    }
}

impl EvalError {
    /// The variant's name, as its debug form prints it.
    pub open spec fn variant_name(self) -> Seq<char> {
        match self {
            EvalError::UnknownOperator => "UnknownOperator"@,
            EvalError::MissingRhs => "MissingRhs"@,
            EvalError::MissingLhs => "MissingLhs"@,
            EvalError::MissingTreeNode => "MissingTreeNode"@,
            EvalError::MustUseVariableWithPipe => "MustUseVariableWithPipe"@,
            EvalError::InvalidVariableRhs => "InvalidVariableRhs"@,
            EvalError::KeysOnlyWorksForMapsAndArrays => "KeysOnlyWorksForMapsAndArrays"@,
            EvalError::CannotConvertValueToNumber => "CannotConvertValueToNumber"@,
            EvalError::CannotConvertNodeToNumber => "CannotConvertNodeToNumber"@,
            EvalError::NodeIsNotArray => "NodeIsNotArray"@,
            EvalError::ExpectedSingleNumber => "ExpectedSingleNumber"@,
            EvalError::UniqueOnlySupportsArrays => "UniqueOnlySupportsArrays"@,
            EvalError::CannotModuloByZero => "CannotModuloByZero"@,
            EvalError::CannotModuloTypes => "CannotModuloTypes"@,
            EvalError::CannotModuloNull => "CannotModuloNull"@,
            EvalError::CannotModuloNonScalars => "CannotModuloNonScalars"@,
            EvalError::CannotDivideTypes => "CannotDivideTypes"@,
            EvalError::CannotDivideNull => "CannotDivideNull"@,
            EvalError::CannotDivideNonScalars => "CannotDivideNonScalars"@,
            EvalError::StringsCannotBeSubtracted => "StringsCannotBeSubtracted"@,
            EvalError::CannotSubtractTypes => "CannotSubtractTypes"@,
            EvalError::MapsNotSupportedForSubtraction => "MapsNotSupportedForSubtraction"@,
            EvalError::CannotSubtractNonSequence => "CannotSubtractNonSequence"@,
            EvalError::CannotSubtractNonScalar => "CannotSubtractNonScalar"@,
            EvalError::Unsupported => "Unsupported"@,
            EvalError::ExpectedMap => "ExpectedMap"@,
            EvalError::NoKeys => "NoKeys"@,
            EvalError::FromEntriesOnlyRunsAgainstArrays => "FromEntriesOnlyRunsAgainstArrays"@,
            EvalError::CannotIndexArray => "CannotIndexArray"@,
            EvalError::CannotPickIndicesFromType => "CannotPickIndicesFromType"@,
            EvalError::NegativeRepeat => "NegativeRepeat"@,
            EvalError::RepeatTooLarge => "RepeatTooLarge"@,
            EvalError::CannotMultiplyTypes => "CannotMultiplyTypes"@,
            EvalError::CannotAddTypes => "CannotAddTypes"@,
            EvalError::CannotAddNonMapToMap => "CannotAddNonMapToMap"@,
            EvalError::CannotAddNonScalarToScalar => "CannotAddNonScalarToScalar"@,
            EvalError::IndexOutOfRange => "IndexOutOfRange"@,
        }
    }

    /// The variant's name, as its debug form prints it.
    pub fn name(&self) -> (r: &'static str)
        ensures
            r@ == self.variant_name(),
    {
        match self {
            EvalError::UnknownOperator => "UnknownOperator",
            EvalError::MissingRhs => "MissingRhs",
            EvalError::MissingLhs => "MissingLhs",
            EvalError::MissingTreeNode => "MissingTreeNode",
            EvalError::MustUseVariableWithPipe => "MustUseVariableWithPipe",
            EvalError::InvalidVariableRhs => "InvalidVariableRhs",
            EvalError::KeysOnlyWorksForMapsAndArrays => "KeysOnlyWorksForMapsAndArrays",
            EvalError::CannotConvertValueToNumber => "CannotConvertValueToNumber",
            EvalError::CannotConvertNodeToNumber => "CannotConvertNodeToNumber",
            EvalError::NodeIsNotArray => "NodeIsNotArray",
            EvalError::ExpectedSingleNumber => "ExpectedSingleNumber",
            EvalError::UniqueOnlySupportsArrays => "UniqueOnlySupportsArrays",
            EvalError::CannotModuloByZero => "CannotModuloByZero",
            EvalError::CannotModuloTypes => "CannotModuloTypes",
            EvalError::CannotModuloNull => "CannotModuloNull",
            EvalError::CannotModuloNonScalars => "CannotModuloNonScalars",
            EvalError::CannotDivideTypes => "CannotDivideTypes",
            EvalError::CannotDivideNull => "CannotDivideNull",
            EvalError::CannotDivideNonScalars => "CannotDivideNonScalars",
            EvalError::StringsCannotBeSubtracted => "StringsCannotBeSubtracted",
            EvalError::CannotSubtractTypes => "CannotSubtractTypes",
            EvalError::MapsNotSupportedForSubtraction => "MapsNotSupportedForSubtraction",
            EvalError::CannotSubtractNonSequence => "CannotSubtractNonSequence",
            EvalError::CannotSubtractNonScalar => "CannotSubtractNonScalar",
            EvalError::Unsupported => "Unsupported",
            EvalError::ExpectedMap => "ExpectedMap",
            EvalError::NoKeys => "NoKeys",
            EvalError::FromEntriesOnlyRunsAgainstArrays => "FromEntriesOnlyRunsAgainstArrays",
            EvalError::CannotIndexArray => "CannotIndexArray",
            EvalError::CannotPickIndicesFromType => "CannotPickIndicesFromType",
            EvalError::NegativeRepeat => "NegativeRepeat",
            EvalError::RepeatTooLarge => "RepeatTooLarge",
            EvalError::CannotMultiplyTypes => "CannotMultiplyTypes",
            EvalError::CannotAddTypes => "CannotAddTypes",
            EvalError::CannotAddNonMapToMap => "CannotAddNonMapToMap",
            EvalError::CannotAddNonScalarToScalar => "CannotAddNonScalarToScalar",
            EvalError::IndexOutOfRange => "IndexOutOfRange",
        }
    }

    /// The error's message.
    pub open spec fn rendered(self) -> Seq<char> {
        "eval error: "@ + self.variant_name()
    }

    /// The error's message: a fixed prefix and the variant's name.
    pub fn to_string(&self) -> (r: String)
        ensures
            r@ == self.rendered(),
    {
        let mut out = "eval error: ".to_owned();
        push_str(&mut out, self.name());
        out
    }
}
impl CoreError {
    /// The error's message.
    pub open spec fn rendered(self) -> Seq<char> {
        match self {
            CoreError::OutOfMemory => "out of memory"@,
            CoreError::System(e) => "system error: "@ + e.rendered(),
            CoreError::Parse(e) => "parse error: "@ + e.rendered(),
            CoreError::Format(e) => "format error: "@ + e.rendered(),
            CoreError::Eval(e) => "eval error: "@ + e.rendered(),
            CoreError::Io(message) => "I/O error: "@ + message@,
            CoreError::ParseMessage { line, column, message } => "parse error at "@ + decimal(
                line as nat,
            ) + ":"@ + decimal(column as nat) + ": "@ + message@,
            CoreError::OperatorMessage { op, message } => "operator "@ + op@ + ": "@ + message@,
            CoreError::WasmProtocol { code } => "WASM protocol error: "@ + int_decimal(code as int),
            CoreError::CapabilityMissing { language, capability } => "language capability missing: "@
                + language@ + "."@ + capability@,
        }
    }

    /// The error's message, with the message of the error it wraps.
    pub fn to_string(&self) -> (r: String)
        ensures
            r@ == self.rendered(),
    {
        match self {
            CoreError::OutOfMemory => "out of memory".to_owned(),
            CoreError::System(e) => {
                let mut out = "system error: ".to_owned();
                let inner = e.to_string();
                push_str(&mut out, inner.as_str());
                out
            },
            CoreError::Parse(e) => {
                let mut out = "parse error: ".to_owned();
                let inner = e.to_string();
                push_str(&mut out, inner.as_str());
                out
            },
            CoreError::Format(e) => {
                let mut out = "format error: ".to_owned();
                let inner = e.to_string();
                push_str(&mut out, inner.as_str());
                out
            },
            CoreError::Eval(e) => {
                let mut out = "eval error: ".to_owned();
                let inner = e.to_string();
                push_str(&mut out, inner.as_str());
                out
            },
            CoreError::Io(message) => {
                let mut out = "I/O error: ".to_owned();
                push_str(&mut out, message.as_str());
                out
            },
            CoreError::ParseMessage { line, column, message } => {
                let mut out = "parse error at ".to_owned();
                push_decimal(&mut out, *line as u64);
                push_str(&mut out, ":");
                push_decimal(&mut out, *column as u64);
                push_str(&mut out, ": ");
                push_str(&mut out, message.as_str());
                out
            },
            CoreError::OperatorMessage { op, message } => {
                let mut out = "operator ".to_owned();
                push_str(&mut out, op.as_str());
                push_str(&mut out, ": ");
                push_str(&mut out, message.as_str());
                out
            },
            CoreError::WasmProtocol { code } => {
                let mut out = "WASM protocol error: ".to_owned();
                push_i32_decimal(&mut out, *code);
                out
            },
            CoreError::CapabilityMissing { language, capability } => {
                let mut out = "language capability missing: ".to_owned();
                push_str(&mut out, language.as_str());
                push_str(&mut out, ".");
                push_str(&mut out, capability);
                out
            },
        }
    }
}


} // verus!
