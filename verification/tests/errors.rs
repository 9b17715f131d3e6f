use treease_core::errors::{CoreError, EvalError, FormatError, ParseError, SystemError};
use treease_core::value_edit::{DocumentPathSeg, ValueEditError};

#[test]
fn core_error_messages_name_their_kind() {
    assert_eq!(CoreError::OutOfMemory.to_string(), "out of memory");
    assert_eq!(CoreError::System(SystemError::Error).to_string(), "system error: system error: Error");
    assert_eq!(CoreError::System(SystemError::Io("disk".to_owned())).to_string(), "system error: I/O error: disk");
    assert_eq!(CoreError::Parse(ParseError::BadCsv).to_string(), "parse error: BadCsv");
    assert_eq!(
        CoreError::Format(FormatError::TomlEmptyPath).to_string(),
        "format error: format error: TomlEmptyPath"
    );
    assert_eq!(CoreError::Eval(EvalError::NoKeys).to_string(), "eval error: eval error: NoKeys");
    assert_eq!(CoreError::Io("closed".to_owned()).to_string(), "I/O error: closed");
}

#[test]
fn core_error_messages_carry_their_fields() {
    let parse = CoreError::ParseMessage { line: 3, column: 14, message: "unexpected token".to_owned() };
    assert_eq!(parse.to_string(), "parse error at 3:14: unexpected token");
    let op = CoreError::OperatorMessage { op: "+".to_owned(), message: "cannot add".to_owned() };
    assert_eq!(op.to_string(), "operator +: cannot add");
    assert_eq!(CoreError::WasmProtocol { code: -7 }.to_string(), "WASM protocol error: -7");
    assert_eq!(CoreError::WasmProtocol { code: 0 }.to_string(), "WASM protocol error: 0");
    let missing = CoreError::CapabilityMissing { language: "toml".to_owned(), capability: "graph_edit" };
    assert_eq!(missing.to_string(), "language capability missing: toml.graph_edit");
}

#[test]
fn leaf_error_messages() {
    assert_eq!(ParseError::InvalidJson.to_string(), "InvalidJson");
    assert_eq!(ParseError::UnterminatedString.name(), "UnterminatedString");
    assert_eq!(SystemError::StreamTooLong.to_string(), "system error: StreamTooLong");
    assert_eq!(FormatError::UnknownFormat.to_string(), "format error: UnknownFormat");
    assert_eq!(EvalError::IndexOutOfRange.to_string(), "eval error: IndexOutOfRange");
}

#[test]
fn value_edit_error_messages() {
    assert_eq!(ValueEditError::PathNotFound.to_string(), "path not found in document");
    assert_eq!(
        ValueEditError::UnsupportedLanguage("ini".to_owned()).to_string(),
        "unsupported language for value edit: ini"
    );
    assert_eq!(ValueEditError::Core(CoreError::OutOfMemory).to_string(), "out of memory");
}

#[test]
fn document_path_seg_tags() {
    let key = DocumentPathSeg { tag: DocumentPathSeg::KEY_TAG, key: "a".to_owned(), index: 0 };
    let index = DocumentPathSeg { tag: DocumentPathSeg::INDEX_TAG, key: String::new(), index: 2 };
    assert!(!key.is_index());
    assert!(index.is_index());
}
