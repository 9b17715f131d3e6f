//! Errors and path steps of whole-document value edits.
use vstd::prelude::*;
use crate::errors::CoreError;
use crate::text::push_str;

verus! {

/// Why a whole-document value edit failed.
#[derive(Debug, Clone, PartialEq, Eq)]
pub enum ValueEditError {
    /// The document or the value could not be decoded or encoded.
    Core(CoreError),
    /// No node stands at the requested path.
    PathNotFound,
    /// The language has no encoder for value edits.
    UnsupportedLanguage(String),
}

impl ValueEditError {
    /// The error's message.
    pub open spec fn rendered(self) -> Seq<char> {
        match self {
            ValueEditError::Core(e) => e.rendered(),
            ValueEditError::PathNotFound => "path not found in document"@,
            ValueEditError::UnsupportedLanguage(language) => "unsupported language for value edit: "@
                + language@,
        }
    }

    /// The error's message.
    pub fn to_string(&self) -> (r: String)
        ensures
            r@ == self.rendered(),
    {
        match self {
            ValueEditError::Core(e) => e.to_string(),
            ValueEditError::PathNotFound => "path not found in document".to_owned(),
            ValueEditError::UnsupportedLanguage(language) => {
                let mut out = "unsupported language for value edit: ".to_owned();
                push_str(&mut out, language.as_str());
                out
            },
        }
    }
}

/// One step of a path into a document: a key (tag 0) or a sequence index (tag 1).
#[derive(Debug, Clone, PartialEq, Eq)]
pub struct DocumentPathSeg {
    pub tag: i32,
    pub key: String,
    pub index: i32,
}

impl DocumentPathSeg {
    /// The tag of a key step.
    pub const KEY_TAG: i32 = 0;

    /// The tag of an index step.
    pub const INDEX_TAG: i32 = 1;

    /// Whether the step selects a sequence index.
    pub fn is_index(&self) -> (r: bool)
        ensures
            r == (self.tag == 1),
    {
        self.tag == Self::INDEX_TAG
    }
}

} // verus!
