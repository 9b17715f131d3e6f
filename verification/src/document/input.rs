//! Input carriers for document jobs: owned source text, a base text with
//! pending edits, and a byte stream.
use vstd::prelude::*;

verus! {

#[derive(Debug, Clone, PartialEq, Eq)]
pub struct OwnedText(pub String);

impl OwnedText {
    pub fn new(text: &str) -> (r: Self)
        ensures
            r.0@ == text@,
    {
        Self(text.to_owned())
    }

    pub fn as_str(&self) -> (r: &str)
        ensures
            r@ == self.0@,
    {
        self.0.as_str()
    }
}

#[derive(Debug, Clone, PartialEq, Eq)]
pub struct BaseTextWithEdits {
    pub base: OwnedText,
    pub edits: Vec<OwnedText>,
}

impl BaseTextWithEdits {
    pub fn new(base: &str) -> (r: Self)
        ensures
            r.base.0@ == base@,
            r.edits@.len() == 0,
    {
        Self { base: OwnedText::new(base), edits: Vec::new() }
    }
}

#[derive(Debug, Clone, PartialEq, Eq)]
pub struct ByteStream {
    text: OwnedText,
}

impl ByteStream {
    /// The text this stream carries.
    pub closed spec fn text_view(&self) -> Seq<char> {
        self.text.0@
    }

    pub fn from_text(text: &str) -> (r: Self)
        ensures
            r.text_view() == text@,
    {
        Self { text: OwnedText::new(text) }
    }

    pub fn as_str(&self) -> (r: &str)
        ensures
            r@ == self.text_view(),
    {
        self.text.as_str()
    }
}

} // verus!
