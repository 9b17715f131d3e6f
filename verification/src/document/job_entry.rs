//! Per-job state held by the document runtime.
use vstd::prelude::*;
use vstd::utf8::{encode_utf8, valid_utf8};
use vstd::string::StringSliceAdditionalSpecFns;
use super::protocol::{DocumentJobSpec, JobTerminal, SnapshotId};

verus! {

#[derive(Debug, Clone, Copy, PartialEq, Eq, PartialOrd, Ord, Hash, Default)]
pub struct DocumentJobHandle(pub u64);

#[verifier::external_type_specification]
#[verifier::external_body]
pub struct ExFromUtf8Error(std::string::FromUtf8Error);

/// Builds a string from UTF-8 bytes (`String::from_utf8`): succeeds exactly
/// on valid UTF-8, and the string then has those bytes.
#[verifier::external_body]
fn string_from_utf8(bytes: Vec<u8>) -> (r: Result<String, std::string::FromUtf8Error>)
    ensures
        r is Ok <==> valid_utf8(bytes@),
        r matches Ok(s) ==> encode_utf8(s@) == bytes@,
{
    String::from_utf8(bytes)
}

/// The UTF-8 bytes of a string (`String::into_bytes`).
#[verifier::external_body]
fn string_into_bytes(s: String) -> (r: Vec<u8>)
    ensures
        r@ == encode_utf8(s@),
{
    s.into_bytes()
}

/// Appends bytes to a byte buffer.
pub fn append_bytes(buffer: &mut Vec<u8>, bytes: &[u8])
    ensures
        final(buffer)@ == old(buffer)@ + bytes@,
{
    let mut i: usize = 0;
    while i < bytes.len()
        invariant
            i <= bytes@.len(),
            buffer@ == old(buffer)@ + bytes@.take(i as int),
        decreases bytes@.len() - i,
    {
        buffer.push(bytes[i]);
        i = i + 1;
        proof {
            assert(buffer@ =~= old(buffer)@ + bytes@.take(i as int));
        }
    }
    proof {
        assert(bytes@.take(bytes@.len() as int) =~= bytes@);
    }
}

/// `b` is `a` with `text` (whose UTF-8 bytes are `text_bytes`) appended
/// to the submitted source: to the byte buffer once bytes have been
/// submitted, otherwise to the text buffer.
pub open spec fn text_appended(a: JobEntry, b: JobEntry, text: Seq<char>, text_bytes: Seq<u8>) -> bool {
    &&& b.spec == a.spec
    &&& b.request_seq == a.request_seq
    &&& b.latest_snapshot_id == a.latest_snapshot_id
    &&& b.terminal == a.terminal
    &&& b.line_count == a.line_count
    &&& b.submitted_bytes() == a.submitted_bytes() + text_bytes
    &&& (b.source_bytes is Some <==> a.source_bytes is Some)
    &&& a.source_bytes is None ==> (b.source_buffer matches Some(s) && s@ == (match a.source_buffer {
        Some(t) => t@,
        None => Seq::empty(),
    }) + text)
}

/// `b` is `a` with `bytes` appended to the submitted source; the text
/// submitted so far moves into the byte buffer.
pub open spec fn bytes_appended(a: JobEntry, b: JobEntry, bytes: Seq<u8>) -> bool {
    &&& b.spec == a.spec
    &&& b.request_seq == a.request_seq
    &&& b.latest_snapshot_id == a.latest_snapshot_id
    &&& b.terminal == a.terminal
    &&& b.line_count == a.line_count
    &&& b.submitted_bytes() == a.submitted_bytes() + bytes
    &&& b.source_bytes is Some
    &&& a.source_bytes is None ==> b.source_buffer is None
    &&& a.source_bytes is Some ==> b.source_buffer == a.source_buffer
}

#[derive(Debug)]
pub struct JobEntry {
    pub spec: DocumentJobSpec,
    pub request_seq: u64,
    pub latest_snapshot_id: Option<SnapshotId>,
    pub terminal: Option<JobTerminal>,
    pub source_buffer: Option<String>,
    pub source_bytes: Option<Vec<u8>>,
    /// Append-only line count from streaming chunks.
    pub line_count: u32,
}

impl JobEntry {
    /// The source submitted so far, as bytes.
    pub open spec fn submitted_bytes(&self) -> Seq<u8> {
        match self.source_bytes {
            Some(bytes) => bytes@,
            None => match self.source_buffer {
                Some(text) => encode_utf8(text@),
                None => Seq::empty(),
            },
        }
    }

    /// Byte length of the submitted source, as the buffers report it.
    pub open spec fn submitted_len(&self) -> usize {
        match self.source_bytes {
            Some(bytes) => bytes@.len() as usize,
            None => match self.source_buffer {
                Some(text) => encode_utf8(text@).len() as usize,
                None => 0,
            },
        }
    }

    /// A fresh entry for `spec` with the given request sequence number.
    pub fn new(spec: DocumentJobSpec, request_seq: u64) -> (r: Self)
        ensures
            r.spec == spec,
            r.request_seq == request_seq,
            r.latest_snapshot_id is None,
            r.terminal is None,
            r.source_buffer is None,
            r.source_bytes is None,
            r.line_count == 0,
    {
        JobEntry {
            spec,
            request_seq,
            latest_snapshot_id: None,
            terminal: None,
            source_buffer: None,
            source_bytes: None,
            line_count: 0,
        }
    }

    /// Appends submitted text: to the byte buffer once bytes have been
    /// submitted, otherwise to the text buffer.
    pub fn append_source_text(&mut self, text: &str)
        ensures
            text_appended(*old(self), *final(self), text@, text.spec_bytes()),
    {
        match self.source_bytes.take() {
            Some(mut bytes) => {
                append_bytes(&mut bytes, text.as_bytes());
                self.source_bytes = Some(bytes);
            },
            None => {
                let mut buffer = match self.source_buffer.take() {
                    Some(buffer) => buffer,
                    None => String::new(),
                };
                let ghost prior = buffer@;
                crate::text::push_str(&mut buffer, text);
                proof {
                    crate::text::lemma_encode_utf8_append(prior, text@);
                    assert(encode_utf8(Seq::<char>::empty()) =~= Seq::<u8>::empty());
                }
                self.source_buffer = Some(buffer);
            },
        }
    }

    /// Appends submitted bytes; the text submitted so far moves into the
    /// byte buffer.
    pub fn append_source_bytes(&mut self, bytes: &[u8])
        ensures
            bytes_appended(*old(self), *final(self), bytes@),
    {
        let mut buffer = match self.source_bytes.take() {
            Some(buffer) => buffer,
            None => {
                let text = match self.source_buffer.take() {
                    Some(text) => text,
                    None => String::new(),
                };
                proof {
                    assert(encode_utf8(Seq::<char>::empty()) =~= Seq::<u8>::empty());
                }
                string_into_bytes(text)
            },
        };
        append_bytes(&mut buffer, bytes);
        self.source_bytes = Some(buffer);
    }

    /// Length of the submitted source in bytes, held at `u32::MAX`.
    pub fn source_len(&self) -> (r: u32)
        ensures
            r == (if self.submitted_len() <= u32::MAX { self.submitted_len() as u32 } else { u32::MAX }),
    {
        let len = match &self.source_bytes {
            Some(bytes) => bytes.len(),
            None => match &self.source_buffer {
                Some(source) => source.as_str().len(),
                None => 0,
            },
        };
        if len <= 0xffff_ffff { len as u32 } else { 0xffff_ffffu32 }
    }

    /// Takes the submitted source as text. Bytes are decoded as UTF-8; text
    /// is returned as submitted.
    pub fn take_source_text(&mut self) -> (r: Result<String, std::string::FromUtf8Error>)
        ensures
            final(self).spec == old(self).spec,
            final(self).request_seq == old(self).request_seq,
            final(self).latest_snapshot_id == old(self).latest_snapshot_id,
            final(self).terminal == old(self).terminal,
            final(self).line_count == old(self).line_count,
            final(self).source_bytes is None,
            old(self).source_bytes is Some ==> final(self).source_buffer == old(self).source_buffer,
            old(self).source_bytes is None ==> final(self).source_buffer is None,
            r is Ok <==> (old(self).source_bytes is None || valid_utf8(old(self).submitted_bytes())),
            r matches Ok(s) ==> encode_utf8(s@) == old(self).submitted_bytes(),
            old(self).source_bytes is None ==> (r matches Ok(s) && s@ == (match old(self).source_buffer {
                Some(t) => t@,
                None => Seq::empty(),
            })),
    {
        if let Some(bytes) = self.source_bytes.take() {
            return string_from_utf8(bytes);
        }
        proof {
            assert(encode_utf8(Seq::<char>::empty()) =~= Seq::<u8>::empty());
        }
        match self.source_buffer.take() {
            Some(source) => Ok(source),
            None => Ok(String::new()),
        }
    }
}

} // verus!
