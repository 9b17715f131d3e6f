//! Source bookkeeping for streaming decodes: raw input bytes are held until
//! the decoder commits them, committed bytes become canonical source text
//! (with decoder rewrites spliced in), and event offsets are mapped from raw
//! positions to source positions.
use vstd::prelude::*;
use vstd::string::StringExecFns;
use vstd::string::StringSliceAdditionalSpecFns;
use vstd::utf8::{encode_utf8, valid_utf8};
use crate::line_index::{
    find_line, law_line_and_column_count_newlines, last_line_start, lemma_line_count_append, lemma_line_starts_well_formed, lemma_line_unique, line_column_at,
    line_starts_of, newline_count, push_line_starts, starts_well_formed, usize_seq_as_int, LineColumn,
    LineIndex,
};

verus! {

/// Sizes above this bound are never reached by a stream.
pub open spec fn size_limit() -> int {
    usize::MAX as int / 4
}

/// Position and location information attached to a streaming event.
#[derive(Debug, Clone, Copy, PartialEq, Eq, Default)]
pub struct Meta {
    pub start_byte: u32,
    pub end_byte: u32,
    pub line: i32,
    pub column: i32,
}

/// An event produced by a streaming decoder.
#[derive(Debug, Clone, PartialEq, Eq)]
pub enum StreamingEvent {
    DocStart(Meta),
    DocEnd(Meta),
    MapStart(Meta),
    MapKey { value: String, meta: Meta },
    MapEnd(Meta),
    SeqStart(Meta),
    SeqEnd(Meta),
    Scalar { value: String, meta: Meta },
    Alias { anchor: String, meta: Meta },
    ParseError { message: String, meta: Meta },
}

/// A decoder request to replace a raw byte range by new source text.
#[derive(Debug, Clone, PartialEq, Eq)]
pub struct SourceRewrite {
    pub start_byte: u32,
    pub old_end_byte: u32,
    pub replacement: String,
}

/// A rewrite that has been spliced into the source text.
#[derive(Debug, Clone, Copy, PartialEq, Eq)]
pub struct AppliedRewrite {
    pub raw_start: usize,
    pub raw_end: usize,
    pub source_start: usize,
    pub replacement_len: usize,
    pub cumulative_delta_after: i64,
}

#[derive(Debug, Clone, Copy, PartialEq, Eq, Default)]
pub struct SourceDocUpdate {
    pub appended_line_count: u32,
    pub processed_bytes: u32,
}

#[verifier::external_type_specification]
#[verifier::external_body]
pub struct ExUtf8Error(std::str::Utf8Error);

/// Decodes bytes as UTF-8 (`std::str::from_utf8`): succeeds exactly on
/// valid UTF-8, and the text then has those bytes.
#[verifier::external_body]
fn str_from_utf8(bytes: &[u8]) -> (r: Result<&str, std::str::Utf8Error>)
    ensures
        r is Ok <==> valid_utf8(bytes@),
        r matches Ok(s) ==> s.spec_bytes() == bytes@,
{
    std::str::from_utf8(bytes)
}

/// The abstract state of a [`StreamingSourceDoc`].
pub ghost struct SourceModel {
    /// Raw bytes received but not yet dropped, starting at `base`.
    pub raw: Seq<u8>,
    pub base: int,
    /// Raw position up to which input has been turned into source text.
    pub cursor: int,
    /// Canonical source text, as UTF-8 bytes.
    pub source: Seq<u8>,
    pub rewrites: Seq<AppliedRewrite>,
}

pub open spec fn sat_sub(a: int, b: int) -> int {
    if a >= b { a - b } else { 0 }
}

pub open spec fn min_int(a: int, b: int) -> int {
    if a <= b { a } else { b }
}

/// Drops the raw bytes before the cursor.
pub open spec fn model_compact(m: SourceModel) -> SourceModel {
    let consumed = sat_sub(m.cursor, m.base);
    if consumed == 0 {
        m
    } else {
        SourceModel { raw: m.raw.skip(min_int(consumed, m.raw.len() as int)), base: m.cursor, ..m }
    }
}

/// Turns raw input up to `end` into source text; `None` when those bytes
/// are not valid UTF-8.
pub open spec fn model_commit_until(m: SourceModel, end: int) -> Option<SourceModel> {
    let e = min_int(end, m.base + m.raw.len());
    if e <= m.cursor {
        Some(m)
    } else {
        let chunk = m.raw.subrange(sat_sub(m.cursor, m.base), sat_sub(e, m.base));
        if valid_utf8(chunk) {
            Some(model_compact(SourceModel { cursor: e, source: m.source + chunk, ..m }))
        } else {
            None
        }
    }
}

/// Splices a decoder rewrite into the source; `None` when the raw text
/// before it is not valid UTF-8.
pub open spec fn model_apply_rewrite(m: SourceModel, rw: SourceRewrite) -> Option<SourceModel> {
    let raw_start = rw.start_byte as int;
    let raw_end = rw.old_end_byte as int;
    if raw_end <= m.cursor {
        Some(m)
    } else {
        match model_commit_until(m, raw_start) {
            None => None,
            Some(m1) => {
                let rep = encode_utf8(rw.replacement@);
                let source = m1.source + rep;
                let applied = AppliedRewrite {
                    raw_start: raw_start as usize,
                    raw_end: raw_end as usize,
                    source_start: m1.source.len() as usize,
                    replacement_len: rep.len() as usize,
                    cumulative_delta_after: (source.len() - raw_end) as i64,
                };
                Some(
                    model_compact(
                        SourceModel {
                            cursor: raw_end,
                            source,
                            rewrites: m1.rewrites.push(applied),
                            ..m1
                        },
                    ),
                )
            },
        }
    }
}

/// Applies rewrites in order, stopping at the first that fails; the flag
/// tells whether all succeeded.
pub open spec fn model_apply_rewrites(m: SourceModel, rws: Seq<SourceRewrite>) -> (SourceModel, bool)
    decreases rws.len(),
{
    if rws.len() == 0 {
        (m, true)
    } else {
        match model_apply_rewrite(m, rws[0]) {
            None => (m, false),
            Some(m1) => model_apply_rewrites(m1, rws.drop_first()),
        }
    }
}

/// Total byte length of the replacements of `rws`.
pub open spec fn replacement_bytes(rws: Seq<SourceRewrite>) -> int
    decreases rws.len(),
{
    if rws.len() == 0 {
        0
    } else {
        encode_utf8(rws[0].replacement@).len() + replacement_bytes(rws.drop_first())
    }
}

/// The number of rewrites, from the front, whose raw start is at or before `raw`.
pub open spec fn rewrite_partition(rws: Seq<AppliedRewrite>, raw: int) -> int
    decreases rws.len(),
{
    if rws.len() == 0 || rws[0].raw_start > raw {
        0
    } else {
        1 + rewrite_partition(rws.drop_first(), raw)
    }
}

/// `v` clamped into the `u32` range.
pub open spec fn clamp_i64_to_u32(v: int) -> u32 {
    if v < 0 {
        0
    } else if v > u32::MAX {
        u32::MAX
    } else {
        v as u32
    }
}

/// The source position that raw position `offset` maps to.
pub open spec fn model_map_offset(m: SourceModel, offset: u32) -> u32 {
    let raw = offset as int;
    let index = rewrite_partition(m.rewrites, raw);
    if index == 0 {
        offset
    } else {
        let r = m.rewrites[index - 1];
        if raw <= r.raw_end {
            let inner = sat_sub(raw, r.raw_start as int);
            let clamped = min_int(inner, r.replacement_len as int);
            min_int(r.source_start + clamped, u32::MAX as int) as u32
        } else {
            clamp_i64_to_u32(raw + r.cumulative_delta_after)
        }
    }
}

/// Line and column (from zero) of a source offset, clamped to the source.
pub open spec fn model_line_column(m: SourceModel, offset: int) -> LineColumn {
    line_column_at(line_starts_of(m.source), min_int(offset, m.source.len() as int))
}

pub open spec fn model_rebase_meta(m: SourceModel, meta: Meta) -> Meta {
    let start = model_map_offset(m, meta.start_byte);
    let end = model_map_offset(m, meta.end_byte);
    let lc = model_line_column(m, start as int);
    Meta {
        start_byte: start,
        end_byte: end,
        line: (lc.line as i32).wrapping_add(1),
        column: (lc.column as i32).wrapping_add(1),
    }
}

pub open spec fn model_rebase_event(m: SourceModel, e: StreamingEvent) -> StreamingEvent {
    match e {
        StreamingEvent::DocStart(meta) => StreamingEvent::DocStart(model_rebase_meta(m, meta)),
        StreamingEvent::DocEnd(meta) => StreamingEvent::DocEnd(model_rebase_meta(m, meta)),
        StreamingEvent::MapStart(meta) => StreamingEvent::MapStart(model_rebase_meta(m, meta)),
        StreamingEvent::MapKey { value, meta } => StreamingEvent::MapKey {
            value,
            meta: model_rebase_meta(m, meta),
        },
        StreamingEvent::MapEnd(meta) => StreamingEvent::MapEnd(model_rebase_meta(m, meta)),
        StreamingEvent::SeqStart(meta) => StreamingEvent::SeqStart(model_rebase_meta(m, meta)),
        StreamingEvent::SeqEnd(meta) => StreamingEvent::SeqEnd(model_rebase_meta(m, meta)),
        StreamingEvent::Scalar { value, meta } => StreamingEvent::Scalar {
            value,
            meta: model_rebase_meta(m, meta),
        },
        StreamingEvent::Alias { anchor, meta } => StreamingEvent::Alias {
            anchor,
            meta: model_rebase_meta(m, meta),
        },
        StreamingEvent::ParseError { message, meta } => StreamingEvent::ParseError {
            message,
            meta: model_rebase_meta(m, meta),
        },
    }
}

/// The raw end position an event commits.
pub open spec fn event_end(e: StreamingEvent) -> u32 {
    match e {
        StreamingEvent::DocStart(meta) => meta.end_byte,
        StreamingEvent::DocEnd(meta) => meta.end_byte,
        StreamingEvent::MapStart(meta) => meta.end_byte,
        StreamingEvent::MapKey { meta, .. } => meta.end_byte,
        StreamingEvent::MapEnd(meta) => meta.end_byte,
        StreamingEvent::SeqStart(meta) => meta.end_byte,
        StreamingEvent::SeqEnd(meta) => meta.end_byte,
        StreamingEvent::Scalar { meta, .. } => meta.end_byte,
        StreamingEvent::Alias { meta, .. } => meta.end_byte,
        StreamingEvent::ParseError { meta, .. } => meta.end_byte,
    }
}

/// The largest end position among `events`, or `default` when there are none.
pub open spec fn max_event_end(events: Seq<StreamingEvent>, default: u32) -> u32
    decreases events.len(),
{
    if events.len() == 0 {
        default
    } else {
        let rest = max_event_end(events.drop_last(), default);
        let last = event_end(events.last());
        if events.len() == 1 || last > rest { last } else { rest }
    }
}

/// The furthest end among events is at least every event's end, and is
/// one of them.
proof fn lemma_max_event_end(events: Seq<StreamingEvent>, default: u32)
    requires
        events.len() > 0,
    ensures
        forall|i: int| 0 <= i < events.len() ==> event_end(#[trigger] events[i]) <= max_event_end(events, default),
        exists|i: int| 0 <= i < events.len() && event_end(#[trigger] events[i]) == max_event_end(events, default),
    decreases events.len(),
{
    let n = events.len();
    assert(events.last() == events[n - 1]);
    if n > 1 {
        let d = events.drop_last();
        lemma_max_event_end(d, default);
        assert forall|i: int| 0 <= i < n implies event_end(#[trigger] events[i]) <= max_event_end(events, default) by {
            if i < n - 1 {
                assert(d[i] == events[i]);
            }
        }
        let j = choose|j: int| 0 <= j < d.len() && event_end(#[trigger] d[j]) == max_event_end(d, default);
        assert(d[j] == events[j]);
    }
}

/// Committing streamed events reaches every event's end: the commit goes
/// up to an end that no event's end exceeds and that one of them has, and
/// afterwards the cursor is past every event end that the received input
/// covers.
pub proof fn law_commit_reaches_every_event_end(m: SourceModel, events: Seq<StreamingEvent>)
    requires
        events.len() > 0,
    ensures
        forall|i: int| 0 <= i < events.len() ==> event_end(#[trigger] events[i]) <= max_event_end(events, m.cursor as u32),
        exists|i: int| 0 <= i < events.len() && event_end(#[trigger] events[i]) == max_event_end(events, m.cursor as u32),
        model_commit_until(m, max_event_end(events, m.cursor as u32) as int) matches Some(m2) ==> forall|i: int|
            0 <= i < events.len() ==> min_int(event_end(#[trigger] events[i]) as int, m.base + m.raw.len()) <= m2.cursor,
{
    lemma_max_event_end(events, m.cursor as u32);
}

/// On a fresh document that has received `input`, committing events with no
/// rewrites makes the source exactly the input up to the furthest event
/// end (or all of it, where an event ends past it); it succeeds whenever
/// that prefix is valid UTF-8, and offsets then map to themselves.
pub proof fn law_fresh_commit_is_input_prefix(input: Seq<u8>, events: Seq<StreamingEvent>)
    ensures
        ({
            let m = SourceModel {
                raw: input,
                base: 0,
                cursor: 0,
                source: Seq::empty(),
                rewrites: Seq::empty(),
            };
            let e = min_int(max_event_end(events, 0) as int, input.len() as int);
            &&& model_apply_rewrites(m, Seq::empty()) == (m, true)
            &&& model_commit_until(m, max_event_end(events, 0) as int) is Some <==> valid_utf8(input.take(e))
            &&& model_commit_until(m, max_event_end(events, 0) as int) matches Some(m2) ==> {
                &&& m2.source == input.take(e)
                &&& forall|o: u32| #[trigger] model_map_offset(m2, o) == o
            }
        }),
{
    let m = SourceModel {
        raw: input,
        base: 0,
        cursor: 0,
        source: Seq::empty(),
        rewrites: Seq::empty(),
    };
    let e = min_int(max_event_end(events, 0) as int, input.len() as int);
    assert(input.subrange(0, e) =~= input.take(e));
    assert(Seq::<u8>::empty() + input.take(e) =~= input.take(e));
    if e <= 0 {
        assert(input.take(e) =~= Seq::<u8>::empty());
        assert(valid_utf8(Seq::<u8>::empty()));
    }
}

pub open spec fn model_processed_bytes(m: SourceModel) -> u32 {
    min_int(m.base + m.raw.len(), u32::MAX as int) as u32
}

pub open spec fn model_line_count(m: SourceModel) -> int {
    line_starts_of(m.source).len() as int
}

/// The update reported after moving from `before` to `after`.
pub open spec fn model_update(before: SourceModel, after: SourceModel) -> SourceDocUpdate {
    SourceDocUpdate {
        appended_line_count: sat_sub(model_line_count(after), model_line_count(before)) as u32,
        processed_bytes: model_processed_bytes(after),
    }
}

/// Within the size bounds of a stream.
pub open spec fn model_bounded(m: SourceModel) -> bool {
    &&& 0 <= m.base
    &&& 0 <= m.cursor
    &&& m.base + m.raw.len() <= usize::MAX
    &&& m.source.len() + m.raw.len() < size_limit()
    &&& forall|i: int|
        0 <= i < m.rewrites.len() ==> {
            &&& m.rewrites[i].source_start + m.rewrites[i].replacement_len <= m.source.len()
            &&& -(u32::MAX as int) <= m.rewrites[i].cumulative_delta_after < size_limit()
        }
}

/// `p` is the start of `s`.
pub open spec fn starts_with(s: Seq<u8>, p: Seq<u8>) -> bool {
    p.len() <= s.len() && s.take(p.len() as int) == p
}

proof fn lemma_rewrites_extend_source(m: SourceModel, rws: Seq<SourceRewrite>)
    ensures
        starts_with(model_apply_rewrites(m, rws).0.source, m.source),
    decreases rws.len(),
{
    if rws.len() == 0 {
        assert(m.source.take(m.source.len() as int) =~= m.source);
    } else {
        match model_apply_rewrite(m, rws[0]) {
            None => {
                assert(m.source.take(m.source.len() as int) =~= m.source);
            },
            Some(m1) => {
                lemma_commit_extends_source(m, rws[0].start_byte as int);
                lemma_rewrites_extend_source(m1, rws.drop_first());
                let m3 = model_apply_rewrites(m1, rws.drop_first()).0;
                if rws[0].old_end_byte as int > m.cursor {
                    let mc = model_commit_until(m, rws[0].start_byte as int)->Some_0;
                    let rep = encode_utf8(rws[0].replacement@);
                    assert((mc.source + rep).take(mc.source.len() as int) =~= mc.source);
                    assert(m1.source == mc.source + rep);
                    assert(m3.source.take(m.source.len() as int) =~= m3.source.take(m1.source.len() as int).take(m.source.len() as int));
                    assert(m1.source.take(m.source.len() as int) =~= mc.source.take(m.source.len() as int));
                }
            },
        }
    }
}

proof fn lemma_commit_extends_source(m: SourceModel, end: int)
    ensures
        model_commit_until(m, end) matches Some(m2) ==> starts_with(m2.source, m.source),
{
    assert(m.source.take(m.source.len() as int) =~= m.source);
    let e = min_int(end, m.base + m.raw.len());
    if e > m.cursor {
        let chunk = m.raw.subrange(sat_sub(m.cursor, m.base), sat_sub(e, m.base));
        assert((m.source + chunk).take(m.source.len() as int) =~= m.source);
    }
}

/// Committing only ever appends to the source: the rewrites keep what was
/// there before them, and so does the commit that follows; and the update
/// then reports one new line for each newline byte appended (where that
/// number fits in a `u32`).
pub proof fn law_commit_appends_and_counts_lines(m: SourceModel, rws: Seq<SourceRewrite>, end: int)
    ensures
        starts_with(model_apply_rewrites(m, rws).0.source, m.source),
        model_commit_until(model_apply_rewrites(m, rws).0, end) matches Some(m2) ==> {
            &&& starts_with(m2.source, m.source)
            &&& newline_count(m2.source.skip(m.source.len() as int)) <= u32::MAX ==> model_update(m, m2).appended_line_count
                == newline_count(m2.source.skip(m.source.len() as int))
        },
{
    let m1 = model_apply_rewrites(m, rws).0;
    lemma_rewrites_extend_source(m, rws);
    lemma_commit_extends_source(m1, end);
    match model_commit_until(m1, end) {
        Some(m2) => {
            assert(m2.source.take(m.source.len() as int) =~= m2.source.take(m1.source.len() as int).take(m.source.len() as int));
            let added = m2.source.skip(m.source.len() as int);
            assert(m.source + added =~= m2.source);
            lemma_line_count_append(m.source, added);
        },
        None => {},
    }
}

/// Finishing commits everything received: the cursor passes the end of the
/// input; where the cursor stood within the held input, the source gains
/// exactly the bytes from the cursor on; and where any were still to be
/// committed, no raw byte stays held.
pub proof fn law_finish_commits_all_input(m: SourceModel)
    ensures
        model_commit_until(m, m.base + m.raw.len()) matches Some(m2) ==> {
            &&& m2.cursor >= m.base + m.raw.len()
            &&& m.base <= m.cursor <= m.base + m.raw.len() ==> m2.source == m.source + m.raw.skip(m.cursor - m.base)
            &&& m.base <= m.cursor < m.base + m.raw.len() ==> m2.raw.len() == 0
        },
{
    let end = m.base + m.raw.len();
    if m.base <= m.cursor <= end {
        assert(m.raw.subrange(m.cursor - m.base, m.raw.len() as int) =~= m.raw.skip(m.cursor - m.base));
        if end <= m.cursor {
            assert(m.raw.skip(m.cursor - m.base) =~= Seq::<u8>::empty());
            assert(m.source + Seq::<u8>::empty() =~= m.source);
        }
    }
}

/// Events are located one-based in the source: the line of an event is one
/// more than the number of newline bytes before its mapped start, and its
/// column one more than how far that start lies past the last of them.
pub proof fn law_event_lines_are_one_based(m: SourceModel, meta: Meta)
    requires
        m.source.len() < i32::MAX,
    ensures
        ({
            let start = min_int(model_map_offset(m, meta.start_byte) as int, m.source.len() as int);
            let before = m.source.take(start);
            let r = model_rebase_meta(m, meta);
            &&& r.start_byte == model_map_offset(m, meta.start_byte)
            &&& r.end_byte == model_map_offset(m, meta.end_byte)
            &&& r.line as int == newline_count(before) + 1
            &&& r.column as int == start - last_line_start(before) + 1
        }),
{
    let start = min_int(model_map_offset(m, meta.start_byte) as int, m.source.len() as int);
    let before = m.source.take(start);
    law_line_and_column_count_newlines(m.source, start);
    crate::line_index::lemma_last_line_start_bounds(before);
}

/// One rewrite on a fresh document that has received `input`: the source
/// becomes the input before the rewrite's range, the replacement, and then
/// the input after the range up to the furthest event end; offsets before
/// the range stay, and offsets after it move by how much longer the
/// replacement is than the range.
pub proof fn law_rewrite_replaces_its_range(input: Seq<u8>, rw: SourceRewrite, events: Seq<StreamingEvent>)
    requires
        rw.start_byte <= rw.old_end_byte <= input.len(),
        0 < rw.old_end_byte,
        valid_utf8(input.take(rw.start_byte as int)),
        input.len() + encode_utf8(rw.replacement@).len() < u32::MAX,
    ensures
        ({
            let m = SourceModel {
                raw: input,
                base: 0,
                cursor: 0,
                source: Seq::empty(),
                rewrites: Seq::empty(),
            };
            let s = rw.start_byte as int;
            let e = rw.old_end_byte as int;
            let rep = encode_utf8(rw.replacement@);
            let (m2, ok) = model_apply_rewrites(m, seq![rw]);
            let stop = min_int(max_event_end(events, m2.cursor as u32) as int, input.len() as int);
            &&& ok
            &&& m2.source == input.take(s) + rep
            &&& m2.cursor == e
            &&& model_commit_until(m2, max_event_end(events, m2.cursor as u32) as int) matches Some(m3) ==> {
                &&& m3.source == input.take(s) + rep + input.subrange(e, if stop > e { stop } else { e })
                &&& forall|o: u32| o < s ==> #[trigger] model_map_offset(m3, o) == o
                &&& forall|o: u32| e < o && o + rep.len() - (e - s) <= u32::MAX
                    ==> #[trigger] model_map_offset(m3, o) == o + rep.len() - (e - s)
            }
        }),
{
    let m = SourceModel {
        raw: input,
        base: 0,
        cursor: 0,
        source: Seq::empty(),
        rewrites: Seq::empty(),
    };
    let s = rw.start_byte as int;
    let e = rw.old_end_byte as int;
    let rep = encode_utf8(rw.replacement@);
    assert(seq![rw].drop_first() =~= Seq::<SourceRewrite>::empty());
    assert(seq![rw][0] == rw);
    let m1 = model_commit_until(m, s)->Some_0;
    if s > 0 {
        assert(input.subrange(0, s) =~= input.take(s));
        assert(Seq::<u8>::empty() + input.take(s) =~= input.take(s));
        assert(m1.raw == input.skip(s));
        assert(m1.base == s);
    } else {
        assert(input.take(0) =~= Seq::<u8>::empty());
    }
    assert(m1.source == input.take(s));
    assert(m1.rewrites == Seq::<AppliedRewrite>::empty());
    let m2 = model_apply_rewrite(m, rw)->Some_0;
    assert(m2.raw =~= input.skip(e));
    assert(m2.base == e);
    assert(m2.cursor == e);
    assert(m2.source == input.take(s) + rep);
    assert(model_apply_rewrite(m, rw) is Some);
    assert(model_apply_rewrites(m2, Seq::<SourceRewrite>::empty()) == (m2, true));
    assert(model_apply_rewrites(m, seq![rw]) == model_apply_rewrites(m2, seq![rw].drop_first()));
    assert(model_apply_rewrites(m, seq![rw]) == (m2, true));
    let stop = min_int(max_event_end(events, m2.cursor as u32) as int, input.len() as int);
    assert(m2.base + m2.raw.len() == input.len());
    match model_commit_until(m2, max_event_end(events, m2.cursor as u32) as int) {
        Some(m3) => {
            if stop > e {
                assert(m2.raw.subrange(0, stop - e) =~= input.subrange(e, stop));
            } else {
                assert(input.subrange(e, e) =~= Seq::<u8>::empty());
                assert(m2.source + Seq::<u8>::empty() =~= m2.source);
            }
            assert(m3.rewrites == m2.rewrites);
            let r = m2.rewrites[0];
            assert(m2.rewrites.len() == 1);
            assert(r.raw_start == s && r.raw_end == e);
            assert(r.cumulative_delta_after as int == s + rep.len() - e);
            assert forall|o: u32| o < s implies #[trigger] model_map_offset(m3, o) == o by {
                assert(rewrite_partition(m3.rewrites, o as int) == 0);
            }
            assert forall|o: u32| e < o && o + rep.len() - (e - s) <= u32::MAX
                implies #[trigger] model_map_offset(m3, o) == o + rep.len() - (e - s) by {
                assert(m3.rewrites.drop_first() =~= Seq::<AppliedRewrite>::empty());
                assert(rewrite_partition(Seq::<AppliedRewrite>::empty(), o as int) == 0);
                assert(m3.rewrites[0].raw_start as int <= o as int);
                assert(rewrite_partition(m3.rewrites, o as int) == 1);
            }
        },
        None => {},
    }
}

#[derive(Debug, Default)]
pub struct StreamingSourceDoc {
    raw: Vec<u8>,
    raw_base_offset: usize,
    raw_cursor: usize,
    source: String,
    line_starts: Vec<usize>,
    rewrites: Vec<AppliedRewrite>,
}

impl View for StreamingSourceDoc {
    type V = SourceModel;

    closed spec fn view(&self) -> SourceModel {
        SourceModel {
            raw: self.raw@,
            base: self.raw_base_offset as int,
            cursor: self.raw_cursor as int,
            source: encode_utf8(self.source@),
            rewrites: self.rewrites@,
        }
    }
}

/// Appends `text` to `source`, recording the line starts that its newlines open.
fn append_source_text_parts(source: &mut String, line_starts: &mut Vec<usize>, text: &str)
    requires
        usize_seq_as_int(old(line_starts)@) == line_starts_of(encode_utf8(old(source)@)),
        encode_utf8(old(source)@).len() + text.spec_bytes().len() < size_limit(),
    ensures
        usize_seq_as_int(final(line_starts)@) == line_starts_of(encode_utf8(final(source)@)),
        encode_utf8(final(source)@) == encode_utf8(old(source)@) + text.spec_bytes(),
        final(source)@ == old(source)@ + text@,
{
    let ghost before = encode_utf8(source@);
    let base = source.as_str().len();
    push_line_starts(line_starts, base, text.as_bytes(), Ghost(before));
    source.append(text);
    proof {
        crate::text::lemma_encode_utf8_append(old(source)@, text@);
    }
}

impl StreamingSourceDoc {
    /// The internal representation agrees with the model and its bounds.
    pub closed spec fn wf(&self) -> bool {
        &&& usize_seq_as_int(self.line_starts@) == line_starts_of(encode_utf8(self.source@))
        &&& model_bounded(self@)
    }

    /// The number of raw input bytes still held.
    pub fn pending_raw_len(&self) -> (r: usize)
        ensures
            r == self@.raw.len(),
    {
        self.raw.len()
    }

    pub fn new() -> (r: Self)
        ensures
            r.wf(),
            r@ == (SourceModel {
                raw: Seq::empty(),
                base: 0,
                cursor: 0,
                source: Seq::empty(),
                rewrites: Seq::empty(),
            }),
    {
        let mut line_starts: Vec<usize> = Vec::new();
        line_starts.push(0);
        let r = StreamingSourceDoc {
            raw: Vec::new(),
            raw_base_offset: 0,
            raw_cursor: 0,
            source: String::new(),
            line_starts,
            rewrites: Vec::new(),
        };
        proof {
            assert(encode_utf8(r.source@) =~= Seq::<u8>::empty());
            assert(usize_seq_as_int(r.line_starts@) =~= line_starts_of(Seq::<u8>::empty()));
        }
        r
    }

    /// Receives more raw input.
    pub fn push_input(&mut self, bytes: &[u8])
        requires
            old(self).wf(),
            old(self)@.base + old(self)@.raw.len() + bytes@.len() <= usize::MAX,
            old(self)@.source.len() + old(self)@.raw.len() + bytes@.len() < size_limit(),
        ensures
            final(self).wf(),
            final(self)@ == (SourceModel { raw: old(self)@.raw + bytes@, ..old(self)@ }),
    {
        let mut i: usize = 0;
        while i < bytes.len()
            invariant
                self.wf(),
                i <= bytes@.len(),
                self@ == (SourceModel { raw: old(self)@.raw + bytes@.take(i as int), ..old(self)@ }),
                old(self).wf(),
                old(self)@.base + old(self)@.raw.len() + bytes@.len() <= usize::MAX,
                old(self)@.source.len() + old(self)@.raw.len() + bytes@.len() < size_limit(),
            decreases bytes@.len() - i,
        {
            self.raw.push(bytes[i]);
            i = i + 1;
            proof {
                assert(self.raw@ =~= old(self)@.raw + bytes@.take(i as int));
                assert(self@.rewrites == old(self)@.rewrites);
                assert(self@.source == old(self)@.source);
                assert forall|k: int| 0 <= k < self@.rewrites.len() implies {
                    &&& self@.rewrites[k].source_start + self@.rewrites[k].replacement_len <= self@.source.len()
                    &&& -(u32::MAX as int) <= self@.rewrites[k].cumulative_delta_after < size_limit()
                } by {
                    assert(self@.rewrites[k] == old(self)@.rewrites[k]);
                }
            }
        }
        proof {
            assert(bytes@.take(bytes@.len() as int) =~= bytes@);
        }
    }

    /// The canonical source text committed so far.
    pub fn source_text(&self) -> (r: &str)
        ensures
            r.spec_bytes() == self@.source,
    {
        self.source.as_str()
    }

    /// The line index of the committed source.
    pub fn line_index(&self) -> (r: LineIndex)
        requires
            self.wf(),
        ensures
            usize_seq_as_int(r.line_starts@) == line_starts_of(self@.source),
            r.len == self@.source.len(),
    {
        LineIndex::from_line_starts_and_len(self.line_starts.clone(), self.source.as_str().len())
    }

    /// Raw bytes received so far, held at `u32::MAX`.
    pub fn processed_bytes(&self) -> (r: u32)
        requires
            self.wf(),
        ensures
            r == model_processed_bytes(self@),
    {
        let total = self.raw_base_offset + self.raw.len();
        if total < 0xffff_ffff { total as u32 } else { 0xffff_ffffu32 }
    }

    fn compact_committed_raw(&mut self)
        requires
            usize_seq_as_int(old(self).line_starts@) == line_starts_of(encode_utf8(old(self).source@)),
            model_bounded(model_compact(old(self)@)),
        ensures
            final(self).wf(),
            final(self)@ == model_compact(old(self)@),
    {
        let consumed = if self.raw_cursor >= self.raw_base_offset {
            self.raw_cursor - self.raw_base_offset
        } else {
            0
        };
        if consumed == 0 {
            return;
        }
        let k = if consumed < self.raw.len() { consumed } else { self.raw.len() };
        let rest = self.raw.split_off(k);
        self.raw = rest;
        self.raw_base_offset = self.raw_cursor;
    }

    fn commit_raw_until(&mut self, end: usize) -> (r: Result<(), std::str::Utf8Error>)
        requires
            old(self).wf(),
        ensures
            final(self).wf(),
            match model_commit_until(old(self)@, end as int) {
                Some(m) => r is Ok && final(self)@ == m,
                None => r is Err && final(self)@ == old(self)@,
            },
            final(self)@.source.len() + final(self)@.raw.len() <= old(self)@.source.len() + old(self)@.raw.len(),
            final(self)@.rewrites == old(self)@.rewrites,
    {
        let total = self.raw_base_offset + self.raw.len();
        let end = if end < total { end } else { total };
        if end <= self.raw_cursor {
            return Ok(());
        }
        let start_index = if self.raw_cursor >= self.raw_base_offset {
            self.raw_cursor - self.raw_base_offset
        } else {
            0
        };
        let end_index = if end >= self.raw_base_offset { end - self.raw_base_offset } else { 0 };
        let chunk = &self.raw.as_slice()[start_index..end_index];
        let text = match str_from_utf8(chunk) {
            Ok(text) => text,
            Err(error) => return Err(error),
        };
        append_source_text_parts(&mut self.source, &mut self.line_starts, text);
        self.raw_cursor = end;
        self.compact_committed_raw();
        Ok(())
    }

    /// Commits all remaining raw input as source text.
    pub fn finish(&mut self) -> (r: Result<SourceDocUpdate, std::str::Utf8Error>)
        requires
            old(self).wf(),
        ensures
            final(self).wf(),
            match model_commit_until(old(self)@, old(self)@.base + old(self)@.raw.len()) {
                Some(m) => r == Ok::<SourceDocUpdate, std::str::Utf8Error>(model_update(old(self)@, m))
                    && final(self)@ == m,
                None => r is Err && final(self)@ == old(self)@,
            },
    {
        let line_count_before = self.line_starts.len();
        let end = self.raw_base_offset + self.raw.len();
        match self.commit_raw_until(end) {
            Ok(()) => {},
            Err(error) => return Err(error),
        }
        Ok(self.update_since(line_count_before, Ghost(old(self)@)))
    }

    fn update_since(&self, line_count_before: usize, Ghost(before): Ghost<SourceModel>) -> (r: SourceDocUpdate)
        requires
            self.wf(),
            line_count_before == model_line_count(before),
        ensures
            r == model_update(before, self@),
    {
        let after = self.line_starts.len();
        let appended = if after >= line_count_before { after - line_count_before } else { 0 };
        SourceDocUpdate { appended_line_count: appended as u32, processed_bytes: self.processed_bytes() }
    }
}


/// Rewrites with their raw starts in ascending order: the case for which
/// the partition index is the position that a binary search would give.
pub open spec fn rewrites_sorted(rws: Seq<AppliedRewrite>) -> bool {
    forall|i: int, j: int| 0 <= i < j < rws.len() ==> rws[i].raw_start <= rws[j].raw_start
}

proof fn lemma_partition_index(rws: Seq<AppliedRewrite>, raw: int, i: int)
    requires
        0 <= i <= rws.len(),
        forall|j: int| 0 <= j < i ==> rws[j].raw_start <= raw,
        i == rws.len() || rws[i].raw_start > raw,
    ensures
        rewrite_partition(rws, raw) == i,
    decreases i,
{
    if i > 0 {
        let rest = rws.drop_first();
        assert forall|j: int| 0 <= j < i - 1 implies rest[j].raw_start <= raw by {
            assert(rest[j] == rws[j + 1]);
        }
        if i - 1 < rest.len() {
            assert(rest[i - 1] == rws[i]);
        }
        lemma_partition_index(rest, raw, i - 1);
    }
}

proof fn lemma_apply_rewrites_step(m: SourceModel, rws: Seq<SourceRewrite>, i: int)
    requires
        0 <= i < rws.len(),
    ensures
        model_apply_rewrites(m, rws.skip(i)) == match model_apply_rewrite(m, rws[i]) {
            None => (m, false),
            Some(m1) => model_apply_rewrites(m1, rws.skip(i + 1)),
        },
        replacement_bytes(rws.skip(i)) == encode_utf8(rws[i].replacement@).len() + replacement_bytes(rws.skip(i + 1)),
{
    assert(rws.skip(i).drop_first() =~= rws.skip(i + 1));
    assert(rws.skip(i)[0] == rws[i]);
}

proof fn lemma_replacement_bytes_nonneg(rws: Seq<SourceRewrite>)
    ensures
        replacement_bytes(rws) >= 0,
    decreases rws.len(),
{
    if rws.len() > 0 {
        lemma_replacement_bytes_nonneg(rws.drop_first());
    }
}

fn rebase_event_with(doc: &StreamingSourceDoc, event: StreamingEvent) -> (r: StreamingEvent)
    requires
        doc.wf(),
    ensures
        r == model_rebase_event(doc@, event),
{
    doc.rebase_event(event)
}

/// The raw end position that committing `event` requires.
pub fn event_commit_end(event: &StreamingEvent) -> (r: Option<u32>)
    ensures
        r == Some(event_end(*event)),
{
    Some(
        match event {
            StreamingEvent::DocStart(meta) => meta.end_byte,
            StreamingEvent::DocEnd(meta) => meta.end_byte,
            StreamingEvent::MapStart(meta) => meta.end_byte,
            StreamingEvent::MapEnd(meta) => meta.end_byte,
            StreamingEvent::SeqStart(meta) => meta.end_byte,
            StreamingEvent::SeqEnd(meta) => meta.end_byte,
            StreamingEvent::MapKey { meta, .. } => meta.end_byte,
            StreamingEvent::Scalar { meta, .. } => meta.end_byte,
            StreamingEvent::Alias { meta, .. } => meta.end_byte,
            StreamingEvent::ParseError { meta, .. } => meta.end_byte,
        },
    )
}

impl StreamingSourceDoc {
    fn apply_rewrite(&mut self, rewrite: &SourceRewrite) -> (r: Result<(), std::str::Utf8Error>)
        requires
            old(self).wf(),
            old(self)@.source.len() + old(self)@.raw.len() + encode_utf8(rewrite.replacement@).len() < size_limit(),
        ensures
            final(self).wf(),
            match model_apply_rewrite(old(self)@, *rewrite) {
                Some(m) => r is Ok && final(self)@ == m,
                None => r is Err && final(self)@ == old(self)@,
            },
            final(self)@.source.len() + final(self)@.raw.len() <= old(self)@.source.len() + old(self)@.raw.len()
                + encode_utf8(rewrite.replacement@).len(),
    {
        let raw_start = rewrite.start_byte as usize;
        let raw_end = rewrite.old_end_byte as usize;
        if raw_end <= self.raw_cursor {
            return Ok(());
        }
        match self.commit_raw_until(raw_start) {
            Ok(()) => {},
            Err(error) => return Err(error),
        }
        let source_start = self.source.as_str().len();
        append_source_text_parts(&mut self.source, &mut self.line_starts, rewrite.replacement.as_str());
        self.raw_cursor = raw_end;
        let source_len = self.source.as_str().len();
        let cumulative_delta_after = source_len as i64 - raw_end as i64;
        self.rewrites.push(
            AppliedRewrite {
                raw_start,
                raw_end,
                source_start,
                replacement_len: rewrite.replacement.as_str().len(),
                cumulative_delta_after,
            },
        );
        self.compact_committed_raw();
        Ok(())
    }

    /// The source position that a raw position maps to, given the rewrites
    /// spliced in so far.
    pub fn map_offset(&self, offset: u32) -> (r: u32)
        requires
            self.wf(),
        ensures
            r == model_map_offset(self@, offset),
    {
        let raw = offset as usize;
        let mut index: usize = 0;
        while index < self.rewrites.len() && self.rewrites[index].raw_start <= raw
            invariant
                index <= self.rewrites@.len(),
                forall|j: int| 0 <= j < index ==> self.rewrites@[j].raw_start <= raw,
            decreases self.rewrites@.len() - index,
        {
            index = index + 1;
        }
        proof {
            lemma_partition_index(self.rewrites@, raw as int, index as int);
        }
        if index == 0 {
            return offset;
        }
        let rewrite = self.rewrites[index - 1];
        proof {
            let k = index - 1;
            assert(self@.rewrites[k as int] == rewrite);
        }
        if raw <= rewrite.raw_end {
            let inner = if raw >= rewrite.raw_start { raw - rewrite.raw_start } else { 0 };
            let clamped = if inner <= rewrite.replacement_len { inner } else { rewrite.replacement_len };
            let total = rewrite.source_start + clamped;
            return if total <= 0xffff_ffff { total as u32 } else { 0xffff_ffffu32 };
        }
        let mapped = raw as i64 + rewrite.cumulative_delta_after;
        if mapped < 0 {
            0
        } else if mapped > 0xffff_ffff {
            0xffff_ffffu32
        } else {
            mapped as u32
        }
    }

    /// Line and column (from zero) of a source offset, clamped to the source.
    pub fn offset_to_line_column(&self, offset: usize) -> (r: LineColumn)
        requires
            self.wf(),
        ensures
            r == model_line_column(self@, offset as int),
    {
        let len = self.source.as_str().len();
        let clamped = if offset <= len { offset } else { len };
        proof {
            lemma_line_starts_well_formed(encode_utf8(self.source@));
        }
        let line = find_line(&self.line_starts, clamped);
        proof {
            lemma_line_unique(usize_seq_as_int(self.line_starts@), clamped as int, line as int);
            assert(usize_seq_as_int(self.line_starts@)[line as int] == self.line_starts@[line as int] as int);
        }
        LineColumn { line: line as u32, column: (clamped - self.line_starts[line]) as u32 }
    }

    fn rebase_meta(&self, meta: Meta) -> (r: Meta)
        requires
            self.wf(),
        ensures
            r == model_rebase_meta(self@, meta),
    {
        let start_byte = self.map_offset(meta.start_byte);
        let end_byte = self.map_offset(meta.end_byte);
        let line_column = self.offset_to_line_column(start_byte as usize);
        Meta {
            start_byte,
            end_byte,
            line: (line_column.line as i32).wrapping_add(1),
            column: (line_column.column as i32).wrapping_add(1),
        }
    }

    fn rebase_event(&self, event: StreamingEvent) -> (r: StreamingEvent)
        requires
            self.wf(),
        ensures
            r == model_rebase_event(self@, event),
    {
        match event {
            StreamingEvent::DocStart(meta) => StreamingEvent::DocStart(self.rebase_meta(meta)),
            StreamingEvent::DocEnd(meta) => StreamingEvent::DocEnd(self.rebase_meta(meta)),
            StreamingEvent::MapStart(meta) => StreamingEvent::MapStart(self.rebase_meta(meta)),
            StreamingEvent::MapKey { value, meta } => StreamingEvent::MapKey {
                value,
                meta: self.rebase_meta(meta),
            },
            StreamingEvent::MapEnd(meta) => StreamingEvent::MapEnd(self.rebase_meta(meta)),
            StreamingEvent::SeqStart(meta) => StreamingEvent::SeqStart(self.rebase_meta(meta)),
            StreamingEvent::SeqEnd(meta) => StreamingEvent::SeqEnd(self.rebase_meta(meta)),
            StreamingEvent::Scalar { value, meta } => StreamingEvent::Scalar {
                value,
                meta: self.rebase_meta(meta),
            },
            StreamingEvent::Alias { anchor, meta } => StreamingEvent::Alias {
                anchor,
                meta: self.rebase_meta(meta),
            },
            StreamingEvent::ParseError { message, meta } => StreamingEvent::ParseError {
                message,
                meta: self.rebase_meta(meta),
            },
        }
    }

    /// Applies the decoder's rewrites, commits raw input up to the furthest
    /// event end, and returns the events with offsets and locations mapped
    /// into the source text.
    pub fn commit_events(&mut self, events: Vec<StreamingEvent>, rewrites: Vec<SourceRewrite>) -> (r: Result<
        (Vec<StreamingEvent>, SourceDocUpdate),
        std::str::Utf8Error,
    >)
        requires
            old(self).wf(),
            old(self)@.source.len() + old(self)@.raw.len() + replacement_bytes(rewrites@) < size_limit(),
        ensures
            final(self).wf(),
            ({
                let (m1, all_applied) = model_apply_rewrites(old(self)@, rewrites@);
                if !all_applied {
                    r is Err && final(self)@ == m1
                } else {
                    match model_commit_until(m1, max_event_end(events@, m1.cursor as u32) as int) {
                        None => r is Err && final(self)@ == m1,
                        Some(m2) => final(self)@ == m2 && match r {
                            Ok((out, update)) => out@ == events@.map_values(
                                |e: StreamingEvent| model_rebase_event(m2, e),
                            ) && update == model_update(old(self)@, m2),
                            Err(_) => false,
                        },
                    }
                }
            }),
    {
        let line_count_before = self.line_starts.len();
        let ghost start = self@;
        let mut i: usize = 0;
        proof {
            assert(rewrites@.skip(0) =~= rewrites@);
        }
        while i < rewrites.len()
            invariant
                self.wf(),
                i <= rewrites@.len(),
                model_apply_rewrites(start, rewrites@) == model_apply_rewrites(self@, rewrites@.skip(i as int)),
                self@.source.len() + self@.raw.len() + replacement_bytes(rewrites@.skip(i as int)) < size_limit(),
                line_count_before == model_line_count(start),
                start == old(self)@,
            decreases rewrites@.len() - i,
        {
            proof {
                lemma_apply_rewrites_step(self@, rewrites@, i as int);
                lemma_replacement_bytes_nonneg(rewrites@.skip(i + 1));
            }
            match self.apply_rewrite(&rewrites[i]) {
                Ok(()) => {},
                Err(error) => return Err(error),
            }
            i = i + 1;
        }
        proof {
            assert(rewrites@.skip(rewrites@.len() as int) =~= Seq::<SourceRewrite>::empty());
        }
        let ghost m1 = self@;
        let default_end = self.raw_cursor as u32;
        let mut max_end = default_end;
        let mut k: usize = 0;
        while k < events.len()
            invariant
                k <= events@.len(),
                max_end == max_event_end(events@.take(k as int), default_end),
            decreases events@.len() - k,
        {
            let end = match event_commit_end(&events[k]) {
                Some(end) => end,
                None => default_end,
            };
            proof {
                assert(events@.take(k + 1).drop_last() =~= events@.take(k as int));
                assert(events@.take(k + 1).last() == events@[k as int]);
            }
            if k == 0 || end > max_end {
                max_end = end;
            }
            k = k + 1;
        }
        proof {
            assert(events@.take(events@.len() as int) =~= events@);
        }
        match self.commit_raw_until(max_end as usize) {
            Ok(()) => {},
            Err(error) => return Err(error),
        }
        let ghost m2 = self@;
        let ghost orig = events@;
        let n = events.len();
        let mut pending = events;
        let mut reversed: Vec<StreamingEvent> = Vec::new();
        while pending.len() > 0
            invariant
                pending@.len() + reversed@.len() == n,
                n == orig.len(),
                pending@ == orig.take(pending@.len() as int),
                forall|j: int| 0 <= j < reversed@.len() ==> reversed@[j] == orig[n - 1 - j],
            decreases pending@.len(),
        {
            let e = pending.pop().unwrap();
            reversed.push(e);
            proof {
                assert(pending@ =~= orig.take(pending@.len() as int));
            }
        }
        let mut out: Vec<StreamingEvent> = Vec::new();
        while reversed.len() > 0
            invariant
                self.wf(),
                self@ == m2,
                out@.len() + reversed@.len() == n,
                n == orig.len(),
                forall|j: int| 0 <= j < reversed@.len() ==> reversed@[j] == orig[n - 1 - j],
                forall|j: int| 0 <= j < out@.len() ==> out@[j] == model_rebase_event(m2, orig[j]),
            decreases reversed@.len(),
        {
            let e = reversed.pop().unwrap();
            let rebased = rebase_event_with(self, e);
            out.push(rebased);
        }
        proof {
            assert(out@ =~= orig.map_values(|e: StreamingEvent| model_rebase_event(m2, e)));
        }
        let update = self.update_since(line_count_before, Ghost(old(self)@));
        Ok((out, update))
    }
}

} // verus!
