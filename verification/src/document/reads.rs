//! Reads of a snapshot's analysis: slices of its source by byte offsets,
//! and its semantic tokens projected onto a part of the source.
use vstd::prelude::*;
use super::snapshot::AnalysisBundle;
use crate::line_index::{
    clamp_offset, line_column_at, usize_seq_as_int, LineIndex,
};
use crate::text::{chars_of, lemma_utf8_len_strict, push_char, utf8_len, utf8_offsets};

verus! {

/// The character position of `c` whose prefix is `b` bytes long, where
/// there is one: `b` falls between two characters.
pub open spec fn char_pos(c: Seq<char>, b: int) -> Option<int> {
    if exists|i: int| 0 <= i <= c.len() && #[trigger] utf8_len(c.take(i)) == b {
        Some(choose|i: int| 0 <= i <= c.len() && #[trigger] utf8_len(c.take(i)) == b)
    } else {
        None
    }
}

/// `str::get(a..b)`: the characters between two byte offsets, where both
/// fall between characters and the first is not after the second.
pub open spec fn byte_slice(c: Seq<char>, a: int, b: int) -> Option<Seq<char>> {
    match (char_pos(c, a), char_pos(c, b)) {
        (Some(i), Some(j)) => if a <= b {
            Some(c.subrange(i, j))
        } else {
            None
        },
        _ => None,
    }
}

/// The number of UTF-16 code units of a text.
pub open spec fn utf16_len(s: Seq<char>) -> nat
    decreases s.len(),
{
    if s.len() == 0 {
        0
    } else {
        utf16_len(s.drop_last()) + if (s[s.len() - 1] as u32) >= 0x10000 {
            2nat
        } else {
            1nat
        }
    }
}

proof fn lemma_char_pos(c: Seq<char>, b: int, i: int)
    requires
        0 <= i <= c.len(),
        utf8_len(c.take(i)) == b,
    ensures
        char_pos(c, b) == Some(i),
{
    let k = choose|k: int| 0 <= k <= c.len() && #[trigger] utf8_len(c.take(k)) == b;
    assert(0 <= k <= c.len() && utf8_len(c.take(k)) == b);
    if k < i {
        lemma_utf8_len_strict(c, k, i);
    }
    if i < k {
        lemma_utf8_len_strict(c, i, k);
    }
}

/// The character position at byte offset `b`, given the byte offsets of
/// all positions.
fn char_pos_of(c: &Vec<char>, offsets: &Vec<usize>, b: usize) -> (r: Option<usize>)
    requires
        offsets@.len() == c@.len() + 1,
        forall|i: int| 0 <= i <= c@.len() ==> offsets@[i] == utf8_len(#[trigger] c@.take(i)),
    ensures
        r matches Some(i) ==> char_pos(c@, b as int) == Some(i as int),
        r is None ==> char_pos(c@, b as int) is None,
{
    let mut i: usize = 0;
    while i < offsets.len()
        invariant
            offsets@.len() == c@.len() + 1,
            forall|j: int| 0 <= j <= c@.len() ==> offsets@[j] == utf8_len(#[trigger] c@.take(j)),
            i <= offsets@.len(),
            forall|j: int| 0 <= j < i ==> utf8_len(#[trigger] c@.take(j)) != b,
        decreases offsets@.len() - i,
    {
        if offsets[i] == b {
            proof {
                lemma_char_pos(c@, b as int, i as int);
            }
            return Some(i);
        }
        i = i + 1;
    }
    None
}

/// The characters of `c[i..j]` as a string.
fn string_between(c: &Vec<char>, i: usize, j: usize) -> (r: String)
    requires
        i <= j <= c@.len(),
    ensures
        r@ == c@.subrange(i as int, j as int),
{
    let mut out = String::new();
    let mut k = i;
    while k < j
        invariant
            i <= k <= j <= c@.len(),
            out@ == c@.subrange(i as int, k as int),
        decreases j - k,
    {
        push_char(&mut out, c[k]);
        k = k + 1;
        proof {
            assert(out@ =~= c@.subrange(i as int, k as int));
        }
    }
    out
}

fn slice_of(c: &Vec<char>, offsets: &Vec<usize>, a: usize, b: usize) -> (r: Option<String>)
    requires
        offsets@.len() == c@.len() + 1,
        forall|i: int| 0 <= i <= c@.len() ==> offsets@[i] == utf8_len(#[trigger] c@.take(i)),
    ensures
        r matches Some(t) ==> byte_slice(c@, a as int, b as int) == Some(t@),
        r is None ==> byte_slice(c@, a as int, b as int) is None,
{
    let i = match char_pos_of(c, offsets, a) {
        Some(i) => i,
        None => {
            return None;
        },
    };
    let j = match char_pos_of(c, offsets, b) {
        Some(j) => j,
        None => {
            return None;
        },
    };
    if a <= b {
        proof {
            if j < i {
                lemma_utf8_len_strict(c@, j as int, i as int);
            }
        }
        Some(string_between(c, i, j))
    } else {
        None
    }
}

/// The source text between two byte offsets (see [`byte_slice`]); empty
/// where they do not mark out characters of the source.
pub open spec fn source_slice(source: Seq<char>, start: int, end: int) -> Seq<char> {
    if start <= end && end <= utf8_len(source) {
        match byte_slice(source, start, end) {
            Some(t) => t,
            None => Seq::empty(),
        }
    } else {
        Seq::empty()
    }
}

/// The source text between two byte offsets (see [`source_slice`]).
pub fn source_slice_by_bytes(source: &str, start: u32, end: u32) -> (r: String)
    ensures
        r@ == source_slice(source@, start as int, end as int),
{
    let c = chars_of(source);
    let len = source.as_bytes().len();
    proof {
        assert(len == utf8_len(source@));
    }
    if (start as usize) <= (end as usize) && (end as usize) <= len {
        let offsets = utf8_offsets(&c);
        match slice_of(&c, &offsets, start as usize, end as usize) {
            Some(t) => t,
            None => String::new(),
        }
    } else {
        String::new()
    }
}

fn utf16_count(s: &Vec<char>) -> (r: u128)
    ensures
        r == utf16_len(s@),
{
    let mut n: u128 = 0;
    let mut i: usize = 0;
    while i < s.len()
        invariant
            i <= s@.len(),
            n == utf16_len(s@.take(i as int)),
            n <= 2 * i,
        decreases s@.len() - i,
    {
        proof {
            assert(s@.take(i + 1).drop_last() =~= s@.take(i as int));
        }
        if (s[i] as u32) >= 0x10000 {
            n = n + 2;
        } else {
            n = n + 1;
        }
        i = i + 1;
    }
    proof {
        assert(s@.take(s@.len() as int) =~= s@);
    }
    n
}

/// The line of a byte offset, and its column counted in UTF-16 units: the
/// offset is clamped to the source, its line found in the line index, and
/// the columns counted over the source from the line's start.
pub open spec fn utf16_position(source: Seq<char>, index: LineIndex, byte_offset: int) -> Option<(u32, u32)> {
    let offset = if byte_offset <= utf8_len(source) {
        byte_offset
    } else {
        utf8_len(source) as int
    };
    let position = line_column_at(usize_seq_as_int(index.line_starts@), clamp_offset(offset, index.len as int));
    if position.line < index.line_starts@.len() {
        match byte_slice(source, index.line_starts@[position.line as int] as int, offset) {
            Some(prefix) => Some((position.line, utf16_len(prefix) as u32)),
            None => None,
        }
    } else {
        None
    }
}

fn utf16_position_at_byte_offset(analysis: &AnalysisBundle, c: &Vec<char>, offsets: &Vec<usize>, byte_offset: u32) -> (r: Option<(u32, u32)>)
    requires
        analysis.line_index.wf(),
        c@ == analysis.source@,
        offsets@.len() == c@.len() + 1,
        forall|i: int| 0 <= i <= c@.len() ==> offsets@[i] == utf8_len(#[trigger] c@.take(i)),
    ensures
        r == utf16_position(analysis.source@, analysis.line_index, byte_offset as int),
{
    let len = analysis.source.as_str().as_bytes().len();
    let offset: usize = if (byte_offset as usize) <= len {
        byte_offset as usize
    } else {
        len
    };
    let position = analysis.line_index.offset_to_line_column(offset);
    if (position.line as usize) < analysis.line_index.line_starts.len() {
        let line_start = analysis.line_index.line_starts[position.line as usize];
        match slice_of(c, offsets, line_start, offset) {
            Some(prefix) => {
                let pc = chars_of(prefix.as_str());
                let n = utf16_count(&pc);
                Some((position.line, n as u32))
            },
            None => None,
        }
    } else {
        None
    }
}


/// `a + b`, held at `u32::MAX`.
pub open spec fn sat_add(a: u32, b: u32) -> u32 {
    if a + b > u32::MAX {
        u32::MAX
    } else {
        (a + b) as u32
    }
}

/// `a - b`, held at zero.
pub open spec fn sat_sub(a: u32, b: u32) -> u32 {
    if a >= b {
        (a - b) as u32
    } else {
        0
    }
}

/// `<` on positions: by line, then by column.
pub open spec fn pair_lt(a: (u32, u32), b: (u32, u32)) -> bool {
    a.0 < b.0 || (a.0 == b.0 && a.1 < b.1)
}

/// The line reached after the first `k` tokens: the sum of their line
/// deltas.
pub open spec fn line_after(toks: Seq<u32>, k: int) -> int
    decreases k,
{
    if k <= 0 {
        0
    } else {
        line_after(toks, k - 1) + toks[5 * (k - 1)]
    }
}

/// The tokens' lines stay within `u32`.
pub open spec fn lines_fit(toks: Seq<u32>) -> bool {
    forall|k: int| 0 <= k <= toks.len() / 5 ==> #[trigger] line_after(toks, k) <= u32::MAX
}

/// The tokens from the `k`-th on that lie within `start..end`, moved to
/// count from `start` and encoded relative to the one before, as
/// (line delta, column delta, length, type, modifiers); the scan is at
/// `line` and `column`, the last token kept at `prev`.
pub open spec fn project_from(
    toks: Seq<u32>,
    k: int,
    line: u32,
    column: u32,
    prev: (u32, u32),
    start: (u32, u32),
    end: (u32, u32),
) -> Seq<u32>
    decreases toks.len() - 5 * k,
{
    if k < 0 || 5 * k + 5 > toks.len() {
        Seq::empty()
    } else {
        let b = 5 * k;
        let line2 = (line + toks[b]) as u32;
        let column2 = if toks[b] == 0 {
            sat_add(column, toks[b + 1])
        } else {
            toks[b + 1]
        };
        if pair_lt((line2, column2), start) || pair_lt(end, (line2, sat_add(column2, toks[b + 2]))) {
            project_from(toks, k + 1, line2, column2, prev, start, end)
        } else {
            let pl = sat_sub(line2, start.0);
            let pc = if line2 == start.0 {
                sat_sub(column2, start.1)
            } else {
                column2
            };
            let dl = sat_sub(pl, prev.0);
            let ds = if dl == 0 {
                sat_sub(pc, prev.1)
            } else {
                pc
            };
            seq![dl, ds, toks[b + 2], toks[b + 3], toks[b + 4]] + project_from(
                toks,
                k + 1,
                line2,
                column2,
                (pl, pc),
                start,
                end,
            )
        }
    }
}

/// The semantic tokens of the analysis that lie within the bytes
/// `start_byte..end_byte`, encoded as if that part were the whole source;
/// none where either end has no position.
pub open spec fn projected_tokens(a: AnalysisBundle, start_byte: int, end_byte: int) -> Seq<u32> {
    match (utf16_position(a.source@, a.line_index, start_byte), utf16_position(a.source@, a.line_index, end_byte)) {
        (Some(s), Some(e)) => project_from(a.semantic_tokens@, 0, 0, 0, (0, 0), s, e),
        _ => Seq::empty(),
    }
}

fn add_sat(a: u32, b: u32) -> (r: u32)
    ensures
        r == sat_add(a, b),
{
    if a as u64 + b as u64 > u32::MAX as u64 {
        u32::MAX
    } else {
        a + b
    }
}

fn sub_sat(a: u32, b: u32) -> (r: u32)
    ensures
        r == sat_sub(a, b),
{
    if a >= b {
        a - b
    } else {
        0
    }
}

/// The semantic tokens within `start_byte..end_byte` (see
/// [`projected_tokens`]).
pub fn project_semantic_tokens(analysis: &AnalysisBundle, start_byte: u32, end_byte: u32) -> (r: Vec<u32>)
    requires
        analysis.line_index.wf(),
        lines_fit(analysis.semantic_tokens@),
    ensures
        r@ == projected_tokens(*analysis, start_byte as int, end_byte as int),
{
    let c = chars_of(analysis.source.as_str());
    let len = analysis.source.as_str().as_bytes().len();
    proof {
        assert(len == utf8_len(c@));
    }
    let offsets = utf8_offsets(&c);
    let start = match utf16_position_at_byte_offset(analysis, &c, &offsets, start_byte) {
        Some(p) => p,
        None => {
            return Vec::new();
        },
    };
    let end = match utf16_position_at_byte_offset(analysis, &c, &offsets, end_byte) {
        Some(p) => p,
        None => {
            return Vec::new();
        },
    };
    let toks = &analysis.semantic_tokens;
    let ghost all = project_from(toks@, 0, 0, 0, (0, 0), start, end);
    let mut line: u32 = 0;
    let mut column: u32 = 0;
    let mut previous: (u32, u32) = (0, 0);
    let mut projected: Vec<u32> = Vec::new();
    let mut b: usize = 0;
    let ghost mut k: int = 0;
    proof {
        assert(projected@ + project_from(toks@, 0, 0, 0, (0, 0), start, end) =~= all);
    }
    while toks.len() - b >= 5
        invariant
            b <= toks@.len(),
            b == 5 * k,
            0 <= k,
            lines_fit(toks@),
            line == line_after(toks@, k),
            all == project_from(toks@, 0, 0, 0, (0, 0), start, end),
            projected@ + project_from(toks@, k, line, column, previous, start, end) == all,
        decreases toks@.len() - b,
    {
        proof {
            assert(line_after(toks@, k + 1) == line_after(toks@, k) + toks@[b as int]);
            assert((k + 1) <= toks@.len() / 5);
            assert(line_after(toks@, k + 1) <= u32::MAX);
        }
        let d0 = toks[b];
        let d1 = toks[b + 1];
        let d2 = toks[b + 2];
        let d3 = toks[b + 3];
        let d4 = toks[b + 4];
        let ghost before = projected@;
        let ghost old_line = line;
        let ghost old_column = column;
        let ghost old_prev = previous;
        line = line + d0;
        column = if d0 == 0 {
            add_sat(column, d1)
        } else {
            d1
        };
        let token_end_column = add_sat(column, d2);
        let starts_before = line < start.0 || (line == start.0 && column < start.1);
        let ends_after = end.0 < line || (end.0 == line && end.1 < token_end_column);
        if !(starts_before || ends_after) {
            let projected_line = sub_sat(line, start.0);
            let projected_column = if line == start.0 {
                sub_sat(column, start.1)
            } else {
                column
            };
            let delta_line = sub_sat(projected_line, previous.0);
            let delta_start = if delta_line == 0 {
                sub_sat(projected_column, previous.1)
            } else {
                projected_column
            };
            projected.push(delta_line);
            projected.push(delta_start);
            projected.push(d2);
            projected.push(d3);
            projected.push(d4);
            previous = (projected_line, projected_column);
            proof {
                assert(projected@ =~= before + seq![delta_line, delta_start, d2, d3, d4]);
                assert(project_from(toks@, k, old_line, old_column, old_prev, start, end) == seq![delta_line, delta_start, d2, d3, d4] + project_from(toks@, k + 1, line, column, previous, start, end));
                assert(before + (seq![delta_line, delta_start, d2, d3, d4] + project_from(toks@, k + 1, line, column, previous, start, end)) =~= projected@ + project_from(toks@, k + 1, line, column, previous, start, end));
            }
        }
        b = b + 5;
        proof {
            k = k + 1;
        }
    }
    proof {
        assert(project_from(toks@, k, line, column, previous, start, end) =~= Seq::<u32>::empty());
        assert(projected@ + Seq::<u32>::empty() =~= projected@);
    }
    projected
}

} // verus!
