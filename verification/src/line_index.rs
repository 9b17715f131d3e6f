//! Line starts of a text, and the mapping from byte offsets to line and
//! column.
use vstd::prelude::*;
use vstd::string::StringSliceAdditionalSpecFns;

verus! {

/// Byte offsets at which the lines of `b` start: `0`, then one past each
/// newline byte.
pub open spec fn line_starts_of(b: Seq<u8>) -> Seq<int>
    decreases b.len(),
{
    if b.len() == 0 {
        seq![0]
    } else {
        let prev = line_starts_of(b.drop_last());
        if b.last() == 10u8 {
            prev.push(b.len() as int)
        } else {
            prev
        }
    }
}

/// A sequence of line starts: begins at zero and strictly increases.
pub open spec fn starts_well_formed(s: Seq<int>) -> bool {
    &&& s.len() >= 1
    &&& s[0] == 0
    &&& forall|i: int, j: int| 0 <= i < j < s.len() ==> s[i] < s[j]
}

/// The line that holds offset `off`: the last start at or before it.
pub open spec fn is_line_of(s: Seq<int>, off: int, line: int) -> bool {
    &&& 0 <= line < s.len()
    &&& s[line] <= off
    &&& (line + 1 < s.len() ==> off < s[line + 1])
}

pub open spec fn usize_seq_as_int(s: Seq<usize>) -> Seq<int> {
    s.map_values(|x: usize| x as int)
}

pub proof fn lemma_line_starts_well_formed(b: Seq<u8>)
    ensures
        starts_well_formed(line_starts_of(b)),
        forall|i: int| 0 <= i < line_starts_of(b).len() ==> line_starts_of(b)[i] <= b.len(),
    decreases b.len(),
{
    if b.len() > 0 {
        lemma_line_starts_well_formed(b.drop_last());
    }
}

/// Line starts of `a + t` are those of `a`, then one past each newline of
/// `t`, shifted by `a.len()`.
pub proof fn lemma_line_starts_step(a: Seq<u8>, t: Seq<u8>, i: int)
    requires
        0 <= i < t.len(),
    ensures
        line_starts_of(a + t.take(i + 1)) == if t[i] == 10u8 {
            line_starts_of(a + t.take(i)).push(a.len() + i + 1)
        } else {
            line_starts_of(a + t.take(i))
        },
{
    let c = a + t.take(i + 1);
    assert(c.drop_last() =~= a + t.take(i));
    assert(c.last() == t[i]);
}

/// The number of newline bytes in `t`.
pub open spec fn newline_count(t: Seq<u8>) -> int
    decreases t.len(),
{
    if t.len() == 0 {
        0
    } else {
        newline_count(t.drop_last()) + if t.last() == 10u8 { 1int } else { 0int }
    }
}

/// Where the last line of `t` starts: one past its last newline byte, or
/// zero where it has none.
pub open spec fn last_line_start(t: Seq<u8>) -> int
    decreases t.len(),
{
    if t.len() == 0 {
        0
    } else if t.last() == 10u8 {
        t.len() as int
    } else {
        last_line_start(t.drop_last())
    }
}

/// Appending `t` to `a` keeps the line starts of `a`, adds one for each
/// newline byte of `t`, and each added one lies past the end of `a`.
pub proof fn lemma_line_count_append(a: Seq<u8>, t: Seq<u8>)
    ensures
        line_starts_of(a + t).len() == line_starts_of(a).len() + newline_count(t),
        0 <= newline_count(t) <= t.len(),
        forall|i: int| 0 <= i < line_starts_of(a).len() ==> #[trigger] line_starts_of(a + t)[i] == line_starts_of(a)[i],
        forall|i: int| line_starts_of(a).len() <= i < line_starts_of(a + t).len() ==> #[trigger] line_starts_of(a + t)[i] > a.len(),
    decreases t.len(),
{
    if t.len() == 0 {
        assert(a + t =~= a);
    } else {
        let c = a + t;
        assert(c.drop_last() =~= a + t.drop_last());
        assert(c.last() == t.last());
        lemma_line_count_append(a, t.drop_last());
    }
}

/// Neither the newline count of `t` nor the start of its last line exceeds
/// its length.
pub proof fn lemma_last_line_start_bounds(t: Seq<u8>)
    ensures
        0 <= newline_count(t) <= t.len(),
        0 <= last_line_start(t) <= t.len(),
{
    lemma_last_line_start(t);
    lemma_line_count_append(t, Seq::<u8>::empty());
    lemma_line_count_append(Seq::<u8>::empty(), t);
    assert(Seq::<u8>::empty() + t =~= t);
}

/// The line starts of `t` number one more than its newline bytes, and the
/// last of them is where its last line starts.
proof fn lemma_last_line_start(t: Seq<u8>)
    ensures
        line_starts_of(t).len() == newline_count(t) + 1,
        line_starts_of(t).last() == last_line_start(t),
        0 <= last_line_start(t) <= t.len(),
    decreases t.len(),
{
    if t.len() > 0 {
        lemma_last_line_start(t.drop_last());
    }
}

/// The line of an offset (from zero) is the number of newline bytes before
/// it, and its column is how far it lies past the last of them.
pub proof fn law_line_and_column_count_newlines(b: Seq<u8>, o: int)
    requires
        0 <= o <= b.len(),
        b.len() <= u32::MAX,
    ensures
        line_column_at(line_starts_of(b), o) == (LineColumn {
            line: newline_count(b.take(o)) as u32,
            column: (o - last_line_start(b.take(o))) as u32,
        }),
{
    let p = b.take(o);
    let rest = b.skip(o);
    assert(p + rest =~= b);
    lemma_line_count_append(p, rest);
    lemma_last_line_start(p);
    lemma_line_starts_well_formed(b);
    let s = line_starts_of(b);
    let k = newline_count(p);
    assert(s[k] == line_starts_of(p)[k]);
    assert(is_line_of(s, o, k));
    lemma_line_unique(s, o, k);
}

#[derive(Debug, Clone, Copy, PartialEq, Eq, Default)]
pub struct LineColumn {
    pub line: u32,
    pub column: u32,
}

/// The line starts of a text together with its byte length.
#[derive(Debug, Clone, PartialEq, Eq, Default)]
pub struct LineIndex {
    pub line_starts: Vec<usize>,
    pub len: usize,
}

/// Appends to `starts` one past each newline byte of `t`, shifted by `base`.
pub fn push_line_starts(starts: &mut Vec<usize>, base: usize, t: &[u8], Ghost(a): Ghost<Seq<u8>>)
    requires
        usize_seq_as_int(old(starts)@) == line_starts_of(a),
        a.len() == base,
        base + t@.len() <= usize::MAX,
    ensures
        usize_seq_as_int(final(starts)@) == line_starts_of(a + t@),
{
    let mut i: usize = 0;
    while i < t.len()
        invariant
            i <= t@.len(),
            a.len() == base,
            base + t@.len() <= usize::MAX,
            usize_seq_as_int(starts@) == line_starts_of(a + t@.take(i as int)),
        decreases t@.len() - i,
    {
        proof {
            lemma_line_starts_step(a, t@, i as int);
        }
        if t[i] == 10u8 {
            starts.push(base + i + 1);
            assert(usize_seq_as_int(starts@) =~= line_starts_of(a + t@.take(i + 1)));
        }
        i = i + 1;
    }
    assert(t@.take(t@.len() as int) =~= t@);
}

/// The index of the line that holds `off` within sorted line starts.
pub fn find_line(starts: &Vec<usize>, off: usize) -> (line: usize)
    requires
        starts_well_formed(usize_seq_as_int(starts@)),
    ensures
        is_line_of(usize_seq_as_int(starts@), off as int, line as int),
{
    let ghost s = usize_seq_as_int(starts@);
    let mut lo: usize = 0;
    let mut hi: usize = starts.len();
    while hi - lo > 1
        invariant
            s == usize_seq_as_int(starts@),
            starts_well_formed(s),
            0 <= lo < hi <= starts@.len(),
            s[lo as int] <= off,
            hi < starts@.len() ==> off < s[hi as int],
        decreases hi - lo,
    {
        let mid = lo + (hi - lo) / 2;
        if starts[mid] <= off {
            lo = mid;
        } else {
            hi = mid;
        }
    }
    proof {
        if lo + 1 < s.len() {
            assert(hi == lo + 1);
        }
    }
    lo
}

impl LineIndex {
    /// Well-formed line starts that all lie within the text.
    pub open spec fn wf(&self) -> bool {
        &&& starts_well_formed(usize_seq_as_int(self.line_starts@))
        &&& forall|i: int| 0 <= i < self.line_starts@.len() ==> self.line_starts@[i] <= self.len
    }

    pub fn from_line_starts_and_len(line_starts: Vec<usize>, len: usize) -> (r: Self)
        ensures
            r.line_starts == line_starts,
            r.len == len,
    {
        LineIndex { line_starts, len }
    }

    /// The line starts of `source`.
    pub fn build(source: &str) -> (r: Self)
        ensures
            usize_seq_as_int(r.line_starts@) == line_starts_of(source.spec_bytes()),
            r.len == source.spec_bytes().len(),
            r.wf(),
    {
        let bytes = source.as_bytes();
        let mut starts: Vec<usize> = Vec::new();
        starts.push(0);
        proof {
            assert(usize_seq_as_int(starts@) =~= line_starts_of(Seq::<u8>::empty()));
        }
        let n = bytes.len();
        push_line_starts(&mut starts, 0, bytes, Ghost(Seq::<u8>::empty()));
        proof {
            assert(Seq::<u8>::empty() + bytes@ =~= bytes@);
            lemma_line_starts_well_formed(bytes@);
            assert forall|i: int| 0 <= i < starts@.len() implies starts@[i] <= n by {
                assert(usize_seq_as_int(starts@)[i] == starts@[i] as int);
            }
        }
        LineIndex { line_starts: starts, len: bytes.len() }
    }

    /// Line and column (both from zero, column in bytes) of an offset,
    /// clamped to the text length.
    pub fn offset_to_line_column(&self, offset: usize) -> (r: LineColumn)
        requires
            self.wf(),
        ensures
            r == line_column_at(usize_seq_as_int(self.line_starts@), clamp_offset(offset as int, self.len as int)),
    {
        let clamped = if offset <= self.len { offset } else { self.len };
        let line = find_line(&self.line_starts, clamped);
        proof {
            lemma_line_unique(usize_seq_as_int(self.line_starts@), clamped as int, line as int);
        }
        LineColumn { line: line as u32, column: (clamped - self.line_starts[line]) as u32 }
    }
}

/// `off` clamped to `len`.
pub open spec fn clamp_offset(off: int, len: int) -> int {
    if off <= len { off } else { len }
}

/// The line of `off` within the starts `s`.
pub open spec fn line_of(s: Seq<int>, off: int) -> int {
    choose|line: int| is_line_of(s, off, line)
}

/// Line and column of `off`, both from zero.
pub open spec fn line_column_at(s: Seq<int>, off: int) -> LineColumn {
    LineColumn { line: line_of(s, off) as u32, column: (off - s[line_of(s, off)]) as u32 }
}

/// Within well-formed starts every offset lies on exactly one line.
pub proof fn lemma_line_unique(s: Seq<int>, off: int, line: int)
    requires
        starts_well_formed(s),
        is_line_of(s, off, line),
    ensures
        line_of(s, off) == line,
{
    let other = line_of(s, off);
    assert(is_line_of(s, off, other));
    if other < line {
        assert(s[other + 1] <= s[line]);
    } else if other > line {
        assert(s[line + 1] <= s[other]);
    }
}

} // verus!
