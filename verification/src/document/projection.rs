//! Hover projections built on committed snapshots, and the paths that
//! name their roots.
use vstd::prelude::*;
use super::protocol::{GraphDelta, ProjectionDelta, ProjectionRequest, SnapshotReadResult};
use super::runtime::DocumentRuntime;
use super::snapshot::{DecodedDocument, DocumentSnapshot};
use crate::text::{chars_of, parsed_i64, trimmed};

verus! {

/// Builds the hover projection on the snapshot the request names; a
/// snapshot that is not stored is not ready, and `project` builds the
/// projection on a stored one, and may fail.
pub fn build_hover_subgraph_projection<P: FnOnce(&DocumentSnapshot) -> Result<ProjectionDelta, &'static str>>(
    runtime: &DocumentRuntime,
    request: &ProjectionRequest,
    project: P,
) -> (r: Result<SnapshotReadResult<ProjectionDelta>, &'static str>)
    requires
        forall|s: &DocumentSnapshot| call_requires(project, (s,)),
    ensures
        match runtime.stored(request.snapshot_id.0) {
            Some(s) => exists|out: Result<ProjectionDelta, &'static str>|
                call_ensures(project, (&s,), out) && match out {
                    Ok(data) => r == Ok::<SnapshotReadResult<ProjectionDelta>, &'static str>(SnapshotReadResult::Ready { data }),
                    Err(e) => r == Err::<SnapshotReadResult<ProjectionDelta>, &'static str>(e),
                },
            None => r == Ok::<SnapshotReadResult<ProjectionDelta>, &'static str>(SnapshotReadResult::SnapshotNotReady),
        },
{
    match runtime.snapshot(request.snapshot_id) {
        Some(snapshot) => match project(snapshot) {
            Ok(data) => Ok(SnapshotReadResult::Ready { data }),
            Err(e) => Err(e),
        },
        None => Ok(SnapshotReadResult::SnapshotNotReady),
    }
}


/// One step of a snapshot path: a key, or a sequence index.
#[derive(Debug, Clone, PartialEq, Eq)]
pub enum SnapshotPathSeg {
    Key(String),
    Index(i32),
}

/// A piece of a snapshot path as written: a dotted key, a bracketed quoted
/// key (still quoted and escaped), or a bracketed index.
#[derive(Debug, Clone, PartialEq, Eq)]
pub enum SnapshotPathToken {
    Key(String),
    Quoted(String),
    Index(i32),
}

/// What a token is, its text as characters.
pub enum PathTokenModel {
    Key(Seq<char>),
    Quoted(Seq<char>),
    Index(int),
}

/// The model of a token.
pub open spec fn token_model(t: SnapshotPathToken) -> PathTokenModel {
    match t {
        SnapshotPathToken::Key(k) => PathTokenModel::Key(k@),
        SnapshotPathToken::Quoted(q) => PathTokenModel::Quoted(q@),
        SnapshotPathToken::Index(i) => PathTokenModel::Index(i as int),
    }
}

/// The models of a list of tokens.
pub open spec fn token_models(s: Seq<SnapshotPathToken>) -> Seq<PathTokenModel> {
    Seq::new(s.len(), |i: int| token_model(s[i]))
}

/// A character of a dotted key: an ASCII letter or digit, `_` or `$`.
pub open spec fn is_path_key_char(c: char) -> bool {
    ('A' <= c && c <= 'Z') || ('a' <= c && c <= 'z') || ('0' <= c && c <= '9') || c == '_' || c == '$'
}

/// Where the run of key characters that starts at `i` ends.
pub open spec fn key_run_end(s: Seq<char>, i: int) -> int
    decreases s.len() - i,
{
    if 0 <= i < s.len() && is_path_key_char(s[i]) {
        key_run_end(s, i + 1)
    } else {
        i
    }
}

/// The position of the first `]` at or after `i`, or -1.
pub open spec fn close_bracket(s: Seq<char>, i: int) -> int
    decreases s.len() - i,
{
    if i < 0 || i >= s.len() {
        -1
    } else if s[i] == ']' {
        i
    } else {
        close_bracket(s, i + 1)
    }
}

pub proof fn lemma_path_scans(s: Seq<char>, i: int)
    requires
        0 <= i <= s.len(),
    ensures
        i <= key_run_end(s, i) <= s.len(),
        close_bracket(s, i) == -1 || i <= close_bracket(s, i) < s.len(),
        close_bracket(s, i) >= 0 ==> s[close_bracket(s, i)] == ']',
    decreases s.len() - i,
{
    if i < s.len() {
        lemma_path_scans(s, i + 1);
    }
}

/// What `str::parse::<i32>` gives.
pub open spec fn parsed_i32(s: Seq<char>) -> Option<int> {
    match parsed_i64(s) {
        Some(v) => if i32::MIN <= v <= i32::MAX {
            Some(v)
        } else {
            None
        },
        None => None,
    }
}

/// The token that a bracket's text makes: quoted when it starts with `"`,
/// an index where it reads as an `i32`, none otherwise.
pub open spec fn bracket_token(inner: Seq<char>) -> Option<PathTokenModel> {
    if inner.len() > 0 && inner[0] == '"' {
        Some(PathTokenModel::Quoted(inner))
    } else {
        match parsed_i32(inner) {
            Some(n) => Some(PathTokenModel::Index(n)),
            None => None,
        }
    }
}

/// `o` with `p` in front, where it is some.
pub open spec fn prepend_tokens(p: Seq<PathTokenModel>, o: Option<Seq<PathTokenModel>>) -> Option<Seq<PathTokenModel>> {
    match o {
        Some(rest) => Some(p + rest),
        None => None,
    }
}

/// The tokens of `s` from position `i`: `.key` with one or more key
/// characters, or `[text]` whose trimmed text is a quoted key or an index;
/// anything else makes the path unreadable.
pub open spec fn path_tokens_from(s: Seq<char>, i: int) -> Option<Seq<PathTokenModel>>
    decreases s.len() - i,
{
    if i < 0 || i >= s.len() {
        Some(Seq::empty())
    } else if s[i] == '.' {
        proof {
            lemma_path_scans(s, i + 1);
        }
        let e = key_run_end(s, i + 1);
        if e == i + 1 {
            None
        } else {
            prepend_tokens(seq![PathTokenModel::Key(s.subrange(i + 1, e))], path_tokens_from(s, e))
        }
    } else if s[i] == '[' {
        proof {
            lemma_path_scans(s, i + 1);
        }
        let end = close_bracket(s, i + 1);
        if end < 0 {
            None
        } else {
            match bracket_token(trimmed(s.subrange(i + 1, end))) {
                None => None,
                Some(t) => prepend_tokens(seq![t], path_tokens_from(s, end + 1)),
            }
        }
    } else {
        None
    }
}

/// The tokens of a snapshot path: none for `""` or `"$"`, and otherwise the
/// tokens after an optional leading `$`.
pub open spec fn snapshot_path_token_list(s: Seq<char>) -> Option<Seq<PathTokenModel>> {
    if s.len() == 0 || s == seq!['$'] {
        Some(Seq::empty())
    } else {
        path_tokens_from(s, if s[0] == '$' { 1 } else { 0 })
    }
}

/// The tokens of a snapshot path, or none where it cannot be read.
pub fn snapshot_path_tokens(path: &str) -> (r: Option<Vec<SnapshotPathToken>>)
    ensures
        r matches Some(t) ==> snapshot_path_token_list(path@) == Some(token_models(t@)),
        r is None ==> snapshot_path_token_list(path@) is None,
{
    let s = chars_of(path);
    let n = s.len();
    if n == 0 || (n == 1 && s[0] == '$') {
        let out: Vec<SnapshotPathToken> = Vec::new();
        proof {
            if n == 1 {
                assert(path@ =~= seq!['$']);
            }
            assert(token_models(out@) =~= Seq::empty());
        }
        return Some(out);
    }
    proof {
        assert(path@ != seq!['$']);
    }
    let mut i: usize = if s[0] == '$' { 1 } else { 0 };
    let mut out: Vec<SnapshotPathToken> = Vec::new();
    proof {
        assert(token_models(out@) + Seq::<PathTokenModel>::empty() =~= Seq::<PathTokenModel>::empty());
        assert(token_models(out@) =~= Seq::<PathTokenModel>::empty());
        match path_tokens_from(s@, i as int) {
            Some(rest) => assert(Seq::<PathTokenModel>::empty() + rest =~= rest),
            None => {},
        }
    }
    while i < n
        invariant
            s@ == path@,
            n == s@.len(),
            n > 0,
            i <= n,
            snapshot_path_token_list(path@) == prepend_tokens(token_models(out@), path_tokens_from(s@, i as int)),
        decreases n - i,
    {
        let c = s[i];
        if c == '.' {
            let start = i + 1;
            let mut j = start;
            proof {
                lemma_path_scans(s@, start as int);
            }
            while j < n && ((s[j] >= 'A' && s[j] <= 'Z') || (s[j] >= 'a' && s[j] <= 'z') || (s[j] >= '0' && s[j] <= '9') || s[j] == '_' || s[j] == '$')
                invariant
                    s@ == path@,
                    n == s@.len(),
                    start <= j <= n,
                    key_run_end(s@, start as int) == key_run_end(s@, j as int),
                decreases n - j,
            {
                j = j + 1;
            }
            if j == start {
                return None;
            }
            let mut key = String::new();
            let mut k = start;
            while k < j
                invariant
                    start <= k <= j <= n,
                    s@.len() == n,
                    key@ == s@.subrange(start as int, k as int),
                decreases j - k,
            {
                crate::text::push_char(&mut key, s[k]);
                k = k + 1;
                proof {
                    assert(key@ =~= s@.subrange(start as int, k as int));
                }
            }
            proof {
                let ghost before = token_models(out@);
                let ghost t = PathTokenModel::Key(s@.subrange(start as int, j as int));
                assert(token_models(out@.push(SnapshotPathToken::Key(key))) =~= before + seq![t]);
                match path_tokens_from(s@, j as int) {
                    Some(rest) => assert(before + (seq![t] + rest) =~= before + seq![t] + rest),
                    None => {},
                }
            }
            out.push(SnapshotPathToken::Key(key));
            i = j;
        } else if c == '[' {
            let start = i + 1;
            let mut end = start;
            proof {
                lemma_path_scans(s@, start as int);
            }
            while end < n && s[end] != ']'
                invariant
                    s@ == path@,
                    n == s@.len(),
                    start <= end <= n,
                    close_bracket(s@, start as int) == close_bracket(s@, end as int),
                decreases n - end,
            {
                end = end + 1;
            }
            if end == n {
                return None;
            }
            let mut inner_raw: Vec<char> = Vec::new();
            let mut k = start;
            while k < end
                invariant
                    start <= k <= end < n,
                    s@.len() == n,
                    inner_raw@ == s@.subrange(start as int, k as int),
                decreases end - k,
            {
                inner_raw.push(s[k]);
                k = k + 1;
                proof {
                    assert(inner_raw@ =~= s@.subrange(start as int, k as int));
                }
            }
            let inner = crate::text::trim_chars(&inner_raw);
            let token = if inner.len() > 0 && inner[0] == '"' {
                let mut text = String::new();
                let mut k2: usize = 0;
                while k2 < inner.len()
                    invariant
                        k2 <= inner@.len(),
                        text@ == inner@.take(k2 as int),
                    decreases inner@.len() - k2,
                {
                    crate::text::push_char(&mut text, inner[k2]);
                    k2 = k2 + 1;
                    proof {
                        assert(text@ =~= inner@.take(k2 as int));
                    }
                }
                proof {
                    assert(inner@.take(inner@.len() as int) =~= inner@);
                }
                SnapshotPathToken::Quoted(text)
            } else {
                match crate::text::parse_i64_chars(&inner) {
                    Some(v) => if v >= -2147483648 && v <= 2147483647 {
                        SnapshotPathToken::Index(v as i32)
                    } else {
                        return None;
                    },
                    None => {
                        return None;
                    },
                }
            };
            proof {
                let ghost before = token_models(out@);
                let ghost t = token_model(token);
                assert(bracket_token(inner@) == Some(t));
                assert(token_models(out@.push(token)) =~= before + seq![t]);
                match path_tokens_from(s@, end + 1) {
                    Some(rest) => assert(before + (seq![t] + rest) =~= before + seq![t] + rest),
                    None => {},
                }
            }
            out.push(token);
            i = end + 1;
        } else {
            return None;
        }
    }
    proof {
        assert(token_models(out@) + Seq::<PathTokenModel>::empty() =~= token_models(out@));
    }
    Some(out)
}

/// The JSON string that `raw` spells, as `serde_json` reads a whole text
/// as a string: none where it is no JSON string literal.
pub uninterp spec fn json_string_text(raw: Seq<char>) -> Option<Seq<char>>;

/// `serde_json::from_str::<String>`: the string that the JSON text `raw`
/// spells, or none where `raw` is not one JSON string literal (white space
/// around it aside). The unescaping is named, not stated.
#[verifier::external_body]
fn unescape_json_string(raw: &str) -> (r: Option<String>)
    ensures
        r matches Some(s) ==> json_string_text(raw@) == Some(s@),
        r is None ==> json_string_text(raw@) is None,
{
    serde_json::from_str::<String>(raw).ok()
}

/// What a path step is, its key as characters.
pub enum PathStep {
    Key(Seq<char>),
    Index(int),
}

/// The model of a path step.
pub open spec fn step_model(s: SnapshotPathSeg) -> PathStep {
    match s {
        SnapshotPathSeg::Key(k) => PathStep::Key(k@),
        SnapshotPathSeg::Index(i) => PathStep::Index(i as int),
    }
}

/// The step a token makes: a quoted key unescaped as a JSON string, none
/// where it is not one.
pub open spec fn step_of_token(t: PathTokenModel) -> Option<PathStep> {
    match t {
        PathTokenModel::Key(k) => Some(PathStep::Key(k)),
        PathTokenModel::Index(n) => Some(PathStep::Index(n)),
        PathTokenModel::Quoted(q) => match json_string_text(q) {
            Some(key) => Some(PathStep::Key(key)),
            None => None,
        },
    }
}

/// `r` is how a snapshot path reads: none where its tokens cannot be read
/// or one of its quoted keys is no JSON string; otherwise one step for
/// each token.
pub open spec fn is_path_parse(path: Seq<char>, r: Option<Vec<SnapshotPathSeg>>) -> bool {
    match snapshot_path_token_list(path) {
        None => r is None,
        Some(toks) => if forall|i: int| 0 <= i < toks.len() ==> (#[trigger] step_of_token(toks[i])) is Some {
            r matches Some(segs) && segs@.len() == toks.len() && forall|i: int|
                0 <= i < toks.len() ==> Some(step_model(#[trigger] segs@[i])) == step_of_token(toks[i])
        } else {
            r is None
        },
    }
}

/// An ASCII letter of either case, a digit, `_` or `$`.
pub open spec fn is_plain_name_char(c: char) -> bool {
    ('A' <= c && c <= 'Z') || ('a' <= c && c <= 'z') || ('0' <= c && c <= '9') || c == '_' || c == '$'
}

proof fn lemma_key_run_to_end(s: Seq<char>, i: int)
    requires
        0 <= i <= s.len(),
        forall|j: int| i <= j < s.len() ==> is_plain_name_char(#[trigger] s[j]),
    ensures
        key_run_end(s, i) == s.len(),
    decreases s.len() - i,
{
    if i < s.len() {
        assert(is_plain_name_char(s[i]));
        lemma_key_run_to_end(s, i + 1);
    }
}

/// A dotted name reads as one key: `$.` followed by one or more ASCII
/// letters of either case, digits, `_` or `$` parses to exactly one key
/// step whose text is the name.
pub proof fn law_dotted_name_is_one_key(name: Seq<char>, r: Option<Vec<SnapshotPathSeg>>)
    requires
        name.len() > 0,
        forall|i: int| 0 <= i < name.len() ==> is_plain_name_char(#[trigger] name[i]),
        is_path_parse(seq!['$', '.'] + name, r),
    ensures
        r matches Some(segs) && segs@.len() == 1 && step_model(segs@[0]) == PathStep::Key(name),
{
    let s = seq!['$', '.'] + name;
    assert(s[0] == '$');
    assert(s[1] == '.');
    assert(s.len() >= 3);
    assert(s != seq!['$']);
    assert forall|j: int| 2 <= j < s.len() implies is_plain_name_char(#[trigger] s[j]) by {
        assert(s[j] == name[j - 2]);
    }
    lemma_key_run_to_end(s, 2);
    assert(s.subrange(2, s.len() as int) =~= name);
    assert(path_tokens_from(s, s.len() as int) == Some(Seq::<PathTokenModel>::empty()));
    let toks = seq![PathTokenModel::Key(name)];
    assert(seq![PathTokenModel::Key(name)] + Seq::<PathTokenModel>::empty() =~= toks);
    assert(path_tokens_from(s, 1) == Some(toks));
    assert(snapshot_path_token_list(s) == Some(toks));
    assert(step_of_token(toks[0]) == Some(PathStep::Key(name)));
}

proof fn lemma_key_run_prefix(a: Seq<char>, b: Seq<char>, j: int)
    requires
        0 <= j <= a.len(),
        b.len() == 0 || !is_path_key_char(b[0]),
    ensures
        key_run_end(a + b, j) == key_run_end(a, j),
    decreases a.len() - j,
{
    let s = a + b;
    if j < a.len() {
        assert(s[j] == a[j]);
        lemma_key_run_prefix(a, b, j + 1);
    } else if b.len() > 0 {
        assert(s[j] == b[0]);
    }
}

proof fn lemma_close_bracket_prefix(a: Seq<char>, b: Seq<char>, j: int)
    requires
        0 <= j <= a.len(),
        close_bracket(a, j) >= 0,
    ensures
        close_bracket(a + b, j) == close_bracket(a, j),
    decreases a.len() - j,
{
    let s = a + b;
    if j < a.len() {
        assert(s[j] == a[j]);
        if a[j] != ']' {
            lemma_close_bracket_prefix(a, b, j + 1);
        }
    }
}

proof fn lemma_key_run_suffix(a: Seq<char>, b: Seq<char>, k: int)
    requires
        0 <= k <= b.len(),
    ensures
        key_run_end(a + b, a.len() + k) == a.len() + key_run_end(b, k),
    decreases b.len() - k,
{
    let s = a + b;
    if k < b.len() {
        assert(s[a.len() + k] == b[k]);
        lemma_key_run_suffix(a, b, k + 1);
    }
}

proof fn lemma_close_bracket_suffix(a: Seq<char>, b: Seq<char>, k: int)
    requires
        0 <= k <= b.len(),
    ensures
        close_bracket(a + b, a.len() + k) == if close_bracket(b, k) < 0 {
            -1
        } else {
            a.len() + close_bracket(b, k)
        },
    decreases b.len() - k,
{
    let s = a + b;
    if k < b.len() {
        assert(s[a.len() + k] == b[k]);
        lemma_close_bracket_suffix(a, b, k + 1);
    }
}

/// Reading on from inside `b` in `a + b` reads as in `b` alone.
proof fn lemma_tokens_suffix(a: Seq<char>, b: Seq<char>, k: int)
    requires
        0 <= k <= b.len(),
    ensures
        path_tokens_from(a + b, a.len() + k) == path_tokens_from(b, k),
    decreases b.len() - k,
{
    let s = a + b;
    let i = a.len() + k;
    if k < b.len() {
        assert(s[i] == b[k]);
        if b[k] == '.' {
            lemma_path_scans(b, k + 1);
            lemma_key_run_suffix(a, b, k + 1);
            let e = key_run_end(b, k + 1);
            if e != k + 1 {
                assert(s.subrange(i + 1, a.len() + e) =~= b.subrange(k + 1, e));
                lemma_tokens_suffix(a, b, e);
            }
        } else if b[k] == '[' {
            lemma_path_scans(b, k + 1);
            lemma_close_bracket_suffix(a, b, k + 1);
            let end = close_bracket(b, k + 1);
            if end >= 0 {
                assert(s.subrange(i + 1, a.len() + end) =~= b.subrange(k + 1, end));
                lemma_tokens_suffix(a, b, end + 1);
            }
        }
    }
}

/// What reads from `i` to the end of `a` reads the same in `a + b`, and
/// reading then goes on into `b`.
proof fn lemma_tokens_prefix(a: Seq<char>, b: Seq<char>, i: int)
    requires
        0 <= i <= a.len(),
        path_tokens_from(a, i) is Some,
        b.len() == 0 || !is_path_key_char(b[0]),
    ensures
        path_tokens_from(a + b, i) == prepend_tokens(path_tokens_from(a, i)->Some_0, path_tokens_from(b, 0)),
    decreases a.len() - i,
{
    let s = a + b;
    if i == a.len() {
        lemma_tokens_suffix(a, b, 0);
        match path_tokens_from(b, 0) {
            Some(rest) => assert(Seq::<PathTokenModel>::empty() + rest =~= rest),
            None => {},
        }
    } else {
        assert(s[i] == a[i]);
        if a[i] == '.' {
            lemma_path_scans(a, i + 1);
            lemma_key_run_prefix(a, b, i + 1);
            let e = key_run_end(a, i + 1);
            assert(s.subrange(i + 1, e) =~= a.subrange(i + 1, e));
            lemma_tokens_prefix(a, b, e);
            let head = seq![PathTokenModel::Key(a.subrange(i + 1, e))];
            let ta = path_tokens_from(a, e)->Some_0;
            match path_tokens_from(b, 0) {
                Some(rest) => assert(head + (ta + rest) =~= (head + ta) + rest),
                None => {},
            }
        } else {
            lemma_path_scans(a, i + 1);
            lemma_close_bracket_prefix(a, b, i + 1);
            let end = close_bracket(a, i + 1);
            assert(s.subrange(i + 1, end) =~= a.subrange(i + 1, end));
            lemma_tokens_prefix(a, b, end + 1);
            let head = seq![bracket_token(trimmed(a.subrange(i + 1, end)))->Some_0];
            let ta = path_tokens_from(a, end + 1)->Some_0;
            match path_tokens_from(b, 0) {
                Some(rest) => assert(head + (ta + rest) =~= (head + ta) + rest),
                None => {},
            }
        }
    }
}

/// A path reads piece by piece: where `p` reads and `q` starts with `.` or
/// `[`, the path `p` followed by `q` reads exactly when `q` does, and its
/// steps are those of `p` followed by those of `q`.
pub proof fn law_path_reads_piece_by_piece(
    p: Seq<char>,
    q: Seq<char>,
    rp: Option<Vec<SnapshotPathSeg>>,
    rq: Option<Vec<SnapshotPathSeg>>,
    r: Option<Vec<SnapshotPathSeg>>,
)
    requires
        q.len() > 0,
        q[0] == '.' || q[0] == '[',
        is_path_parse(p, rp),
        is_path_parse(q, rq),
        is_path_parse(p + q, r),
        rp is Some,
    ensures
        r is Some <==> rq is Some,
        rq matches Some(sq) ==> r matches Some(s) && s@.len() == rp->Some_0@.len() + sq@.len()
            && (forall|i: int| 0 <= i < rp->Some_0@.len() ==> step_model(#[trigger] s@[i]) == step_model(rp->Some_0@[i]))
            && (forall|j: int| 0 <= j < sq@.len() ==> step_model(#[trigger] s@[rp->Some_0@.len() + j]) == step_model(sq@[j])),
{
    let s = p + q;
    let i0: int = if p.len() > 0 && p[0] == '$' { 1 } else { 0 };
    assert(s.len() > 0);
    if p.len() > 0 {
        assert(s[0] == p[0]);
    } else {
        assert(s =~= q);
    }
    if s.len() == 1 {
        assert(p.len() == 0);
    }
    assert(s != seq!['$']) by {
        if s == seq!['$'] {
            assert(s.len() == 1);
        }
    }
    assert(q != seq!['$']) by {
        if q == seq!['$'] {
            assert(q[0] == '$');
        }
    }
    assert(snapshot_path_token_list(p) == path_tokens_from(p, i0)) by {
        if p == seq!['$'] {
            assert(path_tokens_from(p, 1) == Some(Seq::<PathTokenModel>::empty()));
        }
    }
    assert(snapshot_path_token_list(s) == path_tokens_from(s, i0));
    assert(snapshot_path_token_list(q) == path_tokens_from(q, 0));
    let tp = path_tokens_from(p, i0)->Some_0;
    lemma_tokens_prefix(p, q, i0);
    let sp = rp->Some_0;
    match path_tokens_from(q, 0) {
        None => {
            assert(r is None);
            assert(rq is None);
        },
        Some(tq) => {
            let t = tp + tq;
            assert(snapshot_path_token_list(s) == Some(t));
            assert forall|k: int| 0 <= k < tp.len() implies #[trigger] t[k] == tp[k] by {}
            assert forall|k: int| 0 <= k < tq.len() implies #[trigger] t[tp.len() + k] == tq[k] by {}
            if forall|k: int| 0 <= k < tq.len() ==> (#[trigger] step_of_token(tq[k])) is Some {
                assert forall|k: int| 0 <= k < t.len() implies (#[trigger] step_of_token(t[k])) is Some by {
                    if k >= tp.len() {
                        assert(t[k] == tq[k - tp.len()]);
                    } else {
                        assert(t[k] == tp[k]);
                    }
                }
                let sq = rq->Some_0;
                let ss = r->Some_0;
                assert forall|j: int| 0 <= j < sq@.len() implies step_model(#[trigger] ss@[sp@.len() + j]) == step_model(sq@[j]) by {
                    assert(t[tp.len() + j] == tq[j]);
                    assert(Some(step_model(ss@[tp.len() + j])) == step_of_token(t[tp.len() + j]));
                }
                assert forall|k: int| 0 <= k < sp@.len() implies step_model(#[trigger] ss@[k]) == step_model(sp@[k]) by {
                    assert(t[k] == tp[k]);
                    assert(Some(step_model(ss@[k])) == step_of_token(t[k]));
                }
            } else {
                let k = choose|k: int| 0 <= k < tq.len() && (#[trigger] step_of_token(tq[k])) is None;
                assert(t[tp.len() + k] == tq[k]);
                assert(step_of_token(t[tp.len() + k]) is None);
            }
        },
    }
}

proof fn lemma_close_bracket_skips(s: Seq<char>, i: int, end: int)
    requires
        0 <= i <= end < s.len(),
        s[end] == ']',
        forall|k: int| i <= k < end ==> s[k] != ']',
    ensures
        close_bracket(s, i) == end,
    decreases end - i,
{
    if i < end {
        lemma_close_bracket_skips(s, i + 1, end);
    }
}

/// A bracketed integer reads as one index: `$[` followed by the decimal
/// text of an `i32`, with or without a sign, and `]` parses to exactly one
/// index step with that number.
pub proof fn law_bracketed_integer_is_one_index(n: i32, r: Option<Vec<SnapshotPathSeg>>)
    requires
        is_path_parse(seq!['$', '['] + crate::text::int_decimal(n as int) + seq![']'], r),
    ensures
        r matches Some(segs) && segs@.len() == 1 && step_model(segs@[0]) == PathStep::Index(n as int),
{
    let d = crate::text::int_decimal(n as int);
    let s = seq!['$', '['] + d + seq![']'];
    crate::text::lemma_int_decimal_parses(n as i64);
    let end = s.len() - 1;
    assert(s[0] == '$');
    assert(s[1] == '[');
    assert(s[end] == ']');
    assert(s != seq!['$']);
    if n < 0 {
        crate::text::lemma_decimal_spells((-(n as int)) as nat);
        let m = crate::text::decimal((-(n as int)) as nat);
        assert(d.drop_first() =~= m);
        assert forall|k: int| 0 <= k < d.len() implies d[k] != ']' && d[k] != '"' by {
            if k > 0 {
                assert(d[k] == m[k - 1]);
                assert(crate::text::is_digit_char(m[k - 1]));
            }
        }
    } else {
        crate::text::lemma_decimal_spells(n as nat);
        assert forall|k: int| 0 <= k < d.len() implies d[k] != ']' && d[k] != '"' by {
            assert(crate::text::is_digit_char(d[k]));
        }
    }
    assert forall|k: int| 2 <= k < end implies s[k] != ']' by {
        assert(s[k] == d[k - 2]);
    }
    lemma_close_bracket_skips(s, 2, end);
    assert(s.subrange(2, end) =~= d);
    assert(d[0] != '"');
    assert(parsed_i32(d) == Some(n as int));
    assert(bracket_token(trimmed(d)) == Some(PathTokenModel::Index(n as int)));
    assert(path_tokens_from(s, end + 1) == Some(Seq::<PathTokenModel>::empty()));
    let toks = seq![PathTokenModel::Index(n as int)];
    assert(seq![PathTokenModel::Index(n as int)] + Seq::<PathTokenModel>::empty() =~= toks);
    assert(path_tokens_from(s, 1) == Some(toks));
    assert(snapshot_path_token_list(s) == Some(toks));
    assert(step_of_token(toks[0]) == Some(PathStep::Index(n as int)));
}

/// Reads a snapshot path such as `$.rows[0]["a key"]` into its steps; a
/// quoted key is unescaped as a JSON string. None where the path cannot be
/// read or a quoted key is no JSON string.
pub fn parse_snapshot_path(path: &str) -> (r: Option<Vec<SnapshotPathSeg>>)
    ensures
        is_path_parse(path@, r),
{
    let tokens = match snapshot_path_tokens(path) {
        Some(t) => t,
        None => {
            return None;
        },
    };
    let ghost toks = token_models(tokens@);
    let mut out: Vec<SnapshotPathSeg> = Vec::new();
    let mut i: usize = 0;
    while i < tokens.len()
        invariant
            toks == token_models(tokens@),
            snapshot_path_token_list(path@) == Some(toks),
            i <= tokens@.len(),
            out@.len() == i,
            forall|j: int| 0 <= j < i ==> Some(step_model(#[trigger] out@[j])) == step_of_token(toks[j]),
        decreases tokens@.len() - i,
    {
        let seg = match &tokens[i] {
            SnapshotPathToken::Key(k) => SnapshotPathSeg::Key(k.clone()),
            SnapshotPathToken::Index(n) => SnapshotPathSeg::Index(*n),
            SnapshotPathToken::Quoted(q) => match unescape_json_string(q.as_str()) {
                Some(key) => SnapshotPathSeg::Key(key),
                None => {
                    proof {
                        assert(step_of_token(toks[i as int]) is None);
                    }
                    return None;
                },
            },
        };
        out.push(seg);
        proof {
            assert(Some(step_model(out@[i as int])) == step_of_token(toks[i as int]));
        }
        i = i + 1;
    }
    proof {
        assert forall|j: int| 0 <= j < toks.len() implies (#[trigger] step_of_token(toks[j])) is Some by {
            assert(Some(step_model(out@[j])) == step_of_token(toks[j]));
        }
    }
    Some(out)
}

/// Builds the hover projection of a snapshot: it needs an analysis with a
/// decoded document and a readable path, and `hover` builds the graph of
/// the part of the document that the path's steps name.
pub fn build_hover_subgraph_projection_for_snapshot<H: FnOnce(&DecodedDocument, &[SnapshotPathSeg]) -> GraphDelta>(
    snapshot: &DocumentSnapshot,
    path: &str,
    hover: H,
) -> (r: Result<ProjectionDelta, &'static str>)
    requires
        forall|d: &DecodedDocument, p: &[SnapshotPathSeg]| call_requires(hover, (d, p)),
    ensures
        match snapshot.analysis {
            None => r == Err::<ProjectionDelta, &'static str>("no analysis"),
            Some(analysis) => match analysis.document {
                None => r == Err::<ProjectionDelta, &'static str>("no document"),
                Some(document) => exists|p: Option<Vec<SnapshotPathSeg>>|
                    is_path_parse(path@, p) && match p {
                        None => r == Err::<ProjectionDelta, &'static str>("invalid path"),
                        Some(segs) => exists|steps: &[SnapshotPathSeg], g: GraphDelta|
                            steps@ == segs@ && call_ensures(hover, (&document, steps), g) && r == Ok::<
                                ProjectionDelta,
                                &'static str,
                            >(
                                ProjectionDelta {
                                    clear: true,
                                    graph_data: Some(g),
                                    patch_seq: 0,
                                    base_graph_version: 0,
                                    graph_version: 0,
                                },
                            ),
                    },
            },
        },
{
    let analysis = match &snapshot.analysis {
        Some(a) => a,
        None => {
            return Err("no analysis");
        },
    };
    let document = match &analysis.document {
        Some(d) => d,
        None => {
            return Err("no document");
        },
    };
    let segments = match parse_snapshot_path(path) {
        Some(s) => s,
        None => {
            return Err("invalid path");
        },
    };
    let steps = segments.as_slice();
    let g = hover(document, steps);
    proof {
        assert(steps@ == segments@);
    }
    Ok(ProjectionDelta { clear: true, graph_data: Some(g), patch_seq: 0, base_graph_version: 0, graph_version: 0 })
}

} // verus!
