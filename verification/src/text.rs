//! Small text utilities with exact specifications: string equality,
//! character pushes and decimal rendering of integers.
use vstd::prelude::*;
use vstd::string::StringExecFns;
use vstd::string::StringSliceAdditionalSpecFns;
use vstd::utf8::{encode_utf8, encode_utf8_decode_utf8};

verus! {

/// The decimal digit character for `d`, which is below ten.
pub open spec fn digit_char(d: nat) -> char {
    if d == 0 {
        '0'
    } else if d == 1 {
        '1'
    } else if d == 2 {
        '2'
    } else if d == 3 {
        '3'
    } else if d == 4 {
        '4'
    } else if d == 5 {
        '5'
    } else if d == 6 {
        '6'
    } else if d == 7 {
        '7'
    } else if d == 8 {
        '8'
    } else {
        '9'
    }
}

/// The decimal rendering of `n`, without sign or leading zeros.
pub open spec fn decimal(n: nat) -> Seq<char>
    decreases n,
{
    if n < 10 {
        seq![digit_char(n)]
    } else {
        decimal(n / 10).push(digit_char(n % 10))
    }
}

/// Appends one character to a string (`String::push`).
#[verifier::external_body]
pub(crate) fn push_char(s: &mut String, c: char)
    ensures
        final(s)@ == old(s)@.push(c),
{
    s.push(c);
}

/// Appends a string slice to a string.
pub fn push_str(s: &mut String, t: &str)
    ensures
        final(s)@ == old(s)@ + t@,
{
    s.append(t);
}

/// Whether two string slices hold the same characters.
pub fn str_eq(a: &str, b: &str) -> (r: bool)
    ensures
        r == (a@ == b@),
{
    let ab = a.as_bytes();
    let bb = b.as_bytes();
    proof {
        encode_utf8_decode_utf8(a@);
        encode_utf8_decode_utf8(b@);
    }
    if ab.len() != bb.len() {
        return false;
    }
    let mut i: usize = 0;
    while i < ab.len()
        invariant
            ab@ == a.spec_bytes(),
            bb@ == b.spec_bytes(),
            ab@.len() == bb@.len(),
            i <= ab@.len(),
            forall|j: int| 0 <= j < i ==> ab@[j] == bb@[j],
        decreases ab@.len() - i,
    {
        if ab[i] != bb[i] {
            return false;
        }
        i = i + 1;
    }
    assert(ab@ =~= bb@);
    true
}

/// Appends the decimal rendering of `n` to `out`.
pub fn push_decimal(out: &mut String, n: u64)
    ensures
        final(out)@ == old(out)@ + decimal(n as nat),
    decreases n,
{
    if n >= 10 {
        push_decimal(out, n / 10);
    }
    let d = n % 10;
    let c = if d == 0 {
        '0'
    } else if d == 1 {
        '1'
    } else if d == 2 {
        '2'
    } else if d == 3 {
        '3'
    } else if d == 4 {
        '4'
    } else if d == 5 {
        '5'
    } else if d == 6 {
        '6'
    } else if d == 7 {
        '7'
    } else if d == 8 {
        '8'
    } else {
        '9'
    };
    push_char(out, c);
    proof {
        if n >= 10 {
            assert(decimal(n as nat) == decimal((n / 10) as nat).push(digit_char((n % 10) as nat)));
        }
    }
}

/// The decimal rendering of `n` as a new string.
pub fn u64_to_decimal(n: u64) -> (s: String)
    ensures
        s@ == decimal(n as nat),
{
    let mut s = String::new();
    push_decimal(&mut s, n);
    assert(Seq::<char>::empty() + decimal(n as nat) =~= decimal(n as nat));
    s
}

/// The characters of a string slice, in order.
pub fn chars_of(s: &str) -> (r: Vec<char>)
    ensures
        r@ == s@,
{
    broadcast use vstd::string::axiom_spec_iter;
    let mut out: Vec<char> = Vec::new();
    for c in it: s.chars()
        invariant
            out@ == it.seq().take(it.index() as int),
    {
        out.push(c);
        proof {
            assert(out@ =~= it.seq().take(it.index() as int + 1));
        }
    }
    proof {
        assert(out@ =~= s@);
    }
    out
}

/// The concatenation of `f` applied to each character of `s`, in order.
pub open spec fn flat_map_chars(s: Seq<char>, f: spec_fn(char) -> Seq<char>) -> Seq<char>
    decreases s.len(),
{
    if s.len() == 0 {
        Seq::empty()
    } else {
        flat_map_chars(s.drop_last(), f) + f(s.last())
    }
}

/// Mapping one more character extends the mapped prefix.
pub proof fn lemma_flat_map_chars_step(s: Seq<char>, f: spec_fn(char) -> Seq<char>, i: int)
    requires
        0 <= i < s.len(),
    ensures
        flat_map_chars(s.take(i + 1), f) == flat_map_chars(s.take(i), f) + f(s[i]),
{
    assert(s.take(i + 1).drop_last() =~= s.take(i));
}

/// Whether `c` occurs in `s`.
pub open spec fn has_char(s: Seq<char>, c: char) -> bool {
    exists|i: int| 0 <= i < s.len() && s[i] == c
}

/// Whether the characters hold `c`.
pub fn contains_char(chars: &Vec<char>, c: char) -> (r: bool)
    ensures
        r == has_char(chars@, c),
{
    let mut i: usize = 0;
    while i < chars.len()
        invariant
            i <= chars@.len(),
            forall|j: int| 0 <= j < i ==> chars@[j] != c,
        decreases chars@.len() - i,
    {
        if chars[i] == c {
            return true;
        }
        i = i + 1;
    }
    false
}

/// The UTF-8 byte length of a character sequence.
pub open spec fn utf8_len(s: Seq<char>) -> nat {
    encode_utf8(s).len()
}

/// The UTF-8 byte length of one character.
pub open spec fn char_width(c: char) -> nat {
    if (c as u32) <= 0x7f {
        1
    } else if (c as u32) <= 0x7ff {
        2
    } else if (c as u32) <= 0xffff {
        3
    } else {
        4
    }
}

/// The UTF-8 encoding of a concatenation is the concatenation of the
/// encodings.
pub proof fn lemma_encode_utf8_append(a: Seq<char>, b: Seq<char>)
    ensures
        encode_utf8(a + b) == encode_utf8(a) + encode_utf8(b),
    decreases a.len(),
{
    if a.len() == 0 {
        assert(a + b =~= b);
        assert(encode_utf8(a) =~= Seq::<u8>::empty());
        assert(encode_utf8(a) + encode_utf8(b) =~= encode_utf8(b));
    } else {
        assert((a + b).drop_first() =~= a.drop_first() + b);
        assert((a + b)[0] == a[0]);
        lemma_encode_utf8_append(a.drop_first(), b);
        assert(encode_utf8(a) + encode_utf8(b) =~= encode_utf8(a + b));
    }
}

/// Appending a character adds its width to the byte length.
pub proof fn lemma_utf8_len_push(s: Seq<char>, c: char)
    ensures
        utf8_len(s.push(c)) == utf8_len(s) + char_width(c),
{
    lemma_encode_utf8_append(s, seq![c]);
    assert(s + seq![c] =~= s.push(c));
    assert(seq![c].drop_first() =~= Seq::<char>::empty());
    assert(encode_utf8(Seq::<char>::empty()) =~= Seq::<u8>::empty());
    broadcast use vstd::utf8::char_is_scalar;
    assert(vstd::utf8::is_scalar(c as u32));
}

/// The byte length of a prefix is at most that of the whole sequence.
pub proof fn lemma_utf8_len_take(s: Seq<char>, i: int)
    requires
        0 <= i <= s.len(),
    ensures
        utf8_len(s.take(i)) <= utf8_len(s),
        utf8_len(s.take(i)) + utf8_len(s.skip(i)) == utf8_len(s),
{
    lemma_encode_utf8_append(s.take(i), s.skip(i));
    assert(s.take(i) + s.skip(i) =~= s);
}

/// The UTF-8 byte length of one character.
pub fn char_utf8_width(c: char) -> (r: usize)
    ensures
        r == char_width(c),
{
    let v = c as u32;
    if v <= 0x7f {
        1
    } else if v <= 0x7ff {
        2
    } else if v <= 0xffff {
        3
    } else {
        4
    }
}

/// The byte offset of every character position of `chars`, the end
/// included.
pub fn utf8_offsets(chars: &Vec<char>) -> (r: Vec<usize>)
    requires
        utf8_len(chars@) <= usize::MAX,
    ensures
        r@.len() == chars@.len() + 1,
        forall|i: int| 0 <= i <= chars@.len() ==> r@[i] == utf8_len(#[trigger] chars@.take(i)),
{
    let mut out: Vec<usize> = Vec::new();
    let mut total: usize = 0;
    out.push(0);
    proof {
        assert(chars@.take(0) =~= Seq::<char>::empty());
        assert(encode_utf8(Seq::<char>::empty()) =~= Seq::<u8>::empty());
    }
    let mut i: usize = 0;
    while i < chars.len()
        invariant
            i <= chars@.len(),
            utf8_len(chars@) <= usize::MAX,
            out@.len() == i + 1,
            total == utf8_len(chars@.take(i as int)),
            forall|j: int| 0 <= j <= i ==> out@[j] == utf8_len(#[trigger] chars@.take(j)),
        decreases chars@.len() - i,
    {
        proof {
            assert(chars@.take(i + 1) =~= chars@.take(i as int).push(chars@[i as int]));
            lemma_utf8_len_push(chars@.take(i as int), chars@[i as int]);
            lemma_utf8_len_take(chars@, i + 1);
        }
        total = total + char_utf8_width(chars[i]);
        out.push(total);
        i = i + 1;
    }
    out
}

/// Unicode white space (the `White_Space` property).
pub open spec fn is_white_space(c: char) -> bool {
    let v = c as u32;
    ||| 0x09 <= v <= 0x0d
    ||| v == 0x20
    ||| v == 0x85
    ||| v == 0xa0
    ||| v == 0x1680
    ||| 0x2000 <= v <= 0x200a
    ||| v == 0x2028
    ||| v == 0x2029
    ||| v == 0x202f
    ||| v == 0x205f
    ||| v == 0x3000
}

/// Whether `c` is Unicode white space.
pub fn char_is_white_space(c: char) -> (r: bool)
    ensures
        r == is_white_space(c),
{
    let v = c as u32;
    (0x09 <= v && v <= 0x0d) || v == 0x20 || v == 0x85 || v == 0xa0 || v == 0x1680 || (0x2000 <= v && v <= 0x200a)
        || v == 0x2028 || v == 0x2029 || v == 0x202f || v == 0x205f || v == 0x3000
}

/// The first position at or after `i` and before `hi` that is not white
/// space, or `hi`.
pub open spec fn ws_skip_fwd(s: Seq<char>, i: int, hi: int) -> int
    decreases hi - i,
{
    if i >= hi || !is_white_space(s[i]) {
        i
    } else {
        ws_skip_fwd(s, i + 1, hi)
    }
}

/// The end of `s[lo..j]` without its trailing white space.
pub open spec fn ws_skip_back(s: Seq<char>, lo: int, j: int) -> int
    decreases j - lo,
{
    if j <= lo || !is_white_space(s[j - 1]) {
        j
    } else {
        ws_skip_back(s, lo, j - 1)
    }
}

pub proof fn lemma_ws_skip_bounds(s: Seq<char>, lo: int, hi: int)
    requires
        lo <= hi,
    ensures
        lo <= ws_skip_fwd(s, lo, hi) <= hi,
        lo <= ws_skip_back(s, lo, hi) <= hi,
    decreases hi - lo,
{
    if lo < hi {
        if is_white_space(s[lo]) {
            lemma_ws_skip_bounds(s, lo + 1, hi);
        }
        if is_white_space(s[hi - 1]) {
            lemma_ws_skip_bounds(s, lo, hi - 1);
        }
    }
}

/// Where `chars[lo..hi]` starts once leading white space is skipped.
pub fn trim_start_in(chars: &Vec<char>, lo: usize, hi: usize) -> (r: usize)
    requires
        lo <= hi <= chars@.len(),
    ensures
        r == ws_skip_fwd(chars@, lo as int, hi as int),
        lo <= r <= hi,
{
    proof {
        lemma_ws_skip_bounds(chars@, lo as int, hi as int);
    }
    let mut i = lo;
    while i < hi && char_is_white_space(chars[i])
        invariant
            lo <= i <= hi <= chars@.len(),
            ws_skip_fwd(chars@, i as int, hi as int) == ws_skip_fwd(chars@, lo as int, hi as int),
        decreases hi - i,
    {
        i = i + 1;
    }
    i
}

/// Where `chars[lo..hi]` ends once trailing white space is dropped.
pub fn trim_end_in(chars: &Vec<char>, lo: usize, hi: usize) -> (r: usize)
    requires
        lo <= hi <= chars@.len(),
    ensures
        r == ws_skip_back(chars@, lo as int, hi as int),
        lo <= r <= hi,
{
    proof {
        lemma_ws_skip_bounds(chars@, lo as int, hi as int);
    }
    let mut j = hi;
    while j > lo && char_is_white_space(chars[j - 1])
        invariant
            lo <= j <= hi <= chars@.len(),
            ws_skip_back(chars@, lo as int, j as int) == ws_skip_back(chars@, lo as int, hi as int),
        decreases j - lo,
    {
        j = j - 1;
    }
    j
}

/// The byte length of a prefix splits at any inner position.
pub proof fn lemma_utf8_len_split(s: Seq<char>, lo: int, k: int)
    requires
        0 <= lo <= k <= s.len(),
    ensures
        utf8_len(s.take(k)) == utf8_len(s.take(lo)) + utf8_len(s.subrange(lo, k)),
{
    lemma_encode_utf8_append(s.take(lo), s.subrange(lo, k));
    assert(s.take(lo) + s.subrange(lo, k) =~= s.take(k));
}

/// Byte lengths of ranges that start together grow with their end.
pub proof fn lemma_utf8_len_mono(s: Seq<char>, lo: int, j: int, k: int)
    requires
        0 <= lo <= j <= k <= s.len(),
    ensures
        utf8_len(s.subrange(lo, j)) <= utf8_len(s.subrange(lo, k)),
{
    lemma_encode_utf8_append(s.subrange(lo, j), s.subrange(j, k));
    assert(s.subrange(lo, j) + s.subrange(j, k) =~= s.subrange(lo, k));
}

/// The decimal rendering of a signed integer.
pub open spec fn int_decimal(n: int) -> Seq<char> {
    if n < 0 {
        seq!['-'] + decimal((-n) as nat)
    } else {
        decimal(n as nat)
    }
}

/// Appends the decimal rendering of `n` to `out`.
pub fn push_i32_decimal(out: &mut String, n: i32)
    ensures
        final(out)@ == old(out)@ + int_decimal(n as int),
{
    if n < 0 {
        push_char(out, '-');
        let magnitude: u64 = (0i64 - (n as i64)) as u64;
        push_decimal(out, magnitude);
        proof {
            assert(old(out)@.push('-') + decimal(magnitude as nat) =~= old(out)@ + (seq!['-'] + decimal((-(n as int)) as nat)));
        }
    } else {
        push_decimal(out, n as u64);
    }
}

/// The decimal rendering of `n`.
pub fn i64_to_decimal(n: i64) -> (r: String)
    ensures
        r@ == int_decimal(n as int),
{
    let mut out = String::new();
    if n < 0 {
        push_char(&mut out, '-');
        let magnitude: u64 = (0i128 - (n as i128)) as u64;
        push_decimal(&mut out, magnitude);
        proof {
            assert(seq!['-'] + decimal(magnitude as nat) =~= seq!['-'] + decimal((-(n as int)) as nat));
        }
    } else {
        push_decimal(&mut out, n as u64);
        proof {
            assert(Seq::<char>::empty() + decimal(n as nat) =~= decimal(n as nat));
        }
    }
    out
}

/// The characters of `s` that satisfy `keep`, in order.
pub open spec fn filter_chars(s: Seq<char>, keep: spec_fn(char) -> bool) -> Seq<char>
    decreases s.len(),
{
    if s.len() == 0 {
        Seq::empty()
    } else if keep(s.last()) {
        filter_chars(s.drop_last(), keep).push(s.last())
    } else {
        filter_chars(s.drop_last(), keep)
    }
}

/// A Unicode control character (general category Cc).
pub open spec fn is_control(c: char) -> bool {
    (c as u32) <= 0x1f || (0x7f <= (c as u32) && (c as u32) <= 0x9f)
}

/// Every character takes at least one byte.
pub proof fn lemma_utf8_len_at_least(s: Seq<char>)
    ensures
        utf8_len(s) >= s.len(),
    decreases s.len(),
{
    if s.len() > 0 {
        lemma_utf8_len_at_least(s.drop_last());
        lemma_utf8_len_push(s.drop_last(), s.last());
        assert(s.drop_last().push(s.last()) =~= s);
    }
}

/// Longer prefixes take strictly more bytes.
pub proof fn lemma_utf8_len_strict(s: Seq<char>, j: int, k: int)
    requires
        0 <= j < k <= s.len(),
    ensures
        utf8_len(s.take(j)) < utf8_len(s.take(k)),
{
    lemma_utf8_len_split(s, j, k);
    lemma_utf8_len_at_least(s.subrange(j, k));
}


/// `s` without its leading and trailing white space.
pub open spec fn trimmed(s: Seq<char>) -> Seq<char> {
    let a = ws_skip_fwd(s, 0, s.len() as int);
    s.subrange(a, ws_skip_back(s, a, s.len() as int))
}

/// The characters of `chars` without leading and trailing white space.
pub fn trim_chars(chars: &Vec<char>) -> (r: Vec<char>)
    ensures
        r@ == trimmed(chars@),
{
    let a = trim_start_in(chars, 0, chars.len());
    let b = trim_end_in(chars, a, chars.len());
    let mut out: Vec<char> = Vec::new();
    let mut i: usize = a;
    while i < b
        invariant
            a <= i <= b <= chars@.len(),
            out@ == chars@.subrange(a as int, i as int),
        decreases b - i,
    {
        out.push(chars[i]);
        i = i + 1;
        proof {
            assert(out@ =~= chars@.subrange(a as int, i as int));
        }
    }
    out
}

/// An ASCII letter in lower case; every other character as it is.
pub open spec fn ascii_lower(c: char) -> char {
    if 'A' <= c && c <= 'Z' {
        ((c as int) + 32) as char
    } else {
        c
    }
}

/// `s` with its ASCII letters in lower case.
pub open spec fn ascii_lowercase(s: Seq<char>) -> Seq<char> {
    Seq::new(s.len(), |i: int| ascii_lower(s[i]))
}

/// An ASCII letter in lower case; every other character as it is.
pub fn to_ascii_lower(c: char) -> (r: char)
    ensures
        r == ascii_lower(c),
{
    if 'A' <= c && c <= 'Z' {
        ((c as u8) + 32) as char
    } else {
        c
    }
}

/// Whether `chars`, with its ASCII letters in lower case, spells `word`.
pub fn lowercase_is(chars: &Vec<char>, word: &str) -> (r: bool)
    ensures
        r == (ascii_lowercase(chars@) == word@),
{
    let w = chars_of(word);
    if w.len() != chars.len() {
        proof {
            assert(ascii_lowercase(chars@).len() != word@.len());
        }
        return false;
    }
    let mut i: usize = 0;
    while i < chars.len()
        invariant
            w@ == word@,
            w@.len() == chars@.len(),
            i <= chars@.len(),
            forall|j: int| 0 <= j < i ==> ascii_lower(chars@[j]) == w@[j],
        decreases chars@.len() - i,
    {
        if to_ascii_lower(chars[i]) != w[i] {
            proof {
                assert(ascii_lowercase(chars@)[i as int] != word@[i as int]);
            }
            return false;
        }
        i = i + 1;
    }
    proof {
        assert(ascii_lowercase(chars@) =~= word@);
    }
    true
}

/// An ASCII decimal digit.
pub open spec fn is_digit_char(c: char) -> bool {
    '0' <= c && c <= '9'
}

/// The number that a run of decimal digits spells.
pub open spec fn digits_value(d: Seq<char>) -> int
    decreases d.len(),
{
    if d.len() == 0 {
        0
    } else {
        digits_value(d.drop_last()) * 10 + ((d.last() as int) - ('0' as int))
    }
}

/// Every character of `d` is a decimal digit.
pub open spec fn all_digits(d: Seq<char>) -> bool {
    forall|i: int| 0 <= i < d.len() ==> is_digit_char(#[trigger] d[i])
}

/// `s` without a leading `+` or `-`.
pub open spec fn unsigned_part(s: Seq<char>) -> Seq<char> {
    if s.len() > 0 && (s[0] == '-' || s[0] == '+') {
        s.drop_first()
    } else {
        s
    }
}

/// What `str::parse::<i64>` gives: an optional `+` or `-`, then one or more
/// decimal digits, whose value fits in an `i64`.
pub open spec fn parsed_i64(s: Seq<char>) -> Option<int> {
    let d = unsigned_part(s);
    let v = if s.len() > 0 && s[0] == '-' {
        -digits_value(d)
    } else {
        digits_value(d)
    };
    if d.len() == 0 || !all_digits(d) {
        None
    } else if i64::MIN <= v <= i64::MAX {
        Some(v)
    } else {
        None
    }
}

/// The decimal text of a number is all digits, at least one, and spells it.
pub proof fn lemma_decimal_spells(n: nat)
    ensures
        decimal(n).len() > 0,
        all_digits(decimal(n)),
        digits_value(decimal(n)) == n,
    decreases n,
{
    let d = n % 10;
    assert(digit_char(d) as int - ('0' as int) == d && is_digit_char(digit_char(d))) by {
        if d == 0 {} else if d == 1 {} else if d == 2 {} else if d == 3 {} else if d == 4 {}
        else if d == 5 {} else if d == 6 {} else if d == 7 {} else if d == 8 {} else {}
    }
    if n >= 10 {
        lemma_decimal_spells(n / 10);
        let s = decimal(n);
        assert(s.drop_last() =~= decimal(n / 10));
        assert(s.last() == digit_char(d));
        assert forall|i: int| 0 <= i < s.len() implies is_digit_char(#[trigger] s[i]) by {
            if i < s.len() - 1 {
                assert(s[i] == decimal(n / 10)[i]);
            }
        }
        vstd::arithmetic::div_mod::lemma_fundamental_div_mod(n as int, 10);
    } else {
        let s = decimal(n);
        assert(s.drop_last() =~= Seq::<char>::empty());
        assert(digits_value(Seq::<char>::empty()) == 0);
        assert(s.last() == digit_char(d));
    }
}

/// Text with no white space at either end is its own trimmed text.
pub proof fn lemma_trimmed_unchanged(s: Seq<char>)
    requires
        s.len() > 0,
        !is_white_space(s[0]),
        !is_white_space(s[s.len() - 1]),
    ensures
        trimmed(s) == s,
{
    assert(ws_skip_fwd(s, 0, s.len() as int) == 0);
    assert(ws_skip_back(s, 0, s.len() as int) == s.len());
    assert(s.subrange(0, s.len() as int) =~= s);
}

/// The decimal text of an `i64`, read back as `str::parse::<i64>` reads it,
/// trimmed or not, gives the number.
pub proof fn lemma_int_decimal_parses(n: i64)
    ensures
        trimmed(int_decimal(n as int)) == int_decimal(n as int),
        parsed_i64(int_decimal(n as int)) == Some(n as int),
{
    let t = int_decimal(n as int);
    if n < 0 {
        let m = (-(n as int)) as nat;
        lemma_decimal_spells(m);
        let d = decimal(m);
        assert(t[0] == '-');
        assert(t.drop_first() =~= d);
        assert(t[t.len() - 1] == d[d.len() - 1]);
        assert(is_digit_char(d[d.len() - 1]));
    } else {
        lemma_decimal_spells(n as nat);
        assert(is_digit_char(t[0]));
        assert(is_digit_char(t[t.len() - 1]));
        assert(t[0] != '-' && t[0] != '+');
    }
    lemma_trimmed_unchanged(t);
}

/// Digits never lose value as more digits follow.
pub proof fn lemma_digits_value_grows(d: Seq<char>, i: int, j: int)
    requires
        0 <= i <= j <= d.len(),
        all_digits(d),
    ensures
        0 <= digits_value(d.take(i)) <= digits_value(d.take(j)),
    decreases j,
{
    if j > 0 {
        assert(d.take(j).drop_last() =~= d.take(j - 1));
        if i < j {
            lemma_digits_value_grows(d, i, j - 1);
        } else {
            lemma_digits_value_grows(d, i - 1, j - 1);
        }
    }
}

/// The number in `chars`, as `str::parse::<i64>` reads it.
pub fn parse_i64_chars(chars: &Vec<char>) -> (r: Option<i64>)
    ensures
        r matches Some(n) ==> parsed_i64(chars@) == Some(n as int),
        r is None ==> parsed_i64(chars@) is None,
{
    let ghost s = chars@;
    let n = chars.len();
    let signed = n > 0 && (chars[0] == '-' || chars[0] == '+');
    let negative = n > 0 && chars[0] == '-';
    let start: usize = if signed { 1 } else { 0 };
    let ghost d = unsigned_part(s);
    if start >= n {
        return None;
    }
    let mut acc: u128 = 0;
    let mut i: usize = start;
    while i < n
        invariant
            s == chars@,
            n == s.len(),
            start <= i <= n,
            d == s.subrange(start as int, n as int),
            d == unsigned_part(s),
            d.len() > 0,
            forall|k: int| start <= k < i ==> is_digit_char(#[trigger] s[k]),
            acc == digits_value(d.take(i - start)),
            acc <= 0x8000_0000_0000_0000,
        decreases n - i,
    {
        let c = chars[i];
        if !('0' <= c && c <= '9') {
            proof {
                assert(!is_digit_char(d[i - start]));
                assert(!all_digits(d));
            }
            return None;
        }
        proof {
            assert(d.take(i - start + 1).drop_last() =~= d.take(i - start));
            assert(d.take(i - start + 1).last() == c);
        }
        acc = acc * 10 + ((c as u32) - ('0' as u32)) as u128;
        i = i + 1;
        if acc > 0x8000_0000_0000_0000 {
            proof {
                let dd = d;
                if all_digits(dd) {
                    lemma_digits_value_grows(dd, i - start, dd.len() as int);
                    assert(dd.take(dd.len() as int) =~= dd);
                }
            }
            return None;
        }
    }
    proof {
        assert(d.take(n - start) =~= d);
        assert forall|k: int| 0 <= k < d.len() implies is_digit_char(#[trigger] d[k]) by {
            assert(d[k] == s[k + start]);
        }
        assert(all_digits(d));
    }
    if negative {
        let v: i128 = 0i128 - (acc as i128);
        Some(v as i64)
    } else if acc <= 0x7fff_ffff_ffff_ffff {
        Some(acc as i64)
    } else {
        None
    }
}

} // verus!