//! What holds of the evaluator across its operations.
use vstd::prelude::*;
use super::binary::{lookup, spec_binary};
use super::node::{assign_at, map_insert, SegmentModel};
use super::numbers::{
    spec_add_numbers, spec_divide_numbers, spec_modulo_numbers, spec_multiply_numbers,
    spec_subtract_numbers,
};
use super::ops::OperationId;
use super::traversal::spec_traversal;
use super::unary::{
    extreme, extreme_from, float_number, insert_by_key, unique_items, value_eq, join_texts, sort_by_key, sort_key, spec_unary, split_parts, split_scan, string_models, text_lt,
};
use crate::text::digit_char;
use super::{float_is_nan, float_lt, float_rank, float_of_int, float_text, FloatAnswer, FloatQuery, Numeric, QueryModel, ValueModel};

verus! {

/// The entries' keys ascend strictly: each key once, in order.
pub open spec fn keys_ascending(es: Seq<(Seq<char>, ValueModel)>) -> bool {
    forall|i: int, j: int| 0 <= i < j < es.len() ==> #[trigger] text_lt(es[i].0, es[j].0)
}

/// A value whose objects, at every depth, hold their keys in ascending
/// order, each once.
pub open spec fn model_wf(m: ValueModel) -> bool
    decreases m,
{
    match m {
        ValueModel::Array(items) => items_wf(items),
        ValueModel::Object(es) => keys_ascending(es) && entries_wf(es),
        _ => true,
    }
}

pub open spec fn items_wf(items: Seq<ValueModel>) -> bool
    decreases items,
{
    items.len() == 0 || (items_wf(items.drop_last()) && model_wf(items[items.len() - 1]))
}

pub open spec fn entries_wf(es: Seq<(Seq<char>, ValueModel)>) -> bool
    decreases es,
{
    es.len() == 0 || (entries_wf(es.drop_last()) && model_wf(es[es.len() - 1].1))
}

proof fn lemma_text_lt_irreflexive(a: Seq<char>)
    ensures
        !text_lt(a, a),
    decreases a.len(),
{
    if a.len() > 0 {
        lemma_text_lt_irreflexive(a.drop_first());
    }
}

proof fn lemma_text_lt_transitive(a: Seq<char>, b: Seq<char>, c: Seq<char>)
    requires
        text_lt(a, b),
        text_lt(b, c),
    ensures
        text_lt(a, c),
    decreases a.len(),
{
    if a.len() > 0 && a[0] == b[0] && b[0] == c[0] {
        lemma_text_lt_transitive(a.drop_first(), b.drop_first(), c.drop_first());
    }
}

proof fn lemma_text_lt_total(a: Seq<char>, b: Seq<char>)
    requires
        a != b,
    ensures
        text_lt(a, b) || text_lt(b, a),
    decreases a.len(),
{
    if a.len() > 0 && b.len() > 0 && a[0] == b[0] {
        if a.drop_first() == b.drop_first() {
            assert(a =~= seq![a[0]] + a.drop_first());
            assert(b =~= seq![b[0]] + b.drop_first());
        }
        lemma_text_lt_total(a.drop_first(), b.drop_first());
    } else if a.len() > 0 && b.len() > 0 {
        lemma_char_code_injective(a[0], b[0]);
    } else if a.len() == 0 && b.len() == 0 {
        assert(a =~= b);
    }
}

proof fn lemma_char_code_injective(c: char, d: char)
    requires
        c != d,
    ensures
        (c as u32) != (d as u32),
{
    assert((c as u32) as char == c);
    assert((d as u32) as char == d);
}

/// A lookup in entries with one more at the end finds what it found
/// before, else the new entry where its key is the one sought.
proof fn lemma_lookup_push(s: Seq<(Seq<char>, ValueModel)>, x: (Seq<char>, ValueModel), k: Seq<char>)
    ensures
        lookup(s.push(x), k) == (if lookup(s, k) is Some {
            lookup(s, k)
        } else if x.0 == k {
            Some(x.1)
        } else {
            None
        }),
    decreases s.len(),
{
    if s.len() > 0 {
        assert(s.push(x)[0] == s[0]);
        assert(s.push(x).drop_first() =~= s.drop_first().push(x));
        lemma_lookup_push(s.drop_first(), x, k);
    } else {
        assert(s.push(x)[0] == x);
        assert(s.push(x).drop_first() =~= Seq::<(Seq<char>, ValueModel)>::empty());
        assert(lookup(Seq::<(Seq<char>, ValueModel)>::empty(), k) is None);
        assert(lookup(s, k) is None);
    }
}

/// No entry of `s` has the key `k`.
proof fn lemma_lookup_absent(s: Seq<(Seq<char>, ValueModel)>, k: Seq<char>)
    requires
        forall|j: int| 0 <= j < s.len() ==> #[trigger] s[j].0 != k,
    ensures
        lookup(s, k) is None,
    decreases s.len(),
{
    if s.len() > 0 {
        assert forall|j: int| 0 <= j < s.drop_first().len() implies #[trigger] s.drop_first()[j].0 != k by {
            assert(s.drop_first()[j] == s[j + 1]);
        }
        lemma_lookup_absent(s.drop_first(), k);
    }
}

/// Each key of an insert's result is the inserted key or a key of before.
proof fn lemma_map_insert_keys(es: Seq<(Seq<char>, ValueModel)>, k: Seq<char>, v: ValueModel)
    ensures
        forall|i: int| 0 <= i < map_insert(es, k, v).len() ==> #[trigger] map_insert(es, k, v)[i].0 == k
            || exists|j: int| 0 <= j < es.len() && es[j].0 == map_insert(es, k, v)[i].0,
    decreases es.len(),
{
    if es.len() > 0 {
        let last = es[es.len() - 1];
        let d = es.drop_last();
        lemma_map_insert_keys(d, k, v);
        let r = map_insert(es, k, v);
        assert forall|i: int| 0 <= i < r.len() implies #[trigger] r[i].0 == k || exists|j: int|
            0 <= j < es.len() && es[j].0 == r[i].0 by {
            if last.0 == k {
                if i < d.len() {
                    assert(es[i] == d[i]);
                }
            } else if text_lt(k, last.0) {
                let m = map_insert(d, k, v);
                if i < m.len() {
                    if m[i].0 != k {
                        let j = choose|j: int| 0 <= j < d.len() && d[j].0 == m[i].0;
                        assert(es[j] == d[j]);
                    }
                } else {
                    assert(r[i] == last);
                }
            } else {
                if i < es.len() {
                    assert(r[i] == es[i]);
                }
            }
        }
    }
}

/// Writing `v` at key `k` into entries whose keys ascend: the keys still
/// ascend, `k` reads back `v`, and every other key reads back what it did.
pub proof fn law_object_insert(es: Seq<(Seq<char>, ValueModel)>, k: Seq<char>, v: ValueModel, other: Seq<char>)
    requires
        keys_ascending(es),
        other != k,
    ensures
        keys_ascending(map_insert(es, k, v)),
        lookup(map_insert(es, k, v), k) == Some(v),
        lookup(map_insert(es, k, v), other) == lookup(es, other),
    decreases es.len(),
{
    let r = map_insert(es, k, v);
    if es.len() == 0 {
        assert(r =~= seq![(k, v)]);
        assert(r[0] == (k, v));
        assert(r.drop_first() =~= Seq::<(Seq<char>, ValueModel)>::empty());
        assert(lookup(Seq::<(Seq<char>, ValueModel)>::empty(), other) is None);
        assert(lookup(es, other) is None);
    } else {
        let last = es[es.len() - 1];
        let d = es.drop_last();
        assert(keys_ascending(d)) by {
            assert forall|i: int, j: int| 0 <= i < j < d.len() implies #[trigger] text_lt(d[i].0, d[j].0) by {
                assert(d[i] == es[i] && d[j] == es[j]);
                assert(text_lt(es[i].0, es[j].0));
            }
        }
        assert forall|j: int| 0 <= j < d.len() implies #[trigger] text_lt(d[j].0, last.0) by {
            assert(d[j] == es[j]);
            assert(text_lt(es[j].0, es[es.len() - 1].0));
        }
        assert(es =~= d.push(last));
        lemma_lookup_push(d, last, other);
        if last.0 == k {
            assert(r == d.push((k, v)));
            lemma_lookup_push(d, (k, v), k);
            lemma_lookup_push(d, (k, v), other);
            assert forall|j: int| 0 <= j < d.len() implies #[trigger] d[j].0 != k by {
                lemma_text_lt_irreflexive(k);
                assert(text_lt(d[j].0, last.0));
            }
            lemma_lookup_absent(d, k);
            assert forall|i: int, j: int| 0 <= i < j < r.len() implies #[trigger] text_lt(r[i].0, r[j].0) by {
                assert(r[i].0 == es[i].0 && r[j].0 == es[j].0);
                assert(text_lt(es[i].0, es[j].0));
            }
        } else if text_lt(k, last.0) {
            let m = map_insert(d, k, v);
            law_object_insert(d, k, v, other);
            assert(r == m.push(last));
            lemma_lookup_push(m, last, k);
            lemma_lookup_push(m, last, other);
            lemma_map_insert_keys(d, k, v);
            assert forall|i: int, j: int| 0 <= i < j < r.len() implies #[trigger] text_lt(r[i].0, r[j].0) by {
                if j < m.len() {
                    assert(r[i] == m[i] && r[j] == m[j]);
                    assert(text_lt(m[i].0, m[j].0));
                } else {
                    assert(r[i] == m[i] && r[j] == last);
                    if m[i].0 != k {
                        let q = choose|q: int| 0 <= q < d.len() && d[q].0 == m[i].0;
                        assert(text_lt(d[q].0, last.0));
                    }
                }
            }
        } else {
            assert(r == es.push((k, v)));
            lemma_text_lt_total(k, last.0);
            assert forall|j: int| 0 <= j < es.len() implies #[trigger] text_lt(es[j].0, k) by {
                if j < d.len() {
                    assert(text_lt(d[j].0, last.0));
                    assert(d[j] == es[j]);
                    lemma_text_lt_transitive(es[j].0, last.0, k);
                }
            }
            assert forall|j: int| 0 <= j < es.len() implies #[trigger] es[j].0 != k by {
                lemma_text_lt_irreflexive(k);
                assert(text_lt(es[j].0, k));
            }
            lemma_lookup_absent(es, k);
            lemma_lookup_push(es, (k, v), k);
            lemma_lookup_push(es, (k, v), other);
            assert forall|i: int, j: int| 0 <= i < j < r.len() implies #[trigger] text_lt(r[i].0, r[j].0) by {
                if j < es.len() {
                    assert(r[i] == es[i] && r[j] == es[j]);
                    assert(text_lt(es[i].0, es[j].0));
                } else {
                    assert(r[i] == es[i]);
                    assert(text_lt(es[i].0, k));
                }
            }
        }
    }
}

/// An assignment to a key reads back through that key: writing `v` at
/// `.k` of any value (an object whose keys ascend, or anything else, which
/// the write turns into an object), then stepping into `.k`, gives `v`.
pub proof fn law_assign_then_read<F: Fn(FloatQuery) -> FloatAnswer>(f: F, target: ValueModel, k: Seq<char>, v: ValueModel)
    requires
        target matches ValueModel::Object(es) ==> keys_ascending(es),
    ensures
        spec_traversal(
            f,
            OperationId::TraversePath,
            assign_at(target, seq![SegmentModel::Key(k)], 0, v),
            ValueModel::Str(k),
        ) == Ok::<ValueModel, super::ErrorModel>(v),
{
    let es = match target {
        ValueModel::Object(es) => es,
        _ => Seq::empty(),
    };
    let p = seq![SegmentModel::Key(k)];
    assert(assign_at(match lookup(es, k) {
        Some(w) => w,
        None => ValueModel::Null,
    }, p, 1, v) == v);
    let other = k.push('_');
    assert(other.len() != k.len());
    law_object_insert(es, k, v, other);
}

/// A float on either side keeps the result a float: a whole float such as
/// `12.0` is never turned into an integer by arithmetic.
pub proof fn law_float_stays_float<F: Fn(FloatQuery) -> FloatAnswer>(f: F, l: Numeric, r: Numeric)
    requires
        l is Float || r is Float,
    ensures
        spec_add_numbers(f, l, r) is Float,
        spec_subtract_numbers(f, l, r) is Float,
        spec_multiply_numbers(f, l, r) is Float,
        spec_divide_numbers(f, l, r) matches Ok(n) ==> n is Float,
        spec_modulo_numbers(f, l, r) matches Ok(n) ==> n is Float,
{
}

/// Integer arithmetic that leaves the `i64` range goes on in floats
/// rather than failing.
pub proof fn law_integer_overflow_promotes<F: Fn(FloatQuery) -> FloatAnswer>(f: F, a: i64, b: i64)
    ensures
        !(i64::MIN <= a + b <= i64::MAX) ==> spec_add_numbers(f, Numeric::Int(a), Numeric::Int(b)) is Float,
        !(i64::MIN <= a - b <= i64::MAX) ==> spec_subtract_numbers(f, Numeric::Int(a), Numeric::Int(b)) is Float,
        !(i64::MIN <= a * b <= i64::MAX) ==> spec_multiply_numbers(f, Numeric::Int(a), Numeric::Int(b)) is Float,
        (i64::MIN <= a + b <= i64::MAX) ==> spec_add_numbers(f, Numeric::Int(a), Numeric::Int(b)) == Numeric::Int((a + b) as i64),
{
}


/// `q` times `b`.
pub open spec fn times(q: int, b: int) -> int {
    q * b
}

/// `x` and `d` at or above zero split into `d` whole parts and a rest
/// below `d`.
proof fn lemma_split_div(x: int, d: int)
    requires
        0 <= x,
        0 < d,
    ensures
        x == d * (x / d) + x % d,
        0 <= x % d < d,
        0 <= x / d <= x,
{
    vstd::arithmetic::div_mod::lemma_fundamental_div_mod(x, d);
    vstd::arithmetic::div_mod::lemma_mod_pos_bound(x, d);
    let q = x / d;
    let r = x % d;
    assert(0 <= q <= x) by (nonlinear_arith)
        requires
            x == d * q + r,
            0 <= r < d,
            0 <= x,
            0 < d,
    ;
}

/// A multiple of `d` leaves no rest.
proof fn lemma_multiple_rest(q: int, d: int)
    requires
        0 <= q,
        0 < d,
    ensures
        (q * d) % d == 0,
        (q * d) / d == q,
{
    vstd::arithmetic::div_mod::lemma_mod_multiples_basic(q, d);
    vstd::arithmetic::div_mod::lemma_div_by_multiple(q, d);
}

/// Integer arithmetic is exact while it stays in the `i64` range: a sum,
/// difference or product of two integers is the integer sum, difference or
/// product; an integer quotient times the divisor gives back the dividend,
/// and one is given whenever the divisor divides the dividend; a remainder
/// is smaller than the divisor, takes the dividend's sign and leaves a
/// multiple of the divisor.
pub proof fn law_integer_arithmetic_is_exact<F: Fn(FloatQuery) -> FloatAnswer>(f: F, a: i64, b: i64)
    ensures
        i64::MIN <= a + b <= i64::MAX ==> spec_add_numbers(f, Numeric::Int(a), Numeric::Int(b))
            == Numeric::Int((a + b) as i64),
        i64::MIN <= a - b <= i64::MAX ==> spec_subtract_numbers(f, Numeric::Int(a), Numeric::Int(b))
            == Numeric::Int((a - b) as i64),
        i64::MIN <= a * b <= i64::MAX ==> spec_multiply_numbers(f, Numeric::Int(a), Numeric::Int(b))
            == Numeric::Int((a * b) as i64),
        spec_divide_numbers(f, Numeric::Int(a), Numeric::Int(b)) matches Ok(Numeric::Int(q)) ==> q * b == a,
        (b != 0 && !(a == i64::MIN && b == -1) && exists|q: int| #[trigger] times(q, b as int) == a) ==> spec_divide_numbers(
            f,
            Numeric::Int(a),
            Numeric::Int(b),
        ) matches Ok(Numeric::Int(_)),
        (b != 0 && !(a == i64::MIN && b == -1)) ==> (spec_modulo_numbers(f, Numeric::Int(a), Numeric::Int(b))
            matches Ok(Numeric::Int(r)) && (if b > 0 { -b < r < b } else { b < r < -b }) && (r == 0 || (r < 0)
            == (a < 0)) && exists|q: int| a - r == #[trigger] times(q, b as int)),
{
    let x = a as int;
    let d = b as int;
    if d != 0 {
        let ax = if x < 0 { -x } else { x };
        let ad = if d < 0 { -d } else { d };
        lemma_split_div(ax, ad);
        let q0 = ax / ad;
        let r0 = ax % ad;
        if !(a == i64::MIN && b == -1) {
            // the remainder
            let r = a.checked_rem(b);
            assert(r is Some);
            let rv = r->0 as int;
            if x == 0 {
                assert(rv == 0);
                assert(x - rv == times(0, d));
            } else if x > 0 && d > 0 {
                assert(rv == r0);
                assert(x - rv == times(q0, d)) by (nonlinear_arith)
                    requires ax == ad * q0 + r0, x == ax, d == ad, rv == r0;
            } else if x < 0 && d < 0 {
                assert(rv == -r0);
                assert(x - rv == times(q0, d)) by (nonlinear_arith)
                    requires ax == ad * q0 + r0, x == -ax, d == -ad, rv == -r0;
            } else if x < 0 {
                assert(rv == -r0);
                assert(x - rv == times(-q0, d)) by (nonlinear_arith)
                    requires ax == ad * q0 + r0, x == -ax, d == ad, rv == -r0;
            } else {
                assert(rv == r0);
                assert(x - rv == times(-q0, d)) by (nonlinear_arith)
                    requires ax == ad * q0 + r0, x == ax, d == -ad, rv == r0;
            }
            // an exact quotient
            if exists|q: int| #[trigger] times(q, b as int) == a {
                let q = choose|q: int| #[trigger] times(q, b as int) == a;
                let aq = if q < 0 { -q } else { q };
                assert(ax == aq * ad) by (nonlinear_arith)
                    requires times(q, d) == x, ax == (if x < 0 { -x } else { x }), ad == (if d < 0 { -d } else { d }), aq == (if q < 0 { -q } else { q });
                assert(0 <= aq);
                lemma_multiple_rest(aq, ad);
                assert(r0 == 0);
                assert(ax == ad * q0);
                if ad == 1 {
                    assert(q0 == ax) by (nonlinear_arith)
                        requires ax == ad * q0, ad == 1;
                } else {
                    assert(q0 * 2 <= ax) by (nonlinear_arith)
                        requires ax == ad * q0, ad >= 2, q0 >= 0;
                }
                assert(a.checked_rem(b) == Some(0i64));
                assert(a.checked_div(b) is Some);
            }
        }
        if a.checked_rem(b) == Some(0i64) {
            let c = a.checked_div(b);
            if c is Some {
                let cv = c->0 as int;
                assert(r0 == 0);
                if x == 0 {
                    assert(cv * d == x);
                } else if x > 0 && d > 0 {
                    assert(cv * d == x) by (nonlinear_arith)
                        requires ax == ad * q0 + r0, r0 == 0, x == ax, d == ad, cv == q0;
                } else if x < 0 && d < 0 {
                    assert(cv * d == x) by (nonlinear_arith)
                        requires ax == ad * q0 + r0, r0 == 0, x == -ax, d == -ad, cv == q0;
                } else if x < 0 {
                    assert(cv * d == x) by (nonlinear_arith)
                        requires ax == ad * q0 + r0, r0 == 0, x == -ax, d == ad, cv == -q0;
                } else {
                    assert(cv * d == x) by (nonlinear_arith)
                        requires ax == ad * q0 + r0, r0 == 0, x == ax, d == -ad, cv == -q0;
                }
            }
        }
    }
}


/// `10` to the power `w`.
pub open spec fn pow10(w: nat) -> nat
    decreases w,
{
    if w == 0 {
        1
    } else {
        10 * pow10((w - 1) as nat)
    }
}

/// `n` in exactly `w` decimal digits, zeros in front: what `{:0w}` prints
/// for the whole float `n` below `10` to the `w`.
pub open spec fn zero_padded(n: nat, w: nat) -> Seq<char>
    decreases w,
{
    if w == 0 {
        Seq::empty()
    } else {
        zero_padded(n / 10, (w - 1) as nat).push(digit_char(n % 10))
    }
}

proof fn lemma_digit_char_code(d: nat)
    requires
        d < 10,
    ensures
        digit_char(d) as u32 == 48 + d,
{
}

/// Texts of one length, each with a character more, compare first by the
/// texts, then by the added characters.
proof fn lemma_text_lt_push(a: Seq<char>, b: Seq<char>, c: char, d: char)
    requires
        a.len() == b.len(),
    ensures
        text_lt(a.push(c), b.push(d)) == (text_lt(a, b) || (a == b && (c as u32) < (d as u32))),
    decreases a.len(),
{
    if a.len() == 0 {
        assert(a =~= b);
        assert(a.push(c)[0] == c);
        assert(b.push(d)[0] == d);
        assert(a.push(c).drop_first() =~= Seq::<char>::empty());
        assert(b.push(d).drop_first() =~= Seq::<char>::empty());
        assert(!text_lt(Seq::<char>::empty(), Seq::<char>::empty()));
        assert(!text_lt(a, b));
        if c != d {
            lemma_char_code_injective(c, d);
        }
    } else {
        assert(a.push(c)[0] == a[0]);
        assert(b.push(d)[0] == b[0]);
        assert(a.push(c).drop_first() =~= a.drop_first().push(c));
        assert(b.push(d).drop_first() =~= b.drop_first().push(d));
        if a[0] != b[0] {
            lemma_char_code_injective(a[0], b[0]);
        } else {
            lemma_text_lt_push(a.drop_first(), b.drop_first(), c, d);
            if a.drop_first() == b.drop_first() {
                assert(a =~= seq![a[0]] + a.drop_first());
                assert(b =~= seq![b[0]] + b.drop_first());
            }
        }
    }
}

/// A shared front does not change how two texts compare.
proof fn lemma_text_lt_prefix(p: Seq<char>, a: Seq<char>, b: Seq<char>)
    ensures
        text_lt(p + a, p + b) == text_lt(a, b),
    decreases p.len(),
{
    if p.len() > 0 {
        assert((p + a)[0] == p[0]);
        assert((p + b)[0] == p[0]);
        assert((p + a).drop_first() =~= p.drop_first() + a);
        assert((p + b).drop_first() =~= p.drop_first() + b);
        lemma_text_lt_prefix(p.drop_first(), a, b);
    } else {
        assert(p + a =~= a);
        assert(p + b =~= b);
    }
}

/// Zero-padded numbers of one width order as the numbers do.
proof fn lemma_zero_padded_order(x: nat, y: nat, w: nat)
    requires
        x < y < pow10(w),
    ensures
        text_lt(zero_padded(x, w), zero_padded(y, w)),
    decreases w,
{
    lemma_zero_padded_len(x, w);
    lemma_zero_padded_len(y, w);
    if w == 0 {
        assert(false);
    } else {
        let p = pow10((w - 1) as nat);
        assert(x / 10 <= y / 10 < p) by (nonlinear_arith)
            requires
                x < y,
                y < 10 * p,
        ;
        lemma_digit_char_code(x % 10);
        lemma_digit_char_code(y % 10);
        lemma_zero_padded_len(x / 10, (w - 1) as nat);
        lemma_zero_padded_len(y / 10, (w - 1) as nat);
        lemma_text_lt_push(zero_padded(x / 10, (w - 1) as nat), zero_padded(y / 10, (w - 1) as nat), digit_char(x % 10), digit_char(y % 10));
        if x / 10 < y / 10 {
            lemma_zero_padded_order(x / 10, y / 10, (w - 1) as nat);
        } else {
            assert(x % 10 < y % 10) by (nonlinear_arith)
                requires
                    x < y,
                    x / 10 == y / 10,
            ;
        }
    }
}

proof fn lemma_zero_padded_len(n: nat, w: nat)
    ensures
        zero_padded(n, w).len() == w,
    decreases w,
{
    if w > 0 {
        lemma_zero_padded_len(n / 10, (w - 1) as nat);
    }
}

/// Numbers sort in numeric order: for two integers `0 <= x < y`, the sort
/// key of `x` comes before that of `y`, where the float service pads
/// whole floats to twenty digits as `{:020}` does.
pub proof fn law_numbers_sort_in_numeric_order<F: Fn(FloatQuery) -> FloatAnswer>(f: F, x: i64, y: i64)
    requires
        0 <= x < y,
        float_text(f, QueryModel::Padded(float_of_int(f, x))) == zero_padded(x as nat, 20),
        float_text(f, QueryModel::Padded(float_of_int(f, y))) == zero_padded(y as nat, 20),
    ensures
        text_lt(sort_key(f, ValueModel::Number(Numeric::Int(x))), sort_key(f, ValueModel::Number(Numeric::Int(y)))),
        !text_lt(sort_key(f, ValueModel::Number(Numeric::Int(y))), sort_key(f, ValueModel::Number(Numeric::Int(x)))),
{
    reveal_with_fuel(pow10, 21);
    assert(pow10(20) == 100000000000000000000nat);
    lemma_zero_padded_order(x as nat, y as nat, 20);
    lemma_text_lt_prefix("2:"@, zero_padded(x as nat, 20), zero_padded(y as nat, 20));
    let kx = sort_key(f, ValueModel::Number(Numeric::Int(x)));
    let ky = sort_key(f, ValueModel::Number(Numeric::Int(y)));
    if text_lt(ky, kx) {
        lemma_text_lt_transitive(kx, ky, kx);
        lemma_text_lt_irreflexive(kx);
    }
}


/// No key comes after a smaller one.
pub open spec fn keys_in_order(s: Seq<(Seq<char>, ValueModel)>) -> bool {
    forall|i: int, j: int| 0 <= i < j < s.len() ==> !text_lt(#[trigger] s[j].0, #[trigger] s[i].0)
}

/// `a` not after `b` and `b` not after `c` puts `a` not after `c`.
proof fn lemma_not_lt_chain(a: Seq<char>, b: Seq<char>, c: Seq<char>)
    requires
        !text_lt(b, a),
        !text_lt(c, b),
    ensures
        !text_lt(c, a),
{
    if text_lt(c, a) && b != c {
        lemma_text_lt_total(b, c);
        lemma_text_lt_transitive(b, c, a);
    }
}

/// An insertion holds the entries before it and the new one, in order.
proof fn lemma_insert_by_key(s: Seq<(Seq<char>, ValueModel)>, x: (Seq<char>, ValueModel))
    requires
        keys_in_order(s),
    ensures
        insert_by_key(s, x).len() == s.len() + 1,
        keys_in_order(insert_by_key(s, x)),
        forall|i: int| 0 <= i < insert_by_key(s, x).len() ==> #[trigger] insert_by_key(s, x)[i] == x
            || exists|k: int| 0 <= k < s.len() && s[k] == insert_by_key(s, x)[i],
    decreases s.len(),
{
    let r = insert_by_key(s, x);
    if s.len() == 0 {
        assert(r =~= seq![x]);
    } else {
        let n = s.len();
        let last = s[n - 1];
        let d = s.drop_last();
        assert(keys_in_order(d)) by {
            assert forall|i: int, j: int| 0 <= i < j < d.len() implies !text_lt(#[trigger] d[j].0, #[trigger] d[i].0) by {
                assert(d[i] == s[i] && d[j] == s[j]);
                assert(!text_lt(s[j].0, s[i].0));
            }
        }
        if text_lt(x.0, last.0) {
            let m = insert_by_key(d, x);
            lemma_insert_by_key(d, x);
            assert(r == m.push(last));
            assert forall|i: int| 0 <= i < r.len() implies #[trigger] r[i] == x
                || exists|k: int| 0 <= k < s.len() && s[k] == r[i] by {
                if i < m.len() {
                    assert(r[i] == m[i]);
                    if m[i] != x {
                        let k = choose|k: int| 0 <= k < d.len() && d[k] == m[i];
                        assert(s[k] == d[k]);
                    }
                } else {
                    assert(r[i] == s[n - 1]);
                }
            }
            assert forall|i: int, j: int| 0 <= i < j < r.len() implies !text_lt(#[trigger] r[j].0, #[trigger] r[i].0) by {
                if j < m.len() {
                    assert(r[i] == m[i] && r[j] == m[j]);
                } else {
                    assert(r[j] == last);
                    assert(r[i] == m[i]);
                    if m[i] == x {
                        if text_lt(last.0, x.0) {
                            lemma_text_lt_transitive(x.0, last.0, x.0);
                            lemma_text_lt_irreflexive(x.0);
                        }
                    } else {
                        let k = choose|k: int| 0 <= k < d.len() && d[k] == m[i];
                        assert(s[k] == d[k]);
                        assert(!text_lt(s[n - 1].0, s[k].0));
                    }
                }
            }
        } else {
            assert(r == s.push(x));
            assert forall|i: int| 0 <= i < r.len() implies #[trigger] r[i] == x
                || exists|k: int| 0 <= k < s.len() && s[k] == r[i] by {
                if i < n {
                    assert(r[i] == s[i]);
                }
            }
            assert forall|i: int, j: int| 0 <= i < j < r.len() implies !text_lt(#[trigger] r[j].0, #[trigger] r[i].0) by {
                if j < n {
                    assert(r[i] == s[i] && r[j] == s[j]);
                } else {
                    assert(r[j] == x);
                    assert(r[i] == s[i]);
                    if i < n - 1 {
                        assert(!text_lt(s[n - 1].0, s[i].0));
                        lemma_not_lt_chain(s[i].0, s[n - 1].0, x.0);
                    }
                }
            }
        }
    }
}

/// Sorting by key keeps every entry and puts the keys in order: no entry
/// of the result has a key smaller than one before it, and each entry of
/// the result is one of the input's.
pub proof fn law_sort_by_key_orders_keys(s: Seq<(Seq<char>, ValueModel)>)
    ensures
        sort_by_key(s).len() == s.len(),
        keys_in_order(sort_by_key(s)),
        forall|i: int| 0 <= i < sort_by_key(s).len() ==> exists|k: int| 0 <= k < s.len() && s[k] == #[trigger] sort_by_key(s)[i],
    decreases s.len(),
{
    if s.len() > 0 {
        let d = s.drop_last();
        let x = s[s.len() - 1];
        law_sort_by_key_orders_keys(d);
        lemma_insert_by_key(sort_by_key(d), x);
        let r = sort_by_key(s);
        assert forall|i: int| 0 <= i < r.len() implies exists|k: int| 0 <= k < s.len() && s[k] == #[trigger] r[i] by {
            if r[i] != x {
                let k = choose|k: int| 0 <= k < sort_by_key(d).len() && sort_by_key(d)[k] == r[i];
                let k2 = choose|k2: int| 0 <= k2 < d.len() && d[k2] == sort_by_key(d)[k];
                assert(s[k2] == d[k2]);
            } else {
                assert(s[s.len() - 1] == r[i]);
            }
        }
    }
}


proof fn lemma_split_scan_nonempty(s: Seq<char>, sep: Seq<char>, start: int, i: int)
    requires
        0 <= start <= i <= s.len(),
        sep.len() > 0,
    ensures
        split_scan(s, sep, start, i).len() >= 1,
    decreases s.len() - i,
{
    if i + sep.len() <= s.len() {
        if s.subrange(i, i + sep.len()) == sep {
            lemma_split_scan_nonempty(s, sep, i + sep.len(), i + sep.len());
        } else {
            lemma_split_scan_nonempty(s, sep, start, i + 1);
        }
    }
}

/// Joining a piece in front of a non-empty list puts it and a separator in
/// front of the list's join.
proof fn lemma_join_front(x: Seq<char>, l: Seq<Seq<char>>, sep: Seq<char>)
    requires
        l.len() >= 1,
    ensures
        join_texts(seq![x] + l, sep) == x + sep + join_texts(l, sep),
    decreases l.len(),
{
    let xl = seq![x] + l;
    assert(xl[xl.len() - 1] == l[l.len() - 1]);
    if l.len() == 1 {
        assert(xl.drop_last() =~= seq![x]);
        assert(join_texts(seq![x], sep) == x);
        assert(join_texts(l, sep) == l[0]);
    } else {
        assert(xl.drop_last() =~= seq![x] + l.drop_last());
        lemma_join_front(x, l.drop_last(), sep);
        assert(x + sep + join_texts(l, sep) =~= x + sep + join_texts(l.drop_last(), sep) + sep + l[l.len() - 1]);
    }
}

proof fn lemma_join_split_scan(s: Seq<char>, sep: Seq<char>, start: int, i: int)
    requires
        0 <= start <= i <= s.len(),
        sep.len() > 0,
    ensures
        join_texts(split_scan(s, sep, start, i), sep) == s.subrange(start, s.len() as int),
    decreases s.len() - i,
{
    let k = sep.len() as int;
    if i + k > s.len() {
        assert(join_texts(seq![s.subrange(start, s.len() as int)], sep) == s.subrange(start, s.len() as int));
    } else if s.subrange(i, i + k) == sep {
        let rest = split_scan(s, sep, i + k, i + k);
        lemma_split_scan_nonempty(s, sep, i + k, i + k);
        lemma_join_split_scan(s, sep, i + k, i + k);
        lemma_join_front(s.subrange(start, i), rest, sep);
        assert(s.subrange(start, i) + sep + s.subrange(i + k, s.len() as int) =~= s.subrange(start, s.len() as int));
    } else {
        lemma_join_split_scan(s, sep, start, i + 1);
    }
}

proof fn lemma_join_chars(s: Seq<char>, n: int)
    requires
        0 <= n <= s.len(),
    ensures
        join_texts(Seq::new(n as nat, |i: int| seq![s[i]]), Seq::<char>::empty()) == s.take(n),
    decreases n,
{
    let l = Seq::new(n as nat, |i: int| seq![s[i]]);
    if n == 0 {
        assert(s.take(0) =~= Seq::<char>::empty());
    } else if n == 1 {
        assert(s.take(1) =~= seq![s[0]]);
    } else {
        assert(l.drop_last() =~= Seq::new((n - 1) as nat, |i: int| seq![s[i]]));
        lemma_join_chars(s, n - 1);
        assert(s.take(n - 1) + Seq::<char>::empty() + seq![s[n - 1]] =~= s.take(n));
    }
}

/// Joining what a split gives, with the same separator, gives the text
/// back; so a `join` with the same call argument undoes a `split`.
pub proof fn law_join_undoes_split<F: Fn(FloatQuery) -> FloatAnswer>(f: F, s: Seq<char>, sep: Seq<char>, op_text: Seq<char>)
    ensures
        join_texts(split_parts(s, sep), sep) == s,
        match spec_unary(f, OperationId::Split, op_text, ValueModel::Str(s)) {
            Ok(parts) => spec_unary(f, OperationId::Join, op_text, parts) == Ok::<ValueModel, super::ErrorModel>(ValueModel::Str(s)),
            Err(_) => false,
        },
{
    lemma_join_split(s, sep);
    let a = super::unary::string_argument(op_text);
    let p = split_parts(s, a);
    lemma_join_split(s, a);
    let items = string_models(p);
    assert(spec_unary(f, OperationId::Split, op_text, ValueModel::Str(s)) == Ok::<ValueModel, super::ErrorModel>(ValueModel::Array(items)));
    let rendered = Seq::new(items.len(), |i: int| super::render_text(f, items[i]));
    assert forall|i: int| 0 <= i < p.len() implies rendered[i] == p[i] by {
        assert(items[i] == ValueModel::Str(p[i]));
    }
    assert(rendered =~= p);
    assert(spec_unary(f, OperationId::Join, op_text, ValueModel::Array(items)) == Ok::<ValueModel, super::ErrorModel>(ValueModel::Str(join_texts(rendered, a))));
}

proof fn lemma_join_split(s: Seq<char>, sep: Seq<char>)
    ensures
        join_texts(split_parts(s, sep), sep) == s,
{
    if sep.len() == 0 {
        let l = Seq::new(s.len(), |i: int| seq![s[i]]);
        assert(split_parts(s, sep) == l);
        lemma_join_chars(s, s.len() as int);
        assert(l =~= Seq::new(s.len() as int as nat, |i: int| seq![s[i]]));
        assert(sep =~= Seq::<char>::empty());
        assert(s.take(s.len() as int) =~= s);
    } else {
        lemma_join_split_scan(s, sep, 0, 0);
        assert(s.subrange(0, s.len() as int) =~= s);
    }
}

/// The rank of a value's kind in a sort: null, then booleans, numbers,
/// strings, and arrays and objects last.
pub open spec fn kind_rank(m: ValueModel) -> int {
    match m {
        ValueModel::Null => 0,
        ValueModel::Bool(_) => 1,
        ValueModel::Number(_) => 2,
        ValueModel::Str(_) => 3,
        _ => 4,
    }
}

proof fn lemma_sort_key_head<F: Fn(FloatQuery) -> FloatAnswer>(f: F, m: ValueModel)
    ensures
        sort_key(f, m).len() > 0,
        sort_key(f, m)[0] as u32 == 48 + kind_rank(m),
{
    reveal_strlit("0:null");
    reveal_strlit("1:");
    reveal_strlit("2:");
    reveal_strlit("3:");
    reveal_strlit("4:");
    let k = sort_key(f, m);
    match m {
        ValueModel::Null => {},
        ValueModel::Bool(b) => { assert(k[0] == "1:"@[0]); },
        ValueModel::Number(n) => { assert(k[0] == "2:"@[0]); },
        ValueModel::Str(s) => { assert(k[0] == "3:"@[0]); },
        _ => { assert(k[0] == "4:"@[0]); },
    }
}

/// Sorting orders kinds before contents: every null before every boolean,
/// booleans before numbers, numbers before strings, strings before arrays
/// and objects; `false` before `true`; and two strings as their texts.
pub proof fn law_sort_orders_kinds<F: Fn(FloatQuery) -> FloatAnswer>(f: F, a: ValueModel, b: ValueModel, s: Seq<char>, t: Seq<char>)
    ensures
        kind_rank(a) < kind_rank(b) ==> text_lt(sort_key(f, a), sort_key(f, b)) && !text_lt(sort_key(f, b), sort_key(f, a)),
        text_lt(sort_key(f, ValueModel::Bool(false)), sort_key(f, ValueModel::Bool(true))),
        text_lt(sort_key(f, ValueModel::Str(s)), sort_key(f, ValueModel::Str(t))) == text_lt(s, t),
{
    lemma_sort_key_head(f, a);
    lemma_sort_key_head(f, b);
    if kind_rank(a) < kind_rank(b) {
        let ka = sort_key(f, a);
        let kb = sort_key(f, b);
        assert(ka[0] != kb[0]);
        assert(text_lt(ka, kb));
        assert(!text_lt(kb, ka));
    }
    reveal_strlit("1:");
    reveal_strlit("true");
    reveal_strlit("false");
    lemma_text_lt_prefix("1:"@, "false"@, "true"@);
    assert(text_lt("false"@, "true"@));
    lemma_text_lt_prefix("3:"@, s, t);
}

/// The four comparisons agree with one another: `a < b` is `b > a` and
/// `a <= b` is `b >= a`; no number is less than itself and every number
/// that is no NaN is at most itself; and for two numbers that are no NaN,
/// exactly one of `a < b` and `a >= b` holds.
pub proof fn law_comparisons_agree<F: Fn(FloatQuery) -> FloatAnswer>(f: F, l: ValueModel, r: ValueModel)
    requires
        float_number(f, l) is Ok,
        float_number(f, r) is Ok,
    ensures
        spec_binary(f, "<"@, OperationId::Relational, l, r) == spec_binary(f, ">"@, OperationId::Relational, r, l),
        spec_binary(f, "<="@, OperationId::Relational, l, r) == spec_binary(f, ">="@, OperationId::Relational, r, l),
        spec_binary(f, "<"@, OperationId::Relational, l, l) == Ok::<ValueModel, super::ErrorModel>(ValueModel::Bool(false)),
        !float_is_nan(float_number(f, l)->Ok_0) ==> spec_binary(f, "<="@, OperationId::Relational, l, l)
            == Ok::<ValueModel, super::ErrorModel>(ValueModel::Bool(true)),
        !float_is_nan(float_number(f, l)->Ok_0) && !float_is_nan(float_number(f, r)->Ok_0) ==> ({
            let lt = spec_binary(f, "<"@, OperationId::Relational, l, r);
            let ge = spec_binary(f, ">="@, OperationId::Relational, l, r);
            lt matches Ok(ValueModel::Bool(x)) && ge matches Ok(ValueModel::Bool(y)) && x != y
        }),
{
    reveal_strlit("<");
    reveal_strlit("<=");
    reveal_strlit(">");
    reveal_strlit(">=");
    assert("<"@.len() == 1 && "<"@[0] == '<');
    assert(">"@.len() == 1 && ">"@[0] == '>');
    assert("<="@.len() == 2 && "<="@[0] == '<');
    assert(">="@.len() == 2 && ">="@[0] == '>');
}

/// Every item holds a number that is no NaN.
pub open spec fn all_plain_numbers<F: Fn(FloatQuery) -> FloatAnswer>(f: F, items: Seq<ValueModel>) -> bool {
    forall|k: int| 0 <= k < items.len() ==> ((#[trigger] float_number(f, items[k])) matches Ok(x) && !float_is_nan(x))
}

proof fn lemma_extreme_from<F: Fn(FloatQuery) -> FloatAnswer>(f: F, items: Seq<ValueModel>, i: int, sel: u64, min: bool)
    requires
        0 <= i <= items.len(),
        all_plain_numbers(f, items),
        !float_is_nan(sel),
    ensures
        extreme_from(f, items, i, sel, min) matches Ok(b) && !float_is_nan(b)
            && (b == sel || exists|k: int| i <= k < items.len() && #[trigger] float_number(f, items[k]) == Ok::<u64, super::ErrorModel>(b))
            && (min ==> float_rank(b) <= float_rank(sel))
            && (!min ==> float_rank(sel) <= float_rank(b))
            && forall|k: int| i <= k < items.len() ==> ((#[trigger] float_number(f, items[k])) matches Ok(x)
                && (min ==> float_rank(b) <= float_rank(x)) && (!min ==> float_rank(x) <= float_rank(b))),
    decreases items.len() - i,
{
    if i < items.len() {
        let x = float_number(f, items[i])->Ok_0;
        assert(float_number(f, items[i]) matches Ok(x) && !float_is_nan(x));
        let next = if (min && float_lt(x, sel)) || (!min && float_lt(sel, x)) { x } else { sel };
        lemma_extreme_from(f, items, i + 1, next, min);
        let b = extreme_from(f, items, i, sel, min)->Ok_0;
        assert(extreme_from(f, items, i, sel, min) == extreme_from(f, items, i + 1, next, min));
        if b != sel && b != next {
            let k = choose|k: int| i + 1 <= k < items.len() && #[trigger] float_number(f, items[k]) == Ok::<u64, super::ErrorModel>(b);
            assert(i <= k);
        }
    }
}

/// `min` and `max` of numbers that are no NaN pick one of the items'
/// numbers that no item's number is below (for `min`) or above (for
/// `max`); an empty array gives null.
pub proof fn law_min_max_pick_an_extreme<F: Fn(FloatQuery) -> FloatAnswer>(f: F, items: Seq<ValueModel>, min: bool)
    requires
        all_plain_numbers(f, items),
    ensures
        items.len() == 0 ==> extreme(f, items, min) == Ok::<ValueModel, super::ErrorModel>(ValueModel::Null),
        items.len() > 0 ==> (extreme(f, items, min) matches Ok(ValueModel::Number(Numeric::Float(b)))
            && (exists|k: int| 0 <= k < items.len() && #[trigger] float_number(f, items[k]) == Ok::<u64, super::ErrorModel>(b))
            && forall|k: int| 0 <= k < items.len() ==> ((#[trigger] float_number(f, items[k])) matches Ok(x)
                && (min ==> !float_lt(x, b)) && (!min ==> !float_lt(b, x)))),
{
    if items.len() > 0 {
        let first = float_number(f, items[0])->Ok_0;
        assert(float_number(f, items[0]) matches Ok(x) && !float_is_nan(x));
        lemma_extreme_from(f, items, 1, first, min);
        let b = extreme_from(f, items, 1, first, min)->Ok_0;
        if b == first {
            assert(float_number(f, items[0]) == Ok::<u64, super::ErrorModel>(b));
        }
        assert forall|k: int| 0 <= k < items.len() implies ((#[trigger] float_number(f, items[k])) matches Ok(x)
            && (min ==> !float_lt(x, b)) && (!min ==> !float_lt(b, x))) by {
            assert(float_number(f, items[k]) matches Ok(x) && !float_is_nan(x));
        }
    }
}

/// `unique` drops repeats: what it keeps comes from the input, each input
/// item is kept or follows an equal kept one, and no kept item equals a
/// later kept one.
pub proof fn law_unique_drops_repeats(s: Seq<ValueModel>)
    ensures
        forall|k: int| 0 <= k < unique_items(s).len() ==> exists|i: int| 0 <= i < s.len() && s[i] == #[trigger] unique_items(s)[k],
        forall|i: int| 0 <= i < s.len() ==> exists|k: int| 0 <= k < unique_items(s).len()
            && (unique_items(s)[k] == #[trigger] s[i] || value_eq(unique_items(s)[k], s[i])),
        forall|j: int, k: int| 0 <= j < k < unique_items(s).len() ==> !value_eq(#[trigger] unique_items(s)[j], #[trigger] unique_items(s)[k]),
    decreases s.len(),
{
    if s.len() > 0 {
        let d = s.drop_last();
        let x = s[s.len() - 1];
        law_unique_drops_repeats(d);
        let p = unique_items(d);
        let u = unique_items(s);
        assert forall|k: int| 0 <= k < u.len() implies exists|i: int| 0 <= i < s.len() && s[i] == #[trigger] u[k] by {
            if k < p.len() {
                assert(u[k] == p[k]);
                let i = choose|i: int| 0 <= i < d.len() && d[i] == p[k];
                assert(s[i] == d[i]);
            } else {
                assert(s[s.len() - 1] == u[k]);
            }
        }
        assert forall|i: int| 0 <= i < s.len() implies exists|k: int| 0 <= k < u.len()
            && (u[k] == #[trigger] s[i] || value_eq(u[k], s[i])) by {
            if i < d.len() {
                assert(s[i] == d[i]);
                let k = choose|k: int| 0 <= k < p.len() && (p[k] == #[trigger] d[i] || value_eq(p[k], d[i]));
                assert(u[k] == p[k]);
            } else if exists|j: int| 0 <= j < p.len() && #[trigger] value_eq(p[j], x) {
                let j = choose|j: int| 0 <= j < p.len() && #[trigger] value_eq(p[j], x);
                assert(u[j] == p[j]);
            } else {
                assert(u[p.len() as int] == x);
            }
        }
        assert forall|j: int, k: int| 0 <= j < k < u.len() implies !value_eq(#[trigger] u[j], #[trigger] u[k]) by {
            if k < p.len() {
                assert(u[j] == p[j] && u[k] == p[k]);
            } else {
                assert(u[j] == p[j]);
                assert(u[k] == x);
            }
        }
    }
}

/// Equality, logic and the alternative on plain values: two integers or
/// two strings are equal exactly when they are the same, and `!=` says the
/// opposite; `and` and `or` of booleans are the logical ones; `a // b`
/// gives `b` where `a` is null or `false`, and `a` where it is truthy.
pub proof fn law_equality_logic_and_alternative<F: Fn(FloatQuery) -> FloatAnswer>(
    f: F,
    lexeme: Seq<char>,
    a: i64,
    b: i64,
    s: Seq<char>,
    t: Seq<char>,
    p: bool,
    q: bool,
    l: ValueModel,
    r: ValueModel,
)
    ensures
        spec_binary(f, lexeme, OperationId::Equals, ValueModel::Number(Numeric::Int(a)), ValueModel::Number(Numeric::Int(b)))
            == Ok::<ValueModel, super::ErrorModel>(ValueModel::Bool(a == b)),
        spec_binary(f, lexeme, OperationId::NotEquals, ValueModel::Number(Numeric::Int(a)), ValueModel::Number(Numeric::Int(b)))
            == Ok::<ValueModel, super::ErrorModel>(ValueModel::Bool(a != b)),
        spec_binary(f, lexeme, OperationId::Equals, ValueModel::Str(s), ValueModel::Str(t))
            == Ok::<ValueModel, super::ErrorModel>(ValueModel::Bool(s == t)),
        spec_binary(f, lexeme, OperationId::And, ValueModel::Bool(p), ValueModel::Bool(q))
            == Ok::<ValueModel, super::ErrorModel>(ValueModel::Bool(p && q)),
        spec_binary(f, lexeme, OperationId::Or, ValueModel::Bool(p), ValueModel::Bool(q))
            == Ok::<ValueModel, super::ErrorModel>(ValueModel::Bool(p || q)),
        spec_binary(f, lexeme, OperationId::Alternative, ValueModel::Null, r) == Ok::<ValueModel, super::ErrorModel>(r),
        spec_binary(f, lexeme, OperationId::Alternative, ValueModel::Bool(false), r) == Ok::<ValueModel, super::ErrorModel>(r),
        super::truthy(l) ==> spec_binary(f, lexeme, OperationId::Alternative, l, r) == Ok::<ValueModel, super::ErrorModel>(l),
{
}

proof fn lemma_insert_by_key_multiset(s: Seq<(Seq<char>, ValueModel)>, x: (Seq<char>, ValueModel))
    ensures
        insert_by_key(s, x).to_multiset() =~= s.to_multiset().insert(x),
    decreases s.len(),
{
    broadcast use vstd::seq_lib::group_to_multiset_ensures;
    if s.len() == 0 {
        assert(seq![x] =~= Seq::<(Seq<char>, ValueModel)>::empty().push(x));
    } else {
        let d = s.drop_last();
        let last = s[s.len() - 1];
        assert(s =~= d.push(last));
        if text_lt(x.0, last.0) {
            lemma_insert_by_key_multiset(d, x);
        }
    }
}

/// Sorting keeps every item: the sorted entries are the input entries,
/// each as often as it occurs there.
pub proof fn law_sort_keeps_every_item(s: Seq<(Seq<char>, ValueModel)>)
    ensures
        sort_by_key(s).to_multiset() =~= s.to_multiset(),
    decreases s.len(),
{
    broadcast use vstd::seq_lib::group_to_multiset_ensures;
    if s.len() > 0 {
        let d = s.drop_last();
        law_sort_keeps_every_item(d);
        lemma_insert_by_key_multiset(sort_by_key(d), s[s.len() - 1]);
        assert(s =~= d.push(s[s.len() - 1]));
    }
}

} // verus!
