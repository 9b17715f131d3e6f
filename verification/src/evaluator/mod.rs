//! The values of the query evaluator: how they are modelled, rendered,
//! compared and read from literal text.
//!
//! A 64-bit float is held by its IEEE-754 bits. Whatever needs the float's
//! arithmetic or its decimal text is asked of a float service that the
//! caller hands in (see [`FloatQuery`]).
use vstd::prelude::*;
use crate::evaluation::EvaluationError;
use crate::errors::CoreError;
use crate::text::{
    i64_to_decimal, int_decimal, push_str,
};

pub mod binary;
pub mod laws;
pub mod literal;
pub mod node;
pub mod numbers;
pub mod ops;
pub mod owned;
pub mod traversal;
pub mod unary;

verus! {

/// A number whose source type is kept: an integer, or a 64-bit float held
/// by its IEEE-754 bits.
#[derive(Debug, Clone, Copy, PartialEq, Eq, Structural)]
pub enum Numeric {
    Int(i64),
    Float(u64),
}

/// A value of the evaluator. The entries of an object are held in
/// ascending order of their keys, each key once (`laws::model_wf`).
#[derive(Debug, PartialEq)]
pub enum Value {
    Null,
    Bool(bool),
    Number(Numeric),
    String(String),
    Array(Vec<Value>),
    Object(Vec<Entry>),
}

/// An entry of an object: a key and its value.
#[derive(Debug, PartialEq)]
pub struct Entry {
    pub key: String,
    pub value: Value,
}

/// What a [`Value`] stands for.
pub enum ValueModel {
    Null,
    Bool(bool),
    Number(Numeric),
    Str(Seq<char>),
    Array(Seq<ValueModel>),
    Object(Seq<(Seq<char>, ValueModel)>),
}

impl Value {
    pub open spec fn model(self) -> ValueModel
        decreases self,
    {
        match self {
            Value::Null => ValueModel::Null,
            Value::Bool(b) => ValueModel::Bool(b),
            Value::Number(n) => ValueModel::Number(n),
            Value::String(s) => ValueModel::Str(s@),
            Value::Array(vs) => ValueModel::Array(models(vs@)),
            Value::Object(es) => ValueModel::Object(entry_models(es@)),
        }
    }
}

/// The models of a sequence of values.
pub open spec fn models(vs: Seq<Value>) -> Seq<ValueModel>
    decreases vs,
{
    if vs.len() == 0 {
        Seq::empty()
    } else {
        models(vs.drop_last()).push(vs[vs.len() - 1].model())
    }
}

/// The models of a sequence of object entries.
pub open spec fn entry_models(es: Seq<Entry>) -> Seq<(Seq<char>, ValueModel)>
    decreases es,
{
    if es.len() == 0 {
        Seq::empty()
    } else {
        entry_models(es.drop_last()).push((es[es.len() - 1].key@, es[es.len() - 1].value.model()))
    }
}

pub proof fn lemma_models(vs: Seq<Value>)
    ensures
        models(vs).len() == vs.len(),
        forall|i: int| 0 <= i < vs.len() ==> #[trigger] models(vs)[i] == vs[i].model(),
    decreases vs.len(),
{
    if vs.len() > 0 {
        lemma_models(vs.drop_last());
    }
}

pub proof fn lemma_models_push(vs: Seq<Value>, v: Value)
    ensures
        models(vs.push(v)) == models(vs).push(v.model()),
{
    assert(vs.push(v).drop_last() =~= vs);
}

pub proof fn lemma_models_append(a: Seq<Value>, b: Seq<Value>)
    ensures
        models(a + b) == models(a) + models(b),
    decreases b.len(),
{
    if b.len() == 0 {
        assert(a + b =~= a);
        assert(models(a) + models(b) =~= models(a));
    } else {
        lemma_models_append(a, b.drop_last());
        assert((a + b).drop_last() =~= a + b.drop_last());
        assert((a + b)[(a + b).len() - 1] == b[b.len() - 1]);
        assert(models(a) + models(b) =~= (models(a) + models(b.drop_last())).push(b[b.len() - 1].model()));
    }
}

pub proof fn lemma_entry_models(es: Seq<Entry>)
    ensures
        entry_models(es).len() == es.len(),
        forall|i: int|
            0 <= i < es.len() ==> #[trigger] entry_models(es)[i] == (es[i].key@, es[i].value.model()),
    decreases es.len(),
{
    if es.len() > 0 {
        lemma_entry_models(es.drop_last());
    }
}

/// What an [`EvaluationError`] stands for.
pub enum ErrorModel {
    MissingOperand(Seq<char>),
    DivisionByZero,
    TypeMismatch(Seq<char>, Seq<char>),
    UnsupportedOperation(Seq<char>),
    Core(CoreError),
}

impl EvaluationError {
    pub open spec fn model(self) -> ErrorModel {
        match self {
            EvaluationError::MissingOperand(s) => ErrorModel::MissingOperand(s@),
            EvaluationError::DivisionByZero => ErrorModel::DivisionByZero,
            EvaluationError::TypeMismatch { expected, actual } => ErrorModel::TypeMismatch(
                expected@,
                actual@,
            ),
            EvaluationError::UnsupportedOperation(s) => ErrorModel::UnsupportedOperation(s@),
            EvaluationError::Core(e) => ErrorModel::Core(e),
        }
    }
}

/// What an evaluation result stands for.
pub open spec fn outcome(r: Result<Value, EvaluationError>) -> Result<ValueModel, ErrorModel> {
    match r {
        Ok(v) => Ok(v.model()),
        Err(e) => Err(e.model()),
    }
}

// ---------------------------------------------------------------------------
// The float service
// ---------------------------------------------------------------------------

/// A question about 64-bit floats that the evaluator asks of its caller.
pub enum FloatQuery {
    /// The float nearest to an integer (`i as f64`); answered with bits.
    FromInt(i64),
    /// The float that `str::parse::<f64>` reads from the text; answered
    /// with bits, or with nothing where the text is no float.
    Parse(String),
    /// The float's `Display` text; answered with text.
    Display(u64),
    /// The float's `Debug` text; answered with text.
    Debug(u64),
    /// The float's `Display` text padded with zeros to twenty characters
    /// (`{:020}`); answered with text.
    Padded(u64),
    /// An arithmetic operation on two floats; answered with bits.
    Arith(FloatArith, u64, u64),
    /// The float nearest to a size (`n as f64`); answered with bits.
    FromSize(usize),
    /// The float's fractional part (`fract`); answered with bits.
    Fract(u64),
    /// The float's integer part, saturated to the range of `i128`, NaN as
    /// zero (`x as i128`); answered with a whole number.
    Truncate(u64),
    /// The float's text with no fractional digits (`{:.0}`); answered with
    /// text.
    WholeText(u64),
}

/// An arithmetic operation on floats.
#[derive(Debug, Clone, Copy, PartialEq, Eq, Structural)]
pub enum FloatArith {
    Add,
    Subtract,
    Multiply,
    Divide,
    Remainder,
}

/// The answer of the float service.
pub enum FloatAnswer {
    Bits(u64),
    Text(String),
    Whole(i128),
    Nothing,
}

pub enum QueryModel {
    FromInt(i64),
    Parse(Seq<char>),
    Display(u64),
    Debug(u64),
    Padded(u64),
    Arith(FloatArith, u64, u64),
    FromSize(usize),
    Fract(u64),
    Truncate(u64),
    WholeText(u64),
}

pub enum AnswerModel {
    Bits(u64),
    Text(Seq<char>),
    Whole(i128),
    Nothing,
}

impl FloatQuery {
    pub open spec fn model(self) -> QueryModel {
        match self {
            FloatQuery::FromInt(i) => QueryModel::FromInt(i),
            FloatQuery::Parse(s) => QueryModel::Parse(s@),
            FloatQuery::Display(b) => QueryModel::Display(b),
            FloatQuery::Debug(b) => QueryModel::Debug(b),
            FloatQuery::Padded(b) => QueryModel::Padded(b),
            FloatQuery::Arith(op, a, b) => QueryModel::Arith(op, a, b),
            FloatQuery::FromSize(n) => QueryModel::FromSize(n),
            FloatQuery::Fract(b) => QueryModel::Fract(b),
            FloatQuery::Truncate(b) => QueryModel::Truncate(b),
            FloatQuery::WholeText(b) => QueryModel::WholeText(b),
        }
    }
}

impl FloatAnswer {
    pub open spec fn model(self) -> AnswerModel {
        match self {
            FloatAnswer::Bits(b) => AnswerModel::Bits(b),
            FloatAnswer::Text(t) => AnswerModel::Text(t@),
            FloatAnswer::Whole(w) => AnswerModel::Whole(w),
            FloatAnswer::Nothing => AnswerModel::Nothing,
        }
    }
}

/// The shape of answer that each question takes.
pub open spec fn answer_fits(q: QueryModel, a: AnswerModel) -> bool {
    match q {
        QueryModel::FromInt(_) => a is Bits,
        QueryModel::Parse(_) => a is Bits || a is Nothing,
        QueryModel::Arith(..) => a is Bits,
        QueryModel::FromSize(_) => a is Bits,
        QueryModel::Fract(_) => a is Bits,
        QueryModel::Truncate(_) => a is Whole,
        _ => a is Text,
    }
}

/// A float service: it answers every question, with the shape that the
/// question takes, and the same question always gets the same answer.
pub open spec fn float_service<F: Fn(FloatQuery) -> FloatAnswer>(f: F) -> bool {
    &&& forall|q: FloatQuery| #[trigger] call_requires(f, (q,))
    &&& forall|q: FloatQuery, a: FloatAnswer|
        #[trigger] call_ensures(f, (q,), a) ==> answer_fits(q.model(), a.model())
    &&& forall|q1: FloatQuery, q2: FloatQuery, a1: FloatAnswer, a2: FloatAnswer|
        #![trigger call_ensures(f, (q1,), a1), call_ensures(f, (q2,), a2)]
        call_ensures(f, (q1,), a1) && call_ensures(f, (q2,), a2) && q1.model() == q2.model()
            ==> a1.model() == a2.model()
}

/// The answer that the service `f` gives to `q`.
pub open spec fn float_reply<F: Fn(FloatQuery) -> FloatAnswer>(f: F, q: QueryModel) -> AnswerModel {
    let qa = choose|qa: (FloatQuery, FloatAnswer)|
        qa.0.model() == q && call_ensures(f, (qa.0,), qa.1);
    qa.1.model()
}

/// The text that `f` answers to `q`.
pub open spec fn float_text<F: Fn(FloatQuery) -> FloatAnswer>(f: F, q: QueryModel) -> Seq<char> {
    match float_reply(f, q) {
        AnswerModel::Text(t) => t,
        _ => Seq::empty(),
    }
}

/// The float nearest to `i`, by `f`.
pub open spec fn float_of_int<F: Fn(FloatQuery) -> FloatAnswer>(f: F, i: i64) -> u64 {
    match float_reply(f, QueryModel::FromInt(i)) {
        AnswerModel::Bits(b) => b,
        _ => 0,
    }
}

/// Asks `q` of the float service.
pub(crate) fn ask<F: Fn(FloatQuery) -> FloatAnswer>(floats: &F, q: FloatQuery) -> (a: FloatAnswer)
    requires
        float_service(*floats),
    ensures
        a.model() == float_reply(*floats, q.model()),
        answer_fits(q.model(), a.model()),
{
    let ghost gq = q;
    let a = floats(q);
    proof {
        assert(call_ensures(*floats, (gq,), a));
        let w = (gq, a);
        assert(w.0.model() == gq.model() && call_ensures(*floats, (w.0,), w.1));
        let qa = choose|qa: (FloatQuery, FloatAnswer)|
            qa.0.model() == gq.model() && call_ensures(*floats, (qa.0,), qa.1);
        assert(call_ensures(*floats, (qa.0,), qa.1));
    }
    a
}

/// Asks for a float's text.
pub(crate) fn float_text_of<F: Fn(FloatQuery) -> FloatAnswer>(floats: &F, q: FloatQuery) -> (t: String)
    requires
        float_service(*floats),
        q is Display || q is Debug || q is Padded || q is WholeText,
    ensures
        t@ == float_text(*floats, q.model()),
{
    match ask(floats, q) {
        FloatAnswer::Text(t) => t,
        _ => String::new(),
    }
}

/// The bits that `f` answers to `q`.
pub open spec fn float_answer_bits<F: Fn(FloatQuery) -> FloatAnswer>(f: F, q: QueryModel) -> u64 {
    match float_reply(f, q) {
        AnswerModel::Bits(b) => b,
        _ => 0,
    }
}

/// The whole number that `f` answers to `q`.
pub open spec fn float_answer_whole<F: Fn(FloatQuery) -> FloatAnswer>(f: F, q: QueryModel) -> i128 {
    match float_reply(f, q) {
        AnswerModel::Whole(w) => w,
        _ => 0,
    }
}

/// Asks for bits.
pub(crate) fn float_bits_answer<F: Fn(FloatQuery) -> FloatAnswer>(floats: &F, q: FloatQuery) -> (b: u64)
    requires
        float_service(*floats),
    ensures
        b == float_answer_bits(*floats, q.model()),
{
    match ask(floats, q) {
        FloatAnswer::Bits(b) => b,
        _ => 0,
    }
}

/// Asks for a whole number.
pub(crate) fn float_whole_answer<F: Fn(FloatQuery) -> FloatAnswer>(floats: &F, q: FloatQuery) -> (w: i128)
    requires
        float_service(*floats),
    ensures
        w == float_answer_whole(*floats, q.model()),
{
    match ask(floats, q) {
        FloatAnswer::Whole(w) => w,
        _ => 0,
    }
}

/// Asks for the float nearest to `i`.
pub(crate) fn float_from_int<F: Fn(FloatQuery) -> FloatAnswer>(floats: &F, i: i64) -> (b: u64)
    requires
        float_service(*floats),
    ensures
        b == float_of_int(*floats, i),
{
    match ask(floats, FloatQuery::FromInt(i)) {
        FloatAnswer::Bits(b) => b,
        _ => 0,
    }
}

// ---------------------------------------------------------------------------
// IEEE-754 facts on bits
// ---------------------------------------------------------------------------

/// The float is not a number: all exponent bits set, a non-zero fraction.
pub open spec fn float_is_nan(b: u64) -> bool {
    (b >> 52u64) & 0x7ffu64 == 0x7ffu64 && b & 0xf_ffff_ffff_ffffu64 != 0
}

/// The float is `0.0` or `-0.0`.
pub open spec fn float_is_zero(b: u64) -> bool {
    b & 0x7fff_ffff_ffff_ffffu64 == 0
}

/// `==` on two floats: no NaN equals anything, and the two zeros are equal.
pub open spec fn float_eq(a: u64, b: u64) -> bool {
    !float_is_nan(a) && !float_is_nan(b) && (a == b || (float_is_zero(a) && float_is_zero(b)))
}

/// The place of a float that is no NaN on the number line.
pub open spec fn float_rank(b: u64) -> int {
    if b & 0x8000_0000_0000_0000u64 != 0 {
        -((b & 0x7fff_ffff_ffff_ffffu64) as int)
    } else {
        b as int
    }
}

/// `<` on two floats.
pub open spec fn float_lt(a: u64, b: u64) -> bool {
    !float_is_nan(a) && !float_is_nan(b) && float_rank(a) < float_rank(b)
}

pub fn is_nan_bits(b: u64) -> (r: bool)
    ensures
        r == float_is_nan(b),
{
    (b >> 52u64) & 0x7ffu64 == 0x7ffu64 && b & 0xf_ffff_ffff_ffffu64 != 0
}

pub fn is_zero_bits(b: u64) -> (r: bool)
    ensures
        r == float_is_zero(b),
{
    b & 0x7fff_ffff_ffff_ffffu64 == 0
}

pub fn float_bits_eq(a: u64, b: u64) -> (r: bool)
    ensures
        r == float_eq(a, b),
{
    !is_nan_bits(a) && !is_nan_bits(b) && (a == b || (is_zero_bits(a) && is_zero_bits(b)))
}

fn rank_bits(b: u64) -> (r: i128)
    ensures
        r as int == float_rank(b),
{
    if b & 0x8000_0000_0000_0000u64 != 0 {
        let m: u64 = b & 0x7fff_ffff_ffff_ffffu64;
        0i128 - (m as i128)
    } else {
        b as i128
    }
}

pub fn float_bits_lt(a: u64, b: u64) -> (r: bool)
    ensures
        r == float_lt(a, b),
{
    !is_nan_bits(a) && !is_nan_bits(b) && rank_bits(a) < rank_bits(b)
}

// ---------------------------------------------------------------------------
// Numbers and truth
// ---------------------------------------------------------------------------

impl Numeric {
    pub open spec fn spec_is_zero(self) -> bool {
        match self {
            Numeric::Int(v) => v == 0,
            Numeric::Float(b) => float_is_zero(b),
        }
    }

    /// The number as a float's bits; an integer as the float nearest to it.
    pub fn as_f64<F: Fn(FloatQuery) -> FloatAnswer>(self, floats: &F) -> (b: u64)
        requires
            float_service(*floats),
        ensures
            b == float_bits_of(*floats, self),
    {
        numeric_float_bits(self, floats)
    }

    /// The number's `Display` text.
    pub fn display<F: Fn(FloatQuery) -> FloatAnswer>(self, floats: &F) -> (t: String)
        requires
            float_service(*floats),
        ensures
            t@ == number_text(*floats, self),
    {
        number_display(self, floats)
    }

    /// Whether the number is zero.
    pub fn is_zero(self) -> (r: bool)
        ensures
            r == self.spec_is_zero(),
    {
        match self {
            Numeric::Int(v) => v == 0,
            Numeric::Float(b) => is_zero_bits(b),
        }
    }
}

/// The number as a float, by `f`.
pub open spec fn float_bits_of<F: Fn(FloatQuery) -> FloatAnswer>(f: F, n: Numeric) -> u64 {
    match n {
        Numeric::Int(v) => float_of_int(f, v),
        Numeric::Float(b) => b,
    }
}

pub fn numeric_float_bits<F: Fn(FloatQuery) -> FloatAnswer>(n: Numeric, floats: &F) -> (b: u64)
    requires
        float_service(*floats),
    ensures
        b == float_bits_of(*floats, n),
{
    match n {
        Numeric::Int(v) => float_from_int(floats, v),
        Numeric::Float(b) => b,
    }
}

/// The `Display` text of a number.
pub open spec fn number_text<F: Fn(FloatQuery) -> FloatAnswer>(f: F, n: Numeric) -> Seq<char> {
    match n {
        Numeric::Int(v) => int_decimal(v as int),
        Numeric::Float(b) => float_text(f, QueryModel::Display(b)),
    }
}

pub fn number_display<F: Fn(FloatQuery) -> FloatAnswer>(n: Numeric, floats: &F) -> (t: String)
    requires
        float_service(*floats),
    ensures
        t@ == number_text(*floats, n),
{
    match n {
        Numeric::Int(v) => i64_to_decimal(v),
        Numeric::Float(b) => float_text_of(floats, FloatQuery::Display(b)),
    }
}

/// Whether a value counts as true.
pub open spec fn truthy(m: ValueModel) -> bool {
    match m {
        ValueModel::Null => false,
        ValueModel::Bool(b) => b,
        ValueModel::Number(n) => !n.spec_is_zero(),
        ValueModel::Str(s) => s.len() != 0,
        ValueModel::Array(items) => items.len() != 0,
        ValueModel::Object(entries) => entries.len() != 0,
    }
}

/// The name of a value's type.
pub open spec fn kind_name(m: ValueModel) -> Seq<char> {
    match m {
        ValueModel::Null => "null"@,
        ValueModel::Bool(_) => "bool"@,
        ValueModel::Number(_) => "number"@,
        ValueModel::Str(_) => "string"@,
        ValueModel::Array(_) => "array"@,
        ValueModel::Object(_) => "object"@,
    }
}

impl Value {
    /// Whether the value counts as true: not null, not false, not zero and
    /// not empty.
    pub fn truthy(&self) -> (r: bool)
        ensures
            r == truthy(self.model()),
    {
        proof {
            match self {
                Value::Array(vs) => lemma_models(vs@),
                Value::Object(es) => lemma_entry_models(es@),
                Value::String(s) => {
                    crate::text::lemma_utf8_len_at_least(s@);
                    if s@.len() == 0 {
                        assert(s@ =~= Seq::<char>::empty());
                    }
                },
                _ => {},
            }
        }
        match self {
            Value::Null => false,
            Value::Bool(b) => *b,
            Value::Number(n) => !n.is_zero(),
            Value::String(s) => s.as_str().as_bytes().len() != 0,
            Value::Array(vs) => vs.len() != 0,
            Value::Object(es) => es.len() != 0,
        }
    }

    /// The name of the value's type.
    pub fn kind_name(&self) -> (r: String)
        ensures
            r@ == kind_name(self.model()),
    {
        let mut out = String::new();
        match self {
            Value::Null => push_str(&mut out, "null"),
            Value::Bool(_) => push_str(&mut out, "bool"),
            Value::Number(_) => push_str(&mut out, "number"),
            Value::String(_) => push_str(&mut out, "string"),
            Value::Array(_) => push_str(&mut out, "array"),
            Value::Object(_) => push_str(&mut out, "object"),
        }
        proof {
            assert(Seq::<char>::empty() + kind_name(self.model()) =~= kind_name(self.model()));
        }
        out
    }

    /// A copy of the value.
    pub fn duplicate(&self) -> (r: Value)
        ensures
            r.model() == self.model(),
        decreases self,
    {
        match self {
            Value::Null => Value::Null,
            Value::Bool(b) => Value::Bool(*b),
            Value::Number(n) => Value::Number(*n),
            Value::String(s) => Value::String(s.clone()),
            Value::Array(vs) => Value::Array(duplicate_items(vs)),
            Value::Object(es) => Value::Object(duplicate_entries(es)),
        }
    }
}

impl Clone for Value {
    fn clone(&self) -> (r: Self)
        ensures
            r.model() == self.model(),
    {
        self.duplicate()
    }
}

/// A copy of each value, in order.
pub fn duplicate_items(vs: &Vec<Value>) -> (r: Vec<Value>)
    ensures
        models(r@) == models(vs@),
    decreases vs,
{
    let mut out: Vec<Value> = Vec::new();
    let mut i: usize = 0;
    proof {
        lemma_models(vs@);
    }
    while i < vs.len()
        invariant
            i <= vs@.len(),
            models(vs@).len() == vs@.len(),
            forall|j: int| 0 <= j < vs@.len() ==> #[trigger] models(vs@)[j] == vs@[j].model(),
            out@.len() == i,
            forall|j: int| 0 <= j < i ==> #[trigger] out@[j].model() == vs@[j].model(),
        decreases vs@.len() - i,
    {
        let d = vs[i].duplicate();
        out.push(d);
        i = i + 1;
    }
    proof {
        lemma_models(out@);
        assert(models(out@) =~= models(vs@));
    }
    out
}

/// A copy of each entry, in order.
pub fn duplicate_entries(es: &Vec<Entry>) -> (r: Vec<Entry>)
    ensures
        entry_models(r@) == entry_models(es@),
    decreases es,
{
    let mut out: Vec<Entry> = Vec::new();
    let mut i: usize = 0;
    proof {
        lemma_entry_models(es@);
    }
    while i < es.len()
        invariant
            i <= es@.len(),
            entry_models(es@).len() == es@.len(),
            forall|j: int|
                0 <= j < es@.len() ==> #[trigger] entry_models(es@)[j] == (
                    es@[j].key@,
                    es@[j].value.model(),
                ),
            out@.len() == i,
            forall|j: int|
                0 <= j < i ==> #[trigger] out@[j].key@ == es@[j].key@ && out@[j].value.model()
                    == es@[j].value.model(),
        decreases es@.len() - i,
    {
        let k = es[i].key.clone();
        let d = es[i].value.duplicate();
        out.push(Entry { key: k, value: d });
        i = i + 1;
    }
    proof {
        lemma_entry_models(out@);
        assert(entry_models(out@) =~= entry_models(es@));
    }
    out
}

// ---------------------------------------------------------------------------
// Rendering
// ---------------------------------------------------------------------------

/// The `Debug` text of a string: quoted, with its special characters
/// escaped.
pub uninterp spec fn debug_quoted(s: Seq<char>) -> Seq<char>;

/// `format!("{:?}", s)` for a string slice. The escaping follows std's
/// `char::escape_debug`; the text is named, not stated.
#[verifier::external_body]
fn quoted_debug_text(s: &str) -> (r: String)
    ensures
        r@ == debug_quoted(s@),
{
    format!("{:?}", s)
}

pub open spec fn bool_text(b: bool) -> Seq<char> {
    if b {
        "true"@
    } else {
        "false"@
    }
}

/// The `Debug` text of a value, as `#[derive(Debug)]` writes it.
pub open spec fn debug_text<F: Fn(FloatQuery) -> FloatAnswer>(f: F, m: ValueModel) -> Seq<char>
    decreases m,
{
    match m {
        ValueModel::Null => "Null"@,
        ValueModel::Bool(b) => "Bool("@ + bool_text(b) + ")"@,
        ValueModel::Number(Numeric::Int(v)) => "Number(Int("@ + int_decimal(v as int) + "))"@,
        ValueModel::Number(Numeric::Float(b)) => "Number(Float("@ + float_text(
            f,
            QueryModel::Debug(b),
        ) + "))"@,
        ValueModel::Str(s) => "String("@ + debug_quoted(s) + ")"@,
        ValueModel::Array(items) => "Array(["@ + debug_items(f, items) + "])"@,
        ValueModel::Object(entries) => "Object({"@ + debug_entries(f, entries) + "})"@,
    }
}

/// The `Debug` texts of values, separated by `, `.
pub open spec fn debug_items<F: Fn(FloatQuery) -> FloatAnswer>(f: F, s: Seq<ValueModel>) -> Seq<char>
    decreases s,
{
    if s.len() == 0 {
        Seq::empty()
    } else if s.len() == 1 {
        debug_text(f, s[0])
    } else {
        debug_items(f, s.drop_last()) + ", "@ + debug_text(f, s[s.len() - 1])
    }
}

/// The `Debug` texts of map entries, `key: value`, separated by `, `.
pub open spec fn debug_entries<F: Fn(FloatQuery) -> FloatAnswer>(
    f: F,
    s: Seq<(Seq<char>, ValueModel)>,
) -> Seq<char>
    decreases s,
{
    if s.len() == 0 {
        Seq::empty()
    } else if s.len() == 1 {
        debug_quoted(s[0].0) + ": "@ + debug_text(f, s[0].1)
    } else {
        debug_entries(f, s.drop_last()) + ", "@ + debug_quoted(s[s.len() - 1].0) + ": "@
            + debug_text(f, s[s.len() - 1].1)
    }
}

/// The text of a value: strings as they are, scalars as they print,
/// arrays and objects in their `Debug` form.
pub open spec fn render_text<F: Fn(FloatQuery) -> FloatAnswer>(f: F, m: ValueModel) -> Seq<char> {
    match m {
        ValueModel::Null => "null"@,
        ValueModel::Bool(b) => bool_text(b),
        ValueModel::Number(n) => number_text(f, n),
        ValueModel::Str(s) => s,
        ValueModel::Array(items) => "["@ + debug_items(f, items) + "]"@,
        ValueModel::Object(entries) => "{"@ + debug_entries(f, entries) + "}"@,
    }
}

fn push_bool(out: &mut String, b: bool)
    ensures
        final(out)@ == old(out)@ + bool_text(b),
{
    if b {
        push_str(out, "true");
    } else {
        push_str(out, "false");
    }
}

/// Appends the `Debug` text of `v`.
fn push_debug<F: Fn(FloatQuery) -> FloatAnswer>(out: &mut String, v: &Value, floats: &F)
    requires
        float_service(*floats),
    ensures
        final(out)@ == old(out)@ + debug_text(*floats, v.model()),
    decreases v, 0nat,
{
    let ghost start = out@;
    match v {
        Value::Null => push_str(out, "Null"),
        Value::Bool(b) => {
            push_str(out, "Bool(");
            push_bool(out, *b);
            push_str(out, ")");
        },
        Value::Number(Numeric::Int(i)) => {
            push_str(out, "Number(Int(");
            let t = i64_to_decimal(*i);
            push_str(out, t.as_str());
            push_str(out, "))");
        },
        Value::Number(Numeric::Float(b)) => {
            push_str(out, "Number(Float(");
            let t = float_text_of(floats, FloatQuery::Debug(*b));
            push_str(out, t.as_str());
            push_str(out, "))");
        },
        Value::String(s) => {
            push_str(out, "String(");
            let t = quoted_debug_text(s.as_str());
            push_str(out, t.as_str());
            push_str(out, ")");
        },
        Value::Array(vs) => {
            push_str(out, "Array([");
            push_debug_items(out, vs, floats);
            push_str(out, "])");
        },
        Value::Object(es) => {
            push_str(out, "Object({");
            push_debug_entries(out, es, floats);
            push_str(out, "})");
        },
    }
    proof {
        assert(out@ =~= start + debug_text(*floats, v.model()));
    }
}

/// Appends the `Debug` texts of `vs`, separated by `, `.
fn push_debug_items<F: Fn(FloatQuery) -> FloatAnswer>(out: &mut String, vs: &Vec<Value>, floats: &F)
    requires
        float_service(*floats),
    ensures
        final(out)@ == old(out)@ + debug_items(*floats, models(vs@)),
    decreases vs, 1nat,
{
    let ghost start = out@;
    let ghost ms = models(vs@);
    proof {
        lemma_models(vs@);
    }
    let mut i: usize = 0;
    while i < vs.len()
        invariant
            float_service(*floats),
            i <= vs@.len(),
            ms == models(vs@),
            ms.len() == vs@.len(),
            forall|j: int| 0 <= j < vs@.len() ==> #[trigger] ms[j] == vs@[j].model(),
            out@ == start + debug_items(*floats, ms.take(i as int)),
        decreases vs@.len() - i,
    {
        let ghost before = out@;
        if i > 0 {
            push_str(out, ", ");
        }
        push_debug(out, &vs[i], floats);
        proof {
            let t = ms.take(i as int + 1);
            assert(t.drop_last() =~= ms.take(i as int));
            assert(t[t.len() - 1] == ms[i as int]);
            if i == 0 {
                assert(t.len() == 1);
                assert(t[0] == ms[0]);
            }
            assert(out@ =~= start + debug_items(*floats, t));
        }
        i = i + 1;
    }
    proof {
        assert(ms.take(vs@.len() as int) =~= ms);
    }
}

/// Appends the `Debug` texts of the entries `es`, separated by `, `.
fn push_debug_entries<F: Fn(FloatQuery) -> FloatAnswer>(
    out: &mut String,
    es: &Vec<Entry>,
    floats: &F,
)
    requires
        float_service(*floats),
    ensures
        final(out)@ == old(out)@ + debug_entries(*floats, entry_models(es@)),
    decreases es, 1nat,
{
    let ghost start = out@;
    let ghost ms = entry_models(es@);
    proof {
        lemma_entry_models(es@);
    }
    let mut i: usize = 0;
    while i < es.len()
        invariant
            float_service(*floats),
            i <= es@.len(),
            ms == entry_models(es@),
            ms.len() == es@.len(),
            forall|j: int|
                0 <= j < es@.len() ==> #[trigger] ms[j] == (es@[j].key@, es@[j].value.model()),
            out@ == start + debug_entries(*floats, ms.take(i as int)),
        decreases es@.len() - i,
    {
        if i > 0 {
            push_str(out, ", ");
        }
        let q = quoted_debug_text(es[i].key.as_str());
        push_str(out, q.as_str());
        push_str(out, ": ");
        push_debug(out, &es[i].value, floats);
        proof {
            let t = ms.take(i as int + 1);
            assert(t.drop_last() =~= ms.take(i as int));
            assert(t[t.len() - 1] == ms[i as int]);
            if i == 0 {
                assert(t.len() == 1);
                assert(t[0] == ms[0]);
            }
            assert(out@ =~= start + debug_entries(*floats, t));
        }
        i = i + 1;
    }
    proof {
        assert(ms.take(es@.len() as int) =~= ms);
    }
}

/// The text of a value (see [`render_text`]).
pub fn render_value<F: Fn(FloatQuery) -> FloatAnswer>(v: &Value, floats: &F) -> (t: String)
    requires
        float_service(*floats),
    ensures
        t@ == render_text(*floats, v.model()),
{
    let mut out = String::new();
    match v {
        Value::Null => push_str(&mut out, "null"),
        Value::Bool(b) => push_bool(&mut out, *b),
        Value::Number(n) => {
            let t = number_display(*n, floats);
            push_str(&mut out, t.as_str());
        },
        Value::String(s) => push_str(&mut out, s.as_str()),
        Value::Array(vs) => {
            push_str(&mut out, "[");
            push_debug_items(&mut out, vs, floats);
            push_str(&mut out, "]");
        },
        Value::Object(es) => {
            push_str(&mut out, "{");
            push_debug_entries(&mut out, es, floats);
            push_str(&mut out, "}");
        },
    }
    proof {
        assert(out@ =~= render_text(*floats, v.model()));
    }
    out
}

/// The characters of a string slice as a string.
pub(crate) fn string_of(s: &str) -> (r: String)
    ensures
        r@ == s@,
{
    let mut out = String::new();
    push_str(&mut out, s);
    proof {
        assert(Seq::<char>::empty() + s@ =~= s@);
    }
    out
}

/// The type error for a value of the wrong kind.
pub(crate) fn mismatch_error(expected: &'static str, v: &Value) -> (e: EvaluationError)
    ensures
        e.model() == ErrorModel::TypeMismatch(expected@, kind_name(v.model())),
{
    EvaluationError::TypeMismatch { expected, actual: v.kind_name() }
}

} // verus!
