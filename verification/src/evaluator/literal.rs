//! Reading values from literal text, and numbers from values.
use vstd::prelude::*;
use super::{
    ask, kind_name, ErrorModel, FloatAnswer, FloatQuery, Numeric, QueryModel, Value, ValueModel, float_reply, float_service,
};
use crate::document::value_edit::toml::string_of_range;
use crate::evaluation::EvaluationError;
use crate::text::{ascii_lowercase, chars_of, lowercase_is, parse_i64_chars, parsed_i64, trim_chars, trimmed};

verus! {

/// Whether `t` is wrapped in a pair of the same quote, `"` or `'`.
pub open spec fn is_quoted(t: Seq<char>) -> bool {
    t.len() >= 2 && ((t[0] == '"' && t[t.len() - 1] == '"') || (t[0] == '\'' && t[t.len()
        - 1] == '\''))
}

/// The value that a literal spells: text with white space around it stays
/// a string as it is; `null`, `true` and `false` in any ASCII case; a
/// quoted string without its quotes; an integer; a float, as the float
/// service reads it; any other text as a string.
pub open spec fn literal_value<F: Fn(FloatQuery) -> FloatAnswer>(f: F, lit: Seq<char>) -> ValueModel {
    let t = trimmed(lit);
    if lit != t {
        ValueModel::Str(lit)
    } else if ascii_lowercase(t) == "null"@ {
        ValueModel::Null
    } else if ascii_lowercase(t) == "true"@ {
        ValueModel::Bool(true)
    } else if ascii_lowercase(t) == "false"@ {
        ValueModel::Bool(false)
    } else if is_quoted(t) {
        ValueModel::Str(t.subrange(1, t.len() - 1))
    } else if parsed_i64(t) is Some {
        ValueModel::Number(Numeric::Int(parsed_i64(t)->0 as i64))
    } else if float_reply(f, QueryModel::Parse(t)) is Bits {
        ValueModel::Number(Numeric::Float(float_reply(f, QueryModel::Parse(t))->Bits_0))
    } else {
        ValueModel::Str(t)
    }
}

/// The number a value holds: a number, or a string whose literal is one.
pub open spec fn numeric_of<F: Fn(FloatQuery) -> FloatAnswer>(f: F, m: ValueModel) -> Result<Numeric, ErrorModel> {
    match m {
        ValueModel::Number(n) => Ok(n),
        ValueModel::Str(s) => match literal_value(f, s) {
            ValueModel::Number(n) => Ok(n),
            _ => Err(ErrorModel::TypeMismatch("number"@, "string"@)),
        },
        other => Err(ErrorModel::TypeMismatch("number"@, kind_name(other))),
    }
}

/// What a numeric result stands for.
pub open spec fn numeric_outcome(r: Result<Numeric, EvaluationError>) -> Result<Numeric, ErrorModel> {
    match r {
        Ok(n) => Ok(n),
        Err(e) => Err(e.model()),
    }
}

/// Whether two character sequences are the same.
pub fn same_chars(a: &Vec<char>, b: &Vec<char>) -> (r: bool)
    ensures
        r == (a@ == b@),
{
    if a.len() != b.len() {
        return false;
    }
    let mut i: usize = 0;
    while i < a.len()
        invariant
            a@.len() == b@.len(),
            i <= a@.len(),
            forall|j: int| 0 <= j < i ==> a@[j] == b@[j],
        decreases a@.len() - i,
    {
        if a[i] != b[i] {
            return false;
        }
        i = i + 1;
    }
    assert(a@ =~= b@);
    true
}

fn whole_string(chars: &Vec<char>) -> (r: String)
    ensures
        r@ == chars@,
{
    let r = string_of_range(chars, 0, chars.len());
    assert(chars@.subrange(0, chars@.len() as int) =~= chars@);
    r
}

impl Value {
    /// The value that the literal `literal` spells (see [`literal_value`]).
    pub fn from_literal<F: Fn(FloatQuery) -> FloatAnswer>(literal: &str, floats: &F) -> (r: Value)
        requires
            float_service(*floats),
        ensures
            r.model() == literal_value(*floats, literal@),
    {
        let chars = chars_of(literal);
        let t = trim_chars(&chars);
        if !same_chars(&chars, &t) {
            return Value::String(whole_string(&chars));
        }
        if lowercase_is(&t, "null") {
            return Value::Null;
        }
        if lowercase_is(&t, "true") {
            return Value::Bool(true);
        }
        if lowercase_is(&t, "false") {
            return Value::Bool(false);
        }
        let n = t.len();
        if n >= 2 && ((t[0] == '"' && t[n - 1] == '"') || (t[0] == '\'' && t[n - 1] == '\'')) {
            return Value::String(string_of_range(&t, 1, n - 1));
        }
        match parse_i64_chars(&t) {
            Some(v) => {
                return Value::Number(Numeric::Int(v));
            },
            None => {},
        }
        let text = whole_string(&t);
        match ask(floats, FloatQuery::Parse(text)) {
            FloatAnswer::Bits(b) => Value::Number(Numeric::Float(b)),
            _ => Value::String(whole_string(&t)),
        }
    }

    /// The number the value holds, as a float's bits.
    pub fn as_number<F: Fn(FloatQuery) -> FloatAnswer>(&self, floats: &F) -> (r: Result<u64, EvaluationError>)
        requires
            float_service(*floats),
        ensures
            match r {
                Ok(b) => numeric_of(*floats, self.model()) matches Ok(n) && b == super::float_bits_of(*floats, n),
                Err(e) => numeric_of(*floats, self.model()) == Err::<Numeric, ErrorModel>(e.model()),
            },
    {
        match self.as_numeric(floats) {
            Ok(n) => Ok(n.as_f64(floats)),
            Err(e) => Err(e),
        }
    }

    /// The number the value holds (see [`numeric_of`]).
    pub fn as_numeric<F: Fn(FloatQuery) -> FloatAnswer>(&self, floats: &F) -> (r: Result<Numeric, EvaluationError>)
        requires
            float_service(*floats),
        ensures
            numeric_outcome(r) == numeric_of(*floats, self.model()),
    {
        match self {
            Value::Number(n) => Ok(*n),
            Value::String(s) => match Value::from_literal(s.as_str(), floats) {
                Value::Number(n) => Ok(n),
                _ => {
                    let mut actual = String::new();
                    crate::text::push_str(&mut actual, "string");
                    proof {
                        assert(Seq::<char>::empty() + "string"@ =~= "string"@);
                    }
                    Err(EvaluationError::TypeMismatch { expected: "number", actual })
                },
            },
            other => Err(EvaluationError::TypeMismatch { expected: "number", actual: other.kind_name() }),
        }
    }
}

} // verus!
