//! Big-step evaluation of arithmetic terms.

use vstd::prelude::*;
use vstd::std_specs::convert::FromSpecImpl;
use vstd::string::StringSliceAdditionalSpecFns;
use crate::scan::SyntaxError;
use crate::untyped_arith::parser::{parse, statement_at, Term};

verus! {

/// What a term evaluates to.
#[derive(Clone, Copy, Debug, PartialEq, Eq, PartialOrd)]
pub enum Value {
    Boolean(bool),
    Numeric(u8),
}

/// An error with its message.
#[derive(Debug)]
pub struct Error {
    msg: String,
}

impl Clone for Error {
    fn clone(&self) -> (r: Self)
        ensures
            r == *self,
    {
        Error { msg: self.msg.clone() }
    }
}

impl Error {
    /// The text of the message.
    pub closed spec fn message(&self) -> Seq<char> {
        self.msg@
    }

    /// The message as a string.
    pub fn to_string(&self) -> (r: String)
        ensures
            r@ == self.message(),
    {
        self.msg.clone()
    }
}

impl From<SyntaxError> for Error {
    fn from(error: SyntaxError) -> (r: Error)
        ensures
            r.message() == "parser error"@,
    {
        Error { msg: String::from_str("parser error") }
    }
}

impl FromSpecImpl<SyntaxError> for Error {
    /// Two strings of the same text need not be the same value, so the
    /// conversion is described by the message of its result, not by a
    /// value.
    open spec fn obeys_from_spec() -> bool {
        false
    }

    open spec fn from_spec(error: SyntaxError) -> Error {
        arbitrary()
    }
}

/// The value of `term`, or `None` where it has none: where `succ` or
/// `pred` meets a boolean, where a condition is a number, and where a
/// number would leave the range from 0 to 255. `iszero` looks at its
/// argument as it is written and asks whether it is the constant zero.
pub open spec fn eval_term_spec(term: Term) -> Option<Value>
    decreases term,
{
    match term {
        Term::TmTrue => Some(Value::Boolean(true)),
        Term::TmFalse => Some(Value::Boolean(false)),
        Term::TmZero => Some(Value::Numeric(0)),
        Term::TmSucc(t) => match eval_term_spec(*t) {
            Some(Value::Numeric(n)) => if n < 255 {
                Some(Value::Numeric((n + 1) as u8))
            } else {
                None
            },
            _ => None,
        },
        Term::TmPred(t) => match eval_term_spec(*t) {
            Some(Value::Numeric(n)) => if n > 0 {
                Some(Value::Numeric((n - 1) as u8))
            } else {
                None
            },
            _ => None,
        },
        Term::TmIsZero(t) => Some(Value::Boolean(*t == Term::TmZero)),
        Term::TmIf(c, t, e) => match eval_term_spec(*c) {
            Some(Value::Boolean(cond)) => if cond {
                eval_term_spec(*t)
            } else {
                eval_term_spec(*e)
            },
            _ => None,
        },
    }
}

/// Evaluates a term that has a value.
pub fn eval_term(term: &Term) -> (r: Result<Value, Error>)
    requires
        eval_term_spec(*term) is Some,
    ensures
        r matches Ok(value) && eval_term_spec(*term) == Some(value),
    decreases *term,
{
    let value = match term {
        Term::TmTrue => Value::Boolean(true),
        Term::TmFalse => Value::Boolean(false),
        Term::TmZero => Value::Numeric(0),
        Term::TmSucc(t) => match eval_term(t) {
            Ok(Value::Numeric(number)) => Value::Numeric(number + 1),
            Ok(other) => other,
            Err(err) => {
                return Err(err);
            },
        },
        Term::TmPred(t) => match eval_term(t) {
            Ok(Value::Numeric(number)) => Value::Numeric(number - 1),
            Ok(other) => other,
            Err(err) => {
                return Err(err);
            },
        },
        Term::TmIsZero(t) => Value::Boolean(t.is_zero()),
        Term::TmIf(c, t, e) => match eval_term(c) {
            Ok(Value::Boolean(cond)) => {
                if cond {
                    return eval_term(t);
                } else {
                    return eval_term(e);
                }
            },
            Ok(other) => other,
            Err(err) => {
                return Err(err);
            },
        },
    };
    Ok(value)
}

/// The text is a statement with nothing behind it, and its term has a
/// value.
pub open spec fn evaluable(input: Seq<u8>) -> bool {
    statement_at(input, 0) matches Some((term, end)) ==> end == input.len() && eval_term_spec(
        term,
    ) is Some
}

/// Parses `input` as a statement and evaluates its term.
pub fn eval(input: &str) -> (r: Result<Value, Error>)
    requires
        evaluable(input.spec_bytes()),
    ensures
        match statement_at(input.spec_bytes(), 0) {
            Some((term, _)) => r matches Ok(value) && eval_term_spec(term) == Some(value),
            None => r matches Err(err) && err.message() == "parser error"@,
        },
{
    match parse(input) {
        Ok((_, term)) => eval_term(&term),
        Err(err) => Err(Error::from(err)),
    }
}

} // verus!
