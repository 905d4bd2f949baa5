//! Types of arithmetic terms, and evaluation that reports ill-typed
//! operands as errors.

use vstd::prelude::*;
use vstd::std_specs::convert::FromSpecImpl;
use vstd::string::StringSliceAdditionalSpecFns;
use crate::scan::SyntaxError;
use crate::untyped_arith::parser::{parse, statement_at, Term};

verus! {

/// The two kinds of values.
#[derive(Clone, Copy, Debug, PartialEq, Eq, PartialOrd, Structural)]
pub enum Type {
    Boolean,
    Numeric,
}

/// What a term evaluates to.
#[derive(Clone, Copy, Debug, PartialEq, Eq, PartialOrd)]
pub enum Value {
    Boolean(bool),
    Numeric(u8),
}

/// An error with its message.
#[derive(Debug)]
pub struct Error {
    msg: String,
}

impl Clone for Error {
    fn clone(&self) -> (r: Self)
        ensures
            r == *self,
    {
        Error { msg: self.msg.clone() }
    }
}

impl Error {
    /// The text of the message.
    pub closed spec fn message(&self) -> Seq<char> {
        self.msg@
    }

    /// The message as a string.
    pub fn to_string(&self) -> (r: String)
        ensures
            r@ == self.message(),
    {
        self.msg.clone()
    }

    /// The error with the message `text`.
    fn new(text: &str) -> (r: Error)
        ensures
            r.message() == text@,
    {
        Error { msg: String::from_str(text) }
    }
}

impl From<SyntaxError> for Error {
    fn from(error: SyntaxError) -> (r: Error)
        ensures
            r.message() == "parser error"@,
    {
        Error::new("parser error")
    }
}

impl FromSpecImpl<SyntaxError> for Error {
    /// Two strings of the same text need not be the same value, so the
    /// conversion is described by the message of its result, not by a
    /// value.
    open spec fn obeys_from_spec() -> bool {
        false
    }

    open spec fn from_spec(error: SyntaxError) -> Error {
        arbitrary()
    }
}

/// The type of `term`, or the message that says why it has none. The
/// operand of `succ`, `pred` and `iszero` must be numeric, and the result
/// of each of the three counts as numeric. A condition must be boolean and
/// its branches must agree. The subterms are visited from left to right
/// and the first failure is reported.
pub open spec fn term_type_spec(term: Term) -> Result<Type, Seq<char>>
    decreases term,
{
    match term {
        Term::TmTrue | Term::TmFalse => Ok(Type::Boolean),
        Term::TmZero => Ok(Type::Numeric),
        Term::TmSucc(t) | Term::TmPred(t) | Term::TmIsZero(t) => match term_type_spec(*t) {
            Ok(Type::Numeric) => Ok(Type::Numeric),
            Ok(Type::Boolean) => Err("term MUST be Numeric"@),
            Err(msg) => Err(msg),
        },
        Term::TmIf(c, t, e) => match term_type_spec(*c) {
            Ok(Type::Boolean) => match term_type_spec(*t) {
                Ok(then_type) => match term_type_spec(*e) {
                    Ok(else_type) => if then_type == else_type {
                        Ok(then_type)
                    } else {
                        Err("then term mismatch with else term"@)
                    },
                    Err(msg) => Err(msg),
                },
                Err(msg) => Err(msg),
            },
            Ok(Type::Numeric) => Err("term MUST be Boolean"@),
            Err(msg) => Err(msg),
        },
    }
}

/// What `term_type` hands back for the outcome `expected`: the same type,
/// or an error with the same message.
pub open spec fn typed_as(r: Result<Type, Error>, expected: Result<Type, Seq<char>>) -> bool {
    match r {
        Ok(ty) => expected == Ok::<Type, Seq<char>>(ty),
        Err(err) => expected == Err::<Type, Seq<char>>(err.message()),
    }
}

/// Computes the type of `term`.
pub fn term_type(term: &Term) -> (r: Result<Type, Error>)
    ensures
        typed_as(r, term_type_spec(*term)),
    decreases *term,
{
    match term {
        Term::TmTrue => Ok(Type::Boolean),
        Term::TmFalse => Ok(Type::Boolean),
        Term::TmZero => Ok(Type::Numeric),
        Term::TmSucc(t) | Term::TmPred(t) | Term::TmIsZero(t) => match term_type(t) {
            Ok(Type::Numeric) => Ok(Type::Numeric),
            Ok(_) => Err(Error::new("term MUST be Numeric")),
            Err(err) => Err(err),
        },
        Term::TmIf(c, t, e) => match term_type(c) {
            Ok(Type::Boolean) => {
                let then_type = match term_type(t) {
                    Ok(ty) => ty,
                    Err(err) => {
                        return Err(err);
                    },
                };
                let else_type = match term_type(e) {
                    Ok(ty) => ty,
                    Err(err) => {
                        return Err(err);
                    },
                };
                if then_type != else_type {
                    return Err(Error::new("then term mismatch with else term"));
                }
                Ok(then_type)
            },
            Ok(_) => Err(Error::new("term MUST be Boolean")),
            Err(err) => Err(err),
        },
    }
}

/// How the evaluation of a term ends.
pub enum Outcome {
    /// With a value.
    Value(Value),
    /// With an error that carries this message.
    Failure(Seq<char>),
    /// Not at all: a number would leave the range from 0 to 255.
    OutOfRange,
}

/// How the evaluation of `term` ends. The operand of `succ` and `pred` is
/// evaluated and must give a number. The operand of `iszero` is only
/// typed, and then compared as it is written with the constant zero. A
/// conditional is typed as a whole before its condition is evaluated, and
/// only the branch taken is evaluated.
pub open spec fn eval_term_spec(term: Term) -> Outcome
    decreases term,
{
    match term {
        Term::TmTrue => Outcome::Value(Value::Boolean(true)),
        Term::TmFalse => Outcome::Value(Value::Boolean(false)),
        Term::TmZero => Outcome::Value(Value::Numeric(0)),
        Term::TmSucc(t) => match eval_term_spec(*t) {
            Outcome::Value(Value::Numeric(n)) => if n < 255 {
                Outcome::Value(Value::Numeric((n + 1) as u8))
            } else {
                Outcome::OutOfRange
            },
            Outcome::Value(Value::Boolean(_)) => Outcome::Failure("term MUST be Numeric"@),
            other => other,
        },
        Term::TmPred(t) => match eval_term_spec(*t) {
            Outcome::Value(Value::Numeric(n)) => if n > 0 {
                Outcome::Value(Value::Numeric((n - 1) as u8))
            } else {
                Outcome::OutOfRange
            },
            Outcome::Value(Value::Boolean(_)) => Outcome::Failure("term MUST be Numeric"@),
            other => other,
        },
        Term::TmIsZero(t) => match term_type_spec(*t) {
            Ok(Type::Numeric) => Outcome::Value(Value::Boolean(*t == Term::TmZero)),
            Ok(Type::Boolean) => Outcome::Failure("term MUST be Numeric"@),
            Err(msg) => Outcome::Failure(msg),
        },
        Term::TmIf(c, t, e) => match term_type_spec(term) {
            Err(msg) => Outcome::Failure(msg),
            Ok(_) => match eval_term_spec(*c) {
                Outcome::Value(Value::Boolean(cond)) => if cond {
                    eval_term_spec(*t)
                } else {
                    eval_term_spec(*e)
                },
                Outcome::Value(Value::Numeric(_)) => Outcome::Failure("term MUST be Boolean"@),
                other => other,
            },
        },
    }
}

/// What `eval_term` hands back for the outcome `expected`: the same value,
/// or an error with the same message.
pub open spec fn evaluated_as(r: Result<Value, Error>, expected: Outcome) -> bool {
    match r {
        Ok(value) => expected == Outcome::Value(value),
        Err(err) => expected == Outcome::Failure(err.message()),
    }
}

/// Evaluates a term whose numbers stay in range.
pub fn eval_term(term: &Term) -> (r: Result<Value, Error>)
    requires
        eval_term_spec(*term) != Outcome::OutOfRange,
    ensures
        evaluated_as(r, eval_term_spec(*term)),
    decreases *term,
{
    let value = match term {
        Term::TmTrue => Value::Boolean(true),
        Term::TmFalse => Value::Boolean(false),
        Term::TmZero => Value::Numeric(0),
        Term::TmSucc(t) => match eval_term(t) {
            Ok(Value::Numeric(number)) => Value::Numeric(number + 1),
            Ok(_) => {
                return Err(Error::new("term MUST be Numeric"));
            },
            Err(err) => {
                return Err(err);
            },
        },
        Term::TmPred(t) => match eval_term(t) {
            Ok(Value::Numeric(number)) => Value::Numeric(number - 1),
            Ok(_) => {
                return Err(Error::new("term MUST be Numeric"));
            },
            Err(err) => {
                return Err(err);
            },
        },
        Term::TmIsZero(t) => {
            match term_type(t) {
                Ok(Type::Numeric) => {},
                Ok(_) => {
                    return Err(Error::new("term MUST be Numeric"));
                },
                Err(err) => {
                    return Err(err);
                },
            }
            Value::Boolean(t.is_zero())
        },
        Term::TmIf(c, t, e) => {
            match term_type(term) {
                Ok(_) => {},
                Err(err) => {
                    return Err(err);
                },
            }
            match eval_term(c) {
                Ok(Value::Boolean(cond)) => {
                    if cond {
                        return eval_term(t);
                    } else {
                        return eval_term(e);
                    }
                },
                Ok(_) => {
                    return Err(Error::new("term MUST be Boolean"));
                },
                Err(err) => {
                    return Err(err);
                },
            }
        },
    };
    Ok(value)
}

/// The text is a statement with nothing behind it, and the numbers of its
/// term stay in range.
pub open spec fn evaluable(input: Seq<u8>) -> bool {
    statement_at(input, 0) matches Some((term, end)) ==> end == input.len() && eval_term_spec(term)
        != Outcome::OutOfRange
}

/// What `eval` makes of a text: the outcome of its term, or a failure
/// where it is no statement.
pub open spec fn eval_spec(input: Seq<u8>) -> Outcome {
    match statement_at(input, 0) {
        Some((term, _)) => eval_term_spec(term),
        None => Outcome::Failure("parser error"@),
    }
}

/// Parses `input` as a statement and evaluates its term.
pub fn eval(input: &str) -> (r: Result<Value, Error>)
    requires
        evaluable(input.spec_bytes()),
    ensures
        evaluated_as(r, eval_spec(input.spec_bytes())),
{
    match parse(input) {
        Ok((_, term)) => eval_term(&term),
        Err(err) => Err(Error::from(err)),
    }
}

} // verus!
