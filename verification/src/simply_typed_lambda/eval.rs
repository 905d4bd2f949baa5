//! Call-by-value evaluation: the one-step relation and its iteration.

use vstd::prelude::*;
use crate::simply_typed_lambda::substitute::{
    beta_fits,
    beta_spec,
    lemma_beta_closed,
    substitution,
    substitution_in_range,
};
use crate::simply_typed_lambda::term::Term;

verus! {

/// Why evaluation gave no term.
#[derive(Clone, Copy, Debug, PartialEq, Eq)]
pub enum EvalError {
    /// No rule reduces the term: it is a value, or it is stuck.
    NoRuleApplies,
    /// Evaluation ended at a term that no rule reduces and that is no value.
    StuckTerm,
    /// The step budget ran out before evaluation ended.
    StepLimit,
}

/// The one-step reduction relation, as a function: the term that `term`
/// reduces to, or `None` where no rule applies. Reduction is call by value
/// and goes from left to right: the function of an application is reduced
/// first, then its argument, and an abstraction is applied to values only.
pub open spec fn step_spec(term: Term) -> Option<Term>
    decreases term,
{
    match term {
        Term::TmIf(c, t, e) => match *c {
            Term::TmTrue => Some(*t),
            Term::TmFalse => Some(*e),
            _ => match step_spec(*c) {
                Some(c2) => Some(Term::TmIf(Box::new(c2), t, e)),
                None => None,
            },
        },
        Term::TmApp(f, a) => if f.value() {
            if a.value() {
                match *f {
                    Term::TmAbs(_, body) => Some(beta_spec(*body, *a)),
                    _ => None,
                }
            } else {
                match step_spec(*a) {
                    Some(a2) => Some(Term::TmApp(f, Box::new(a2))),
                    None => None,
                }
            }
        } else {
            match step_spec(*f) {
                Some(f2) => Some(Term::TmApp(Box::new(f2), a)),
                None => None,
            }
        },
        Term::TmSucc(t) => match step_spec(*t) {
            Some(t2) => Some(Term::TmSucc(Box::new(t2))),
            None => None,
        },
        _ => None,
    }
}

/// The beta reduction that `step_spec` performs on `term`, if it performs
/// one, keeps every index in the machine's range.
pub open spec fn step_fits(term: Term) -> bool
    decreases term,
{
    match term {
        Term::TmIf(c, _, _) => step_fits(*c),
        Term::TmApp(f, a) => if f.value() {
            if a.value() {
                match *f {
                    Term::TmAbs(_, body) => beta_fits(*body, *a),
                    _ => true,
                }
            } else {
                step_fits(*a)
            }
        } else {
            step_fits(*f)
        },
        Term::TmSucc(t) => step_fits(*t),
        _ => true,
    }
}

/// The outcome of reducing `term` for at most `fuel` steps: the value
/// reached, `StuckTerm` where reduction ends at a term that is no value, or
/// `StepLimit` where a step is still due when the fuel is gone.
pub open spec fn eval_spec(term: Term, fuel: nat) -> Result<Term, EvalError>
    decreases fuel,
{
    match step_spec(term) {
        Some(next) => if fuel == 0 {
            Err(EvalError::StepLimit)
        } else {
            eval_spec(next, (fuel - 1) as nat)
        },
        None => if term.value() {
            Ok(term)
        } else {
            Err(EvalError::StuckTerm)
        },
    }
}

/// Every step that `eval_spec` takes from `term` within `fuel` steps keeps
/// every index in the machine's range.
pub open spec fn eval_fits(term: Term, fuel: nat) -> bool
    decreases fuel,
{
    &&& step_fits(term)
    &&& match step_spec(term) {
        Some(next) => fuel > 0 ==> eval_fits(next, (fuel - 1) as nat),
        None => true,
    }
}

/// A numeric value takes no step.
pub proof fn lemma_numeric_value_is_normal(term: Term)
    requires
        term.numeric_value(),
    ensures
        step_spec(term) is None,
    decreases term,
{
    match term {
        Term::TmSucc(t) => lemma_numeric_value_is_normal(*t),
        _ => {},
    }
}

/// A value takes no step.
pub proof fn lemma_value_is_normal(term: Term)
    requires
        term.value(),
    ensures
        step_spec(term) is None,
{
    if term.numeric_value() {
        lemma_numeric_value_is_normal(term);
    }
}

/// On a closed term every step is in range, and the term it leads to is
/// closed again.
pub proof fn lemma_step_closed(term: Term)
    requires
        term.closed(),
    ensures
        step_fits(term),
        step_spec(term) matches Some(next) ==> next.closed(),
    decreases term,
{
    match term {
        Term::TmIf(c, _, _) => lemma_step_closed(*c),
        Term::TmApp(f, a) => {
            if f.value() {
                if a.value() {
                    match *f {
                        Term::TmAbs(_, body) => {
                            assert(f.closed_at(0));
                            assert(body.closed_at(1));
                            lemma_beta_closed(*body, *a);
                        },
                        _ => {},
                    }
                } else {
                    lemma_step_closed(*a);
                }
            } else {
                lemma_step_closed(*f);
            }
        },
        Term::TmSucc(t) => lemma_step_closed(*t),
        _ => {},
    }
}

/// A closed term can be evaluated under any step budget.
pub proof fn lemma_eval_closed(term: Term, fuel: nat)
    requires
        term.closed(),
    ensures
        eval_fits(term, fuel),
    decreases fuel,
{
    lemma_step_closed(term);
    if fuel > 0 {
        if let Some(next) = step_spec(term) {
            lemma_eval_closed(next, (fuel - 1) as nat);
        }
    }
}

/// Evaluation ends well only at a value, which takes no further step, and
/// fails only on a stuck term or for want of steps.
pub proof fn lemma_eval_ends_at_value(term: Term, fuel: nat)
    ensures
        eval_spec(term, fuel) matches Ok(v) ==> v.value() && step_spec(v) is None,
        eval_spec(term, fuel) matches Err(err) ==> err != EvalError::NoRuleApplies,
    decreases fuel,
{
    if fuel > 0 {
        if let Some(next) = step_spec(term) {
            lemma_eval_ends_at_value(next, (fuel - 1) as nat);
        }
    }
}

/// An evaluation that ends within its budget ends the same way under every
/// larger budget.
pub proof fn lemma_eval_budget_monotone(term: Term, fuel: nat, more: nat)
    requires
        fuel <= more,
        eval_spec(term, fuel) != Err::<Term, EvalError>(EvalError::StepLimit),
    ensures
        eval_spec(term, more) == eval_spec(term, fuel),
    decreases fuel,
{
    if let Some(next) = step_spec(term) {
        lemma_eval_budget_monotone(next, (fuel - 1) as nat, (more - 1) as nat);
    }
}

/// Decides whether the step that `term` takes, if it takes one, keeps
/// every index in range.
pub fn step_in_range(term: &Term) -> (r: bool)
    ensures
        r == step_fits(*term),
    decreases *term,
{
    match term {
        Term::TmIf(c, _, _) => step_in_range(c),
        Term::TmApp(f, a) => {
            if f.is_value() {
                if a.is_value() {
                    match &**f {
                        Term::TmAbs(_, body) => substitution_in_range(a, body),
                        _ => true,
                    }
                } else {
                    step_in_range(a)
                }
            } else {
                step_in_range(f)
            }
        },
        Term::TmSucc(t) => step_in_range(t),
        _ => true,
    }
}

/// Reduces `term` by one step, or reports that no rule applies.
pub fn eval1(term: &Term) -> (r: Result<Term, EvalError>)
    requires
        step_fits(*term),
    ensures
        match r {
            Ok(next) => step_spec(*term) == Some(next),
            Err(err) => err == EvalError::NoRuleApplies && step_spec(*term) is None,
        },
    decreases *term,
{
    match term {
        Term::TmIf(c, t, e) => match &**c {
            Term::TmTrue => Ok((&**t).clone()),
            Term::TmFalse => Ok((&**e).clone()),
            _ => match eval1(c) {
                Ok(c2) => Ok(
                    Term::TmIf(
                        Box::new(c2),
                        Box::new((&**t).clone()),
                        Box::new((&**e).clone()),
                    ),
                ),
                Err(err) => Err(err),
            },
        },
        Term::TmApp(f, a) => {
            if f.is_value() {
                if a.is_value() {
                    match &**f {
                        Term::TmAbs(_, body) => Ok(substitution(a, body)),
                        _ => Err(EvalError::NoRuleApplies),
                    }
                } else {
                    match eval1(a) {
                        Ok(a2) => Ok(Term::TmApp(Box::new((&**f).clone()), Box::new(a2))),
                        Err(err) => Err(err),
                    }
                }
            } else {
                match eval1(f) {
                    Ok(f2) => Ok(Term::TmApp(Box::new(f2), Box::new((&**a).clone()))),
                    Err(err) => Err(err),
                }
            }
        },
        Term::TmSucc(t) => match eval1(t) {
            Ok(t2) => Ok(Term::TmSucc(Box::new(t2))),
            Err(err) => Err(err),
        },
        _ => Err(EvalError::NoRuleApplies),
    }
}

/// Reduces `term` until no rule applies, taking at most `max_steps` steps.
pub fn eval(term: &Term, max_steps: usize) -> (r: Result<Term, EvalError>)
    requires
        eval_fits(*term, max_steps as nat),
    ensures
        r == eval_spec(*term, max_steps as nat),
        r matches Ok(v) ==> v.value(),
        r matches Err(err) ==> err != EvalError::NoRuleApplies,
{
    let mut current: Term = term.clone();
    let mut remaining: usize = max_steps;
    loop
        invariant
            eval_fits(current, remaining as nat),
            eval_spec(current, remaining as nat) == eval_spec(*term, max_steps as nat),
        decreases remaining,
    {
        match eval1(&current) {
            Ok(next) => {
                if remaining == 0 {
                    return Err(EvalError::StepLimit);
                }
                remaining = remaining - 1;
                current = next;
            },
            Err(_) => {
                if current.is_value() {
                    return Ok(current);
                } else {
                    return Err(EvalError::StuckTerm);
                }
            },
        }
    }
}

} // verus!
