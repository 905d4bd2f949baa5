//! Type soundness: well-typed closed terms are never stuck, and reduction
//! keeps their type.

use vstd::prelude::*;
use crate::simply_typed_lambda::eval::{eval_spec, step_spec, EvalError};
use crate::simply_typed_lambda::substitute::{
    lemma_beta_closed,
    lemma_shift_closed,
    substitute_spec,
};
use crate::simply_typed_lambda::term::Term;
use crate::simply_typed_lambda::typing::{has_type, type_of_spec, Type};

verus! {

/// A term that has a type under `ctx` mentions no binder outside `ctx`.
pub proof fn lemma_typed_is_closed(ctx: Seq<Type>, term: Term)
    requires
        type_of_spec(ctx, term) is Ok,
    ensures
        term.closed_at(ctx.len()),
    decreases term,
{
    match term {
        Term::TmSucc(t) => lemma_typed_is_closed(ctx, *t),
        Term::TmAbs(ty, body) => lemma_typed_is_closed(seq![ty] + ctx, *body),
        Term::TmApp(f, a) => {
            lemma_typed_is_closed(ctx, *f);
            lemma_typed_is_closed(ctx, *a);
        },
        Term::TmIf(c, t, e) => {
            lemma_typed_is_closed(ctx, *c);
            lemma_typed_is_closed(ctx, *t);
            lemma_typed_is_closed(ctx, *e);
        },
        _ => {},
    }
}

/// Weakening: binders added outside those that a typing used leave the
/// type as it is.
pub proof fn lemma_weakening(ctx: Seq<Type>, outer: Seq<Type>, term: Term)
    requires
        type_of_spec(ctx, term) is Ok,
    ensures
        type_of_spec(ctx + outer, term) == type_of_spec(ctx, term),
    decreases term,
{
    match term {
        Term::TmSucc(t) => lemma_weakening(ctx, outer, *t),
        Term::TmAbs(ty, body) => {
            lemma_weakening(seq![ty] + ctx, outer, *body);
            assert(seq![ty] + (ctx + outer) =~= (seq![ty] + ctx) + outer);
        },
        Term::TmApp(f, a) => {
            lemma_weakening(ctx, outer, *f);
            lemma_weakening(ctx, outer, *a);
        },
        Term::TmIf(c, t, e) => {
            lemma_weakening(ctx, outer, *c);
            lemma_weakening(ctx, outer, *t);
            lemma_weakening(ctx, outer, *e);
        },
        _ => {},
    }
}

/// A numeric value has type `Number` under every context.
pub proof fn lemma_numeric_value_type(ctx: Seq<Type>, term: Term)
    requires
        term.numeric_value(),
    ensures
        has_type(ctx, term, Type::Number),
    decreases term,
{
    match term {
        Term::TmSucc(t) => lemma_numeric_value_type(ctx, *t),
        _ => {},
    }
}

/// Canonical forms: a typed value of a ground type is a constant of that
/// type, and one of a function type is an abstraction.
pub proof fn lemma_canonical_forms(ctx: Seq<Type>, term: Term)
    requires
        term.value(),
        type_of_spec(ctx, term) is Ok,
    ensures
        match type_of_spec(ctx, term)->Ok_0 {
            Type::Boolean => term == Term::TmTrue || term == Term::TmFalse,
            Type::Number => term.numeric_value(),
            Type::Arrow(_, _) => term is TmAbs,
        },
{
    if term.numeric_value() {
        lemma_numeric_value_type(ctx, term);
    }
}

/// Progress: a closed term that has a type under the empty context is a
/// value or takes a step.
pub proof fn lemma_progress(term: Term)
    requires
        term.closed(),
        type_of_spec(Seq::empty(), term) is Ok,
    ensures
        term.value() || step_spec(term) is Some,
    decreases term,
{
    let empty = Seq::<Type>::empty();
    match term {
        Term::TmSucc(t) => {
            lemma_progress(*t);
            if t.value() {
                lemma_canonical_forms(empty, *t);
            }
        },
        Term::TmApp(f, a) => {
            lemma_progress(*f);
            lemma_progress(*a);
            if f.value() {
                lemma_canonical_forms(empty, *f);
            }
        },
        Term::TmIf(c, _, _) => {
            lemma_progress(*c);
            if c.value() {
                lemma_canonical_forms(empty, *c);
            }
        },
        _ => {},
    }
}

/// Putting a closed term of type `param` in place of the variable of that
/// type keeps the type of the term around it. `inner` holds the binders
/// crossed on the way to the variable.
pub proof fn lemma_substitute_keeps_type(
    inner: Seq<Type>,
    param: Type,
    term: Term,
    replacement: Term,
)
    requires
        type_of_spec(inner + seq![param], term) is Ok,
        has_type(Seq::empty(), replacement, param),
    ensures
        type_of_spec(inner, substitute_spec(term, inner.len(), replacement)) == type_of_spec(
            inner + seq![param],
            term,
        ),
    decreases term,
{
    let ctx = inner + seq![param];
    match term {
        Term::TmVar(n) => {
            if n == inner.len() {
                lemma_typed_is_closed(Seq::empty(), replacement);
                lemma_shift_closed(replacement, 0, inner.len() as int);
                lemma_weakening(Seq::empty(), inner, replacement);
                assert(Seq::<Type>::empty() + inner =~= inner);
            }
        },
        Term::TmSucc(t) => lemma_substitute_keeps_type(inner, param, *t, replacement),
        Term::TmAbs(ty, body) => {
            assert(seq![ty] + ctx =~= (seq![ty] + inner) + seq![param]);
            lemma_substitute_keeps_type(seq![ty] + inner, param, *body, replacement);
        },
        Term::TmApp(f, a) => {
            lemma_substitute_keeps_type(inner, param, *f, replacement);
            lemma_substitute_keeps_type(inner, param, *a, replacement);
        },
        Term::TmIf(c, t, e) => {
            lemma_substitute_keeps_type(inner, param, *c, replacement);
            lemma_substitute_keeps_type(inner, param, *t, replacement);
            lemma_substitute_keeps_type(inner, param, *e, replacement);
        },
        _ => {},
    }
}

/// Preservation: where a term of type `ty` under the empty context takes a
/// step, the term it reduces to has type `ty` too.
pub proof fn lemma_preservation(term: Term, ty: Type, next: Term)
    requires
        has_type(Seq::empty(), term, ty),
        step_spec(term) == Some(next),
    ensures
        has_type(Seq::empty(), next, ty),
    decreases term,
{
    let empty = Seq::<Type>::empty();
    match term {
        Term::TmSucc(t) => {
            lemma_preservation(*t, Type::Number, step_spec(*t)->Some_0);
        },
        Term::TmIf(c, _, _) => {
            if *c != Term::TmTrue && *c != Term::TmFalse {
                lemma_preservation(*c, Type::Boolean, step_spec(*c)->Some_0);
            }
        },
        Term::TmApp(f, a) => {
            let f_ty = type_of_spec(empty, *f)->Ok_0;
            let a_ty = type_of_spec(empty, *a)->Ok_0;
            if f.value() {
                if a.value() {
                    match *f {
                        Term::TmAbs(param, body) => {
                            lemma_typed_is_closed(empty, *f);
                            lemma_typed_is_closed(empty, *a);
                            assert(body.closed_at(1));
                            lemma_beta_closed(*body, *a);
                            assert(seq![param] + empty =~= empty + seq![param]);
                            lemma_substitute_keeps_type(empty, param, *body, *a);
                        },
                        _ => {},
                    }
                } else {
                    lemma_preservation(*a, a_ty, step_spec(*a)->Some_0);
                }
            } else {
                lemma_preservation(*f, f_ty, step_spec(*f)->Some_0);
            }
        },
        _ => {},
    }
}

/// Type soundness of evaluation: a well-typed closed term never ends stuck,
/// and the value it reaches, if the steps suffice, has the type of the
/// term.
pub proof fn lemma_evaluation_sound(term: Term, ty: Type, fuel: nat)
    requires
        has_type(Seq::empty(), term, ty),
    ensures
        eval_spec(term, fuel) != Err::<Term, _>(EvalError::StuckTerm),
        eval_spec(term, fuel) matches Ok(v) ==> v.value() && has_type(Seq::empty(), v, ty),
    decreases fuel,
{
    lemma_typed_is_closed(Seq::empty(), term);
    match step_spec(term) {
        Some(next) => {
            if fuel > 0 {
                lemma_preservation(term, ty, next);
                lemma_evaluation_sound(next, ty, (fuel - 1) as nat);
            }
        },
        None => {
            lemma_progress(term);
        },
    }
}

} // verus!
