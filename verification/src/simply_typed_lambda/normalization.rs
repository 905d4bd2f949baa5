//! Normalization: every well-typed closed term reduces to a value.

use vstd::prelude::*;
use crate::simply_typed_lambda::eval::{eval_spec, lemma_value_is_normal, step_spec, EvalError};
use crate::simply_typed_lambda::soundness::{
    lemma_canonical_forms,
    lemma_preservation,
    lemma_typed_is_closed,
    lemma_weakening,
};
use crate::simply_typed_lambda::substitute::{
    lemma_beta_closed,
    lemma_shift_closed,
    lemma_substitute_below_cutoff,
    substitute_spec,
};
use crate::simply_typed_lambda::term::Term;
use crate::simply_typed_lambda::typing::{has_type, type_of_spec, Type};

verus! {

/// The term reached from `term` by `n` steps, if that many can be taken.
pub open spec fn steps_to(term: Term, n: nat) -> Option<Term>
    decreases n,
{
    if n == 0 {
        Some(term)
    } else {
        match step_spec(term) {
            Some(next) => steps_to(next, (n - 1) as nat),
            None => None,
        }
    }
}

/// `n` steps lead from `term` to a value.
pub open spec fn reaches_value(term: Term, n: nat) -> bool {
    steps_to(term, n) matches Some(v) && v.value()
}

/// Some number of steps leads from `term` to a value.
pub open spec fn halts(term: Term) -> bool {
    exists|n: nat| reaches_value(term, n)
}

/// The application of `f` to `a`.
pub open spec fn applied(f: Term, a: Term) -> Term {
    Term::TmApp(Box::new(f), Box::new(a))
}

/// The terms of type `ty` that behave well: a closed term of that type that
/// halts and, where it is a function, maps every well-behaved argument to a
/// well-behaved result.
pub open spec fn reducible(ty: Type, term: Term) -> bool
    decreases ty,
{
    &&& has_type(Seq::empty(), term, ty)
    &&& halts(term)
    &&& match ty {
        Type::Arrow(domain, codomain) => forall|arg: Term|
            reducible(*domain, arg) ==> reducible(*codomain, #[trigger] applied(term, arg)),
        _ => true,
    }
}

/// One step is a reduction of length one.
pub proof fn lemma_one_step(term: Term)
    requires
        step_spec(term) is Some,
    ensures
        steps_to(term, 1) == step_spec(term),
{
    assert(steps_to(step_spec(term)->Some_0, 0) == step_spec(term));
}

/// Steps taken one after the other add up.
pub proof fn lemma_steps_concat(term: Term, n: nat, m: nat)
    requires
        steps_to(term, n) is Some,
    ensures
        steps_to(term, n + m) == steps_to(steps_to(term, n)->Some_0, m),
    decreases n,
{
    if n > 0 {
        lemma_steps_concat(step_spec(term)->Some_0, (n - 1) as nat, m);
    }
}

/// Steps of a term are steps of its successor.
pub proof fn lemma_steps_succ(term: Term, n: nat)
    requires
        steps_to(term, n) is Some,
    ensures
        steps_to(Term::TmSucc(Box::new(term)), n) == Some(
            Term::TmSucc(Box::new(steps_to(term, n)->Some_0)),
        ),
    decreases n,
{
    if n > 0 {
        lemma_steps_succ(step_spec(term)->Some_0, (n - 1) as nat);
    }
}

/// Steps of a condition are steps of the conditional.
pub proof fn lemma_steps_if(c: Term, t: Term, e: Term, n: nat)
    requires
        steps_to(c, n) is Some,
    ensures
        steps_to(Term::TmIf(Box::new(c), Box::new(t), Box::new(e)), n) == Some(
            Term::TmIf(Box::new(steps_to(c, n)->Some_0), Box::new(t), Box::new(e)),
        ),
    decreases n,
{
    if n > 0 {
        lemma_steps_if(step_spec(c)->Some_0, t, e, (n - 1) as nat);
    }
}

/// Steps of an argument are steps of the application of a value to it.
pub proof fn lemma_steps_argument(f: Term, a: Term, n: nat)
    requires
        f.value(),
        steps_to(a, n) is Some,
    ensures
        steps_to(Term::TmApp(Box::new(f), Box::new(a)), n) == Some(
            Term::TmApp(Box::new(f), Box::new(steps_to(a, n)->Some_0)),
        ),
    decreases n,
{
    if n > 0 {
        if a.value() {
            lemma_value_is_normal(a);
        }
        lemma_steps_argument(f, step_spec(a)->Some_0, (n - 1) as nat);
    }
}

/// Steps keep the type.
pub proof fn lemma_steps_keep_type(term: Term, ty: Type, n: nat)
    requires
        has_type(Seq::empty(), term, ty),
        steps_to(term, n) is Some,
    ensures
        has_type(Seq::empty(), steps_to(term, n)->Some_0, ty),
    decreases n,
{
    if n > 0 {
        let next = step_spec(term)->Some_0;
        lemma_preservation(term, ty, next);
        lemma_steps_keep_type(next, ty, (n - 1) as nat);
    }
}

/// A term halts exactly if the term that it steps to halts.
pub proof fn lemma_step_halts(term: Term, next: Term)
    requires
        step_spec(term) == Some(next),
    ensures
        halts(term) == halts(next),
{
    if halts(term) {
        let n = choose|n: nat| reaches_value(term, n);
        if n == 0 {
            lemma_value_is_normal(term);
        }
        assert(reaches_value(next, (n - 1) as nat));
    }
    if halts(next) {
        let n = choose|n: nat| reaches_value(next, n);
        assert(reaches_value(term, n + 1));
    }
}

/// A typed term behaves well exactly if the term that it steps to does.
pub proof fn lemma_step_reducible(ty: Type, term: Term, next: Term)
    requires
        has_type(Seq::empty(), term, ty),
        step_spec(term) == Some(next),
    ensures
        reducible(ty, term) == reducible(ty, next),
    decreases ty,
{
    lemma_preservation(term, ty, next);
    lemma_step_halts(term, next);
    match ty {
        Type::Arrow(domain, codomain) => {
            if term.value() {
                lemma_value_is_normal(term);
            }
            assert forall|arg: Term| reducible(*domain, arg) implies reducible(
                *codomain,
                #[trigger] applied(term, arg),
            ) == reducible(*codomain, applied(next, arg)) by {
                lemma_step_reducible(*codomain, applied(term, arg), applied(next, arg));
            }
            if reducible(ty, term) {
                assert forall|arg: Term| reducible(*domain, arg) implies reducible(
                    *codomain,
                    #[trigger] applied(next, arg),
                ) by {
                    assert(reducible(*codomain, applied(term, arg)));
                }
            }
            if reducible(ty, next) {
                assert forall|arg: Term| reducible(*domain, arg) implies reducible(
                    *codomain,
                    #[trigger] applied(term, arg),
                ) by {
                    assert(reducible(*codomain, applied(next, arg)));
                }
            }
        },
        _ => {},
    }
}

/// A typed term behaves well exactly if a term that it reduces to does.
pub proof fn lemma_steps_reducible(ty: Type, term: Term, n: nat)
    requires
        has_type(Seq::empty(), term, ty),
        steps_to(term, n) is Some,
    ensures
        reducible(ty, term) == reducible(ty, steps_to(term, n)->Some_0),
    decreases n,
{
    if n > 0 {
        let next = step_spec(term)->Some_0;
        lemma_step_reducible(ty, term, next);
        lemma_preservation(term, ty, next);
        lemma_steps_reducible(ty, next, (n - 1) as nat);
    }
}

/// `term` with the closed terms of `env` in place of its free variables:
/// the variable that reaches `k` binders past the `depth` binders inside
/// `term` becomes `env[k]`.
pub open spec fn instantiate(term: Term, depth: nat, env: Seq<Term>) -> Term
    decreases term,
{
    match term {
        Term::TmVar(n) => if depth <= n < depth + env.len() {
            env[n - depth]
        } else {
            term
        },
        Term::TmSucc(t) => Term::TmSucc(Box::new(instantiate(*t, depth, env))),
        Term::TmAbs(ty, body) => Term::TmAbs(ty, Box::new(instantiate(*body, depth + 1, env))),
        Term::TmApp(f, a) => Term::TmApp(
            Box::new(instantiate(*f, depth, env)),
            Box::new(instantiate(*a, depth, env)),
        ),
        Term::TmIf(c, t, e) => Term::TmIf(
            Box::new(instantiate(*c, depth, env)),
            Box::new(instantiate(*t, depth, env)),
            Box::new(instantiate(*e, depth, env)),
        ),
        _ => term,
    }
}

/// `env` holds, for each binder of `ctx`, a well-behaved value of its
/// type.
pub open spec fn well_behaved_env(ctx: Seq<Type>, env: Seq<Term>) -> bool {
    &&& env.len() == ctx.len()
    &&& forall|i: int|
        0 <= i < env.len() ==> (#[trigger] env[i]).value() && reducible(ctx[i], env[i])
}

/// Instantiating the variables of a typed term with terms of their types
/// keeps its type.
pub proof fn lemma_instantiate_keeps_type(
    inner: Seq<Type>,
    ctx: Seq<Type>,
    env: Seq<Term>,
    term: Term,
)
    requires
        type_of_spec(inner + ctx, term) is Ok,
        env.len() == ctx.len(),
        forall|i: int| 0 <= i < env.len() ==> has_type(Seq::empty(), #[trigger] env[i], ctx[i]),
    ensures
        type_of_spec(inner, instantiate(term, inner.len(), env)) == type_of_spec(
            inner + ctx,
            term,
        ),
    decreases term,
{
    match term {
        Term::TmVar(n) => {
            if inner.len() <= n {
                let k = n - inner.len();
                assert(has_type(Seq::empty(), env[k], ctx[k]));
                lemma_weakening(Seq::empty(), inner, env[k]);
                assert(Seq::<Type>::empty() + inner =~= inner);
            }
        },
        Term::TmSucc(t) => lemma_instantiate_keeps_type(inner, ctx, env, *t),
        Term::TmAbs(ty, body) => {
            assert(seq![ty] + (inner + ctx) =~= (seq![ty] + inner) + ctx);
            lemma_instantiate_keeps_type(seq![ty] + inner, ctx, env, *body);
        },
        Term::TmApp(f, a) => {
            lemma_instantiate_keeps_type(inner, ctx, env, *f);
            lemma_instantiate_keeps_type(inner, ctx, env, *a);
        },
        Term::TmIf(c, t, e) => {
            lemma_instantiate_keeps_type(inner, ctx, env, *c);
            lemma_instantiate_keeps_type(inner, ctx, env, *t);
            lemma_instantiate_keeps_type(inner, ctx, env, *e);
        },
        _ => {},
    }
}

/// Substituting a closed term for the innermost free variable of an
/// instantiated body is instantiating the body with that term ahead of the
/// others.
pub proof fn lemma_substitute_instantiated(
    term: Term,
    depth: nat,
    env: Seq<Term>,
    replacement: Term,
)
    requires
        term.closed_at(depth + 1 + env.len()),
        replacement.closed(),
        forall|i: int| 0 <= i < env.len() ==> (#[trigger] env[i]).closed(),
    ensures
        substitute_spec(instantiate(term, depth + 1, env), depth, replacement) == instantiate(
            term,
            depth,
            seq![replacement] + env,
        ),
    decreases term,
{
    match term {
        Term::TmVar(n) => {
            if n == depth {
                lemma_shift_closed(replacement, 0, depth as int);
            } else if n > depth {
                let k = n - depth - 1;
                assert(env[k].closed());
                env[k].lemma_closed_at_monotone(0, depth);
                lemma_substitute_below_cutoff(env[k], depth, replacement);
            }
        },
        Term::TmSucc(t) => lemma_substitute_instantiated(*t, depth, env, replacement),
        Term::TmAbs(_, body) => lemma_substitute_instantiated(*body, depth + 1, env, replacement),
        Term::TmApp(f, a) => {
            lemma_substitute_instantiated(*f, depth, env, replacement);
            lemma_substitute_instantiated(*a, depth, env, replacement);
        },
        Term::TmIf(c, t, e) => {
            lemma_substitute_instantiated(*c, depth, env, replacement);
            lemma_substitute_instantiated(*t, depth, env, replacement);
            lemma_substitute_instantiated(*e, depth, env, replacement);
        },
        _ => {},
    }
}

/// Instantiating with no term changes nothing.
pub proof fn lemma_instantiate_nothing(term: Term, depth: nat)
    ensures
        instantiate(term, depth, Seq::empty()) == term,
    decreases term,
{
    match term {
        Term::TmSucc(t) => lemma_instantiate_nothing(*t, depth),
        Term::TmAbs(_, body) => lemma_instantiate_nothing(*body, depth + 1),
        Term::TmApp(f, a) => {
            lemma_instantiate_nothing(*f, depth);
            lemma_instantiate_nothing(*a, depth);
        },
        Term::TmIf(c, t, e) => {
            lemma_instantiate_nothing(*c, depth);
            lemma_instantiate_nothing(*t, depth);
            lemma_instantiate_nothing(*e, depth);
        },
        _ => {},
    }
}

/// The fundamental lemma: a typed term whose variables stand for
/// well-behaved values behaves well itself.
pub proof fn lemma_instantiated_is_reducible(ctx: Seq<Type>, env: Seq<Term>, term: Term, ty: Type)
    requires
        has_type(ctx, term, ty),
        well_behaved_env(ctx, env),
    ensures
        reducible(ty, instantiate(term, 0, env)),
    decreases term, 0nat,
{
    let empty = Seq::<Type>::empty();
    let here = instantiate(term, 0, env);
    assert(empty + ctx =~= ctx);
    lemma_instantiate_keeps_type(empty, ctx, env, term);
    assert(has_type(empty, here, ty));
    match term {
        Term::TmVar(n) => {
            assert(env[n as int].value());
        },
        Term::TmSucc(t) => {
            let inner = instantiate(*t, 0, env);
            lemma_instantiated_is_reducible(ctx, env, *t, Type::Number);
            let n = choose|n: nat| reaches_value(inner, n);
            let v = steps_to(inner, n)->Some_0;
            lemma_steps_keep_type(inner, Type::Number, n);
            lemma_canonical_forms(empty, v);
            lemma_steps_succ(inner, n);
            assert(reaches_value(here, n));
        },
        Term::TmAbs(param, body) => {
            let result = type_of_spec(seq![param] + ctx, *body)->Ok_0;
            assert(reaches_value(here, 0));
            assert forall|arg: Term| reducible(param, arg) implies reducible(
                result,
                #[trigger] applied(here, arg),
            ) by {
                lemma_applied_abstraction(ctx, env, param, *body, result, arg);
            }
        },
        Term::TmApp(f, a) => {
            let f_ty = type_of_spec(ctx, *f)->Ok_0;
            let a_ty = type_of_spec(ctx, *a)->Ok_0;
            lemma_instantiated_is_reducible(ctx, env, *f, f_ty);
            lemma_instantiated_is_reducible(ctx, env, *a, a_ty);
            assert(here == applied(instantiate(*f, 0, env), instantiate(*a, 0, env)));
        },
        Term::TmIf(c, t, e) => {
            let c2 = instantiate(*c, 0, env);
            let t2 = instantiate(*t, 0, env);
            let e2 = instantiate(*e, 0, env);
            lemma_instantiated_is_reducible(ctx, env, *c, Type::Boolean);
            lemma_instantiated_is_reducible(ctx, env, *t, ty);
            lemma_instantiated_is_reducible(ctx, env, *e, ty);
            let n = choose|n: nat| reaches_value(c2, n);
            let v = steps_to(c2, n)->Some_0;
            lemma_steps_keep_type(c2, Type::Boolean, n);
            lemma_canonical_forms(empty, v);
            lemma_steps_if(c2, t2, e2, n);
            lemma_one_step(Term::TmIf(Box::new(v), Box::new(t2), Box::new(e2)));
            lemma_steps_concat(here, n, 1);
            lemma_steps_reducible(ty, here, n + 1);
        },
        _ => {
            assert(reaches_value(here, 0));
        },
    }
}

/// An instantiated abstraction maps a well-behaved argument to a
/// well-behaved result.
proof fn lemma_applied_abstraction(
    ctx: Seq<Type>,
    env: Seq<Term>,
    param: Type,
    body: Term,
    result: Type,
    arg: Term,
)
    requires
        has_type(seq![param] + ctx, body, result),
        well_behaved_env(ctx, env),
        reducible(param, arg),
    ensures
        reducible(
            result,
            applied(Term::TmAbs(param, Box::new(instantiate(body, 1, env))), arg),
        ),
    decreases body, 1nat,
{
    let empty = Seq::<Type>::empty();
    let inner = instantiate(body, 1, env);
    let function = Term::TmAbs(param, Box::new(inner));
    let whole = applied(function, arg);
    // the argument reduces to a well-behaved value
    let n = choose|n: nat| reaches_value(arg, n);
    let v = steps_to(arg, n)->Some_0;
    lemma_steps_keep_type(arg, param, n);
    lemma_steps_reducible(param, arg, n);
    lemma_typed_is_closed(empty, v);
    // the body is typed with the parameter in scope, and so is the function
    assert(seq![param] + ctx =~= seq![param] + ctx);
    lemma_instantiate_keeps_type(seq![param], ctx, env, body);
    assert(seq![param] + empty =~= seq![param]);
    assert(has_type(empty, function, Type::Arrow(Box::new(param), Box::new(result))));
    assert(has_type(empty, whole, result));
    lemma_typed_is_closed(seq![param], inner);
    // the application steps to the body with the value in place of the parameter
    lemma_steps_argument(function, arg, n);
    lemma_beta_closed(inner, v);
    lemma_typed_is_closed(seq![param] + ctx, body);
    assert forall|i: int| 0 <= i < env.len() implies (#[trigger] env[i]).closed() by {
        lemma_typed_is_closed(empty, env[i]);
    }
    lemma_substitute_instantiated(body, 0, env, v);
    let extended = seq![v] + env;
    let reduced = instantiate(body, 0, extended);
    assert(step_spec(applied(function, v)) == Some(reduced));
    lemma_one_step(applied(function, v));
    lemma_steps_concat(whole, n, 1);
    assert(steps_to(whole, n + 1) == Some(reduced));
    // which behaves well
    assert(well_behaved_env(seq![param] + ctx, extended)) by {
        assert forall|i: int| 0 <= i < extended.len() implies (#[trigger] extended[i]).value()
            && reducible((seq![param] + ctx)[i], extended[i]) by {
            if i > 0 {
                assert(extended[i] == env[i - 1]);
            }
        }
    }
    lemma_instantiated_is_reducible(seq![param] + ctx, extended, body, result);
    lemma_steps_reducible(result, whole, n + 1);
}

/// Under a budget of `fuel` steps `term` evaluates to a value of type
/// `ty`.
pub open spec fn evaluates_within(term: Term, ty: Type, fuel: nat) -> bool {
    eval_spec(term, fuel) matches Ok(v) && v.value() && has_type(Seq::empty(), v, ty)
}

/// Normalization: a term that has a type under the empty context reduces
/// to a value of that type, so a large enough step budget evaluates it.
pub proof fn lemma_normalization(term: Term, ty: Type)
    requires
        has_type(Seq::empty(), term, ty),
    ensures
        exists|fuel: nat| evaluates_within(term, ty, fuel),
{
    lemma_instantiate_nothing(term, 0);
    lemma_instantiated_is_reducible(Seq::empty(), Seq::empty(), term, ty);
    let n = choose|n: nat| reaches_value(term, n);
    lemma_eval_follows_steps(term, n);
    lemma_steps_keep_type(term, ty, n);
    assert(evaluates_within(term, ty, n));
}

/// Evaluation under a budget of `n` steps ends at the value that `n` steps
/// lead to.
pub proof fn lemma_eval_follows_steps(term: Term, n: nat)
    requires
        reaches_value(term, n),
    ensures
        eval_spec(term, n) == Ok::<Term, EvalError>(steps_to(term, n)->Some_0),
    decreases n,
{
    if n == 0 {
        lemma_value_is_normal(term);
    } else {
        lemma_eval_follows_steps(step_spec(term)->Some_0, (n - 1) as nat);
    }
}

} // verus!
