use lambda_calculi::simply_typed_lambda::ast_parser::ASTTerm;
use lambda_calculi::simply_typed_lambda::context::Context;
use lambda_calculi::simply_typed_lambda::eval::{eval, eval1, step_in_range, EvalError};
use lambda_calculi::simply_typed_lambda::parser::{DeBruijnIndexer, ParseError, Parser};
use lambda_calculi::simply_typed_lambda::substitute::{
    shift, shift_in_range, substitute, substitute_in_range, substitution, substitution_in_range,
    Direction, Shifting, Substitution,
};
use lambda_calculi::simply_typed_lambda::term::Term;
use lambda_calculi::simply_typed_lambda::typing::{type_of, Type, TypeError};

fn succ(t: Term) -> Term {
    Term::TmSucc(Box::new(t))
}

fn var(n: usize) -> Term {
    Term::TmVar(n)
}

fn abs(ty: Type, body: Term) -> Term {
    Term::TmAbs(ty, Box::new(body))
}

fn app(f: Term, a: Term) -> Term {
    Term::TmApp(Box::new(f), Box::new(a))
}

fn cond(c: Term, t: Term, e: Term) -> Term {
    Term::TmIf(Box::new(c), Box::new(t), Box::new(e))
}

fn arrow(domain: Type, codomain: Type) -> Type {
    Type::Arrow(Box::new(domain), Box::new(codomain))
}

fn name(s: &str) -> ASTTerm {
    ASTTerm::TmVar(s.to_string())
}

fn lambda(param: &str, ty: Type, body: ASTTerm) -> ASTTerm {
    ASTTerm::TmAbs(param.to_string(), ty, Box::new(body))
}

fn type_in_empty_context(term: &Term) -> Result<Type, TypeError> {
    assert!(term.is_closed());
    let mut ctx = Context::new();
    let r = type_of(&mut ctx, term);
    assert_eq!(ctx.len(), 0);
    r
}

fn shifted(term: &Term, cutoff: usize, direction: Direction, distance: usize) -> Term {
    assert!(shift_in_range(term, cutoff, direction, distance));
    shift(term, cutoff, direction, distance)
}

fn substituted(term: &Term, target: usize, replacement: &Term) -> Term {
    assert!(substitute_in_range(term, target, replacement));
    substitute(term, target, replacement)
}

fn beta(val: &Term, body: &Term) -> Term {
    assert!(substitution_in_range(val, body));
    substitution(val, body)
}

fn step(term: &Term) -> Result<Term, EvalError> {
    assert!(step_in_range(term));
    eval1(term)
}

fn run(term: &Term, max_steps: usize) -> Result<Term, EvalError> {
    assert!(term.is_closed());
    eval(term, max_steps)
}

#[test]
fn successor_function_applied_to_zero_evaluates_to_one() {
    let ast = ASTTerm::TmApp(
        Box::new(lambda("x", Type::Number, ASTTerm::TmSucc(Box::new(name("x"))))),
        Box::new(ASTTerm::TmZero),
    );
    let mut parser = Parser::new();
    let term = parser.from_ast_term(&ast).unwrap();
    assert_eq!(term, app(abs(Type::Number, succ(var(0))), Term::TmZero));
    assert_eq!(type_in_empty_context(&term), Ok(Type::Number));
    assert_eq!(run(&term, 10), Ok(succ(Term::TmZero)));
}

#[test]
fn conditional_function_has_arrow_type() {
    let term = abs(
        Type::Boolean,
        cond(var(0), Term::TmZero, succ(Term::TmZero)),
    );
    assert_eq!(
        type_in_empty_context(&term),
        Ok(arrow(Type::Boolean, Type::Number))
    );
}

#[test]
fn numeric_condition_is_a_type_mismatch() {
    let term = cond(Term::TmZero, Term::TmTrue, Term::TmFalse);
    assert_eq!(
        type_in_empty_context(&term),
        Err(TypeError::TypeMismatch {
            expected: Type::Boolean,
            found: Type::Number
        })
    );
}

#[test]
fn bare_variable_is_unbound_in_empty_scope() {
    let mut parser = Parser::new();
    assert_eq!(
        parser.from_ast_term(&name("x")),
        Err(ParseError::UnboundVariable("x".to_string()))
    );
}

#[test]
fn beta_reduction_does_not_capture_under_inner_binder() {
    // (lambda x. lambda y. x) z, with z the nearest free variable
    let body = abs(Type::Boolean, var(1));
    let z = var(0);
    assert_eq!(beta(&z, &body), abs(Type::Boolean, var(1)));
    // z two binders out
    assert_eq!(beta(&var(1), &body), abs(Type::Boolean, var(2)));
    // a closed argument is inserted as it is
    let identity = abs(Type::Number, var(0));
    let redex = app(abs(Type::Number, body.clone()), identity.clone());
    assert_eq!(step(&redex), Ok(abs(Type::Boolean, identity.clone())));
    // an argument with a bound variable of its own under the inner binder
    let k = abs(Type::Number, abs(Type::Boolean, var(1)));
    assert_eq!(
        beta(&k, &abs(Type::Boolean, app(var(1), var(0)))),
        abs(Type::Boolean, app(k.clone(), var(0)))
    );
}

#[test]
fn shift_moves_free_variables_only() {
    let term = abs(Type::Boolean, app(var(0), app(var(1), var(3))));
    assert_eq!(
        shifted(&term, 0, Direction::Up, 1),
        abs(Type::Boolean, app(var(0), app(var(2), var(4))))
    );
    assert_eq!(
        shifted(&term, 1, Direction::Up, 2),
        abs(Type::Boolean, app(var(0), app(var(1), var(5))))
    );
    assert_eq!(
        shifted(&term, 0, Direction::Down, 1),
        abs(Type::Boolean, app(var(0), app(var(0), var(2))))
    );
    assert_eq!(
        Shifting::new(Direction::Up).apply(&var(7)),
        var(8)
    );
    assert_eq!(Shifting::default().apply(&var(0)), var(1));
}

#[test]
fn shift_up_then_down_is_identity() {
    let terms = vec![
        Term::TmTrue,
        var(0),
        var(41),
        abs(Type::Number, app(var(0), var(1))),
        cond(var(2), succ(var(0)), abs(Type::Boolean, abs(Type::Boolean, var(5)))),
    ];
    for t in terms {
        let up = shifted(&t, 0, Direction::Up, 1);
        assert_eq!(shifted(&up, 0, Direction::Down, 1), t);
    }
}

#[test]
fn substitute_replaces_target_and_closes_gap() {
    let r = succ(var(0));
    // target 0 at depth 0
    assert_eq!(substituted(&var(0), 0, &r), succ(var(0)));
    // above the target: lowered by one
    assert_eq!(substituted(&var(3), 0, &r), var(2));
    // below the cutoff: unchanged
    assert_eq!(
        substituted(&abs(Type::Number, var(0)), 0, &r),
        abs(Type::Number, var(0))
    );
    // under a binder the replacement is lifted by the cutoff
    assert_eq!(
        substituted(&abs(Type::Number, var(1)), 0, &r),
        abs(Type::Number, succ(var(1)))
    );
    let s = Substitution::new(Term::TmZero);
    assert_eq!(s.apply(&app(var(0), var(1))), app(Term::TmZero, var(0)));
}

#[test]
fn step_rules() {
    let id = abs(Type::Boolean, var(0));
    assert_eq!(step(&cond(Term::TmTrue, Term::TmZero, Term::TmFalse)), Ok(Term::TmZero));
    assert_eq!(step(&cond(Term::TmFalse, Term::TmZero, Term::TmFalse)), Ok(Term::TmFalse));
    assert_eq!(
        step(&cond(cond(Term::TmTrue, Term::TmFalse, Term::TmTrue), Term::TmZero, Term::TmZero)),
        Ok(cond(Term::TmFalse, Term::TmZero, Term::TmZero))
    );
    assert_eq!(step(&app(id.clone(), Term::TmTrue)), Ok(Term::TmTrue));
    // the argument is reduced before the application
    assert_eq!(
        step(&app(id.clone(), app(id.clone(), Term::TmTrue))),
        Ok(app(id.clone(), Term::TmTrue))
    );
    // the function is reduced before the argument
    assert_eq!(
        step(&app(
            app(abs(Type::Boolean, id.clone()), Term::TmTrue),
            app(id.clone(), Term::TmTrue)
        )),
        Ok(app(id.clone(), app(id.clone(), Term::TmTrue)))
    );
    assert_eq!(
        step(&succ(cond(Term::TmTrue, Term::TmZero, Term::TmZero))),
        Ok(succ(Term::TmZero))
    );
    assert_eq!(step(&Term::TmTrue), Err(EvalError::NoRuleApplies));
    assert_eq!(step(&succ(Term::TmZero)), Err(EvalError::NoRuleApplies));
    assert_eq!(step(&id), Err(EvalError::NoRuleApplies));
    assert_eq!(step(&app(Term::TmTrue, Term::TmFalse)), Err(EvalError::NoRuleApplies));
    assert_eq!(step(&succ(Term::TmTrue)), Err(EvalError::NoRuleApplies));
}

#[test]
fn evaluation_outcomes() {
    let id = abs(Type::Boolean, var(0));
    assert_eq!(run(&Term::TmZero, 0), Ok(Term::TmZero));
    assert_eq!(run(&app(id.clone(), Term::TmTrue), 1), Ok(Term::TmTrue));
    assert_eq!(run(&app(id.clone(), Term::TmTrue), 0), Err(EvalError::StepLimit));
    assert_eq!(
        run(&cond(Term::TmZero, Term::TmTrue, Term::TmFalse), 5),
        Err(EvalError::StuckTerm)
    );
    assert_eq!(
        run(&app(id.clone(), app(Term::TmTrue, Term::TmTrue)), 5),
        Err(EvalError::StuckTerm)
    );
    // the self application diverges
    let omega_half = abs(Type::Boolean, app(var(0), var(0)));
    let omega = app(omega_half.clone(), omega_half);
    assert_eq!(run(&omega, 1000), Err(EvalError::StepLimit));
}

#[test]
fn values_and_closedness() {
    assert!(Term::TmTrue.is_value());
    assert!(succ(succ(Term::TmZero)).is_value());
    assert!(succ(succ(Term::TmZero)).is_numeric_value());
    assert!(abs(Type::Number, var(3)).is_value());
    assert!(!succ(Term::TmTrue).is_value());
    assert!(!var(0).is_value());
    assert!(!app(Term::TmTrue, Term::TmTrue).is_value());
    assert!(!Term::TmTrue.is_numeric_value());
    assert!(abs(Type::Number, var(0)).is_closed());
    assert!(!abs(Type::Number, var(1)).is_closed());
    assert!(abs(Type::Number, var(1)).is_closed_at(1));
    assert!(!var(0).is_closed());
    assert!(abs(Type::Number, var(usize::MAX)).is_closed_at(usize::MAX));
}

#[test]
fn typing_rules() {
    let id = abs(Type::Number, var(0));
    assert_eq!(type_in_empty_context(&Term::TmTrue), Ok(Type::Boolean));
    assert_eq!(type_in_empty_context(&Term::TmFalse), Ok(Type::Boolean));
    assert_eq!(type_in_empty_context(&Term::TmZero), Ok(Type::Number));
    assert_eq!(type_in_empty_context(&succ(Term::TmZero)), Ok(Type::Number));
    assert_eq!(
        type_in_empty_context(&succ(Term::TmTrue)),
        Err(TypeError::TypeMismatch { expected: Type::Number, found: Type::Boolean })
    );
    assert_eq!(type_in_empty_context(&id), Ok(arrow(Type::Number, Type::Number)));
    assert_eq!(type_in_empty_context(&app(id.clone(), Term::TmZero)), Ok(Type::Number));
    assert_eq!(
        type_in_empty_context(&app(id.clone(), Term::TmTrue)),
        Err(TypeError::TypeMismatch { expected: Type::Number, found: Type::Boolean })
    );
    assert_eq!(
        type_in_empty_context(&app(Term::TmZero, Term::TmTrue)),
        Err(TypeError::ArrowExpected { found: Type::Number })
    );
    assert_eq!(
        type_in_empty_context(&cond(Term::TmTrue, Term::TmZero, Term::TmFalse)),
        Err(TypeError::TypeMismatch { expected: Type::Number, found: Type::Boolean })
    );
    // the inner binder is index 0, the outer one index 1
    let pick_outer = abs(Type::Number, abs(Type::Boolean, var(1)));
    assert_eq!(
        type_in_empty_context(&pick_outer),
        Ok(arrow(Type::Number, arrow(Type::Boolean, Type::Number)))
    );
}

#[test]
fn type_of_reads_and_restores_the_context() {
    let mut ctx = Context::new();
    ctx.push(Type::Number);
    ctx.push(Type::Boolean);
    assert_eq!(ctx.len(), 2);
    assert_eq!(ctx.get(0), Type::Boolean);
    assert_eq!(ctx.get(1), Type::Number);
    let term = abs(Type::Boolean, cond(var(1), var(2), succ(var(2))));
    assert!(term.is_closed_at(ctx.len()));
    assert_eq!(type_of(&mut ctx, &term), Ok(arrow(Type::Boolean, Type::Number)));
    assert_eq!(ctx.len(), 2);
    let bad = abs(Type::Boolean, succ(var(0)));
    assert_eq!(
        type_of(&mut ctx, &bad),
        Err(TypeError::TypeMismatch { expected: Type::Number, found: Type::Boolean })
    );
    assert_eq!(ctx.len(), 2);
    ctx.pop();
    assert_eq!(ctx.get(0), Type::Number);
    ctx.pop();
    ctx.pop();
    assert_eq!(ctx.len(), 0);
}

#[test]
fn indexer_push_pop_lookup() {
    let mut scope = DeBruijnIndexer::new();
    assert_eq!(scope.lookup("x"), None);
    assert_eq!(scope.push("x".to_string()), 0);
    assert_eq!(scope.push("y".to_string()), 1);
    assert_eq!(scope.lookup("y"), Some(0));
    assert_eq!(scope.lookup("x"), Some(1));
    // a second binder of the same name shadows the first
    assert_eq!(scope.push("x".to_string()), 2);
    assert_eq!(scope.lookup("x"), Some(0));
    assert_eq!(scope.lookup("y"), Some(1));
    scope.pop();
    assert_eq!(scope.lookup("x"), Some(1));
    scope.pop();
    scope.pop();
    scope.pop();
    assert_eq!(scope.lookup("x"), None);
}

#[test]
fn resolver_handles_shadowing_and_restores_scope() {
    let mut parser = Parser::new();
    // lambda x. lambda x. x  refers to the inner binder
    let shadow = lambda("x", Type::Number, lambda("x", Type::Boolean, name("x")));
    assert_eq!(
        parser.from_ast_term(&shadow),
        Ok(abs(Type::Number, abs(Type::Boolean, var(0))))
    );
    // lambda x. lambda y. x y
    let both = lambda(
        "x",
        arrow(Type::Number, Type::Number),
        lambda(
            "y",
            Type::Number,
            ASTTerm::TmApp(Box::new(name("x")), Box::new(name("y"))),
        ),
    );
    assert_eq!(
        parser.from_ast_term(&both),
        Ok(abs(
            arrow(Type::Number, Type::Number),
            abs(Type::Number, app(var(1), var(0)))
        ))
    );
    // an error inside a binder leaves no binder behind
    let open_body = lambda("x", Type::Number, name("y"));
    assert_eq!(
        parser.from_ast_term(&open_body),
        Err(ParseError::UnboundVariable("y".to_string()))
    );
    assert_eq!(
        parser.from_ast_term(&name("x")),
        Err(ParseError::UnboundVariable("x".to_string()))
    );
    // the first unbound name from the left is reported
    let two = ASTTerm::TmIf(
        Box::new(ASTTerm::TmTrue),
        Box::new(name("a")),
        Box::new(name("b")),
    );
    assert_eq!(
        parser.from_ast_term(&two),
        Err(ParseError::UnboundVariable("a".to_string()))
    );
}

#[test]
fn well_typed_terms_keep_their_type_along_reduction() {
    let id = abs(Type::Number, var(0));
    let twice = abs(
        arrow(Type::Number, Type::Number),
        abs(Type::Number, app(var(1), app(var(1), var(0)))),
    );
    let inc = abs(Type::Number, succ(var(0)));
    let mut term = cond(
        app(abs(Type::Boolean, var(0)), Term::TmTrue),
        app(app(twice, inc), app(id, Term::TmZero)),
        Term::TmZero,
    );
    let ty = type_in_empty_context(&term).unwrap();
    assert_eq!(ty, Type::Number);
    let mut steps = 0;
    loop {
        assert!(term.is_closed());
        match step(&term) {
            Ok(next) => {
                assert_eq!(type_in_empty_context(&next), Ok(Type::Number));
                term = next;
                steps += 1;
            }
            Err(e) => {
                assert_eq!(e, EvalError::NoRuleApplies);
                assert!(term.is_value());
                break;
            }
        }
    }
    assert_eq!(term, succ(succ(Term::TmZero)));
    assert!(steps > 3);
}

#[test]
fn range_of_indices_is_decided() {
    // lifting the largest index would leave the range
    assert!(!shift_in_range(&var(usize::MAX), 0, Direction::Up, 1));
    assert!(shift_in_range(&var(usize::MAX - 1), 0, Direction::Up, 1));
    // below the cutoff nothing moves
    assert!(shift_in_range(&var(usize::MAX), usize::MAX, Direction::Down, 1));
    assert!(shift_in_range(&abs(Type::Number, var(0)), 0, Direction::Down, 1));
    // lowering index zero would leave the range
    assert!(!shift_in_range(&var(0), 0, Direction::Down, 1));
    assert!(!shift_in_range(&abs(Type::Number, var(1)), 0, Direction::Down, 2));
    assert!(shift_in_range(&abs(Type::Number, var(2)), 0, Direction::Down, 1));
    assert!(!shift_in_range(
        &cond(Term::TmTrue, succ(var(3)), app(var(5), var(usize::MAX))),
        4,
        Direction::Up,
        2
    ));
    // the replacement is lifted by the depth at which it is put in
    assert!(substitute_in_range(
        &abs(Type::Number, var(1)),
        0,
        &var(usize::MAX - 1)
    ));
    assert!(!substitute_in_range(
        &abs(Type::Number, abs(Type::Number, var(2))),
        0,
        &var(usize::MAX - 1)
    ));
    assert!(substitute_in_range(
        &abs(Type::Number, abs(Type::Number, var(1))),
        0,
        &var(usize::MAX)
    ));
    // a body with a variable beyond its own binder has no room to be lowered twice
    assert!(!substitution_in_range(&Term::TmTrue, &var(1)));
    assert!(substitution_in_range(&Term::TmTrue, &var(2)));
    assert_eq!(beta(&Term::TmTrue, &var(2)), var(0));
    assert!(!substitution_in_range(&var(usize::MAX), &var(0)));
    assert!(substitution_in_range(&var(usize::MAX - 1), &var(0)));
    assert_eq!(beta(&var(7), &var(0)), var(7));
    // a step is in range where its redex is
    let open_redex = app(abs(Type::Number, var(1)), Term::TmTrue);
    assert!(!step_in_range(&open_redex));
    assert!(!open_redex.is_closed());
    assert!(step_in_range(&app(open_redex.clone(), var(9))) == false);
    assert!(step_in_range(&app(var(9), open_redex.clone())));
    assert!(step_in_range(&cond(Term::TmTrue, open_redex.clone(), Term::TmZero)));
    assert!(step_in_range(&succ(var(usize::MAX))));
}
