use lambda_calculi::typed_arith::eval::{eval, eval_term, term_type, Error, Type, Value};
use lambda_calculi::untyped_arith::parser::Term;

#[test]
fn eval_test_eval() -> Result<(), Error> {
    assert_eq!(eval("true;")?, Value::Boolean(true));
    assert_eq!(eval("succ(2);")?, Value::Numeric(3));
    assert_eq!(eval("iszero(2);")?, Value::Boolean(false));
    assert!(eval("iszero(false);").is_err());
    assert_eq!(eval("if false then 10 else 20;")?, Value::Numeric(20));
    assert!(eval("if 9 then 10 else 20;").is_err());
    assert!(eval("if true then false else 20;").is_err());
    assert_eq!(
        eval("if false then true else false;")?,
        Value::Boolean(false)
    );
    Ok(())
}

fn succ(t: Term) -> Term {
    Term::TmSucc(Box::new(t))
}

fn cond(c: Term, t: Term, e: Term) -> Term {
    Term::TmIf(Box::new(c), Box::new(t), Box::new(e))
}

#[test]
fn typed_term_types() {
    assert_eq!(term_type(&Term::TmTrue).unwrap(), Type::Boolean);
    assert_eq!(term_type(&Term::TmZero).unwrap(), Type::Numeric);
    assert_eq!(term_type(&succ(Term::TmZero)).unwrap(), Type::Numeric);
    assert_eq!(
        term_type(&Term::TmPred(Box::new(Term::TmZero))).unwrap(),
        Type::Numeric
    );
    // the result of iszero counts as numeric
    assert_eq!(
        term_type(&Term::TmIsZero(Box::new(Term::TmZero))).unwrap(),
        Type::Numeric
    );
    assert_eq!(
        term_type(&succ(Term::TmTrue)).unwrap_err().to_string(),
        "term MUST be Numeric"
    );
    assert_eq!(
        term_type(&cond(Term::TmZero, Term::TmTrue, Term::TmTrue))
            .unwrap_err()
            .to_string(),
        "term MUST be Boolean"
    );
    assert_eq!(
        term_type(&cond(Term::TmTrue, Term::TmZero, Term::TmTrue))
            .unwrap_err()
            .to_string(),
        "then term mismatch with else term"
    );
    assert_eq!(
        term_type(&cond(Term::TmFalse, Term::TmFalse, Term::TmTrue)).unwrap(),
        Type::Boolean
    );
}

#[test]
fn typed_evaluation_of_terms() {
    assert_eq!(eval_term(&succ(succ(Term::TmZero))).unwrap(), Value::Numeric(2));
    assert!(eval_term(&succ(Term::TmTrue)).is_err());
    assert!(eval_term(&Term::TmPred(Box::new(Term::TmFalse))).is_err());
    assert_eq!(
        eval_term(&Term::TmIsZero(Box::new(Term::TmZero))).unwrap(),
        Value::Boolean(true)
    );
    // a conditional is typed as a whole: the branch not taken counts too
    assert!(eval_term(&cond(Term::TmTrue, Term::TmZero, Term::TmFalse)).is_err());
    // a condition built with iszero is numeric by the typing rule
    assert!(eval_term(&cond(
        Term::TmIsZero(Box::new(Term::TmZero)),
        Term::TmZero,
        Term::TmZero
    ))
    .is_err());
    assert_eq!(
        eval_term(&cond(Term::TmFalse, Term::TmZero, succ(Term::TmZero))).unwrap(),
        Value::Numeric(1)
    );
}

#[test]
fn typed_eval_reports_text_outside_the_grammar() {
    assert_eq!(eval("succ(").unwrap_err().to_string(), "parser error");
    assert_eq!(eval("pred(succ(0));").unwrap(), Value::Numeric(0));
}
