use lambda_calculi::scan::SyntaxError;
use lambda_calculi::untyped_arith::eval::{eval, eval_term, Error, Value};
use lambda_calculi::untyped_arith::parser::{parse, parse_term, Term};

#[test]
fn test_eval() -> Result<(), Error> {
    assert_eq!(eval("true;")?, Value::Boolean(true));
    assert_eq!(eval("succ(2);")?, Value::Numeric(3));
    assert_eq!(eval("iszero(2);")?, Value::Boolean(false));
    assert_eq!(eval("if false then 10 else 20;")?, Value::Numeric(20));
    Ok(())
}

#[test]
fn parser_test_term() {
    assert_eq!(parse_term("true"), Ok(("", Term::TmTrue)));
    assert_eq!(parse_term("FALSE"), Ok(("", Term::TmFalse)));
    assert_eq!(parse_term("0"), Ok(("", Term::TmZero)));
    assert_eq!(
        parse_term("succ(0)"),
        Ok(("", Term::TmSucc(Box::new(Term::TmZero))))
    );
    assert_eq!(
        parse_term("succ(2)"),
        Ok((
            "",
            Term::TmSucc(Box::new(Term::TmSucc(Box::new(Term::TmSucc(Box::new(
                Term::TmZero
            ))))))
        ))
    );
    assert_eq!(
        parse_term("if false then true else false"),
        Ok((
            "",
            Term::TmIf(
                Box::new(Term::TmFalse),
                Box::new(Term::TmTrue),
                Box::new(Term::TmFalse)
            )
        ))
    );
}

fn numeral(n: u32) -> Term {
    let mut t = Term::TmZero;
    for _ in 0..n {
        t = Term::TmSucc(Box::new(t));
    }
    t
}

#[test]
fn untyped_words_are_matched_in_any_case() {
    assert_eq!(parse_term("TrUe"), Ok(("", Term::TmTrue)));
    assert_eq!(
        parse_term("SUCC(PRED(IsZero(0)))"),
        Ok((
            "",
            Term::TmSucc(Box::new(Term::TmPred(Box::new(Term::TmIsZero(Box::new(
                Term::TmZero
            ))))))
        ))
    );
    assert_eq!(
        parse_term("IF true THEN 0 ELSE 1"),
        Ok((
            "",
            Term::TmIf(
                Box::new(Term::TmTrue),
                Box::new(Term::TmZero),
                Box::new(numeral(1))
            )
        ))
    );
}

#[test]
fn untyped_numbers() {
    assert_eq!(parse_term("1"), Ok(("", numeral(1))));
    assert_eq!(parse_term("10"), Ok(("", numeral(10))));
    assert_eq!(parse_term("255"), Ok(("", numeral(255))));
    assert_eq!(parse_term("256"), Err(SyntaxError));
    assert_eq!(parse_term("999"), Err(SyntaxError));
    // at most three digits belong to a number
    assert_eq!(parse_term("1234"), Ok(("4", numeral(123))));
    // a leading zero is the constant zero
    assert_eq!(parse_term("01"), Ok(("1", Term::TmZero)));
    assert_eq!(parse_term("12x"), Ok(("x", numeral(12))));
}

#[test]
fn untyped_rest_and_failures() {
    assert_eq!(parse_term("true false"), Ok((" false", Term::TmTrue)));
    assert_eq!(parse_term("succ(0) \u{e9}t\u{e9}"), Ok((" \u{e9}t\u{e9}", numeral(1))));
    assert_eq!(parse_term(""), Err(SyntaxError));
    assert_eq!(parse_term("succ(0"), Err(SyntaxError));
    assert_eq!(parse_term("succ 0"), Err(SyntaxError));
    assert_eq!(parse_term("pred()"), Err(SyntaxError));
    assert_eq!(parse_term("if true then 0"), Err(SyntaxError));
    assert_eq!(parse_term("if  true then 0 else 0"), Err(SyntaxError));
    assert_eq!(parse_term("\u{e9}"), Err(SyntaxError));
    assert_eq!(parse_term(" true"), Err(SyntaxError));
}

#[test]
fn untyped_statements_end_with_a_semicolon() {
    assert_eq!(parse("true;"), Ok(("", Term::TmTrue)));
    assert_eq!(parse("true; false;"), Ok((" false;", Term::TmTrue)));
    assert_eq!(parse("true"), Err(SyntaxError));
    assert_eq!(parse("true ;"), Err(SyntaxError));
    assert_eq!(
        parse("if iszero(0) then pred(3) else succ(0);"),
        Ok((
            "",
            Term::TmIf(
                Box::new(Term::TmIsZero(Box::new(Term::TmZero))),
                Box::new(Term::TmPred(Box::new(numeral(3)))),
                Box::new(numeral(1))
            )
        ))
    );
}

#[test]
fn untyped_term_predicates() {
    assert!(Term::TmZero.is_zero());
    assert!(!Term::TmTrue.is_zero());
    assert!(!numeral(1).is_zero());
    assert!(Term::TmTrue.is_boolean());
    assert!(Term::TmFalse.is_boolean());
    assert!(!Term::TmZero.is_boolean());
    assert!(!Term::TmIsZero(Box::new(Term::TmZero)).is_boolean());
}

#[test]
fn untyped_evaluation_of_terms() {
    assert_eq!(eval_term(&Term::TmZero).unwrap(), Value::Numeric(0));
    assert_eq!(eval_term(&numeral(255)).unwrap(), Value::Numeric(255));
    assert_eq!(
        eval_term(&Term::TmPred(Box::new(numeral(7)))).unwrap(),
        Value::Numeric(6)
    );
    // iszero compares its argument as written
    assert_eq!(
        eval_term(&Term::TmIsZero(Box::new(Term::TmZero))).unwrap(),
        Value::Boolean(true)
    );
    assert_eq!(
        eval_term(&Term::TmIsZero(Box::new(Term::TmPred(Box::new(numeral(1)))))).unwrap(),
        Value::Boolean(false)
    );
    // only the branch taken is evaluated
    let untaken = Term::TmSucc(Box::new(Term::TmTrue));
    assert_eq!(
        eval_term(&Term::TmIf(
            Box::new(Term::TmTrue),
            Box::new(numeral(2)),
            Box::new(untaken)
        ))
        .unwrap(),
        Value::Numeric(2)
    );
}

#[test]
fn untyped_eval_reports_text_outside_the_grammar() {
    let err = eval("succ(;").unwrap_err();
    assert_eq!(err.to_string(), "parser error");
    assert!(eval("true").is_err());
    assert_eq!(eval("if TRUE then pred(1) else 9;").unwrap(), Value::Numeric(0));
}
