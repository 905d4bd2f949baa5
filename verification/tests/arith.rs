use lambda_calculi::arith::parser::{parse_term, Term};
use lambda_calculi::scan::SyntaxError;

#[test]
fn test_term() {
    assert_eq!(parse_term("true"), Ok(("", Term::TmTrue)));
    assert_eq!(parse_term("FALSE"), Ok(("", Term::TmFalse)));
    assert_eq!(parse_term("0"), Ok(("", Term::TmZero)));
    assert_eq!(
        parse_term("succ(0)"),
        Ok(("", Term::TmSucc(Box::new(Term::TmZero))))
    );
    assert_eq!(
        parse_term("succ(2)"),
        Ok((
            "",
            Term::TmSucc(Box::new(Term::TmSucc(Box::new(Term::TmSucc(Box::new(
                Term::TmZero
            ))))))
        ))
    );
    assert_eq!(
        parse_term("if false then true else false"),
        Ok((
            "",
            Term::TmIf(
                Box::new(Term::TmFalse),
                Box::new(Term::TmTrue),
                Box::new(Term::TmFalse)
            )
        ))
    );
}

#[test]
fn arith_conditionals_take_runs_of_blanks() {
    let expected = Term::TmIf(
        Box::new(Term::TmTrue),
        Box::new(Term::TmZero),
        Box::new(Term::TmPred(Box::new(Term::TmZero))),
    );
    assert_eq!(
        parse_term("IF \t true  then\t0 \t else   pred(0)!"),
        Ok(("!", expected))
    );
    // the inner words are matched as written
    assert_eq!(parse_term("if true THEN 0 else 0"), Err(SyntaxError));
    assert_eq!(parse_term("if true then 0 ELSE 0"), Err(SyntaxError));
    // a blank is needed behind each word, and a line feed is none
    assert_eq!(parse_term("iftrue then 0 else 0"), Err(SyntaxError));
    assert_eq!(parse_term("if true then0 else 0"), Err(SyntaxError));
    assert_eq!(parse_term("if true\nthen 0 else 0"), Err(SyntaxError));
}

#[test]
fn arith_numbers_and_operators() {
    assert_eq!(
        parse_term("1"),
        Ok(("", Term::TmSucc(Box::new(Term::TmZero))))
    );
    assert_eq!(parse_term("300"), Err(SyntaxError));
    assert_eq!(
        parse_term("IsZero(Pred(0))x"),
        Ok((
            "x",
            Term::TmIsZero(Box::new(Term::TmPred(Box::new(Term::TmZero))))
        ))
    );
    assert_eq!(parse_term("succ(0"), Err(SyntaxError));
    assert_eq!(parse_term(""), Err(SyntaxError));
}
