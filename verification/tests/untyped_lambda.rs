use lambda_calculi::scan::SyntaxError;
use lambda_calculi::untyped_lambda::parser::{parse, Term};

fn var(name: &str) -> Term {
    Term::TmVar(name.to_string())
}

fn abs(param: &str, body: Term) -> Term {
    Term::TmAbs(param.to_string(), Box::new(body))
}

fn app(f: Term, a: Term) -> Term {
    Term::TmApp(Box::new(f), Box::new(a))
}

#[test]
fn untyped_lambda_test_term() {
    assert_eq!(
        parse("(lambda x.y);"),
        Ok((
            "",
            Term::TmAbs("x".to_string(), Box::new(Term::TmVar("y".to_string())))
        ))
    );
    assert_eq!(
        parse("(lambda x.(lambda y.y)) z;"),
        Ok((
            "",
            Term::TmApp(
                Box::new(Term::TmAbs(
                    "x".to_string(),
                    Box::new(Term::TmAbs(
                        "y".to_string(),
                        Box::new(Term::TmVar("y".to_string()))
                    ))
                )),
                Box::new(Term::TmVar("z".to_string()))
            )
        ))
    );
}

#[test]
fn untyped_lambda_application_groups_to_the_left() {
    assert_eq!(
        parse("a b c;"),
        Ok(("", app(app(var("a"), var("b")), var("c"))))
    );
    assert_eq!(
        parse("a(b c) d;rest"),
        Ok((
            "rest",
            app(app(var("a"), app(var("b"), var("c"))), var("d"))
        ))
    );
    // letters side by side are variables of one letter each
    assert_eq!(parse("ab;"), Ok(("", app(var("a"), var("b")))));
    // white space of any kind may stand before a variable, and before
    // nothing else
    assert_eq!(parse(" \t\r\nx;"), Ok(("", var("x"))));
    assert_eq!(parse("a (b);"), Err(SyntaxError));
}

#[test]
fn untyped_lambda_abstraction_takes_the_rest() {
    assert_eq!(
        parse("LAMBDA x.x y;"),
        Ok(("", abs("x", app(var("x"), var("y")))))
    );
    assert_eq!(
        parse("lambda x.lambda y.x;"),
        Ok(("", abs("x", abs("y", var("x")))))
    );
}

#[test]
fn untyped_lambda_failures() {
    assert_eq!(parse("x"), Err(SyntaxError));
    assert_eq!(parse(";"), Err(SyntaxError));
    assert_eq!(parse("(x;"), Err(SyntaxError));
    assert_eq!(parse("X;"), Err(SyntaxError));
    assert_eq!(parse("x ;"), Err(SyntaxError));
    // without a parameter the word is read as six variables, and the dot ends them
    assert_eq!(parse("lambda .x;"), Err(SyntaxError));
    assert_eq!(parse("\u{3bb}x.x;"), Err(SyntaxError));
}
