use lambda_calculi::scan::SyntaxError;
use lambda_calculi::simply_typed_lambda::ast_parser::{parse_term, ASTTerm};
use lambda_calculi::simply_typed_lambda::context::Context;
use lambda_calculi::simply_typed_lambda::eval::eval;
use lambda_calculi::simply_typed_lambda::parser::{ParseError, Parser};
use lambda_calculi::simply_typed_lambda::term::Term;
use lambda_calculi::simply_typed_lambda::type_parser::parse_type;
use lambda_calculi::simply_typed_lambda::typing::{type_of, Type};

fn name(s: &str) -> ASTTerm {
    ASTTerm::TmVar(s.to_string())
}

fn lambda(param: &str, ty: Type, body: ASTTerm) -> ASTTerm {
    ASTTerm::TmAbs(param.to_string(), ty, Box::new(body))
}

fn apply(f: ASTTerm, a: ASTTerm) -> ASTTerm {
    ASTTerm::TmApp(Box::new(f), Box::new(a))
}

fn arrow(domain: Type, codomain: Type) -> Type {
    Type::Arrow(Box::new(domain), Box::new(codomain))
}

#[test]
fn simply_typed_lambda_test_term() {
    {
        let mut parser = Parser::new();
        assert_eq!(parser.parse("true;"), Ok(Term::TmTrue));
    }
    {
        let mut parser = Parser::new();
        assert_eq!(parser.parse("0;"), Ok(Term::TmZero));
    }
    {
        let mut parser = Parser::new();
        let input = "(lambda x:Bool.x);";
        let term = parser.parse(input);
        println!("term: {:?}", term);
    }
    {
        let mut parser = Parser::new();
        let input = "lambda x:bool.if x then false else true;";
        let term = parser.parse(input);
        println!("term: {:?}", term);
    }
}

#[test]
fn parser_resolves_what_it_parses() {
    let mut parser = Parser::new();
    assert_eq!(
        parser.parse("(lambda x:Bool.x);"),
        Ok(Term::TmAbs(Type::Boolean, Box::new(Term::TmVar(0))))
    );
    assert_eq!(
        parser.parse("lambda f:Nat->Nat.lambda x:Nat.f(f x);"),
        Ok(Term::TmAbs(
            arrow(Type::Number, Type::Number),
            Box::new(Term::TmAbs(
                Type::Number,
                Box::new(Term::TmApp(
                    Box::new(Term::TmVar(1)),
                    Box::new(Term::TmApp(
                        Box::new(Term::TmVar(1)),
                        Box::new(Term::TmVar(0))
                    ))
                ))
            ))
        ))
    );
    assert_eq!(
        parser.parse("lambda x:bool.if x then false else true;"),
        Err(ParseError::Syntax)
    );
    assert_eq!(
        parser.parse("x;"),
        Err(ParseError::UnboundVariable("x".to_string()))
    );
    assert_eq!(
        parser.parse("lambda x:Nat.y;"),
        Err(ParseError::UnboundVariable("y".to_string()))
    );
    assert_eq!(parser.parse("succ(0)"), Err(ParseError::Syntax));
}

#[test]
fn text_to_value() {
    let mut parser = Parser::new();
    let term = parser.parse("(lambda x:Nat.succ(x))0;").unwrap();
    assert!(term.is_closed());
    let mut ctx = Context::new();
    assert_eq!(type_of(&mut ctx, &term), Ok(Type::Number));
    assert_eq!(
        eval(&term, 100),
        Ok(Term::TmSucc(Box::new(Term::TmZero)))
    );
}

#[test]
fn surface_terms() {
    assert_eq!(parse_term("true"), Ok(("", ASTTerm::TmTrue)));
    assert_eq!(parse_term("false;"), Ok((";", ASTTerm::TmFalse)));
    assert_eq!(parse_term("0"), Ok(("", ASTTerm::TmZero)));
    assert_eq!(
        parse_term("succ(succ(0))"),
        Ok((
            "",
            ASTTerm::TmSucc(Box::new(ASTTerm::TmSucc(Box::new(ASTTerm::TmZero))))
        ))
    );
    assert_eq!(
        parse_term("x y z"),
        Ok(("", apply(apply(name("x"), name("y")), name("z"))))
    );
    assert_eq!(
        parse_term("lambda x:Bool.x(true)"),
        Ok((
            "",
            lambda("x", Type::Boolean, apply(name("x"), ASTTerm::TmTrue))
        ))
    );
    // only a variable may have white space before it: behind a blank a
    // word is read letter by letter
    assert_eq!(
        parse_term("x if"),
        Ok(("", apply(apply(name("x"), name("i")), name("f"))))
    );
    assert_eq!(parse_term("x 0"), Ok((" 0", name("x"))));
    assert_eq!(parse_term("x (y)"), Ok((" (y)", name("x"))));
    assert_eq!(
        parse_term("(lambda x:Nat->Bool.x) y"),
        Ok((
            "",
            apply(
                lambda("x", arrow(Type::Number, Type::Boolean), name("x")),
                name("y")
            )
        ))
    );
    // the constants are matched as written, so an upper-case word is none
    assert_eq!(parse_term("True"), Err(SyntaxError));
    assert_eq!(parse_term(""), Err(SyntaxError));
    assert_eq!(parse_term("(x"), Err(SyntaxError));
}

#[test]
fn a_letter_is_read_as_a_variable_before_a_conditional_is_tried() {
    // `if` begins with a letter, so the words are read as variables
    assert_eq!(
        parse_term("if x"),
        Ok(("", apply(apply(name("i"), name("f")), name("x"))))
    );
    // a word that is no whole `succ(..)` falls apart into letters too
    assert_eq!(
        parse_term("succ"),
        Ok((
            "",
            apply(apply(apply(name("s"), name("u")), name("c")), name("c"))
        ))
    );
}

#[test]
fn surface_types() {
    assert_eq!(parse_type("Bool"), Ok(("", Type::Boolean)));
    assert_eq!(parse_type("Nat."), Ok((".", Type::Number)));
    assert_eq!(
        parse_type("Bool->Nat"),
        Ok(("", arrow(Type::Boolean, Type::Number)))
    );
    // arrows group to the right
    assert_eq!(
        parse_type("Bool->Nat->Bool"),
        Ok((
            "",
            arrow(Type::Boolean, arrow(Type::Number, Type::Boolean))
        ))
    );
    assert_eq!(
        parse_type("Nat->Nat->Nat->Bool.x"),
        Ok((
            ".x",
            arrow(
                Type::Number,
                arrow(Type::Number, arrow(Type::Number, Type::Boolean))
            )
        ))
    );
    // an arrow without a type behind it is left in the input
    assert_eq!(parse_type("Bool->x"), Ok(("->x", Type::Boolean)));
    assert_eq!(parse_type("Bool ->Nat"), Ok((" ->Nat", Type::Boolean)));
    assert_eq!(parse_type("bool"), Err(SyntaxError));
    assert_eq!(parse_type("->Nat"), Err(SyntaxError));
}
