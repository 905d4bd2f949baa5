use lambda_calculi::simply_typed_lambda::ast_parser::ASTTerm;
use lambda_calculi::simply_typed_lambda::parser::{DeBruijnIndexer, ParseError};
use lambda_calculi::simply_typed_lambda::term::Term;
use lambda_calculi::simply_typed_lambda::typing::{Type, TypeError};
use lambda_calculi::typed_arith::eval::eval as typed_eval;
use lambda_calculi::untyped_arith::eval::eval as untyped_eval;
use lambda_calculi::untyped_lambda::parser::Term as NamedTerm;

#[test]
fn copies_equal_what_they_were_made_from() {
    let ty = Type::Arrow(
        Box::new(Type::Arrow(Box::new(Type::Boolean), Box::new(Type::Number))),
        Box::new(Type::Boolean),
    );
    assert_eq!(ty.clone(), ty);
    let term = Term::TmAbs(
        ty.clone(),
        Box::new(Term::TmIf(
            Box::new(Term::TmApp(Box::new(Term::TmVar(0)), Box::new(Term::TmTrue))),
            Box::new(Term::TmSucc(Box::new(Term::TmZero))),
            Box::new(Term::TmFalse),
        )),
    );
    assert_eq!(term.clone(), term);
    let ast = ASTTerm::TmAbs(
        "x".to_string(),
        ty.clone(),
        Box::new(ASTTerm::TmIf(
            Box::new(ASTTerm::TmApp(
                Box::new(ASTTerm::TmVar("x".to_string())),
                Box::new(ASTTerm::TmTrue),
            )),
            Box::new(ASTTerm::TmSucc(Box::new(ASTTerm::TmZero))),
            Box::new(ASTTerm::TmFalse),
        )),
    );
    assert_eq!(ast.clone(), ast);
    let named = NamedTerm::TmApp(
        Box::new(NamedTerm::TmAbs(
            "x".to_string(),
            Box::new(NamedTerm::TmVar("x".to_string())),
        )),
        Box::new(NamedTerm::TmVar("y".to_string())),
    );
    assert_eq!(named.clone(), named);
    let unbound = ParseError::UnboundVariable("x".to_string());
    assert_eq!(unbound.clone(), unbound);
    assert_eq!(ParseError::Syntax.clone(), ParseError::Syntax);
    let mismatch = TypeError::TypeMismatch {
        expected: ty.clone(),
        found: Type::Number,
    };
    assert_eq!(mismatch.clone(), mismatch);
    let no_arrow = TypeError::ArrowExpected { found: ty.clone() };
    assert_eq!(no_arrow.clone(), no_arrow);
    assert_eq!(
        untyped_eval("x").unwrap_err().clone().to_string(),
        "parser error"
    );
    assert_eq!(
        typed_eval("succ(true);").unwrap_err().clone().to_string(),
        "term MUST be Numeric"
    );
}

#[test]
fn types_are_equal_by_structure() {
    let a = Type::Arrow(Box::new(Type::Boolean), Box::new(Type::Number));
    let b = Type::Arrow(Box::new(Type::Boolean), Box::new(Type::Number));
    let c = Type::Arrow(Box::new(Type::Number), Box::new(Type::Boolean));
    assert!(a == b);
    assert!(a != c);
    assert!(a != Type::Boolean);
    assert!(Type::Boolean != Type::Number);
    assert!(Type::Number == Type::Number);
    assert!(
        Type::Arrow(Box::new(a), Box::new(Type::Number))
            != Type::Arrow(Box::new(c), Box::new(Type::Number))
    );
}

#[test]
fn a_new_scope_holds_no_name() {
    let scope = DeBruijnIndexer::default();
    assert_eq!(scope.lookup("x"), None);
    assert_eq!(scope.lookup(""), None);
}
