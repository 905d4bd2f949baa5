//! The type algebra and the typing judgment.

use vstd::prelude::*;
use vstd::std_specs::cmp::PartialEqSpecImpl;
use crate::simply_typed_lambda::context::Context;
use crate::simply_typed_lambda::term::Term;

verus! {

/// A type of the calculus: one of the two ground types, or a function type
/// from a domain to a codomain.
#[derive(Debug, PartialOrd)]
pub enum Type {
    Boolean,
    Number,
    Arrow(Box<Type>, Box<Type>),
}

impl Clone for Type {
    fn clone(&self) -> (r: Self)
        ensures
            r == *self,
        decreases *self,
    {
        match self {
            Type::Boolean => Type::Boolean,
            Type::Number => Type::Number,
            Type::Arrow(domain, codomain) => Type::Arrow(
                Box::new((&**domain).clone()),
                Box::new((&**codomain).clone()),
            ),
        }
    }
}

impl PartialEq for Type {
    fn eq(&self, other: &Type) -> (r: bool)
        decreases *self,
    {
        match (self, other) {
            (Type::Boolean, Type::Boolean) => true,
            (Type::Number, Type::Number) => true,
            (Type::Arrow(d1, c1), Type::Arrow(d2, c2)) => {
                (&**d1).eq(&**d2) && (&**c1).eq(&**c2)
            },
            _ => false,
        }
    }
}

impl PartialEqSpecImpl for Type {
    open spec fn obeys_eq_spec() -> bool {
        true
    }

    open spec fn eq_spec(&self, other: &Type) -> bool {
        *self == *other
    }
}

/// Why a term has no type.
#[derive(Debug, PartialEq)]
pub enum TypeError {
    /// A subterm has type `found` where only `expected` fits.
    TypeMismatch { expected: Type, found: Type },
    /// The term in function position has type `found`, which is no
    /// function type.
    ArrowExpected { found: Type },
}

impl Clone for TypeError {
    fn clone(&self) -> (r: Self)
        ensures
            r == *self,
    {
        match self {
            TypeError::TypeMismatch { expected, found } => TypeError::TypeMismatch {
                expected: expected.clone(),
                found: found.clone(),
            },
            TypeError::ArrowExpected { found } => TypeError::ArrowExpected { found: found.clone() },
        }
    }
}

/// The typing judgment as a function: the type of `term` where `ctx` holds
/// the types of the binders around it, most recent first, or the first
/// error met. The subterms are typed from left to right, and the type of
/// each is held against what its place asks for before the next is typed.
///
/// A variable without a binder in `ctx` has no type; which error stands for
/// that is left open.
pub open spec fn type_of_spec(ctx: Seq<Type>, term: Term) -> Result<Type, TypeError>
    decreases term,
{
    match term {
        Term::TmTrue | Term::TmFalse => Ok(Type::Boolean),
        Term::TmZero => Ok(Type::Number),
        Term::TmSucc(t) => match type_of_spec(ctx, *t) {
            Ok(found) => if found == Type::Number {
                Ok(Type::Number)
            } else {
                Err(TypeError::TypeMismatch { expected: Type::Number, found })
            },
            Err(err) => Err(err),
        },
        Term::TmVar(n) => if n < ctx.len() {
            Ok(ctx[n as int])
        } else {
            Err(arbitrary())
        },
        Term::TmAbs(ty, body) => match type_of_spec(seq![ty] + ctx, *body) {
            Ok(body_ty) => Ok(Type::Arrow(Box::new(ty), Box::new(body_ty))),
            Err(err) => Err(err),
        },
        Term::TmApp(f, a) => match type_of_spec(ctx, *f) {
            Ok(Type::Arrow(domain, codomain)) => match type_of_spec(ctx, *a) {
                Ok(found) => if found == *domain {
                    Ok(*codomain)
                } else {
                    Err(TypeError::TypeMismatch { expected: *domain, found })
                },
                Err(err) => Err(err),
            },
            Ok(found) => Err(TypeError::ArrowExpected { found }),
            Err(err) => Err(err),
        },
        Term::TmIf(c, t, e) => match type_of_spec(ctx, *c) {
            Ok(cond_ty) => if cond_ty == Type::Boolean {
                match type_of_spec(ctx, *t) {
                    Ok(then_ty) => match type_of_spec(ctx, *e) {
                        Ok(else_ty) => if then_ty == else_ty {
                            Ok(then_ty)
                        } else {
                            Err(TypeError::TypeMismatch { expected: then_ty, found: else_ty })
                        },
                        Err(err) => Err(err),
                    },
                    Err(err) => Err(err),
                }
            } else {
                Err(TypeError::TypeMismatch { expected: Type::Boolean, found: cond_ty })
            },
            Err(err) => Err(err),
        },
    }
}

/// The typing judgment as a relation: `term` has type `ty` under `ctx`.
pub open spec fn has_type(ctx: Seq<Type>, term: Term, ty: Type) -> bool {
    type_of_spec(ctx, term) == Ok::<Type, TypeError>(ty)
}

/// Computes the type of `term` under `ctx`. The context is used as a stack
/// while the term is walked, and is handed back as it came, on success and
/// on every error.
pub fn type_of(ctx: &mut Context, term: &Term) -> (r: Result<Type, TypeError>)
    requires
        term.closed_at(old(ctx)@.len()),
    ensures
        final(ctx)@ == old(ctx)@,
        r == type_of_spec(old(ctx)@, *term),
    decreases *term,
{
    match term {
        Term::TmTrue | Term::TmFalse => Ok(Type::Boolean),
        Term::TmZero => Ok(Type::Number),
        Term::TmSucc(t) => match type_of(ctx, t) {
            Ok(found) => if found == Type::Number {
                Ok(Type::Number)
            } else {
                Err(TypeError::TypeMismatch { expected: Type::Number, found })
            },
            Err(err) => Err(err),
        },
        Term::TmVar(n) => Ok(ctx.get(*n)),
        Term::TmAbs(ty, body) => {
            ctx.push(ty.clone());
            let body_result = type_of(ctx, body);
            ctx.pop();
            assert(ctx@ =~= old(ctx)@);
            match body_result {
                Ok(body_ty) => Ok(Type::Arrow(Box::new(ty.clone()), Box::new(body_ty))),
                Err(err) => Err(err),
            }
        },
        Term::TmApp(f, a) => match type_of(ctx, f) {
            Ok(Type::Arrow(domain, codomain)) => match type_of(ctx, a) {
                Ok(found) => if found == *domain {
                    Ok(*codomain)
                } else {
                    Err(TypeError::TypeMismatch { expected: *domain, found })
                },
                Err(err) => Err(err),
            },
            Ok(found) => Err(TypeError::ArrowExpected { found }),
            Err(err) => Err(err),
        },
        Term::TmIf(c, t, e) => match type_of(ctx, c) {
            Ok(cond_ty) => if cond_ty == Type::Boolean {
                match type_of(ctx, t) {
                    Ok(then_ty) => match type_of(ctx, e) {
                        Ok(else_ty) => if then_ty == else_ty {
                            Ok(then_ty)
                        } else {
                            Err(TypeError::TypeMismatch { expected: then_ty, found: else_ty })
                        },
                        Err(err) => Err(err),
                    },
                    Err(err) => Err(err),
                }
            } else {
                Err(TypeError::TypeMismatch { expected: Type::Boolean, found: cond_ty })
            },
            Err(err) => Err(err),
        },
    }
}

} // verus!
