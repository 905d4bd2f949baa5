//! Scope resolution: from named variables to de Bruijn indices.

use std::collections::VecDeque;
use vstd::prelude::*;
use vstd::string::StringSliceAdditionalSpecFns;
use crate::simply_typed_lambda::ast_parser::{parse_statement, statement_at, ASTTerm, Ast};
use crate::simply_typed_lambda::term::Term;

verus! {

/// The position of the first name in `names` that equals `key`.
pub open spec fn index_of(names: Seq<Seq<char>>, key: Seq<char>) -> Option<nat>
    decreases names.len(),
{
    if names.len() == 0 {
        None
    } else if names[0] == key {
        Some(0)
    } else {
        match index_of(names.drop_first(), key) {
            Some(i) => Some(i + 1),
            None => None,
        }
    }
}

/// `index_of` finds the first occurrence of the key, and finds none exactly
/// where the key does not occur.
pub proof fn lemma_index_of_is_first(names: Seq<Seq<char>>, key: Seq<char>)
    ensures
        match index_of(names, key) {
            Some(i) => i < names.len() && names[i as int] == key && forall|j: int|
                0 <= j < i ==> names[j] != key,
            None => forall|j: int| 0 <= j < names.len() ==> names[j] != key,
        },
    decreases names.len(),
{
    if names.len() > 0 && names[0] != key {
        let rest = names.drop_first();
        lemma_index_of_is_first(rest, key);
        match index_of(rest, key) {
            Some(i) => {
                assert forall|j: int| 0 <= j < i + 1 implies names[j] != key by {
                    if j > 0 {
                        assert(names[j] == rest[j - 1]);
                    }
                }
            },
            None => {
                assert forall|j: int| 0 <= j < names.len() implies names[j] != key by {
                    if j > 0 {
                        assert(names[j] == rest[j - 1]);
                    }
                }
            },
        }
    }
}

/// The names of the binders in scope, most recent first: the position of a
/// name is the de Bruijn index that a variable of that name gets.
#[derive(Debug)]
pub struct DeBruijnIndexer {
    inner: VecDeque<String>,
}

impl View for DeBruijnIndexer {
    type V = Seq<Seq<char>>;

    closed spec fn view(&self) -> Seq<Seq<char>> {
        self.inner@.map_values(|name: String| name@)
    }
}

impl Default for DeBruijnIndexer {
    fn default() -> (r: Self)
        ensures
            r@ == Seq::<Seq<char>>::empty(),
    {
        DeBruijnIndexer::new()
    }
}

impl DeBruijnIndexer {
    /// The scope with no binder in it.
    pub fn new() -> (r: Self)
        ensures
            r@ == Seq::<Seq<char>>::empty(),
    {
        let r = DeBruijnIndexer { inner: VecDeque::new() };
        assert(r@ =~= Seq::<Seq<char>>::empty());
        r
    }

    /// Brings a binder named `hint` into scope at index 0, whatever names
    /// are in scope already, and returns the number of binders that were in
    /// scope before it.
    pub fn push(&mut self, hint: String) -> (idx: usize)
        ensures
            final(self)@ == seq![hint@] + old(self)@,
            idx == old(self)@.len(),
    {
        broadcast use vstd::std_specs::vecdeque::group_vec_dequeue_axioms;

        let idx = self.inner.len();
        self.inner.push_front(hint);
        assert(self@ =~= seq![hint@] + old(self)@);
        idx
    }

    /// Takes the most recent binder out of scope. An empty scope stays
    /// empty.
    pub fn pop(&mut self)
        ensures
            old(self)@.len() > 0 ==> final(self)@ == old(self)@.drop_first(),
            old(self)@.len() == 0 ==> final(self)@ == old(self)@,
    {
        let _ = self.inner.pop_front();
        assert(old(self)@.len() > 0 ==> self@ =~= old(self)@.drop_first());
        assert(old(self)@.len() == 0 ==> self@ =~= old(self)@);
    }

    /// The de Bruijn index of the variable named `key`: the position of the
    /// most recent binder of that name.
    pub fn lookup(&self, key: &str) -> (r: Option<usize>)
        ensures
            match r {
                Some(i) => index_of(self@, key@) == Some(i as nat),
                None => index_of(self@, key@) is None,
            },
    {
        broadcast use vstd::std_specs::vecdeque::group_vec_dequeue_axioms;

        let wanted = String::from_str(key);
        let n = self.inner.len();
        let mut i: usize = 0;
        assert(self@.skip(0) =~= self@);
        while i < n
            invariant
                n == self@.len(),
                i <= n,
                wanted@ == key@,
                match index_of(self@.skip(i as int), key@) {
                    Some(k) => index_of(self@, key@) == Some(k + i as nat),
                    None => index_of(self@, key@) is None,
                },
            decreases n - i,
        {
            let ghost rest = self@.skip(i as int);
            assert(rest[0] == self.inner@[i as int]@);
            assert(rest.drop_first() =~= self@.skip(i + 1));
            if self.inner[i] == wanted {
                return Some(i);
            }
            i = i + 1;
        }
        assert(self@.skip(i as int).len() == 0);
        None
    }
}

/// Why a text gave no term.
#[derive(Debug, PartialEq, PartialOrd)]
pub enum ParseError {
    /// The text is not a statement of the surface syntax.
    Syntax,
    /// A variable of this name has no binder in scope.
    UnboundVariable(String),
}

impl Clone for ParseError {
    fn clone(&self) -> (r: Self)
        ensures
            r == *self,
    {
        match self {
            ParseError::Syntax => ParseError::Syntax,
            ParseError::UnboundVariable(name) => ParseError::UnboundVariable(name.clone()),
        }
    }
}

/// The nameless term for `ast` where `names` are the binders in scope, or
/// the name of the first variable, from left to right, that has no binder.
/// A binder is pushed whatever names are in scope, so an inner binder
/// shadows an outer one of the same name.
pub open spec fn resolve_spec(ast: Ast, names: Seq<Seq<char>>) -> Result<Term, Seq<char>>
    decreases ast,
{
    match ast {
        Ast::True => Ok(Term::TmTrue),
        Ast::False => Ok(Term::TmFalse),
        Ast::Zero => Ok(Term::TmZero),
        Ast::Succ(t) => match resolve_spec(*t, names) {
            Ok(t2) => Ok(Term::TmSucc(Box::new(t2))),
            Err(name) => Err(name),
        },
        Ast::Var(id) => match index_of(names, id) {
            Some(i) => Ok(Term::TmVar(i as usize)),
            None => Err(id),
        },
        Ast::Abs(arg, ty, body) => match resolve_spec(*body, seq![arg] + names) {
            Ok(body2) => Ok(Term::TmAbs(ty, Box::new(body2))),
            Err(name) => Err(name),
        },
        Ast::App(f, a) => match resolve_spec(*f, names) {
            Ok(f2) => match resolve_spec(*a, names) {
                Ok(a2) => Ok(Term::TmApp(Box::new(f2), Box::new(a2))),
                Err(name) => Err(name),
            },
            Err(name) => Err(name),
        },
        Ast::If(c, t, e) => match resolve_spec(*c, names) {
            Ok(c2) => match resolve_spec(*t, names) {
                Ok(t2) => match resolve_spec(*e, names) {
                    Ok(e2) => Ok(Term::TmIf(Box::new(c2), Box::new(t2), Box::new(e2))),
                    Err(name) => Err(name),
                },
                Err(name) => Err(name),
            },
            Err(name) => Err(name),
        },
    }
}

/// What `resolve` hands back for the outcome `expected` of `resolve_spec`:
/// the same term, or the error that carries the unbound name.
pub open spec fn resolved_as(
    r: Result<Term, ParseError>,
    expected: Result<Term, Seq<char>>,
) -> bool {
    match expected {
        Ok(term) => r == Ok::<Term, ParseError>(term),
        Err(name) => r matches Err(ParseError::UnboundVariable(found)) && found@ == name,
    }
}

/// A resolved term mentions no binder outside the scope that it was
/// resolved in.
pub proof fn lemma_resolved_is_closed(ast: Ast, names: Seq<Seq<char>>)
    ensures
        resolve_spec(ast, names) matches Ok(term) ==> term.closed_at(names.len()),
    decreases ast,
{
    match ast {
        Ast::Succ(t) => lemma_resolved_is_closed(*t, names),
        Ast::Var(id) => lemma_index_of_is_first(names, id),
        Ast::Abs(arg, _, body) => lemma_resolved_is_closed(*body, seq![arg] + names),
        Ast::App(f, a) => {
            lemma_resolved_is_closed(*f, names);
            lemma_resolved_is_closed(*a, names);
        },
        Ast::If(c, t, e) => {
            lemma_resolved_is_closed(*c, names);
            lemma_resolved_is_closed(*t, names);
            lemma_resolved_is_closed(*e, names);
        },
        _ => {},
    }
}

/// Resolves the names of `ast` against the binders in `scope`. The scope is
/// used as a stack while the tree is walked, and is handed back as it came,
/// on success and on every error.
pub fn resolve(scope: &mut DeBruijnIndexer, ast: &ASTTerm) -> (r: Result<Term, ParseError>)
    ensures
        final(scope)@ == old(scope)@,
        resolved_as(r, resolve_spec(ast@, old(scope)@)),
        r matches Ok(term) ==> term.closed_at(old(scope)@.len()),
    decreases *ast,
{
    let r = match ast {
        ASTTerm::TmTrue => Ok(Term::TmTrue),
        ASTTerm::TmFalse => Ok(Term::TmFalse),
        ASTTerm::TmZero => Ok(Term::TmZero),
        ASTTerm::TmSucc(t) => match resolve(scope, t) {
            Ok(t2) => Ok(Term::TmSucc(Box::new(t2))),
            Err(err) => Err(err),
        },
        ASTTerm::TmVar(id) => match scope.lookup(id.as_str()) {
            Some(index) => Ok(Term::TmVar(index)),
            None => Err(ParseError::UnboundVariable(id.clone())),
        },
        ASTTerm::TmAbs(arg, ty, body) => {
            let _ = scope.push(arg.clone());
            let body_result = resolve(scope, body);
            scope.pop();
            assert(scope@ =~= old(scope)@);
            match body_result {
                Ok(body2) => Ok(Term::TmAbs(ty.clone(), Box::new(body2))),
                Err(err) => Err(err),
            }
        },
        ASTTerm::TmApp(f, a) => match resolve(scope, f) {
            Ok(f2) => match resolve(scope, a) {
                Ok(a2) => Ok(Term::TmApp(Box::new(f2), Box::new(a2))),
                Err(err) => Err(err),
            },
            Err(err) => Err(err),
        },
        ASTTerm::TmIf(c, t, e) => match resolve(scope, c) {
            Ok(c2) => match resolve(scope, t) {
                Ok(t2) => match resolve(scope, e) {
                    Ok(e2) => Ok(Term::TmIf(Box::new(c2), Box::new(t2), Box::new(e2))),
                    Err(err) => Err(err),
                },
                Err(err) => Err(err),
            },
            Err(err) => Err(err),
        },
    };
    proof {
        lemma_resolved_is_closed(ast@, old(scope)@);
    }
    r
}

/// Turns surface syntax into nameless terms. Its scope is empty between
/// calls.
#[derive(Debug)]
pub struct Parser {
    context: DeBruijnIndexer,
}

impl Parser {
    /// The names of the binders in scope.
    pub closed spec fn scope(&self) -> Seq<Seq<char>> {
        self.context@
    }

    /// A parser with no binder in scope.
    pub fn new() -> (r: Self)
        ensures
            r.scope() == Seq::<Seq<char>>::empty(),
    {
        Parser { context: DeBruijnIndexer::new() }
    }

    /// Resolves the names of `ast_term` against the binders in scope, and
    /// leaves the scope as it was.
    pub fn from_ast_term(&mut self, ast_term: &ASTTerm) -> (r: Result<Term, ParseError>)
        ensures
            final(self).scope() == old(self).scope(),
            resolved_as(r, resolve_spec(ast_term@, old(self).scope())),
            r matches Ok(term) ==> term.closed_at(old(self).scope().len()),
    {
        resolve(&mut self.context, ast_term)
    }

    /// Parses `input` as a statement, a term with a semicolon behind it,
    /// and resolves its names against the binders in scope. Nothing may
    /// stand behind the statement.
    pub fn parse(&mut self, input: &str) -> (r: Result<Term, ParseError>)
        requires
            statement_at(input.spec_bytes(), 0) matches Some((_, end)) ==> end
                == input.spec_bytes().len(),
        ensures
            final(self).scope() == old(self).scope(),
            match statement_at(input.spec_bytes(), 0) {
                Some((ast, _)) => resolved_as(r, resolve_spec(ast, old(self).scope())),
                None => r == Err::<Term, ParseError>(ParseError::Syntax),
            },
            r matches Ok(term) ==> term.closed_at(old(self).scope().len()),
    {
        match parse_statement(input.as_bytes(), 0) {
            Some((ast, _)) => self.from_ast_term(&ast),
            None => Err(ParseError::Syntax),
        }
    }
}

} // verus!
