//! The nameless core representation of terms.

use vstd::prelude::*;
use crate::simply_typed_lambda::typing::Type;

verus! {

/// A term in de Bruijn form. `TmVar(n)` refers to the binder reached by
/// crossing `n` abstractions outward from the variable, so index 0 is the
/// nearest enclosing abstraction. `TmAbs` carries the type of its parameter.
#[derive(Debug, PartialEq, PartialOrd)]
pub enum Term {
    TmTrue,
    TmFalse,
    TmZero,
    TmSucc(Box<Term>),
    TmVar(usize),
    TmAbs(Type, Box<Term>),
    TmApp(Box<Term>, Box<Term>),
    TmIf(Box<Term>, Box<Term>, Box<Term>),
}

impl Clone for Term {
    fn clone(&self) -> (r: Self)
        ensures
            r == *self,
        decreases *self,
    {
        match self {
            Term::TmTrue => Term::TmTrue,
            Term::TmFalse => Term::TmFalse,
            Term::TmZero => Term::TmZero,
            Term::TmSucc(t) => Term::TmSucc(Box::new((&**t).clone())),
            Term::TmVar(n) => Term::TmVar(*n),
            Term::TmAbs(ty, body) => Term::TmAbs(ty.clone(), Box::new((&**body).clone())),
            Term::TmApp(f, a) => Term::TmApp(
                Box::new((&**f).clone()),
                Box::new((&**a).clone()),
            ),
            Term::TmIf(c, t, e) => Term::TmIf(
                Box::new((&**c).clone()),
                Box::new((&**t).clone()),
                Box::new((&**e).clone()),
            ),
        }
    }
}

impl Term {
    /// Every variable that sits under `d` abstractions inside this term has
    /// an index below `depth + d`: the term mentions at most the `depth`
    /// innermost binders around it.
    pub open spec fn closed_at(self, depth: nat) -> bool
        decreases self,
    {
        match self {
            Term::TmVar(n) => n < depth,
            Term::TmSucc(t) => t.closed_at(depth),
            Term::TmAbs(_, body) => body.closed_at(depth + 1),
            Term::TmApp(f, a) => f.closed_at(depth) && a.closed_at(depth),
            Term::TmIf(c, t, e) => c.closed_at(depth) && t.closed_at(depth) && e.closed_at(depth),
            _ => true,
        }
    }

    /// A closed term has no free variable.
    pub open spec fn closed(self) -> bool {
        self.closed_at(0)
    }

    /// Zero, or the successor of a numeric value.
    pub open spec fn numeric_value(self) -> bool
        decreases self,
    {
        match self {
            Term::TmZero => true,
            Term::TmSucc(t) => t.numeric_value(),
            _ => false,
        }
    }

    /// The values: the two booleans, the numeric values and every
    /// abstraction.
    pub open spec fn value(self) -> bool {
        match self {
            Term::TmTrue | Term::TmFalse | Term::TmAbs(_, _) => true,
            _ => self.numeric_value(),
        }
    }

    /// A term with `depth` binders around it is closed at every depth from
    /// `depth` on.
    pub proof fn lemma_closed_at_monotone(self, depth: nat, deeper: nat)
        requires
            self.closed_at(depth),
            depth <= deeper,
        ensures
            self.closed_at(deeper),
        decreases self,
    {
        match self {
            Term::TmSucc(t) => t.lemma_closed_at_monotone(depth, deeper),
            Term::TmAbs(_, body) => body.lemma_closed_at_monotone(depth + 1, deeper + 1),
            Term::TmApp(f, a) => {
                f.lemma_closed_at_monotone(depth, deeper);
                a.lemma_closed_at_monotone(depth, deeper);
            },
            Term::TmIf(c, t, e) => {
                c.lemma_closed_at_monotone(depth, deeper);
                t.lemma_closed_at_monotone(depth, deeper);
                e.lemma_closed_at_monotone(depth, deeper);
            },
            _ => {},
        }
    }

    /// No index reaches past the largest machine index, so beyond that depth
    /// every term is closed.
    pub proof fn lemma_closed_beyond_indices(self, depth: nat)
        requires
            depth > usize::MAX,
        ensures
            self.closed_at(depth),
        decreases self,
    {
        match self {
            Term::TmSucc(t) => t.lemma_closed_beyond_indices(depth),
            Term::TmAbs(_, body) => body.lemma_closed_beyond_indices(depth + 1),
            Term::TmApp(f, a) => {
                f.lemma_closed_beyond_indices(depth);
                a.lemma_closed_beyond_indices(depth);
            },
            Term::TmIf(c, t, e) => {
                c.lemma_closed_beyond_indices(depth);
                t.lemma_closed_beyond_indices(depth);
                e.lemma_closed_beyond_indices(depth);
            },
            _ => {},
        }
    }

    /// Decides closedness relative to `depth` enclosing binders.
    pub fn is_closed_at(&self, depth: usize) -> (r: bool)
        ensures
            r == self.closed_at(depth as nat),
        decreases *self,
    {
        match self {
            Term::TmVar(n) => *n < depth,
            Term::TmSucc(t) => t.is_closed_at(depth),
            Term::TmAbs(_, body) => {
                if depth < usize::MAX {
                    body.is_closed_at(depth + 1)
                } else {
                    proof {
                        body.lemma_closed_beyond_indices(depth as nat + 1);
                    }
                    true
                }
            },
            Term::TmApp(f, a) => f.is_closed_at(depth) && a.is_closed_at(depth),
            Term::TmIf(c, t, e) => c.is_closed_at(depth) && t.is_closed_at(depth)
                && e.is_closed_at(depth),
            _ => true,
        }
    }

    /// Decides whether the term has no free variable.
    pub fn is_closed(&self) -> (r: bool)
        ensures
            r == self.closed(),
    {
        self.is_closed_at(0)
    }

    /// Decides whether the term is a numeric value.
    pub fn is_numeric_value(&self) -> (r: bool)
        ensures
            r == self.numeric_value(),
        decreases *self,
    {
        match self {
            Term::TmZero => true,
            Term::TmSucc(t) => t.is_numeric_value(),
            _ => false,
        }
    }

    /// Decides whether the term is a value.
    pub fn is_value(&self) -> (r: bool)
        ensures
            r == self.value(),
    {
        match self {
            Term::TmTrue | Term::TmFalse | Term::TmAbs(_, _) => true,
            _ => self.is_numeric_value(),
        }
    }
}

} // verus!
