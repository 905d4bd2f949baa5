//! Shifting and substitution on de Bruijn terms, and beta reduction built
//! from them.

use vstd::prelude::*;
use crate::simply_typed_lambda::term::Term;

verus! {

/// The direction in which a shift moves the free variables.
#[derive(Clone, Copy, Debug, PartialEq, Eq)]
pub enum Direction {
    Up,
    Down,
}

impl Direction {
    /// The signed amount that a shift over `distance` in this direction adds
    /// to an index.
    pub open spec fn signed(self, distance: nat) -> int {
        match self {
            Direction::Up => distance as int,
            Direction::Down => -(distance as int),
        }
    }
}

/// `term` with `amount` added to every variable that is free relative to
/// `cutoff` enclosing binders. The cutoff grows by one under each
/// abstraction, so variables bound inside `term` stay as they are.
pub open spec fn shift_spec(term: Term, cutoff: nat, amount: int) -> Term
    decreases term,
{
    match term {
        Term::TmVar(n) => if n >= cutoff {
            Term::TmVar((n + amount) as usize)
        } else {
            term
        },
        Term::TmSucc(t) => Term::TmSucc(Box::new(shift_spec(*t, cutoff, amount))),
        Term::TmAbs(ty, body) => Term::TmAbs(ty, Box::new(shift_spec(*body, cutoff + 1, amount))),
        Term::TmApp(f, a) => Term::TmApp(
            Box::new(shift_spec(*f, cutoff, amount)),
            Box::new(shift_spec(*a, cutoff, amount)),
        ),
        Term::TmIf(c, t, e) => Term::TmIf(
            Box::new(shift_spec(*c, cutoff, amount)),
            Box::new(shift_spec(*t, cutoff, amount)),
            Box::new(shift_spec(*e, cutoff, amount)),
        ),
        _ => term,
    }
}

/// Every index that `shift_spec` moves stays an index: it neither drops
/// below zero nor passes the largest machine index.
pub open spec fn shift_fits(term: Term, cutoff: nat, amount: int) -> bool
    decreases term,
{
    match term {
        Term::TmVar(n) => n >= cutoff ==> 0 <= n + amount <= usize::MAX,
        Term::TmSucc(t) => shift_fits(*t, cutoff, amount),
        Term::TmAbs(_, body) => shift_fits(*body, cutoff + 1, amount),
        Term::TmApp(f, a) => shift_fits(*f, cutoff, amount) && shift_fits(*a, cutoff, amount),
        Term::TmIf(c, t, e) => shift_fits(*c, cutoff, amount) && shift_fits(*t, cutoff, amount)
            && shift_fits(*e, cutoff, amount),
        _ => true,
    }
}

/// `term` with the variable that denotes binder `cutoff` replaced by
/// `replacement`, lifted over the binders crossed so far, and with every
/// variable above it lowered by one. Variables below the cutoff are bound
/// inside `term` and stay.
pub open spec fn substitute_spec(term: Term, cutoff: nat, replacement: Term) -> Term
    decreases term,
{
    match term {
        Term::TmVar(n) => if n == cutoff {
            shift_spec(replacement, 0, cutoff as int)
        } else if n > cutoff {
            Term::TmVar((n - 1) as usize)
        } else {
            term
        },
        Term::TmSucc(t) => Term::TmSucc(Box::new(substitute_spec(*t, cutoff, replacement))),
        Term::TmAbs(ty, body) => Term::TmAbs(
            ty,
            Box::new(substitute_spec(*body, cutoff + 1, replacement)),
        ),
        Term::TmApp(f, a) => Term::TmApp(
            Box::new(substitute_spec(*f, cutoff, replacement)),
            Box::new(substitute_spec(*a, cutoff, replacement)),
        ),
        Term::TmIf(c, t, e) => Term::TmIf(
            Box::new(substitute_spec(*c, cutoff, replacement)),
            Box::new(substitute_spec(*t, cutoff, replacement)),
            Box::new(substitute_spec(*e, cutoff, replacement)),
        ),
        _ => term,
    }
}

/// Wherever `substitute_spec` inserts the replacement, lifting it over the
/// binders crossed keeps its indices within the machine's range.
pub open spec fn substitute_fits(term: Term, cutoff: nat, replacement: Term) -> bool
    decreases term,
{
    match term {
        Term::TmVar(n) => n == cutoff ==> shift_fits(replacement, 0, cutoff as int),
        Term::TmSucc(t) => substitute_fits(*t, cutoff, replacement),
        Term::TmAbs(_, body) => substitute_fits(*body, cutoff + 1, replacement),
        Term::TmApp(f, a) => substitute_fits(*f, cutoff, replacement) && substitute_fits(
            *a,
            cutoff,
            replacement,
        ),
        Term::TmIf(c, t, e) => substitute_fits(*c, cutoff, replacement) && substitute_fits(
            *t,
            cutoff,
            replacement,
        ) && substitute_fits(*e, cutoff, replacement),
        _ => true,
    }
}

/// The argument lifted into the abstraction.
pub open spec fn lifted(val: Term) -> Term {
    shift_spec(val, 0, 1)
}

/// The result of applying an abstraction with body `body` to `val`: lift
/// the argument by one, put it in place of the bound variable, then lower
/// the result by one for the binder that is gone.
pub open spec fn beta_spec(body: Term, val: Term) -> Term {
    shift_spec(substitute_spec(body, 0, lifted(val)), 0, -1)
}

/// Each of the three stages of `beta_spec` keeps every index in range.
pub open spec fn beta_fits(body: Term, val: Term) -> bool {
    &&& shift_fits(val, 0, 1)
    &&& substitute_fits(body, 0, lifted(val))
    &&& shift_fits(substitute_spec(body, 0, lifted(val)), 0, -1)
}

/// A shift whose cutoff lies beyond every index changes nothing.
pub proof fn lemma_shift_beyond_indices(term: Term, cutoff: nat, amount: int)
    requires
        cutoff > usize::MAX,
    ensures
        shift_spec(term, cutoff, amount) == term,
        shift_fits(term, cutoff, amount),
    decreases term,
{
    match term {
        Term::TmSucc(t) => lemma_shift_beyond_indices(*t, cutoff, amount),
        Term::TmAbs(_, body) => lemma_shift_beyond_indices(*body, cutoff + 1, amount),
        Term::TmApp(f, a) => {
            lemma_shift_beyond_indices(*f, cutoff, amount);
            lemma_shift_beyond_indices(*a, cutoff, amount);
        },
        Term::TmIf(c, t, e) => {
            lemma_shift_beyond_indices(*c, cutoff, amount);
            lemma_shift_beyond_indices(*t, cutoff, amount);
            lemma_shift_beyond_indices(*e, cutoff, amount);
        },
        _ => {},
    }
}

/// A substitution whose target lies beyond every index changes nothing.
pub proof fn lemma_substitute_beyond_indices(term: Term, cutoff: nat, replacement: Term)
    requires
        cutoff > usize::MAX,
    ensures
        substitute_spec(term, cutoff, replacement) == term,
        substitute_fits(term, cutoff, replacement),
    decreases term,
{
    match term {
        Term::TmSucc(t) => lemma_substitute_beyond_indices(*t, cutoff, replacement),
        Term::TmAbs(_, body) => lemma_substitute_beyond_indices(*body, cutoff + 1, replacement),
        Term::TmApp(f, a) => {
            lemma_substitute_beyond_indices(*f, cutoff, replacement);
            lemma_substitute_beyond_indices(*a, cutoff, replacement);
        },
        Term::TmIf(c, t, e) => {
            lemma_substitute_beyond_indices(*c, cutoff, replacement);
            lemma_substitute_beyond_indices(*t, cutoff, replacement);
            lemma_substitute_beyond_indices(*e, cutoff, replacement);
        },
        _ => {},
    }
}

/// Decides whether shifting `term` keeps every index in range.
pub fn shift_in_range(term: &Term, cutoff: usize, direction: Direction, distance: usize) -> (r:
    bool)
    ensures
        r == shift_fits(*term, cutoff as nat, direction.signed(distance as nat)),
    decreases *term,
{
    match term {
        Term::TmVar(n) => {
            if *n >= cutoff {
                match direction {
                    Direction::Up => *n <= usize::MAX - distance,
                    Direction::Down => *n >= distance,
                }
            } else {
                true
            }
        },
        Term::TmSucc(t) => shift_in_range(t, cutoff, direction, distance),
        Term::TmAbs(_, body) => {
            if cutoff < usize::MAX {
                shift_in_range(body, cutoff + 1, direction, distance)
            } else {
                proof {
                    lemma_shift_beyond_indices(
                        **body,
                        cutoff as nat + 1,
                        direction.signed(distance as nat),
                    );
                }
                true
            }
        },
        Term::TmApp(f, a) => shift_in_range(f, cutoff, direction, distance) && shift_in_range(
            a,
            cutoff,
            direction,
            distance,
        ),
        Term::TmIf(c, t, e) => shift_in_range(c, cutoff, direction, distance) && shift_in_range(
            t,
            cutoff,
            direction,
            distance,
        ) && shift_in_range(e, cutoff, direction, distance),
        _ => true,
    }
}

/// Decides whether substituting `replacement` in `term` keeps every index
/// in range.
pub fn substitute_in_range(term: &Term, target: usize, replacement: &Term) -> (r: bool)
    ensures
        r == substitute_fits(*term, target as nat, *replacement),
    decreases *term,
{
    match term {
        Term::TmVar(n) => {
            if *n == target {
                shift_in_range(replacement, 0, Direction::Up, target)
            } else {
                true
            }
        },
        Term::TmSucc(t) => substitute_in_range(t, target, replacement),
        Term::TmAbs(_, body) => {
            if target < usize::MAX {
                substitute_in_range(body, target + 1, replacement)
            } else {
                proof {
                    lemma_substitute_beyond_indices(**body, target as nat + 1, *replacement);
                }
                true
            }
        },
        Term::TmApp(f, a) => substitute_in_range(f, target, replacement) && substitute_in_range(
            a,
            target,
            replacement,
        ),
        Term::TmIf(c, t, e) => substitute_in_range(c, target, replacement) && substitute_in_range(
            t,
            target,
            replacement,
        ) && substitute_in_range(e, target, replacement),
        _ => true,
    }
}

/// Decides whether the beta reduction of `body` with `val` keeps every
/// index in range.
pub fn substitution_in_range(val: &Term, body: &Term) -> (r: bool)
    ensures
        r == beta_fits(*body, *val),
{
    if !shift_in_range(val, 0, Direction::Up, 1) {
        return false;
    }
    let lifted_val = shift(val, 0, Direction::Up, 1);
    if !substitute_in_range(body, 0, &lifted_val) {
        return false;
    }
    let replaced = substitute(body, 0, &lifted_val);
    shift_in_range(&replaced, 0, Direction::Down, 1)
}

/// Shifts the free variables of `term`, those at or above `cutoff`, by
/// `distance` in the given direction.
pub fn shift(term: &Term, cutoff: usize, direction: Direction, distance: usize) -> (r: Term)
    requires
        shift_fits(*term, cutoff as nat, direction.signed(distance as nat)),
    ensures
        r == shift_spec(*term, cutoff as nat, direction.signed(distance as nat)),
    decreases *term,
{
    match term {
        Term::TmVar(n) => {
            if *n >= cutoff {
                match direction {
                    Direction::Up => Term::TmVar(*n + distance),
                    Direction::Down => Term::TmVar(*n - distance),
                }
            } else {
                Term::TmVar(*n)
            }
        },
        Term::TmSucc(t) => Term::TmSucc(Box::new(shift(t, cutoff, direction, distance))),
        Term::TmAbs(ty, body) => {
            if cutoff < usize::MAX {
                Term::TmAbs(ty.clone(), Box::new(shift(body, cutoff + 1, direction, distance)))
            } else {
                proof {
                    lemma_shift_beyond_indices(
                        **body,
                        cutoff as nat + 1,
                        direction.signed(distance as nat),
                    );
                }
                term.clone()
            }
        },
        Term::TmApp(f, a) => Term::TmApp(
            Box::new(shift(f, cutoff, direction, distance)),
            Box::new(shift(a, cutoff, direction, distance)),
        ),
        Term::TmIf(c, t, e) => Term::TmIf(
            Box::new(shift(c, cutoff, direction, distance)),
            Box::new(shift(t, cutoff, direction, distance)),
            Box::new(shift(e, cutoff, direction, distance)),
        ),
        _ => term.clone(),
    }
}

/// Replaces the variable that denotes binder `target` by `replacement` and
/// closes the gap that the binder leaves.
pub fn substitute(term: &Term, target: usize, replacement: &Term) -> (r: Term)
    requires
        substitute_fits(*term, target as nat, *replacement),
    ensures
        r == substitute_spec(*term, target as nat, *replacement),
    decreases *term,
{
    match term {
        Term::TmVar(n) => {
            if *n == target {
                shift(replacement, 0, Direction::Up, target)
            } else if *n > target {
                Term::TmVar(*n - 1)
            } else {
                Term::TmVar(*n)
            }
        },
        Term::TmSucc(t) => Term::TmSucc(Box::new(substitute(t, target, replacement))),
        Term::TmAbs(ty, body) => {
            if target < usize::MAX {
                Term::TmAbs(ty.clone(), Box::new(substitute(body, target + 1, replacement)))
            } else {
                proof {
                    lemma_substitute_beyond_indices(**body, target as nat + 1, *replacement);
                }
                term.clone()
            }
        },
        Term::TmApp(f, a) => Term::TmApp(
            Box::new(substitute(f, target, replacement)),
            Box::new(substitute(a, target, replacement)),
        ),
        Term::TmIf(c, t, e) => Term::TmIf(
            Box::new(substitute(c, target, replacement)),
            Box::new(substitute(t, target, replacement)),
            Box::new(substitute(e, target, replacement)),
        ),
        _ => term.clone(),
    }
}

/// Beta reduction: the body of an abstraction with `val` in place of its
/// bound variable.
pub fn substitution(val: &Term, body: &Term) -> (r: Term)
    requires
        beta_fits(*body, *val),
    ensures
        r == beta_spec(*body, *val),
{
    let lifted_val = shift(val, 0, Direction::Up, 1);
    let replaced = substitute(body, 0, &lifted_val);
    shift(&replaced, 0, Direction::Down, 1)
}

/// A shift by one position, ready to be applied to terms.
#[derive(Clone, Copy, Debug)]
pub struct Shifting {
    pub cutoff: usize,
    pub direction: Direction,
}

impl Default for Shifting {
    fn default() -> (r: Self)
        ensures
            r.cutoff == 0,
            r.direction == Direction::Up,
    {
        Shifting { cutoff: 0, direction: Direction::Up }
    }
}

impl Shifting {
    /// A shift by one in `direction` that moves every free variable.
    pub fn new(direction: Direction) -> (r: Self)
        ensures
            r.cutoff == 0,
            r.direction == direction,
    {
        Shifting { cutoff: 0, direction }
    }

    /// The shifted copy of `term`.
    pub fn apply(&self, term: &Term) -> (r: Term)
        requires
            shift_fits(*term, self.cutoff as nat, self.direction.signed(1)),
        ensures
            r == shift_spec(*term, self.cutoff as nat, self.direction.signed(1)),
    {
        shift(term, self.cutoff, self.direction, 1)
    }
}

/// A substitution of `term` for the variable that denotes binder `cutoff`,
/// ready to be applied to terms.
#[derive(Debug)]
pub struct Substitution {
    pub cutoff: usize,
    pub term: Term,
}

impl Substitution {
    /// The substitution of `term` for the outermost free variable.
    pub fn new(term: Term) -> (r: Substitution)
        ensures
            r.cutoff == 0,
            r.term == term,
    {
        Substitution { cutoff: 0, term }
    }

    /// The copy of `body` with the replacement in place.
    pub fn apply(&self, body: &Term) -> (r: Term)
        requires
            substitute_fits(*body, self.cutoff as nat, self.term),
        ensures
            r == substitute_spec(*body, self.cutoff as nat, self.term),
    {
        substitute(body, self.cutoff, &self.term)
    }
}

/// Lifting a term by one and lowering it again gives the term back,
/// whatever binders surround it.
pub proof fn lemma_shift_round_trip_at(term: Term, cutoff: nat)
    requires
        shift_fits(term, cutoff, 1),
    ensures
        shift_fits(shift_spec(term, cutoff, 1), cutoff, -1),
        shift_spec(shift_spec(term, cutoff, 1), cutoff, -1) == term,
    decreases term,
{
    match term {
        Term::TmSucc(t) => lemma_shift_round_trip_at(*t, cutoff),
        Term::TmAbs(_, body) => lemma_shift_round_trip_at(*body, cutoff + 1),
        Term::TmApp(f, a) => {
            lemma_shift_round_trip_at(*f, cutoff);
            lemma_shift_round_trip_at(*a, cutoff);
        },
        Term::TmIf(c, t, e) => {
            lemma_shift_round_trip_at(*c, cutoff);
            lemma_shift_round_trip_at(*t, cutoff);
            lemma_shift_round_trip_at(*e, cutoff);
        },
        _ => {},
    }
}

/// Lifting a term by one from cutoff zero and lowering it again gives the
/// term back, for every term whose free indices leave room for the lift.
pub proof fn lemma_shift_round_trip(term: Term)
    requires
        shift_fits(term, 0, 1),
    ensures
        shift_fits(lifted(term), 0, -1),
        shift_spec(shift_spec(term, 0, 1), 0, -1) == term,
{
    lemma_shift_round_trip_at(term, 0);
}

/// Shifting leaves a term alone when all its variables lie below the
/// cutoff.
pub proof fn lemma_shift_closed(term: Term, cutoff: nat, amount: int)
    requires
        term.closed_at(cutoff),
    ensures
        shift_fits(term, cutoff, amount),
        shift_spec(term, cutoff, amount) == term,
    decreases term,
{
    match term {
        Term::TmSucc(t) => lemma_shift_closed(*t, cutoff, amount),
        Term::TmAbs(_, body) => lemma_shift_closed(*body, cutoff + 1, amount),
        Term::TmApp(f, a) => {
            lemma_shift_closed(*f, cutoff, amount);
            lemma_shift_closed(*a, cutoff, amount);
        },
        Term::TmIf(c, t, e) => {
            lemma_shift_closed(*c, cutoff, amount);
            lemma_shift_closed(*t, cutoff, amount);
            lemma_shift_closed(*e, cutoff, amount);
        },
        _ => {},
    }
}

/// Substitution leaves a term alone when all its variables lie below the
/// cutoff.
pub proof fn lemma_substitute_below_cutoff(term: Term, cutoff: nat, replacement: Term)
    requires
        term.closed_at(cutoff),
    ensures
        substitute_fits(term, cutoff, replacement),
        substitute_spec(term, cutoff, replacement) == term,
    decreases term,
{
    match term {
        Term::TmSucc(t) => lemma_substitute_below_cutoff(*t, cutoff, replacement),
        Term::TmAbs(_, body) => lemma_substitute_below_cutoff(*body, cutoff + 1, replacement),
        Term::TmApp(f, a) => {
            lemma_substitute_below_cutoff(*f, cutoff, replacement);
            lemma_substitute_below_cutoff(*a, cutoff, replacement);
        },
        Term::TmIf(c, t, e) => {
            lemma_substitute_below_cutoff(*c, cutoff, replacement);
            lemma_substitute_below_cutoff(*t, cutoff, replacement);
            lemma_substitute_below_cutoff(*e, cutoff, replacement);
        },
        _ => {},
    }
}

/// Substituting a closed term for the one variable that a term has free
/// beyond its `cutoff` inner binders leaves a term with none free beyond
/// them.
pub proof fn lemma_substitute_closed(term: Term, cutoff: nat, replacement: Term)
    requires
        term.closed_at(cutoff + 1),
        replacement.closed(),
    ensures
        substitute_fits(term, cutoff, replacement),
        substitute_spec(term, cutoff, replacement).closed_at(cutoff),
    decreases term,
{
    match term {
        Term::TmVar(n) => {
            if n == cutoff {
                lemma_shift_closed(replacement, 0, cutoff as int);
                replacement.lemma_closed_at_monotone(0, cutoff);
            }
        },
        Term::TmSucc(t) => lemma_substitute_closed(*t, cutoff, replacement),
        Term::TmAbs(_, body) => lemma_substitute_closed(*body, cutoff + 1, replacement),
        Term::TmApp(f, a) => {
            lemma_substitute_closed(*f, cutoff, replacement);
            lemma_substitute_closed(*a, cutoff, replacement);
        },
        Term::TmIf(c, t, e) => {
            lemma_substitute_closed(*c, cutoff, replacement);
            lemma_substitute_closed(*t, cutoff, replacement);
            lemma_substitute_closed(*e, cutoff, replacement);
        },
        _ => {},
    }
}

/// Beta reduction of a closed redex: every stage stays in range, the two
/// shifts change nothing, and the result is closed.
pub proof fn lemma_beta_closed(body: Term, val: Term)
    requires
        body.closed_at(1),
        val.closed(),
    ensures
        beta_fits(body, val),
        beta_spec(body, val) == substitute_spec(body, 0, val),
        beta_spec(body, val).closed(),
{
    lemma_shift_closed(val, 0, 1);
    lemma_substitute_closed(body, 0, val);
    lemma_shift_closed(substitute_spec(body, 0, val), 0, -1);
}

} // verus!
