//! Named lambda terms and the grammar of their written form.

use vstd::prelude::*;
use vstd::string::StringSliceAdditionalSpecFns;
use crate::scan::{
    after_multispace,
    ends_on_ascii,
    lemma_after_multispace_bounds,
    lemma_ascii_text_is_plain,
    lemma_letter_end,
    lemma_word_ends_on_ascii,
    letter,
    letter_at,
    multispace0,
    plain_word,
    rest_from,
    same_parse_of,
    tag,
    tag_no_case,
    word_at,
    word_no_case_at,
    SyntaxError,
};

verus! {

/// A lambda term with named variables.
#[derive(Debug, PartialEq, PartialOrd)]
pub enum Term {
    TmVar(String),
    /// Parameter and body.
    TmAbs(String, Box<Term>),
    TmApp(Box<Term>, Box<Term>),
}

/// The mathematical form of a named term: names are sequences of
/// characters.
pub enum TermModel {
    Var(Seq<char>),
    Abs(Seq<char>, Box<TermModel>),
    App(Box<TermModel>, Box<TermModel>),
}

impl Clone for Term {
    fn clone(&self) -> (r: Self)
        ensures
            r == *self,
        decreases *self,
    {
        match self {
            Term::TmVar(id) => Term::TmVar(id.clone()),
            Term::TmAbs(param, body) => Term::TmAbs(param.clone(), Box::new((&**body).clone())),
            Term::TmApp(f, a) => Term::TmApp(
                Box::new((&**f).clone()),
                Box::new((&**a).clone()),
            ),
        }
    }
}

impl Term {
    /// The mathematical form of this term.
    pub open spec fn model(self) -> TermModel
        decreases self,
    {
        match self {
            Term::TmVar(id) => TermModel::Var(id@),
            Term::TmAbs(param, body) => TermModel::Abs(param@, Box::new(body.model())),
            Term::TmApp(f, a) => TermModel::App(Box::new(f.model()), Box::new(a.model())),
        }
    }
}

impl View for Term {
    type V = TermModel;

    open spec fn view(&self) -> TermModel {
        self.model()
    }
}

/// A variable: a letter, with any white space before it.
pub open spec fn variable_at(input: Seq<u8>, pos: nat) -> Option<(TermModel, nat)> {
    match letter_at(input, after_multispace(input, pos)) {
        Some((name, end)) => Some((TermModel::Var(name), end)),
        None => None,
    }
}

/// A term: an abstraction, or else an application.
pub open spec fn term_at(input: Seq<u8>, pos: nat) -> Option<(TermModel, nat)>
    decreases input.len() - pos, 5nat,
{
    if abstraction_at(input, pos) is Some {
        abstraction_at(input, pos)
    } else {
        application_at(input, pos)
    }
}

/// The term at `pos`, which is a part of a construct that began at `start`
/// and has taken input since.
pub open spec fn term_behind(input: Seq<u8>, start: nat, pos: nat) -> Option<(TermModel, nat)>
    decreases input.len() - start, 0nat,
{
    if start < pos <= input.len() {
        term_at(input, pos)
    } else {
        None
    }
}

/// `lambda x.t`, with the word in any case, one space behind it and none
/// elsewhere.
pub open spec fn abstraction_at(input: Seq<u8>, pos: nat) -> Option<(TermModel, nat)>
    decreases input.len() - pos, 4nat,
{
    if word_no_case_at(input, pos, "lambda ".spec_bytes()) {
        match letter_at(input, pos + "lambda ".spec_bytes().len()) {
            Some((param, p1)) => if word_at(input, p1, ".".spec_bytes()) {
                match term_behind(input, pos, p1 + ".".spec_bytes().len()) {
                    Some((body, end)) => Some((TermModel::Abs(param, Box::new(body)), end)),
                    None => None,
                }
            } else {
                None
            },
            None => None,
        }
    } else {
        None
    }
}

/// One or more atoms in a row: the first applied to the others in turn,
/// grouped to the left.
pub open spec fn application_at(input: Seq<u8>, pos: nat) -> Option<(TermModel, nat)>
    decreases input.len() - pos, 4nat,
{
    match atom_at(input, pos) {
        Some((first, next)) => if pos < next <= input.len() {
            Some(arguments_at(input, next, first))
        } else {
            None
        },
        None => None,
    }
}

/// `function` applied in turn to the atoms that stand from `pos` on, as
/// many as there are, and the position behind the last.
pub open spec fn arguments_at(input: Seq<u8>, pos: nat, function: TermModel) -> (TermModel, nat)
    decreases input.len() - pos, 3nat,
{
    match atom_at(input, pos) {
        Some((argument, next)) => if pos < next <= input.len() {
            arguments_at(input, next, TermModel::App(Box::new(function), Box::new(argument)))
        } else {
            (function, pos)
        },
        None => (function, pos),
    }
}

/// An atom: a variable, or else a term in parentheses.
pub open spec fn atom_at(input: Seq<u8>, pos: nat) -> Option<(TermModel, nat)>
    decreases input.len() - pos, 2nat,
{
    if variable_at(input, pos) is Some {
        variable_at(input, pos)
    } else {
        paren_term_at(input, pos)
    }
}

/// A term in parentheses.
pub open spec fn paren_term_at(input: Seq<u8>, pos: nat) -> Option<(TermModel, nat)>
    decreases input.len() - pos, 1nat,
{
    if word_at(input, pos, "(".spec_bytes()) {
        match term_behind(input, pos, pos + "(".spec_bytes().len()) {
            Some((t, close)) => if word_at(input, close, ")".spec_bytes()) {
                Some((t, close + ")".spec_bytes().len()))
            } else {
                None
            },
            None => None,
        }
    } else {
        None
    }
}

/// A statement: a term and a semicolon behind it.
pub open spec fn statement_at(input: Seq<u8>, pos: nat) -> Option<(TermModel, nat)> {
    match term_at(input, pos) {
        Some((t, end)) => if word_at(input, end, ";".spec_bytes()) {
            Some((t, end + ";".spec_bytes().len()))
        } else {
            None
        },
        None => None,
    }
}

/// The words that end a term or a statement are plain.
pub proof fn lemma_words_are_plain()
    ensures
        plain_word(")".spec_bytes()),
        plain_word(";".spec_bytes()),
{
    reveal_strlit(")");
    reveal_strlit(";");
    lemma_ascii_text_is_plain(")");
    lemma_ascii_text_is_plain(";");
}

/// A term takes input and ends behind an ASCII byte.
pub proof fn lemma_term_end(input: Seq<u8>, pos: nat)
    ensures
        term_at(input, pos) matches Some((_, end)) ==> pos < end && ends_on_ascii(input, end),
    decreases input.len() - pos, 3nat,
{
    if abstraction_at(input, pos) is Some {
        let p1 = letter_at(input, pos + "lambda ".spec_bytes().len())->Some_0.1;
        lemma_term_end(input, p1 + ".".spec_bytes().len());
    } else if let Some((first, next)) = atom_at(input, pos) {
        lemma_atom_end(input, pos);
        if pos < next <= input.len() {
            lemma_arguments_end(input, next, first);
        }
    }
}

/// A row of atoms ends where it began or behind an ASCII byte.
pub proof fn lemma_arguments_end(input: Seq<u8>, pos: nat, function: TermModel)
    requires
        ends_on_ascii(input, pos),
    ensures
        pos <= arguments_at(input, pos, function).1,
        ends_on_ascii(input, arguments_at(input, pos, function).1),
    decreases input.len() - pos, 2nat,
{
    if let Some((argument, next)) = atom_at(input, pos) {
        lemma_atom_end(input, pos);
        if pos < next <= input.len() {
            lemma_arguments_end(
                input,
                next,
                TermModel::App(Box::new(function), Box::new(argument)),
            );
        }
    }
}

/// An atom takes input and ends behind an ASCII byte.
pub proof fn lemma_atom_end(input: Seq<u8>, pos: nat)
    ensures
        atom_at(input, pos) matches Some((_, end)) ==> pos < end && ends_on_ascii(input, end),
    decreases input.len() - pos, 1nat,
{
    if variable_at(input, pos) is Some {
        lemma_after_multispace_bounds(input, pos);
        lemma_letter_end(input, after_multispace(input, pos));
    } else if paren_term_at(input, pos) is Some {
        let inner = pos + "(".spec_bytes().len();
        lemma_words_are_plain();
        lemma_term_end(input, inner);
        lemma_word_ends_on_ascii(input, term_at(input, inner)->Some_0.1, ")".spec_bytes());
    }
}

/// Parses a variable at `pos`.
pub fn parse_variable(input: &[u8], pos: usize) -> (r: Option<(Term, usize)>)
    ensures
        same_parse_of(r, variable_at(input@, pos as nat)),
{
    match letter(input, multispace0(input, pos)) {
        Some((name, end)) => Some((Term::TmVar(name), end)),
        None => None,
    }
}

/// Parses a term at `pos`.
pub fn parse_term_at(input: &[u8], pos: usize) -> (r: Option<(Term, usize)>)
    ensures
        same_parse_of(r, term_at(input@, pos as nat)),
    decreases input@.len() - pos, 5nat,
{
    match parse_abstraction(input, pos) {
        Some(found) => Some(found),
        None => parse_application(input, pos),
    }
}

/// Parses the term at `pos` as a part of a construct that began at
/// `start`.
pub fn parse_term_behind(input: &[u8], start: usize, pos: usize) -> (r: Option<(Term, usize)>)
    ensures
        same_parse_of(r, term_behind(input@, start as nat, pos as nat)),
    decreases input@.len() - start, 0nat,
{
    if start < pos && pos <= input.len() {
        parse_term_at(input, pos)
    } else {
        None
    }
}

/// Parses an abstraction at `pos`.
pub fn parse_abstraction(input: &[u8], pos: usize) -> (r: Option<(Term, usize)>)
    ensures
        same_parse_of(r, abstraction_at(input@, pos as nat)),
    decreases input@.len() - pos, 4nat,
{
    let start = match tag_no_case(input, pos, "lambda ") {
        Some(p) => p,
        None => {
            return None;
        },
    };
    let (param, p1) = match letter(input, start) {
        Some(found) => found,
        None => {
            return None;
        },
    };
    let body_start = match tag(input, p1, ".") {
        Some(p) => p,
        None => {
            return None;
        },
    };
    match parse_term_behind(input, pos, body_start) {
        Some((body, end)) => Some((Term::TmAbs(param, Box::new(body)), end)),
        None => None,
    }
}

/// Parses an application at `pos`.
pub fn parse_application(input: &[u8], pos: usize) -> (r: Option<(Term, usize)>)
    ensures
        same_parse_of(r, application_at(input@, pos as nat)),
    decreases input@.len() - pos, 4nat,
{
    let (first, start) = match parse_atom(input, pos) {
        Some(found) => found,
        None => {
            return None;
        },
    };
    if !(pos < start && start <= input.len()) {
        return None;
    }
    let ghost first_view = first@;
    let mut lhs: Term = first;
    let mut end: usize = start;
    loop
        invariant
            pos < end <= input@.len(),
            arguments_at(input@, start as nat, first_view) == arguments_at(
                input@,
                end as nat,
                lhs@,
            ),
        ensures
            arguments_at(input@, end as nat, lhs@) == (lhs@, end as nat),
        decreases input@.len() - end,
    {
        match parse_atom(input, end) {
            Some((rhs, next)) => {
                if end < next && next <= input.len() {
                    lhs = Term::TmApp(Box::new(lhs), Box::new(rhs));
                    end = next;
                } else {
                    break ;
                }
            },
            None => {
                break ;
            },
        }
    }
    Some((lhs, end))
}

/// Parses an atom at `pos`.
pub fn parse_atom(input: &[u8], pos: usize) -> (r: Option<(Term, usize)>)
    ensures
        same_parse_of(r, atom_at(input@, pos as nat)),
    decreases input@.len() - pos, 2nat,
{
    match parse_variable(input, pos) {
        Some(found) => Some(found),
        None => parse_paren_term(input, pos),
    }
}

/// Parses a term in parentheses at `pos`.
pub fn parse_paren_term(input: &[u8], pos: usize) -> (r: Option<(Term, usize)>)
    ensures
        same_parse_of(r, paren_term_at(input@, pos as nat)),
    decreases input@.len() - pos, 1nat,
{
    let inner = match tag(input, pos, "(") {
        Some(p) => p,
        None => {
            return None;
        },
    };
    match parse_term_behind(input, pos, inner) {
        Some((t, close)) => match tag(input, close, ")") {
            Some(end) => Some((t, end)),
            None => None,
        },
        None => None,
    }
}

/// Parses a term and the semicolon behind it.
pub fn parse_statement(input: &[u8], pos: usize) -> (r: Option<(Term, usize)>)
    ensures
        same_parse_of(r, statement_at(input@, pos as nat)),
{
    match parse_term_at(input, pos) {
        Some((t, end)) => match tag(input, end, ";") {
            Some(after) => Some((t, after)),
            None => None,
        },
        None => None,
    }
}

/// Parses a statement, a term with a semicolon behind it, at the start of
/// `input` and returns the term with the input that is left.
pub fn parse(input: &str) -> (r: Result<(&str, Term), SyntaxError>)
    ensures
        match statement_at(input.spec_bytes(), 0) {
            Some((term, end)) => r matches Ok((rest, found)) && found@ == term && rest.spec_bytes()
                == input.spec_bytes().skip(end as int),
            None => r is Err,
        },
{
    match parse_statement(input.as_bytes(), 0) {
        Some((term, end)) => {
            proof {
                let bytes = input.spec_bytes();
                lemma_words_are_plain();
                lemma_word_ends_on_ascii(bytes, term_at(bytes, 0)->Some_0.1, ";".spec_bytes());
            }
            Ok((rest_from(input, end), term))
        },
        None => Err(SyntaxError),
    }
}

} // verus!
