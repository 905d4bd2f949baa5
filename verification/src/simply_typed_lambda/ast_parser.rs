//! The surface syntax tree, with variables and binders still named, and the
//! grammar of its written form.

use vstd::prelude::*;
use vstd::string::StringSliceAdditionalSpecFns;
use crate::scan::{
    after_multispace,
    ends_on_ascii,
    lemma_after_multispace_bounds,
    lemma_ascii_text_is_plain,
    lemma_letter_end,
    lemma_word_ends_on_ascii,
    letter,
    letter_at,
    multispace0,
    plain_word,
    rest_from,
    same_parse_of,
    tag,
    tag_no_case,
    word_at,
    word_no_case_at,
    SyntaxError,
};
use crate::simply_typed_lambda::type_parser::{parse_type_at, type_at};
use crate::simply_typed_lambda::typing::Type;

verus! {

/// A term as written: variables are names, and an abstraction carries the
/// name and the type of its parameter.
#[derive(Debug, PartialEq, PartialOrd)]
pub enum ASTTerm {
    TmTrue,
    TmFalse,
    TmZero,
    TmSucc(Box<ASTTerm>),
    TmVar(String),
    TmAbs(String, Type, Box<ASTTerm>),
    TmApp(Box<ASTTerm>, Box<ASTTerm>),
    TmIf(Box<ASTTerm>, Box<ASTTerm>, Box<ASTTerm>),
}

/// The mathematical form of a surface term: names are sequences of
/// characters.
pub enum Ast {
    True,
    False,
    Zero,
    Succ(Box<Ast>),
    Var(Seq<char>),
    Abs(Seq<char>, Type, Box<Ast>),
    App(Box<Ast>, Box<Ast>),
    If(Box<Ast>, Box<Ast>, Box<Ast>),
}

impl Clone for ASTTerm {
    fn clone(&self) -> (r: Self)
        ensures
            r == *self,
        decreases *self,
    {
        match self {
            ASTTerm::TmTrue => ASTTerm::TmTrue,
            ASTTerm::TmFalse => ASTTerm::TmFalse,
            ASTTerm::TmZero => ASTTerm::TmZero,
            ASTTerm::TmSucc(t) => ASTTerm::TmSucc(Box::new((&**t).clone())),
            ASTTerm::TmVar(id) => ASTTerm::TmVar(id.clone()),
            ASTTerm::TmAbs(arg, ty, body) => ASTTerm::TmAbs(
                arg.clone(),
                ty.clone(),
                Box::new((&**body).clone()),
            ),
            ASTTerm::TmApp(f, a) => ASTTerm::TmApp(
                Box::new((&**f).clone()),
                Box::new((&**a).clone()),
            ),
            ASTTerm::TmIf(c, t, e) => ASTTerm::TmIf(
                Box::new((&**c).clone()),
                Box::new((&**t).clone()),
                Box::new((&**e).clone()),
            ),
        }
    }
}

impl ASTTerm {
    /// The mathematical form of this term.
    pub open spec fn model(self) -> Ast
        decreases self,
    {
        match self {
            ASTTerm::TmTrue => Ast::True,
            ASTTerm::TmFalse => Ast::False,
            ASTTerm::TmZero => Ast::Zero,
            ASTTerm::TmSucc(t) => Ast::Succ(Box::new(t.model())),
            ASTTerm::TmVar(id) => Ast::Var(id@),
            ASTTerm::TmAbs(arg, ty, body) => Ast::Abs(arg@, ty, Box::new(body.model())),
            ASTTerm::TmApp(f, a) => Ast::App(Box::new(f.model()), Box::new(a.model())),
            ASTTerm::TmIf(c, t, e) => Ast::If(
                Box::new(c.model()),
                Box::new(t.model()),
                Box::new(e.model()),
            ),
        }
    }
}

impl View for ASTTerm {
    type V = Ast;

    open spec fn view(&self) -> Ast {
        self.model()
    }
}

/// One of the words `true` and `false`, as written here, or `0`.
pub open spec fn value_at(input: Seq<u8>, pos: nat) -> Option<(Ast, nat)> {
    if word_at(input, pos, "true".spec_bytes()) {
        Some((Ast::True, pos + "true".spec_bytes().len()))
    } else if word_at(input, pos, "false".spec_bytes()) {
        Some((Ast::False, pos + "false".spec_bytes().len()))
    } else if word_no_case_at(input, pos, "0".spec_bytes()) {
        Some((Ast::Zero, pos + "0".spec_bytes().len()))
    } else {
        None
    }
}

/// A variable: a letter, with any white space before it.
pub open spec fn ident_at(input: Seq<u8>, pos: nat) -> Option<(Ast, nat)> {
    match letter_at(input, after_multispace(input, pos)) {
        Some((name, end)) => Some((Ast::Var(name), end)),
        None => None,
    }
}

/// A term: an abstraction, or else an application.
pub open spec fn term_at(input: Seq<u8>, pos: nat) -> Option<(Ast, nat)>
    decreases input.len() - pos, 7nat,
{
    if abstraction_at(input, pos) is Some {
        abstraction_at(input, pos)
    } else {
        application_at(input, pos)
    }
}

/// The term at `pos`, which is a part of a construct that began at `start`
/// and has taken input since.
pub open spec fn term_behind(input: Seq<u8>, start: nat, pos: nat) -> Option<(Ast, nat)>
    decreases input.len() - start, 0nat,
{
    if start < pos <= input.len() {
        term_at(input, pos)
    } else {
        None
    }
}

/// `lambda x:T.t`, with one space behind the word and none elsewhere.
pub open spec fn abstraction_at(input: Seq<u8>, pos: nat) -> Option<(Ast, nat)>
    decreases input.len() - pos, 6nat,
{
    if word_at(input, pos, "lambda ".spec_bytes()) {
        match letter_at(input, pos + "lambda ".spec_bytes().len()) {
            Some((param, p1)) => if word_no_case_at(input, p1, ":".spec_bytes()) {
                match type_at(input, p1 + ":".spec_bytes().len()) {
                    Some((ty, p2)) => if word_at(input, p2, ".".spec_bytes()) {
                        match term_behind(input, pos, p2 + ".".spec_bytes().len()) {
                            Some((body, end)) => Some((Ast::Abs(param, ty, Box::new(body)), end)),
                            None => None,
                        }
                    } else {
                        None
                    },
                    None => None,
                }
            } else {
                None
            },
            None => None,
        }
    } else {
        None
    }
}

/// One or more atoms in a row: the first applied to the others in turn,
/// grouped to the left.
pub open spec fn application_at(input: Seq<u8>, pos: nat) -> Option<(Ast, nat)>
    decreases input.len() - pos, 6nat,
{
    match atom_at(input, pos) {
        Some((first, next)) => if pos < next <= input.len() {
            Some(arguments_at(input, next, first))
        } else {
            None
        },
        None => None,
    }
}

/// `function` applied in turn to the atoms that stand from `pos` on, as
/// many as there are, and the position behind the last.
pub open spec fn arguments_at(input: Seq<u8>, pos: nat, function: Ast) -> (Ast, nat)
    decreases input.len() - pos, 5nat,
{
    match atom_at(input, pos) {
        Some((argument, next)) => if pos < next <= input.len() {
            arguments_at(input, next, Ast::App(Box::new(function), Box::new(argument)))
        } else {
            (function, pos)
        },
        None => (function, pos),
    }
}

/// An atom: the first of a constant, `succ(..)`, a variable, a conditional
/// and a term in parentheses that stands at `pos`.
pub open spec fn atom_at(input: Seq<u8>, pos: nat) -> Option<(Ast, nat)>
    decreases input.len() - pos, 4nat,
{
    if value_at(input, pos) is Some {
        value_at(input, pos)
    } else if succ_at(input, pos) is Some {
        succ_at(input, pos)
    } else if ident_at(input, pos) is Some {
        ident_at(input, pos)
    } else if if_at(input, pos) is Some {
        if_at(input, pos)
    } else {
        parent_term_at(input, pos)
    }
}

/// `succ(t)`
pub open spec fn succ_at(input: Seq<u8>, pos: nat) -> Option<(Ast, nat)>
    decreases input.len() - pos, 3nat,
{
    let open = pos + "succ".spec_bytes().len();
    if word_at(input, pos, "succ".spec_bytes()) && word_at(input, open, "(".spec_bytes()) {
        match term_behind(input, pos, open + "(".spec_bytes().len()) {
            Some((t, close)) => if word_at(input, close, ")".spec_bytes()) {
                Some((Ast::Succ(Box::new(t)), close + ")".spec_bytes().len()))
            } else {
                None
            },
            None => None,
        }
    } else {
        None
    }
}

/// `if c then t else e`, with one space on each side of the inner words.
pub open spec fn if_at(input: Seq<u8>, pos: nat) -> Option<(Ast, nat)>
    decreases input.len() - pos, 3nat,
{
    if word_at(input, pos, "if ".spec_bytes()) {
        match term_behind(input, pos, pos + "if ".spec_bytes().len()) {
            Some((c, p1)) => if word_at(input, p1, " then ".spec_bytes()) {
                match term_behind(input, pos, p1 + " then ".spec_bytes().len()) {
                    Some((t, p2)) => if word_at(input, p2, " else ".spec_bytes()) {
                        match term_behind(input, pos, p2 + " else ".spec_bytes().len()) {
                            Some((e, p3)) => Some(
                                (Ast::If(Box::new(c), Box::new(t), Box::new(e)), p3),
                            ),
                            None => None,
                        }
                    } else {
                        None
                    },
                    None => None,
                }
            } else {
                None
            },
            None => None,
        }
    } else {
        None
    }
}

/// A term in parentheses.
pub open spec fn parent_term_at(input: Seq<u8>, pos: nat) -> Option<(Ast, nat)>
    decreases input.len() - pos, 3nat,
{
    if word_at(input, pos, "(".spec_bytes()) {
        match term_behind(input, pos, pos + "(".spec_bytes().len()) {
            Some((t, close)) => if word_at(input, close, ")".spec_bytes()) {
                Some((t, close + ")".spec_bytes().len()))
            } else {
                None
            },
            None => None,
        }
    } else {
        None
    }
}

/// A statement: a term and a semicolon behind it.
pub open spec fn statement_at(input: Seq<u8>, pos: nat) -> Option<(Ast, nat)> {
    match term_at(input, pos) {
        Some((t, end)) => if word_at(input, end, ";".spec_bytes()) {
            Some((t, end + ";".spec_bytes().len()))
        } else {
            None
        },
        None => None,
    }
}

/// A term takes input and ends behind an ASCII byte.
pub proof fn lemma_term_end(input: Seq<u8>, pos: nat)
    ensures
        term_at(input, pos) matches Some((_, end)) ==> pos < end && ends_on_ascii(input, end),
    decreases input.len() - pos, 3nat,
{
    if abstraction_at(input, pos) is Some {
        let p1 = letter_at(input, pos + "lambda ".spec_bytes().len())->Some_0.1;
        let p2 = type_at(input, p1 + ":".spec_bytes().len())->Some_0.1;
        lemma_term_end(input, p2 + ".".spec_bytes().len());
    } else if let Some((first, next)) = atom_at(input, pos) {
        lemma_atom_end(input, pos);
        if pos < next <= input.len() {
            lemma_arguments_end(input, next, first);
        }
    }
}

/// A row of atoms ends where it began or behind an ASCII byte.
pub proof fn lemma_arguments_end(input: Seq<u8>, pos: nat, function: Ast)
    requires
        ends_on_ascii(input, pos),
    ensures
        pos <= arguments_at(input, pos, function).1,
        ends_on_ascii(input, arguments_at(input, pos, function).1),
    decreases input.len() - pos, 2nat,
{
    if let Some((argument, next)) = atom_at(input, pos) {
        lemma_atom_end(input, pos);
        if pos < next <= input.len() {
            lemma_arguments_end(input, next, Ast::App(Box::new(function), Box::new(argument)));
        }
    }
}

/// The words that end an atom are plain.
pub proof fn lemma_words_are_plain()
    ensures
        plain_word("true".spec_bytes()),
        plain_word("false".spec_bytes()),
        plain_word("0".spec_bytes()),
        plain_word(")".spec_bytes()),
{
    reveal_strlit("true");
    reveal_strlit("false");
    reveal_strlit("0");
    reveal_strlit(")");
    lemma_ascii_text_is_plain("true");
    lemma_ascii_text_is_plain("false");
    lemma_ascii_text_is_plain("0");
    lemma_ascii_text_is_plain(")");
}

/// An atom takes input and ends behind an ASCII byte.
pub proof fn lemma_atom_end(input: Seq<u8>, pos: nat)
    ensures
        atom_at(input, pos) matches Some((_, end)) ==> pos < end && ends_on_ascii(input, end),
    decreases input.len() - pos, 1nat,
{
    lemma_words_are_plain();
    if value_at(input, pos) is Some {
        if word_at(input, pos, "true".spec_bytes()) {
            lemma_word_ends_on_ascii(input, pos, "true".spec_bytes());
        } else if word_at(input, pos, "false".spec_bytes()) {
            lemma_word_ends_on_ascii(input, pos, "false".spec_bytes());
        } else {
            lemma_word_ends_on_ascii(input, pos, "0".spec_bytes());
        }
    } else if succ_at(input, pos) is Some {
        let inner = pos + "succ".spec_bytes().len() + "(".spec_bytes().len();
        lemma_term_end(input, inner);
        lemma_word_ends_on_ascii(input, term_at(input, inner)->Some_0.1, ")".spec_bytes());
    } else if ident_at(input, pos) is Some {
        lemma_after_multispace_bounds(input, pos);
        lemma_letter_end(input, after_multispace(input, pos));
    } else if if_at(input, pos) is Some {
        let p1 = term_behind(input, pos, pos + "if ".spec_bytes().len())->Some_0.1;
        let p2 = term_behind(input, pos, p1 + " then ".spec_bytes().len())->Some_0.1;
        lemma_term_end(input, p2 + " else ".spec_bytes().len());
    } else if parent_term_at(input, pos) is Some {
        let inner = pos + "(".spec_bytes().len();
        lemma_term_end(input, inner);
        lemma_word_ends_on_ascii(input, term_at(input, inner)->Some_0.1, ")".spec_bytes());
    }
}

/// Parses one of the constants at `pos`.
pub fn parse_value(input: &[u8], pos: usize) -> (r: Option<(ASTTerm, usize)>)
    ensures
        same_parse_of(r, value_at(input@, pos as nat)),
{
    if let Some(end) = tag(input, pos, "true") {
        Some((ASTTerm::TmTrue, end))
    } else if let Some(end) = tag(input, pos, "false") {
        Some((ASTTerm::TmFalse, end))
    } else if let Some(end) = tag_no_case(input, pos, "0") {
        Some((ASTTerm::TmZero, end))
    } else {
        None
    }
}

/// Parses a variable at `pos`.
pub fn parse_ident(input: &[u8], pos: usize) -> (r: Option<(ASTTerm, usize)>)
    ensures
        same_parse_of(r, ident_at(input@, pos as nat)),
{
    match letter(input, multispace0(input, pos)) {
        Some((name, end)) => Some((ASTTerm::TmVar(name), end)),
        None => None,
    }
}

/// Parses a term at `pos`.
pub fn parse_term_at(input: &[u8], pos: usize) -> (r: Option<(ASTTerm, usize)>)
    ensures
        same_parse_of(r, term_at(input@, pos as nat)),
    decreases input@.len() - pos, 7nat,
{
    match parse_abstraction(input, pos) {
        Some(found) => Some(found),
        None => parse_application(input, pos),
    }
}

/// Parses the term at `pos` as a part of a construct that began at
/// `start`.
pub fn parse_term_behind(input: &[u8], start: usize, pos: usize) -> (r: Option<(ASTTerm, usize)>)
    ensures
        same_parse_of(r, term_behind(input@, start as nat, pos as nat)),
    decreases input@.len() - start, 0nat,
{
    if start < pos && pos <= input.len() {
        parse_term_at(input, pos)
    } else {
        None
    }
}

/// Parses an abstraction at `pos`.
pub fn parse_abstraction(input: &[u8], pos: usize) -> (r: Option<(ASTTerm, usize)>)
    ensures
        same_parse_of(r, abstraction_at(input@, pos as nat)),
    decreases input@.len() - pos, 6nat,
{
    let start = match tag(input, pos, "lambda ") {
        Some(p) => p,
        None => {
            return None;
        },
    };
    let (param, p1) = match letter(input, start) {
        Some(found) => found,
        None => {
            return None;
        },
    };
    let type_start = match tag_no_case(input, p1, ":") {
        Some(p) => p,
        None => {
            return None;
        },
    };
    let (ty, p2) = match parse_type_at(input, type_start) {
        Some(found) => found,
        None => {
            return None;
        },
    };
    let body_start = match tag(input, p2, ".") {
        Some(p) => p,
        None => {
            return None;
        },
    };
    match parse_term_behind(input, pos, body_start) {
        Some((body, end)) => Some((ASTTerm::TmAbs(param, ty, Box::new(body)), end)),
        None => None,
    }
}

/// Parses an application at `pos`.
pub fn parse_application(input: &[u8], pos: usize) -> (r: Option<(ASTTerm, usize)>)
    ensures
        same_parse_of(r, application_at(input@, pos as nat)),
    decreases input@.len() - pos, 6nat,
{
    let (first, start) = match parse_atom(input, pos) {
        Some(found) => found,
        None => {
            return None;
        },
    };
    if !(pos < start && start <= input.len()) {
        return None;
    }
    let ghost first_view = first@;
    let mut lhs: ASTTerm = first;
    let mut end: usize = start;
    loop
        invariant
            pos < end <= input@.len(),
            arguments_at(input@, start as nat, first_view) == arguments_at(
                input@,
                end as nat,
                lhs@,
            ),
        ensures
            arguments_at(input@, end as nat, lhs@) == (lhs@, end as nat),
        decreases input@.len() - end,
    {
        match parse_atom(input, end) {
            Some((rhs, next)) => {
                if end < next && next <= input.len() {
                    lhs = ASTTerm::TmApp(Box::new(lhs), Box::new(rhs));
                    end = next;
                } else {
                    break ;
                }
            },
            None => {
                break ;
            },
        }
    }
    Some((lhs, end))
}

/// Parses an atom at `pos`.
pub fn parse_atom(input: &[u8], pos: usize) -> (r: Option<(ASTTerm, usize)>)
    ensures
        same_parse_of(r, atom_at(input@, pos as nat)),
    decreases input@.len() - pos, 4nat,
{
    if let Some(found) = parse_value(input, pos) {
        Some(found)
    } else if let Some(found) = parse_succ(input, pos) {
        Some(found)
    } else if let Some(found) = parse_ident(input, pos) {
        Some(found)
    } else if let Some(found) = parse_if(input, pos) {
        Some(found)
    } else {
        parse_parent_term(input, pos)
    }
}

/// Parses `succ(t)` at `pos`.
pub fn parse_succ(input: &[u8], pos: usize) -> (r: Option<(ASTTerm, usize)>)
    ensures
        same_parse_of(r, succ_at(input@, pos as nat)),
    decreases input@.len() - pos, 3nat,
{
    let open = match tag(input, pos, "succ") {
        Some(p) => p,
        None => {
            return None;
        },
    };
    let inner = match tag(input, open, "(") {
        Some(p) => p,
        None => {
            return None;
        },
    };
    match parse_term_behind(input, pos, inner) {
        Some((t, close)) => match tag(input, close, ")") {
            Some(end) => Some((ASTTerm::TmSucc(Box::new(t)), end)),
            None => None,
        },
        None => None,
    }
}

/// Parses a conditional at `pos`.
pub fn parse_if(input: &[u8], pos: usize) -> (r: Option<(ASTTerm, usize)>)
    ensures
        same_parse_of(r, if_at(input@, pos as nat)),
    decreases input@.len() - pos, 3nat,
{
    let start = match tag(input, pos, "if ") {
        Some(p) => p,
        None => {
            return None;
        },
    };
    let (c, p1) = match parse_term_behind(input, pos, start) {
        Some(found) => found,
        None => {
            return None;
        },
    };
    let then_start = match tag(input, p1, " then ") {
        Some(p) => p,
        None => {
            return None;
        },
    };
    let (t, p2) = match parse_term_behind(input, pos, then_start) {
        Some(found) => found,
        None => {
            return None;
        },
    };
    let else_start = match tag(input, p2, " else ") {
        Some(p) => p,
        None => {
            return None;
        },
    };
    match parse_term_behind(input, pos, else_start) {
        Some((e, p3)) => Some((ASTTerm::TmIf(Box::new(c), Box::new(t), Box::new(e)), p3)),
        None => None,
    }
}

/// Parses a term in parentheses at `pos`.
pub fn parse_parent_term(input: &[u8], pos: usize) -> (r: Option<(ASTTerm, usize)>)
    ensures
        same_parse_of(r, parent_term_at(input@, pos as nat)),
    decreases input@.len() - pos, 3nat,
{
    let inner = match tag(input, pos, "(") {
        Some(p) => p,
        None => {
            return None;
        },
    };
    match parse_term_behind(input, pos, inner) {
        Some((t, close)) => match tag(input, close, ")") {
            Some(end) => Some((t, end)),
            None => None,
        },
        None => None,
    }
}

/// Parses a term and the semicolon behind it.
pub fn parse_statement(input: &[u8], pos: usize) -> (r: Option<(ASTTerm, usize)>)
    ensures
        same_parse_of(r, statement_at(input@, pos as nat)),
{
    match parse_term_at(input, pos) {
        Some((t, end)) => match tag(input, end, ";") {
            Some(after) => Some((t, after)),
            None => None,
        },
        None => None,
    }
}

/// Parses a term at the start of `input` and returns it with the input
/// that is left.
pub fn parse_term(input: &str) -> (r: Result<(&str, ASTTerm), SyntaxError>)
    ensures
        match term_at(input.spec_bytes(), 0) {
            Some((ast, end)) => r matches Ok((rest, found)) && found@ == ast && rest.spec_bytes()
                == input.spec_bytes().skip(end as int),
            None => r is Err,
        },
{
    match parse_term_at(input.as_bytes(), 0) {
        Some((ast, end)) => {
            proof {
                lemma_term_end(input.spec_bytes(), 0);
            }
            Ok((rest_from(input, end), ast))
        },
        None => Err(SyntaxError),
    }
}

} // verus!
