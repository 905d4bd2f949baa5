//! Terms of the arithmetic language and the grammar of their written form,
//! with runs of blanks inside conditionals.

use vstd::prelude::*;
use vstd::string::StringSliceAdditionalSpecFns;
use crate::scan::{
    digit,
    digit_at,
    ends_on_ascii,
    lemma_ascii_text_is_plain,
    lemma_word_ends_on_ascii,
    plain_word,
    rest_from,
    same_parse,
    same_position,
    space1,
    space1_at,
    tag,
    tag_no_case,
    word_at,
    word_no_case_at,
    SyntaxError,
};

verus! {

/// A term of the arithmetic language.
#[derive(Debug, PartialEq, PartialOrd)]
pub enum Term {
    TmTrue,
    TmFalse,
    TmZero,
    TmSucc(Box<Term>),
    TmPred(Box<Term>),
    TmIsZero(Box<Term>),
    /// Condition, then branch, else branch.
    TmIf(Box<Term>, Box<Term>, Box<Term>),
}

impl Clone for Term {
    fn clone(&self) -> (r: Self)
        ensures
            r == *self,
        decreases *self,
    {
        match self {
            Term::TmTrue => Term::TmTrue,
            Term::TmFalse => Term::TmFalse,
            Term::TmZero => Term::TmZero,
            Term::TmSucc(t) => Term::TmSucc(Box::new((&**t).clone())),
            Term::TmPred(t) => Term::TmPred(Box::new((&**t).clone())),
            Term::TmIsZero(t) => Term::TmIsZero(Box::new((&**t).clone())),
            Term::TmIf(c, t, e) => Term::TmIf(
                Box::new((&**c).clone()),
                Box::new((&**t).clone()),
                Box::new((&**e).clone()),
            ),
        }
    }
}

/// The numeral for `n`: `n` successors around zero.
pub open spec fn numeral(n: nat) -> Term
    decreases n,
{
    if n == 0 {
        Term::TmZero
    } else {
        Term::TmSucc(Box::new(numeral((n - 1) as nat)))
    }
}

/// One of the words `true`, `false` and `0`, in any case, tried in that
/// order.
pub open spec fn word_term_at(input: Seq<u8>, pos: nat) -> Option<(Term, nat)> {
    if word_no_case_at(input, pos, "true".spec_bytes()) {
        Some((Term::TmTrue, pos + "true".spec_bytes().len()))
    } else if word_no_case_at(input, pos, "false".spec_bytes()) {
        Some((Term::TmFalse, pos + "false".spec_bytes().len()))
    } else if word_no_case_at(input, pos, "0".spec_bytes()) {
        Some((Term::TmZero, pos + "0".spec_bytes().len()))
    } else {
        None
    }
}

/// The number written by the one to three decimal digits at `pos`, as many
/// as stand there, and the position behind them.
pub open spec fn digits_at(input: Seq<u8>, pos: nat) -> Option<(nat, nat)> {
    match digit_at(input, pos) {
        Some(d1) => match digit_at(input, pos + 1) {
            Some(d2) => match digit_at(input, pos + 2) {
                Some(d3) => Some((d1 * 100 + d2 * 10 + d3, pos + 3)),
                None => Some((d1 * 10 + d2, pos + 2)),
            },
            None => Some((d1, pos + 1)),
        },
        None => None,
    }
}

/// A decimal number of one to three digits that is at most 255, as a
/// numeral. A number written with zeros alone gives the numeral for one.
pub open spec fn numeric_at(input: Seq<u8>, pos: nat) -> Option<(Term, nat)> {
    match digits_at(input, pos) {
        Some((n, end)) => if n > 255 {
            None
        } else if n == 0 {
            Some((numeral(1), end))
        } else {
            Some((numeral(n), end))
        },
        None => None,
    }
}

/// A term: the first of a constant word, `succ(..)`, `pred(..)`,
/// `iszero(..)`, a conditional and a number that stands at `pos`.
pub open spec fn term_at(input: Seq<u8>, pos: nat) -> Option<(Term, nat)>
    decreases input.len() - pos, 3nat,
{
    if word_term_at(input, pos) is Some {
        word_term_at(input, pos)
    } else if succ_at(input, pos) is Some {
        succ_at(input, pos)
    } else if pred_at(input, pos) is Some {
        pred_at(input, pos)
    } else if iszero_at(input, pos) is Some {
        iszero_at(input, pos)
    } else if if_at(input, pos) is Some {
        if_at(input, pos)
    } else {
        numeric_at(input, pos)
    }
}

/// The term at `pos`, which is a part of a construct that began at `start`
/// and has taken input since.
pub open spec fn term_behind(input: Seq<u8>, start: nat, pos: nat) -> Option<(Term, nat)>
    decreases input.len() - start, 0nat,
{
    if start < pos <= input.len() {
        term_at(input, pos)
    } else {
        None
    }
}

/// The argument of an operator: `keyword`, in any case, then a term in
/// parentheses.
pub open spec fn call_at(input: Seq<u8>, pos: nat, keyword: Seq<u8>) -> Option<(Term, nat)>
    decreases input.len() - pos, 1nat,
{
    let open = pos + keyword.len();
    let inner = open + "(".spec_bytes().len();
    if word_no_case_at(input, pos, keyword) && word_at(input, open, "(".spec_bytes()) {
        match term_behind(input, pos, inner) {
            Some((t, close)) => if word_at(input, close, ")".spec_bytes()) {
                Some((t, close + ")".spec_bytes().len()))
            } else {
                None
            },
            None => None,
        }
    } else {
        None
    }
}

/// `succ(t)`
pub open spec fn succ_at(input: Seq<u8>, pos: nat) -> Option<(Term, nat)>
    decreases input.len() - pos, 2nat,
{
    match call_at(input, pos, "succ".spec_bytes()) {
        Some((t, end)) => Some((Term::TmSucc(Box::new(t)), end)),
        None => None,
    }
}

/// `pred(t)`
pub open spec fn pred_at(input: Seq<u8>, pos: nat) -> Option<(Term, nat)>
    decreases input.len() - pos, 2nat,
{
    match call_at(input, pos, "pred".spec_bytes()) {
        Some((t, end)) => Some((Term::TmPred(Box::new(t)), end)),
        None => None,
    }
}

/// `iszero(t)`
pub open spec fn iszero_at(input: Seq<u8>, pos: nat) -> Option<(Term, nat)>
    decreases input.len() - pos, 2nat,
{
    match call_at(input, pos, "iszero".spec_bytes()) {
        Some((t, end)) => Some((Term::TmIsZero(Box::new(t)), end)),
        None => None,
    }
}

/// `if c then t else e`, where one or more spaces or tabs stand behind
/// `if` and on each side of `then` and `else`. Only `if` may be written
/// in any case.
pub open spec fn if_at(input: Seq<u8>, pos: nat) -> Option<(Term, nat)>
    decreases input.len() - pos, 2nat,
{
    if word_no_case_at(input, pos, "if".spec_bytes()) {
        match space1_at(input, pos + "if".spec_bytes().len()) {
            Some(start) => match term_behind(input, pos, start) {
                Some((c, p1)) => match inner_word_at(input, p1, "then".spec_bytes()) {
                    Some(then_start) => match term_behind(input, pos, then_start) {
                        Some((t, p2)) => match inner_word_at(input, p2, "else".spec_bytes()) {
                            Some(else_start) => match term_behind(input, pos, else_start) {
                                Some((e, p3)) => Some(
                                    (Term::TmIf(Box::new(c), Box::new(t), Box::new(e)), p3),
                                ),
                                None => None,
                            },
                            None => None,
                        },
                        None => None,
                    },
                    None => None,
                },
                None => None,
            },
            None => None,
        }
    } else {
        None
    }
}

/// The position behind `word` with a run of blanks on each side of it.
pub open spec fn inner_word_at(input: Seq<u8>, pos: nat, word: Seq<u8>) -> Option<nat> {
    match space1_at(input, pos) {
        Some(start) => if word_at(input, start, word) {
            space1_at(input, start + word.len())
        } else {
            None
        },
        None => None,
    }
}

/// The words of the grammar are plain.
pub proof fn lemma_words_are_plain()
    ensures
        plain_word("true".spec_bytes()),
        plain_word("false".spec_bytes()),
        plain_word("0".spec_bytes()),
        plain_word("succ".spec_bytes()),
        plain_word("pred".spec_bytes()),
        plain_word("iszero".spec_bytes()),
        plain_word("(".spec_bytes()),
        plain_word(")".spec_bytes()),
{
    reveal_strlit("true");
    reveal_strlit("false");
    reveal_strlit("0");
    reveal_strlit("succ");
    reveal_strlit("pred");
    reveal_strlit("iszero");
    reveal_strlit("(");
    reveal_strlit(")");
    lemma_ascii_text_is_plain("true");
    lemma_ascii_text_is_plain("false");
    lemma_ascii_text_is_plain("0");
    lemma_ascii_text_is_plain("succ");
    lemma_ascii_text_is_plain("pred");
    lemma_ascii_text_is_plain("iszero");
    lemma_ascii_text_is_plain("(");
    lemma_ascii_text_is_plain(")");
}

/// A constant word takes input and ends behind an ASCII byte.
pub proof fn lemma_word_term_end(input: Seq<u8>, pos: nat)
    ensures
        word_term_at(input, pos) matches Some((_, end)) ==> pos < end && ends_on_ascii(input, end),
{
    lemma_words_are_plain();
    if word_no_case_at(input, pos, "true".spec_bytes()) {
        lemma_word_ends_on_ascii(input, pos, "true".spec_bytes());
    } else if word_no_case_at(input, pos, "false".spec_bytes()) {
        lemma_word_ends_on_ascii(input, pos, "false".spec_bytes());
    } else if word_no_case_at(input, pos, "0".spec_bytes()) {
        lemma_word_ends_on_ascii(input, pos, "0".spec_bytes());
    }
}

/// A term takes input and ends behind an ASCII byte.
pub proof fn lemma_term_end(input: Seq<u8>, pos: nat)
    ensures
        term_at(input, pos) matches Some((_, end)) ==> pos < end && ends_on_ascii(input, end),
    decreases input.len() - pos, 1nat,
{
    lemma_words_are_plain();
    if word_term_at(input, pos) is Some {
        lemma_word_term_end(input, pos);
    } else if succ_at(input, pos) is Some {
        lemma_call_end(input, pos, "succ".spec_bytes());
    } else if pred_at(input, pos) is Some {
        lemma_call_end(input, pos, "pred".spec_bytes());
    } else if iszero_at(input, pos) is Some {
        lemma_call_end(input, pos, "iszero".spec_bytes());
    } else if if_at(input, pos) is Some {
        let start = space1_at(input, pos + "if".spec_bytes().len())->Some_0;
        let p1 = term_behind(input, pos, start)->Some_0.1;
        let then_start = inner_word_at(input, p1, "then".spec_bytes())->Some_0;
        let p2 = term_behind(input, pos, then_start)->Some_0.1;
        let else_start = inner_word_at(input, p2, "else".spec_bytes())->Some_0;
        lemma_term_end(input, else_start);
    }
}

/// An operator with its argument takes input and ends behind an ASCII
/// byte.
pub proof fn lemma_call_end(input: Seq<u8>, pos: nat, keyword: Seq<u8>)
    ensures
        call_at(input, pos, keyword) matches Some((_, end)) ==> pos < end && ends_on_ascii(
            input,
            end,
        ),
    decreases input.len() - pos, 0nat,
{
    if let Some((_, end)) = call_at(input, pos, keyword) {
        let inner = pos + keyword.len() + "(".spec_bytes().len();
        let close = term_behind(input, pos, inner)->Some_0.1;
        lemma_words_are_plain();
        lemma_term_end(input, inner);
        lemma_word_ends_on_ascii(input, close, ")".spec_bytes());
    }
}

/// Builds the numeral for `n`, where `n` is at least one.
pub fn numeral_term(n: u8) -> (r: Term)
    requires
        n >= 1,
    ensures
        r == numeral(n as nat),
{
    let mut current = Term::TmSucc(Box::new(Term::TmZero));
    let mut i: u8 = 1;
    assert(numeral(1) == Term::TmSucc(Box::new(numeral(0))));
    while i < n
        invariant
            1 <= i <= n,
            current == numeral(i as nat),
        decreases n - i,
    {
        current = Term::TmSucc(Box::new(current));
        i = i + 1;
    }
    current
}

/// Parses one of the constant words at `pos`.
pub fn parse_word_term(input: &[u8], pos: usize) -> (r: Option<(Term, usize)>)
    ensures
        same_parse(r, word_term_at(input@, pos as nat)),
{
    if let Some(end) = tag_no_case(input, pos, "true") {
        Some((Term::TmTrue, end))
    } else if let Some(end) = tag_no_case(input, pos, "false") {
        Some((Term::TmFalse, end))
    } else if let Some(end) = tag_no_case(input, pos, "0") {
        Some((Term::TmZero, end))
    } else {
        None
    }
}

/// Parses a decimal number at `pos` into a numeral.
pub fn parse_numeric(input: &[u8], pos: usize) -> (r: Option<(Term, usize)>)
    ensures
        same_parse(r, numeric_at(input@, pos as nat)),
{
    let d1: u16 = match digit(input, pos) {
        Some(d) => d as u16,
        None => {
            return None;
        },
    };
    let mut n: u16 = d1;
    let mut end: usize = pos + 1;
    if let Some(d2) = digit(input, end) {
        n = n * 10 + d2 as u16;
        end = end + 1;
        if let Some(d3) = digit(input, end) {
            n = n * 10 + d3 as u16;
            end = end + 1;
        }
    }
    if n > 255 {
        None
    } else if n == 0 {
        Some((numeral_term(1), end))
    } else {
        Some((numeral_term(n as u8), end))
    }
}

/// Parses a term at `pos`.
pub fn parse_term_at(input: &[u8], pos: usize) -> (r: Option<(Term, usize)>)
    ensures
        same_parse(r, term_at(input@, pos as nat)),
    decreases input@.len() - pos, 3nat,
{
    if let Some(found) = parse_word_term(input, pos) {
        Some(found)
    } else if let Some(found) = parse_succ(input, pos) {
        Some(found)
    } else if let Some(found) = parse_pred(input, pos) {
        Some(found)
    } else if let Some(found) = parse_iszero(input, pos) {
        Some(found)
    } else if let Some(found) = parse_if(input, pos) {
        Some(found)
    } else {
        parse_numeric(input, pos)
    }
}

/// Parses the term at `pos` as a part of a construct that began at
/// `start`.
pub fn parse_term_behind(input: &[u8], start: usize, pos: usize) -> (r: Option<(Term, usize)>)
    ensures
        same_parse(r, term_behind(input@, start as nat, pos as nat)),
    decreases input@.len() - start, 0nat,
{
    if start < pos && pos <= input.len() {
        parse_term_at(input, pos)
    } else {
        None
    }
}

/// Parses `keyword`, in any case, and a term in parentheses behind it.
pub fn parse_call(input: &[u8], pos: usize, keyword: &str) -> (r: Option<(Term, usize)>)
    ensures
        same_parse(r, call_at(input@, pos as nat, keyword.spec_bytes())),
    decreases input@.len() - pos, 1nat,
{
    let open = match tag_no_case(input, pos, keyword) {
        Some(p) => p,
        None => {
            return None;
        },
    };
    let inner = match tag(input, open, "(") {
        Some(p) => p,
        None => {
            return None;
        },
    };
    match parse_term_behind(input, pos, inner) {
        Some((t, close)) => match tag(input, close, ")") {
            Some(end) => Some((t, end)),
            None => None,
        },
        None => None,
    }
}

/// Parses `succ(t)` at `pos`.
pub fn parse_succ(input: &[u8], pos: usize) -> (r: Option<(Term, usize)>)
    ensures
        same_parse(r, succ_at(input@, pos as nat)),
    decreases input@.len() - pos, 2nat,
{
    match parse_call(input, pos, "succ") {
        Some((t, end)) => Some((Term::TmSucc(Box::new(t)), end)),
        None => None,
    }
}

/// Parses `pred(t)` at `pos`.
pub fn parse_pred(input: &[u8], pos: usize) -> (r: Option<(Term, usize)>)
    ensures
        same_parse(r, pred_at(input@, pos as nat)),
    decreases input@.len() - pos, 2nat,
{
    match parse_call(input, pos, "pred") {
        Some((t, end)) => Some((Term::TmPred(Box::new(t)), end)),
        None => None,
    }
}

/// Parses `iszero(t)` at `pos`.
pub fn parse_iszero(input: &[u8], pos: usize) -> (r: Option<(Term, usize)>)
    ensures
        same_parse(r, iszero_at(input@, pos as nat)),
    decreases input@.len() - pos, 2nat,
{
    match parse_call(input, pos, "iszero") {
        Some((t, end)) => Some((Term::TmIsZero(Box::new(t)), end)),
        None => None,
    }
}

/// Parses `word` with a run of blanks on each side of it.
pub fn parse_inner_word(input: &[u8], pos: usize, word: &str) -> (r: Option<usize>)
    ensures
        same_position(r, inner_word_at(input@, pos as nat, word.spec_bytes())),
{
    let start = match space1(input, pos) {
        Some(p) => p,
        None => {
            return None;
        },
    };
    match tag(input, start, word) {
        Some(behind) => space1(input, behind),
        None => None,
    }
}

/// Parses a conditional at `pos`.
pub fn parse_if(input: &[u8], pos: usize) -> (r: Option<(Term, usize)>)
    ensures
        same_parse(r, if_at(input@, pos as nat)),
    decreases input@.len() - pos, 2nat,
{
    let behind_if = match tag_no_case(input, pos, "if") {
        Some(p) => p,
        None => {
            return None;
        },
    };
    let start = match space1(input, behind_if) {
        Some(p) => p,
        None => {
            return None;
        },
    };
    let (c, p1) = match parse_term_behind(input, pos, start) {
        Some(found) => found,
        None => {
            return None;
        },
    };
    let then_start = match parse_inner_word(input, p1, "then") {
        Some(p) => p,
        None => {
            return None;
        },
    };
    let (t, p2) = match parse_term_behind(input, pos, then_start) {
        Some(found) => found,
        None => {
            return None;
        },
    };
    let else_start = match parse_inner_word(input, p2, "else") {
        Some(p) => p,
        None => {
            return None;
        },
    };
    match parse_term_behind(input, pos, else_start) {
        Some((e, p3)) => Some((Term::TmIf(Box::new(c), Box::new(t), Box::new(e)), p3)),
        None => None,
    }
}

/// Parses a term at the start of `input` and returns it with the input
/// that is left.
pub fn parse_term(input: &str) -> (r: Result<(&str, Term), SyntaxError>)
    ensures
        match term_at(input.spec_bytes(), 0) {
            Some((term, end)) => r matches Ok((rest, found)) && found == term && rest.spec_bytes()
                == input.spec_bytes().skip(end as int),
            None => r is Err,
        },
{
    match parse_term_at(input.as_bytes(), 0) {
        Some((term, end)) => {
            proof {
                lemma_term_end(input.spec_bytes(), 0);
            }
            Ok((rest_from(input, end), term))
        },
        None => Err(SyntaxError),
    }
}

} // verus!
