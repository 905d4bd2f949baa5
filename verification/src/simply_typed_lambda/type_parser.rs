//! The written form of types: `Bool`, `Nat`, and arrows between them.

use vstd::prelude::*;
use vstd::string::StringSliceAdditionalSpecFns;
use crate::scan::{
    ends_on_ascii,
    lemma_ascii_text_is_plain,
    lemma_word_ends_on_ascii,
    rest_from,
    same_parse,
    tag,
    tag_no_case,
    word_at,
    word_no_case_at,
    SyntaxError,
};
use crate::simply_typed_lambda::typing::Type;

verus! {

/// The word `Bool`.
pub open spec fn boolean_type_at(input: Seq<u8>, pos: nat) -> Option<(Type, nat)> {
    if word_at(input, pos, "Bool".spec_bytes()) {
        Some((Type::Boolean, pos + "Bool".spec_bytes().len()))
    } else {
        None
    }
}

/// The word `Nat`.
pub open spec fn number_type_at(input: Seq<u8>, pos: nat) -> Option<(Type, nat)> {
    if word_at(input, pos, "Nat".spec_bytes()) {
        Some((Type::Number, pos + "Nat".spec_bytes().len()))
    } else {
        None
    }
}

/// A ground type: `Bool` or `Nat`.
pub open spec fn atom_type_at(input: Seq<u8>, pos: nat) -> Option<(Type, nat)> {
    if boolean_type_at(input, pos) is Some {
        boolean_type_at(input, pos)
    } else {
        number_type_at(input, pos)
    }
}

/// An arrow and the ground type behind it.
pub open spec fn arrow_type_at(input: Seq<u8>, pos: nat) -> Option<(Type, nat)> {
    if word_no_case_at(input, pos, "->".spec_bytes()) {
        atom_type_at(input, pos + "->".spec_bytes().len())
    } else {
        None
    }
}

/// The ground types behind the arrows that follow one another from `pos`
/// on, as many as stand there, and the position behind the last.
pub open spec fn arrow_types_at(input: Seq<u8>, pos: nat) -> (Seq<Type>, nat)
    decreases input.len() - pos,
{
    match arrow_type_at(input, pos) {
        Some((ty, next)) => if pos < next <= input.len() {
            let (more, end) = arrow_types_at(input, next);
            (seq![ty] + more, end)
        } else {
            (Seq::empty(), pos)
        },
        None => (Seq::empty(), pos),
    }
}

/// The arrow type whose domain is `first` and whose codomain is the arrow
/// type of the types that follow: arrows group to the right.
pub open spec fn right_nested(first: Type, more: Seq<Type>) -> Type
    decreases more.len(),
{
    if more.len() == 0 {
        first
    } else {
        Type::Arrow(Box::new(first), Box::new(right_nested(more[0], more.drop_first())))
    }
}

/// A type: a ground type, or ground types with arrows between them.
pub open spec fn type_at(input: Seq<u8>, pos: nat) -> Option<(Type, nat)> {
    match atom_type_at(input, pos) {
        Some((first, next)) => {
            let (more, end) = arrow_types_at(input, next);
            Some((right_nested(first, more), end))
        },
        None => None,
    }
}

/// A ground type takes input and ends behind an ASCII byte.
pub proof fn lemma_atom_type_end(input: Seq<u8>, pos: nat)
    ensures
        atom_type_at(input, pos) matches Some((_, end)) ==> pos < end && ends_on_ascii(
            input,
            end,
        ),
{
    reveal_strlit("Bool");
    reveal_strlit("Nat");
    if word_at(input, pos, "Bool".spec_bytes()) {
        lemma_ascii_text_is_plain("Bool");
        lemma_word_ends_on_ascii(input, pos, "Bool".spec_bytes());
    } else if word_at(input, pos, "Nat".spec_bytes()) {
        lemma_ascii_text_is_plain("Nat");
        lemma_word_ends_on_ascii(input, pos, "Nat".spec_bytes());
    }
}

/// A run of arrows ends where it began or behind an ASCII byte.
pub proof fn lemma_arrow_types_end(input: Seq<u8>, pos: nat)
    requires
        ends_on_ascii(input, pos),
    ensures
        pos <= arrow_types_at(input, pos).1,
        ends_on_ascii(input, arrow_types_at(input, pos).1),
    decreases input.len() - pos,
{
    if let Some((_, next)) = arrow_type_at(input, pos) {
        lemma_atom_type_end(input, pos + "->".spec_bytes().len());
        if pos < next <= input.len() {
            lemma_arrow_types_end(input, next);
        }
    }
}

/// A type takes input and ends behind an ASCII byte.
pub proof fn lemma_type_end(input: Seq<u8>, pos: nat)
    ensures
        type_at(input, pos) matches Some((_, end)) ==> pos < end && ends_on_ascii(input, end),
{
    if let Some((_, next)) = atom_type_at(input, pos) {
        lemma_atom_type_end(input, pos);
        lemma_arrow_types_end(input, next);
    }
}

/// Parses the word `Bool` at `pos`.
pub fn parse_boolean_type(input: &[u8], pos: usize) -> (r: Option<(Type, usize)>)
    ensures
        same_parse(r, boolean_type_at(input@, pos as nat)),
{
    match tag(input, pos, "Bool") {
        Some(end) => Some((Type::Boolean, end)),
        None => None,
    }
}

/// Parses the word `Nat` at `pos`.
pub fn parse_number_type(input: &[u8], pos: usize) -> (r: Option<(Type, usize)>)
    ensures
        same_parse(r, number_type_at(input@, pos as nat)),
{
    match tag(input, pos, "Nat") {
        Some(end) => Some((Type::Number, end)),
        None => None,
    }
}

/// Parses a ground type at `pos`.
pub fn parse_atom_type(input: &[u8], pos: usize) -> (r: Option<(Type, usize)>)
    ensures
        same_parse(r, atom_type_at(input@, pos as nat)),
{
    match parse_boolean_type(input, pos) {
        Some(found) => Some(found),
        None => parse_number_type(input, pos),
    }
}

/// Parses an arrow and the ground type behind it at `pos`.
pub fn parse_arrow_type(input: &[u8], pos: usize) -> (r: Option<(Type, usize)>)
    ensures
        same_parse(r, arrow_type_at(input@, pos as nat)),
{
    match tag_no_case(input, pos, "->") {
        Some(next) => parse_atom_type(input, next),
        None => None,
    }
}

/// Builds the arrow type from `first` through `more`, grouped to the
/// right.
pub fn nest_right(first: Type, more: Vec<Type>) -> (r: Type)
    ensures
        r == right_nested(first, more@),
{
    let mut more = more;
    let ghost all = more@;
    match more.pop() {
        None => first,
        Some(last) => {
            let mut result = last;
            assert(all.skip(all.len() - 1).drop_first() =~= Seq::<Type>::empty());
            assert(right_nested(last, Seq::empty()) == last);
            while more.len() > 0
                invariant
                    more@.len() < all.len(),
                    more@ == all.take(more@.len() as int),
                    result == right_nested(
                        all[more@.len() as int],
                        all.skip(more@.len() as int + 1),
                    ),
                decreases more@.len(),
            {
                let ghost k = more@.len() as int;
                let ty = more.pop().unwrap();
                assert(all.skip(k).drop_first() =~= all.skip(k + 1));
                assert(all.skip(k)[0] == all[k]);
                assert(more@ =~= all.take(k - 1));
                result = Type::Arrow(Box::new(ty), Box::new(result));
            }
            assert(all.skip(0) =~= all);
            assert(all.drop_first() =~= all.skip(1));
            Type::Arrow(Box::new(first), Box::new(result))
        },
    }
}

/// Parses a type at `pos`.
pub fn parse_type_at(input: &[u8], pos: usize) -> (r: Option<(Type, usize)>)
    ensures
        same_parse(r, type_at(input@, pos as nat)),
{
    let (first, start) = match parse_atom_type(input, pos) {
        Some(found) => found,
        None => {
            return None;
        },
    };
    let mut more: Vec<Type> = Vec::new();
    let mut end: usize = start;
    loop
        invariant
            arrow_types_at(input@, start as nat).0 == more@ + arrow_types_at(input@, end as nat).0,
            arrow_types_at(input@, start as nat).1 == arrow_types_at(input@, end as nat).1,
        ensures
            arrow_types_at(input@, end as nat) == (Seq::<Type>::empty(), end as nat),
        decreases input@.len() - end,
    {
        match parse_arrow_type(input, end) {
            Some((ty, next)) => {
                if end < next && next <= input.len() {
                    assert(more@.push(ty) + arrow_types_at(input@, next as nat).0 =~= more@ + (
                    seq![ty] + arrow_types_at(input@, next as nat).0));
                    more.push(ty);
                    end = next;
                } else {
                    break ;
                }
            },
            None => {
                break ;
            },
        }
    }
    assert(more@ + Seq::<Type>::empty() =~= more@);
    Some((nest_right(first, more), end))
}

/// Parses a type at the start of `input` and returns it with the input
/// that is left.
pub fn parse_type(input: &str) -> (r: Result<(&str, Type), SyntaxError>)
    ensures
        match type_at(input.spec_bytes(), 0) {
            Some((ty, end)) => r matches Ok((rest, found)) && found == ty && rest.spec_bytes()
                == input.spec_bytes().skip(end as int),
            None => r is Err,
        },
{
    match parse_type_at(input.as_bytes(), 0) {
        Some((ty, end)) => {
            proof {
                lemma_type_end(input.spec_bytes(), 0);
            }
            Ok((rest_from(input, end), ty))
        },
        None => Err(SyntaxError),
    }
}

} // verus!
