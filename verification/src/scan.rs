//! Matching of fixed words and character classes at a position of a byte
//! string: the terminals that the grammars of this crate are built from.

use vstd::prelude::*;
use vstd::string::{StrSliceExecFns, StringExecFns, StringSliceAdditionalSpecFns};
use crate::misc::ALPHABET;
use vstd::utf8::{
    encode_utf8_valid_utf8,
    is_char_boundary,
    is_continuation_byte,
    length_of_first_scalar,
    pop_first_scalar,
    valid_first_scalar,
    valid_utf8,
};

verus! {

/// The byte with an upper-case ASCII letter turned into its lower-case
/// form; every other byte is left as it is.
pub open spec fn fold_case(b: u8) -> u8 {
    if 65 <= b <= 90 {
        (b + 32) as u8
    } else {
        b
    }
}

/// The bytes of `word` stand in `input` from `pos` on.
pub open spec fn word_at(input: Seq<u8>, pos: nat, word: Seq<u8>) -> bool {
    &&& pos + word.len() <= input.len()
    &&& forall|i: int| 0 <= i < word.len() ==> input[pos + i] == #[trigger] word[i]
}

/// The bytes of `word` stand in `input` from `pos` on, up to the case of
/// ASCII letters.
pub open spec fn word_no_case_at(input: Seq<u8>, pos: nat, word: Seq<u8>) -> bool {
    &&& pos + word.len() <= input.len()
    &&& forall|i: int|
        0 <= i < word.len() ==> fold_case(input[pos + i]) == fold_case(#[trigger] word[i])
}

/// The value of a decimal digit.
pub open spec fn digit_value(b: u8) -> Option<nat> {
    if 48 <= b <= 57 {
        Some((b - 48) as nat)
    } else {
        None
    }
}

/// The value of the decimal digit at `pos`, if one stands there.
pub open spec fn digit_at(input: Seq<u8>, pos: nat) -> Option<nat> {
    if pos < input.len() {
        digit_value(input[pos as int])
    } else {
        None
    }
}

/// Space, tab, carriage return or line feed.
pub open spec fn is_multispace(b: u8) -> bool {
    b == 32 || b == 9 || b == 13 || b == 10
}

/// Space or tab.
pub open spec fn is_space(b: u8) -> bool {
    b == 32 || b == 9
}

/// The first position from `pos` on that holds no space, tab, carriage
/// return or line feed.
pub open spec fn after_multispace(input: Seq<u8>, pos: nat) -> nat
    decreases input.len() - pos,
{
    if pos < input.len() && is_multispace(input[pos as int]) {
        after_multispace(input, pos + 1)
    } else {
        pos
    }
}

/// The first position from `pos` on that holds no space or tab.
pub open spec fn after_space(input: Seq<u8>, pos: nat) -> nat
    decreases input.len() - pos,
{
    if pos < input.len() && is_space(input[pos as int]) {
        after_space(input, pos + 1)
    } else {
        pos
    }
}

/// The position behind a run of one or more spaces and tabs at `pos`.
pub open spec fn space1_at(input: Seq<u8>, pos: nat) -> Option<nat> {
    if after_space(input, pos) > pos {
        Some(after_space(input, pos))
    } else {
        None
    }
}

/// The position where `set` holds `b` first, if it holds it.
pub open spec fn position_in(set: Seq<u8>, b: u8) -> Option<nat>
    decreases set.len(),
{
    if set.len() == 0 {
        None
    } else if set[0] == b {
        Some(0)
    } else {
        match position_in(set.drop_first(), b) {
            Some(i) => Some(i + 1),
            None => None,
        }
    }
}

/// A text that the grammar does not derive.
#[derive(Clone, Copy, Debug, PartialEq, Eq)]
pub struct SyntaxError;

/// What a parser hands back for the outcome `expected` of its
/// specification: the same value and position, or nothing.
pub open spec fn same_parse<T>(r: Option<(T, usize)>, expected: Option<(T, nat)>) -> bool {
    match r {
        Some((value, end)) => expected == Some((value, end as nat)),
        None => expected is None,
    }
}

/// The letter of the alphabet at `pos`, as a name of one character.
pub open spec fn letter_at(input: Seq<u8>, pos: nat) -> Option<(Seq<char>, nat)> {
    if pos < input.len() {
        match position_in(ALPHABET.spec_bytes(), input[pos as int]) {
            Some(k) => Some((ALPHABET@.subrange(k as int, k as int + 1), pos + 1)),
            None => None,
        }
    } else {
        None
    }
}

/// What a parser hands back for the outcome `expected` of its
/// specification: a value with the same view and the same position, or
/// nothing.
pub open spec fn same_parse_of<T: View>(
    r: Option<(T, usize)>,
    expected: Option<(T::V, nat)>,
) -> bool {
    match r {
        Some((value, end)) => expected == Some((value@, end as nat)),
        None => expected is None,
    }
}

/// What a matcher hands back for the outcome `expected` of its
/// specification: the same position, or nothing.
pub open spec fn same_position(r: Option<usize>, expected: Option<nat>) -> bool {
    match r {
        Some(end) => expected == Some(end as nat),
        None => expected is None,
    }
}

/// The position `end` lies in `input` and the byte before it, if there is
/// one, is an ASCII byte.
pub open spec fn ends_on_ascii(input: Seq<u8>, end: nat) -> bool {
    end <= input.len() && (end > 0 ==> input[end - 1] < 128)
}

/// The word is not empty and its last byte is an ASCII byte.
pub open spec fn plain_word(word: Seq<u8>) -> bool {
    word.len() > 0 && word[word.len() - 1] < 128
}

/// A non-empty text of ASCII characters is a plain word.
pub proof fn lemma_ascii_text_is_plain(word: &str)
    requires
        vstd::string::is_ascii(word),
        word@.len() > 0,
    ensures
        plain_word(word.spec_bytes()),
{
    broadcast use vstd::string::group_string_axioms;

    let bytes = word.spec_bytes();
    let last = bytes.len() - 1;
    assert(bytes[last] == word@[last] as u8);
}

/// A plain word, matched with or without regard to case, takes input and
/// ends behind an ASCII byte of the input.
pub proof fn lemma_word_ends_on_ascii(input: Seq<u8>, pos: nat, word: Seq<u8>)
    requires
        plain_word(word),
        word_at(input, pos, word) || word_no_case_at(input, pos, word),
    ensures
        pos < pos + word.len(),
        ends_on_ascii(input, pos + word.len()),
{
    let last = word.len() - 1;
    assert(input[pos + last] == word[last] || fold_case(input[pos + last]) == fold_case(
        word[last],
    ));
}

/// In well-formed UTF-8 a character ends wherever an ASCII byte ends.
pub proof fn lemma_ascii_ends_character(bytes: Seq<u8>, end: nat)
    requires
        valid_utf8(bytes),
        ends_on_ascii(bytes, end),
    ensures
        is_char_boundary(bytes, end as int),
    decreases bytes.len(),
{
    if end > 0 {
        let k = length_of_first_scalar(bytes);
        let rest = pop_first_scalar(bytes);
        assert(valid_first_scalar(bytes) && valid_utf8(rest));
        assert(1 <= k <= bytes.len());
        assert(rest.len() == bytes.len() - k);
        if end < k {
            // the bytes of a longer character behind its first are no ASCII bytes
            assert(end - 1 >= 1 ==> is_continuation_byte(bytes[end - 1]));
            assert(false);
        } else if end > k {
            assert(rest[end - k - 1] == bytes[end - 1]);
            lemma_ascii_ends_character(rest, (end - k) as nat);
        }
        reveal_with_fuel(is_char_boundary, 2);
    }
}

/// The part of `input` that begins at byte `end`, where `end` lies behind
/// an ASCII byte or at the start.
pub fn rest_from(input: &str, end: usize) -> (rest: &str)
    requires
        ends_on_ascii(input.spec_bytes(), end as nat),
    ensures
        rest.spec_bytes() == input.spec_bytes().skip(end as int),
{
    proof {
        encode_utf8_valid_utf8(input@);
        lemma_ascii_ends_character(input.spec_bytes(), end as nat);
    }
    let (_, rest) = input.split_at(end);
    assert(rest.spec_bytes() =~= input.spec_bytes().skip(end as int));
    rest
}

/// The lower-case form of an upper-case ASCII letter, and every other byte
/// as it is.
pub fn to_lower(b: u8) -> (r: u8)
    ensures
        r == fold_case(b),
{
    if 65 <= b && b <= 90 {
        b + 32
    } else {
        b
    }
}

/// Matches `word` at `pos`, byte for byte, and returns the position behind
/// it.
pub fn tag(input: &[u8], pos: usize, word: &str) -> (r: Option<usize>)
    ensures
        r is Some <==> word_at(input@, pos as nat, word.spec_bytes()),
        r matches Some(end) ==> end == pos + word.spec_bytes().len(),
{
    let pattern = word.as_bytes();
    let n = pattern.len();
    if pos > input.len() || n > input.len() - pos {
        return None;
    }
    let mut i: usize = 0;
    while i < n
        invariant
            pattern@ == word.spec_bytes(),
            n == pattern@.len(),
            pos + n <= input@.len() <= usize::MAX,
            i <= n,
            forall|j: int| 0 <= j < i ==> input@[pos + j] == #[trigger] pattern@[j],
        decreases n - i,
    {
        if input[pos + i] != pattern[i] {
            assert(!word_at(input@, pos as nat, pattern@)) by {
                let j = i as int;
                assert(input@[pos + j] != pattern@[j]);
            }
            return None;
        }
        i = i + 1;
    }
    Some(pos + n)
}

/// Matches `word` at `pos` without regard to the case of ASCII letters, and
/// returns the position behind it.
pub fn tag_no_case(input: &[u8], pos: usize, word: &str) -> (r: Option<usize>)
    ensures
        r is Some <==> word_no_case_at(input@, pos as nat, word.spec_bytes()),
        r matches Some(end) ==> end == pos + word.spec_bytes().len(),
{
    let pattern = word.as_bytes();
    let n = pattern.len();
    if pos > input.len() || n > input.len() - pos {
        return None;
    }
    let mut i: usize = 0;
    while i < n
        invariant
            pattern@ == word.spec_bytes(),
            n == pattern@.len(),
            pos + n <= input@.len() <= usize::MAX,
            i <= n,
            forall|j: int|
                0 <= j < i ==> fold_case(input@[pos + j]) == fold_case(#[trigger] pattern@[j]),
        decreases n - i,
    {
        if to_lower(input[pos + i]) != to_lower(pattern[i]) {
            assert(!word_no_case_at(input@, pos as nat, pattern@)) by {
                let j = i as int;
                assert(fold_case(input@[pos + j]) != fold_case(pattern@[j]));
            }
            return None;
        }
        i = i + 1;
    }
    Some(pos + n)
}

/// The value of the decimal digit at `pos`, if one stands there.
pub fn digit(input: &[u8], pos: usize) -> (r: Option<u8>)
    ensures
        match r {
            Some(d) => digit_at(input@, pos as nat) == Some(d as nat) && d <= 9 && pos < usize::MAX,
            None => digit_at(input@, pos as nat) is None,
        },
{
    if pos < input.len() && 48 <= input[pos] && input[pos] <= 57 {
        Some(input[pos] - 48)
    } else {
        None
    }
}

/// Skips spaces, tabs, carriage returns and line feeds from `pos` on.
pub fn multispace0(input: &[u8], pos: usize) -> (end: usize)
    ensures
        end == after_multispace(input@, pos as nat),
        pos <= end,
{
    let mut i: usize = pos;
    while i < input.len() && (input[i] == 32 || input[i] == 9 || input[i] == 13 || input[i] == 10)
        invariant
            pos <= i,
            after_multispace(input@, i as nat) == after_multispace(input@, pos as nat),
        decreases input@.len() - i,
    {
        i = i + 1;
    }
    i
}

/// Matches one or more spaces and tabs at `pos` and returns the position
/// behind them.
pub fn space1(input: &[u8], pos: usize) -> (r: Option<usize>)
    ensures
        same_position(r, space1_at(input@, pos as nat)),
        r matches Some(end) ==> pos < end <= input@.len(),
{
    let mut i: usize = pos;
    while i < input.len() && (input[i] == 32 || input[i] == 9)
        invariant
            pos <= i,
            i > pos ==> i <= input@.len(),
            after_space(input@, i as nat) == after_space(input@, pos as nat),
        decreases input@.len() - i,
    {
        i = i + 1;
    }
    if i > pos {
        Some(i)
    } else {
        None
    }
}

/// The position in `set` of the byte at `pos`, if the byte stands in
/// `set`.
pub fn one_of(input: &[u8], pos: usize, set: &str) -> (r: Option<usize>)
    ensures
        match r {
            Some(k) => pos < input@.len() <= usize::MAX && position_in(
                set.spec_bytes(),
                input@[pos as int],
            ) == Some(k as nat),
            None => pos >= input@.len() || position_in(set.spec_bytes(), input@[pos as int])
                is None,
        },
{
    if pos >= input.len() {
        return None;
    }
    let b = input[pos];
    let members = set.as_bytes();
    let n = members.len();
    let mut k: usize = 0;
    assert(members@.skip(0) =~= members@);
    while k < n
        invariant
            members@ == set.spec_bytes(),
            n == members@.len(),
            k <= n,
            pos < input@.len() <= usize::MAX,
            b == input@[pos as int],
            match position_in(members@.skip(k as int), b) {
                Some(i) => position_in(members@, b) == Some(i + k as nat),
                None => position_in(members@, b) is None,
            },
        decreases n - k,
    {
        assert(members@.skip(k as int).drop_first() =~= members@.skip(k + 1));
        if members[k] == b {
            assert(members@.skip(k as int)[0] == b);
            return Some(k);
        }
        k = k + 1;
    }
    None
}

/// Skipping white space never moves backwards.
pub proof fn lemma_after_multispace_bounds(input: Seq<u8>, pos: nat)
    ensures
        pos <= after_multispace(input, pos),
    decreases input.len() - pos,
{
    if pos < input.len() && is_multispace(input[pos as int]) {
        lemma_after_multispace_bounds(input, pos + 1);
    }
}

/// The position of a byte that `set` holds lies in `set`.
pub proof fn lemma_position_in_bounds(set: Seq<u8>, b: u8)
    ensures
        position_in(set, b) matches Some(k) ==> k < set.len() && set[k as int] == b,
    decreases set.len(),
{
    if set.len() > 0 && set[0] != b {
        lemma_position_in_bounds(set.drop_first(), b);
    }
}

/// The alphabet is written in ASCII, one byte for each letter.
pub proof fn lemma_alphabet_is_ascii()
    ensures
        vstd::string::is_ascii(ALPHABET),
        ALPHABET.spec_bytes().len() == ALPHABET@.len(),
        ALPHABET@.len() == 26,
        forall|k: int| 0 <= k < 26 ==> #[trigger] ALPHABET.spec_bytes()[k] < 128,
{
    broadcast use vstd::string::group_string_axioms;

    reveal_strlit("abcdefghijklmnopqrstuvwxyz");
}

/// Matches a letter of the alphabet at `pos` and returns it as a name.
pub fn letter(input: &[u8], pos: usize) -> (r: Option<(String, usize)>)
    ensures
        match r {
            Some((name, end)) => letter_at(input@, pos as nat) == Some((name@, end as nat)),
            None => letter_at(input@, pos as nat) is None,
        },
{
    match one_of(input, pos, ALPHABET) {
        Some(k) => {
            proof {
                lemma_alphabet_is_ascii();
                lemma_position_in_bounds(ALPHABET.spec_bytes(), input@[pos as int]);
            }
            let name = String::from_str(ALPHABET.substring_ascii(k, k + 1));
            Some((name, pos + 1))
        },
        None => None,
    }
}

/// A letter takes one ASCII byte.
pub proof fn lemma_letter_end(input: Seq<u8>, pos: nat)
    ensures
        letter_at(input, pos) matches Some((_, end)) ==> end == pos + 1 && ends_on_ascii(
            input,
            end,
        ),
{
    if pos < input.len() {
        lemma_alphabet_is_ascii();
        lemma_position_in_bounds(ALPHABET.spec_bytes(), input[pos as int]);
    }
}

} // verus!
