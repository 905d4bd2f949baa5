use lambda_calculi::misc::ALPHABET;
use lambda_calculi::scan::{digit, letter, multispace0, one_of, space1, tag, tag_no_case, to_lower};
use lambda_calculi::untyped_arith::parser::{parse_numeric, Term};
use nom::bytes::complete::{tag as nom_tag, tag_no_case as nom_tag_no_case};
use nom::character::complete::{
    multispace0 as nom_multispace0, one_of as nom_one_of, space1 as nom_space1,
};
use nom::error::Error as NomError;
use nom::multi::many_m_n;

/// Every word that one of the grammars matches.
fn words() -> Vec<&'static str> {
    vec![
        "true", "false", "0", "succ", "pred", "iszero", "(", ")", ";", "if", "if ", " then ",
        " else ", "then", "else", "lambda ", ":", ".", "->", "Bool", "Nat",
    ]
}

/// Texts with the words in several cases, cut short, and with characters
/// outside ASCII that look like or fold to ASCII letters.
fn texts() -> Vec<&'static str> {
    vec![
        "",
        "true",
        "TRUE;",
        "tRuE false",
        "tru",
        "truth",
        "FALSE",
        "fals\u{e9}",
        "0",
        "00",
        "\u{ff10}",
        "succ(0)",
        "SUCC(0)",
        "Succ",
        "\u{17f}ucc(0)",
        "pred(pred(0))",
        "PRED",
        "iszero(0)",
        "IsZero(1)",
        "\u{130}szero(0)",
        "\u{131}szero(0)",
        "if true then 0 else 1",
        "IF TRUE THEN 0 ELSE 1",
        "if\ttrue",
        "i\u{e9}",
        " then ",
        " THEN x",
        "  then ",
        " else ",
        " Else 0",
        "lambda x.x",
        "LAMBDA x.x",
        "lambda\tx",
        "\u{3bb}x.x",
        "(x y)",
        ");",
        ";",
        ":Bool",
        "\u{ff1a}Bool",
        ".x",
        "->Nat",
        "-\u{3e}",
        "\u{2192}Nat",
        "Bool->Nat",
        "bool",
        "BOOL",
        "Nat.",
        "NAT",
        "\u{212a}",
        "k",
        "\u{e9}t\u{e9}",
        " \t\r\n x",
        "\t\t",
        "\u{a0}x",
        "\u{2003}x",
        "x\u{301}",
        "abc",
        "Zz",
        "\u{1f600}",
    ]
}

/// The byte offsets of `text` at which a character begins, and its end.
fn boundaries(text: &str) -> Vec<usize> {
    (0..=text.len()).filter(|&i| text.is_char_boundary(i)).collect()
}

#[test]
fn words_are_matched_as_by_nom_tag() {
    for text in texts() {
        for pos in boundaries(text) {
            for word in words() {
                let mine = tag(text.as_bytes(), pos, word);
                let theirs = nom_tag::<&str, &str, NomError<&str>>(word)(&text[pos..]);
                match theirs {
                    Ok((rest, matched)) => {
                        assert_eq!(matched, word);
                        assert_eq!(mine, Some(text.len() - rest.len()), "{:?} {:?}", text, word);
                    }
                    Err(_) => assert_eq!(mine, None, "{:?} {:?}", text, word),
                }
            }
        }
    }
}

#[test]
fn words_are_matched_without_case_as_by_nom_tag_no_case() {
    for text in texts() {
        for pos in boundaries(text) {
            for word in words() {
                let mine = tag_no_case(text.as_bytes(), pos, word);
                let theirs = nom_tag_no_case::<&str, &str, NomError<&str>>(word)(&text[pos..]);
                match theirs {
                    Ok((rest, _)) => {
                        assert_eq!(mine, Some(text.len() - rest.len()), "{:?} {:?}", text, word)
                    }
                    Err(_) => assert_eq!(mine, None, "{:?} {:?}", text, word),
                }
            }
        }
    }
}

#[test]
fn letters_are_matched_as_by_nom_one_of() {
    for text in texts() {
        for pos in boundaries(text) {
            let theirs = nom_one_of::<&str, &str, NomError<&str>>(ALPHABET)(&text[pos..]);
            let index = one_of(text.as_bytes(), pos, ALPHABET);
            let named = letter(text.as_bytes(), pos);
            match theirs {
                Ok((rest, c)) => {
                    assert_eq!(text.len() - rest.len(), pos + 1);
                    let k = index.unwrap();
                    assert_eq!(ALPHABET.as_bytes()[k] as char, c);
                    assert_eq!(named, Some((c.to_string(), pos + 1)));
                }
                Err(_) => {
                    assert_eq!(index, None, "{:?} at {}", text, pos);
                    assert_eq!(named, None);
                }
            }
        }
    }
}

#[test]
fn white_space_is_skipped_as_by_nom() {
    for text in texts() {
        for pos in boundaries(text) {
            let (rest, _) = nom_multispace0::<&str, NomError<&str>>(&text[pos..]).unwrap();
            assert_eq!(multispace0(text.as_bytes(), pos), text.len() - rest.len());
            let mine = space1(text.as_bytes(), pos);
            match nom_space1::<&str, NomError<&str>>(&text[pos..]) {
                Ok((rest, _)) => assert_eq!(mine, Some(text.len() - rest.len())),
                Err(_) => assert_eq!(mine, None),
            }
        }
    }
}

fn numeral(n: u32) -> Term {
    let mut t = Term::TmZero;
    for _ in 0..n {
        t = Term::TmSucc(Box::new(t));
    }
    t
}

#[test]
fn numbers_are_read_as_up_to_three_digits_by_nom() {
    let texts = vec![
        "", "0", "00", "000", "7", "07", "42", "255", "256", "260", "300", "999", "0255", "1234",
        "12a", "1 2", "a1", "\u{663}", "9\u{663}", "25\u{ff15}", "-1", "+1", "001x",
    ];
    for text in texts {
        let mut digits = many_m_n(
            1,
            3,
            nom_one_of::<&str, &str, NomError<&str>>("0123456789"),
        );
        let expected = match digits(text) {
            Ok((rest, found)) => {
                let written: String = found.into_iter().collect();
                match written.parse::<u8>() {
                    Ok(n) => Some((numeral(std::cmp::max(n as u32, 1)), text.len() - rest.len())),
                    Err(_) => None,
                }
            }
            Err(_) => None,
        };
        assert_eq!(parse_numeric(text.as_bytes(), 0), expected, "{:?}", text);
    }
}

#[test]
fn digits_and_case_folding() {
    for b in 0..=255u8 {
        let c = b as char;
        assert_eq!(
            digit(&[b], 0),
            if c.is_ascii_digit() { Some(b - b'0') } else { None }
        );
        assert_eq!(to_lower(b), b.to_ascii_lowercase());
    }
    assert_eq!(digit(&[b'1'], 1), None);
    assert_eq!(tag(b"abc", 4, "a"), None);
    assert_eq!(tag(b"abc", 3, "a"), None);
    assert_eq!(tag_no_case(b"abc", usize::MAX, "a"), None);
    assert_eq!(one_of(b"abc", 3, ALPHABET), None);
}
