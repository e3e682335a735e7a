use nom::bytes::complete::{tag as nom_tag, tag_no_case, take_while1};
use nom::character::complete::{multispace0, multispace1};
use nom::error::Error;
use nom::AsChar;
use spdx_expression::lexer::{idstring, keyword, skip_spaces, spaces1, tag};

const SAMPLES: [&str; 24] = [
    "",
    "MIT",
    "GPL-2.0+",
    "GPL-2.0-only WITH Classpath-exception-2.0",
    "DocumentRef-SPDX-DOC:LicenseRef-New-license-1.0",
    "LicenseRef-",
    "  a \t\r\n b  ",
    "a\u{c}b \u{b}c",
    "a\u{a0}b\u{2003}c",
    "(MIT AND (ISC))",
    "a_b a/b a:b a,b a;b",
    "AND and And aND OR or Or oR WITH with With wiTH",
    "ANDROID ORACLE WITHIN",
    "AN O WIT A",
    "\u{c5}ND \u{d6}R W\u{130}TH w\u{131}th",
    "caf\u{e9} \u{e9}cole na\u{ef}ve",
    "\u{391}\u{3b2}\u{3b3} \u{4e2d}\u{6587} \u{1f600}",
    "\u{ff21}\u{ff2e}\u{ff24} \u{ff10}\u{ff11}",
    "0123456789",
    "abcdefghijklmnopqrstuvwxyz",
    "ABCDEFGHIJKLMNOPQRSTUVWXYZ",
    "-.-.",
    " !\"#$%&'()*+,-./:;<=>?@[\\]^_`{|}~",
    "\u{0}\u{1}\u{7f}\u{80}\u{ff}",
];

/// For each position of `text`, counted in characters: the text from there
/// on, and the characters of the whole text.
fn positions(text: &str) -> (Vec<char>, Vec<&str>) {
    let chars: Vec<char> = text.chars().collect();
    let mut rests: Vec<&str> = text.char_indices().map(|(at, _)| &text[at..]).collect();
    rests.push("");
    (chars, rests)
}

/// The number of characters that `rest` has less than `from`.
fn consumed(from: &str, rest: &str) -> usize {
    from.chars().count() - rest.chars().count()
}

#[test]
fn idstring_agrees_with_take_while1() {
    for text in SAMPLES {
        let (chars, rests) = positions(text);
        for (pos, from) in rests.iter().enumerate() {
            let expected = take_while1::<_, _, Error<&str>>(|c: char| {
                c.is_alphanum() || c == '-' || c == '.'
            })(*from)
            .ok()
            .map(|(rest, _)| pos + consumed(from, rest));
            assert_eq!(idstring(&chars, pos), expected, "{:?} at {}", text, pos);
        }
    }
}

#[test]
fn skip_spaces_agrees_with_multispace0() {
    for text in SAMPLES {
        let (chars, rests) = positions(text);
        for (pos, from) in rests.iter().enumerate() {
            let (rest, _) = multispace0::<_, Error<&str>>(*from).unwrap();
            assert_eq!(
                skip_spaces(&chars, pos),
                pos + consumed(from, rest),
                "{:?} at {}",
                text,
                pos
            );
        }
    }
}

#[test]
fn spaces1_agrees_with_multispace1() {
    for text in SAMPLES {
        let (chars, rests) = positions(text);
        for (pos, from) in rests.iter().enumerate() {
            let expected = multispace1::<_, Error<&str>>(*from)
                .ok()
                .map(|(rest, _)| pos + consumed(from, rest));
            assert_eq!(spaces1(&chars, pos), expected, "{:?} at {}", text, pos);
        }
    }
}

#[test]
fn tag_agrees_with_tag() {
    for literal in ["DocumentRef-", "LicenseRef-", "(", ")", ":", "+", "a", ""] {
        for text in SAMPLES {
            let (chars, rests) = positions(text);
            for (pos, from) in rests.iter().enumerate() {
                let expected = nom_tag::<_, _, Error<&str>>(literal)(*from)
                    .ok()
                    .map(|(rest, _)| pos + consumed(from, rest));
                assert_eq!(
                    tag(&chars, pos, literal),
                    expected,
                    "{:?} in {:?} at {}",
                    literal,
                    text,
                    pos
                );
            }
        }
    }
}

#[test]
fn keyword_agrees_with_tag_no_case() {
    for (upper, lower) in [("AND", "and"), ("OR", "or"), ("WITH", "with")] {
        for text in SAMPLES {
            let (chars, rests) = positions(text);
            for (pos, from) in rests.iter().enumerate() {
                let expected = tag_no_case::<_, _, Error<&str>>(upper)(*from)
                    .ok()
                    .map(|(rest, _)| pos + consumed(from, rest));
                assert_eq!(
                    keyword(&chars, pos, upper, lower),
                    expected,
                    "{:?} in {:?} at {}",
                    upper,
                    text,
                    pos
                );
            }
        }
    }
}
