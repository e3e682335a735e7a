use spdx_expression::licenses::{ascii_whitespace, compare, insert_sorted, license_list, Order};

const TEXTS: [&str; 16] = [
    "",
    " ",
    "MIT",
    "MIT OR Apache-2.0",
    "(MIT OR Apache-2.0 AND (GPL-2.0-only WITH Classpath-exception-2.0 OR ISC))",
    "b a b a (a) ((b)) a) (b",
    "AND OR WITH and or with (AND) OR) (WITH",
    "() (( )) ( ) a()b",
    "a\tb\nc\rd\u{c}e\u{b}f\u{a0}g",
    "  leading and trailing  ",
    "\u{e9} z a \u{fc} (b) \u{10000} \u{ffff} Z",
    "ab a abc a-b a.b a+ A0 0A",
    "DocumentRef-d:LicenseRef-a LicenseRef-b GPL-2.0+",
    "x AND x AND (x) AND ((x)) WITH x",
    "ANDOR ORAND WITHAND A ND",
    "\u{1f600} \u{1f600}( )\u{1f600} \u{e000}",
];

fn chars(text: &str) -> Vec<char> {
    text.chars().collect()
}

fn sorted_tokens(text: &str) -> Vec<String> {
    let words = text.split_ascii_whitespace();
    let words = words.filter(|&word| word != "OR" && word != "AND" && word != "WITH");
    let mut tokens: Vec<String> = words
        .map(|word| word.replace('(', "").replace(')', ""))
        .collect();
    tokens.sort_unstable();
    tokens.dedup();
    tokens
}

#[test]
fn license_list_is_the_sorted_set_of_tokens() {
    for text in TEXTS {
        assert_eq!(license_list(&chars(text)), sorted_tokens(text), "{:?}", text);
    }
}

#[test]
fn license_list_of_chosen_texts() {
    assert_eq!(license_list(&chars("")), Vec::<String>::new());
    assert_eq!(license_list(&chars("AND OR WITH")), Vec::<String>::new());
    assert_eq!(license_list(&chars("b (a) b OR a")), ["a", "b"]);
    assert_eq!(license_list(&chars("()")), [""]);
    assert_eq!(license_list(&chars("(AND)")), ["AND"]);
    assert_eq!(license_list(&chars("and")), ["and"]);
}

#[test]
fn compare_is_the_order_of_strings() {
    let words: Vec<&str> = TEXTS
        .iter()
        .flat_map(|text| text.split(' '))
        .collect();
    for a in &words {
        for b in &words {
            let expected = if a < b {
                Order::Before
            } else if a == b {
                Order::Same
            } else {
                Order::After
            };
            assert_eq!(compare(&chars(a), &chars(b)), expected, "{:?} {:?}", a, b);
        }
    }
}

#[test]
fn compare_of_chosen_texts() {
    assert_eq!(compare(&chars(""), &chars("")), Order::Same);
    assert_eq!(compare(&chars(""), &chars("a")), Order::Before);
    assert_eq!(compare(&chars("a"), &chars("")), Order::After);
    assert_eq!(compare(&chars("ab"), &chars("b")), Order::Before);
    assert_eq!(compare(&chars("ab"), &chars("abc")), Order::Before);
    assert_eq!(compare(&chars("Z"), &chars("a")), Order::Before);
    assert_eq!(compare(&chars("\u{ffff}"), &chars("\u{10000}")), Order::Before);
}

#[test]
fn insert_sorted_keeps_the_list_ascending_and_free_of_repetitions() {
    let mut list: Vec<Vec<char>> = Vec::new();
    for word in ["m", "a", "z", "m", "aa", "", "a", "z", "b"] {
        insert_sorted(&mut list, chars(word));
    }
    let list: Vec<String> = list.iter().map(|word| word.iter().collect()).collect();
    assert_eq!(list, ["", "a", "aa", "b", "m", "z"]);
}

#[test]
fn ascii_whitespace_is_what_the_standard_library_says() {
    for code in 0..=0x2100u32 {
        if let Some(c) = char::from_u32(code) {
            assert_eq!(ascii_whitespace(c), c.is_ascii_whitespace(), "{:?}", c);
        }
    }
}
