//! Lexical recognizers: identifiers, literals, keywords, whitespace and the
//! composite `DocumentRef-`/`LicenseRef-` syntax.
//!
//! Each one reads `input` from `pos` on and yields what it recognized with
//! the position just behind it, or `None`, as [`crate::grammar`] defines.

use crate::grammar;
use crate::inner_variant::SimpleExpression;
use crate::text::{id_char, space, string_of};
use crate::wellformed::lemma_simple_well_formed;
use vstd::prelude::*;
use vstd::string::StrSliceExecFns;

verus! {

/// Skips whitespace; yields the position of the first character behind it.
pub fn skip_spaces(input: &[char], pos: usize) -> (end: usize)
    ensures
        end == grammar::spaces_end(input@, pos as int),
        pos <= end,
        end <= input@.len() || end == pos,
{
    let mut i: usize = pos;
    while i < input.len() && space(input[i])
        invariant
            pos <= i,
            i <= input@.len() || i == pos,
            grammar::spaces_end(input@, pos as int) == grammar::spaces_end(input@, i as int),
        decreases input@.len() - i,
    {
        i += 1;
    }
    i
}

/// One or more whitespace characters.
pub fn spaces1(input: &[char], pos: usize) -> (r: Option<usize>)
    ensures
        match grammar::spaces1(input@, pos as int) {
            Some(e) => r matches Some(n) && n == e && pos < e <= input@.len(),
            None => r is None,
        },
{
    let end = skip_spaces(input, pos);
    if end > pos {
        Some(end)
    } else {
        None
    }
}

/// One or more identifier characters.
pub fn idstring(input: &[char], pos: usize) -> (r: Option<usize>)
    ensures
        match grammar::idstring(input@, pos as int) {
            Some(e) => r matches Some(n) && n == e && pos < e <= input@.len(),
            None => r is None,
        },
{
    let mut i: usize = pos;
    while i < input.len() && id_char(input[i])
        invariant
            pos <= i,
            i <= input@.len() || i == pos,
            grammar::id_end(input@, pos as int) == grammar::id_end(input@, i as int),
        decreases input@.len() - i,
    {
        i += 1;
    }
    if i > pos {
        Some(i)
    } else {
        None
    }
}

/// An identifier, and the `+` that directly follows it if there is one.
pub fn license_idstring(input: &[char], pos: usize) -> (r: Option<usize>)
    ensures
        match grammar::license_idstring(input@, pos as int) {
            Some(e) => r matches Some(n) && n == e && pos < e <= input@.len(),
            None => r is None,
        },
{
    match idstring(input, pos) {
        Some(end) => if end < input.len() && input[end] == '+' {
            Some(end + 1)
        } else {
            Some(end)
        },
        None => None,
    }
}

/// The literal `lit`, character for character.
pub fn tag(input: &[char], pos: usize, lit: &str) -> (r: Option<usize>)
    ensures
        match grammar::tag(input@, pos as int, lit@) {
            Some(e) => r matches Some(n) && n == e && pos <= e <= input@.len(),
            None => r is None,
        },
{
    let mut i: usize = pos;
    for c in it: lit.chars()
        invariant
            it.seq() == lit@,
            i == pos + it.index(),
            i <= input@.len() || it.index() == 0,
            i <= input@.len() ==> input@.subrange(pos as int, i as int) == lit@.take(
                it.index() as int,
            ),
    {
        if i >= input.len() || input[i] != c {
            proof {
                let k = it.index() as int;
                if pos + lit@.len() <= input@.len() {
                    assert(input@.subrange(pos as int, pos + lit@.len())[k] != lit@[k]);
                }
            }
            return None;
        }
        proof {
            let k = it.index() as int;
            assert(input@.subrange(pos as int, i + 1) =~= lit@.take(k + 1));
        }
        i += 1;
    }
    proof {
        assert(lit@.take(lit@.len() as int) =~= lit@);
    }
    if i <= input.len() {
        Some(i)
    } else {
        None
    }
}

/// The keyword `upper`, in any mix of upper and lower case; `lower` is
/// `upper` in lower case.
pub fn keyword(input: &[char], pos: usize, upper: &str, lower: &str) -> (r: Option<usize>)
    ensures
        match grammar::keyword(input@, pos as int, upper@, lower@) {
            Some(e) => r matches Some(n) && n == e && pos <= e <= input@.len(),
            None => r is None,
        },
{
    let n = upper.unicode_len();
    if lower.unicode_len() != n || pos > input.len() || n > input.len() - pos {
        return None;
    }
    let ghost word = input@.subrange(pos as int, pos + n);
    let mut k: usize = 0;
    while k < n
        invariant
            k <= n,
            n == upper@.len(),
            n == lower@.len(),
            pos + n <= input@.len() <= usize::MAX,
            word == input@.subrange(pos as int, pos + n),
            forall|i: int| 0 <= i < k ==> word[i] == upper@[i] || word[i] == #[trigger] lower@[i],
        decreases n - k,
    {
        let c = input[pos + k];
        if c != upper.get_char(k) && c != lower.get_char(k) {
            proof {
                assert(word[k as int] == c);
                assert(!(word[k as int] == upper@[k as int] || word[k as int] == lower@[k as int]));
            }
            return None;
        }
        proof {
            assert(word[k as int] == c);
        }
        k += 1;
    }
    Some(pos + n)
}

/// A keyword with whitespace on both sides; yields where its right operand
/// starts.
pub fn operator(input: &[char], pos: usize, upper: &str, lower: &str) -> (r: Option<usize>)
    ensures
        match grammar::operator(input@, pos as int, upper@, lower@) {
            Some(e) => r matches Some(n) && n == e && pos < e <= input@.len(),
            None => r is None,
        },
{
    match spaces1(input, pos) {
        Some(a) => match keyword(input, a, upper, lower) {
            Some(b) => spaces1(input, b),
            None => None,
        },
        None => None,
    }
}

/// `DocumentRef-`, an identifier and `:`; yields the identifier.
pub fn document_ref(input: &[char], pos: usize) -> (r: Option<(String, usize)>)
    ensures
        match grammar::document_ref(input@, pos as int) {
            Some((id, e)) => r matches Some((x, n)) && x@ == id && n == e && pos < e
                <= input@.len(),
            None => r is None,
        },
{
    match tag(input, pos, "DocumentRef-") {
        Some(a) => match idstring(input, a) {
            Some(b) => if b < input.len() && input[b] == ':' {
                Some((string_of(input, a, b), b + 1))
            } else {
                None
            },
            None => None,
        },
        None => None,
    }
}

/// An optional document reference, `LicenseRef-` and an identifier; yields
/// the document's identifier, if any, and the license's.
pub fn license_ref(input: &[char], pos: usize) -> (r: Option<((Option<String>, String), usize)>)
    ensures
        match grammar::license_ref(input@, pos as int) {
            Some((doc, id, e)) => r matches Some(((d, x), n)) && crate::inner_variant::option_view(
                d,
            ) == doc && x@ == id && n == e && pos < e <= input@.len(),
            None => r is None,
        },
{
    let (doc, a) = match document_ref(input, pos) {
        Some((d, a)) => (Some(d), a),
        None => (None, pos),
    };
    match tag(input, a, "LicenseRef-") {
        Some(b) => match idstring(input, b) {
            Some(c) => Some(((doc, string_of(input, b, c)), c)),
            None => None,
        },
        None => None,
    }
}

/// A license reference or, failing that, a license id with its optional `+`.
/// The license is well formed.
pub fn simple_license_expression(input: &[char], pos: usize) -> (r: Option<
    (SimpleExpression, usize),
>)
    ensures
        match grammar::simple_license_expression(input@, pos as int) {
            Some((v, e)) => r matches Some((x, n)) && x@ == v && n == e && pos < e
                <= input@.len() && v.well_formed(),
            None => r is None,
        },
{
    proof {
        if pos <= input@.len() {
            lemma_simple_well_formed(input@, pos as int);
        }
    }
    match license_ref(input, pos) {
        Some(((doc, id), end)) => Some((SimpleExpression::new(id, doc, true), end)),
        None => match license_idstring(input, pos) {
            Some(end) => Some(
                (SimpleExpression::new(string_of(input, pos, end), None, false), end),
            ),
            None => None,
        },
    }
}

} // verus!
