//! The grammar of license expressions.
//!
//! Every recognizer is a function of a text and a position in it. It yields
//! what it recognizes at that position together with the position just
//! behind, or nothing; it never looks at what lies before the position.
//!
//! ```text
//! expr      := term (WS+ "OR" WS+ term)*
//! term      := factor (WS+ "AND" WS+ factor)*
//! factor    := with_expr | simple | "(" WS* expr WS* ")"
//! with_expr := simple WS+ "WITH" WS+ idstring
//! simple    := license_ref | license_idstring
//! ```
//!
//! Alternatives are tried in the order written and the first that succeeds
//! is taken. The keywords are matched without regard to case.
//!
//! Where a function goes on behind what another has read, it first tests
//! that the position has moved on and lies in the text. The test always
//! passes, as [`crate::wellformed`] shows; it stands there so that the
//! recursion is seen to end.

use crate::inner_variant::{SimpleExpressionView, WithExpressionView};
use crate::parser::ExpressionView;
use crate::text::{is_id_char, is_space};
use vstd::prelude::*;

verus! {

/// The literal that opens a document reference.
pub open spec fn document_ref_tag() -> Seq<char> {
    "DocumentRef-"@
}

/// The literal that opens a license reference.
pub open spec fn license_ref_tag() -> Seq<char> {
    "LicenseRef-"@
}

/// The end of the longest run of identifier characters that starts at `pos`.
pub open spec fn id_end(s: Seq<char>, pos: int) -> int
    decreases s.len() - pos,
{
    if 0 <= pos < s.len() && is_id_char(s[pos]) {
        id_end(s, pos + 1)
    } else {
        pos
    }
}

/// The end of the longest run of whitespace that starts at `pos`.
pub open spec fn spaces_end(s: Seq<char>, pos: int) -> int
    decreases s.len() - pos,
{
    if 0 <= pos < s.len() && is_space(s[pos]) {
        spaces_end(s, pos + 1)
    } else {
        pos
    }
}

/// One or more whitespace characters.
pub open spec fn spaces1(s: Seq<char>, pos: int) -> Option<int> {
    if spaces_end(s, pos) > pos {
        Some(spaces_end(s, pos))
    } else {
        None
    }
}

/// One or more identifier characters.
pub open spec fn idstring(s: Seq<char>, pos: int) -> Option<int> {
    if id_end(s, pos) > pos {
        Some(id_end(s, pos))
    } else {
        None
    }
}

/// An identifier, and the `+` that directly follows it if there is one.
pub open spec fn license_idstring(s: Seq<char>, pos: int) -> Option<int> {
    match idstring(s, pos) {
        Some(e) => if e < s.len() && s[e] == '+' {
            Some(e + 1)
        } else {
            Some(e)
        },
        None => None,
    }
}

/// The literal `lit`, character for character.
pub open spec fn tag(s: Seq<char>, pos: int, lit: Seq<char>) -> Option<int> {
    if 0 <= pos && pos + lit.len() <= s.len() && s.subrange(pos, pos + lit.len()) == lit {
        Some(pos + lit.len())
    } else {
        None
    }
}

/// `word` is `upper` in some mix of upper and lower case, `lower` being
/// `upper` in lower case: at each place `word` has the character of the one
/// or of the other.
pub open spec fn spells(word: Seq<char>, upper: Seq<char>, lower: Seq<char>) -> bool {
    &&& word.len() == upper.len()
    &&& lower.len() == upper.len()
    &&& forall|i: int| 0 <= i < word.len() ==> word[i] == upper[i] || word[i] == #[trigger] lower[i]
}

/// The keyword `upper`, in any mix of upper and lower case.
pub open spec fn keyword(s: Seq<char>, pos: int, upper: Seq<char>, lower: Seq<char>) -> Option<
    int,
> {
    if 0 <= pos && pos + upper.len() <= s.len() && spells(
        s.subrange(pos, pos + upper.len()),
        upper,
        lower,
    ) {
        Some(pos + upper.len())
    } else {
        None
    }
}

/// A keyword with whitespace on both sides; yields where its right operand
/// starts.
pub open spec fn operator(s: Seq<char>, pos: int, upper: Seq<char>, lower: Seq<char>) -> Option<
    int,
> {
    match spaces1(s, pos) {
        Some(a) => match keyword(s, a, upper, lower) {
            Some(b) => spaces1(s, b),
            None => None,
        },
        None => None,
    }
}

/// `DocumentRef-`, an identifier and `:`; yields the identifier.
pub open spec fn document_ref(s: Seq<char>, pos: int) -> Option<(Seq<char>, int)> {
    match tag(s, pos, document_ref_tag()) {
        Some(a) => match idstring(s, a) {
            Some(b) => if b < s.len() && s[b] == ':' {
                Some((s.subrange(a, b), b + 1))
            } else {
                None
            },
            None => None,
        },
        None => None,
    }
}

/// An optional document reference, `LicenseRef-` and an identifier; yields
/// the document's identifier, if any, and the license's.
pub open spec fn license_ref(s: Seq<char>, pos: int) -> Option<
    (Option<Seq<char>>, Seq<char>, int),
> {
    let (doc, a) = match document_ref(s, pos) {
        Some((d, a)) => (Some(d), a),
        None => (None, pos),
    };
    match tag(s, a, license_ref_tag()) {
        Some(b) => match idstring(s, b) {
            Some(c) => Some((doc, s.subrange(b, c), c)),
            None => None,
        },
        None => None,
    }
}

/// A license reference or, failing that, a license id with its optional `+`.
pub open spec fn simple_license_expression(s: Seq<char>, pos: int) -> Option<
    (SimpleExpressionView, int),
> {
    match license_ref(s, pos) {
        Some((doc, id, e)) => Some(
            (SimpleExpressionView { identifier: id, document_ref: doc, license_ref: true }, e),
        ),
        None => match license_idstring(s, pos) {
            Some(e) => Some(
                (
                    SimpleExpressionView {
                        identifier: s.subrange(pos, e),
                        document_ref: None,
                        license_ref: false,
                    },
                    e,
                ),
            ),
            None => None,
        },
    }
}

/// A license, the keyword `WITH` and the identifier of an exception.
pub open spec fn with_expression(s: Seq<char>, pos: int) -> Option<(ExpressionView, int)> {
    match simple_license_expression(s, pos) {
        Some((license, a)) => match operator(s, a, "WITH"@, "with"@) {
            Some(b) => match idstring(s, b) {
                Some(c) => Some(
                    (
                        ExpressionView::With(
                            WithExpressionView { license, exception: s.subrange(b, c) },
                        ),
                        c,
                    ),
                ),
                None => None,
            },
            None => None,
        },
        None => None,
    }
}

/// An expression between `(` and `)`, with optional whitespace inside the
/// parentheses.
pub open spec fn parens(s: Seq<char>, pos: int) -> Option<(ExpressionView, int)>
    decreases s.len() - pos, 0int,
{
    if 0 <= pos < s.len() && s[pos] == '(' {
        let a = spaces_end(s, pos + 1);
        if pos < a <= s.len() {
            match expr(s, a) {
                Some((inner, b)) => {
                    let c = spaces_end(s, b);
                    if 0 <= c < s.len() && s[c] == ')' {
                        Some((ExpressionView::Parens(Box::new(inner)), c + 1))
                    } else {
                        None
                    }
                },
                None => None,
            }
        } else {
            None
        }
    } else {
        None
    }
}

/// A license with an exception, a license alone, or an expression in
/// parentheses.
pub open spec fn factor(s: Seq<char>, pos: int) -> Option<(ExpressionView, int)>
    decreases s.len() - pos, 1int,
{
    match with_expression(s, pos) {
        Some(r) => Some(r),
        None => match simple_license_expression(s, pos) {
            Some((license, e)) => Some((ExpressionView::Simple(license), e)),
            None => parens(s, pos),
        },
    }
}

/// The operands joined to `left` by `AND`, folded onto it from the left.
pub open spec fn and_tail(s: Seq<char>, pos: int, left: ExpressionView) -> (ExpressionView, int)
    decreases s.len() - pos, 2int,
{
    match operator(s, pos, "AND"@, "and"@) {
        Some(a) => if pos < a <= s.len() {
            match factor(s, a) {
                Some((right, b)) => if a < b <= s.len() {
                    and_tail(s, b, ExpressionView::And(Box::new(left), Box::new(right)))
                } else {
                    (left, pos)
                },
                None => (left, pos),
            }
        } else {
            (left, pos)
        },
        None => (left, pos),
    }
}

/// Factors joined by `AND`.
pub open spec fn term(s: Seq<char>, pos: int) -> Option<(ExpressionView, int)>
    decreases s.len() - pos, 3int,
{
    match factor(s, pos) {
        Some((first, a)) => if pos <= a <= s.len() {
            Some(and_tail(s, a, first))
        } else {
            None
        },
        None => None,
    }
}

/// The operands joined to `left` by `OR`, folded onto it from the left.
pub open spec fn or_tail(s: Seq<char>, pos: int, left: ExpressionView) -> (ExpressionView, int)
    decreases s.len() - pos, 4int,
{
    match operator(s, pos, "OR"@, "or"@) {
        Some(a) => if pos < a <= s.len() {
            match term(s, a) {
                Some((right, b)) => if a < b <= s.len() {
                    or_tail(s, b, ExpressionView::Or(Box::new(left), Box::new(right)))
                } else {
                    (left, pos)
                },
                None => (left, pos),
            }
        } else {
            (left, pos)
        },
        None => (left, pos),
    }
}

/// Terms joined by `OR`.
pub open spec fn expr(s: Seq<char>, pos: int) -> Option<(ExpressionView, int)>
    decreases s.len() - pos, 5int,
{
    match term(s, pos) {
        Some((first, a)) => if pos <= a <= s.len() {
            Some(or_tail(s, a, first))
        } else {
            None
        },
        None => None,
    }
}

/// An expression with optional whitespace before and behind it.
pub open spec fn spdx_expression(s: Seq<char>, pos: int) -> Option<(ExpressionView, int)> {
    match expr(s, spaces_end(s, pos)) {
        Some((e, a)) => Some((e, spaces_end(s, a))),
        None => None,
    }
}

/// The expression that the whole of `s` spells, if it spells one.
pub open spec fn parse(s: Seq<char>) -> Option<ExpressionView> {
    match spdx_expression(s, 0) {
        Some((e, a)) => if a == s.len() {
            Some(e)
        } else {
            None
        },
        None => None,
    }
}

} // verus!
