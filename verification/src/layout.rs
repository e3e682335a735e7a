//! The ways of writing a tree as text.
//!
//! A tree fixes the identifiers and the structure of its text. What is left
//! open is how much whitespace stands around each keyword and inside each
//! pair of parentheses, and the case in which each keyword is written. A
//! [`Layout`] records these choices.

use crate::grammar::spells;
use crate::parser::ExpressionView;
use crate::render::{render, render_simple};
use crate::text::is_space;
use vstd::prelude::*;

verus! {

/// The whitespace and the keyword spellings of one text of a tree.
pub enum Layout {
    /// A license alone.
    Leaf,
    /// A license with an exception: the whitespace before the keyword, the
    /// keyword as written, and the whitespace behind it.
    With { before: Seq<char>, keyword: Seq<char>, after: Seq<char> },
    /// Two operands joined by `AND` or `OR`: their own layouts, and between
    /// them the whitespace before the keyword, the keyword as written, and
    /// the whitespace behind it.
    Binary {
        left: Box<Layout>,
        before: Seq<char>,
        keyword: Seq<char>,
        after: Seq<char>,
        right: Box<Layout>,
    },
    /// An expression in parentheses: the whitespace behind `(`, the layout
    /// of the expression, and the whitespace before `)`.
    Parens { before: Seq<char>, inner: Box<Layout>, after: Seq<char> },
}

/// Whitespace only, possibly none.
pub open spec fn is_spaces(w: Seq<char>) -> bool {
    forall|i: int| 0 <= i < w.len() ==> is_space(#[trigger] w[i])
}

/// Whitespace only, at least one character.
pub open spec fn is_gap(w: Seq<char>) -> bool {
    w.len() > 0 && is_spaces(w)
}

/// `c` in upper case, if it is an ASCII letter; else `c`.
pub open spec fn to_upper(c: char) -> char {
    if 'a' <= c && c <= 'z' {
        ((c as int) - 32) as char
    } else {
        c
    }
}

/// `word` with its ASCII letters in upper case.
pub open spec fn upper_case(word: Seq<char>) -> Seq<char> {
    word.map_values(|c: char| to_upper(c))
}

/// The layout has the shape of the tree, at least one whitespace character
/// on each side of every keyword, and every keyword spelled in some mix of
/// upper and lower case.
pub open spec fn fits(e: ExpressionView, layout: Layout) -> bool
    decreases e,
{
    match e {
        ExpressionView::Simple(_) => layout is Leaf,
        ExpressionView::With(_) => {
            &&& layout matches Layout::With { before, keyword, after }
            &&& is_gap(before)
            &&& spells(keyword, "WITH"@, "with"@)
            &&& is_gap(after)
        },
        ExpressionView::And(l, r) => {
            &&& layout matches Layout::Binary { left, before, keyword, after, right }
            &&& fits(*l, *left)
            &&& is_gap(before)
            &&& spells(keyword, "AND"@, "and"@)
            &&& is_gap(after)
            &&& fits(*r, *right)
        },
        ExpressionView::Or(l, r) => {
            &&& layout matches Layout::Binary { left, before, keyword, after, right }
            &&& fits(*l, *left)
            &&& is_gap(before)
            &&& spells(keyword, "OR"@, "or"@)
            &&& is_gap(after)
            &&& fits(*r, *right)
        },
        ExpressionView::Parens(e) => {
            &&& layout matches Layout::Parens { before, inner, after }
            &&& is_spaces(before)
            &&& fits(*e, *inner)
            &&& is_spaces(after)
        },
    }
}

/// The text of the tree `e` in the layout `layout`.
pub open spec fn spelled(e: ExpressionView, layout: Layout) -> Seq<char>
    decreases e,
{
    match e {
        ExpressionView::Simple(e) => render_simple(e),
        ExpressionView::With(e) => match layout {
            Layout::With { before, keyword, after } => render_simple(e.license) + before + keyword
                + after + e.exception,
            _ => Seq::empty(),
        },
        ExpressionView::And(l, r) => match layout {
            Layout::Binary { left, before, keyword, after, right } => spelled(*l, *left) + before
                + keyword + after + spelled(*r, *right),
            _ => Seq::empty(),
        },
        ExpressionView::Or(l, r) => match layout {
            Layout::Binary { left, before, keyword, after, right } => spelled(*l, *left) + before
                + keyword + after + spelled(*r, *right),
            _ => Seq::empty(),
        },
        ExpressionView::Parens(e) => match layout {
            Layout::Parens { before, inner, after } => "("@ + before + spelled(*e, *inner) + after
                + ")"@,
            _ => Seq::empty(),
        },
    }
}

/// The same layout with every keyword in upper case, one space on each side
/// of it, and no whitespace inside the parentheses.
pub open spec fn canonical(layout: Layout) -> Layout
    decreases layout,
{
    match layout {
        Layout::Leaf => Layout::Leaf,
        Layout::With { before, keyword, after } => Layout::With {
            before: " "@,
            keyword: upper_case(keyword),
            after: " "@,
        },
        Layout::Binary { left, before, keyword, after, right } => Layout::Binary {
            left: Box::new(canonical(*left)),
            before: " "@,
            keyword: upper_case(keyword),
            after: " "@,
            right: Box::new(canonical(*right)),
        },
        Layout::Parens { before, inner, after } => Layout::Parens {
            before: Seq::empty(),
            inner: Box::new(canonical(*inner)),
            after: Seq::empty(),
        },
    }
}

/// The layout of the canonical text of `e`.
pub open spec fn plain(e: ExpressionView) -> Layout
    decreases e,
{
    match e {
        ExpressionView::Simple(_) => Layout::Leaf,
        ExpressionView::With(_) => Layout::With { before: " "@, keyword: "WITH"@, after: " "@ },
        ExpressionView::And(l, r) => Layout::Binary {
            left: Box::new(plain(*l)),
            before: " "@,
            keyword: "AND"@,
            after: " "@,
            right: Box::new(plain(*r)),
        },
        ExpressionView::Or(l, r) => Layout::Binary {
            left: Box::new(plain(*l)),
            before: " "@,
            keyword: "OR"@,
            after: " "@,
            right: Box::new(plain(*r)),
        },
        ExpressionView::Parens(e) => Layout::Parens {
            before: Seq::empty(),
            inner: Box::new(plain(*e)),
            after: Seq::empty(),
        },
    }
}

/// A spelling of `WITH` in upper case is `WITH`.
pub proof fn lemma_upper_case_with(keyword: Seq<char>)
    requires
        spells(keyword, "WITH"@, "with"@),
    ensures
        upper_case(keyword) == "WITH"@,
        " "@ + upper_case(keyword) + " "@ == " WITH "@,
        spells(upper_case(keyword), "WITH"@, "with"@),
        is_gap(" "@),
{
    reveal_strlit("WITH");
    reveal_strlit("with");
    reveal_strlit(" ");
    reveal_strlit(" WITH ");
    assert forall|i: int| 0 <= i < 4 implies upper_case(keyword)[i] == "WITH"@[i] by {
        assert(keyword[i] == "WITH"@[i] || keyword[i] == "with"@[i]);
    }
    assert(upper_case(keyword) =~= "WITH"@);
    assert(" "@ + upper_case(keyword) + " "@ =~= " WITH "@);
}

/// A spelling of `AND` in upper case is `AND`.
pub proof fn lemma_upper_case_and(keyword: Seq<char>)
    requires
        spells(keyword, "AND"@, "and"@),
    ensures
        upper_case(keyword) == "AND"@,
        " "@ + upper_case(keyword) + " "@ == " AND "@,
        spells(upper_case(keyword), "AND"@, "and"@),
        is_gap(" "@),
{
    reveal_strlit("AND");
    reveal_strlit("and");
    reveal_strlit(" ");
    reveal_strlit(" AND ");
    assert forall|i: int| 0 <= i < 3 implies upper_case(keyword)[i] == "AND"@[i] by {
        assert(keyword[i] == "AND"@[i] || keyword[i] == "and"@[i]);
    }
    assert(upper_case(keyword) =~= "AND"@);
    assert(" "@ + upper_case(keyword) + " "@ =~= " AND "@);
}

/// A spelling of `OR` in upper case is `OR`.
pub proof fn lemma_upper_case_or(keyword: Seq<char>)
    requires
        spells(keyword, "OR"@, "or"@),
    ensures
        upper_case(keyword) == "OR"@,
        " "@ + upper_case(keyword) + " "@ == " OR "@,
        spells(upper_case(keyword), "OR"@, "or"@),
        is_gap(" "@),
{
    reveal_strlit("OR");
    reveal_strlit("or");
    reveal_strlit(" ");
    reveal_strlit(" OR ");
    assert forall|i: int| 0 <= i < 2 implies upper_case(keyword)[i] == "OR"@[i] by {
        assert(keyword[i] == "OR"@[i] || keyword[i] == "or"@[i]);
    }
    assert(upper_case(keyword) =~= "OR"@);
    assert(" "@ + upper_case(keyword) + " "@ =~= " OR "@);
}

/// The canonical text of a tree is its text in the canonical form of any
/// layout that fits it: to render a tree is to write its keywords in upper
/// case with single spaces around them, and nothing else.
pub proof fn lemma_render_is_canonical(e: ExpressionView, layout: Layout)
    requires
        fits(e, layout),
    ensures
        fits(e, canonical(layout)),
        spelled(e, canonical(layout)) == render(e),
    decreases e,
{
    match e {
        ExpressionView::Simple(_) => {},
        ExpressionView::With(w) => {
            if let Layout::With { before, keyword, after } = layout {
                lemma_upper_case_with(keyword);
                assert(spelled(e, canonical(layout)) =~= render_simple(w.license) + (" "@
                    + upper_case(keyword) + " "@) + w.exception);
            }
        },
        ExpressionView::And(l, r) => {
            if let Layout::Binary { left, before, keyword, after, right } = layout {
                lemma_render_is_canonical(*l, *left);
                lemma_render_is_canonical(*r, *right);
                lemma_upper_case_and(keyword);
                assert(spelled(e, canonical(layout)) =~= render(*l) + (" "@ + upper_case(keyword)
                    + " "@) + render(*r));
            }
        },
        ExpressionView::Or(l, r) => {
            if let Layout::Binary { left, before, keyword, after, right } = layout {
                lemma_render_is_canonical(*l, *left);
                lemma_render_is_canonical(*r, *right);
                lemma_upper_case_or(keyword);
                assert(spelled(e, canonical(layout)) =~= render(*l) + (" "@ + upper_case(keyword)
                    + " "@) + render(*r));
            }
        },
        ExpressionView::Parens(inner) => {
            if let Layout::Parens { before, inner: within, after } = layout {
                lemma_render_is_canonical(*inner, *within);
                assert(spelled(e, canonical(layout)) =~= "("@ + render(*inner) + ")"@);
            }
        },
    }
}

/// Each keyword in upper case spells itself, and with a space on each side
/// it is the operator of the canonical text.
pub proof fn lemma_plain_keywords()
    ensures
        is_gap(" "@),
        spells("WITH"@, "WITH"@, "with"@),
        spells("AND"@, "AND"@, "and"@),
        spells("OR"@, "OR"@, "or"@),
        " "@ + "WITH"@ + " "@ == " WITH "@,
        " "@ + "AND"@ + " "@ == " AND "@,
        " "@ + "OR"@ + " "@ == " OR "@,
{
    reveal_strlit(" ");
    reveal_strlit("WITH");
    reveal_strlit("with");
    reveal_strlit(" WITH ");
    reveal_strlit("AND");
    reveal_strlit("and");
    reveal_strlit(" AND ");
    reveal_strlit("OR");
    reveal_strlit("or");
    reveal_strlit(" OR ");
    assert(" "@ + "WITH"@ + " "@ =~= " WITH "@);
    assert(" "@ + "AND"@ + " "@ =~= " AND "@);
    assert(" "@ + "OR"@ + " "@ =~= " OR "@);
}

/// The canonical text of a tree is the tree written in its plain layout,
/// which fits every tree.
pub proof fn lemma_render_is_plain(e: ExpressionView)
    ensures
        fits(e, plain(e)),
        spelled(e, plain(e)) == render(e),
    decreases e,
{
    lemma_plain_keywords();
    match e {
        ExpressionView::Simple(_) => {},
        ExpressionView::With(w) => {
            assert(spelled(e, plain(e)) =~= render_simple(w.license) + (" "@ + "WITH"@ + " "@)
                + w.exception);
        },
        ExpressionView::And(l, r) => {
            lemma_render_is_plain(*l);
            lemma_render_is_plain(*r);
            assert(spelled(e, plain(e)) =~= render(*l) + (" "@ + "AND"@ + " "@) + render(*r));
        },
        ExpressionView::Or(l, r) => {
            lemma_render_is_plain(*l);
            lemma_render_is_plain(*r);
            assert(spelled(e, plain(e)) =~= render(*l) + (" "@ + "OR"@ + " "@) + render(*r));
        },
        ExpressionView::Parens(inner) => {
            lemma_render_is_plain(*inner);
            assert(spelled(e, plain(e)) =~= "("@ + render(*inner) + ")"@);
        },
    }
}

} // verus!
