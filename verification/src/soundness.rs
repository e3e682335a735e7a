//! Every text that the grammar reads is a tree written in some layout.
//!
//! The lemmas follow the grammar from the leaves up. Each one takes what a
//! recognizer yields at a position and gives the layout in which the text
//! that it went over writes the tree.

use crate::grammar;
use crate::inner_variant::WithExpressionView;
use crate::layout::{fits, is_gap, spelled, Layout};
use crate::parser::ExpressionView;
use crate::render::render_simple;
use crate::wellformed::{
    lemma_expr_well_formed,
    lemma_factor_well_formed,
    lemma_id_end,
    lemma_operator_advances,
    lemma_simple_well_formed,
    lemma_spaces_end,
    lemma_term_well_formed,
};
use vstd::prelude::*;

verus! {

/// The text that `simple_license_expression` goes over is the canonical
/// text of the license that it yields.
pub proof fn lemma_simple_spelling(s: Seq<char>, pos: int)
    requires
        0 <= pos <= s.len(),
    ensures
        grammar::simple_license_expression(s, pos) matches Some((x, n)) ==> pos < n <= s.len()
            && s.subrange(pos, n) == render_simple(x),
{
    reveal_strlit(":");
    lemma_simple_well_formed(s, pos);
    let doc_tag = grammar::document_ref_tag();
    let ref_tag = grammar::license_ref_tag();
    if let Some((x, n)) = grammar::simple_license_expression(s, pos) {
        match grammar::license_ref(s, pos) {
            Some((doc, id, e)) => {
                match grammar::document_ref(s, pos) {
                    Some((d, a)) => {
                        let doc_start = pos + doc_tag.len();
                        let doc_end = a - 1;
                        lemma_id_end(s, doc_start);
                        let b = a + ref_tag.len();
                        lemma_id_end(s, b);
                        assert(s.subrange(doc_end, a) =~= ":"@);
                        assert(s.subrange(pos, n) =~= s.subrange(pos, doc_start) + s.subrange(
                            doc_start,
                            doc_end,
                        ) + s.subrange(doc_end, a) + s.subrange(a, b) + s.subrange(b, n));
                    },
                    None => {
                        let b = pos + ref_tag.len();
                        lemma_id_end(s, b);
                        assert(s.subrange(pos, n) =~= Seq::<char>::empty() + s.subrange(pos, b)
                            + s.subrange(b, n));
                    },
                }
            },
            None => {
                assert(render_simple(x) =~= s.subrange(pos, n));
            },
        }
    }
}

/// The text that `operator` goes over is whitespace, a spelling of the
/// keyword, and whitespace.
pub proof fn lemma_operator_spelling(
    s: Seq<char>,
    pos: int,
    upper: Seq<char>,
    lower: Seq<char>,
) -> (parts: (Seq<char>, Seq<char>, Seq<char>))
    requires
        0 <= pos <= s.len(),
        grammar::operator(s, pos, upper, lower) is Some,
    ensures
        is_gap(parts.0),
        grammar::spells(parts.1, upper, lower),
        is_gap(parts.2),
        pos < grammar::operator(s, pos, upper, lower)->0 <= s.len(),
        s.subrange(pos, grammar::operator(s, pos, upper, lower)->0) == parts.0 + parts.1
            + parts.2,
{
    lemma_spaces_end(s, pos);
    let a = grammar::spaces_end(s, pos);
    let b = a + upper.len();
    lemma_spaces_end(s, b);
    let c = grammar::spaces_end(s, b);
    let parts = (s.subrange(pos, a), s.subrange(a, b), s.subrange(b, c));
    assert(s.subrange(pos, c) =~= parts.0 + parts.1 + parts.2);
    parts
}

/// The text that `with_expression` goes over writes the license and its
/// exception in some layout.
pub proof fn lemma_with_spelling(s: Seq<char>, pos: int) -> (layout: Layout)
    requires
        0 <= pos <= s.len(),
        grammar::with_expression(s, pos) is Some,
    ensures
        grammar::with_expression(s, pos) matches Some((e, n)) && fits(e, layout) && pos < n
            <= s.len() && s.subrange(pos, n) == spelled(e, layout),
{
    lemma_simple_spelling(s, pos);
    let (license, a) = grammar::simple_license_expression(s, pos)->0;
    let parts = lemma_operator_spelling(s, a, "WITH"@, "with"@);
    let b = grammar::operator(s, a, "WITH"@, "with"@)->0;
    lemma_id_end(s, b);
    let n = grammar::idstring(s, b)->0;
    let w = WithExpressionView { license, exception: s.subrange(b, n) };
    let layout = Layout::With { before: parts.0, keyword: parts.1, after: parts.2 };
    assert(s.subrange(pos, n) =~= s.subrange(pos, a) + s.subrange(a, b) + s.subrange(b, n));
    assert(spelled(ExpressionView::With(w), layout) =~= render_simple(license) + (parts.0
        + parts.1 + parts.2) + s.subrange(b, n));
    layout
}

/// The text that `parens` goes over writes the parenthesized expression in
/// some layout.
pub proof fn lemma_parens_spelling(s: Seq<char>, pos: int) -> (layout: Layout)
    requires
        0 <= pos <= s.len(),
        grammar::parens(s, pos) is Some,
    ensures
        grammar::parens(s, pos) matches Some((e, n)) && fits(e, layout) && pos < n <= s.len()
            && s.subrange(pos, n) == spelled(e, layout),
    decreases s.len() - pos, 0int,
{
    lemma_spaces_end(s, pos + 1);
    let a = grammar::spaces_end(s, pos + 1);
    lemma_expr_well_formed(s, a);
    let inner = lemma_expr_spelling(s, a);
    let (within, b) = grammar::expr(s, a)->0;
    lemma_spaces_end(s, b);
    let c = grammar::spaces_end(s, b);
    let n = c + 1;
    let layout = Layout::Parens {
        before: s.subrange(pos + 1, a),
        inner: Box::new(inner),
        after: s.subrange(b, c),
    };
    assert(s.subrange(pos, pos + 1) =~= "("@ && s.subrange(c, c + 1) =~= ")"@) by {
        reveal_strlit("(");
        reveal_strlit(")");
    }
    assert(s.subrange(pos, n) =~= s.subrange(pos, pos + 1) + s.subrange(pos + 1, a) + s.subrange(
        a,
        b,
    ) + s.subrange(b, c) + s.subrange(c, c + 1));
    layout
}

/// The text that `factor` goes over writes the factor in some layout.
pub proof fn lemma_factor_spelling(s: Seq<char>, pos: int) -> (layout: Layout)
    requires
        0 <= pos <= s.len(),
        grammar::factor(s, pos) is Some,
    ensures
        grammar::factor(s, pos) matches Some((e, n)) && fits(e, layout) && pos < n <= s.len()
            && s.subrange(pos, n) == spelled(e, layout),
    decreases s.len() - pos, 1int,
{
    if grammar::with_expression(s, pos) is Some {
        lemma_with_spelling(s, pos)
    } else if grammar::simple_license_expression(s, pos) is Some {
        lemma_simple_spelling(s, pos);
        Layout::Leaf
    } else {
        lemma_parens_spelling(s, pos)
    }
}

/// Where the text from `from` to `pos` writes `left`, the text from `from`
/// to where `and_tail` ends writes what it yields.
pub proof fn lemma_and_tail_spelling(
    s: Seq<char>,
    from: int,
    pos: int,
    left: ExpressionView,
    left_layout: Layout,
) -> (layout: Layout)
    requires
        0 <= from <= pos <= s.len(),
        fits(left, left_layout),
        s.subrange(from, pos) == spelled(left, left_layout),
    ensures
        fits(grammar::and_tail(s, pos, left).0, layout),
        pos <= grammar::and_tail(s, pos, left).1 <= s.len(),
        s.subrange(from, grammar::and_tail(s, pos, left).1) == spelled(
            grammar::and_tail(s, pos, left).0,
            layout,
        ),
    decreases s.len() - pos, 2int,
{
    lemma_operator_advances(s, pos, "AND"@, "and"@);
    match grammar::operator(s, pos, "AND"@, "and"@) {
        Some(a) => {
            lemma_factor_well_formed(s, a);
            match grammar::factor(s, a) {
                Some((right, b)) => {
                    let parts = lemma_operator_spelling(s, pos, "AND"@, "and"@);
                    let right_layout = lemma_factor_spelling(s, a);
                    let joined = ExpressionView::And(Box::new(left), Box::new(right));
                    let joined_layout = Layout::Binary {
                        left: Box::new(left_layout),
                        before: parts.0,
                        keyword: parts.1,
                        after: parts.2,
                        right: Box::new(right_layout),
                    };
                    assert(s.subrange(from, b) =~= s.subrange(from, pos) + s.subrange(pos, a)
                        + s.subrange(a, b));
                    assert(spelled(joined, joined_layout) =~= spelled(left, left_layout) + (parts.0
                        + parts.1 + parts.2) + spelled(right, right_layout));
                    lemma_and_tail_spelling(s, from, b, joined, joined_layout)
                },
                None => left_layout,
            }
        },
        None => left_layout,
    }
}

/// The text that `term` goes over writes the term in some layout.
pub proof fn lemma_term_spelling(s: Seq<char>, pos: int) -> (layout: Layout)
    requires
        0 <= pos <= s.len(),
        grammar::term(s, pos) is Some,
    ensures
        grammar::term(s, pos) matches Some((e, n)) && fits(e, layout) && pos < n <= s.len()
            && s.subrange(pos, n) == spelled(e, layout),
    decreases s.len() - pos, 3int,
{
    lemma_term_well_formed(s, pos);
    lemma_factor_well_formed(s, pos);
    let first = lemma_factor_spelling(s, pos);
    let (e, a) = grammar::factor(s, pos)->0;
    lemma_and_tail_spelling(s, pos, a, e, first)
}

/// Where the text from `from` to `pos` writes `left`, the text from `from`
/// to where `or_tail` ends writes what it yields.
pub proof fn lemma_or_tail_spelling(
    s: Seq<char>,
    from: int,
    pos: int,
    left: ExpressionView,
    left_layout: Layout,
) -> (layout: Layout)
    requires
        0 <= from <= pos <= s.len(),
        fits(left, left_layout),
        s.subrange(from, pos) == spelled(left, left_layout),
    ensures
        fits(grammar::or_tail(s, pos, left).0, layout),
        pos <= grammar::or_tail(s, pos, left).1 <= s.len(),
        s.subrange(from, grammar::or_tail(s, pos, left).1) == spelled(
            grammar::or_tail(s, pos, left).0,
            layout,
        ),
    decreases s.len() - pos, 4int,
{
    lemma_operator_advances(s, pos, "OR"@, "or"@);
    match grammar::operator(s, pos, "OR"@, "or"@) {
        Some(a) => {
            lemma_term_well_formed(s, a);
            match grammar::term(s, a) {
                Some((right, b)) => {
                    let parts = lemma_operator_spelling(s, pos, "OR"@, "or"@);
                    let right_layout = lemma_term_spelling(s, a);
                    let joined = ExpressionView::Or(Box::new(left), Box::new(right));
                    let joined_layout = Layout::Binary {
                        left: Box::new(left_layout),
                        before: parts.0,
                        keyword: parts.1,
                        after: parts.2,
                        right: Box::new(right_layout),
                    };
                    assert(s.subrange(from, b) =~= s.subrange(from, pos) + s.subrange(pos, a)
                        + s.subrange(a, b));
                    assert(spelled(joined, joined_layout) =~= spelled(left, left_layout) + (parts.0
                        + parts.1 + parts.2) + spelled(right, right_layout));
                    lemma_or_tail_spelling(s, from, b, joined, joined_layout)
                },
                None => left_layout,
            }
        },
        None => left_layout,
    }
}

/// The text that `expr` goes over writes the expression in some layout.
pub proof fn lemma_expr_spelling(s: Seq<char>, pos: int) -> (layout: Layout)
    requires
        0 <= pos <= s.len(),
        grammar::expr(s, pos) is Some,
    ensures
        grammar::expr(s, pos) matches Some((e, n)) && fits(e, layout) && pos < n <= s.len()
            && s.subrange(pos, n) == spelled(e, layout),
    decreases s.len() - pos, 5int,
{
    lemma_expr_well_formed(s, pos);
    lemma_term_well_formed(s, pos);
    let first = lemma_term_spelling(s, pos);
    let (e, a) = grammar::term(s, pos)->0;
    lemma_or_tail_spelling(s, pos, a, e, first)
}

} // verus!
