//! The shape of the trees that the grammar yields.
//!
//! A parsed tree holds identifiers of the right alphabet only, keeps a
//! document reference and a trailing `+` where they may stand, and nests
//! `AND` and `OR` to the left: the right operand of `AND` is a factor, that of
//! `OR` a term, and the left operand of `AND` a term.

use crate::grammar;
use crate::inner_variant::{SimpleExpressionView, WithExpressionView};
use crate::parser::ExpressionView;
use crate::text::is_id_char;
use vstd::prelude::*;

verus! {

/// One or more identifier characters.
pub open spec fn is_identifier(t: Seq<char>) -> bool {
    t.len() > 0 && forall|i: int| 0 <= i < t.len() ==> is_id_char(#[trigger] t[i])
}

/// An identifier, or an identifier and one `+` behind it.
pub open spec fn is_license_id(t: Seq<char>) -> bool {
    is_identifier(t) || (t.len() > 0 && t.last() == '+' && is_identifier(t.drop_last()))
}

/// `t` starts with `LicenseRef-` and an identifier character.
pub open spec fn reads_as_reference(t: Seq<char>) -> bool {
    let tag = grammar::license_ref_tag();
    t.len() > tag.len() && t.take(tag.len() as int) == tag && is_id_char(t[tag.len() as int])
}

impl SimpleExpressionView {
    /// A license reference has an identifier and may have a document's
    /// identifier. Any other license has no document, its identifier may end
    /// in one `+`, and it does not read as a license reference.
    pub open spec fn well_formed(self) -> bool {
        if self.license_ref {
            &&& is_identifier(self.identifier)
            &&& self.document_ref matches Some(d) ==> is_identifier(d)
        } else {
            &&& self.document_ref is None
            &&& is_license_id(self.identifier)
            &&& !reads_as_reference(self.identifier)
        }
    }
}

impl WithExpressionView {
    /// The license is well formed and the exception is an identifier.
    pub open spec fn well_formed(self) -> bool {
        self.license.well_formed() && is_identifier(self.exception)
    }
}

impl ExpressionView {
    /// A leaf or a parenthesized expression.
    pub open spec fn is_factor(self) -> bool {
        self is Simple || self is With || self is Parens
    }

    /// A factor, or factors joined by `AND` and nested to the left.
    pub open spec fn is_term(self) -> bool
        decreases self,
    {
        match self {
            ExpressionView::And(l, r) => l.is_term() && r.is_factor(),
            _ => self.is_factor(),
        }
    }

    /// Every leaf is well formed, and `AND` and `OR` nest to the left.
    pub open spec fn well_formed(self) -> bool
        decreases self,
    {
        match self {
            ExpressionView::Simple(e) => e.well_formed(),
            ExpressionView::With(e) => e.well_formed(),
            ExpressionView::And(l, r) => l.well_formed() && r.well_formed() && l.is_term()
                && r.is_factor(),
            ExpressionView::Or(l, r) => l.well_formed() && r.well_formed() && r.is_term(),
            ExpressionView::Parens(e) => e.well_formed(),
        }
    }
}

/// A run of identifier characters ends in the text, holds identifier
/// characters only, and stops at the end of the text or before another
/// character.
pub proof fn lemma_id_end(s: Seq<char>, pos: int)
    requires
        0 <= pos <= s.len(),
    ensures
        pos <= grammar::id_end(s, pos) <= s.len(),
        forall|i: int| pos <= i < grammar::id_end(s, pos) ==> is_id_char(#[trigger] s[i]),
        grammar::id_end(s, pos) < s.len() ==> !is_id_char(s[grammar::id_end(s, pos)]),
    decreases s.len() - pos,
{
    if pos < s.len() && is_id_char(s[pos]) {
        lemma_id_end(s, pos + 1);
    }
}

/// A run of whitespace ends in the text, holds whitespace only, and stops
/// at the end of the text or before another character.
pub proof fn lemma_spaces_end(s: Seq<char>, pos: int)
    requires
        0 <= pos <= s.len(),
    ensures
        pos <= grammar::spaces_end(s, pos) <= s.len(),
        forall|i: int|
            pos <= i < grammar::spaces_end(s, pos) ==> crate::text::is_space(#[trigger] s[i]),
        grammar::spaces_end(s, pos) < s.len() ==> !crate::text::is_space(
            s[grammar::spaces_end(s, pos)],
        ),
    decreases s.len() - pos,
{
    if pos < s.len() && crate::text::is_space(s[pos]) {
        lemma_spaces_end(s, pos + 1);
    }
}

/// What `idstring` recognizes is an identifier.
pub proof fn lemma_idstring_is_identifier(s: Seq<char>, pos: int)
    requires
        0 <= pos <= s.len(),
    ensures
        grammar::idstring(s, pos) matches Some(e) ==> pos < e <= s.len() && is_identifier(
            s.subrange(pos, e),
        ),
{
    lemma_id_end(s, pos);
}

/// An operator ends in the text, behind where it starts.
pub proof fn lemma_operator_advances(s: Seq<char>, pos: int, upper: Seq<char>, lower: Seq<char>)
    requires
        0 <= pos <= s.len(),
    ensures
        grammar::operator(s, pos, upper, lower) matches Some(e) ==> pos < e <= s.len(),
{
    lemma_spaces_end(s, pos);
    if let Some(a) = grammar::spaces1(s, pos) {
        if let Some(b) = grammar::keyword(s, a, upper, lower) {
            lemma_spaces_end(s, b);
        }
    }
}

/// A document reference yields an identifier.
pub proof fn lemma_document_ref_well_formed(s: Seq<char>, pos: int)
    requires
        0 <= pos <= s.len(),
    ensures
        grammar::document_ref(s, pos) matches Some((d, e)) ==> pos < e <= s.len()
            && is_identifier(d),
{
    if let Some(a) = grammar::tag(s, pos, grammar::document_ref_tag()) {
        lemma_idstring_is_identifier(s, a);
    }
}

/// What `simple_license_expression` recognizes is a well-formed license.
pub proof fn lemma_simple_well_formed(s: Seq<char>, pos: int)
    requires
        0 <= pos <= s.len(),
    ensures
        grammar::simple_license_expression(s, pos) matches Some((x, e)) ==> pos < e <= s.len()
            && x.well_formed(),
{
    reveal_strlit("LicenseRef-");
    reveal_strlit("DocumentRef-");
    let tag = grammar::license_ref_tag();
    lemma_document_ref_well_formed(s, pos);
    let a = match grammar::document_ref(s, pos) {
        Some((d, a)) => a,
        None => pos,
    };
    match grammar::license_ref(s, pos) {
        Some((doc, id, e)) => {
            let b = grammar::tag(s, a, tag)->0;
            lemma_idstring_is_identifier(s, b);
        },
        None => {
            if let Some(e) = grammar::license_idstring(s, pos) {
                lemma_id_end(s, pos);
                let body_end = grammar::id_end(s, pos);
                let t = s.subrange(pos, e);
                if e == body_end {
                    assert(is_identifier(t));
                } else {
                    assert(t.drop_last() =~= s.subrange(pos, body_end));
                    assert(is_identifier(t.drop_last()));
                }
                if reads_as_reference(t) {
                    assert(s.subrange(pos, pos + tag.len()) =~= t.take(tag.len() as int));
                    assert(t[0] == 'L');
                    assert(grammar::tag(s, pos, grammar::document_ref_tag()) is None) by {
                        if grammar::tag(s, pos, grammar::document_ref_tag()) is Some {
                            assert(s.subrange(pos, pos + 12)[0] == 'D');
                        }
                    }
                    assert(grammar::document_ref(s, pos) is None);
                    assert(is_id_char(s[pos + tag.len()]));
                    lemma_id_end(s, pos + tag.len() + 1);
                    assert(grammar::idstring(s, pos + tag.len()) is Some);
                    assert(false);
                }
            }
        },
    }
}

/// What `parens` recognizes is a well-formed factor.
pub proof fn lemma_parens_well_formed(s: Seq<char>, pos: int)
    requires
        0 <= pos <= s.len(),
    ensures
        grammar::parens(s, pos) matches Some((e, n)) ==> pos < n <= s.len() && e.well_formed()
            && e.is_factor(),
    decreases s.len() - pos, 0int,
{
    if pos < s.len() && s[pos] == '(' {
        lemma_spaces_end(s, pos + 1);
        let a = grammar::spaces_end(s, pos + 1);
        lemma_expr_well_formed(s, a);
        if let Some((inner, b)) = grammar::expr(s, a) {
            lemma_spaces_end(s, b);
        }
    }
}

/// What `factor` recognizes is a well-formed factor.
pub proof fn lemma_factor_well_formed(s: Seq<char>, pos: int)
    requires
        0 <= pos <= s.len(),
    ensures
        grammar::factor(s, pos) matches Some((e, n)) ==> pos < n <= s.len() && e.well_formed()
            && e.is_factor(),
    decreases s.len() - pos, 1int,
{
    lemma_simple_well_formed(s, pos);
    if let Some((license, a)) = grammar::simple_license_expression(s, pos) {
        lemma_operator_advances(s, a, "WITH"@, "with"@);
        if let Some(b) = grammar::operator(s, a, "WITH"@, "with"@) {
            lemma_idstring_is_identifier(s, b);
        }
    }
    lemma_parens_well_formed(s, pos);
}

/// Joining factors to a well-formed term gives a well-formed term.
pub proof fn lemma_and_tail_well_formed(s: Seq<char>, pos: int, left: ExpressionView)
    requires
        0 <= pos <= s.len(),
        left.well_formed(),
        left.is_term(),
    ensures
        pos <= grammar::and_tail(s, pos, left).1 <= s.len(),
        grammar::and_tail(s, pos, left).0.well_formed(),
        grammar::and_tail(s, pos, left).0.is_term(),
    decreases s.len() - pos, 2int,
{
    lemma_operator_advances(s, pos, "AND"@, "and"@);
    if let Some(a) = grammar::operator(s, pos, "AND"@, "and"@) {
        lemma_factor_well_formed(s, a);
        if let Some((right, b)) = grammar::factor(s, a) {
            lemma_and_tail_well_formed(
                s,
                b,
                ExpressionView::And(Box::new(left), Box::new(right)),
            );
        }
    }
}

/// What `term` recognizes is a well-formed term.
pub proof fn lemma_term_well_formed(s: Seq<char>, pos: int)
    requires
        0 <= pos <= s.len(),
    ensures
        grammar::term(s, pos) matches Some((e, n)) ==> pos < n <= s.len() && e.well_formed()
            && e.is_term(),
    decreases s.len() - pos, 3int,
{
    lemma_factor_well_formed(s, pos);
    if let Some((first, a)) = grammar::factor(s, pos) {
        lemma_and_tail_well_formed(s, a, first);
    }
}

/// Joining terms to a well-formed expression gives a well-formed
/// expression.
pub proof fn lemma_or_tail_well_formed(s: Seq<char>, pos: int, left: ExpressionView)
    requires
        0 <= pos <= s.len(),
        left.well_formed(),
    ensures
        pos <= grammar::or_tail(s, pos, left).1 <= s.len(),
        grammar::or_tail(s, pos, left).0.well_formed(),
    decreases s.len() - pos, 4int,
{
    lemma_operator_advances(s, pos, "OR"@, "or"@);
    if let Some(a) = grammar::operator(s, pos, "OR"@, "or"@) {
        lemma_term_well_formed(s, a);
        if let Some((right, b)) = grammar::term(s, a) {
            lemma_or_tail_well_formed(s, b, ExpressionView::Or(Box::new(left), Box::new(right)));
        }
    }
}

/// What `expr` recognizes is well formed.
pub proof fn lemma_expr_well_formed(s: Seq<char>, pos: int)
    requires
        0 <= pos <= s.len(),
    ensures
        grammar::expr(s, pos) matches Some((e, n)) ==> pos < n <= s.len() && e.well_formed(),
    decreases s.len() - pos, 5int,
{
    lemma_term_well_formed(s, pos);
    if let Some((first, a)) = grammar::term(s, pos) {
        lemma_or_tail_well_formed(s, a, first);
    }
}

/// A tree that the grammar yields for a whole text is well formed.
pub proof fn lemma_parse_well_formed(s: Seq<char>)
    ensures
        grammar::parse(s) matches Some(e) ==> e.well_formed(),
{
    lemma_spaces_end(s, 0);
    lemma_expr_well_formed(s, grammar::spaces_end(s, 0));
}

} // verus!
