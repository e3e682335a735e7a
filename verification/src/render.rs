//! The canonical text of an expression tree.
//!
//! Keywords are written in upper case with one space on each side, and
//! parentheses hug what they enclose.

use crate::inner_variant::{
    SimpleExpression,
    SimpleExpressionView,
    WithExpression,
    WithExpressionView,
};
use crate::parser::{Expression, ExpressionView};
use crate::roundtrip::lemma_parse_render;
use vstd::prelude::*;
use vstd::string::StringExecFns;

verus! {

/// `[DocumentRef-<document>:][LicenseRef-]<identifier>`
pub open spec fn render_simple(e: SimpleExpressionView) -> Seq<char> {
    let document = match e.document_ref {
        Some(d) => "DocumentRef-"@ + d + ":"@,
        None => Seq::empty(),
    };
    let reference = if e.license_ref {
        "LicenseRef-"@
    } else {
        Seq::empty()
    };
    document + reference + e.identifier
}

/// `<license> WITH <exception>`
pub open spec fn render_with(e: WithExpressionView) -> Seq<char> {
    render_simple(e.license) + " WITH "@ + e.exception
}

/// The canonical text of a tree: `<left> AND <right>`, `<left> OR <right>`,
/// `(<inner>)`, or the text of a leaf.
pub open spec fn render(e: ExpressionView) -> Seq<char>
    decreases e,
{
    match e {
        ExpressionView::Simple(e) => render_simple(e),
        ExpressionView::With(e) => render_with(e),
        ExpressionView::And(l, r) => render(*l) + " AND "@ + render(*r),
        ExpressionView::Or(l, r) => render(*l) + " OR "@ + render(*r),
        ExpressionView::Parens(e) => "("@ + render(*e) + ")"@,
    }
}

impl SimpleExpression {
    /// Appends the canonical text of the license to `out`.
    pub fn write_to(&self, out: &mut String)
        ensures
            final(out)@ == old(out)@ + render_simple(self@),
    {
        let ghost start = out@;
        match &self.document_ref {
            Some(document) => {
                out.append("DocumentRef-");
                out.append(document.as_str());
                out.append(":");
            },
            None => {},
        }
        if self.license_ref {
            out.append("LicenseRef-");
        }
        out.append(self.identifier.as_str());
        assert(out@ =~= start + render_simple(self@));
    }

    /// The canonical text of the license.
    pub fn to_string(&self) -> (r: String)
        ensures
            r@ == render_simple(self@),
    {
        let mut r = String::new();
        self.write_to(&mut r);
        assert(r@ =~= render_simple(self@));
        r
    }
}

impl WithExpression {
    /// Appends the canonical text of the license and its exception to `out`.
    pub fn write_to(&self, out: &mut String)
        ensures
            final(out)@ == old(out)@ + render_with(self@),
    {
        let ghost start = out@;
        self.license.write_to(out);
        out.append(" WITH ");
        out.append(self.exception.as_str());
        assert(out@ =~= start + render_with(self@));
    }

    /// The canonical text of the license and its exception.
    pub fn to_string(&self) -> (r: String)
        ensures
            r@ == render_with(self@),
    {
        let mut r = String::new();
        self.write_to(&mut r);
        assert(r@ =~= render_with(self@));
        r
    }
}

impl Expression {
    /// Appends the canonical text of the tree to `out`.
    pub fn write_to(&self, out: &mut String)
        ensures
            final(out)@ == old(out)@ + render(self@),
        decreases self,
    {
        let ghost start = out@;
        match self {
            Expression::Simple(e) => e.write_to(out),
            Expression::With(e) => e.write_to(out),
            Expression::And(l, r) => {
                l.write_to(out);
                out.append(" AND ");
                r.write_to(out);
            },
            Expression::Or(l, r) => {
                l.write_to(out);
                out.append(" OR ");
                r.write_to(out);
            },
            Expression::Parens(e) => {
                out.append("(");
                e.write_to(out);
                out.append(")");
            },
        }
        assert(out@ =~= start + render(self@));
    }

    /// The canonical text of the tree. That of a well-formed tree parses to
    /// the same tree.
    pub fn to_string(&self) -> (r: String)
        ensures
            r@ == render(self@),
            self@.well_formed() ==> crate::grammar::parse(r@) == Some(self@),
    {
        proof {
            if self@.well_formed() {
                lemma_parse_render(self@);
            }
        }
        let mut r = String::new();
        self.write_to(&mut r);
        assert(r@ =~= render(self@));
        r
    }
}

} // verus!
