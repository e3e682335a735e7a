//! The public face of the library: a parsed license expression.

use crate::error::SpdxExpressionError;
use crate::grammar;
use crate::leaves::{leaves, lemma_licenses_are_leaves, names_no_operator};
use crate::licenses::{license_list, lists_licenses, texts};
use crate::parser::{Expression, ExpressionView};
use crate::render::render;
use crate::roundtrip::{is_written, lemma_parse_render};
use crate::text::chars_of;
use vstd::prelude::*;

verus! {

/// A syntactically valid license expression: a well-formed tree, which
/// only parsing makes.
#[derive(Debug, PartialEq, Eq)]
pub struct SPDXExpression {
    /// The parsed expression.
    inner: Expression,
}

impl View for SPDXExpression {
    type V = ExpressionView;

    closed spec fn view(&self) -> ExpressionView {
        self.inner@
    }
}

impl Clone for SPDXExpression {
    fn clone(&self) -> (r: Self)
        ensures
            r@ == self@,
    {
        proof {
            use_type_invariant(self);
        }
        Self { inner: self.inner.clone() }
    }
}

impl SPDXExpression {
    /// The tree is well formed.
    #[verifier::type_invariant]
    closed spec fn valid(&self) -> bool {
        self.inner@.well_formed()
    }

    /// Parses a license expression. The identifiers need not be on the SPDX
    /// license list; only the syntax is checked. All of `expression` has to
    /// be one expression, with optional whitespace around it; otherwise the
    /// error carries `expression`.
    ///
    /// The result is the tree that the grammar yields for `expression`.
    /// Said without the grammar: it is the one well-formed tree that
    /// `expression` writes in some layout, and an error exactly if there is
    /// no such tree.
    pub fn parse(expression: &str) -> (r: Result<Self, SpdxExpressionError>)
        ensures
            match grammar::parse(expression@) {
                Some(e) => r matches Ok(x) && x@ == e && e.well_formed(),
                None => r matches Err(err) && err.text() == expression@,
            },
            r matches Ok(x) ==> is_written(expression@, x@),
            r is Err ==> forall|e: ExpressionView|
                e.well_formed() ==> !is_written(expression@, e),
    {
        match Expression::parse(expression) {
            Ok(inner) => Ok(Self { inner }),
            Err(err) => Err(err),
        }
    }

    /// The license and exception identifiers of the expression, in
    /// ascending order, each once. They are read from the canonical text,
    /// where the words `AND`, `OR` and `WITH` are operators: the list holds
    /// every leaf of the tree, unless one of them is such a word.
    pub fn licenses(&self) -> (r: Vec<String>)
        ensures
            lists_licenses(texts(r@), render(self@)),
            self@.well_formed(),
            names_no_operator(self@) ==> forall|t: Seq<char>|
                texts(r@).contains(t) <==> leaves(self@).contains(t),
    {
        proof {
            use_type_invariant(self);
            if names_no_operator(self@) {
                lemma_licenses_are_leaves(self@);
            }
        }
        let text = self.inner.to_string();
        let text = chars_of(text.as_str());
        license_list(text.as_slice())
    }

    /// The canonical text of the expression, which parses to the same
    /// expression.
    pub fn to_string(&self) -> (r: String)
        ensures
            r@ == render(self@),
            self@.well_formed(),
            grammar::parse(r@) == Some(self@),
    {
        proof {
            use_type_invariant(self);
            lemma_parse_render(self@);
        }
        self.inner.to_string()
    }
}

} // verus!
