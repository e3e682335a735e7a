//! The leaves of an expression tree: a single license, and a license with an
//! exception.

use vstd::prelude::*;

verus! {

/// Mathematical value of a [`SimpleExpression`].
pub struct SimpleExpressionView {
    pub identifier: Seq<char>,
    pub document_ref: Option<Seq<char>>,
    pub license_ref: bool,
}

/// Mathematical value of a [`WithExpression`].
pub struct WithExpressionView {
    pub license: SimpleExpressionView,
    pub exception: Seq<char>,
}

/// A single license: an SPDX license id, possibly with a trailing `+`, or a
/// user-defined `LicenseRef-` id, possibly qualified by a `DocumentRef-`.
#[derive(Debug, PartialEq, Eq)]
pub struct SimpleExpression {
    pub identifier: String,
    pub document_ref: Option<String>,
    pub license_ref: bool,
}

/// A license together with the exception that modifies it.
#[derive(Debug, PartialEq, Eq)]
pub struct WithExpression {
    pub license: SimpleExpression,
    pub exception: String,
}

/// The view of an optional string.
pub open spec fn option_view(o: Option<String>) -> Option<Seq<char>> {
    match o {
        Some(s) => Some(s@),
        None => None,
    }
}

impl View for SimpleExpression {
    type V = SimpleExpressionView;

    open spec fn view(&self) -> SimpleExpressionView {
        SimpleExpressionView {
            identifier: self.identifier@,
            document_ref: option_view(self.document_ref),
            license_ref: self.license_ref,
        }
    }
}

impl View for WithExpression {
    type V = WithExpressionView;

    open spec fn view(&self) -> WithExpressionView {
        WithExpressionView { license: self.license@, exception: self.exception@ }
    }
}

impl Clone for SimpleExpression {
    fn clone(&self) -> (r: Self)
        ensures
            r@ == self@,
    {
        let document_ref = match &self.document_ref {
            Some(d) => Some(d.clone()),
            None => None,
        };
        Self { identifier: self.identifier.clone(), document_ref, license_ref: self.license_ref }
    }
}

impl Clone for WithExpression {
    fn clone(&self) -> (r: Self)
        ensures
            r@ == self@,
    {
        Self { license: self.license.clone(), exception: self.exception.clone() }
    }
}

impl SimpleExpression {
    /// A license with the given identifier and document reference;
    /// `license_ref` says whether it is a `LicenseRef-` license.
    pub fn new(identifier: String, document_ref: Option<String>, license_ref: bool) -> (r: Self)
        ensures
            r.identifier == identifier,
            r.document_ref == document_ref,
            r.license_ref == license_ref,
    {
        Self { identifier, document_ref, license_ref }
    }
}

impl WithExpression {
    /// The given license, modified by the given exception.
    pub fn new(license: SimpleExpression, exception: String) -> (r: Self)
        ensures
            r.license == license,
            r.exception == exception,
    {
        Self { license, exception }
    }
}

} // verus!
