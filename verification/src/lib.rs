//! # SPDX License Expressions
//!
//! Parsing, rendering and inspecting [SPDX license expressions][spdx]:
//! license identifiers combined with `AND`, `OR`, a postfix
//! `WITH <exception>` and parentheses. The main entry point is
//! [`SPDXExpression`].
//!
//! ```
//! use spdx_expression::SPDXExpression;
//!
//! let expression = SPDXExpression::parse("mit or (Apache-2.0 WITH LLVM-exception)").unwrap();
//! assert_eq!(expression.to_string(), "mit OR (Apache-2.0 WITH LLVM-exception)");
//! assert_eq!(expression.licenses(), ["Apache-2.0", "LLVM-exception", "mit"]);
//! ```
//!
//! The identifiers are not held against the SPDX license list: any
//! identifier of the right alphabet is accepted.
//!
//! ## What is proved
//!
//! Every function of the library is verified against a contract.
//! [`grammar`] defines what each recognizer yields; [`render`] defines the
//! canonical text of a tree; [`licenses`] defines the identifiers that a text
//! names. On top of these, [`wellformed`] shows the shape of every parsed
//! tree, [`roundtrip`] shows that parsing and rendering undo each other up
//! to whitespace and the case of the keywords, and [`leaves`] shows that the
//! identifiers of a canonical text are the leaves of its tree.
//!
//! [spdx]: https://spdx.github.io/spdx-spec/SPDX-license-expressions/

pub mod completeness;
pub mod error;
pub mod expression;
pub mod expression_variant;
pub mod grammar;
pub mod inner_variant;
pub mod layout;
pub mod leaves;
pub mod lexer;
pub mod licenses;
pub mod parser;
pub mod render;
pub mod roundtrip;
pub mod soundness;
pub mod text;
pub mod wellformed;

pub use error::SpdxExpressionError;
pub use expression::SPDXExpression;
