//! The expression tree under its longer name.

use crate::parser::Expression;
use vstd::prelude::*;

pub use crate::inner_variant::{SimpleExpression, WithExpression};

verus! {

/// An expression tree; another name of [`Expression`].
pub type ExpressionVariant = Expression;

} // verus!
