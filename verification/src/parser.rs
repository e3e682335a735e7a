//! Expression trees and the parser that builds them.

use crate::error::SpdxExpressionError;
use crate::grammar;
use crate::inner_variant::{
    SimpleExpression,
    SimpleExpressionView,
    WithExpression,
    WithExpressionView,
};
use crate::lexer::{idstring, operator, simple_license_expression, skip_spaces};
use crate::roundtrip::{is_written, lemma_parse_is_reading};
use crate::text::{chars_of, string_of};
use crate::wellformed::{
    lemma_expr_well_formed,
    lemma_factor_well_formed,
    lemma_parse_well_formed,
    lemma_term_well_formed,
};
use vstd::prelude::*;
use vstd::string::StringExecFns;

verus! {

/// Mathematical value of an [`Expression`].
pub enum ExpressionView {
    Simple(SimpleExpressionView),
    With(WithExpressionView),
    And(Box<ExpressionView>, Box<ExpressionView>),
    Or(Box<ExpressionView>, Box<ExpressionView>),
    Parens(Box<ExpressionView>),
}

/// A license expression as a tree. `And` and `Or` nest to the left as they
/// are read; `Parens` keeps a pair of parentheses of the text.
#[derive(Debug, PartialEq, Eq)]
pub enum Expression {
    Simple(SimpleExpression),
    With(WithExpression),
    And(Box<Expression>, Box<Expression>),
    Or(Box<Expression>, Box<Expression>),
    Parens(Box<Expression>),
}

impl Expression {
    /// The tree as a mathematical value.
    pub open spec fn model(&self) -> ExpressionView
        decreases self,
    {
        match self {
            Expression::Simple(e) => ExpressionView::Simple(e@),
            Expression::With(e) => ExpressionView::With(e@),
            Expression::And(l, r) => ExpressionView::And(Box::new(l.model()), Box::new(r.model())),
            Expression::Or(l, r) => ExpressionView::Or(Box::new(l.model()), Box::new(r.model())),
            Expression::Parens(e) => ExpressionView::Parens(Box::new(e.model())),
        }
    }
}

impl Clone for Expression {
    fn clone(&self) -> (r: Self)
        ensures
            r@ == self@,
        decreases self,
    {
        match self {
            Expression::Simple(e) => Expression::Simple(e.clone()),
            Expression::With(e) => Expression::With(e.clone()),
            Expression::And(l, r) => {
                let l: &Expression = l;
                let r: &Expression = r;
                Expression::And(Box::new(l.clone()), Box::new(r.clone()))
            },
            Expression::Or(l, r) => {
                let l: &Expression = l;
                let r: &Expression = r;
                Expression::Or(Box::new(l.clone()), Box::new(r.clone()))
            },
            Expression::Parens(e) => {
                let e: &Expression = e;
                Expression::Parens(Box::new(e.clone()))
            },
        }
    }
}

impl View for Expression {
    type V = ExpressionView;

    open spec fn view(&self) -> ExpressionView {
        self.model()
    }
}

/// A binary operator of the grammar.
#[derive(Debug, Clone, Copy, PartialEq, Eq)]
pub enum Oper {
    And,
    Or,
}

/// The node that joins `left` and `right` by `oper`.
pub open spec fn join(oper: Oper, left: ExpressionView, right: ExpressionView) -> ExpressionView {
    match oper {
        Oper::And => ExpressionView::And(Box::new(left), Box::new(right)),
        Oper::Or => ExpressionView::Or(Box::new(left), Box::new(right)),
    }
}

/// `initial` joined with each operand of `remainder` in turn, so that the
/// tree nests to the left.
pub open spec fn fold(
    initial: ExpressionView,
    remainder: Seq<(Oper, ExpressionView)>,
) -> ExpressionView
    decreases remainder.len(),
{
    if remainder.len() == 0 {
        initial
    } else {
        join(remainder.last().0, fold(initial, remainder.drop_last()), remainder.last().1)
    }
}

/// The operands of `remainder` as mathematical values.
pub open spec fn operands(remainder: Seq<(Oper, Expression)>) -> Seq<(Oper, ExpressionView)> {
    remainder.map_values(|p: (Oper, Expression)| (p.0, p.1@))
}

/// What a recognizer returned is what the grammar yields.
pub open spec fn yields(
    r: Option<(Expression, usize)>,
    v: Option<(ExpressionView, int)>,
) -> bool {
    match v {
        Some((e, n)) => r matches Some((x, m)) && x@ == e && m == n,
        None => r is None,
    }
}

/// Joins `initial` with each operand of `remainder` in turn, from the left.
pub fn fold_exprs(initial: Expression, remainder: Vec<(Oper, Expression)>) -> (r: Expression)
    ensures
        r@ == fold(initial@, operands(remainder@)),
{
    let ghost first = initial@;
    let ghost all = operands(remainder@);
    let mut acc = initial;
    for pair in it: remainder
        invariant
            operands(it.seq()) == all,
            acc@ == fold(first, all.take(it.index() as int)),
    {
        proof {
            let k = it.index() as int;
            assert(all.take(k + 1).drop_last() =~= all.take(k));
            assert(all.take(k + 1).last() == (pair.0, pair.1@));
        }
        let (oper, expr) = pair;
        acc =
        match oper {
            Oper::And => Expression::And(Box::new(acc), Box::new(expr)),
            Oper::Or => Expression::Or(Box::new(acc), Box::new(expr)),
        };
    }
    proof {
        assert(all.take(all.len() as int) =~= all);
    }
    acc
}

/// The exception of a license: whitespace, `WITH`, whitespace and an
/// identifier, read behind the license that ends at `pos`.
fn exception(input: &[char], pos: usize) -> (r: Option<(String, usize)>)
    ensures
        match grammar::operator(input@, pos as int, "WITH"@, "with"@) {
            Some(b) => match grammar::idstring(input@, b) {
                Some(c) => r matches Some((x, n)) && x@ == input@.subrange(b, c) && n == c && pos
                    < c <= input@.len(),
                None => r is None,
            },
            None => r is None,
        },
{
    match operator(input, pos, "WITH", "with") {
        Some(b) => match idstring(input, b) {
            Some(c) => Some((string_of(input, b, c), c)),
            None => None,
        },
        None => None,
    }
}

/// A license, the keyword `WITH` and the identifier of an exception. The
/// tree is well formed.
pub fn with_expression(input: &[char], pos: usize) -> (r: Option<(Expression, usize)>)
    ensures
        yields(r, grammar::with_expression(input@, pos as int)),
        r matches Some((e, n)) ==> pos < n <= input@.len() && e@.well_formed() && e@ is With,
{
    proof {
        if pos <= input@.len() {
            lemma_factor_well_formed(input@, pos as int);
        }
    }
    match simple_license_expression(input, pos) {
        Some((license, a)) => match exception(input, a) {
            Some((name, c)) => Some((Expression::With(WithExpression::new(license, name)), c)),
            None => None,
        },
        None => None,
    }
}

/// An expression between `(` and `)`, with optional whitespace inside the
/// parentheses. The tree is well formed.
pub fn parens(input: &[char], pos: usize) -> (r: Option<(Expression, usize)>)
    ensures
        yields(r, grammar::parens(input@, pos as int)),
        r matches Some((e, n)) ==> pos < n <= input@.len() && e@.well_formed() && e@ is Parens,
    decreases input@.len() - pos, 0int,
{
    if pos < input.len() && input[pos] == '(' {
        let a = skip_spaces(input, pos + 1);
        match expr(input, a) {
            Some((inner, b)) => {
                let c = skip_spaces(input, b);
                if c < input.len() && input[c] == ')' {
                    Some((Expression::Parens(Box::new(inner)), c + 1))
                } else {
                    None
                }
            },
            None => None,
        }
    } else {
        None
    }
}

/// A license with an exception, a license alone, or an expression in
/// parentheses. The tree is a well-formed factor.
pub fn factor(input: &[char], pos: usize) -> (r: Option<(Expression, usize)>)
    ensures
        yields(r, grammar::factor(input@, pos as int)),
        r matches Some((e, n)) ==> pos < n <= input@.len() && e@.well_formed() && e@.is_factor(),
    decreases input@.len() - pos, 1int,
{
    proof {
        if pos <= input@.len() {
            lemma_factor_well_formed(input@, pos as int);
        }
    }
    match simple_license_expression(input, pos) {
        Some((license, a)) => match exception(input, a) {
            Some((name, c)) => Some((Expression::With(WithExpression::new(license, name)), c)),
            None => Some((Expression::Simple(license), a)),
        },
        None => parens(input, pos),
    }
}

/// Factors joined by `AND`, nested to the left. The tree is a well-formed
/// term.
pub fn term(input: &[char], pos: usize) -> (r: Option<(Expression, usize)>)
    ensures
        yields(r, grammar::term(input@, pos as int)),
        r matches Some((e, n)) ==> pos < n <= input@.len() && e@.well_formed() && e@.is_term(),
    decreases input@.len() - pos, 3int,
{
    proof {
        if pos <= input@.len() {
            lemma_term_well_formed(input@, pos as int);
        }
    }
    match factor(input, pos) {
        Some((initial, start)) => {
            let mut remainder: Vec<(Oper, Expression)> = Vec::new();
            let mut end: usize = start;
            loop
                invariant
                    pos < start <= end <= input@.len(),
                    grammar::and_tail(input@, start as int, initial@) == grammar::and_tail(
                        input@,
                        end as int,
                        fold(initial@, operands(remainder@)),
                    ),
                ensures
                    grammar::and_tail(input@, start as int, initial@) == (
                        fold(initial@, operands(remainder@)),
                        end as int,
                    ),
                decreases input@.len() - end,
            {
                let next = match operator(input, end, "AND", "and") {
                    Some(a) => factor(input, a),
                    None => None,
                };
                match next {
                    Some((right, b)) => {
                        proof {
                            let before = operands(remainder@);
                            let after = operands(remainder@.push((Oper::And, right)));
                            assert(after.drop_last() =~= before);
                            assert(after.last() == (Oper::And, right@));
                        }
                        remainder.push((Oper::And, right));
                        end = b;
                    },
                    None => {
                        break ;
                    },
                }
            }
            Some((fold_exprs(initial, remainder), end))
        },
        None => None,
    }
}

/// Terms joined by `OR`, nested to the left. The tree is well formed.
pub fn expr(input: &[char], pos: usize) -> (r: Option<(Expression, usize)>)
    ensures
        yields(r, grammar::expr(input@, pos as int)),
        r matches Some((e, n)) ==> pos < n <= input@.len() && e@.well_formed(),
    decreases input@.len() - pos, 5int,
{
    proof {
        if pos <= input@.len() {
            lemma_expr_well_formed(input@, pos as int);
        }
    }
    match term(input, pos) {
        Some((initial, start)) => {
            let mut remainder: Vec<(Oper, Expression)> = Vec::new();
            let mut end: usize = start;
            loop
                invariant
                    pos < start <= end <= input@.len(),
                    grammar::or_tail(input@, start as int, initial@) == grammar::or_tail(
                        input@,
                        end as int,
                        fold(initial@, operands(remainder@)),
                    ),
                ensures
                    grammar::or_tail(input@, start as int, initial@) == (
                        fold(initial@, operands(remainder@)),
                        end as int,
                    ),
                decreases input@.len() - end,
            {
                let next = match operator(input, end, "OR", "or") {
                    Some(a) => term(input, a),
                    None => None,
                };
                match next {
                    Some((right, b)) => {
                        proof {
                            let before = operands(remainder@);
                            let after = operands(remainder@.push((Oper::Or, right)));
                            assert(after.drop_last() =~= before);
                            assert(after.last() == (Oper::Or, right@));
                        }
                        remainder.push((Oper::Or, right));
                        end = b;
                    },
                    None => {
                        break ;
                    },
                }
            }
            Some((fold_exprs(initial, remainder), end))
        },
        None => None,
    }
}

/// An expression with optional whitespace before and behind it, read from
/// `pos` on; yields the tree and the position of what is left. The tree is
/// well formed.
pub fn spdx_expression(input: &[char], pos: usize) -> (r: Option<(Expression, usize)>)
    ensures
        yields(r, grammar::spdx_expression(input@, pos as int)),
        r matches Some((e, n)) ==> pos < n <= input@.len() && e@.well_formed(),
{
    let start = skip_spaces(input, pos);
    match expr(input, start) {
        Some((e, a)) => Some((e, skip_spaces(input, a))),
        None => None,
    }
}

impl Expression {
    /// Parses a license expression. All of `i` has to be one expression,
    /// with optional whitespace around it; otherwise the error carries `i`.
    ///
    /// The result is the tree that the grammar yields for `i`. Said without
    /// the grammar: it is the one well-formed tree that `i` writes in some
    /// layout, and an error exactly if there is no such tree.
    pub fn parse(i: &str) -> (r: Result<Self, SpdxExpressionError>)
        ensures
            match grammar::parse(i@) {
                Some(e) => r matches Ok(x) && x@ == e && e.well_formed(),
                None => r matches Err(err) && err.text() == i@,
            },
            r matches Ok(x) ==> is_written(i@, x@),
            r is Err ==> forall|e: ExpressionView| e.well_formed() ==> !is_written(i@, e),
    {
        proof {
            lemma_parse_well_formed(i@);
            assert forall|e: ExpressionView|
                (grammar::parse(i@) == Some(e)) == (e.well_formed() && is_written(i@, e)) by {
                lemma_parse_is_reading(i@, e);
            }
        }
        let input = chars_of(i);
        match spdx_expression(input.as_slice(), 0) {
            Some((expression, end)) => if end == input.len() {
                Ok(expression)
            } else {
                Err(SpdxExpressionError::Parse(String::from_str(i)))
            },
            None => Err(SpdxExpressionError::Parse(String::from_str(i))),
        }
    }
}

} // verus!
