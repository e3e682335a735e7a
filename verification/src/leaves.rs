//! The tokens of a canonical text are the leaves of its tree.
//!
//! [`crate::licenses`] finds the identifiers of an expression in its
//! canonical text. Here the same identifiers are read off the tree, and the
//! two are shown to agree for every well-formed tree that does not use
//! `AND`, `OR` or `WITH` as the name of a license or an exception.

use crate::inner_variant::SimpleExpressionView;
use crate::layout::lemma_plain_keywords;
use crate::licenses::{
    is_ascii_whitespace,
    is_operator_word,
    license_tokens,
    strip_parentheses,
    tokens_of,
    word_end,
    words,
    words_from,
};
use crate::parser::ExpressionView;
use crate::render::{render, render_simple};
use vstd::prelude::*;

verus! {

/// The licenses and exceptions of a tree as they are written, from left to
/// right.
pub open spec fn leaves(e: ExpressionView) -> Seq<Seq<char>>
    decreases e,
{
    match e {
        ExpressionView::Simple(e) => seq![render_simple(e)],
        ExpressionView::With(e) => seq![render_simple(e.license), e.exception],
        ExpressionView::And(l, r) => leaves(*l) + leaves(*r),
        ExpressionView::Or(l, r) => leaves(*l) + leaves(*r),
        ExpressionView::Parens(e) => leaves(*e),
    }
}

/// No license or exception of the tree is written `AND`, `OR` or `WITH`.
pub open spec fn names_no_operator(e: ExpressionView) -> bool {
    forall|i: int| 0 <= i < leaves(e).len() ==> !is_operator_word(#[trigger] leaves(e)[i])
}

/// No whitespace.
pub open spec fn has_no_space(w: Seq<char>) -> bool {
    forall|i: int| 0 <= i < w.len() ==> !is_ascii_whitespace(#[trigger] w[i])
}

/// `(` or `)`.
pub open spec fn is_parenthesis(c: char) -> bool {
    c == '(' || c == ')'
}

/// Parentheses only.
pub open spec fn all_parentheses(w: Seq<char>) -> bool {
    forall|i: int| 0 <= i < w.len() ==> is_parenthesis(#[trigger] w[i])
}

/// No parentheses.
pub open spec fn has_no_parenthesis(w: Seq<char>) -> bool {
    forall|i: int| 0 <= i < w.len() ==> !is_parenthesis(#[trigger] w[i])
}

/// A stretch without whitespace, with whitespace or nothing behind it, is
/// a whole word from wherever in it one starts.
pub proof fn lemma_word_run(s: Seq<char>, from: int, end: int)
    requires
        0 <= from <= end <= s.len(),
        forall|i: int| from <= i < end ==> !is_ascii_whitespace(#[trigger] s[i]),
        end < s.len() ==> is_ascii_whitespace(s[end]),
    ensures
        word_end(s, from) == end,
    decreases end - from,
{
    if from < end {
        lemma_word_run(s, from + 1, end);
    }
}

/// A word ends in the text, holds no whitespace, and stops at the end of
/// the text or before whitespace.
pub proof fn lemma_word_end(s: Seq<char>, pos: int)
    requires
        0 <= pos <= s.len(),
    ensures
        pos <= word_end(s, pos) <= s.len(),
        forall|i: int| pos <= i < word_end(s, pos) ==> !is_ascii_whitespace(#[trigger] s[i]),
        word_end(s, pos) < s.len() ==> is_ascii_whitespace(s[word_end(s, pos)]),
    decreases s.len() - pos,
{
    if pos < s.len() && !is_ascii_whitespace(s[pos]) {
        lemma_word_end(s, pos + 1);
    }
}

/// The words of the second of two joined texts are those of that text by
/// itself.
pub proof fn lemma_words_shift(a: Seq<char>, b: Seq<char>, k: int)
    requires
        0 <= k <= b.len(),
    ensures
        words_from(a + b, a.len() + k) == words_from(b, k),
    decreases b.len() - k,
{
    let s = a + b;
    let n = a.len() as int;
    if k < b.len() {
        assert(s[n + k] == b[k]);
        if is_ascii_whitespace(b[k]) {
            lemma_words_shift(a, b, k + 1);
        } else {
            lemma_word_end(b, k);
            lemma_word_end(b, k + 1);
            let end = word_end(b, k);
            assert forall|i: int| n + k <= i < n + end implies !is_ascii_whitespace(
                #[trigger] s[i],
            ) by {
                assert(s[i] == b[i - n]);
            }
            if end < b.len() {
                assert(s[n + end] == b[end]);
            }
            lemma_word_run(s, n + k, n + end);
            assert(s.subrange(n + k, n + end) =~= b.subrange(k, end));
            lemma_words_shift(a, b, end);
        }
    }
}

/// Where no word goes over the joint of two texts, the words of the whole
/// are those of the first and those of the second.
pub proof fn lemma_words_concat(a: Seq<char>, b: Seq<char>, pos: int)
    requires
        0 <= pos <= a.len(),
        a.len() == 0 || is_ascii_whitespace(a.last()) || b.len() == 0 || is_ascii_whitespace(b[0]),
    ensures
        words_from(a + b, pos) == words_from(a, pos) + words(b),
    decreases a.len() - pos,
{
    let s = a + b;
    let n = a.len() as int;
    if pos == n {
        lemma_words_shift(a, b, 0);
        assert(words_from(a, pos) + words(b) =~= words(b));
    } else {
        assert(s[pos] == a[pos]);
        if is_ascii_whitespace(a[pos]) {
            lemma_words_concat(a, b, pos + 1);
        } else {
            lemma_word_end(a, pos);
            lemma_word_end(a, pos + 1);
            let end = word_end(a, pos);
            assert forall|i: int| pos <= i < end implies !is_ascii_whitespace(#[trigger] s[i]) by {
                assert(s[i] == a[i]);
            }
            if end < n {
                assert(s[end] == a[end]);
            } else {
                assert(!is_ascii_whitespace(a[n - 1]));
                if b.len() > 0 {
                    assert(s[n] == b[0]);
                }
            }
            lemma_word_run(s, pos, end);
            assert(s.subrange(pos, end) =~= a.subrange(pos, end));
            lemma_words_concat(a, b, end);
            assert(seq![a.subrange(pos, end)] + (words_from(a, end) + words(b)) =~= (seq![
                a.subrange(pos, end),
            ] + words_from(a, end)) + words(b));
        }
    }
}

/// A text without whitespace is one word.
pub proof fn lemma_single_word(w: Seq<char>)
    requires
        w.len() > 0,
        has_no_space(w),
    ensures
        words(w) == seq![w],
{
    lemma_word_run(w, 0, w.len() as int);
    assert(w.subrange(0, w.len() as int) =~= w);
    assert(seq![w] + words_from(w, w.len() as int) =~= seq![w]);
}

/// The words of two texts joined by a word with a space on each side.
pub proof fn lemma_words_spaced(a: Seq<char>, word: Seq<char>, b: Seq<char>)
    requires
        word.len() > 0,
        has_no_space(word),
    ensures
        words(a + (" "@ + word + " "@) + b) == words(a) + seq![word] + words(b),
{
    reveal_strlit(" ");
    let space = " "@;
    assert(words(space) =~= Seq::<Seq<char>>::empty()) by {
        assert(words_from(space, 1) =~= Seq::<Seq<char>>::empty());
    }
    lemma_single_word(word);
    lemma_words_concat(word, space, 0);
    lemma_words_concat(space, word + space, 0);
    lemma_words_concat(space + (word + space), b, 0);
    lemma_words_concat(a, (space + (word + space)) + b, 0);
    assert(a + (space + word + space) + b =~= a + ((space + (word + space)) + b));
    assert(space + word + space =~= space + (word + space));
    assert(words(a) + (((Seq::<Seq<char>>::empty() + (seq![word] + Seq::<Seq<char>>::empty()))
        + words(b))) =~= words(a) + seq![word] + words(b));
}

/// The tokens of two lists of words are those of the first and those of
/// the second.
pub proof fn lemma_tokens_concat(x: Seq<Seq<char>>, y: Seq<Seq<char>>)
    ensures
        tokens_of(x + y) == tokens_of(x) + tokens_of(y),
    decreases y.len(),
{
    if y.len() == 0 {
        assert(x + y =~= x);
        assert(tokens_of(x) + tokens_of(y) =~= tokens_of(x));
    } else {
        assert((x + y).drop_last() =~= x + y.drop_last());
        assert((x + y).last() == y.last());
        lemma_tokens_concat(x, y.drop_last());
        if !is_operator_word(y.last()) {
            assert((tokens_of(x) + tokens_of(y.drop_last())).push(strip_parentheses(y.last()))
                =~= tokens_of(x) + tokens_of(y.drop_last()).push(strip_parentheses(y.last())));
        }
    }
}

/// The tokens of one word: none if it is an operator, else the word
/// without its parentheses.
pub proof fn lemma_tokens_of_one(w: Seq<char>)
    ensures
        tokens_of(seq![w]) == if is_operator_word(w) {
            Seq::<Seq<char>>::empty()
        } else {
            seq![strip_parentheses(w)]
        },
{
    reveal_with_fuel(tokens_of, 2);
    assert(seq![w].drop_last() =~= Seq::<Seq<char>>::empty());
    assert(seq![w].last() == w);
    assert(Seq::<Seq<char>>::empty().push(strip_parentheses(w)) =~= seq![strip_parentheses(w)]);
}

/// Parentheses around a text without parentheses are stripped, and
/// nothing else.
pub proof fn lemma_strip(open: Seq<char>, t: Seq<char>, close: Seq<char>)
    requires
        all_parentheses(open),
        has_no_parenthesis(t),
        all_parentheses(close),
    ensures
        strip_parentheses(open + t + close) == t,
    decreases close.len(), t.len(), open.len(),
{
    let w = open + t + close;
    if close.len() > 0 {
        assert(w.last() == close.last());
        assert(w.drop_last() =~= open + t + close.drop_last());
        lemma_strip(open, t, close.drop_last());
    } else if t.len() > 0 {
        assert(w.last() == t.last());
        assert(w.drop_last() =~= open + t.drop_last() + close);
        lemma_strip(open, t.drop_last(), close);
        assert(t.drop_last().push(t.last()) =~= t);
    } else if open.len() > 0 {
        assert(w.last() == open.last());
        assert(w.drop_last() =~= open.drop_last() + t + close);
        lemma_strip(open.drop_last(), t, close);
    } else {
        assert(w =~= t);
    }
}

/// A name between parentheses is one word, and its one token is the name.
pub proof fn lemma_tokens_of_name(open: Seq<char>, t: Seq<char>, close: Seq<char>)
    requires
        all_parentheses(open),
        t.len() > 0,
        has_no_space(t),
        has_no_parenthesis(t),
        !is_operator_word(t),
        all_parentheses(close),
    ensures
        words(open + t + close) == seq![open + t + close],
        tokens_of(seq![open + t + close]) == seq![t],
{
    let w = open + t + close;
    assert(has_no_space(w));
    lemma_single_word(w);
    lemma_strip(open, t, close);
    assert(!is_operator_word(w)) by {
        reveal_strlit("OR");
        reveal_strlit("AND");
        reveal_strlit("WITH");
        if open.len() > 0 {
            assert(is_parenthesis(open[0]) && w[0] == open[0]);
        } else if close.len() > 0 {
            assert(is_parenthesis(close.last()) && w.last() == close.last());
        } else {
            assert(w =~= t);
        }
    }
    lemma_tokens_of_one(w);
}

/// The canonical text of a well-formed license holds neither whitespace
/// nor parentheses.
pub proof fn lemma_simple_text(x: SimpleExpressionView)
    requires
        x.well_formed(),
    ensures
        render_simple(x).len() > 0,
        has_no_space(render_simple(x)),
        has_no_parenthesis(render_simple(x)),
{
    reveal_strlit("DocumentRef-");
    reveal_strlit("LicenseRef-");
    reveal_strlit(":");
    let t = render_simple(x);
    if !x.license_ref {
        assert(t =~= x.identifier);
        assert forall|i: int| 0 <= i < t.len() implies !is_ascii_whitespace(#[trigger] t[i])
            && !is_parenthesis(t[i]) by {
            if i < t.len() - 1 {
                assert(t.drop_last()[i] == t[i]);
            }
        }
    }
}

/// The tokens of the canonical text of a tree, with any parentheses
/// directly before and behind it, are the leaves of the tree.
pub proof fn lemma_tokens_of_wrapped(e: ExpressionView, open: Seq<char>, close: Seq<char>)
    requires
        e.well_formed(),
        names_no_operator(e),
        all_parentheses(open),
        all_parentheses(close),
    ensures
        tokens_of(words(open + render(e) + close)) == leaves(e),
    decreases e,
{
    let none = Seq::<char>::empty();
    match e {
        ExpressionView::Simple(x) => {
            lemma_simple_text(x);
            assert(!is_operator_word(leaves(e)[0]));
            lemma_tokens_of_name(open, render_simple(x), close);
        },
        ExpressionView::With(w) => {
            let tx = render_simple(w.license);
            let exc = w.exception;
            lemma_simple_text(w.license);
            assert(!is_operator_word(leaves(e)[0]));
            assert(!is_operator_word(leaves(e)[1]));
            assert(has_no_space(exc) && has_no_parenthesis(exc));
            lemma_plain_keywords();
            reveal_strlit("WITH");
            assert(open + render(e) + close =~= (open + tx + none) + (" "@ + "WITH"@ + " "@) + (none
                + exc + close));
            lemma_words_spaced(open + tx + none, "WITH"@, none + exc + close);
            lemma_tokens_of_name(open, tx, none);
            lemma_tokens_of_name(none, exc, close);
            lemma_tokens_concat(seq![open + tx + none] + seq!["WITH"@], seq![none + exc + close]);
            lemma_tokens_concat(seq![open + tx + none], seq!["WITH"@]);
            lemma_tokens_of_one("WITH"@);
            assert(seq![tx] + Seq::<Seq<char>>::empty() + seq![exc] =~= leaves(e));
        },
        ExpressionView::And(l, r) => {
            lemma_plain_keywords();
            reveal_strlit("AND");
            lemma_tokens_of_joined(*l, "AND"@, *r, open, close);
            assert(open + render(e) + close =~= (open + render(*l) + none) + (" "@ + "AND"@
                + " "@) + (none + render(*r) + close));
            assert(names_no_operator(*l) && names_no_operator(*r)) by {
                lemma_leaves_of_operands(leaves(e), *l, *r);
            }
            lemma_tokens_of_wrapped(*l, open, none);
            lemma_tokens_of_wrapped(*r, none, close);
        },
        ExpressionView::Or(l, r) => {
            lemma_plain_keywords();
            reveal_strlit("OR");
            lemma_tokens_of_joined(*l, "OR"@, *r, open, close);
            assert(open + render(e) + close =~= (open + render(*l) + none) + (" "@ + "OR"@ + " "@)
                + (none + render(*r) + close));
            assert(names_no_operator(*l) && names_no_operator(*r)) by {
                lemma_leaves_of_operands(leaves(e), *l, *r);
            }
            lemma_tokens_of_wrapped(*l, open, none);
            lemma_tokens_of_wrapped(*r, none, close);
        },
        ExpressionView::Parens(inner) => {
            reveal_strlit("(");
            reveal_strlit(")");
            assert(open + render(e) + close =~= (open + "("@) + render(*inner) + (")"@ + close));
            assert(names_no_operator(*inner)) by {
                assert(leaves(e) == leaves(*inner));
            }
            lemma_tokens_of_wrapped(*inner, open + "("@, ")"@ + close);
        },
    }
}

/// The leaves of two operands are leaves of what joins them.
pub proof fn lemma_leaves_of_operands(both: Seq<Seq<char>>, l: ExpressionView, r: ExpressionView)
    requires
        both == leaves(l) + leaves(r),
        forall|i: int| 0 <= i < both.len() ==> !is_operator_word(#[trigger] both[i]),
    ensures
        names_no_operator(l),
        names_no_operator(r),
{
    assert forall|i: int| 0 <= i < leaves(l).len() implies !is_operator_word(
        #[trigger] leaves(l)[i],
    ) by {
        assert(both[i] == leaves(l)[i]);
    }
    assert forall|i: int| 0 <= i < leaves(r).len() implies !is_operator_word(
        #[trigger] leaves(r)[i],
    ) by {
        assert(both[leaves(l).len() + i] == leaves(r)[i]);
    }
}

/// The tokens of two texts joined by an operator are those of the first
/// and those of the second.
pub proof fn lemma_tokens_of_joined(
    l: ExpressionView,
    operator: Seq<char>,
    r: ExpressionView,
    open: Seq<char>,
    close: Seq<char>,
)
    requires
        operator.len() > 0,
        has_no_space(operator),
        is_operator_word(operator),
    ensures
        tokens_of(
            words(
                (open + render(l) + Seq::<char>::empty()) + (" "@ + operator + " "@) + (Seq::<
                    char,
                >::empty() + render(r) + close),
            ),
        ) == tokens_of(words(open + render(l) + Seq::<char>::empty())) + tokens_of(
            words(Seq::<char>::empty() + render(r) + close),
        ),
{
    let a = open + render(l) + Seq::<char>::empty();
    let b = Seq::<char>::empty() + render(r) + close;
    lemma_words_spaced(a, operator, b);
    lemma_tokens_concat(words(a) + seq![operator], words(b));
    lemma_tokens_concat(words(a), seq![operator]);
    lemma_tokens_of_one(operator);
    assert(tokens_of(words(a)) + Seq::<Seq<char>>::empty() + tokens_of(words(b)) =~= tokens_of(
        words(a),
    ) + tokens_of(words(b)));
}

/// The tokens of the canonical text of a well-formed tree are its leaves,
/// in their order, as long as none of them is written `AND`, `OR` or
/// `WITH`.
pub proof fn lemma_licenses_are_leaves(e: ExpressionView)
    requires
        e.well_formed(),
        names_no_operator(e),
    ensures
        license_tokens(render(e)) == leaves(e),
{
    lemma_tokens_of_wrapped(e, Seq::empty(), Seq::empty());
    assert(Seq::<char>::empty() + render(e) + Seq::<char>::empty() =~= render(e));
}

} // verus!
