//! Every way of writing a well-formed tree is read back as that tree.
//!
//! The lemmas follow the grammar from the leaves up. Each one takes a tree,
//! a layout, and a text in which the tree stands written at some position,
//! before something that cannot be taken for more of it.

use crate::grammar;
use crate::inner_variant::{SimpleExpressionView, WithExpressionView};
use crate::layout::{fits, is_gap, is_spaces, spelled, Layout};
use crate::parser::ExpressionView;
use crate::render::render_simple;
use crate::text::{is_id_char, is_space};
use crate::wellformed::{is_identifier, lemma_spaces_end, reads_as_reference};
use vstd::prelude::*;

verus! {

/// The text `t` stands in `s` at `pos`.
pub open spec fn at(s: Seq<char>, pos: int, t: Seq<char>) -> bool {
    0 <= pos && pos + t.len() <= s.len() && s.subrange(pos, pos + t.len()) == t
}

/// At `p` the text ends, or `)` or whitespace stands there: nothing that
/// could go on an identifier or a license.
pub open spec fn closes(s: Seq<char>, p: int) -> bool {
    0 <= p <= s.len() && (p == s.len() || s[p] == ')' || is_space(s[p]))
}

/// A text that stands at a position is made of two that stand one behind
/// the other.
pub proof fn lemma_at_split(s: Seq<char>, pos: int, a: Seq<char>, b: Seq<char>)
    requires
        at(s, pos, a + b),
    ensures
        at(s, pos, a),
        at(s, pos + a.len(), b),
{
    let t = a + b;
    assert(s.subrange(pos, pos + a.len()) =~= a) by {
        assert forall|i: int| 0 <= i < a.len() implies s.subrange(pos, pos + a.len())[i]
            == a[i] by {
            assert(s.subrange(pos, pos + t.len())[i] == t[i]);
        }
    }
    assert(s.subrange(pos + a.len(), pos + a.len() + b.len()) =~= b) by {
        assert forall|i: int| 0 <= i < b.len() implies s.subrange(
            pos + a.len(),
            pos + a.len() + b.len(),
        )[i] == b[i] by {
            assert(s.subrange(pos, pos + t.len())[a.len() + i] == t[a.len() + i]);
        }
    }
}

/// Two texts that stand one behind the other make one that stands there.
pub proof fn lemma_at_join(s: Seq<char>, pos: int, a: Seq<char>, b: Seq<char>)
    requires
        at(s, pos, a),
        at(s, pos + a.len(), b),
    ensures
        at(s, pos, a + b),
{
    let t = a + b;
    assert(s.subrange(pos, pos + t.len()) =~= t) by {
        assert forall|i: int| 0 <= i < t.len() implies s.subrange(pos, pos + t.len())[i]
            == t[i] by {
            if i < a.len() {
                assert(s.subrange(pos, pos + a.len())[i] == a[i]);
            } else {
                assert(s.subrange(pos + a.len(), pos + a.len() + b.len())[i - a.len()] == b[i
                    - a.len()]);
            }
        }
    }
}

/// The characters of a text that stands at a position.
pub proof fn lemma_at_char(s: Seq<char>, pos: int, t: Seq<char>, i: int)
    requires
        at(s, pos, t),
        0 <= i < t.len(),
    ensures
        s[pos + i] == t[i],
{
    assert(s.subrange(pos, pos + t.len())[i] == t[i]);
}

/// A stretch of identifier characters with no other behind it is a whole
/// run, from wherever in it one starts.
pub proof fn lemma_id_run(s: Seq<char>, from: int, end: int)
    requires
        0 <= from <= end <= s.len(),
        forall|i: int| from <= i < end ==> is_id_char(#[trigger] s[i]),
        end < s.len() ==> !is_id_char(s[end]),
    ensures
        grammar::id_end(s, from) == end,
    decreases end - from,
{
    if from < end {
        lemma_id_run(s, from + 1, end);
    }
}

/// A stretch of whitespace with no other behind it is a whole run.
pub proof fn lemma_space_run(s: Seq<char>, from: int, end: int)
    requires
        0 <= from <= end <= s.len(),
        forall|i: int| from <= i < end ==> is_space(#[trigger] s[i]),
        end < s.len() ==> !is_space(s[end]),
    ensures
        grammar::spaces_end(s, from) == end,
    decreases end - from,
{
    if from < end {
        lemma_space_run(s, from + 1, end);
    }
}

/// An identifier that stands before something else is read whole.
pub proof fn lemma_reads_identifier(s: Seq<char>, pos: int, t: Seq<char>)
    requires
        at(s, pos, t),
        is_identifier(t),
        pos + t.len() < s.len() ==> !is_id_char(s[pos + t.len()]),
    ensures
        grammar::idstring(s, pos) == Some(pos + t.len()),
{
    assert forall|i: int| pos <= i < pos + t.len() implies is_id_char(#[trigger] s[i]) by {
        lemma_at_char(s, pos, t, i - pos);
    }
    lemma_id_run(s, pos, pos + t.len());
}

/// Whitespace that stands before something else is skipped whole.
pub proof fn lemma_skips_spaces(s: Seq<char>, pos: int, w: Seq<char>)
    requires
        at(s, pos, w),
        is_spaces(w),
        pos + w.len() < s.len() ==> !is_space(s[pos + w.len()]),
    ensures
        grammar::spaces_end(s, pos) == pos + w.len(),
{
    assert forall|i: int| pos <= i < pos + w.len() implies is_space(#[trigger] s[i]) by {
        lemma_at_char(s, pos, w, i - pos);
    }
    lemma_space_run(s, pos, pos + w.len());
}

/// A well-formed license that stands before the end of the text, `)` or
/// whitespace is read back as it is.
pub proof fn lemma_reads_simple(x: SimpleExpressionView, s: Seq<char>, pos: int)
    requires
        x.well_formed(),
        at(s, pos, render_simple(x)),
        closes(s, pos + render_simple(x).len()),
    ensures
        grammar::simple_license_expression(s, pos) == Some((x, pos + render_simple(x).len())),
{
    reveal_strlit("DocumentRef-");
    reveal_strlit("LicenseRef-");
    reveal_strlit(":");
    let doc_tag = grammar::document_ref_tag();
    let ref_tag = grammar::license_ref_tag();
    let text = render_simple(x);
    let end = pos + text.len();
    if x.license_ref {
        let id = x.identifier;
        match x.document_ref {
            Some(d) => {
                let document = doc_tag + d + ":"@;
                assert(text == document + ref_tag + id);
                lemma_at_split(s, pos, document + ref_tag, id);
                lemma_at_split(s, pos, document, ref_tag);
                lemma_at_split(s, pos, doc_tag + d, ":"@);
                lemma_at_split(s, pos, doc_tag, d);
                let doc_start = pos + 12;
                let doc_end = doc_start + d.len();
                lemma_at_char(s, doc_end, ":"@, 0);
                lemma_reads_identifier(s, doc_start, d);
                assert(grammar::document_ref(s, pos) == Some((d, doc_end + 1)));
                lemma_reads_identifier(s, doc_end + 1 + 11, id);
            },
            None => {
                assert(text =~= ref_tag + id);
                lemma_at_split(s, pos, ref_tag, id);
                lemma_at_char(s, pos, ref_tag, 0);
                assert(grammar::tag(s, pos, doc_tag) is None) by {
                    if grammar::tag(s, pos, doc_tag) is Some {
                        assert(s.subrange(pos, pos + 12)[0] == 'D');
                    }
                }
                lemma_reads_identifier(s, pos + 11, id);
            },
        }
    } else {
        let t = x.identifier;
        assert(text =~= t);
        let body = if is_identifier(t) {
            t
        } else {
            t.drop_last()
        };
        let body_end = pos + body.len();
        assert(at(s, pos, body)) by {
            if !is_identifier(t) {
                assert(t =~= body + seq![t.last()]);
                lemma_at_split(s, pos, body, seq![t.last()]);
            }
        }
        assert(body_end < s.len() ==> !is_id_char(s[body_end])) by {
            if !is_identifier(t) {
                lemma_at_char(s, pos, t, t.len() - 1);
            }
        }
        assert forall|i: int| pos <= i < body_end implies is_id_char(#[trigger] s[i]) by {
            lemma_at_char(s, pos, body, i - pos);
        }
        lemma_id_run(s, pos, body_end);
        assert(body_end < s.len() ==> s[body_end] != ':') by {
            if !is_identifier(t) {
                lemma_at_char(s, pos, t, t.len() - 1);
            }
        }
        // No document reference: its identifier would have to end before `:`.
        assert(grammar::document_ref(s, pos) is None) by {
            if let Some(a) = grammar::tag(s, pos, doc_tag) {
                assert forall|i: int| pos <= i < pos + 12 implies is_id_char(#[trigger] s[i]) by {
                    assert(s.subrange(pos, pos + 12)[i - pos] == doc_tag[i - pos]);
                }
                if a > body_end {
                    assert(is_id_char(s[body_end]));
                }
                lemma_id_run(s, a, body_end);
            }
        }
        // No license reference: the identifier does not read as one.
        assert(grammar::license_ref(s, pos) is None) by {
            if let Some(b) = grammar::tag(s, pos, ref_tag) {
                assert forall|i: int| pos <= i < pos + 11 implies is_id_char(#[trigger] s[i]) by {
                    assert(s.subrange(pos, pos + 11)[i - pos] == ref_tag[i - pos]);
                }
                if b > body_end {
                    assert(is_id_char(s[body_end]));
                }
                lemma_id_run(s, b, body_end);
                if b < body_end {
                    assert(t.take(11) =~= ref_tag) by {
                        assert forall|i: int| 0 <= i < 11 implies t.take(11)[i] == ref_tag[i] by {
                            lemma_at_char(s, pos, t, i);
                            assert(s.subrange(pos, pos + 11)[i] == ref_tag[i]);
                        }
                    }
                    lemma_at_char(s, pos, t, 11);
                    assert(reads_as_reference(t));
                }
            }
        }
        if !is_identifier(t) {
            lemma_at_char(s, pos, t, t.len() - 1);
        }
        assert(grammar::license_idstring(s, pos) == Some(end));
    }
}

/// Behind `p` stands whitespace at most, up to the end of the text or `)`.
pub open spec fn quiet(s: Seq<char>, p: int) -> bool {
    &&& 0 <= p <= s.len()
    &&& grammar::spaces_end(s, p) < s.len() ==> s[grammar::spaces_end(s, p)] == ')'
}

/// At `p` a factor can end: no exception follows.
pub open spec fn ends_factor(s: Seq<char>, p: int) -> bool {
    closes(s, p) && grammar::operator(s, p, "WITH"@, "with"@) is None
}

/// At `p` a term can end: neither an exception nor `AND` follows.
pub open spec fn ends_term(s: Seq<char>, p: int) -> bool {
    ends_factor(s, p) && grammar::operator(s, p, "AND"@, "and"@) is None
}

/// At `p` an expression can end: no operator follows.
pub open spec fn ends_expr(s: Seq<char>, p: int) -> bool {
    ends_term(s, p) && grammar::operator(s, p, "OR"@, "or"@) is None
}

/// No operator is read where the first character behind the whitespace is
/// not the first letter of its keyword.
pub proof fn lemma_no_operator(s: Seq<char>, p: int, upper: Seq<char>, lower: Seq<char>)
    requires
        0 <= p <= s.len(),
        upper.len() > 0,
        grammar::spaces_end(s, p) < s.len() ==> s[grammar::spaces_end(s, p)] != upper[0]
            && s[grammar::spaces_end(s, p)] != lower[0],
    ensures
        grammar::operator(s, p, upper, lower) is None,
{
    lemma_spaces_end(s, p);
    let a = grammar::spaces_end(s, p);
    if let Some(b) = grammar::keyword(s, a, upper, lower) {
        let word = s.subrange(a, a + upper.len());
        assert(word[0] == upper[0] || word[0] == lower[0]);
    }
}

/// Where whitespace at most stands up to the end of the text or `)`, an
/// expression can end.
pub proof fn lemma_quiet_ends_expr(s: Seq<char>, p: int)
    requires
        quiet(s, p),
    ensures
        ends_expr(s, p),
{
    reveal_strlit("WITH");
    reveal_strlit("with");
    reveal_strlit("AND");
    reveal_strlit("and");
    reveal_strlit("OR");
    reveal_strlit("or");
    lemma_no_operator(s, p, "WITH"@, "with"@);
    lemma_no_operator(s, p, "AND"@, "and"@);
    lemma_no_operator(s, p, "OR"@, "or"@);
    if p < s.len() && !is_space(s[p]) {
        assert(grammar::spaces_end(s, p) == p);
    }
}

/// An operator that stands before something else is read, and no operator
/// with another first letter is read in its place.
pub proof fn lemma_reads_operator(
    s: Seq<char>,
    p: int,
    before: Seq<char>,
    keyword: Seq<char>,
    after: Seq<char>,
    upper: Seq<char>,
    lower: Seq<char>,
)
    requires
        at(s, p, before + keyword + after),
        is_gap(before),
        grammar::spells(keyword, upper, lower),
        is_gap(after),
        upper.len() > 0,
        !is_space(upper[0]),
        !is_space(lower[0]),
        p + before.len() + keyword.len() + after.len() < s.len() ==> !is_space(
            s[p + before.len() + keyword.len() + after.len()],
        ),
    ensures
        grammar::operator(s, p, upper, lower) == Some(
            p + before.len() + keyword.len() + after.len(),
        ),
        closes(s, p),
        grammar::spaces_end(s, p) == p + before.len(),
        s[p + before.len()] == upper[0] || s[p + before.len()] == lower[0],
{
    lemma_at_split(s, p, before + keyword, after);
    lemma_at_split(s, p, before, keyword);
    let a = p + before.len();
    let b = a + keyword.len();
    lemma_at_char(s, a, keyword, 0);
    lemma_at_char(s, p, before, 0);
    lemma_skips_spaces(s, p, before);
    lemma_skips_spaces(s, b, after);
}

/// The text of a well-formed tree starts with an identifier character or
/// `(`, whatever the layout.
pub proof fn lemma_first_char(e: ExpressionView, layout: Layout)
    requires
        e.well_formed(),
        fits(e, layout),
    ensures
        spelled(e, layout).len() > 0,
        is_id_char(spelled(e, layout)[0]) || spelled(e, layout)[0] == '(',
    decreases e,
{
    reveal_strlit("DocumentRef-");
    reveal_strlit("LicenseRef-");
    reveal_strlit("(");
    match e {
        ExpressionView::Simple(x) => {
            lemma_first_char_simple(x);
        },
        ExpressionView::With(w) => {
            lemma_first_char_simple(w.license);
        },
        ExpressionView::And(l, r) => {
            if let Layout::Binary { left, before, keyword, after, right } = layout {
                lemma_first_char(*l, *left);
            }
        },
        ExpressionView::Or(l, r) => {
            if let Layout::Binary { left, before, keyword, after, right } = layout {
                lemma_first_char(*l, *left);
            }
        },
        ExpressionView::Parens(inner) => {},
    }
}

/// The text of a well-formed license starts with an identifier character.
pub proof fn lemma_first_char_simple(x: SimpleExpressionView)
    requires
        x.well_formed(),
    ensures
        render_simple(x).len() > 0,
        is_id_char(render_simple(x)[0]),
{
    reveal_strlit("DocumentRef-");
    reveal_strlit("LicenseRef-");
    if !x.license_ref {
        assert(render_simple(x) =~= x.identifier);
        if !is_identifier(x.identifier) {
            assert(x.identifier[0] == x.identifier.drop_last()[0]);
        }
    }
}

/// The parts of a text made of a left text, an operator and a right text
/// stand one behind the other.
pub proof fn lemma_binary_parts(
    s: Seq<char>,
    pos: int,
    left: Seq<char>,
    before: Seq<char>,
    keyword: Seq<char>,
    after: Seq<char>,
    right: Seq<char>,
)
    requires
        at(s, pos, left + before + keyword + after + right),
    ensures
        at(s, pos, left),
        at(s, pos + left.len(), before + keyword + after),
        at(s, pos + left.len() + before.len() + keyword.len() + after.len(), right),
{
    lemma_at_split(s, pos, left + before + keyword + after, right);
    lemma_at_split(s, pos, left + before + keyword, after);
    lemma_at_split(s, pos, left + before, keyword);
    lemma_at_split(s, pos, left, before);
    lemma_at_join(s, pos + left.len(), before, keyword);
    lemma_at_join(s, pos + left.len(), before + keyword, after);
}

/// Where `(` stands, no license is read.
pub proof fn lemma_no_license_at_parenthesis(s: Seq<char>, pos: int)
    requires
        0 <= pos < s.len(),
        s[pos] == '(',
    ensures
        grammar::simple_license_expression(s, pos) is None,
        grammar::with_expression(s, pos) is None,
{
    reveal_strlit("DocumentRef-");
    reveal_strlit("LicenseRef-");
    if grammar::tag(s, pos, grammar::document_ref_tag()) is Some {
        assert(s.subrange(pos, pos + 12)[0] == 'D');
    }
    if grammar::tag(s, pos, grammar::license_ref_tag()) is Some {
        assert(s.subrange(pos, pos + 11)[0] == 'L');
    }
}

/// A well-formed license alone, before what can follow a factor, is read
/// back as it is.
pub proof fn lemma_reads_simple_factor(x: SimpleExpressionView, s: Seq<char>, pos: int)
    requires
        x.well_formed(),
        at(s, pos, render_simple(x)),
        ends_factor(s, pos + render_simple(x).len()),
    ensures
        grammar::factor(s, pos) == Some(
            (ExpressionView::Simple(x), pos + render_simple(x).len()),
        ),
{
    lemma_reads_simple(x, s, pos);
}

/// A well-formed license with an exception, written with any whitespace
/// and any spelling of the keyword before what closes an identifier, is
/// read back as it is.
pub proof fn lemma_reads_with(
    w: WithExpressionView,
    before: Seq<char>,
    keyword: Seq<char>,
    after: Seq<char>,
    s: Seq<char>,
    pos: int,
)
    requires
        w.well_formed(),
        is_gap(before),
        grammar::spells(keyword, "WITH"@, "with"@),
        is_gap(after),
        at(s, pos, render_simple(w.license) + before + keyword + after + w.exception),
        closes(
            s,
            pos + render_simple(w.license).len() + before.len() + keyword.len() + after.len()
                + w.exception.len(),
        ),
    ensures
        grammar::factor(s, pos) == Some(
            (
                ExpressionView::With(w),
                pos + render_simple(w.license).len() + before.len() + keyword.len() + after.len()
                    + w.exception.len(),
            ),
        ),
{
    let tx = render_simple(w.license);
    let exc = w.exception;
    lemma_binary_parts(s, pos, tx, before, keyword, after, exc);
    let px = pos + tx.len();
    let b = px + before.len() + keyword.len() + after.len();
    lemma_at_char(s, b, exc, 0);
    assert(!is_space(s[b]));
    assert(!is_space("WITH"@[0]) && !is_space("with"@[0]) && "WITH"@.len() > 0) by {
        reveal_strlit("WITH");
        reveal_strlit("with");
    }
    lemma_reads_operator(s, px, before, keyword, after, "WITH"@, "with"@);
    lemma_reads_simple(w.license, s, pos);
    lemma_reads_identifier(s, b, exc);
    assert(grammar::with_expression(s, pos) == Some((ExpressionView::With(w), b + exc.len())));
}

/// What `parens` yields for an expression read between `(` and `)`.
pub proof fn lemma_parens_around(
    s: Seq<char>,
    pos: int,
    a: int,
    inner: ExpressionView,
    b: int,
    c: int,
)
    requires
        0 <= pos < a <= b <= c < s.len(),
        s[pos] == '(',
        grammar::spaces_end(s, pos + 1) == a,
        grammar::expr(s, a) == Some((inner, b)),
        grammar::spaces_end(s, b) == c,
        s[c] == ')',
    ensures
        grammar::factor(s, pos) == Some((ExpressionView::Parens(Box::new(inner)), c + 1)),
{
    lemma_no_license_at_parenthesis(s, pos);
    assert(grammar::parens(s, pos) == Some((ExpressionView::Parens(Box::new(inner)), c + 1)));
}

/// A well-formed factor, written in any layout before what can follow a
/// factor, is read back as it is.
pub proof fn lemma_reads_factor(e: ExpressionView, layout: Layout, s: Seq<char>, pos: int)
    requires
        e.well_formed(),
        e.is_factor(),
        fits(e, layout),
        at(s, pos, spelled(e, layout)),
        ends_factor(s, pos + spelled(e, layout).len()),
    ensures
        grammar::factor(s, pos) == Some((e, pos + spelled(e, layout).len())),
    decreases e, 0int,
{
    let text = spelled(e, layout);
    match e {
        ExpressionView::Simple(x) => {
            lemma_reads_simple_factor(x, s, pos);
        },
        ExpressionView::With(w) => {
            if let Layout::With { before, keyword, after } = layout {
                lemma_reads_with(w, before, keyword, after, s, pos);
            }
        },
        ExpressionView::Parens(inner) => {
            if let Layout::Parens { before, inner: within, after } = layout {
                let ti = spelled(*inner, *within);
                assert("("@ =~= seq!['('] && ")"@ =~= seq![')']) by {
                    reveal_strlit("(");
                    reveal_strlit(")");
                }
                assert(text == "("@ + before + ti + after + ")"@);
                lemma_at_split(s, pos, "("@ + before + ti + after, ")"@);
                lemma_at_split(s, pos, "("@ + before + ti, after);
                lemma_at_split(s, pos, "("@ + before, ti);
                lemma_at_split(s, pos, "("@, before);
                lemma_at_char(s, pos, "("@, 0);
                let a = pos + 1 + before.len();
                let b = a + ti.len();
                let c = b + after.len();
                lemma_at_char(s, c, ")"@, 0);
                lemma_first_char(*inner, *within);
                lemma_at_char(s, a, ti, 0);
                lemma_skips_spaces(s, pos + 1, before);
                lemma_skips_spaces(s, b, after);
                assert(quiet(s, b));
                lemma_quiet_ends_expr(s, b);
                lemma_reads_expr(*inner, *within, s, a);
                assert(grammar::or_tail(s, b, *inner) == (*inner, b));
                lemma_parens_around(s, pos, a, *inner, b, c);
            }
        },
        _ => {},
    }
}

/// What `and_tail` yields where `AND` and a factor are read.
pub proof fn lemma_and_tail_step(
    s: Seq<char>,
    p: int,
    left: ExpressionView,
    a: int,
    right: ExpressionView,
    b: int,
)
    requires
        0 <= p < a < b <= s.len(),
        grammar::operator(s, p, "AND"@, "and"@) == Some(a),
        grammar::factor(s, a) == Some((right, b)),
    ensures
        grammar::and_tail(s, p, left) == grammar::and_tail(
            s,
            b,
            ExpressionView::And(Box::new(left), Box::new(right)),
        ),
{
}

/// What `or_tail` yields where `OR` and a term are read.
pub proof fn lemma_or_tail_step(
    s: Seq<char>,
    p: int,
    left: ExpressionView,
    a: int,
    right: ExpressionView,
    b: int,
)
    requires
        0 <= p < a < b <= s.len(),
        grammar::operator(s, p, "OR"@, "or"@) == Some(a),
        grammar::term(s, a) == Some((right, b)),
    ensures
        grammar::or_tail(s, p, left) == grammar::or_tail(
            s,
            b,
            ExpressionView::Or(Box::new(left), Box::new(right)),
        ),
{
}

/// The first letters of the keywords differ, and none is whitespace.
pub proof fn lemma_keyword_letters()
    ensures
        "WITH"@.len() == 4 && "with"@.len() == 4 && "WITH"@[0] == 'W' && "with"@[0] == 'w',
        "AND"@.len() == 3 && "and"@.len() == 3 && "AND"@[0] == 'A' && "and"@[0] == 'a',
        "OR"@.len() == 2 && "or"@.len() == 2 && "OR"@[0] == 'O' && "or"@[0] == 'o',
{
    reveal_strlit("WITH");
    reveal_strlit("with");
    reveal_strlit("AND");
    reveal_strlit("and");
    reveal_strlit("OR");
    reveal_strlit("or");
}

/// A well-formed term, written in any layout before what can follow a
/// factor, is read up to its end, where the reading of `AND` goes on.
pub proof fn lemma_reads_term(e: ExpressionView, layout: Layout, s: Seq<char>, pos: int)
    requires
        e.well_formed(),
        e.is_term(),
        fits(e, layout),
        at(s, pos, spelled(e, layout)),
        ends_factor(s, pos + spelled(e, layout).len()),
    ensures
        grammar::term(s, pos) == Some(
            grammar::and_tail(s, pos + spelled(e, layout).len(), e),
        ),
    decreases e, 1int,
{
    let text = spelled(e, layout);
    let end = pos + text.len();
    match e {
        ExpressionView::And(l, r) => {
            if let Layout::Binary { left, before, keyword, after, right } = layout {
                let tl = spelled(*l, *left);
                let tr = spelled(*r, *right);
                assert(text == tl + before + keyword + after + tr);
                lemma_binary_parts(s, pos, tl, before, keyword, after, tr);
                let pl = pos + tl.len();
                let a = pl + before.len() + keyword.len() + after.len();
                lemma_first_char(*r, *right);
                lemma_first_char(*l, *left);
                lemma_at_char(s, a, tr, 0);
                lemma_keyword_letters();
                lemma_reads_operator(s, pl, before, keyword, after, "AND"@, "and"@);
                lemma_no_operator(s, pl, "WITH"@, "with"@);
                lemma_reads_term(*l, *left, s, pos);
                lemma_reads_factor(*r, *right, s, a);
                lemma_and_tail_step(s, pl, *l, a, *r, end);
            }
        },
        _ => {
            lemma_first_char(e, layout);
            lemma_reads_factor(e, layout, s, pos);
        },
    }
}

/// A well-formed expression, written in any layout before what can follow
/// a term, is read up to its end, where the reading of `OR` goes on.
pub proof fn lemma_reads_expr(e: ExpressionView, layout: Layout, s: Seq<char>, pos: int)
    requires
        e.well_formed(),
        fits(e, layout),
        at(s, pos, spelled(e, layout)),
        ends_term(s, pos + spelled(e, layout).len()),
    ensures
        grammar::expr(s, pos) == Some(grammar::or_tail(s, pos + spelled(e, layout).len(), e)),
    decreases e, 2int,
{
    let text = spelled(e, layout);
    let end = pos + text.len();
    match e {
        ExpressionView::Or(l, r) => {
            if let Layout::Binary { left, before, keyword, after, right } = layout {
                let tl = spelled(*l, *left);
                let tr = spelled(*r, *right);
                assert(text == tl + before + keyword + after + tr);
                lemma_binary_parts(s, pos, tl, before, keyword, after, tr);
                let pl = pos + tl.len();
                let a = pl + before.len() + keyword.len() + after.len();
                lemma_first_char(*r, *right);
                lemma_first_char(*l, *left);
                lemma_at_char(s, a, tr, 0);
                lemma_keyword_letters();
                lemma_reads_operator(s, pl, before, keyword, after, "OR"@, "or"@);
                lemma_no_operator(s, pl, "WITH"@, "with"@);
                lemma_no_operator(s, pl, "AND"@, "and"@);
                lemma_reads_expr(*l, *left, s, pos);
                lemma_reads_term(*r, *right, s, a);
                assert(grammar::and_tail(s, end, *r) == (*r, end));
                lemma_or_tail_step(s, pl, *l, a, *r, end);
            }
        },
        _ => {
            lemma_first_char(e, layout);
            lemma_reads_term(e, layout, s, pos);
            assert(grammar::and_tail(s, end, e) == (e, end));
        },
    }
}

} // verus!
