//! Parsing undoes writing, and rendering is writing in canonical form.
//!
//! Whatever layout a well-formed tree is written in, the grammar reads the
//! text back as that tree; and every text that the grammar reads is a tree
//! written in some layout. So the canonical text of a parsed tree is the
//! text that was parsed, with its keywords in upper case, single spaces
//! around them, and no other whitespace.

use crate::completeness::{
    at,
    lemma_at_char,
    lemma_first_char,
    lemma_quiet_ends_expr,
    lemma_reads_expr,
    lemma_skips_spaces,
};
use crate::grammar;
use crate::layout::{
    canonical,
    fits,
    is_spaces,
    lemma_render_is_canonical,
    lemma_render_is_plain,
    plain,
    spelled,
    Layout,
};
use crate::licenses::lists_licenses;
use crate::parser::ExpressionView;
use crate::render::render;
use crate::soundness::lemma_expr_spelling;
use crate::wellformed::{lemma_parse_well_formed, lemma_spaces_end};
use vstd::prelude::*;

verus! {

/// The text `t` is the tree `e` written in `layout`, between the
/// whitespace `lead` and the whitespace `trail`.
pub open spec fn writes(
    t: Seq<char>,
    e: ExpressionView,
    lead: Seq<char>,
    layout: Layout,
    trail: Seq<char>,
) -> bool {
    is_spaces(lead) && fits(e, layout) && is_spaces(trail) && t == lead + spelled(e, layout)
        + trail
}

/// The text `t` is the tree `e` written in some layout, with optional
/// whitespace before and behind.
pub open spec fn is_written(t: Seq<char>, e: ExpressionView) -> bool {
    exists|lead: Seq<char>, layout: Layout, trail: Seq<char>|
        #[trigger] writes(t, e, lead, layout, trail)
}

/// Parsing undoes writing: a well-formed tree, written in any layout that
/// fits it and with any whitespace before and behind, parses to that tree.
pub proof fn lemma_parse_spelled(
    e: ExpressionView,
    layout: Layout,
    lead: Seq<char>,
    trail: Seq<char>,
)
    requires
        e.well_formed(),
        fits(e, layout),
        is_spaces(lead),
        is_spaces(trail),
    ensures
        grammar::parse(lead + spelled(e, layout) + trail) == Some(e),
{
    let text = spelled(e, layout);
    let s = lead + text + trail;
    let pos = lead.len() as int;
    let end = pos + text.len();
    assert(at(s, 0, lead)) by {
        assert(s.subrange(0, lead.len() as int) =~= lead);
    }
    assert(at(s, pos, text)) by {
        assert(s.subrange(pos, end) =~= text);
    }
    assert(at(s, end, trail)) by {
        assert(s.subrange(end, end + trail.len()) =~= trail);
    }
    lemma_first_char(e, layout);
    lemma_at_char(s, pos, text, 0);
    lemma_skips_spaces(s, 0, lead);
    lemma_skips_spaces(s, end, trail);
    lemma_quiet_ends_expr(s, end);
    lemma_reads_expr(e, layout, s, pos);
}

/// Every text that parses is its tree written in some layout, with
/// whitespace before and behind: the lemma gives that whitespace and the
/// layout.
pub proof fn lemma_parsed_is_spelled(t: Seq<char>) -> (written: (Seq<char>, Layout, Seq<char>))
    requires
        grammar::parse(t) is Some,
    ensures
        grammar::parse(t) matches Some(e) && e.well_formed() && is_spaces(written.0) && fits(
            e,
            written.1,
        ) && is_spaces(written.2) && t == written.0 + spelled(e, written.1) + written.2,
{
    lemma_parse_well_formed(t);
    lemma_spaces_end(t, 0);
    let a = grammar::spaces_end(t, 0);
    let layout = lemma_expr_spelling(t, a);
    let (e, b) = grammar::expr(t, a)->0;
    lemma_spaces_end(t, b);
    let lead = t.subrange(0, a);
    let trail = t.subrange(b, t.len() as int);
    assert(t =~= lead + t.subrange(a, b) + trail);
    (lead, layout, trail)
}

/// What the grammar accepts: a text parses to a tree exactly if the tree
/// is well formed and the text is that tree written in some layout.
pub proof fn lemma_parse_is_reading(t: Seq<char>, e: ExpressionView)
    ensures
        grammar::parse(t) == Some(e) <==> e.well_formed() && is_written(t, e),
{
    if grammar::parse(t) == Some(e) {
        let written = lemma_parsed_is_spelled(t);
        assert(writes(t, e, written.0, written.1, written.2));
    }
    if e.well_formed() && is_written(t, e) {
        let (lead, layout, trail) = choose|lead: Seq<char>, layout: Layout, trail: Seq<char>|
            #[trigger] writes(t, e, lead, layout, trail);
        lemma_parse_spelled(e, layout, lead, trail);
    }
}

/// No text is a writing of two trees.
pub proof fn lemma_spelling_is_unambiguous(
    e1: ExpressionView,
    layout1: Layout,
    lead1: Seq<char>,
    trail1: Seq<char>,
    e2: ExpressionView,
    layout2: Layout,
    lead2: Seq<char>,
    trail2: Seq<char>,
)
    requires
        e1.well_formed(),
        fits(e1, layout1),
        is_spaces(lead1),
        is_spaces(trail1),
        e2.well_formed(),
        fits(e2, layout2),
        is_spaces(lead2),
        is_spaces(trail2),
        lead1 + spelled(e1, layout1) + trail1 == lead2 + spelled(e2, layout2) + trail2,
    ensures
        e1 == e2,
{
    lemma_parse_spelled(e1, layout1, lead1, trail1);
    lemma_parse_spelled(e2, layout2, lead2, trail2);
}

/// Round trip: the canonical text of the tree that a text parses to is
/// that text in canonical form. The text is its tree written in some
/// layout between leading and trailing whitespace, which the lemma gives;
/// the canonical text is the tree written in the same layout with every
/// keyword in upper case, one space on each side of it, and no other
/// whitespace.
pub proof fn lemma_round_trip(t: Seq<char>) -> (written: (Seq<char>, Layout, Seq<char>))
    requires
        grammar::parse(t) is Some,
    ensures
        grammar::parse(t) matches Some(e) && is_spaces(written.0) && fits(e, written.1)
            && is_spaces(written.2) && t == written.0 + spelled(e, written.1) + written.2
            && render(e) == spelled(e, canonical(written.1)),
{
    let written = lemma_parsed_is_spelled(t);
    lemma_render_is_canonical(grammar::parse(t)->0, written.1);
    written
}

/// The canonical text of a well-formed tree parses to that tree.
pub proof fn lemma_parse_render(e: ExpressionView)
    requires
        e.well_formed(),
    ensures
        grammar::parse(render(e)) == Some(e),
{
    lemma_render_is_plain(e);
    lemma_parse_spelled(e, plain(e), Seq::empty(), Seq::empty());
    assert(Seq::<char>::empty() + render(e) + Seq::<char>::empty() =~= render(e));
}

/// The canonical text of a parsed tree parses to the same tree: to parse
/// and render a canonical text changes nothing.
pub proof fn lemma_reparse(t: Seq<char>)
    requires
        grammar::parse(t) is Some,
    ensures
        grammar::parse(render(grammar::parse(t)->0)) == grammar::parse(t),
{
    lemma_parse_well_formed(t);
    lemma_parse_render(grammar::parse(t)->0);
}

/// The licenses of the canonical text of a parsed expression are those of
/// the text that was parsed: a list names the licenses of the one exactly
/// if it names those of the other.
pub proof fn lemma_licenses_of_rendered_text(t: Seq<char>, list: Seq<Seq<char>>)
    requires
        grammar::parse(t) is Some,
    ensures
        grammar::parse(t) matches Some(e) && grammar::parse(render(e)) matches Some(again) && (
        lists_licenses(list, render(again)) <==> lists_licenses(list, render(e))),
{
    lemma_reparse(t);
}

} // verus!
