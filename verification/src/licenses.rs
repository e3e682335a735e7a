//! The identifiers that a canonical text names.
//!
//! The text is cut into words at ASCII whitespace. The words `AND`, `OR` and
//! `WITH` are operators and are left out; every other word, without its
//! parentheses, is a token. The tokens are listed in ascending order, each
//! once.

use crate::lexer::tag;
use crate::text::string_of;
use vstd::prelude::*;

verus! {

/// ASCII whitespace: space, tab, line feed, form feed or carriage return.
pub open spec fn is_ascii_whitespace(c: char) -> bool {
    c == ' ' || c == '\t' || c == '\n' || c == '\x0C' || c == '\r'
}

/// The end of the longest run without whitespace that starts at `pos`.
pub open spec fn word_end(s: Seq<char>, pos: int) -> int
    decreases s.len() - pos,
{
    if 0 <= pos < s.len() && !is_ascii_whitespace(s[pos]) {
        word_end(s, pos + 1)
    } else {
        pos
    }
}

/// The words of `s` that start at `pos` or behind it, in order. A word is a
/// longest run without whitespace.
pub open spec fn words_from(s: Seq<char>, pos: int) -> Seq<Seq<char>>
    decreases s.len() - pos,
{
    if !(0 <= pos < s.len()) {
        Seq::empty()
    } else if is_ascii_whitespace(s[pos]) {
        words_from(s, pos + 1)
    } else {
        let end = word_end(s, pos);
        if pos < end <= s.len() {
            seq![s.subrange(pos, end)] + words_from(s, end)
        } else {
            Seq::empty()
        }
    }
}

/// The words of `s`, in order.
pub open spec fn words(s: Seq<char>) -> Seq<Seq<char>> {
    words_from(s, 0)
}

/// `AND`, `OR` or `WITH`, in upper case.
pub open spec fn is_operator_word(w: Seq<char>) -> bool {
    w == "OR"@ || w == "AND"@ || w == "WITH"@
}

/// `w` without its parentheses.
pub open spec fn strip_parentheses(w: Seq<char>) -> Seq<char>
    decreases w.len(),
{
    if w.len() == 0 {
        w
    } else if w.last() == '(' || w.last() == ')' {
        strip_parentheses(w.drop_last())
    } else {
        strip_parentheses(w.drop_last()).push(w.last())
    }
}

/// The tokens among `words`, in order: every word but the operators,
/// without its parentheses.
pub open spec fn tokens_of(words: Seq<Seq<char>>) -> Seq<Seq<char>>
    decreases words.len(),
{
    if words.len() == 0 {
        Seq::empty()
    } else if is_operator_word(words.last()) {
        tokens_of(words.drop_last())
    } else {
        tokens_of(words.drop_last()).push(strip_parentheses(words.last()))
    }
}

/// The tokens of a text, in the order of the text and with repetitions.
pub open spec fn license_tokens(text: Seq<char>) -> Seq<Seq<char>> {
    tokens_of(words(text))
}

/// `a` comes before `b` in the lexicographic order by code points: at the
/// first place where they differ `a` has the smaller character, or `a` ends
/// there and `b` goes on.
pub open spec fn lex_less(a: Seq<char>, b: Seq<char>) -> bool {
    exists|k: int|
        #![trigger a.take(k)]
        0 <= k <= a.len() && k <= b.len() && a.take(k) == b.take(k) && (if k == a.len() {
            k < b.len()
        } else {
            k < b.len() && a[k] < b[k]
        })
}

/// Each entry comes before the next in lexicographic order; so none occurs
/// twice.
pub open spec fn strictly_sorted(list: Seq<Seq<char>>) -> bool {
    forall|i: int, j: int| 0 <= i < j < list.len() ==> lex_less(#[trigger] list[i], #[trigger] list[j])
}

/// The strings of `list` as character sequences.
pub open spec fn texts(list: Seq<String>) -> Seq<Seq<char>> {
    list.map_values(|s: String| s@)
}

/// The vectors of `list` as character sequences.
pub open spec fn contents(list: Seq<Vec<char>>) -> Seq<Seq<char>> {
    list.map_values(|v: Vec<char>| v@)
}

/// `list` names exactly the tokens of `text`, in ascending order, each once.
pub open spec fn lists_licenses(list: Seq<Seq<char>>, text: Seq<char>) -> bool {
    &&& strictly_sorted(list)
    &&& forall|t: Seq<char>| list.contains(t) <==> license_tokens(text).contains(t)
}

/// How two texts compare.
#[derive(Debug, Clone, Copy, PartialEq, Eq)]
pub enum Order {
    Before,
    Same,
    After,
}

/// The lexicographic order is transitive.
pub proof fn lemma_lex_less_transitive(a: Seq<char>, b: Seq<char>, c: Seq<char>)
    requires
        lex_less(a, b),
        lex_less(b, c),
    ensures
        lex_less(a, c),
{
    let k1 = choose|k: int|
        #![trigger a.take(k)]
        0 <= k <= a.len() && k <= b.len() && a.take(k) == b.take(k) && (if k == a.len() {
            k < b.len()
        } else {
            k < b.len() && a[k] < b[k]
        });
    let k2 = choose|k: int|
        #![trigger b.take(k)]
        0 <= k <= b.len() && k <= c.len() && b.take(k) == c.take(k) && (if k == b.len() {
            k < c.len()
        } else {
            k < c.len() && b[k] < c[k]
        });
    let k = if k1 <= k2 {
        k1
    } else {
        k2
    };
    assert(a.take(k) =~= c.take(k)) by {
        assert forall|i: int| 0 <= i < k implies a[i] == c[i] by {
            assert(a.take(k1)[i] == b.take(k1)[i]);
            assert(b.take(k2)[i] == c.take(k2)[i]);
        }
    }
    if k1 < k2 {
        assert(b.take(k2)[k1] == c.take(k2)[k1]);
    }
    if k2 < k1 {
        assert(a.take(k1)[k2] == b.take(k1)[k2]);
    }
}

/// Nothing comes before itself.
pub proof fn lemma_lex_less_irreflexive(a: Seq<char>)
    ensures
        !lex_less(a, a),
{
}

/// An ascending list is fixed by what it holds: two ascending lists with
/// the same entries are one list.
pub proof fn lemma_sorted_list_is_unique(a: Seq<Seq<char>>, b: Seq<Seq<char>>)
    requires
        strictly_sorted(a),
        strictly_sorted(b),
        forall|t: Seq<char>| a.contains(t) <==> b.contains(t),
    ensures
        a == b,
    decreases a.len(),
{
    if a.len() == 0 {
        if b.len() > 0 {
            assert(b.contains(b[0]));
        }
        assert(a =~= b);
    } else {
        assert(a.contains(a[0]));
        let j = choose|j: int| 0 <= j < b.len() && b[j] == a[0];
        assert(b.contains(b[0]));
        let i = choose|i: int| 0 <= i < a.len() && a[i] == b[0];
        if i > 0 {
            assert(lex_less(a[0], a[i]));
            if j > 0 {
                assert(lex_less(b[0], b[j]));
                lemma_lex_less_transitive(a[0], a[i], a[0]);
            }
            lemma_lex_less_irreflexive(a[0]);
        }
        assert(a[0] == b[0]);
        let a1 = a.drop_first();
        let b1 = b.drop_first();
        assert forall|x: int, y: int| 0 <= x < y < a1.len() implies lex_less(
            #[trigger] a1[x],
            #[trigger] a1[y],
        ) by {
            assert(lex_less(a[x + 1], a[y + 1]));
        }
        assert forall|x: int, y: int| 0 <= x < y < b1.len() implies lex_less(
            #[trigger] b1[x],
            #[trigger] b1[y],
        ) by {
            assert(lex_less(b[x + 1], b[y + 1]));
        }
        assert forall|t: Seq<char>| a1.contains(t) <==> b1.contains(t) by {
            if a1.contains(t) {
                let k = choose|k: int| 0 <= k < a1.len() && a1[k] == t;
                assert(a[k + 1] == t);
                assert(lex_less(a[0], a[k + 1]));
                assert(a.contains(t));
                let m = choose|m: int| 0 <= m < b.len() && b[m] == t;
                if m == 0 {
                    lemma_lex_less_irreflexive(t);
                }
                assert(b1[m - 1] == t);
            }
            if b1.contains(t) {
                let k = choose|k: int| 0 <= k < b1.len() && b1[k] == t;
                assert(b[k + 1] == t);
                assert(lex_less(b[0], b[k + 1]));
                assert(b.contains(t));
                let m = choose|m: int| 0 <= m < a.len() && a[m] == t;
                if m == 0 {
                    lemma_lex_less_irreflexive(t);
                }
                assert(a1[m - 1] == t);
            }
        }
        lemma_sorted_list_is_unique(a1, b1);
        assert(a =~= seq![a[0]] + a1);
        assert(b =~= seq![b[0]] + b1);
    }
}

/// Only one list names the licenses of a text.
pub proof fn lemma_license_list_is_unique(a: Seq<Seq<char>>, b: Seq<Seq<char>>, text: Seq<char>)
    requires
        lists_licenses(a, text),
        lists_licenses(b, text),
    ensures
        a == b,
{
    lemma_sorted_list_is_unique(a, b);
}

/// Compares two texts in lexicographic order by code points.
pub fn compare(a: &[char], b: &[char]) -> (r: Order)
    ensures
        r == Order::Before <==> lex_less(a@, b@),
        r == Order::Same <==> a@ == b@,
        r == Order::After <==> lex_less(b@, a@),
{
    let mut i: usize = 0;
    while i < a.len() && i < b.len() && a[i] == b[i]
        invariant
            i <= a@.len(),
            i <= b@.len(),
            a@.take(i as int) == b@.take(i as int),
        decreases a@.len() - i,
    {
        assert(a@.take(i + 1) =~= a@.take(i as int).push(a@[i as int]));
        assert(b@.take(i + 1) =~= b@.take(i as int).push(b@[i as int]));
        i += 1;
    }
    let r = if i == a.len() {
        if i == b.len() {
            Order::Same
        } else {
            Order::Before
        }
    } else if i == b.len() {
        Order::After
    } else if a[i] < b[i] {
        Order::Before
    } else {
        Order::After
    };
    proof {
        let k = i as int;
        assert(a@.take(a@.len() as int) =~= a@);
        assert(b@.take(b@.len() as int) =~= b@);
        if r == Order::Before {
            assert(a@.take(k) == b@.take(k));
        }
        if r == Order::After {
            assert(b@.take(k) == a@.take(k));
        }
        if r != Order::Same {
            assert(a@ != b@);
        }
        if r != Order::Before {
            assert(!lex_less(a@, b@)) by {
                if lex_less(a@, b@) {
                    if r == Order::Same {
                        lemma_lex_less_irreflexive(a@);
                    } else {
                        lemma_lex_less_transitive(a@, b@, a@);
                        lemma_lex_less_irreflexive(a@);
                    }
                }
            }
        }
        if r != Order::After {
            assert(!lex_less(b@, a@)) by {
                if lex_less(b@, a@) {
                    if r == Order::Same {
                        lemma_lex_less_irreflexive(a@);
                    } else {
                        lemma_lex_less_transitive(a@, b@, a@);
                        lemma_lex_less_irreflexive(a@);
                    }
                }
            }
        }
    }
    r
}

/// A list with one more entry at its end holds that entry and what it held.
pub proof fn lemma_push_contains(list: Seq<Seq<char>>, last: Seq<char>, t: Seq<char>)
    ensures
        list.push(last).contains(t) <==> (list.contains(t) || t == last),
{
    let longer = list.push(last);
    if list.contains(t) {
        let i = choose|i: int| 0 <= i < list.len() && list[i] == t;
        assert(longer[i] == t);
    }
    if t == last {
        assert(longer[list.len() as int] == t);
    }
    if longer.contains(t) {
        let i = choose|i: int| 0 <= i < longer.len() && longer[i] == t;
        if i < list.len() {
            assert(list[i] == t);
        }
    }
}

/// Puts `token` in its place in the ascending list `list`, unless the list
/// holds it already.
pub fn insert_sorted(list: &mut Vec<Vec<char>>, token: Vec<char>)
    requires
        strictly_sorted(contents(old(list)@)),
    ensures
        strictly_sorted(contents(final(list)@)),
        forall|t: Seq<char>|
            contents(final(list)@).contains(t) <==> (contents(old(list)@).contains(t) || t
                == token@),
{
    let ghost before = contents(list@);
    let ghost name = token@;
    let mut i: usize = 0;
    while i < list.len()
        invariant
            i <= list@.len(),
            *list == *old(list),
            before == contents(list@),
            strictly_sorted(before),
            name == token@,
            forall|j: int| 0 <= j < i ==> lex_less(#[trigger] before[j], name),
        ensures
            i <= list@.len(),
            *list == *old(list),
            before == contents(list@),
            name == token@,
            forall|j: int| 0 <= j < i ==> lex_less(#[trigger] before[j], name),
            i < list@.len() ==> lex_less(name, before[i as int]),
        decreases list@.len() - i,
    {
        match compare(list[i].as_slice(), token.as_slice()) {
            Order::Before => {
                i += 1;
            },
            Order::Same => {
                proof {
                    assert(before[i as int] == name);
                }
                return ;
            },
            Order::After => {
                break ;
            },
        }
    }
    list.insert(i, token);
    proof {
        let after = contents(list@);
        let at = i as int;
        assert(after.len() == before.len() + 1);
        assert forall|j: int| 0 <= j < after.len() implies #[trigger] after[j] == (if j < at {
            before[j]
        } else if j == at {
            name
        } else {
            before[j - 1]
        }) by {}
        assert forall|a: int, b: int| 0 <= a < b < after.len() implies lex_less(
            #[trigger] after[a],
            #[trigger] after[b],
        ) by {
            if b < at {
                assert(lex_less(before[a], before[b]));
            } else if b == at {
                assert(lex_less(before[a], name));
            } else if a < at {
                assert(lex_less(before[a], before[b - 1]));
            } else if a == at {
                if b - 1 > at {
                    assert(lex_less(before[at], before[b - 1]));
                    lemma_lex_less_transitive(name, before[at], before[b - 1]);
                }
            } else {
                assert(lex_less(before[a - 1], before[b - 1]));
            }
        }
        assert forall|t: Seq<char>| after.contains(t) <==> (before.contains(t) || t == name) by {
            if before.contains(t) {
                let j = choose|j: int| 0 <= j < before.len() && before[j] == t;
                if j < at {
                    assert(after[j] == t);
                } else {
                    assert(after[j + 1] == t);
                }
            }
            if t == name {
                assert(after[at] == t);
            }
            if after.contains(t) {
                let j = choose|j: int| 0 <= j < after.len() && after[j] == t;
                if j < at {
                    assert(before[j] == t);
                } else if j > at {
                    assert(before[j - 1] == t);
                }
            }
        }
    }
}

/// Tests a character for being ASCII whitespace.
pub fn ascii_whitespace(c: char) -> (b: bool)
    ensures
        b == is_ascii_whitespace(c),
{
    c == ' ' || c == '\t' || c == '\n' || c == '\x0C' || c == '\r'
}

/// Tests the word `text[start..end]` for being `AND`, `OR` or `WITH`.
fn operator_word(text: &[char], start: usize, end: usize) -> (b: bool)
    requires
        start <= end <= text@.len(),
    ensures
        b == is_operator_word(text@.subrange(start as int, end as int)),
{
    proof {
        reveal_strlit("OR");
        reveal_strlit("AND");
        reveal_strlit("WITH");
    }
    let or = tag(text, start, "OR");
    let and = tag(text, start, "AND");
    let with = tag(text, start, "WITH");
    let ghost word = text@.subrange(start as int, end as int);
    proof {
        if end - start == 2 {
            assert(word =~= text@.subrange(start as int, start + 2));
        }
        if end - start == 3 {
            assert(word =~= text@.subrange(start as int, start + 3));
        }
        if end - start == 4 {
            assert(word =~= text@.subrange(start as int, start + 4));
        }
    }
    or == Some(end) || and == Some(end) || with == Some(end)
}

/// The word `text[start..end]` without its parentheses.
fn stripped(text: &[char], start: usize, end: usize) -> (token: Vec<char>)
    requires
        start <= end <= text@.len(),
    ensures
        token@ == strip_parentheses(text@.subrange(start as int, end as int)),
{
    let mut token: Vec<char> = Vec::new();
    let mut i: usize = start;
    while i < end
        invariant
            start <= i <= end <= text@.len(),
            token@ == strip_parentheses(text@.subrange(start as int, i as int)),
        decreases end - i,
    {
        let c = text[i];
        proof {
            let longer = text@.subrange(start as int, i + 1);
            assert(longer.drop_last() =~= text@.subrange(start as int, i as int));
            assert(longer.last() == c);
        }
        if c != '(' && c != ')' {
            token.push(c);
        }
        i += 1;
    }
    token
}

/// The tokens of `text`, in ascending order, each once.
pub fn license_list(text: &[char]) -> (list: Vec<String>)
    ensures
        lists_licenses(texts(list@), text@),
{
    let mut found: Vec<Vec<char>> = Vec::new();
    let ghost mut done: Seq<Seq<char>> = Seq::empty();
    let mut i: usize = 0;
    assert(done + words_from(text@, 0) =~= words(text@));
    while i < text.len()
        invariant
            i <= text@.len(),
            words(text@) == done + words_from(text@, i as int),
            strictly_sorted(contents(found@)),
            forall|t: Seq<char>| contents(found@).contains(t) <==> tokens_of(done).contains(t),
        decreases text@.len() - i,
    {
        if ascii_whitespace(text[i]) {
            i += 1;
        } else {
            let start = i;
            while i < text.len() && !ascii_whitespace(text[i])
                invariant
                    start <= i <= text@.len(),
                    word_end(text@, start as int) == word_end(text@, i as int),
                decreases text@.len() - i,
            {
                i += 1;
            }
            let ghost word = text@.subrange(start as int, i as int);
            let ghost longer = done.push(word);
            proof {
                assert(done + (seq![word] + words_from(text@, i as int)) =~= longer + words_from(
                    text@,
                    i as int,
                ));
                assert(longer.drop_last() =~= done);
                assert(longer.last() == word);
                assert(tokens_of(longer) == if is_operator_word(word) {
                    tokens_of(done)
                } else {
                    tokens_of(done).push(strip_parentheses(word))
                });
            }
            if !operator_word(text, start, i) {
                let token = stripped(text, start, i);
                let ghost held = contents(found@);
                insert_sorted(&mut found, token);
                proof {
                    assert forall|t: Seq<char>| contents(found@).contains(t) <==> tokens_of(
                        longer,
                    ).contains(t) by {
                        lemma_push_contains(tokens_of(done), strip_parentheses(word), t);
                    }
                }
            }
            proof {
                done = longer;
            }
        }
    }
    assert(words(text@) =~= done);
    let mut list: Vec<String> = Vec::new();
    let mut k: usize = 0;
    while k < found.len()
        invariant
            k <= found@.len(),
            list@.len() == k,
            texts(list@) == contents(found@).take(k as int),
        decreases found@.len() - k,
    {
        let name = string_of(found[k].as_slice(), 0, found[k].len());
        proof {
            assert(name@ =~= found@[k as int]@);
            let longer = texts(list@.push(name));
            let target = contents(found@).take(k + 1);
            assert forall|j: int| 0 <= j < longer.len() implies longer[j] == target[j] by {
                if j < k {
                    assert(texts(list@)[j] == contents(found@).take(k as int)[j]);
                }
            }
            assert(longer =~= target);
        }
        list.push(name);
        k += 1;
    }
    assert(texts(list@) =~= contents(found@));
    list
}

} // verus!
