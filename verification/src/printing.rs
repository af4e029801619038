//! The filter language read backwards: from a formula to a source that
//! denotes it.
//!
//! The grammar reaches the formulas of a certain shape only: operators folded
//! to the left, `or` below `and`, `if` at the top with an empty else-branch,
//! no quote inside a text. Every formula of that shape has a canonical
//! source, and the grammar reads that source back to the formula.

use crate::filter::Formula;
use crate::grammar::{
    and_expr, and_tail, blanks, ending, expr, is_blank, last_expr, left, or_expr, or_tail, query,
    quoted, spaced, term, unquoted, Reading, QUOTE, WORD_AND, WORD_IF, WORD_NOT, WORD_OR, WORD_THEN,
};
use crate::text::occurs_at;
use vstd::prelude::*;

verus! {

/// No character of `text` is the quote.
pub open spec fn is_plain(text: Seq<char>) -> bool {
    forall|i: int| 0 <= i < text.len() ==> text[i] != QUOTE
}

/// The formula is one that a `term` can denote: a text without a quote, or
/// the negation of what an `expr` can denote.
pub open spec fn is_term(f: Formula) -> bool
    decreases f, 0int,
{
    match f {
        Formula::Match(text) => is_plain(text),
        Formula::Not(inner) => is_and(*inner),
        _ => false,
    }
}

/// The formula is one that an `or_expr` can denote.
pub open spec fn is_or(f: Formula) -> bool
    decreases f, 1int,
{
    match f {
        Formula::Or(left, right) => is_or(*left) && is_term(*right),
        _ => is_term(f),
    }
}

/// The formula is one that an `and_expr`, and so an `expr`, can denote.
pub open spec fn is_and(f: Formula) -> bool
    decreases f, 2int,
{
    match f {
        Formula::And(left, right) => is_and(*left) && is_or(*right),
        _ => is_or(f),
    }
}

/// The formula is one that a query can denote.
pub open spec fn is_query(f: Formula) -> bool {
    match f {
        Formula::If(cond, yes, no) => is_and(*cond) && is_and(*yes) && *no == Formula::Empty,
        _ => is_and(f),
    }
}

/// The canonical source of a formula that a `term` can denote.
pub open spec fn print_term(f: Formula) -> Seq<char>
    decreases f, 0int,
{
    match f {
        Formula::Match(text) => seq![QUOTE] + text + seq![QUOTE],
        Formula::Not(inner) => WORD_NOT@ + seq![' ', '('] + print_and(*inner) + seq![')'],
        _ => Seq::empty(),
    }
}

/// The canonical source of a formula that an `or_expr` can denote.
pub open spec fn print_or(f: Formula) -> Seq<char>
    decreases f, 1int,
{
    match f {
        Formula::Or(left, right) => print_or(*left) + seq![' '] + WORD_OR@ + seq![' ']
            + print_term(*right),
        _ => print_term(f),
    }
}

/// The canonical source of a formula that an `expr` can denote.
pub open spec fn print_and(f: Formula) -> Seq<char>
    decreases f, 2int,
{
    match f {
        Formula::And(left, right) => print_and(*left) + seq![' '] + WORD_AND@ + seq![' ']
            + print_or(*right),
        _ => print_or(f),
    }
}

/// The canonical source of a formula that a query can denote.
pub open spec fn print_query(f: Formula) -> Seq<char> {
    match f {
        Formula::If(cond, yes, _) => WORD_IF@ + seq![' '] + print_and(*cond) + seq![' ']
            + WORD_THEN@ + seq![' '] + print_and(*yes),
        _ => print_and(f),
    }
}

/// The position after the text `part` at `pos` and the blanks behind it.
pub open spec fn after(s: Seq<char>, pos: int, part: Seq<char>) -> int {
    pos + part.len() + blanks(s, pos + part.len())
}

/// Where a text stands, each of its two halves stands.
proof fn lemma_halves(s: Seq<char>, pos: int, a: Seq<char>, b: Seq<char>)
    requires
        occurs_at(s, a + b, pos),
    ensures
        occurs_at(s, a, pos),
        occurs_at(s, b, pos + a.len()),
{
    let whole = s.subrange(pos, pos + (a + b).len());
    assert(s.subrange(pos, pos + a.len()) =~= a) by {
        assert forall|k: int| 0 <= k < a.len() implies s.subrange(pos, pos + a.len())[k]
            == a[k] by {
            assert(whole[k] == (a + b)[k]);
        }
    }
    assert(s.subrange(pos + a.len(), pos + a.len() + b.len()) =~= b) by {
        assert forall|k: int| 0 <= k < b.len() implies s.subrange(
            pos + a.len(),
            pos + a.len() + b.len(),
        )[k] == b[k] by {
            assert(whole[a.len() + k] == (a + b)[a.len() + k]);
        }
    }
}

/// Where a text stands, each of its characters stands.
proof fn lemma_character(s: Seq<char>, pos: int, part: Seq<char>, k: int)
    requires
        occurs_at(s, part, pos),
        0 <= k < part.len(),
    ensures
        pos + k < s.len(),
        s[pos + k] == part[k],
{
    assert(s.subrange(pos, pos + part.len())[k] == part[k]);
}

/// No run of blanks starts at a character that is no blank, nor at the end.
proof fn lemma_no_blanks(s: Seq<char>, pos: int)
    requires
        pos >= s.len() || pos < 0 || !is_blank(s[pos]),
    ensures
        blanks(s, pos) == 0,
{
}

/// A single space before a character that is no blank is a run of one.
proof fn lemma_one_blank(s: Seq<char>, pos: int)
    requires
        0 <= pos < s.len(),
        s[pos] == ' ',
        pos + 1 >= s.len() || !is_blank(s[pos + 1]),
    ensures
        blanks(s, pos) == 1,
{
    lemma_no_blanks(s, pos + 1);
}

/// A text without a quote that stands before a quote is a whole run of
/// characters other than the quote.
proof fn lemma_unquoted_run(s: Seq<char>, pos: int, text: Seq<char>)
    requires
        is_plain(text),
        occurs_at(s, text, pos),
        pos + text.len() < s.len(),
        s[pos + text.len()] == QUOTE,
    ensures
        unquoted(s, pos) == text.len(),
    decreases text.len(),
{
    if text.len() > 0 {
        lemma_character(s, pos, text, 0);
        let rest = text.drop_first();
        assert(occurs_at(s, rest, pos + 1)) by {
            assert(text =~= seq![text[0]] + rest);
            lemma_halves(s, pos, seq![text[0]], rest);
        }
        assert(is_plain(rest)) by {
            assert forall|i: int| 0 <= i < rest.len() implies rest[i] != QUOTE by {
                assert(rest[i] == text[i + 1]);
            }
        }
        lemma_unquoted_run(s, pos + 1, rest);
    }
}

/// A canonical source is not empty and starts with a quote or with `n`.
proof fn lemma_first_character(f: Formula, level: int)
    requires
        0 <= level <= 2,
        level == 0 ==> is_term(f),
        level == 1 ==> is_or(f),
        level == 2 ==> is_and(f),
    ensures
        level == 0 ==> print_term(f).len() > 0 && (print_term(f)[0] == QUOTE || print_term(f)[0]
            == 'n'),
        level == 1 ==> print_or(f).len() > 0 && (print_or(f)[0] == QUOTE || print_or(f)[0] == 'n'),
        level == 2 ==> print_and(f).len() > 0 && (print_and(f)[0] == QUOTE || print_and(f)[0]
            == 'n'),
    decreases f, level,
{
    if level == 0 {
    } else if level == 1 {
        match f {
            Formula::Or(left, right) => {
                lemma_first_character(*left, 1);
            },
            _ => {
                lemma_first_character(f, 0);
            },
        }
    } else {
        match f {
            Formula::And(left, right) => {
                lemma_first_character(*left, 2);
            },
            _ => {
                lemma_first_character(f, 1);
            },
        }
    }
}

/// A word does not stand where another character than its first stands.
proof fn lemma_not_the_word(s: Seq<char>, pos: int, word: Seq<char>)
    requires
        word.len() > 0,
        pos < 0 || pos >= s.len() || s[pos] != word[0],
    ensures
        !occurs_at(s, word, pos),
{
    if occurs_at(s, word, pos) {
        lemma_character(s, pos, word, 0);
    }
}

/// A `term` reads the canonical source of a formula back to the formula,
/// whatever stands around the source.
proof fn lemma_term_reads(f: Formula, s: Seq<char>, pos: int)
    requires
        is_term(f),
        occurs_at(s, print_term(f), pos),
    ensures
        ending(term(s, pos), pos) == Ok::<(Formula, int), int>((f, after(s, pos, print_term(f)))),
    decreases f, 0int, 0int,
{
    match f {
        Formula::Match(text) => {
            lemma_halves(s, pos, seq![QUOTE] + text, seq![QUOTE]);
            lemma_halves(s, pos, seq![QUOTE], text);
            lemma_character(s, pos, seq![QUOTE], 0);
            lemma_character(s, pos + 1 + text.len(), seq![QUOTE], 0);
            lemma_unquoted_run(s, pos + 1, text);
            lemma_not_the_word(s, pos, WORD_NOT@);
        },
        Formula::Not(inner) => {
            let body = print_and(*inner);
            let open = pos + 4;
            let close = pos + 5 + body.len();
            lemma_halves(s, pos, WORD_NOT@ + seq![' ', '('] + body, seq![')']);
            lemma_halves(s, pos, WORD_NOT@ + seq![' ', '('], body);
            lemma_halves(s, pos, WORD_NOT@, seq![' ', '(']);
            lemma_character(s, pos + 3, seq![' ', '('], 0);
            lemma_character(s, pos + 3, seq![' ', '('], 1);
            lemma_one_blank(s, pos + 3);
            lemma_first_character(*inner, 2);
            lemma_character(s, pos + 5, body, 0);
            lemma_no_blanks(s, pos + 5);
            lemma_character(s, close, seq![')'], 0);
            lemma_no_blanks(s, close);
            lemma_not_the_word(s, close, WORD_OR@);
            lemma_not_the_word(s, close, WORD_AND@);
            lemma_and_reads(*inner, s, pos + 5);
            assert(spaced(s, pos, 3) == 4);
            assert(spaced(s, open, 1) == 1);
            assert(and_tail(s, close, *inner) == Ok::<(Formula, nat), int>((*inner, 0nat)));
            assert(expr(s, pos + 5) == Ok::<(Formula, nat), int>((*inner, body.len())));
        },
        _ => {},
    }
}

/// An `or_expr` at the canonical source of a formula goes on as the rest of
/// an `or_expr` does after the source, with the formula in hand.
proof fn lemma_or_reads(f: Formula, s: Seq<char>, pos: int)
    requires
        is_or(f),
        occurs_at(s, print_or(f), pos),
    ensures
        ending(or_expr(s, pos), pos) == ending(
            or_tail(s, after(s, pos, print_or(f)), f),
            after(s, pos, print_or(f)),
        ),
    decreases f, 1int, 0int,
{
    match f {
        Formula::Or(left, right) => {
            let first = print_or(*left);
            let last = print_term(*right);
            let word_at = pos + first.len() + 1;
            let last_at = word_at + 3;
            lemma_halves(s, pos, first + seq![' '] + WORD_OR@ + seq![' '], last);
            lemma_halves(s, pos, first + seq![' '] + WORD_OR@, seq![' ']);
            lemma_halves(s, pos, first + seq![' '], WORD_OR@);
            lemma_halves(s, pos, first, seq![' ']);
            lemma_character(s, pos + first.len(), seq![' '], 0);
            lemma_character(s, word_at, WORD_OR@, 0);
            lemma_one_blank(s, pos + first.len());
            lemma_character(s, word_at + 2, seq![' '], 0);
            lemma_first_character(*right, 0);
            lemma_character(s, last_at, last, 0);
            lemma_one_blank(s, word_at + 2);
            lemma_or_reads(*left, s, pos);
            lemma_term_reads(*right, s, last_at);
            assert(after(s, pos, first) == word_at);
            assert(spaced(s, word_at, 2) == 3);
            assert(after(s, last_at, last) == after(s, pos, print_or(f)));
        },
        _ => {
            lemma_term_reads(f, s, pos);
        },
    }
}

/// An `or_expr` reads the canonical source of a formula back to the
/// formula where no `or` follows the source.
proof fn lemma_or_stops(f: Formula, s: Seq<char>, pos: int)
    requires
        is_or(f),
        occurs_at(s, print_or(f), pos),
        !occurs_at(s, WORD_OR@, after(s, pos, print_or(f))),
    ensures
        ending(or_expr(s, pos), pos) == Ok::<(Formula, int), int>(
            (f, after(s, pos, print_or(f))),
        ),
    decreases f, 1int, 1int,
{
    lemma_or_reads(f, s, pos);
}

/// One turn of the rest of an `and_expr`: the word, an operand, and the
/// rest after it.
proof fn lemma_and_turn(s: Seq<char>, at: int, left: Formula, right: Formula, end: int)
    requires
        occurs_at(s, WORD_AND@, at),
        spaced(s, at, 3) == 4,
        ending(or_expr(s, at + 4), at + 4) == Ok::<(Formula, int), int>((right, end)),
    ensures
        ending(and_tail(s, at, left), at) == ending(
            and_tail(s, end, Formula::And(Box::new(left), Box::new(right))),
            end,
        ),
{
}

/// The first operand of an `and_expr`, and the rest after it.
proof fn lemma_and_start(s: Seq<char>, pos: int, first: Formula, end: int)
    requires
        ending(or_expr(s, pos), pos) == Ok::<(Formula, int), int>((first, end)),
    ensures
        ending(and_expr(s, pos), pos) == ending(and_tail(s, end, first), end),
{
}

/// An `and_expr` at the canonical source of a formula goes on as the rest
/// of an `and_expr` does after the source, with the formula in hand, where
/// no `or` follows the source.
proof fn lemma_and_reads(f: Formula, s: Seq<char>, pos: int)
    requires
        is_and(f),
        occurs_at(s, print_and(f), pos),
        !occurs_at(s, WORD_OR@, after(s, pos, print_and(f))),
    ensures
        ending(and_expr(s, pos), pos) == ending(
            and_tail(s, after(s, pos, print_and(f)), f),
            after(s, pos, print_and(f)),
        ),
    decreases f, 2int, 0int,
{
    match f {
        Formula::And(left, right) => {
            let first = print_and(*left);
            let last = print_or(*right);
            let word_at = pos + first.len() + 1;
            let last_at = word_at + 4;
            let end = after(s, pos, print_and(f));
            assert(occurs_at(s, first, pos) && occurs_at(s, WORD_AND@, word_at) && occurs_at(
                s,
                last,
                last_at,
            ) && s[pos + first.len()] == ' ' && s[word_at + 3] == ' ') by {
                lemma_halves(s, pos, first + seq![' '] + WORD_AND@ + seq![' '], last);
                lemma_halves(s, pos, first + seq![' '] + WORD_AND@, seq![' ']);
                lemma_halves(s, pos, first + seq![' '], WORD_AND@);
                lemma_halves(s, pos, first, seq![' ']);
                lemma_character(s, pos + first.len(), seq![' '], 0);
                lemma_character(s, word_at + 3, seq![' '], 0);
            }
            assert(after(s, pos, first) == word_at) by {
                lemma_character(s, word_at, WORD_AND@, 0);
                lemma_one_blank(s, pos + first.len());
            }
            assert(spaced(s, word_at, 3) == 4) by {
                lemma_first_character(*right, 1);
                lemma_character(s, last_at, last, 0);
                lemma_one_blank(s, word_at + 3);
            }
            assert(!occurs_at(s, WORD_OR@, word_at)) by {
                lemma_character(s, word_at, WORD_AND@, 0);
                lemma_not_the_word(s, word_at, WORD_OR@);
            }
            assert(after(s, last_at, last) == end);
            lemma_and_reads(*left, s, pos);
            lemma_or_stops(*right, s, last_at);
            lemma_and_turn(s, word_at, *left, *right, end);
        },
        _ => {
            lemma_or_stops(f, s, pos);
            lemma_and_start(s, pos, f, after(s, pos, print_or(f)));
        },
    }
}

/// An `expr` that ends the text reads the canonical source of a formula
/// back to the formula.
proof fn lemma_last_expr_reads(f: Formula, s: Seq<char>, pos: int)
    requires
        is_and(f),
        occurs_at(s, print_and(f), pos),
        pos + print_and(f).len() == s.len(),
    ensures
        last_expr(s, pos) == Ok::<Formula, int>(f),
{
    let end = s.len() as int;
    lemma_no_blanks(s, end);
    lemma_not_the_word(s, end, WORD_OR@);
    lemma_not_the_word(s, end, WORD_AND@);
    lemma_and_reads(f, s, pos);
}

/// Round trip: the grammar reads the canonical source of every formula that
/// a query can denote back to that formula.
pub proof fn lemma_print_then_read(f: Formula)
    requires
        is_query(f),
    ensures
        query(print_query(f)) == Ok::<Formula, int>(f),
{
    let s = print_query(f);
    match f {
        Formula::If(cond, yes, no) => {
            let first = print_and(*cond);
            let last = print_and(*yes);
            let cond_end = 3 + first.len() as int;
            let then_at: int = cond_end + 1;
            let last_at: int = then_at + 5;
            assert(occurs_at(s, s, 0)) by {
                assert(s.subrange(0, s.len() as int) =~= s);
            }
            lemma_halves(s, 0, WORD_IF@ + seq![' '] + first + seq![' '] + WORD_THEN@ + seq![' '], last);
            lemma_halves(s, 0, WORD_IF@ + seq![' '] + first + seq![' '] + WORD_THEN@, seq![' ']);
            lemma_halves(s, 0, WORD_IF@ + seq![' '] + first + seq![' '], WORD_THEN@);
            lemma_halves(s, 0, WORD_IF@ + seq![' '] + first, seq![' ']);
            lemma_halves(s, 0, WORD_IF@ + seq![' '], first);
            lemma_halves(s, 0, WORD_IF@, seq![' ']);
            lemma_character(s, 2, seq![' '], 0);
            lemma_first_character(*cond, 2);
            lemma_character(s, 3, first, 0);
            lemma_one_blank(s, 2);
            lemma_character(s, cond_end, seq![' '], 0);
            lemma_character(s, then_at, WORD_THEN@, 0);
            lemma_one_blank(s, cond_end);
            lemma_not_the_word(s, then_at, WORD_OR@);
            lemma_not_the_word(s, then_at, WORD_AND@);
            lemma_character(s, then_at + 4, seq![' '], 0);
            lemma_first_character(*yes, 2);
            lemma_character(s, last_at, last, 0);
            lemma_one_blank(s, then_at + 4);
            assert(after(s, 3, first) == then_at);
            lemma_and_reads(*cond, s, 3);
            lemma_last_expr_reads(*yes, s, last_at);
            assert(spaced(s, 0, 2) == 3);
            assert(spaced(s, then_at, 4) == 5);
            assert(expr(s, 3) == Ok::<(Formula, nat), int>((*cond, (first.len() + 1) as nat)));
        },
        _ => {
            assert(occurs_at(s, s, 0)) by {
                assert(s.subrange(0, s.len() as int) =~= s);
            }
            lemma_first_character(f, 2);
            lemma_not_the_word(s, 0, WORD_IF@);
            lemma_last_expr_reads(f, s, 0);
        },
    }
}

/// A run of characters other than the quote holds no quote.
proof fn lemma_run_is_plain(s: Seq<char>, pos: int)
    requires
        0 <= pos,
    ensures
        pos + unquoted(s, pos) <= s.len() || unquoted(s, pos) == 0,
        forall|k: int| pos <= k < pos + unquoted(s, pos) ==> s[k] != QUOTE,
    decreases s.len() - pos,
{
    if pos < s.len() && s[pos] != QUOTE {
        lemma_run_is_plain(s, pos + 1);
    }
}

/// What can stand for a `term` can stand for an `or_expr`, and what can
/// stand for an `or_expr` can stand for an `expr`.
proof fn lemma_shapes_nest(f: Formula)
    ensures
        is_term(f) ==> is_or(f),
        is_or(f) ==> is_and(f),
        is_and(f) ==> !(f is If),
{
    if f is And {
        assert(!is_term(f));
        assert(!is_or(f));
    }
    if f is If {
        assert(!is_term(f));
        assert(!is_or(f));
        assert(!is_and(f));
    }
}

/// What a quoted text holds is a text without a quote.
proof fn lemma_quoted_is_plain(s: Seq<char>, pos: int)
    ensures
        quoted(s, pos) matches Ok((text, _)) ==> is_plain(text),
{
    if 0 <= pos < s.len() && s[pos] == QUOTE {
        lemma_run_is_plain(s, pos + 1);
        let close = pos + 1 + unquoted(s, pos + 1);
        if close < s.len() {
            let text = s.subrange(pos + 1, close);
            assert forall|i: int| 0 <= i < text.len() implies text[i] != QUOTE by {
                assert(text[i] == s[pos + 1 + i]);
            }
        }
    }
}

/// What a `term` reads is a formula that a `term` can denote.
proof fn lemma_term_is_shaped(s: Seq<char>, pos: int)
    ensures
        term(s, pos) matches Ok((f, _)) ==> is_term(f),
    decreases left(s, pos), 1int,
{
    if occurs_at(s, WORD_NOT@, pos) {
        let open = pos + spaced(s, pos, 3);
        if open < s.len() && s[open] == '(' {
            lemma_and_is_shaped(s, open + spaced(s, open, 1));
        } else {
            lemma_quoted_is_plain(s, open);
            match quoted(s, open) {
                Ok((text, _)) => {
                    assert(is_term(Formula::Match(text)));
                    lemma_shapes_nest(Formula::Match(text));
                },
                Err(_) => {},
            }
        }
    } else {
        lemma_quoted_is_plain(s, pos);
    }
}

/// What the rest of an `or_expr` reads is a formula that an `or_expr` can
/// denote, where the formula in hand is one.
proof fn lemma_or_tail_is_shaped(s: Seq<char>, pos: int, so_far: Formula)
    requires
        is_or(so_far),
    ensures
        or_tail(s, pos, so_far) matches Ok((f, _)) ==> is_or(f),
    decreases left(s, pos), 2int,
{
    if occurs_at(s, WORD_OR@, pos) {
        let word = spaced(s, pos, 2);
        lemma_term_is_shaped(s, pos + word);
        match term(s, pos + word) {
            Ok((right, n)) => {
                lemma_or_tail_is_shaped(
                    s,
                    pos + word + n,
                    Formula::Or(Box::new(so_far), Box::new(right)),
                );
            },
            Err(_) => {},
        }
    }
}

/// What an `or_expr` reads is a formula that an `or_expr` can denote.
proof fn lemma_or_is_shaped(s: Seq<char>, pos: int)
    ensures
        or_expr(s, pos) matches Ok((f, _)) ==> is_or(f),
    decreases left(s, pos), 3int,
{
    lemma_term_is_shaped(s, pos);
    match term(s, pos) {
        Ok((first, n)) => {
            lemma_shapes_nest(first);
            lemma_or_tail_is_shaped(s, pos + n, first);
        },
        Err(_) => {},
    }
}

/// What the rest of an `and_expr` reads is a formula that an `and_expr` can
/// denote, where the formula in hand is one.
proof fn lemma_and_tail_is_shaped(s: Seq<char>, pos: int, so_far: Formula)
    requires
        is_and(so_far),
    ensures
        and_tail(s, pos, so_far) matches Ok((f, _)) ==> is_and(f),
    decreases left(s, pos), 4int,
{
    if occurs_at(s, WORD_AND@, pos) {
        let word = spaced(s, pos, 3);
        lemma_or_is_shaped(s, pos + word);
        match or_expr(s, pos + word) {
            Ok((right, n)) => {
                lemma_and_tail_is_shaped(
                    s,
                    pos + word + n,
                    Formula::And(Box::new(so_far), Box::new(right)),
                );
            },
            Err(_) => {},
        }
    }
}

/// What an `and_expr`, and so an `expr`, reads is a formula that an `expr`
/// can denote.
proof fn lemma_and_is_shaped(s: Seq<char>, pos: int)
    ensures
        and_expr(s, pos) matches Ok((f, _)) ==> is_and(f),
    decreases left(s, pos), 5int,
{
    lemma_or_is_shaped(s, pos);
    match or_expr(s, pos) {
        Ok((first, n)) => {
            lemma_shapes_nest(first);
            lemma_and_tail_is_shaped(s, pos + n, first);
        },
        Err(_) => {},
    }
}

/// What an `expr` that ends the text reads is a formula that an `expr` can
/// denote.
proof fn lemma_last_expr_is_shaped(s: Seq<char>, pos: int)
    ensures
        last_expr(s, pos) matches Ok(f) ==> is_and(f),
{
    lemma_and_is_shaped(s, pos);
}

/// What the grammar reads from a source is a formula that a query can
/// denote.
pub proof fn lemma_read_is_shaped(s: Seq<char>)
    ensures
        query(s) matches Ok(f) ==> is_query(f),
{
    if occurs_at(s, WORD_IF@, 0) {
        let word = spaced(s, 0, 2);
        lemma_and_is_shaped(s, word as int);
        match expr(s, word as int) {
            Ok((cond, n)) => {
                let then = (word + n) as int;
                lemma_last_expr_is_shaped(s, then + spaced(s, then, 4));
            },
            Err(_) => {},
        }
    } else {
        lemma_last_expr_is_shaped(s, 0);
        match last_expr(s, 0) {
            Ok(f) => {
                lemma_shapes_nest(f);
            },
            Err(_) => {},
        }
    }
}

/// Reading is the inverse of printing on everything that is read: what the
/// grammar reads from a source, it reads from that formula's canonical
/// source too.
pub proof fn lemma_read_print_read(s: Seq<char>)
    ensures
        query(s) matches Ok(f) ==> query(print_query(f)) == Ok::<Formula, int>(f),
{
    lemma_read_is_shaped(s);
    match query(s) {
        Ok(f) => {
            lemma_print_then_read(f);
        },
        Err(_) => {},
    }
}

} // verus!
