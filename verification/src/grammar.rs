//! The filter language, as a function from text to formula.
//!
//! ```text
//! query   := "if" expr "then" expr | expr
//! expr    := and_expr
//! and_expr:= or_expr ( "and" or_expr )*
//! or_expr := term ( "or" term )*
//! term    := "not" "(" expr ")" | "not"? QUOTED
//! QUOTED  := "'" <characters other than "'"> "'"
//! ```
//!
//! Keywords are case-sensitive. Any run of ASCII whitespace, the empty one
//! too, may follow a token; none may stand before the first. Both operators
//! fold to the left, and `or` binds tighter than `and`. Nothing may follow a
//! complete query.
//!
//! Each function below reads one nonterminal at a position of the text. It
//! gives the formula read and the number of characters taken, trailing
//! whitespace included, or else the position at which the text stopped being
//! a sentence of the language.

use crate::filter::Formula;
use crate::text::occurs_at;
use vstd::prelude::*;

verus! {

pub const WORD_IF: [char; 2] = ['i', 'f'];

pub const WORD_THEN: [char; 4] = ['t', 'h', 'e', 'n'];

pub const WORD_AND: [char; 3] = ['a', 'n', 'd'];

pub const WORD_OR: [char; 2] = ['o', 'r'];

pub const WORD_NOT: [char; 3] = ['n', 'o', 't'];

pub const QUOTE: char = '\'';

/// A formula and the number of characters it was read from, or the position
/// of the failure.
pub type Reading = Result<(Formula, nat), int>;

/// A reading with the position where it ended in place of its length.
pub open spec fn ending(reading: Reading, pos: int) -> Result<(Formula, int), int> {
    match reading {
        Ok((formula, n)) => Ok((formula, pos + n)),
        Err(at) => Err(at),
    }
}

/// ASCII whitespace: space, tab, line feed, form feed, carriage return.
pub open spec fn is_blank(c: char) -> bool {
    c == ' ' || c == '\t' || c == '\n' || c == '\x0C' || c == '\r'
}

/// The length of the run of blanks that starts at `pos`.
pub open spec fn blanks(s: Seq<char>, pos: int) -> nat
    decreases s.len() - pos,
{
    if 0 <= pos < s.len() && is_blank(s[pos]) {
        1 + blanks(s, pos + 1)
    } else {
        0
    }
}

/// The length of the run of characters other than the quote that starts at
/// `pos`.
pub open spec fn unquoted(s: Seq<char>, pos: int) -> nat
    decreases s.len() - pos,
{
    if 0 <= pos < s.len() && s[pos] != QUOTE {
        1 + unquoted(s, pos + 1)
    } else {
        0
    }
}

/// The length of a token of `width` characters at `pos` and of the blanks
/// after it.
pub open spec fn spaced(s: Seq<char>, pos: int, width: nat) -> nat {
    width + blanks(s, pos + width)
}

/// How much of `s` lies at or after `pos`.
pub open spec fn left(s: Seq<char>, pos: int) -> nat {
    if pos <= s.len() {
        (s.len() - pos) as nat
    } else {
        0
    }
}

/// A quoted text at `pos`: its content and its length with quotes and
/// trailing blanks. It fails at `pos` where no quote opens, and at the end of
/// the text where none closes.
pub open spec fn quoted(s: Seq<char>, pos: int) -> Result<(Seq<char>, nat), int> {
    if 0 <= pos < s.len() && s[pos] == QUOTE {
        let run = unquoted(s, pos + 1);
        let close = pos + 1 + run;
        if close < s.len() {
            Ok((s.subrange(pos + 1, close), 1 + run + spaced(s, close, 1)))
        } else {
            Err(s.len() as int)
        }
    } else {
        Err(pos)
    }
}

/// A `term` at `pos`: `not`, a parenthesis, an `expr` and the closing
/// parenthesis; or `not` and a quoted text; or a quoted text alone.
pub open spec fn term(s: Seq<char>, pos: int) -> Reading
    decreases left(s, pos), 1int,
{
    if occurs_at(s, WORD_NOT@, pos) {
        let word = spaced(s, pos, 3);
        let open = pos + word;
        if open < s.len() && s[open] == '(' {
            let paren = spaced(s, open, 1);
            match expr(s, open + paren) {
                Ok((inner, n)) => {
                    let close = open + paren + n;
                    if 0 <= close < s.len() && s[close] == ')' {
                        Ok((Formula::Not(Box::new(inner)), word + paren + n + spaced(s, close, 1)))
                    } else {
                        Err(close)
                    }
                },
                Err(at) => Err(at),
            }
        } else {
            match quoted(s, open) {
                Ok((text, n)) => Ok((Formula::Not(Box::new(Formula::Match(text))), word + n)),
                Err(at) => Err(at),
            }
        }
    } else {
        match quoted(s, pos) {
            Ok((text, n)) => Ok((Formula::Match(text), n)),
            Err(at) => Err(at),
        }
    }
}

/// The rest of an `or_expr` whose terms so far folded to `so_far`.
pub open spec fn or_tail(s: Seq<char>, pos: int, so_far: Formula) -> Reading
    decreases left(s, pos), 2int,
{
    if occurs_at(s, WORD_OR@, pos) {
        let word = spaced(s, pos, 2);
        match term(s, pos + word) {
            Ok((right, n)) => {
                let folded = Formula::Or(Box::new(so_far), Box::new(right));
                match or_tail(s, pos + word + n, folded) {
                    Ok((all, m)) => Ok((all, word + n + m)),
                    Err(at) => Err(at),
                }
            },
            Err(at) => Err(at),
        }
    } else {
        Ok((so_far, 0))
    }
}

/// An `or_expr` at `pos`: a `term`, and then as many times `or` and a `term`
/// as the text holds, folded to the left.
pub open spec fn or_expr(s: Seq<char>, pos: int) -> Reading
    decreases left(s, pos), 3int,
{
    match term(s, pos) {
        Ok((first, n)) => match or_tail(s, pos + n, first) {
            Ok((all, m)) => Ok((all, n + m)),
            Err(at) => Err(at),
        },
        Err(at) => Err(at),
    }
}

/// The rest of an `and_expr` whose operands so far folded to `so_far`.
pub open spec fn and_tail(s: Seq<char>, pos: int, so_far: Formula) -> Reading
    decreases left(s, pos), 4int,
{
    if occurs_at(s, WORD_AND@, pos) {
        let word = spaced(s, pos, 3);
        match or_expr(s, pos + word) {
            Ok((right, n)) => {
                let folded = Formula::And(Box::new(so_far), Box::new(right));
                match and_tail(s, pos + word + n, folded) {
                    Ok((all, m)) => Ok((all, word + n + m)),
                    Err(at) => Err(at),
                }
            },
            Err(at) => Err(at),
        }
    } else {
        Ok((so_far, 0))
    }
}

/// An `and_expr` at `pos`: an `or_expr`, and then as many times `and` and an
/// `or_expr` as the text holds, folded to the left.
pub open spec fn and_expr(s: Seq<char>, pos: int) -> Reading
    decreases left(s, pos), 5int,
{
    match or_expr(s, pos) {
        Ok((first, n)) => match and_tail(s, pos + n, first) {
            Ok((all, m)) => Ok((all, n + m)),
            Err(at) => Err(at),
        },
        Err(at) => Err(at),
    }
}

/// An `expr` at `pos`.
pub open spec fn expr(s: Seq<char>, pos: int) -> Reading
    decreases left(s, pos), 6int,
{
    and_expr(s, pos)
}

/// An `expr` at `pos` that must reach the end of the text.
pub open spec fn last_expr(s: Seq<char>, pos: int) -> Result<Formula, int> {
    match expr(s, pos) {
        Ok((formula, n)) => if pos + n == s.len() {
            Ok(formula)
        } else {
            Err(pos + n)
        },
        Err(at) => Err(at),
    }
}

/// The formula that the whole of `s` denotes, or the position at which `s`
/// stops being a query.
///
/// `if C then T` denotes `If(C, T, Empty)`: where `C` fails the row passes.
pub open spec fn query(s: Seq<char>) -> Result<Formula, int> {
    if occurs_at(s, WORD_IF@, 0) {
        let word = spaced(s, 0, 2);
        match expr(s, word as int) {
            Ok((cond, n)) => {
                let then = (word + n) as int;
                if occurs_at(s, WORD_THEN@, then) {
                    match last_expr(s, then + spaced(s, then, 4)) {
                        Ok(yes) => Ok(
                            Formula::If(Box::new(cond), Box::new(yes), Box::new(Formula::Empty)),
                        ),
                        Err(at) => Err(at),
                    }
                } else {
                    Err(then)
                }
            },
            Err(at) => Err(at),
        }
    } else {
        last_expr(s, 0)
    }
}

} // verus!
