//! The parser of the filter language: a recursive descent over the characters
//! of a filter's source, proved to read what `grammar` says the text denotes.

use crate::filter::{Expression, Filter, Formula};
use crate::grammar::{
    and_expr, and_tail, blanks, ending, expr, is_blank, last_expr, or_expr, or_tail, query, quoted,
    term, unquoted, Reading, QUOTE, WORD_AND, WORD_IF, WORD_NOT, WORD_OR, WORD_THEN,
};
use crate::text::{chars_of, matches_at, occurs_at};
use vstd::prelude::*;

verus! {

/// A filter source that is no sentence of the filter language.
#[derive(Clone, Debug, PartialEq, Eq)]
pub struct FilterSyntaxError {
    /// The offending source, whole.
    pub source: String,
    /// The index of the character at which the source stopped being a query;
    /// the length of the source where it ended too early.
    pub position: usize,
}

/// What a parsing function returned at `pos` is what the grammar reads there.
spec fn agrees(
    got: Result<(Expression, usize), usize>,
    pos: usize,
    reading: Reading,
) -> bool {
    match (got, reading) {
        (Ok((expression, next)), Ok((formula, n))) => expression@ == formula && next == pos + n,
        (Err(at), Err(expected)) => at == expected,
        _ => false,
    }
}

/// A successful parse ended after `pos` and inside the text; a failed one
/// points inside the text or at its end.
spec fn in_bounds(got: Result<(Expression, usize), usize>, pos: usize, len: nat) -> bool {
    match got {
        Ok((_, next)) => pos < next <= len,
        Err(at) => at <= len,
    }
}

/// Runtime test for `is_blank`.
fn blank(c: char) -> (r: bool)
    ensures
        r == is_blank(c),
{
    c == ' ' || c == '\t' || c == '\n' || c == '\x0C' || c == '\r'
}

/// The position of the first character at or after `pos` that is no blank.
fn skip_blanks(text: &[char], pos: usize) -> (next: usize)
    requires
        pos <= text@.len(),
    ensures
        next == pos + blanks(text@, pos as int),
        next <= text@.len(),
{
    let mut next: usize = pos;
    while next < text.len() && blank(text[next])
        invariant
            pos <= next <= text@.len(),
            pos + blanks(text@, pos as int) == next + blanks(text@, next as int),
        decreases text@.len() - next,
    {
        next += 1;
    }
    next
}

/// Whether `word` stands in `text` at `pos`.
fn word_at(text: &[char], pos: usize, word: &[char]) -> (r: bool)
    requires
        pos <= text@.len(),
    ensures
        r == occurs_at(text@, word@, pos as int),
        r ==> pos + word@.len() <= usize::MAX,
{
    if word.len() > text.len() - pos {
        false
    } else {
        matches_at(text, word, pos)
    }
}

/// Reads a quoted text at `pos`.
fn parse_quoted(source: &str, text: &[char], pos: usize) -> (got: Result<(String, usize), usize>)
    requires
        source@ == text@,
        pos <= text@.len(),
    ensures
        match (got, quoted(text@, pos as int)) {
            (Ok((content, next)), Ok((expected, n))) => {
                &&& content@ == expected
                &&& next == pos + n
                &&& pos < next <= text@.len()
            },
            (Err(at), Err(expected)) => at == expected && at <= text@.len(),
            _ => false,
        },
{
    if pos >= text.len() || text[pos] != QUOTE {
        return Err(pos);
    }
    let start: usize = pos + 1;
    let mut close: usize = start;
    while close < text.len() && text[close] != QUOTE
        invariant
            start <= close <= text@.len(),
            start + unquoted(text@, start as int) == close + unquoted(text@, close as int),
        decreases text@.len() - close,
    {
        close += 1;
    }
    if close >= text.len() {
        return Err(text.len());
    }
    let content = source.substring_char(start, close).to_owned();
    let next = skip_blanks(text, close + 1);
    Ok((content, next))
}

/// Reads a `term` at `pos`.
fn parse_term(source: &str, text: &[char], pos: usize) -> (got: Result<(Expression, usize), usize>)
    requires
        source@ == text@,
        pos <= text@.len(),
    ensures
        agrees(got, pos, term(text@, pos as int)),
        in_bounds(got, pos, text@.len()),
    decreases text@.len() - pos, 1int,
{
    if word_at(text, pos, WORD_NOT.as_slice()) {
        let open = skip_blanks(text, pos + 3);
        if open < text.len() && text[open] == '(' {
            let inner_at = skip_blanks(text, open + 1);
            match parse_expr(source, text, inner_at) {
                Ok((inner, close)) => {
                    if close < text.len() && text[close] == ')' {
                        let next = skip_blanks(text, close + 1);
                        Ok((Expression::Not(Box::new(inner)), next))
                    } else {
                        Err(close)
                    }
                },
                Err(at) => Err(at),
            }
        } else {
            match parse_quoted(source, text, open) {
                Ok((content, next)) => {
                    let inner = Expression::Match(content);
                    assert(inner@ == Formula::Match(content@));
                    Ok((Expression::Not(Box::new(inner)), next))
                },
                Err(at) => Err(at),
            }
        }
    } else {
        match parse_quoted(source, text, pos) {
            Ok((content, next)) => Ok((Expression::Match(content), next)),
            Err(at) => Err(at),
        }
    }
}

/// Reads an `or_expr` at `pos`: terms joined by `or`, folded to the left.
fn parse_or(source: &str, text: &[char], pos: usize) -> (got: Result<(Expression, usize), usize>)
    requires
        source@ == text@,
        pos <= text@.len(),
    ensures
        agrees(got, pos, or_expr(text@, pos as int)),
        in_bounds(got, pos, text@.len()),
    decreases text@.len() - pos, 3int,
{
    let (first, after_first) = match parse_term(source, text, pos) {
        Ok(read) => read,
        Err(at) => {
            return Err(at);
        },
    };
    let mut so_far: Expression = first;
    let mut at: usize = after_first;
    while word_at(text, at, WORD_OR.as_slice())
        invariant
            source@ == text@,
            pos < at <= text@.len(),
            ending(or_tail(text@, at as int, so_far@), at as int) == ending(
                or_expr(text@, pos as int),
                pos as int,
            ),
        decreases text@.len() - at,
    {
        let right_at = skip_blanks(text, at + 2);
        match parse_term(source, text, right_at) {
            Ok((right, next)) => {
                so_far = Expression::Or(Box::new(so_far), Box::new(right));
                at = next;
            },
            Err(failed) => {
                return Err(failed);
            },
        }
    }
    Ok((so_far, at))
}

/// Reads an `and_expr` at `pos`: `or_expr`s joined by `and`, folded to the
/// left.
fn parse_and(source: &str, text: &[char], pos: usize) -> (got: Result<(Expression, usize), usize>)
    requires
        source@ == text@,
        pos <= text@.len(),
    ensures
        agrees(got, pos, and_expr(text@, pos as int)),
        in_bounds(got, pos, text@.len()),
    decreases text@.len() - pos, 5int,
{
    let (first, after_first) = match parse_or(source, text, pos) {
        Ok(read) => read,
        Err(at) => {
            return Err(at);
        },
    };
    let mut so_far: Expression = first;
    let mut at: usize = after_first;
    while word_at(text, at, WORD_AND.as_slice())
        invariant
            source@ == text@,
            pos < at <= text@.len(),
            ending(and_tail(text@, at as int, so_far@), at as int) == ending(
                and_expr(text@, pos as int),
                pos as int,
            ),
        decreases text@.len() - at,
    {
        let right_at = skip_blanks(text, at + 3);
        match parse_or(source, text, right_at) {
            Ok((right, next)) => {
                so_far = Expression::And(Box::new(so_far), Box::new(right));
                at = next;
            },
            Err(failed) => {
                return Err(failed);
            },
        }
    }
    Ok((so_far, at))
}

/// Reads an `expr` at `pos`.
fn parse_expr(source: &str, text: &[char], pos: usize) -> (got: Result<(Expression, usize), usize>)
    requires
        source@ == text@,
        pos <= text@.len(),
    ensures
        agrees(got, pos, expr(text@, pos as int)),
        in_bounds(got, pos, text@.len()),
    decreases text@.len() - pos, 6int,
{
    parse_and(source, text, pos)
}

/// Reads an `expr` at `pos` and asks that the text end with it.
fn parse_last_expr(source: &str, text: &[char], pos: usize) -> (got: Result<Expression, usize>)
    requires
        source@ == text@,
        pos <= text@.len(),
    ensures
        match (got, last_expr(text@, pos as int)) {
            (Ok(expression), Ok(formula)) => expression@ == formula,
            (Err(at), Err(expected)) => at == expected,
            _ => false,
        },
{
    match parse_expr(source, text, pos) {
        Ok((expression, end)) => if end == text.len() {
            Ok(expression)
        } else {
            Err(end)
        },
        Err(at) => Err(at),
    }
}

/// Reads a whole query.
fn parse_query(source: &str, text: &[char]) -> (got: Result<Expression, usize>)
    requires
        source@ == text@,
    ensures
        match (got, query(text@)) {
            (Ok(expression), Ok(formula)) => expression@ == formula,
            (Err(at), Err(expected)) => at == expected,
            _ => false,
        },
{
    if word_at(text, 0, WORD_IF.as_slice()) {
        let cond_at = skip_blanks(text, 2);
        match parse_expr(source, text, cond_at) {
            Ok((cond, then_at)) => {
                if word_at(text, then_at, WORD_THEN.as_slice()) {
                    let yes_at = skip_blanks(text, then_at + 4);
                    match parse_last_expr(source, text, yes_at) {
                        Ok(yes) => {
                            let no = Expression::Empty;
                            assert(no@ == Formula::Empty);
                            Ok(Expression::If(Box::new(cond), Box::new(yes), Box::new(no)))
                        },
                        Err(at) => Err(at),
                    }
                } else {
                    Err(then_at)
                }
            },
            Err(at) => Err(at),
        }
    } else {
        parse_last_expr(source, text, 0)
    }
}

/// Compiles one filter source.
///
/// Succeeds exactly on the sentences of the filter language, with the
/// expression that the sentence denotes; on any other text it reports the
/// text and the position at which it stopped being a sentence.
pub fn parse_expression(expression: &str) -> (result: Result<Expression, FilterSyntaxError>)
    ensures
        match query(expression@) {
            Ok(formula) => result matches Ok(parsed) && parsed@ == formula,
            Err(at) => result matches Err(error) && error.source@ == expression@ && error.position
                == at,
        },
{
    let text = chars_of(expression);
    match parse_query(expression, text.as_slice()) {
        Ok(parsed) => Ok(parsed),
        Err(at) => Err(FilterSyntaxError { source: expression.to_owned(), position: at }),
    }
}

/// The formula that a source denotes; `Empty` for a source that denotes none.
pub open spec fn denoted(source: Seq<char>) -> Formula {
    match query(source) {
        Ok(formula) => formula,
        Err(_) => Formula::Empty,
    }
}

/// The conjunction of what `sources` denote, in their order: `Empty` for no
/// source, and `And(conjunction of all but the last, last)` otherwise.
pub open spec fn conjunction(sources: Seq<Seq<char>>) -> Formula
    decreases sources.len(),
{
    if sources.len() == 0 {
        Formula::Empty
    } else {
        Formula::And(
            Box::new(conjunction(sources.drop_last())),
            Box::new(denoted(sources.last())),
        )
    }
}

/// The conjunction of sources holds of a row exactly where what each source
/// denotes holds of it.
pub proof fn lemma_conjunction_holds(sources: Seq<Seq<char>>, row: Seq<Seq<char>>)
    ensures
        conjunction(sources).holds(row) <==> forall|i: int|
            0 <= i < sources.len() ==> denoted(#[trigger] sources[i]).holds(row),
    decreases sources.len(),
{
    if sources.len() > 0 {
        let before = sources.drop_last();
        lemma_conjunction_holds(before, row);
        assert forall|i: int| 0 <= i < before.len() implies before[i] == sources[i] by {}
        if conjunction(sources).holds(row) {
            assert forall|i: int| 0 <= i < sources.len() implies denoted(
                #[trigger] sources[i],
            ).holds(row) by {
                if i < before.len() {
                    assert(denoted(before[i]).holds(row));
                }
            }
        } else if conjunction(before).holds(row) {
            assert(!denoted(sources[sources.len() - 1]).holds(row));
        } else {
            let i = choose|i: int| 0 <= i < before.len() && !denoted(#[trigger] before[i]).holds(row);
            assert(!denoted(sources[i]).holds(row));
        }
    }
}

/// Every source is a sentence of the filter language.
pub open spec fn all_parse(sources: Seq<Seq<char>>) -> bool {
    forall|i: int| 0 <= i < sources.len() ==> query(#[trigger] sources[i]) is Ok
}

/// `error` reports the first of `sources` that is no sentence of the filter
/// language: it holds that source and the position at which it fails.
pub open spec fn reports_first_bad(sources: Seq<Seq<char>>, error: FilterSyntaxError) -> bool {
    exists|i: int|
        {
            &&& 0 <= i < sources.len()
            &&& query(#[trigger] sources[i]) == Err::<Formula, int>(error.position as int)
            &&& error.source@ == sources[i]
            &&& forall|j: int| 0 <= j < i ==> query(#[trigger] sources[j]) is Ok
        }
}

/// The texts of a list of sources.
pub open spec fn source_texts(sources: Seq<String>) -> Seq<Seq<char>> {
    sources.map_values(|source: String| source@)
}

/// Compiles the filter of a run from its sources.
///
/// Where every source is a sentence of the filter language, the filter is
/// their conjunction in declaration order, and `Empty` for no source. Else
/// the error is that of the first source that is none.
pub fn parse_filter(filters: &[String]) -> (result: Result<Filter, FilterSyntaxError>)
    ensures
        match result {
            Ok(filter) => all_parse(source_texts(filters@)) && filter@ == conjunction(
                source_texts(filters@),
            ),
            Err(error) => reports_first_bad(source_texts(filters@), error),
        },
{
    let ghost sources = source_texts(filters@);
    let mut expression = Expression::Empty;
    let mut i: usize = 0;
    while i < filters.len()
        invariant
            i <= filters@.len(),
            sources == source_texts(filters@),
            forall|j: int| 0 <= j < i ==> query(#[trigger] sources[j]) is Ok,
            expression@ == conjunction(sources.take(i as int)),
        decreases filters@.len() - i,
    {
        match parse_expression(filters[i].as_str()) {
            Ok(parsed) => {
                proof {
                    let before = sources.take(i as int);
                    let now = sources.take(i + 1);
                    assert(now.drop_last() =~= before);
                    assert(now.last() == filters@[i as int]@);
                }
                expression = Expression::And(Box::new(expression), Box::new(parsed));
            },
            Err(error) => {
                assert(query(sources[i as int]) == Err::<Formula, int>(error.position as int));
                return Err(error);
            },
        }
        i += 1;
    }
    proof {
        assert(sources.take(i as int) =~= sources);
    }
    Ok(Filter::new(expression))
}

} // verus!
