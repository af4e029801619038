use csv_aggregator::filter::Expression;
use csv_aggregator::parser::{parse_expression, parse_filter, FilterSyntaxError};

fn row(fields: &[&str]) -> Vec<String> {
    fields.iter().map(|f| f.to_string()).collect()
}

fn text(s: &str) -> Expression {
    Expression::Match(s.to_string())
}

fn not(e: Expression) -> Expression {
    Expression::Not(Box::new(e))
}

fn and(l: Expression, r: Expression) -> Expression {
    Expression::And(Box::new(l), Box::new(r))
}

fn or(l: Expression, r: Expression) -> Expression {
    Expression::Or(Box::new(l), Box::new(r))
}

fn when(c: Expression, t: Expression) -> Expression {
    Expression::If(Box::new(c), Box::new(t), Box::new(Expression::Empty))
}

fn failure(source: &str, position: usize) -> Result<Expression, FilterSyntaxError> {
    Err(FilterSyntaxError { source: source.to_string(), position })
}

#[test]
fn quoted_text_is_a_match() {
    assert_eq!(parse_expression("'pass'"), Ok(text("pass")));
}

#[test]
fn quoted_text_keeps_spaces_and_keywords_inside() {
    assert_eq!(parse_expression("' a and b '"), Ok(text(" a and b ")));
    assert_eq!(parse_expression("'not (x)'"), Ok(text("not (x)")));
}

#[test]
fn quoted_text_may_be_empty() {
    assert_eq!(parse_expression("''"), Ok(text("")));
}

#[test]
fn quoted_text_beyond_ascii() {
    assert_eq!(parse_expression("'café' or '日本'"), Ok(or(text("café"), text("日本"))));
}

#[test]
fn not_before_a_quoted_text() {
    assert_eq!(parse_expression("not 'a'"), Ok(not(text("a"))));
    assert_eq!(parse_expression("not'a'"), Ok(not(text("a"))));
}

#[test]
fn not_before_a_parenthesis() {
    assert_eq!(parse_expression("not ('a' or 'b')"), Ok(not(or(text("a"), text("b")))));
    assert_eq!(parse_expression("not( 'a' )"), Ok(not(text("a"))));
    assert_eq!(
        parse_expression("not (not ('a'))"),
        Ok(not(not(text("a"))))
    );
}

#[test]
fn or_folds_to_the_left() {
    assert_eq!(
        parse_expression("'a' or 'b' or 'c'"),
        Ok(or(or(text("a"), text("b")), text("c")))
    );
}

#[test]
fn and_folds_to_the_left() {
    assert_eq!(
        parse_expression("'a' and 'b' and 'c'"),
        Ok(and(and(text("a"), text("b")), text("c")))
    );
}

#[test]
fn or_binds_tighter_than_and() {
    assert_eq!(
        parse_expression("'a' and 'b' or 'c'"),
        Ok(and(text("a"), or(text("b"), text("c"))))
    );
    assert_eq!(
        parse_expression("'a' or 'b' and 'c'"),
        Ok(and(or(text("a"), text("b")), text("c")))
    );
    assert_eq!(
        parse_expression("'a' or 'b' and 'c' or 'd' and not 'e'"),
        Ok(and(
            and(or(text("a"), text("b")), or(text("c"), text("d"))),
            not(text("e"))
        ))
    );
}

#[test]
fn if_then_has_an_empty_else() {
    assert_eq!(parse_expression("if 'a' then 'b'"), Ok(when(text("a"), text("b"))));
    assert_eq!(
        parse_expression("if 'a' or 'b' then not ('c' and 'd')"),
        Ok(when(or(text("a"), text("b")), not(and(text("c"), text("d")))))
    );
}

#[test]
fn whitespace_between_tokens_is_free() {
    let expected = Ok(when(not(text("a")), and(text("b"), text("c"))));
    assert_eq!(parse_expression("if not 'a' then 'b' and 'c'"), expected);
    assert_eq!(parse_expression("if\tnot\n'a'\r\nthen  'b'\x0Cand 'c'   "), expected);
    assert_eq!(parse_expression("ifnot'a'then'b'and'c'"), expected);
}

#[test]
fn whitespace_may_end_a_query_but_not_start_it() {
    assert_eq!(parse_expression("'a' \t\n"), Ok(text("a")));
    assert_eq!(parse_expression(" 'a'"), failure(" 'a'", 0));
}

#[test]
fn only_ascii_whitespace_separates() {
    assert_eq!(parse_expression("'a'\u{A0}and 'b'"), failure("'a'\u{A0}and 'b'", 3));
    assert_eq!(parse_expression("'a'\x0Band 'b'"), failure("'a'\x0Band 'b'", 3));
}

#[test]
fn keywords_are_case_sensitive() {
    assert_eq!(parse_expression("'a' AND 'b'"), failure("'a' AND 'b'", 4));
    assert_eq!(parse_expression("Not 'a'"), failure("Not 'a'", 0));
    assert_eq!(parse_expression("IF 'a' then 'b'"), failure("IF 'a' then 'b'", 0));
}

#[test]
fn unterminated_quote_fails_at_the_end() {
    assert_eq!(parse_expression("'abc"), failure("'abc", 4));
    assert_eq!(parse_expression("'a' and 'bc"), failure("'a' and 'bc", 11));
}

#[test]
fn missing_then_fails_where_it_should_stand() {
    assert_eq!(parse_expression("if 'a' 'b'"), failure("if 'a' 'b'", 7));
    assert_eq!(parse_expression("if 'a'"), failure("if 'a'", 6));
}

#[test]
fn trailing_garbage_fails_where_it_starts() {
    assert_eq!(parse_expression("'a' 'b'"), failure("'a' 'b'", 4));
    assert_eq!(parse_expression("'a')"), failure("'a')", 3));
    assert_eq!(parse_expression("'a' xyz"), failure("'a' xyz", 4));
    assert_eq!(
        parse_expression("if 'a' then 'b' then 'c'"),
        failure("if 'a' then 'b' then 'c'", 16)
    );
}

#[test]
fn missing_operand_fails_where_it_should_stand() {
    assert_eq!(parse_expression(""), failure("", 0));
    assert_eq!(parse_expression("'a' and"), failure("'a' and", 7));
    assert_eq!(parse_expression("'a' or "), failure("'a' or ", 7));
    assert_eq!(parse_expression("not"), failure("not", 3));
    assert_eq!(parse_expression("if 'a' then"), failure("if 'a' then", 11));
    assert_eq!(parse_expression("and 'a'"), failure("and 'a'", 0));
}

#[test]
fn parentheses_need_not_and_a_closing_partner() {
    assert_eq!(parse_expression("('a')"), failure("('a')", 0));
    assert_eq!(parse_expression("not ('a'"), failure("not ('a'", 8));
    assert_eq!(parse_expression("not ('a' 'b')"), failure("not ('a' 'b')", 9));
    assert_eq!(parse_expression("not ()"), failure("not ()", 5));
}

#[test]
fn if_is_not_an_operand() {
    assert_eq!(
        parse_expression("'a' and if 'b' then 'c'"),
        failure("'a' and if 'b' then 'c'", 8)
    );
    assert_eq!(
        parse_expression("if if 'a' then 'b' then 'c'"),
        failure("if if 'a' then 'b' then 'c'", 3)
    );
}

#[test]
fn positions_count_characters_not_bytes() {
    assert_eq!(parse_expression("'é' x"), failure("'é' x", 4));
}

#[test]
fn conditional_filter_lets_rows_pass_that_fail_the_condition() {
    let e = parse_expression("if 'a' then 'b'").unwrap();
    assert!(e.matches(&row(&["x", "y"])));
    assert!(!e.matches(&row(&["a", "y"])));
    assert!(e.matches(&row(&["a", "b"])));
    assert!(e.matches(&row(&["x", "b"])));
}

#[test]
fn parsed_queries_have_their_truth_tables() {
    let queries = [
        ("'a'", [false, true, false, true, false, true, false, true]),
        ("not 'a'", [true, false, true, false, true, false, true, false]),
        ("'a' and 'b'", [false, false, false, true, false, false, false, true]),
        ("'a' or 'b'", [false, true, true, true, false, true, true, true]),
        ("'a' and 'b' or 'c'", [false, false, false, true, false, true, false, true]),
        ("'a' or 'b' and 'c'", [false, false, false, false, false, true, true, true]),
        ("not ('a' and 'b') or 'c'", [true, true, true, false, true, true, true, true]),
        ("if 'a' then 'b'", [true, false, true, true, true, false, true, true]),
        ("if 'a' and 'b' then 'c'", [true, true, true, false, true, true, true, true]),
    ];
    for (source, table) in queries.iter() {
        let e = parse_expression(source).unwrap();
        for n in 0..8usize {
            let mut fields: Vec<String> = vec!["-".to_string()];
            if n & 1 != 0 {
                fields.push("a".to_string());
            }
            if n & 2 != 0 {
                fields.push("b".to_string());
            }
            if n & 4 != 0 {
                fields.push("c".to_string());
            }
            assert_eq!(e.matches(&fields), table[n], "{} on {:?}", source, fields);
        }
    }
}

#[test]
fn no_filter_source_gives_the_empty_filter() {
    let filter = parse_filter(&[]).unwrap();
    assert_eq!(filter.expression(), &Expression::Empty);
    assert!(filter.matches(&row(&["anything"])));
}

#[test]
fn filter_sources_are_joined_by_and_in_order() {
    let sources = vec!["'a'".to_string(), "'b' or 'c'".to_string()];
    let filter = parse_filter(&sources).unwrap();
    assert_eq!(
        filter.expression(),
        &and(and(Expression::Empty, text("a")), or(text("b"), text("c")))
    );
    assert!(filter.matches(&row(&["a", "c"])));
    assert!(!filter.matches(&row(&["a"])));
    assert!(!filter.matches(&row(&["b"])));
}

#[test]
fn first_bad_filter_source_is_reported() {
    let sources = vec!["'a'".to_string(), "'b".to_string(), "oops".to_string()];
    let error = parse_filter(&sources).unwrap_err();
    assert_eq!(error, FilterSyntaxError { source: "'b".to_string(), position: 2 });
}

#[test]
fn canonical_sources_read_back_to_their_expressions() {
    let cases = [
        ("'a'", text("a")),
        ("not ('a')", not(text("a"))),
        ("'a' or 'b' or 'c'", or(or(text("a"), text("b")), text("c"))),
        ("'a' and 'b' or 'c' and 'd'", and(and(text("a"), or(text("b"), text("c"))), text("d"))),
        (
            "not ('a' and not ('b' or 'c')) or 'd'",
            or(not(and(text("a"), not(or(text("b"), text("c"))))), text("d")),
        ),
        (
            "if 'a' or 'b' then not ('c') and 'd'",
            when(or(text("a"), text("b")), and(not(text("c")), text("d"))),
        ),
    ];
    for (source, expected) in cases.iter() {
        assert_eq!(&parse_expression(source).unwrap(), expected, "{}", source);
    }
}
