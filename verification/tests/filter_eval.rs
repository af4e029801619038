use csv_aggregator::filter::{Expression, Filter};

fn row(fields: &[&str]) -> Vec<String> {
    fields.iter().map(|f| f.to_string()).collect()
}

fn text(s: &str) -> Expression {
    Expression::Match(s.to_string())
}

fn not(e: Expression) -> Expression {
    Expression::Not(Box::new(e))
}

fn and(l: Expression, r: Expression) -> Expression {
    Expression::And(Box::new(l), Box::new(r))
}

fn or(l: Expression, r: Expression) -> Expression {
    Expression::Or(Box::new(l), Box::new(r))
}

fn cond(c: Expression, t: Expression, f: Expression) -> Expression {
    Expression::If(Box::new(c), Box::new(t), Box::new(f))
}

#[test]
fn match_finds_text_inside_a_field() {
    assert!(text("ab").matches(&row(&["xaby", "z"])));
    assert!(!text("ab").matches(&row(&["x", "y"])));
}

#[test]
fn match_looks_at_every_field() {
    assert!(text("z").matches(&row(&["xaby", "z"])));
    assert!(text("by").matches(&row(&["q", "r", "xaby"])));
}

#[test]
fn match_does_not_join_fields() {
    assert!(!text("ab").matches(&row(&["a", "b"])));
}

#[test]
fn match_is_case_sensitive() {
    assert!(!text("AB").matches(&row(&["xaby"])));
    assert!(text("aB").matches(&row(&["xaBy"])));
}

#[test]
fn match_takes_its_text_literally() {
    assert!(text("a.c").matches(&row(&["xa.cy"])));
    assert!(!text("a.c").matches(&row(&["xabcy"])));
    assert!(text("\\n").matches(&row(&["a\\nb"])));
}

#[test]
fn match_of_whole_field_and_of_longer_text() {
    assert!(text("abc").matches(&row(&["abc"])));
    assert!(!text("abcd").matches(&row(&["abc"])));
}

#[test]
fn match_at_the_end_of_a_field() {
    assert!(text("bc").matches(&row(&["aabc"])));
    assert!(text("aab").matches(&row(&["aaab"])));
}

#[test]
fn match_beyond_ascii() {
    assert!(text("é").matches(&row(&["café"])));
    assert!(!text("e").matches(&row(&["café"])));
    assert!(text("日本").matches(&row(&["x", "東日本語"])));
}

#[test]
fn empty_text_is_in_every_field_but_not_in_an_empty_row() {
    assert!(text("").matches(&row(&["abc"])));
    assert!(text("").matches(&row(&[""])));
    assert!(!text("").matches(&row(&[])));
}

#[test]
fn empty_expression_matches_every_row() {
    assert!(Expression::Empty.matches(&row(&[])));
    assert!(Expression::Empty.matches(&row(&["a", "b"])));
}

#[test]
fn negation_matches_where_no_field_holds_the_text() {
    assert!(not(text("a")).matches(&row(&["xyz", "bcd"])));
    assert!(!not(text("a")).matches(&row(&["xyz", "bad"])));
    assert!(not(text("a")).matches(&row(&[])));
}

#[test]
fn and_or_are_the_boolean_operators() {
    let both = row(&["a", "b"]);
    let only_a = row(&["a", "c"]);
    let only_b = row(&["c", "b"]);
    let neither = row(&["c", "d"]);
    let conj = and(text("a"), text("b"));
    let disj = or(text("a"), text("b"));
    assert!(conj.matches(&both));
    assert!(!conj.matches(&only_a));
    assert!(!conj.matches(&only_b));
    assert!(!conj.matches(&neither));
    assert!(disj.matches(&both));
    assert!(disj.matches(&only_a));
    assert!(disj.matches(&only_b));
    assert!(!disj.matches(&neither));
}

#[test]
fn if_picks_a_branch_by_its_condition() {
    let e = cond(text("a"), text("b"), text("c"));
    assert!(e.matches(&row(&["a", "b"])));
    assert!(!e.matches(&row(&["a", "c"])));
    assert!(e.matches(&row(&["x", "c"])));
    assert!(!e.matches(&row(&["x", "b"])));
}

#[test]
fn if_with_empty_else_passes_rows_that_fail_the_condition() {
    let e = cond(text("a"), text("b"), Expression::Empty);
    assert!(e.matches(&row(&["x", "y"])));
    assert!(!e.matches(&row(&["a", "y"])));
    assert!(e.matches(&row(&["a", "b"])));
}

#[test]
fn nested_expressions_evaluate_inside_out() {
    let e = not(or(and(text("a"), not(text("b"))), text("c")));
    assert!(e.matches(&row(&["a", "b"])));
    assert!(!e.matches(&row(&["a", "x"])));
    assert!(!e.matches(&row(&["c"])));
    assert!(e.matches(&row(&["x"])));
}

#[test]
fn filter_matches_as_its_expression() {
    let filter = Filter::new(and(text("a"), not(text("b"))));
    assert!(filter.matches(&row(&["a"])));
    assert!(!filter.matches(&row(&["a", "b"])));
    assert_eq!(filter.expression(), &and(text("a"), not(text("b"))));
}

#[test]
fn clones_are_equal_to_what_they_copy() {
    let e = cond(text("a"), or(text("b"), not(text("c"))), Expression::Empty);
    assert_eq!(e.clone(), e);
    assert_eq!(e.duplicate(), e);
    let filter = Filter::new(e.clone());
    assert_eq!(filter.clone().expression(), &e);
}
