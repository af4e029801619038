use chrono::{Datelike, NaiveDate};
use csv_aggregator::config::{Config, ConfigField, TypedField};
use csv_aggregator::naive_float::NaiveFloat;
use csv_aggregator::records::{
    Field, RawRow, Record, RecordError, RowShapeError, SortParams, TypeError,
};
use std::cmp::Ordering;

fn basic(name: &str) -> ConfigField {
    ConfigField::Basic(name.to_string())
}

fn number(name: &str) -> ConfigField {
    ConfigField::Typed(TypedField::Number { name: name.to_string() })
}

fn date(name: &str, format: &str) -> ConfigField {
    ConfigField::Typed(TypedField::Date { name: name.to_string(), format: format.to_string() })
}

fn config(fields: Vec<ConfigField>, sort: Option<&str>) -> Config {
    Config { fields, sort: sort.map(|s| s.to_string()), filter: None }
}

fn reading(text: &str) -> Option<NaiveFloat> {
    text.parse::<f64>().ok().map(|x| NaiveFloat::from_bits(x.to_bits()))
}

fn raw(fields: &[&str]) -> RawRow {
    RawRow {
        fields: fields.iter().map(|f| f.to_string()).collect(),
        numbers: fields.iter().map(|f| reading(f)).collect(),
    }
}

fn num(x: f64) -> Field {
    Field::Number(NaiveFloat::from_bits(x.to_bits()))
}

fn text(s: &str) -> Field {
    Field::String(s.to_string())
}

fn day(y: i32, m: u32, d: u32) -> Field {
    Field::Date(NaiveDate::from_ymd_opt(y, m, d).unwrap().num_days_from_ce())
}

#[test]
fn basic_field_keeps_its_text_trimmed() {
    assert_eq!(Field::new(&basic("n"), "alice", None), Ok(text("alice")));
    assert_eq!(Field::new(&basic("n"), "  3.0 pass\t", reading("  3.0 pass\t")), Ok(text("3.0 pass")));
    assert_eq!(Field::new(&basic("n"), "   ", None), Ok(text("")));
    assert_eq!(Field::new(&basic("n"), "7", reading("7")), Ok(text("7")));
}

#[test]
fn number_field_takes_the_number_read() {
    assert_eq!(Field::new(&number("s"), "9.0", reading("9.0")), Ok(num(9.0)));
    assert_eq!(Field::new(&number("s"), "-1e3", reading("-1e3")), Ok(num(-1000.0)));
    match Field::new(&number("s"), "0.1", reading("0.1")) {
        Ok(Field::Number(n)) => assert_eq!(n.to_bits(), 0.1f64.to_bits()),
        other => panic!("{:?}", other),
    }
}

#[test]
fn number_field_refuses_text_that_spells_no_number() {
    assert_eq!(Field::new(&number("s"), "abc", reading("abc")), Err(TypeError::BadNumber));
    assert_eq!(Field::new(&number("s"), "", reading("")), Err(TypeError::BadNumber));
    assert_eq!(Field::new(&number("s"), "3.0 pass", reading("3.0 pass")), Err(TypeError::BadNumber));
}

#[test]
fn date_field_reads_its_text_with_its_format() {
    assert_eq!(Field::new(&date("d", "%Y-%m-%d"), "2020-01-02", None), Ok(Field::Date(737_426)));
    assert_eq!(Field::new(&date("d", "%Y-%m-%d"), "1970-01-01", None), Ok(Field::Date(719_163)));
    assert_eq!(Field::new(&date("d", "%d%b%Y"), "5sep2015", None), Ok(day(2015, 9, 5)));
    assert_eq!(Field::new(&date("d", "%d/%m/%Y"), "31/12/1999", None), Ok(day(1999, 12, 31)));
}

#[test]
fn date_field_changes_with_text_and_with_format() {
    let a = Field::new(&date("d", "%Y-%m-%d"), "2020-01-02", None).unwrap();
    let b = Field::new(&date("d", "%Y-%m-%d"), "2020-01-03", None).unwrap();
    let c = Field::new(&date("d", "%Y-%d-%m"), "2020-01-02", None).unwrap();
    assert_ne!(a, b);
    assert_ne!(a, c);
    assert_eq!(c, day(2020, 2, 1));
}

#[test]
fn date_field_refuses_text_that_is_no_date() {
    assert_eq!(Field::new(&date("d", "%Y-%m-%d"), "abc", None), Err(TypeError::BadDate));
    assert_eq!(Field::new(&date("d", "%Y-%m-%d"), "2020-13-01", None), Err(TypeError::BadDate));
    assert_eq!(Field::new(&date("d", "%Y-%m-%d"), "2020-02-30", None), Err(TypeError::BadDate));
    assert_eq!(Field::new(&date("d", "%Y-%m-%d"), "2020-01-02x", None), Err(TypeError::BadDate));
    assert_eq!(Field::new(&date("d", "%Y-%m-%d"), "", None), Err(TypeError::BadDate));
    assert_eq!(Field::new(&date("d", "%Y/%m"), "2015/9", None), Err(TypeError::BadDate));
    assert_eq!(Field::new(&date("d", "%Q"), "2020", None), Err(TypeError::BadDate));
}

#[test]
fn field_from_parts_takes_what_was_read() {
    let n = NaiveFloat::from_bits(2.5f64.to_bits());
    assert_eq!(Field::from_parts(&date("d", "%F"), "x", Some(730_000), Some(n)), Ok(Field::Date(730_000)));
    assert_eq!(Field::from_parts(&date("d", "%F"), "x", None, Some(n)), Err(TypeError::BadDate));
    assert_eq!(Field::from_parts(&number("n"), "x", Some(1), Some(n)), Ok(Field::Number(n)));
    assert_eq!(Field::from_parts(&number("n"), "x", Some(1), None), Err(TypeError::BadNumber));
    assert_eq!(Field::from_parts(&basic("b"), " x ", Some(1), Some(n)), Ok(text("x")));
    assert_eq!(Field::from_parts(&basic("b"), " x ", None, None), Ok(text("x")));
}

#[test]
fn dates_are_ordered_by_day() {
    let early = Field::new(&date("d", "%Y-%m-%d"), "2020-01-01", None).unwrap();
    let late = Field::new(&date("d", "%Y-%m-%d"), "2020-01-02", None).unwrap();
    assert_eq!(early.cmp(&late), Ordering::Less);
    assert_eq!(late.cmp(&early), Ordering::Greater);
    assert_eq!(late.cmp(&late), Ordering::Equal);
    assert_eq!(day(1999, 12, 31).cmp(&day(2000, 1, 1)), Ordering::Less);
    assert_eq!(day(-1, 1, 1).cmp(&day(1, 1, 1)), Ordering::Less);
}

#[test]
fn day_numbers_order_dates_as_chrono_does() {
    let dates = [(1, 1, 1), (1999, 12, 31), (2000, 1, 1), (2000, 2, 29), (2020, 1, 2), (-4, 3, 1), (0, 12, 31)];
    for a in dates.iter() {
        for b in dates.iter() {
            let x = NaiveDate::from_ymd_opt(a.0, a.1, a.2).unwrap();
            let y = NaiveDate::from_ymd_opt(b.0, b.1, b.2).unwrap();
            assert_eq!(day(a.0, a.1, a.2).cmp(&day(b.0, b.1, b.2)), x.cmp(&y));
        }
    }
}

#[test]
fn numbers_are_ordered_under_the_tolerance() {
    assert_eq!(num(3.0).cmp(&num(5.0)), Ordering::Less);
    assert_eq!(num(5.0).cmp(&num(3.0)), Ordering::Greater);
    let close = f64::from_bits(5.0f64.to_bits() + 2);
    assert_eq!(num(5.0).cmp(&num(close)), Ordering::Equal);
    let far = f64::from_bits(5.0f64.to_bits() + 3);
    assert_eq!(num(5.0).cmp(&num(far)), Ordering::Less);
}

#[test]
fn texts_are_ordered_lexically() {
    assert_eq!(text("apple").cmp(&text("banana")), Ordering::Less);
    assert_eq!(text("b").cmp(&text("apple")), Ordering::Greater);
    assert_eq!(text("10").cmp(&text("9")), Ordering::Less);
    assert_eq!(text("a").cmp(&text("a")), Ordering::Equal);
}

#[test]
fn kinds_are_ordered_dates_numbers_texts() {
    assert_eq!(day(2020, 1, 1).cmp(&num(0.0)), Ordering::Less);
    assert_eq!(day(2020, 1, 1).cmp(&text("")), Ordering::Less);
    assert_eq!(num(1e300).cmp(&text("")), Ordering::Less);
    assert_eq!(num(0.0).cmp(&day(1, 1, 1)), Ordering::Greater);
    assert_eq!(text("").cmp(&num(0.0)), Ordering::Greater);
    assert_eq!(text("").cmp(&day(1, 1, 1)), Ordering::Greater);
}

#[test]
fn record_has_one_value_per_column_in_schema_order() {
    let c = config(vec![basic("name"), number("score"), date("day", "%Y-%m-%d")], Some("score"));
    let r = Record::new(&c, &raw(&[" alice ", "9.0", "2020-01-02"])).unwrap();
    assert_eq!(r.fields(), &vec![text("alice"), num(9.0), Field::Date(737_426)]);
    assert_eq!(r.sort_params(), Some(SortParams { index: 1 }));
    assert_eq!(SortParams::new(1), SortParams { index: 1 });
}

#[test]
fn record_without_sort_column_has_no_sort_params() {
    let c = config(vec![basic("name")], None);
    assert_eq!(Record::new(&c, &raw(&["x"])).unwrap().sort_params(), None);
    let c = config(vec![basic("name")], Some("other"));
    assert_eq!(Record::new(&c, &raw(&["x"])).unwrap().sort_params(), None);
}

#[test]
fn record_takes_the_rightmost_sort_column() {
    let c = config(vec![basic("x"), basic("y"), basic("x")], Some("x"));
    let r = Record::new(&c, &raw(&["1", "2", "3"])).unwrap();
    assert_eq!(r.sort_params(), Some(SortParams { index: 2 }));
}

#[test]
fn row_of_another_width_is_refused() {
    let c = config(vec![basic("a"), basic("b")], None);
    assert_eq!(
        Record::new(&c, &raw(&["1"])),
        Err(RecordError::RowShape(RowShapeError { expected: 2, found: 1 }))
    );
    assert_eq!(
        Record::new(&c, &raw(&["1", "2", "3"])),
        Err(RecordError::RowShape(RowShapeError { expected: 2, found: 3 }))
    );
    assert_eq!(
        Record::new(&c, &raw(&[])),
        Err(RecordError::RowShape(RowShapeError { expected: 2, found: 0 }))
    );
    let lopsided = RawRow { fields: vec!["1".to_string(), "2".to_string()], numbers: vec![None] };
    assert_eq!(
        Record::new(&c, &lopsided),
        Err(RecordError::RowShape(RowShapeError { expected: 2, found: 1 }))
    );
}

#[test]
fn empty_schema_takes_the_empty_row() {
    let c = config(vec![], None);
    let r = Record::new(&c, &raw(&[])).unwrap();
    assert_eq!(r.fields(), &Vec::<Field>::new());
}

#[test]
fn first_bad_column_is_reported() {
    let c = config(vec![basic("a"), number("b"), date("c", "%F"), number("d")], None);
    assert_eq!(
        Record::new(&c, &raw(&["x", "abc", "nope", "zzz"])),
        Err(RecordError::Type { column: 1, kind: TypeError::BadNumber })
    );
    assert_eq!(
        Record::new(&c, &raw(&["x", "1", "nope", "zzz"])),
        Err(RecordError::Type { column: 2, kind: TypeError::BadDate })
    );
    assert_eq!(
        Record::new(&c, &raw(&["x", "1", "2020-01-02", "zzz"])),
        Err(RecordError::Type { column: 3, kind: TypeError::BadNumber })
    );
}

#[test]
fn records_are_ordered_by_their_sort_column() {
    let c = config(vec![basic("name"), number("score")], Some("score"));
    let bob = Record::new(&c, &raw(&["bob", "3.0"])).unwrap();
    let carol = Record::new(&c, &raw(&["carol", "5.0"])).unwrap();
    assert_eq!(bob.cmp(&carol), Ordering::Less);
    assert_eq!(carol.cmp(&bob), Ordering::Greater);
    assert_eq!(bob.cmp(&bob), Ordering::Equal);
    assert_eq!(bob.partial_cmp(&carol), Some(Ordering::Less));
}

#[test]
fn records_without_sort_column_are_all_equal() {
    let c = config(vec![basic("name"), number("score")], None);
    let bob = Record::new(&c, &raw(&["bob", "3.0"])).unwrap();
    let carol = Record::new(&c, &raw(&["carol", "5.0"])).unwrap();
    assert_eq!(bob.cmp(&carol), Ordering::Equal);
    assert_eq!(carol.cmp(&bob), Ordering::Equal);
    assert_eq!(bob.partial_cmp(&carol), None);
}

#[test]
fn records_of_different_sort_columns_are_equal() {
    let by_name = config(vec![basic("name"), number("score")], Some("name"));
    let by_score = config(vec![basic("name"), number("score")], Some("score"));
    let a = Record::new(&by_name, &raw(&["a", "1"])).unwrap();
    let b = Record::new(&by_score, &raw(&["b", "2"])).unwrap();
    assert_eq!(a.partial_cmp(&b), None);
    assert_eq!(a.cmp(&b), Ordering::Equal);
}

#[test]
fn record_copies_are_equal_to_what_they_copy() {
    let c = config(vec![basic("name"), number("score"), date("day", "%F")], Some("day"));
    let r = Record::new(&c, &raw(&["x", "1.5", "2001-02-03"])).unwrap();
    assert_eq!(r.clone(), r);
    assert_eq!(r.duplicate(), r);
    assert_eq!(r.clone().sort_params(), Some(SortParams { index: 2 }));
    assert_eq!(text("a").clone(), text("a"));
}
