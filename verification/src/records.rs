//! Typed records: the values of a row under the schema, and their order.

use crate::config::{Column, Config, ConfigField, Schema, TypedField};
use crate::dates::{parsed_date, read_date};
use crate::filter::row_view;
use crate::naive_float::{approx_order, lemma_approx_order_reverses, NaiveFloat};
use crate::order::{
    compare_text, lemma_lexical_order_reverses, lemma_lexical_order_transitive, lexical_order,
    reversed,
};
use crate::text::{trim_text, trimmed};
use core::cmp::Ordering;
use vstd::prelude::*;

verus! {

/// The typed value of one column of one row.
#[derive(Debug, PartialEq, Eq)]
pub enum Field {
    /// A date, as its day number (see `dates`).
    Date(i32),
    Number(NaiveFloat),
    /// The column's text, trimmed.
    String(String),
}

/// The mathematical value of a `Field`.
pub ghost enum FieldValue {
    Date(i32),
    /// The number's bit pattern.
    Number(u64),
    Text(Seq<char>),
}

impl View for Field {
    type V = FieldValue;

    open spec fn view(&self) -> FieldValue {
        match self {
            Field::Date(days) => FieldValue::Date(*days),
            Field::Number(number) => FieldValue::Number(number.bits),
            Field::String(text) => FieldValue::Text(text@),
        }
    }
}

/// Why a column's text is no value of the column's type.
#[derive(Clone, Copy, Debug, PartialEq, Eq, Structural)]
pub enum TypeError {
    /// The text is no date under the column's format.
    BadDate,
    /// The text is no decimal number.
    BadNumber,
}

/// The place of a kind of value among the kinds: dates, then numbers, then
/// texts.
pub open spec fn kind_rank(value: FieldValue) -> int {
    match value {
        FieldValue::Date(_) => 0,
        FieldValue::Number(_) => 1,
        FieldValue::Text(_) => 2,
    }
}

/// The order of two values: dates by day, numbers under the tolerance, texts
/// lexically, and values of different kinds by kind.
pub open spec fn field_order(a: FieldValue, b: FieldValue) -> Ordering {
    match (a, b) {
        (FieldValue::Date(x), FieldValue::Date(y)) => if x < y {
            Ordering::Less
        } else if x == y {
            Ordering::Equal
        } else {
            Ordering::Greater
        },
        (FieldValue::Number(x), FieldValue::Number(y)) => approx_order(x, y),
        (FieldValue::Text(x), FieldValue::Text(y)) => lexical_order(x, y),
        _ => if kind_rank(a) < kind_rank(b) {
            Ordering::Less
        } else {
            Ordering::Greater
        },
    }
}

/// The value of a column of the given kind, from the column's text and from
/// what was read from the text as a date and as a number.
///
/// A date column takes the date read and a number column the number read,
/// and fails where there is none. Any other column takes its text, trimmed,
/// and never fails.
pub open spec fn typed(
    column: Column,
    text: Seq<char>,
    date: Option<i32>,
    number: Option<u64>,
) -> Result<FieldValue, TypeError> {
    match column {
        Column::Date { .. } => match date {
            Some(days) => Ok(FieldValue::Date(days)),
            None => Err(TypeError::BadDate),
        },
        Column::Number { .. } => match number {
            Some(bits) => Ok(FieldValue::Number(bits)),
            None => Err(TypeError::BadNumber),
        },
        Column::Basic { .. } => Ok(FieldValue::Text(trimmed(text))),
    }
}

/// What is read from `text` as a date for `column`: for a date column the
/// date that its format finds, for any other column nothing.
pub open spec fn date_read(column: Column, text: Seq<char>) -> Option<i32> {
    match column {
        Column::Date { format, .. } => parsed_date(text, format),
        _ => None,
    }
}

/// The bit pattern of a number, if there is one.
pub open spec fn bits_of(number: Option<NaiveFloat>) -> Option<u64> {
    match number {
        Some(n) => Some(n.bits),
        None => None,
    }
}

/// `got` is the outcome `expected`, a field for its value.
pub open spec fn is_typed(
    got: Result<Field, TypeError>,
    expected: Result<FieldValue, TypeError>,
) -> bool {
    match got {
        Ok(field) => expected == Ok::<FieldValue, TypeError>(field@),
        Err(error) => expected == Err::<FieldValue, TypeError>(error),
    }
}

impl Field {
    /// A copy of the field.
    pub fn duplicate(&self) -> (copy: Field)
        ensures
            copy@ == self@,
    {
        match self {
            Field::Date(days) => Field::Date(*days),
            Field::Number(number) => Field::Number(*number),
            Field::String(text) => Field::String(text.clone()),
        }
    }

    /// Builds the value of a column from the column's text, from the date
    /// read from the text, if any, and from the number read from it, if any.
    pub fn from_parts(
        config_field: &ConfigField,
        value: &str,
        date: Option<i32>,
        number: Option<NaiveFloat>,
    ) -> (result: Result<Field, TypeError>)
        ensures
            is_typed(result, typed(config_field@, value@, date, bits_of(number))),
    {
        match config_field {
            ConfigField::Typed(TypedField::Date { .. }) => match date {
                Some(days) => Ok(Field::Date(days)),
                None => Err(TypeError::BadDate),
            },
            ConfigField::Typed(TypedField::Number { .. }) => match number {
                Some(n) => Ok(Field::Number(n)),
                None => Err(TypeError::BadNumber),
            },
            ConfigField::Basic(_) => Ok(Field::String(trim_text(value))),
        }
    }

    /// Converts the text of a column to the column's type.
    ///
    /// `number` is the number that `value` spells, if it spells one; only a
    /// number column looks at it. A date column reads `value` with its
    /// format, and whether that finds a date is the date reader's to say.
    pub fn new(config_field: &ConfigField, value: &str, number: Option<NaiveFloat>) -> (result:
        Result<Field, TypeError>)
        ensures
            is_typed(
                result,
                typed(config_field@, value@, date_read(config_field@, value@), bits_of(number)),
            ),
    {
        let date = match config_field {
            ConfigField::Typed(TypedField::Date { format, .. }) => match read_date(
                value,
                format.as_str(),
            ) {
                Ok(days) => Some(days),
                Err(_) => None,
            },
            _ => None,
        };
        Field::from_parts(config_field, value, date, number)
    }

    /// Compares two fields.
    pub fn cmp(&self, other: &Field) -> (order: Ordering)
        ensures
            order == field_order(self@, other@),
    {
        match (self, other) {
            (Field::Date(x), Field::Date(y)) => if *x < *y {
                Ordering::Less
            } else if *x == *y {
                Ordering::Equal
            } else {
                Ordering::Greater
            },
            (Field::Number(x), Field::Number(y)) => x.cmp(y),
            (Field::String(x), Field::String(y)) => compare_text(x.as_str(), y.as_str()),
            (Field::Date(_), _) => Ordering::Less,
            (Field::Number(_), Field::Date(_)) => Ordering::Greater,
            (Field::Number(_), Field::String(_)) => Ordering::Less,
            (Field::String(_), _) => Ordering::Greater,
        }
    }
}

impl Clone for Field {
    fn clone(&self) -> (copy: Field)
        ensures
            copy@ == self@,
    {
        self.duplicate()
    }
}

/// The column that a record is sorted by.
#[derive(Clone, Copy, Debug, PartialEq, Eq, Structural)]
pub struct SortParams {
    pub index: usize,
}

impl SortParams {
    pub fn new(index: usize) -> (params: SortParams)
        ensures
            params.index == index,
    {
        SortParams { index }
    }
}

/// One row under the schema: a value for every column, in schema order, and
/// the position of the sort column, if the schema has one.
#[derive(Debug, PartialEq, Eq)]
pub struct Record {
    fields: Vec<Field>,
    sort_params: Option<SortParams>,
}

/// The mathematical value of a `Record`.
pub ghost struct RecordValue {
    pub fields: Seq<FieldValue>,
    pub sort: Option<int>,
}

impl View for Record {
    type V = RecordValue;

    closed spec fn view(&self) -> RecordValue {
        RecordValue {
            fields: self.fields@.map_values(|field: Field| field@),
            sort: match self.sort_params {
                Some(params) => Some(params.index as int),
                None => None,
            },
        }
    }
}

/// The order of two records where they have one: that of their values in
/// the sort column. Records without a sort column have none, and neither
/// have two records that disagree on it or lack the column.
pub open spec fn record_partial_order(a: RecordValue, b: RecordValue) -> Option<Ordering> {
    match (a.sort, b.sort) {
        (Some(i), Some(j)) => if i == j && 0 <= i < a.fields.len() && i < b.fields.len() {
            Some(field_order(a.fields[i], b.fields[i]))
        } else {
            None
        },
        _ => None,
    }
}

/// The order by which records are sorted: their partial order, and `Equal`
/// where they have none.
pub open spec fn record_order(a: RecordValue, b: RecordValue) -> Ordering {
    match record_partial_order(a, b) {
        Some(order) => order,
        None => Ordering::Equal,
    }
}

/// One input row as it was read: the text of each column, and beside it the
/// number that the text spells, for the columns whose text spells one.
#[derive(Debug)]
pub struct RawRow {
    pub fields: Vec<String>,
    pub numbers: Vec<Option<NaiveFloat>>,
}

/// The mathematical value of a `RawRow`.
pub ghost struct RawRowValue {
    pub fields: Seq<Seq<char>>,
    pub numbers: Seq<Option<u64>>,
}

impl View for RawRow {
    type V = RawRowValue;

    open spec fn view(&self) -> RawRowValue {
        RawRowValue {
            fields: row_view(self.fields@),
            numbers: self.numbers@.map_values(|number: Option<NaiveFloat>| bits_of(number)),
        }
    }
}

/// A row of another width than the schema: it has `found` columns where the
/// schema has `expected`.
#[derive(Clone, Copy, Debug, PartialEq, Eq, Structural)]
pub struct RowShapeError {
    pub expected: usize,
    pub found: usize,
}

/// Why a row is no record of the schema.
#[derive(Clone, Copy, Debug, PartialEq, Eq, Structural)]
pub enum RecordError {
    RowShape(RowShapeError),
    /// The text of column `column` is no value of the column's type.
    Type { column: usize, kind: TypeError },
}

/// The row has one text and one number slot for every column of the schema.
pub open spec fn fits(schema: Schema, row: RawRowValue) -> bool {
    row.fields.len() == schema.columns.len() && row.numbers.len() == schema.columns.len()
}

/// The value of column `i` of the row.
pub open spec fn cell(schema: Schema, row: RawRowValue, i: int) -> Result<FieldValue, TypeError> {
    typed(
        schema.columns[i],
        row.fields[i],
        date_read(schema.columns[i], row.fields[i]),
        row.numbers[i],
    )
}

/// The first column at or after `from` whose text is no value of its type.
pub open spec fn first_failure(schema: Schema, row: RawRowValue, from: int) -> Option<int>
    decreases schema.columns.len() - from,
{
    if from >= schema.columns.len() {
        None
    } else if cell(schema, row, from) is Err {
        Some(from)
    } else {
        first_failure(schema, row, from + 1)
    }
}

/// The record that a row gives under a schema.
///
/// A row of another width than the schema is refused. A row with a column
/// whose text is no value of the column's type is refused for the first such
/// column. Any other row gives the values of its columns, in order, with the
/// schema's sort position.
pub open spec fn typed_row(schema: Schema, row: RawRowValue) -> Result<RecordValue, RecordError> {
    if row.fields.len() != schema.columns.len() {
        Err(
            RecordError::RowShape(
                RowShapeError {
                    expected: schema.columns.len() as usize,
                    found: row.fields.len() as usize,
                },
            ),
        )
    } else if row.numbers.len() != schema.columns.len() {
        Err(
            RecordError::RowShape(
                RowShapeError {
                    expected: schema.columns.len() as usize,
                    found: row.numbers.len() as usize,
                },
            ),
        )
    } else {
        match first_failure(schema, row, 0) {
            Some(column) => Err(
                RecordError::Type {
                    column: column as usize,
                    kind: cell(schema, row, column)->Err_0,
                },
            ),
            None => Ok(
                RecordValue {
                    fields: Seq::new(schema.columns.len(), |i: int| cell(schema, row, i)->Ok_0),
                    sort: schema.sort_index(),
                },
            ),
        }
    }
}

/// `got` is the outcome `expected`, a record for its value.
pub open spec fn is_record(
    got: Result<Record, RecordError>,
    expected: Result<RecordValue, RecordError>,
) -> bool {
    match got {
        Ok(record) => expected == Ok::<RecordValue, RecordError>(record@),
        Err(error) => expected == Err::<RecordValue, RecordError>(error),
    }
}

impl Record {
    /// The record's values, in schema order.
    pub fn fields(&self) -> (fields: &Vec<Field>)
        ensures
            fields@.map_values(|field: Field| field@) == self@.fields,
    {
        &self.fields
    }

    /// The column that the record is sorted by, if any.
    pub fn sort_params(&self) -> (params: Option<SortParams>)
        ensures
            match params {
                Some(p) => self@.sort == Some(p.index as int),
                None => self@.sort is None,
            },
    {
        self.sort_params
    }

    /// A copy of the record.
    pub fn duplicate(&self) -> (copy: Record)
        ensures
            copy@ == self@,
    {
        let mut fields: Vec<Field> = Vec::new();
        let mut i: usize = 0;
        while i < self.fields.len()
            invariant
                i <= self.fields@.len(),
                fields@.len() == i,
                forall|k: int| 0 <= k < i ==> (#[trigger] fields@[k])@ == self.fields@[k]@,
            decreases self.fields@.len() - i,
        {
            fields.push(self.fields[i].duplicate());
            i += 1;
        }
        assert(fields@.map_values(|field: Field| field@) =~= self.fields@.map_values(
            |field: Field| field@,
        ));
        Record { fields, sort_params: self.sort_params }
    }

    /// Types a raw row under the schema.
    ///
    /// The outcome is `typed_row` of the schema and the row: a record with
    /// one value per column and the schema's sort position, or the reason
    /// why the row gives none. No record is built from a part of a row.
    pub fn new(config: &Config, row: &RawRow) -> (result: Result<Record, RecordError>)
        ensures
            is_record(result, typed_row(config@, row@)),
    {
        let width: usize = config.fields.len();
        if row.fields.len() != width {
            return Err(
                RecordError::RowShape(RowShapeError { expected: width, found: row.fields.len() }),
            );
        }
        if row.numbers.len() != width {
            return Err(
                RecordError::RowShape(RowShapeError { expected: width, found: row.numbers.len() }),
            );
        }
        let sort_params = match config.get_sort_index() {
            Some(index) => Some(SortParams::new(index)),
            None => None,
        };
        let mut fields: Vec<Field> = Vec::new();
        let mut i: usize = 0;
        while i < width
            invariant
                i <= width,
                width == config.fields@.len(),
                fits(config@, row@),
                fields@.len() == i,
                first_failure(config@, row@, 0) == first_failure(config@, row@, i as int),
                forall|k: int|
                    0 <= k < i ==> cell(config@, row@, k) == Ok::<FieldValue, TypeError>(
                        (#[trigger] fields@[k])@,
                    ),
            decreases width - i,
        {
            match Field::new(&config.fields[i], row.fields[i].as_str(), row.numbers[i]) {
                Ok(field) => {
                    fields.push(field);
                },
                Err(kind) => {
                    return Err(RecordError::Type { column: i, kind });
                },
            }
            i += 1;
        }
        let record = Record { fields, sort_params };
        proof {
            let expected = typed_row(config@, row@)->Ok_0;
            assert(record@.fields =~= expected.fields);
        }
        Ok(record)
    }

    /// The order of two records where they have one (see
    /// `record_partial_order`).
    pub fn partial_cmp(&self, other: &Record) -> (order: Option<Ordering>)
        ensures
            order == record_partial_order(self@, other@),
    {
        match (self.sort_params, other.sort_params) {
            (Some(own), Some(others)) => {
                if own.index == others.index && own.index < self.fields.len() && own.index
                    < other.fields.len() {
                    Some(self.fields[own.index].cmp(&other.fields[own.index]))
                } else {
                    None
                }
            },
            _ => None,
        }
    }

    /// The order by which records are sorted: that of their values in the
    /// sort column, and `Equal` where there is none to compare.
    pub fn cmp(&self, other: &Record) -> (order: Ordering)
        ensures
            order == record_order(self@, other@),
    {
        match self.partial_cmp(other) {
            Some(order) => order,
            None => Ordering::Equal,
        }
    }
}

impl Clone for Record {
    fn clone(&self) -> (copy: Record)
        ensures
            copy@ == self@,
    {
        self.duplicate()
    }
}

/// Swapping two values reverses their order.
pub proof fn lemma_field_order_reverses(a: FieldValue, b: FieldValue)
    ensures
        field_order(b, a) == reversed(field_order(a, b)),
{
    match (a, b) {
        (FieldValue::Number(x), FieldValue::Number(y)) => {
            lemma_approx_order_reverses(x, y);
        },
        (FieldValue::Text(x), FieldValue::Text(y)) => {
            lemma_lexical_order_reverses(x, y);
        },
        _ => {},
    }
}

/// Swapping two records reverses their order.
pub proof fn lemma_record_order_reverses(a: RecordValue, b: RecordValue)
    ensures
        record_order(b, a) == reversed(record_order(a, b)),
{
    match (a.sort, b.sort) {
        (Some(i), Some(j)) => {
            if i == j && 0 <= i < a.fields.len() && i < b.fields.len() {
                lemma_field_order_reverses(a.fields[i], b.fields[i]);
            }
        },
        _ => {},
    }
}

/// Among values none of which is a number, the order is transitive.
pub proof fn lemma_field_order_transitive(a: FieldValue, b: FieldValue, c: FieldValue)
    requires
        !(a is Number && b is Number && c is Number),
        !(field_order(a, b) is Greater),
        !(field_order(b, c) is Greater),
    ensures
        !(field_order(a, c) is Greater),
{
    match (a, b, c) {
        (FieldValue::Text(x), FieldValue::Text(y), FieldValue::Text(z)) => {
            lemma_lexical_order_transitive(x, y, z);
        },
        _ => {},
    }
}

} // verus!
