//! Ingestion: from the raw rows of every source to the collected records.
//!
//! Rows are taken source by source and, within a source, in row order. A row
//! is first held against the filter, as raw text; a row that the filter
//! takes is then typed. The first taken row that cannot be typed ends the
//! run: nothing is collected from a run that fails.

use crate::config::{lemma_last_named_is_rightmost, Config, Schema};
use crate::filter::{Filter, Formula};
use crate::records::{
    cell, first_failure, typed_row, RawRow, RawRowValue, Record, RecordError, RecordValue,
};
use crate::sorting::{
    consistent, lemma_consistent_without_numbers, lemma_unsorted_rows_are_consistent, same_shape,
    sorted_without_numbers, unsorted, values,
};
use vstd::prelude::*;

verus! {

/// A row that ended a run, and why.
#[derive(Clone, Copy, Debug, PartialEq, Eq, Structural)]
pub struct RowError {
    /// The position of the row's source among the sources.
    pub source: usize,
    /// The position of the row in its source.
    pub row: usize,
    pub error: RecordError,
}

/// The formula of the run's filter; a run without a filter has none.
pub open spec fn formula_of(filter: Option<Filter>) -> Option<Formula> {
    match filter {
        Some(f) => Some(f@),
        None => None,
    }
}

/// The filter takes the row. A run without a filter takes every row.
pub open spec fn taken(filter: Option<Formula>, row: RawRowValue) -> bool {
    match filter {
        Some(formula) => formula.holds(row.fields),
        None => true,
    }
}

/// The row is taken and cannot be typed.
pub open spec fn fails(schema: Schema, filter: Option<Formula>, row: RawRowValue) -> bool {
    taken(filter, row) && typed_row(schema, row) is Err
}

/// The record that the row adds to the collection, if it adds one.
pub open spec fn accepted(schema: Schema, filter: Option<Formula>, row: RawRowValue) -> Option<
    RecordValue,
> {
    if taken(filter, row) {
        match typed_row(schema, row) {
            Ok(record) => Some(record),
            Err(_) => None,
        }
    } else {
        None
    }
}

/// The records that the rows of one source add, in row order.
pub open spec fn source_records(
    schema: Schema,
    filter: Option<Formula>,
    rows: Seq<RawRowValue>,
) -> Seq<RecordValue>
    decreases rows.len(),
{
    if rows.len() == 0 {
        Seq::empty()
    } else {
        let before = source_records(schema, filter, rows.drop_last());
        match accepted(schema, filter, rows.last()) {
            Some(record) => before.push(record),
            None => before,
        }
    }
}

/// The records that all sources add: those of the first source, then those
/// of the second, and so on.
pub open spec fn all_records(
    schema: Schema,
    filter: Option<Formula>,
    sources: Seq<Seq<RawRowValue>>,
) -> Seq<RecordValue>
    decreases sources.len(),
{
    if sources.len() == 0 {
        Seq::empty()
    } else {
        all_records(schema, filter, sources.drop_last()) + source_records(
            schema,
            filter,
            sources.last(),
        )
    }
}

/// Row `row` of source `source` comes before row `other_row` of source
/// `other_source` in ingestion order.
pub open spec fn ingested_before(source: int, row: int, other_source: int, other_row: int) -> bool {
    source < other_source || (source == other_source && row < other_row)
}

/// Row `row` of source `source` is the first row, in ingestion order, that
/// is taken and cannot be typed.
pub open spec fn is_first_failure(
    schema: Schema,
    filter: Option<Formula>,
    sources: Seq<Seq<RawRowValue>>,
    source: int,
    row: int,
) -> bool {
    &&& 0 <= source < sources.len()
    &&& 0 <= row < sources[source].len()
    &&& fails(schema, filter, sources[source][row])
    &&& forall|s: int, r: int|
        0 <= s < sources.len() && 0 <= r < sources[s].len() && ingested_before(s, r, source, row)
            ==> !fails(schema, filter, #[trigger] sources[s][r])
}

/// The values of the rows of one source.
pub open spec fn row_values(rows: Seq<RawRow>) -> Seq<RawRowValue> {
    rows.map_values(|row: RawRow| row@)
}

/// The values of the rows of every source.
pub open spec fn source_values(sources: Seq<Vec<RawRow>>) -> Seq<Seq<RawRowValue>> {
    sources.map_values(|rows: Vec<RawRow>| row_values(rows@))
}

/// Decides what one raw row adds to the collection.
///
/// A row that the filter does not take adds nothing. A row that it takes
/// adds its record, or ends the run where it has none.
pub fn accept_row(config: &Config, filter: &Option<Filter>, row: &RawRow) -> (result: Result<
    Option<Record>,
    RecordError,
>)
    ensures
        match result {
            Ok(Some(record)) => taken(formula_of(*filter), row@) && typed_row(config@, row@) == Ok::<
                RecordValue,
                RecordError,
            >(record@),
            Ok(None) => !taken(formula_of(*filter), row@),
            Err(error) => taken(formula_of(*filter), row@) && typed_row(config@, row@) == Err::<
                RecordValue,
                RecordError,
            >(error),
        },
{
    let take = match filter {
        Some(f) => f.matches(row.fields.as_slice()),
        None => true,
    };
    if take {
        match Record::new(config, row) {
            Ok(record) => Ok(Some(record)),
            Err(error) => Err(error),
        }
    } else {
        Ok(None)
    }
}

/// Collects the records of a run from the raw rows of its sources.
///
/// Where no taken row fails to be typed, the result holds the records of
/// the taken rows in ingestion order: source by source, and row by row
/// within a source. Otherwise the result is the first failure in that
/// order, and no record.
pub fn parse_and_aggregate_csvs(
    sources: &[Vec<RawRow>],
    config: &Config,
    filter: &Option<Filter>,
) -> (result: Result<Vec<Record>, RowError>)
    ensures
        match result {
            Ok(records) => {
                &&& forall|s: int, r: int|
                    0 <= s < sources@.len() && 0 <= r < sources@[s]@.len() ==> !fails(
                        config@,
                        formula_of(*filter),
                        #[trigger] source_values(sources@)[s][r],
                    )
                &&& values(records@) == all_records(
                    config@,
                    formula_of(*filter),
                    source_values(sources@),
                )
            },
            Err(failure) => {
                &&& is_first_failure(
                    config@,
                    formula_of(*filter),
                    source_values(sources@),
                    failure.source as int,
                    failure.row as int,
                )
                &&& typed_row(
                    config@,
                    source_values(sources@)[failure.source as int][failure.row as int],
                ) == Err::<RecordValue, RecordError>(failure.error)
            },
        },
{
    let ghost schema = config@;
    let ghost formula = formula_of(*filter);
    let ghost all = source_values(sources@);
    let mut records: Vec<Record> = Vec::new();
    let mut s: usize = 0;
    assert(all.take(0) =~= Seq::<Seq<RawRowValue>>::empty());
    while s < sources.len()
        invariant
            s <= sources@.len(),
            schema == config@,
            formula == formula_of(*filter),
            all == source_values(sources@),
            values(records@) == all_records(schema, formula, all.take(s as int)),
            forall|s2: int, r2: int|
                0 <= s2 < s && 0 <= r2 < all[s2].len() ==> !fails(
                    schema,
                    formula,
                    #[trigger] all[s2][r2],
                ),
        decreases sources@.len() - s,
    {
        let rows = &sources[s];
        let ghost these = all[s as int];
        let ghost before = values(records@);
        let mut r: usize = 0;
        assert(these.take(0) =~= Seq::<RawRowValue>::empty());
        assert(before + source_records(schema, formula, these.take(0)) =~= before);
        while r < rows.len()
            invariant
                s < sources@.len(),
                r <= rows@.len(),
                rows == &sources@[s as int],
                schema == config@,
                formula == formula_of(*filter),
                all == source_values(sources@),
                these == all[s as int],
                these == row_values(rows@),
                values(records@) == before + source_records(schema, formula, these.take(r as int)),
                forall|s2: int, r2: int|
                    0 <= s2 < s && 0 <= r2 < all[s2].len() ==> !fails(
                        schema,
                        formula,
                        #[trigger] all[s2][r2],
                    ),
                forall|r2: int| 0 <= r2 < r ==> !fails(schema, formula, #[trigger] these[r2]),
            decreases rows@.len() - r,
        {
            let ghost so_far = values(records@);
            proof {
                let upto = these.take(r + 1);
                assert(upto.drop_last() =~= these.take(r as int));
                assert(upto.last() == rows@[r as int]@);
            }
            match accept_row(config, filter, &rows[r]) {
                Ok(Some(record)) => {
                    records.push(record);
                    assert(values(records@) =~= so_far.push(record@));
                    assert(values(records@) =~= before + source_records(
                        schema,
                        formula,
                        these.take(r + 1),
                    ));
                },
                Ok(None) => {},
                Err(error) => {
                    return Err(RowError { source: s, row: r, error });
                },
            }
            r += 1;
        }
        proof {
            assert(these.take(r as int) =~= these);
            let upto = all.take(s + 1);
            assert(upto.drop_last() =~= all.take(s as int));
            assert(upto.last() == these);
        }
        s += 1;
    }
    assert(all.take(s as int) =~= all);
    Ok(records)
}

/// The record is one of the schema: it has the schema's width and sort
/// position, and a number exactly in the schema's number columns.
pub open spec fn follows(schema: Schema, record: RecordValue) -> bool {
    &&& record.sort == schema.sort_index()
    &&& record.fields.len() == schema.columns.len()
    &&& forall|c: int|
        0 <= c < schema.columns.len() ==> ((#[trigger] record.fields[c]) is Number
            <==> schema.columns[c] is Number)
}

/// Where no column from `from` on fails, every such column has a value.
proof fn lemma_no_failure(schema: Schema, row: RawRowValue, from: int, column: int)
    requires
        0 <= from <= column < schema.columns.len(),
        first_failure(schema, row, from) is None,
    ensures
        cell(schema, row, column) is Ok,
    decreases schema.columns.len() - from,
{
    if from < column {
        lemma_no_failure(schema, row, from + 1, column);
    }
}

/// The record that a row gives is one of the schema.
pub proof fn lemma_typed_row_follows(schema: Schema, row: RawRowValue)
    requires
        typed_row(schema, row) is Ok,
    ensures
        follows(schema, typed_row(schema, row)->Ok_0),
{
    let record = typed_row(schema, row)->Ok_0;
    assert forall|c: int| 0 <= c < schema.columns.len() implies ((#[trigger] record.fields[c])
        is Number <==> schema.columns[c] is Number) by {
        lemma_no_failure(schema, row, 0, c);
    }
}

/// The records of one source are of the schema.
proof fn lemma_source_records_follow(
    schema: Schema,
    filter: Option<Formula>,
    rows: Seq<RawRowValue>,
)
    ensures
        forall|i: int|
            0 <= i < source_records(schema, filter, rows).len() ==> follows(
                schema,
                #[trigger] source_records(schema, filter, rows)[i],
            ),
    decreases rows.len(),
{
    if rows.len() > 0 {
        let before = source_records(schema, filter, rows.drop_last());
        let now = source_records(schema, filter, rows);
        lemma_source_records_follow(schema, filter, rows.drop_last());
        if accepted(schema, filter, rows.last()) is Some {
            lemma_typed_row_follows(schema, rows.last());
        }
        assert forall|i: int| 0 <= i < now.len() implies follows(schema, #[trigger] now[i]) by {
            if i < before.len() {
                assert(now[i] == before[i]);
            }
        }
    }
}

/// Every record of a run is one of the run's schema.
pub proof fn lemma_all_records_follow(
    schema: Schema,
    filter: Option<Formula>,
    sources: Seq<Seq<RawRowValue>>,
)
    ensures
        forall|i: int|
            0 <= i < all_records(schema, filter, sources).len() ==> follows(
                schema,
                #[trigger] all_records(schema, filter, sources)[i],
            ),
    decreases sources.len(),
{
    if sources.len() > 0 {
        let before = all_records(schema, filter, sources.drop_last());
        let added = source_records(schema, filter, sources.last());
        let now = all_records(schema, filter, sources);
        lemma_all_records_follow(schema, filter, sources.drop_last());
        lemma_source_records_follow(schema, filter, sources.last());
        assert forall|i: int| 0 <= i < now.len() implies follows(schema, #[trigger] now[i]) by {
            if i < before.len() {
                assert(now[i] == before[i]);
            } else {
                assert(now[i] == added[i - before.len()]);
            }
        }
    }
}

/// The records of a run without a sort column have no sort column: they are
/// all equal, and sorting them leaves them in ingestion order (see
/// `lemma_unsorted_rows_stay`).
pub proof fn lemma_run_without_sort_column(
    schema: Schema,
    filter: Option<Formula>,
    sources: Seq<Seq<RawRowValue>>,
)
    requires
        schema.sort_index() is None,
    ensures
        unsorted(all_records(schema, filter, sources)),
        consistent(all_records(schema, filter, sources)),
{
    lemma_all_records_follow(schema, filter, sources);
    lemma_unsorted_rows_are_consistent(all_records(schema, filter, sources));
}

/// The records of a run that is not sorted by a number column have a
/// consistent order: sorting them gives their one stable ascending order.
pub proof fn lemma_run_not_sorted_by_numbers(
    schema: Schema,
    filter: Option<Formula>,
    sources: Seq<Seq<RawRowValue>>,
)
    requires
        match schema.sort_index() {
            Some(column) => !(schema.columns[column] is Number),
            None => true,
        },
    ensures
        consistent(all_records(schema, filter, sources)),
{
    let records = all_records(schema, filter, sources);
    lemma_all_records_follow(schema, filter, sources);
    match schema.sort {
        Some(name) => {
            lemma_last_named_is_rightmost(schema.columns, name);
        },
        None => {},
    }
    assert(same_shape(records));
    assert(sorted_without_numbers(records));
    lemma_consistent_without_numbers(records);
}

} // verus!
