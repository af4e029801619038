//! A whole run, from schema and raw rows to the sorted records.
//!
//! A run compiles the schema's filter, collects the records of the rows that
//! the filter takes, and sorts them: one chain, which stops at the first
//! failure and then gives no record at all.

use crate::aggregate::{
    all_records, fails, formula_of, is_first_failure, lemma_run_without_sort_column,
    parse_and_aggregate_csvs, source_values, RowError,
};
use crate::config::Config;
use crate::filter::{Filter, Formula};
use crate::parser::{
    all_parse, conjunction, parse_filter, reports_first_bad, source_texts, FilterSyntaxError,
};
use crate::records::{typed_row, RawRow, Record, RecordError, RecordValue};
use crate::sorting::{
    arranged, consistent, is_permutation, is_stable_sort, transform_aggregated_csv, values,
};
use vstd::prelude::*;

verus! {

/// Why a run gave no output.
#[derive(Clone, Debug, PartialEq, Eq)]
pub enum RunError {
    /// A filter source is malformed. No row was looked at.
    Filter(FilterSyntaxError),
    /// A row that the filter took could not be typed.
    Row(RowError),
}

/// The texts of the filter sources of a schema, if it has any.
pub open spec fn filter_sources(config: Config) -> Option<Seq<Seq<char>>> {
    match config.filter {
        Some(sources) => Some(source_texts(sources@)),
        None => None,
    }
}

/// The formula that a run holds its rows against: the conjunction of the
/// schema's filter sources. A schema without filter sources has none.
pub open spec fn run_formula(config: Config) -> Option<Formula> {
    match filter_sources(config) {
        Some(sources) => Some(conjunction(sources)),
        None => None,
    }
}

/// The filter sources of the schema, if it has any, are all sentences of
/// the filter language.
pub open spec fn filter_compiles(config: Config) -> bool {
    match filter_sources(config) {
        Some(sources) => all_parse(sources),
        None => true,
    }
}

/// Compiles the filter of a schema.
///
/// A schema without filter sources has no filter. Otherwise the filter is
/// the conjunction of the sources, and the first malformed source fails the
/// whole.
pub fn compile_filter(config: &Config) -> (result: Result<Option<Filter>, FilterSyntaxError>)
    ensures
        match result {
            Ok(filter) => filter_compiles(*config) && formula_of(filter) == run_formula(*config),
            Err(error) => config.filter matches Some(sources) && reports_first_bad(
                source_texts(sources@),
                error,
            ),
        },
{
    match &config.filter {
        Some(sources) => match parse_filter(sources.as_slice()) {
            Ok(filter) => Ok(Some(filter)),
            Err(error) => Err(error),
        },
        None => Ok(None),
    }
}

/// Runs the whole chain on the raw rows of the sources.
///
/// The run fails on the first malformed filter source, before any row is
/// looked at, and else on the first row, in ingestion order, that the filter
/// takes and that cannot be typed. A run that does not fail gives the
/// records of the rows that the filter takes, each once. Where the order of
/// these records is consistent they are in stable ascending order of the
/// sort column; a run without a sort column gives them in ingestion order.
pub fn run(config: &Config, sources: &[Vec<RawRow>]) -> (result: Result<Vec<Record>, RunError>)
    ensures
        match result {
            Ok(sorted) => {
                let collected = all_records(config@, run_formula(*config), source_values(sources@));
                &&& filter_compiles(*config)
                &&& forall|s: int, r: int|
                    0 <= s < sources@.len() && 0 <= r < sources@[s]@.len() ==> !fails(
                        config@,
                        run_formula(*config),
                        #[trigger] source_values(sources@)[s][r],
                    )
                &&& exists|order: Seq<int>|
                    {
                        &&& is_permutation(order, collected.len() as int)
                        &&& arranged(collected, values(sorted@), order)
                        &&& consistent(collected) ==> is_stable_sort(collected, order)
                    }
                &&& config@.sort_index() is None ==> values(sorted@) == collected
            },
            Err(RunError::Filter(error)) => config.filter matches Some(filters)
                && reports_first_bad(source_texts(filters@), error),
            Err(RunError::Row(failure)) => {
                &&& filter_compiles(*config)
                &&& is_first_failure(
                    config@,
                    run_formula(*config),
                    source_values(sources@),
                    failure.source as int,
                    failure.row as int,
                )
                &&& typed_row(
                    config@,
                    source_values(sources@)[failure.source as int][failure.row as int],
                ) == Err::<RecordValue, RecordError>(failure.error)
            },
        },
{
    let filter = match compile_filter(config) {
        Ok(filter) => filter,
        Err(error) => {
            return Err(RunError::Filter(error));
        },
    };
    let collected = match parse_and_aggregate_csvs(sources, config, &filter) {
        Ok(records) => records,
        Err(failure) => {
            return Err(RunError::Row(failure));
        },
    };
    proof {
        if config@.sort_index() is None {
            lemma_run_without_sort_column(
                config@,
                run_formula(*config),
                source_values(sources@),
            );
        }
    }
    Ok(transform_aggregated_csv(config, collected.as_slice()))
}

} // verus!
