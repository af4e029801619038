//! The stable sort of the collected records.
//!
//! The sort is a merge sort over positions: it orders the indices of the
//! rows and moves no record until the order is known. What it promises
//! depends on the order of the records being consistent, which the order of
//! numbers under a tolerance need not be.

use crate::config::Config;
use crate::naive_float::{approx_order, lemma_approx_order_transitive};
use crate::records::{
    lemma_field_order_transitive, lemma_record_order_reverses, record_order, FieldValue, Record,
    RecordValue,
};
use core::cmp::Ordering;
use vstd::prelude::*;
use vstd::set_lib::{lemma_int_range, lemma_set_subset_finite, lemma_subset_equality, set_int_range};

verus! {

/// `a` is not greater than `b`.
pub open spec fn precedes(a: RecordValue, b: RecordValue) -> bool {
    !(record_order(a, b) is Greater)
}

/// `a` is less than `b`.
pub open spec fn below(a: RecordValue, b: RecordValue) -> bool {
    record_order(a, b) is Less
}

/// `a` and `b` are equal in the order.
pub open spec fn level(a: RecordValue, b: RecordValue) -> bool {
    record_order(a, b) is Equal
}

/// The values of a sequence of records.
pub open spec fn values(rows: Seq<Record>) -> Seq<RecordValue> {
    rows.map_values(|row: Record| row@)
}

/// Among `rows`, "not greater" is transitive: the rows can be sorted.
///
/// This holds of rows that are sorted by dates or by texts, and of rows
/// without a sort column. It fails of rows sorted by numbers where three of
/// them are such that the first and the last differ by more than the
/// tolerance while the middle one is within it of both.
pub open spec fn consistent(rows: Seq<RecordValue>) -> bool {
    forall|i: int, j: int, k: int|
        #![trigger precedes(rows[i], rows[j]), precedes(rows[j], rows[k])]
        0 <= i < rows.len() && 0 <= j < rows.len() && 0 <= k < rows.len() && precedes(
            rows[i],
            rows[j],
        ) && precedes(rows[j], rows[k]) ==> precedes(rows[i], rows[k])
}

/// `order` lists every index below `n` once.
pub open spec fn is_permutation(order: Seq<int>, n: int) -> bool {
    &&& order.len() == n
    &&& forall|i: int| 0 <= i < n ==> 0 <= #[trigger] order[i] < n
    &&& forall|i: int, j: int| 0 <= i < j < n ==> #[trigger] order[i] != #[trigger] order[j]
}

/// `sorted` holds the rows of `rows` in the order `order`: its row `i` is
/// row `order[i]` of `rows`.
pub open spec fn arranged(rows: Seq<RecordValue>, sorted: Seq<RecordValue>, order: Seq<int>) -> bool {
    &&& sorted.len() == order.len()
    &&& forall|i: int| 0 <= i < order.len() ==> #[trigger] sorted[i] == rows[order[i]]
}

/// In a stable ascending sort of `rows`, row `a` comes before row `b`: it is
/// less, or it is equal and came first.
pub open spec fn sorts_before(rows: Seq<RecordValue>, a: int, b: int) -> bool {
    below(rows[a], rows[b]) || (level(rows[a], rows[b]) && a < b)
}

/// `order` lists indices of `rows` in stable ascending order.
pub open spec fn is_stable_sort(rows: Seq<RecordValue>, order: Seq<int>) -> bool {
    forall|i: int, j: int|
        0 <= i < j < order.len() ==> sorts_before(rows, #[trigger] order[i], #[trigger] order[j])
}

/// The indices in `order`, as integers.
pub open spec fn indices(order: Seq<usize>) -> Seq<int> {
    order.map_values(|index: usize| index as int)
}

/// Whether `a` may stand before `b`.
fn comes_first(a: &Record, b: &Record) -> (first: bool)
    ensures
        first == precedes(a@, b@),
{
    match a.cmp(b) {
        Ordering::Greater => false,
        _ => true,
    }
}

/// Swapping two records turns "not greater" into "not less".
proof fn lemma_swap(a: RecordValue, b: RecordValue)
    ensures
        below(b, a) == !precedes(a, b),
        level(b, a) == level(a, b),
{
    lemma_record_order_reverses(a, b);
}

/// A run: indices of `rows` between `lo` and `hi`, none twice, and in stable
/// ascending order where the order of `rows` is consistent.
spec fn is_run(rows: Seq<RecordValue>, run: Seq<usize>, lo: int, hi: int) -> bool {
    &&& forall|i: int| 0 <= i < run.len() ==> lo <= #[trigger] run[i] < hi
    &&& forall|i: int, j: int| 0 <= i < j < run.len() ==> #[trigger] run[i] != #[trigger] run[j]
    &&& consistent(rows) ==> forall|i: int, j: int|
        0 <= i < j < run.len() ==> sorts_before(
            rows,
            #[trigger] run[i] as int,
            #[trigger] run[j] as int,
        )
}

/// Every index in `done` sorts before index `next`.
spec fn all_before(rows: Seq<RecordValue>, done: Seq<usize>, next: int) -> bool {
    forall|m: int| 0 <= m < done.len() ==> sorts_before(rows, #[trigger] done[m] as int, next)
}

/// Where a row of the left run may stand before a row of the right run, it
/// sorts before that row and before all that follow it in the right run.
proof fn lemma_left_first(
    rows: Seq<RecordValue>,
    left: Seq<usize>,
    right: Seq<usize>,
    i: int,
    j: int,
    lo: int,
    mid: int,
    hi: int,
)
    requires
        consistent(rows),
        0 <= lo <= mid <= hi <= rows.len(),
        is_run(rows, left, lo, mid),
        is_run(rows, right, mid, hi),
        0 <= i < left.len(),
        0 <= j < right.len(),
        precedes(rows[left[i] as int], rows[right[j] as int]),
    ensures
        forall|k: int|
            j <= k < right.len() ==> sorts_before(rows, left[i] as int, #[trigger] right[k] as int),
{
    assert forall|k: int| j <= k < right.len() implies sorts_before(
        rows,
        left[i] as int,
        #[trigger] right[k] as int,
    ) by {
        let a = rows[left[i] as int];
        let b = rows[right[j] as int];
        let c = rows[right[k] as int];
        if k > j {
            assert(sorts_before(rows, right[j] as int, right[k] as int));
            assert(precedes(b, c));
            assert(precedes(a, b) && precedes(b, c));
        }
        assert(precedes(a, c));
    }
}

/// Where a row of the left run is greater than a row of the right run, the
/// latter sorts before it and before all that follow it in the left run.
proof fn lemma_right_first(
    rows: Seq<RecordValue>,
    left: Seq<usize>,
    right: Seq<usize>,
    i: int,
    j: int,
    lo: int,
    mid: int,
    hi: int,
)
    requires
        consistent(rows),
        0 <= lo <= mid <= hi <= rows.len(),
        is_run(rows, left, lo, mid),
        is_run(rows, right, mid, hi),
        0 <= i < left.len(),
        0 <= j < right.len(),
        !precedes(rows[left[i] as int], rows[right[j] as int]),
    ensures
        forall|k: int|
            i <= k < left.len() ==> sorts_before(rows, right[j] as int, #[trigger] left[k] as int),
{
    assert forall|k: int| i <= k < left.len() implies sorts_before(
        rows,
        right[j] as int,
        #[trigger] left[k] as int,
    ) by {
        let a = rows[left[i] as int];
        let b = rows[left[k] as int];
        let c = rows[right[j] as int];
        if k > i {
            assert(sorts_before(rows, left[i] as int, left[k] as int));
            assert(precedes(a, b));
            if precedes(b, c) {
                assert(precedes(a, b) && precedes(b, c));
                assert(precedes(a, c));
            }
        }
        assert(!precedes(b, c));
        lemma_swap(b, c);
    }
}

/// Merges two adjacent runs into one.
fn merge(
    rows: &[Record],
    left: &Vec<usize>,
    right: &Vec<usize>,
    Ghost(lo): Ghost<int>,
    Ghost(mid): Ghost<int>,
    Ghost(hi): Ghost<int>,
) -> (merged: Vec<usize>)
    requires
        0 <= lo <= mid <= hi <= rows@.len(),
        is_run(values(rows@), left@, lo, mid),
        is_run(values(rows@), right@, mid, hi),
    ensures
        merged@.len() == left@.len() + right@.len(),
        is_run(values(rows@), merged@, lo, hi),
{
    let ghost all = values(rows@);
    let mut merged: Vec<usize> = Vec::new();
    let mut i: usize = 0;
    let mut j: usize = 0;
    while i < left.len() || j < right.len()
        invariant
            all == values(rows@),
            0 <= lo <= mid <= hi <= rows@.len(),
            is_run(all, left@, lo, mid),
            is_run(all, right@, mid, hi),
            i <= left@.len(),
            j <= right@.len(),
            merged@.len() == i + j,
            is_run(all, merged@, lo, hi),
            forall|m: int, k: int|
                0 <= m < merged@.len() && i <= k < left@.len() ==> #[trigger] merged@[m]
                    != #[trigger] left@[k],
            forall|m: int, k: int|
                0 <= m < merged@.len() && j <= k < right@.len() ==> #[trigger] merged@[m]
                    != #[trigger] right@[k],
            consistent(all) ==> forall|k: int|
                i <= k < left@.len() ==> all_before(all, merged@, #[trigger] left@[k] as int),
            consistent(all) ==> forall|k: int|
                j <= k < right@.len() ==> all_before(all, merged@, #[trigger] right@[k] as int),
        decreases left@.len() - i + right@.len() - j,
    {
        let take_left = if i >= left.len() {
            false
        } else if j >= right.len() {
            true
        } else {
            comes_first(&rows[left[i]], &rows[right[j]])
        };
        let ghost before = merged@;
        if take_left {
            let next = left[i];
            proof {
                if consistent(all) {
                    if j < right@.len() {
                        lemma_left_first(all, left@, right@, i as int, j as int, lo, mid, hi);
                    }
                    assert(all_before(all, before, next as int));
                }
            }
            merged.push(next);
            i += 1;
            proof {
                if consistent(all) {
                    assert forall|k: int| i <= k < left@.len() implies all_before(
                        all,
                        merged@,
                        #[trigger] left@[k] as int,
                    ) by {
                        assert(all_before(all, before, left@[k] as int));
                        assert(sorts_before(all, left@[i - 1] as int, left@[k] as int));
                    }
                    assert forall|k: int| j <= k < right@.len() implies all_before(
                        all,
                        merged@,
                        #[trigger] right@[k] as int,
                    ) by {
                        assert(all_before(all, before, right@[k] as int));
                    }
                }
            }
        } else {
            let next = right[j];
            proof {
                if consistent(all) {
                    if i < left@.len() {
                        lemma_right_first(all, left@, right@, i as int, j as int, lo, mid, hi);
                    }
                    assert(all_before(all, before, next as int));
                }
            }
            merged.push(next);
            j += 1;
            proof {
                if consistent(all) {
                    assert forall|k: int| i <= k < left@.len() implies all_before(
                        all,
                        merged@,
                        #[trigger] left@[k] as int,
                    ) by {
                        assert(all_before(all, before, left@[k] as int));
                    }
                    assert forall|k: int| j <= k < right@.len() implies all_before(
                        all,
                        merged@,
                        #[trigger] right@[k] as int,
                    ) by {
                        assert(all_before(all, before, right@[k] as int));
                        assert(sorts_before(all, right@[j - 1] as int, right@[k] as int));
                    }
                }
            }
        }
    }
    merged
}

/// Sorts the indices from `lo` up to `hi`.
fn sort_range(rows: &[Record], lo: usize, hi: usize) -> (run: Vec<usize>)
    requires
        lo <= hi <= rows@.len(),
    ensures
        run@.len() == hi - lo,
        is_run(values(rows@), run@, lo as int, hi as int),
    decreases hi - lo,
{
    if hi - lo == 0 {
        Vec::new()
    } else if hi - lo == 1 {
        let mut run: Vec<usize> = Vec::new();
        run.push(lo);
        run
    } else {
        let mid: usize = lo + (hi - lo) / 2;
        let left = sort_range(rows, lo, mid);
        let right = sort_range(rows, mid, hi);
        merge(rows, &left, &right, Ghost(lo as int), Ghost(mid as int), Ghost(hi as int))
    }
}

/// No row has a sort column.
pub open spec fn unsorted(rows: Seq<RecordValue>) -> bool {
    forall|i: int| 0 <= i < rows.len() ==> (#[trigger] rows[i]).sort is None
}

/// The stable ascending order of `rows`, as the list of their indices.
///
/// The list holds every index once. Where the order of the rows is
/// consistent, the list is in stable ascending order: a row stands before
/// every row that is greater, and before every equal row that came after it
/// in `rows`. There is one such list only (`lemma_stable_sort_is_unique`).
pub fn sort_order(rows: &[Record]) -> (order: Vec<usize>)
    ensures
        is_permutation(indices(order@), rows@.len() as int),
        consistent(values(rows@)) ==> is_stable_sort(values(rows@), indices(order@)),
{
    let order = sort_range(rows, 0, rows.len());
    proof {
        let listed = indices(order@);
        assert forall|i: int, j: int| 0 <= i < j < listed.len() implies #[trigger] listed[i]
            != #[trigger] listed[j] by {
            assert(order@[i] != order@[j]);
        }
        if consistent(values(rows@)) {
            assert forall|i: int, j: int| 0 <= i < j < listed.len() implies sorts_before(
                values(rows@),
                #[trigger] listed[i],
                #[trigger] listed[j],
            ) by {
                assert(sorts_before(values(rows@), order@[i] as int, order@[j] as int));
            }
        }
    }
    order
}

/// In an ascending list of indices below `n`, no index is below its place.
proof fn lemma_ascending_from_below(order: Seq<int>, i: int)
    requires
        0 <= i < order.len(),
        forall|k: int| 0 <= k < order.len() ==> 0 <= #[trigger] order[k],
        forall|a: int, b: int| 0 <= a < b < order.len() ==> #[trigger] order[a] < #[trigger] order[b],
    ensures
        i <= order[i],
    decreases i,
{
    if i > 0 {
        lemma_ascending_from_below(order, i - 1);
    }
}

/// In an ascending list of all indices below its length, no index is above
/// its place.
proof fn lemma_ascending_from_above(order: Seq<int>, i: int)
    requires
        0 <= i < order.len(),
        forall|k: int| 0 <= k < order.len() ==> #[trigger] order[k] < order.len(),
        forall|a: int, b: int| 0 <= a < b < order.len() ==> #[trigger] order[a] < #[trigger] order[b],
    ensures
        order[i] <= i,
    decreases order.len() - i,
{
    if i + 1 < order.len() {
        lemma_ascending_from_above(order, i + 1);
    }
}

/// Rows without a sort column are all equal, so their order is consistent
/// and their one stable ascending order is the order they came in.
pub proof fn lemma_unsorted_rows_stay(rows: Seq<RecordValue>, order: Seq<int>)
    requires
        unsorted(rows),
        is_permutation(order, rows.len() as int),
        is_stable_sort(rows, order),
    ensures
        consistent(rows),
        forall|i: int| 0 <= i < rows.len() ==> #[trigger] order[i] == i,
{
    assert forall|a: int, b: int| 0 <= a < b < order.len() implies #[trigger] order[a]
        < #[trigger] order[b] by {
        assert(sorts_before(rows, order[a], order[b]));
        assert(rows[order[a]].sort is None);
    }
    assert forall|i: int| 0 <= i < rows.len() implies #[trigger] order[i] == i by {
        lemma_ascending_from_below(order, i);
        lemma_ascending_from_above(order, i);
    }
    lemma_unsorted_rows_are_consistent(rows);
}

/// Rows without a sort column are all equal: their order is consistent.
pub proof fn lemma_unsorted_rows_are_consistent(rows: Seq<RecordValue>)
    requires
        unsorted(rows),
    ensures
        consistent(rows),
{
    assert forall|i: int, j: int, k: int|
        #![trigger precedes(rows[i], rows[j]), precedes(rows[j], rows[k])]
        0 <= i < rows.len() && 0 <= j < rows.len() && 0 <= k < rows.len() && precedes(
            rows[i],
            rows[j],
        ) && precedes(rows[j], rows[k]) implies precedes(rows[i], rows[k]) by {
        assert(rows[i].sort is None);
    }
}

/// Sorts the collected records: a stable ascending sort by the value in the
/// sort column.
///
/// The result holds the records of `rows`, each once, in some order
/// `order`. Where the order of the records is consistent (see
/// `consistent`), the result is in stable ascending order; it is then the
/// only such arrangement. Where it is not, which can happen only among
/// numbers within the tolerance of each other, the result is still a
/// rearrangement of `rows`. Records without a sort column come out as they
/// went in.
pub fn transform_aggregated_csv(_config: &Config, rows: &[Record]) -> (sorted: Vec<Record>)
    ensures
        exists|order: Seq<int>|
            {
                &&& is_permutation(order, rows@.len() as int)
                &&& arranged(values(rows@), values(sorted@), order)
                &&& consistent(values(rows@)) ==> is_stable_sort(values(rows@), order)
            },
        unsorted(values(rows@)) ==> values(sorted@) == values(rows@),
{
    let order = sort_order(rows);
    let ghost listed = indices(order@);
    let mut sorted: Vec<Record> = Vec::new();
    let mut i: usize = 0;
    while i < order.len()
        invariant
            i <= order@.len(),
            listed == indices(order@),
            is_permutation(listed, rows@.len() as int),
            sorted@.len() == i,
            forall|k: int| 0 <= k < i ==> (#[trigger] sorted@[k])@ == rows@[listed[k]]@,
        decreases order@.len() - i,
    {
        assert(0 <= listed[i as int] < rows@.len());
        sorted.push(rows[order[i]].duplicate());
        i += 1;
    }
    proof {
        assert(arranged(values(rows@), values(sorted@), listed));
        if unsorted(values(rows@)) {
            lemma_unsorted_rows_are_consistent(values(rows@));
            lemma_unsorted_rows_stay(values(rows@), listed);
            assert(values(sorted@) =~= values(rows@));
        }
    }
    sorted
}

/// A list that holds every index below `n` once misses none of them.
pub proof fn lemma_permutation_lists_every_index(order: Seq<int>, n: int)
    requires
        is_permutation(order, n),
    ensures
        forall|v: int| 0 <= v < n ==> order.contains(v),
{
    let listed = order.to_set();
    let all = set_int_range(0, n);
    assert(order.no_duplicates()) by {
        assert forall|i: int, j: int|
            0 <= i < order.len() && 0 <= j < order.len() && i != j implies order[i]
            != order[j] by {
            if i < j {
                assert(order[i] != order[j]);
            } else {
                assert(order[j] != order[i]);
            }
        }
    }
    order.unique_seq_to_set();
    lemma_int_range(0, n);
    assert(listed.subset_of(all)) by {
        assert forall|v: int| listed.contains(v) implies all.contains(v) by {
            let i = choose|i: int| 0 <= i < order.len() && order[i] == v;
            assert(0 <= order[i] < n);
        }
    }
    lemma_set_subset_finite(all, listed);
    lemma_subset_equality(listed, all);
    assert forall|v: int| 0 <= v < n implies order.contains(v) by {
        assert(all.contains(v));
        assert(listed.contains(v));
    }
}

/// Two stable ascending orders of the same rows agree below `upto`.
proof fn lemma_stable_sorts_agree(
    rows: Seq<RecordValue>,
    first: Seq<int>,
    second: Seq<int>,
    upto: int,
)
    requires
        is_permutation(first, rows.len() as int),
        is_permutation(second, rows.len() as int),
        is_stable_sort(rows, first),
        is_stable_sort(rows, second),
        0 <= upto <= rows.len(),
    ensures
        forall|k: int| 0 <= k < upto ==> first[k] == second[k],
    decreases upto,
{
    if upto > 0 {
        let i = upto - 1;
        lemma_stable_sorts_agree(rows, first, second, i);
        let u = first[i];
        let v = second[i];
        if u != v {
            lemma_permutation_lists_every_index(first, rows.len() as int);
            lemma_permutation_lists_every_index(second, rows.len() as int);
            assert(first.contains(v) && second.contains(u));
            let k = choose|k: int| 0 <= k < first.len() && first[k] == v;
            let m = choose|m: int| 0 <= m < second.len() && second[m] == u;
            if k < i {
                assert(second[k] != second[i]);
            }
            if m < i {
                assert(first[m] != first[i]);
            }
            assert(sorts_before(rows, first[i], first[k]));
            assert(sorts_before(rows, second[i], second[m]));
            lemma_swap(rows[u], rows[v]);
        }
    }
}

/// Rows have one stable ascending order at most: two lists that each hold
/// every index once and are in stable ascending order are the same list.
pub proof fn lemma_stable_sort_is_unique(rows: Seq<RecordValue>, first: Seq<int>, second: Seq<int>)
    requires
        is_permutation(first, rows.len() as int),
        is_permutation(second, rows.len() as int),
        is_stable_sort(rows, first),
        is_stable_sort(rows, second),
    ensures
        first == second,
{
    lemma_stable_sorts_agree(rows, first, second, rows.len() as int);
    assert(first =~= second);
}

/// All rows have the same width and the same sort column.
pub open spec fn same_shape(rows: Seq<RecordValue>) -> bool {
    forall|i: int, j: int|
        0 <= i < rows.len() && 0 <= j < rows.len() ==> (#[trigger] rows[i]).sort == (
        #[trigger] rows[j]).sort && rows[i].fields.len() == rows[j].fields.len()
}

/// No row has a number in its sort column.
pub open spec fn sorted_without_numbers(rows: Seq<RecordValue>) -> bool {
    forall|i: int|
        0 <= i < rows.len() ==> match (#[trigger] rows[i]).sort {
            Some(column) => 0 <= column < rows[i].fields.len() ==> !(rows[i].fields[column]
                is Number),
            None => true,
        }
}

/// Rows of one shape that are not sorted by numbers have a consistent order:
/// the order of dates and that of texts are transitive.
pub proof fn lemma_consistent_without_numbers(rows: Seq<RecordValue>)
    requires
        same_shape(rows),
        sorted_without_numbers(rows),
    ensures
        consistent(rows),
{
    assert forall|i: int, j: int, k: int|
        #![trigger precedes(rows[i], rows[j]), precedes(rows[j], rows[k])]
        0 <= i < rows.len() && 0 <= j < rows.len() && 0 <= k < rows.len() && precedes(
            rows[i],
            rows[j],
        ) && precedes(rows[j], rows[k]) implies precedes(rows[i], rows[k]) by {
        let a = rows[i];
        let b = rows[j];
        let c = rows[k];
        assert(a.sort == b.sort && a.fields.len() == b.fields.len());
        assert(b.sort == c.sort && b.fields.len() == c.fields.len());
        match a.sort {
            Some(column) => {
                if 0 <= column < a.fields.len() {
                    lemma_field_order_transitive(
                        a.fields[column],
                        b.fields[column],
                        c.fields[column],
                    );
                }
            },
            None => {},
        }
    }
}

/// The number in the sort column of a row, if the row has one there.
pub open spec fn sort_number(row: RecordValue) -> Option<u64> {
    match row.sort {
        Some(column) => if 0 <= column < row.fields.len() {
            match row.fields[column] {
                FieldValue::Number(bits) => Some(bits),
                _ => None,
            }
        } else {
            None
        },
        None => None,
    }
}

/// The numbers that the rows are sorted by lie apart: no two of them that
/// differ are equal under the tolerance.
pub open spec fn numbers_lie_apart(rows: Seq<RecordValue>) -> bool {
    forall|i: int, j: int|
        0 <= i < rows.len() && 0 <= j < rows.len() ==> match (
            sort_number(#[trigger] rows[i]),
            sort_number(#[trigger] rows[j]),
        ) {
            (Some(x), Some(y)) => approx_order(x, y) is Equal ==> x == y,
            _ => true,
        }
}

/// Rows of one shape whose numbers lie apart have a consistent order: where
/// the tolerance joins no two different numbers, the order of numbers is
/// their order by value.
pub proof fn lemma_consistent_with_numbers_apart(rows: Seq<RecordValue>)
    requires
        same_shape(rows),
        numbers_lie_apart(rows),
    ensures
        consistent(rows),
{
    assert forall|i: int, j: int, k: int|
        #![trigger precedes(rows[i], rows[j]), precedes(rows[j], rows[k])]
        0 <= i < rows.len() && 0 <= j < rows.len() && 0 <= k < rows.len() && precedes(
            rows[i],
            rows[j],
        ) && precedes(rows[j], rows[k]) implies precedes(rows[i], rows[k]) by {
        let a = rows[i];
        let b = rows[j];
        let c = rows[k];
        assert(a.sort == b.sort && a.fields.len() == b.fields.len());
        assert(b.sort == c.sort && b.fields.len() == c.fields.len());
        match (sort_number(a), sort_number(b), sort_number(c)) {
            (Some(x), Some(y), Some(z)) => {
                assert(approx_order(x, y) is Equal ==> x == y);
                assert(approx_order(y, z) is Equal ==> y == z);
                assert(approx_order(x, z) is Equal ==> x == z);
                lemma_approx_order_transitive(x, y, z);
            },
            _ => {
                match a.sort {
                    Some(column) => {
                        if 0 <= column < a.fields.len() {
                            lemma_field_order_transitive(
                                a.fields[column],
                                b.fields[column],
                                c.fields[column],
                            );
                        }
                    },
                    None => {},
                }
            },
        }
    }
}

} // verus!
