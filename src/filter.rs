//! Filter predicates over rows.

use vstd::prelude::*;
use std::cmp::Ordering;
use crate::record::{Record, lookup, field_typed};
use crate::text::{lower_of, has_substring, lowercase, text_contains};
use crate::value::{
    DynamicValue, TypedValue, values_equal, values_equal_spec, order_values, order_values_spec,
};

verus! {

/// The comparison a filter applies.
#[derive(Debug, Clone, Copy, PartialEq, Eq, Structural)]
pub enum FilterOp {
    Eq,
    Neq,
    Lt,
    Lte,
    Gt,
    Gte,
    /// Case-insensitive substring match on the textual renderings.
    ContainsCi,
}

/// One filter: the field it reads, the operand, and the comparison.
#[derive(Debug)]
pub struct FilterSpec {
    pub key: String,
    pub operand: DynamicValue,
    pub op: FilterOp,
}

/// An operand that makes its filter a no-op: null, or rendered as empty text.
pub open spec fn operand_is_empty(v: DynamicValue) -> bool {
    v.typed is Absent || (v.text is Some && v.text->0@.len() == 0)
}

/// The lower-cased rendering of a value; none for null or for a value
/// without a rendering.
pub open spec fn folded_text(v: DynamicValue) -> Option<Seq<char>> {
    if v.typed is Absent {
        None
    } else {
        match v.text {
            Some(t) => Some(lower_of(t@)),
            None => None,
        }
    }
}

/// The outcome of a case-insensitive containment test, given the row's value
/// at the key (if any) and the operand: an operand without a non-empty folded
/// rendering passes; otherwise the cell must be present, have a rendering, and
/// contain the operand's.
pub open spec fn contains_ci_passes(cell: Option<DynamicValue>, operand: DynamicValue) -> bool {
    match folded_text(operand) {
        None => cell is Some,
        Some(n) => cell is Some && (n.len() == 0 || match folded_text(cell->0) {
            Some(h) => has_substring(h, n),
            None => false,
        }),
    }
}

/// The outcome of a comparison filter on the coerced cell and operand.
pub open spec fn compare_passes(op: FilterOp, cell: TypedValue, operand: TypedValue) -> bool {
    let ord = order_values_spec(cell, operand);
    match op {
        FilterOp::Eq => values_equal_spec(cell, operand),
        FilterOp::Neq => !values_equal_spec(cell, operand),
        FilterOp::Lt => ord == Some(Ordering::Less),
        FilterOp::Lte => ord == Some(Ordering::Less) || ord == Some(Ordering::Equal),
        FilterOp::Gt => ord == Some(Ordering::Greater),
        FilterOp::Gte => ord == Some(Ordering::Greater) || ord == Some(Ordering::Equal),
        FilterOp::ContainsCi => false,
    }
}

/// Whether a row passes one filter.
pub open spec fn filter_passes(f: FilterSpec, r: Record) -> bool {
    if operand_is_empty(f.operand) {
        true
    } else if f.op is ContainsCi {
        contains_ci_passes(lookup(r, f.key@), f.operand)
    } else {
        compare_passes(f.op, field_typed(r, f.key@), f.operand.typed)
    }
}

/// Whether a row passes every filter of the list.
pub open spec fn passes_all(filters: Seq<FilterSpec>, r: Record) -> bool {
    forall|i: int| 0 <= i < filters.len() ==> filter_passes(#[trigger] filters[i], r)
}

/// The rows that pass every filter, in their input order.
pub open spec fn filter_rows(rows: Seq<Record>, filters: Seq<FilterSpec>) -> Seq<Record> {
    rows.filter(|r: Record| passes_all(filters, r))
}

/// Whether the empty-operand rule makes a filter with this operand a no-op.
pub fn is_empty_operand(v: &DynamicValue) -> (r: bool)
    ensures
        r == operand_is_empty(*v),
{
    match (&v.typed, &v.text) {
        (TypedValue::Absent, _) => true,
        (_, Some(t)) => t.as_str().is_empty(),
        _ => false,
    }
}

/// The lower-cased rendering of a value, if it has one (see [`folded_text`]).
pub fn fold_text(v: &DynamicValue) -> (r: Option<String>)
    ensures
        match r {
            Some(s) => folded_text(*v) == Some(s@),
            None => folded_text(*v) is None,
        },
{
    match (&v.typed, &v.text) {
        (TypedValue::Absent, _) => None,
        (_, Some(t)) => Some(lowercase(t)),
        _ => None,
    }
}

/// The case-insensitive containment outcome once both sides are folded: an
/// empty or missing folded operand passes, otherwise the folded cell must be
/// there and contain it.
pub fn folded_contains(folded_cell: Option<&String>, folded_operand: Option<&String>) -> (r: bool)
    ensures
        r == match folded_operand {
            None => true,
            Some(n) => n@.len() == 0 || match folded_cell {
                Some(h) => has_substring(h@, n@),
                None => false,
            },
        },
{
    match folded_operand {
        None => true,
        Some(n) => {
            if n.as_str().is_empty() {
                true
            } else {
                match folded_cell {
                    Some(h) => text_contains(h, n),
                    None => false,
                }
            }
        },
    }
}

/// The outcome of a comparison filter (every operator but `ContainsCi`) on
/// the coerced cell value and operand.
pub fn compare_filter(op: FilterOp, cell: &TypedValue, operand: &TypedValue) -> (r: bool)
    ensures
        r == compare_passes(op, *cell, *operand),
{
    match op {
        FilterOp::Eq => values_equal(cell, operand),
        FilterOp::Neq => !values_equal(cell, operand),
        FilterOp::Lt => matches!(order_values(cell, operand), Some(Ordering::Less)),
        FilterOp::Lte => matches!(order_values(cell, operand), Some(Ordering::Less | Ordering::Equal)),
        FilterOp::Gt => matches!(order_values(cell, operand), Some(Ordering::Greater)),
        FilterOp::Gte => matches!(order_values(cell, operand), Some(Ordering::Greater | Ordering::Equal)),
        FilterOp::ContainsCi => false,
    }
}

/// Whether `record` passes `filter`.
pub fn matches_filter(record: &Record, filter: &FilterSpec) -> (r: bool)
    ensures
        r == filter_passes(*filter, *record),
{
    if is_empty_operand(&filter.operand) {
        return true;
    }
    let cell = record.get(&filter.key);
    match filter.op {
        FilterOp::ContainsCi => {
            let cell = match cell {
                Some(c) => c,
                None => return false,
            };
            let folded_operand = fold_text(&filter.operand);
            let folded_cell = fold_text(cell);
            folded_contains(folded_cell.as_ref(), folded_operand.as_ref())
        },
        _ => {
            let absent = TypedValue::Absent;
            let cell_value = match cell {
                Some(c) => &c.typed,
                None => &absent,
            };
            compare_filter(filter.op, cell_value, &filter.operand.typed)
        },
    }
}

/// Whether `record` passes every filter, stopping at the first failure.
pub fn matches_all(record: &Record, filters: &Vec<FilterSpec>) -> (r: bool)
    ensures
        r == passes_all(filters@, *record),
{
    let mut i: usize = 0;
    while i < filters.len()
        invariant
            i <= filters@.len(),
            forall|k: int| 0 <= k < i ==> filter_passes(#[trigger] filters@[k], *record),
        decreases filters@.len() - i,
    {
        if !matches_filter(record, &filters[i]) {
            return false;
        }
        i = i + 1;
    }
    true
}

proof fn lemma_filter_keeps_passing(s: Seq<Record>, filters: Seq<FilterSpec>)
    requires
        forall|i: int| 0 <= i < s.len() ==> passes_all(filters, #[trigger] s[i]),
    ensures
        filter_rows(s, filters) == s,
    decreases s.len(),
{
    reveal(Seq::filter);
    if s.len() > 0 {
        lemma_filter_keeps_passing(s.drop_last(), filters);
        assert(s.drop_last().push(s.last()) =~= s);
    }
}

/// Filtering is idempotent: filtering the surviving rows again with the same
/// filters keeps all of them, in the same order.
pub proof fn lemma_filter_idempotent(rows: Seq<Record>, filters: Seq<FilterSpec>)
    ensures
        filter_rows(filter_rows(rows, filters), filters) == filter_rows(rows, filters),
{
    let once = filter_rows(rows, filters);
    assert forall|i: int| 0 <= i < once.len() implies passes_all(filters, #[trigger] once[i]) by {
        rows.lemma_filter_pred(|r: Record| passes_all(filters, r), i);
    }
    lemma_filter_keeps_passing(once, filters);
}

/// A filter whose operand is null or renders as empty text lets every row
/// through, whatever its operator.
pub proof fn lemma_empty_operand_passes(f: FilterSpec, r: Record)
    requires
        operand_is_empty(f.operand),
    ensures
        filter_passes(f, r),
{
}

/// The two values are of kinds that filters never compare: different
/// variants, other than an integer with a float.
pub open spec fn mismatched(a: TypedValue, b: TypedValue) -> bool {
    &&& !(a is Absent && b is Absent)
    &&& !(a is Boolean && b is Boolean)
    &&& !((a is Integer || a is Float) && (b is Integer || b is Float))
    &&& !(a is Text && b is Text)
}

/// On values of mismatched kinds `Neq` holds, and `Eq` and every ordering
/// operator fail.
pub proof fn lemma_mismatched_kinds(cell: TypedValue, operand: TypedValue)
    requires
        mismatched(cell, operand),
    ensures
        compare_passes(FilterOp::Neq, cell, operand),
        !compare_passes(FilterOp::Eq, cell, operand),
        !compare_passes(FilterOp::Lt, cell, operand),
        !compare_passes(FilterOp::Lte, cell, operand),
        !compare_passes(FilterOp::Gt, cell, operand),
        !compare_passes(FilterOp::Gte, cell, operand),
{
}

/// On a row whose value at the key is of a kind that the operand's kind is
/// never compared with (a missing field counts as null), a comparison filter
/// with a non-empty operand passes exactly when its operator is `Neq`.
pub proof fn lemma_mismatched_filter(f: FilterSpec, r: Record)
    requires
        !operand_is_empty(f.operand),
        !(f.op is ContainsCi),
        mismatched(field_typed(r, f.key@), f.operand.typed),
    ensures
        filter_passes(f, r) == (f.op == FilterOp::Neq),
{
    lemma_mismatched_kinds(field_typed(r, f.key@), f.operand.typed);
}

} // verus!
