//! The whole query: parse the filter list, filter the rows, sort the
//! survivors, and report their identifiers.

use vstd::prelude::*;
use crate::filter::{FilterOp, FilterSpec, filter_rows, matches_all};
use crate::record::Record;
use crate::sort::{SortSpec, stable_sorted, selected, stable_sort, lemma_stable_sort_unique};
use crate::value::DynamicValue;

verus! {

/// Why a query was refused as a whole.
#[derive(Debug)]
pub enum QueryError {
    /// A row did not decompose into an identifier and a field mapping.
    MalformedRow,
    /// A filter named an operator outside the closed set; the name is kept.
    UnknownOperator(String),
}

/// A filter as the caller writes it, the operator still a name.
#[derive(Debug)]
pub struct RawFilter {
    pub key: String,
    pub operand: DynamicValue,
    pub op: String,
}

/// The operator a name stands for: `eq`, `neq`, `lt`, `lte`, `gt`, `gte` or
/// `contains_ci`.
pub open spec fn op_of_name(s: Seq<char>) -> Option<FilterOp> {
    if s == seq!['e', 'q'] {
        Some(FilterOp::Eq)
    } else if s == seq!['n', 'e', 'q'] {
        Some(FilterOp::Neq)
    } else if s == seq!['l', 't'] {
        Some(FilterOp::Lt)
    } else if s == seq!['l', 't', 'e'] {
        Some(FilterOp::Lte)
    } else if s == seq!['g', 't'] {
        Some(FilterOp::Gt)
    } else if s == seq!['g', 't', 'e'] {
        Some(FilterOp::Gte)
    } else if s == seq!['c', 'o', 'n', 't', 'a', 'i', 'n', 's', '_', 'c', 'i'] {
        Some(FilterOp::ContainsCi)
    } else {
        None
    }
}

impl FilterOp {
    /// The operator named `name`, or `UnknownOperator` with the name.
    pub fn parse(name: &String) -> (r: Result<FilterOp, QueryError>)
        ensures
            match r {
                Ok(op) => op_of_name(name@) == Some(op),
                Err(QueryError::UnknownOperator(n)) => op_of_name(name@) is None && n@ == name@,
                Err(_) => false,
            },
    {
        proof {
            reveal_strlit("eq");
            reveal_strlit("neq");
            reveal_strlit("lt");
            reveal_strlit("lte");
            reveal_strlit("gt");
            reveal_strlit("gte");
            reveal_strlit("contains_ci");
            assert("eq"@ =~= seq!['e', 'q']);
            assert("neq"@ =~= seq!['n', 'e', 'q']);
            assert("lt"@ =~= seq!['l', 't']);
            assert("lte"@ =~= seq!['l', 't', 'e']);
            assert("gt"@ =~= seq!['g', 't']);
            assert("gte"@ =~= seq!['g', 't', 'e']);
            assert("contains_ci"@ =~= seq!['c', 'o', 'n', 't', 'a', 'i', 'n', 's', '_', 'c', 'i']);
        }
        if *name == "eq".to_owned() {
            Ok(FilterOp::Eq)
        } else if *name == "neq".to_owned() {
            Ok(FilterOp::Neq)
        } else if *name == "lt".to_owned() {
            Ok(FilterOp::Lt)
        } else if *name == "lte".to_owned() {
            Ok(FilterOp::Lte)
        } else if *name == "gt".to_owned() {
            Ok(FilterOp::Gt)
        } else if *name == "gte".to_owned() {
            Ok(FilterOp::Gte)
        } else if *name == "contains_ci".to_owned() {
            Ok(FilterOp::ContainsCi)
        } else {
            Err(QueryError::UnknownOperator(name.clone()))
        }
    }
}

/// `f` is `raw` with its operator name resolved.
pub open spec fn parsed_as(raw: RawFilter, f: FilterSpec) -> bool {
    &&& f.key@ == raw.key@
    &&& f.operand == raw.operand
    &&& op_of_name(raw.op@) == Some(f.op)
}

/// Position `i` holds the first operator name outside the closed set.
pub open spec fn first_unknown(raw: Seq<RawFilter>, i: int) -> bool {
    &&& 0 <= i < raw.len()
    &&& op_of_name(raw[i].op@) is None
    &&& forall|j: int| 0 <= j < i ==> op_of_name(#[trigger] raw[j].op@) is Some
}

/// Resolves the operator names of a filter list. Fails with the first name
/// outside the closed set, before any row is looked at.
pub fn parse_filters(raw: Vec<RawFilter>) -> (r: Result<Vec<FilterSpec>, QueryError>)
    ensures
        match r {
            Ok(fs) => fs@.len() == raw@.len() && forall|i: int|
                0 <= i < raw@.len() ==> parsed_as(#[trigger] raw@[i], fs@[i]),
            Err(QueryError::UnknownOperator(n)) => exists|i: int|
                #[trigger] first_unknown(raw@, i) && n@ == raw@[i].op@,
            Err(_) => false,
        },
{
    let ghost orig = raw@;
    let mut j: usize = 0;
    while j < raw.len()
        invariant
            orig == raw@,
            j <= raw@.len(),
            forall|k: int| 0 <= k < j ==> op_of_name(#[trigger] orig[k].op@) is Some,
        decreases raw@.len() - j,
    {
        if FilterOp::parse(&raw[j].op).is_err() {
            assert(first_unknown(orig, j as int));
            return Err(QueryError::UnknownOperator(raw[j].op.clone()));
        }
        j = j + 1;
    }
    let mut out: Vec<FilterSpec> = Vec::new();
    let mut i: usize = 0;
    let mut rest = raw;
    while rest.len() > 0
        invariant
            i <= orig.len() <= usize::MAX,
            rest@ == orig.subrange(i as int, orig.len() as int),
            out@.len() == i,
            forall|k: int| 0 <= k < i ==> parsed_as(#[trigger] orig[k], out@[k]),
            forall|k: int| 0 <= k < orig.len() ==> op_of_name(#[trigger] orig[k].op@) is Some,
        decreases rest@.len(),
    {
        let item = rest.remove(0);
        assert(item == orig[i as int]);
        let RawFilter { key, operand, op } = item;
        match FilterOp::parse(&op) {
            Ok(parsed) => {
                out.push(FilterSpec { key, operand, op: parsed });
            },
            Err(e) => {
                return Err(e);
            },
        }
        i = i + 1;
    }
    Ok(out)
}

/// The positions of the rows that pass every filter, in input order.
pub fn filter_records(records: &Vec<Record>, filters: &Vec<FilterSpec>) -> (kept: Vec<usize>)
    ensures
        forall|k: int| 0 <= k < kept@.len() ==> (#[trigger] kept@[k] as int) < records@.len(),
        forall|k: int, l: int| 0 <= k < l < kept@.len() ==> #[trigger] kept@[k] < #[trigger] kept@[l],
        selected(records@, kept@) == filter_rows(records@, filters@),
{
    let mut kept: Vec<usize> = Vec::new();
    let mut i: usize = 0;
    while i < records.len()
        invariant
            i <= records@.len(),
            forall|k: int| 0 <= k < kept@.len() ==> (#[trigger] kept@[k] as int) < i,
            forall|k: int, l: int| 0 <= k < l < kept@.len() ==> #[trigger] kept@[k] < #[trigger] kept@[l],
            selected(records@, kept@) == filter_rows(records@.subrange(0, i as int), filters@),
        decreases records@.len() - i,
    {
        let keep = matches_all(&records[i], filters);
        let ghost before = kept@;
        if keep {
            kept.push(i);
        }
        proof {
            let s = records@.subrange(0, i + 1);
            assert(s.drop_last() =~= records@.subrange(0, i as int));
            assert(s.last() == records@[i as int]);
            reveal(Seq::filter);
            if keep {
                assert(selected(records@, kept@) =~= selected(records@, before).push(records@[i as int]));
            } else {
                assert(selected(records@, kept@) =~= selected(records@, before));
            }
        }
        i = i + 1;
    }
    assert(records@.subrange(0, records@.len() as int) =~= records@);
    kept
}

/// The identifiers of `rows` taken in the order of the positions `p`.
pub open spec fn ids_in_order(rows: Seq<Record>, p: Seq<usize>) -> Seq<i64> {
    p.map_values(|k: usize| rows[k as int].row_id)
}

/// `ids` is a possible answer of the query: the identifiers of the rows that
/// pass every filter, stably sorted by the sort keys, the first dominant.
pub open spec fn query_result(
    records: Seq<Record>,
    filters: Seq<FilterSpec>,
    sorts: Seq<SortSpec>,
    ids: Seq<i64>,
) -> bool {
    let rows = filter_rows(records, filters);
    exists|p: Seq<usize>|
        stable_sorted(rows, sorts, p) && ids == #[trigger] ids_in_order(rows, p)
}

/// A query has one answer: two sequences of identifiers that both answer
/// the same query are equal.
pub proof fn lemma_query_result_unique(
    records: Seq<Record>,
    filters: Seq<FilterSpec>,
    sorts: Seq<SortSpec>,
    a: Seq<i64>,
    b: Seq<i64>,
)
    requires
        query_result(records, filters, sorts, a),
        query_result(records, filters, sorts, b),
    ensures
        a == b,
{
    let rows = filter_rows(records, filters);
    let p = choose|p: Seq<usize>| stable_sorted(rows, sorts, p) && a == #[trigger] ids_in_order(rows, p);
    let q = choose|q: Seq<usize>| stable_sorted(rows, sorts, q) && b == #[trigger] ids_in_order(rows, q);
    lemma_stable_sort_unique(rows, sorts, p, q);
}

/// Filters `records`, sorts the survivors, and returns their identifiers.
pub fn apply_query(records: Vec<Record>, filters: Vec<FilterSpec>, sorts: Vec<SortSpec>) -> (ids: Vec<i64>)
    ensures
        query_result(records@, filters@, sorts@, ids@),
{
    let kept = filter_records(&records, &filters);
    let order = stable_sort(&records, &kept, &sorts);
    let ghost rows = filter_rows(records@, filters@);
    let mut ids: Vec<i64> = Vec::new();
    let mut k: usize = 0;
    while k < order.len()
        invariant
            rows == selected(records@, kept@),
            forall|m: int| 0 <= m < kept@.len() ==> (#[trigger] kept@[m] as int) < records@.len(),
            stable_sorted(rows, sorts@, order@),
            k <= order@.len(),
            ids@ == ids_in_order(rows, order@.subrange(0, k as int)),
        decreases order@.len() - k,
    {
        let pos = order[k];
        assert((order@[k as int] as int) < rows.len());
        ids.push(records[kept[pos]].row_id);
        proof {
            assert(order@.subrange(0, k + 1) =~= order@.subrange(0, k as int).push(pos));
            assert(ids@ =~= ids_in_order(rows, order@.subrange(0, k + 1)));
        }
        k = k + 1;
    }
    assert(order@.subrange(0, order@.len() as int) =~= order@);
    assert(ids@ == ids_in_order(rows, order@));
    ids
}

} // verus!
