//! Ordering rows by a prioritised list of sort keys, stably.
//!
//! The keys are compared in priority order inside one stable sort, which
//! orders the rows as stable single-key passes applied from the last key to
//! the first do: the first key dominates and each later key only breaks the
//! ties left by those before it.

use vstd::prelude::*;
use std::cmp::Ordering;
use crate::record::{Record, field_typed, lookup};
use crate::value::{
    TypedValue, reverse, reverse_order, sort_order, sort_order_spec, lemma_sort_order_antisymmetric,
    lemma_sort_order_transitive,
};

verus! {

/// One sort key: the field it reads and its direction.
#[derive(Debug)]
pub struct SortSpec {
    pub key: String,
    pub ascending: bool,
}

/// How two rows compare under one sort key.
pub open spec fn key_order(s: SortSpec, a: Record, b: Record) -> Ordering {
    let o = sort_order_spec(field_typed(a, s.key@), field_typed(b, s.key@));
    if s.ascending {
        o
    } else {
        reverse(o)
    }
}

/// How two rows compare under the keys from position `i` on: the first key
/// that tells them apart decides.
pub open spec fn rows_order_from(sorts: Seq<SortSpec>, a: Record, b: Record, i: int) -> Ordering
    decreases sorts.len() - i,
{
    if i < 0 || i >= sorts.len() {
        Ordering::Equal
    } else if key_order(sorts[i], a, b) != Ordering::Equal {
        key_order(sorts[i], a, b)
    } else {
        rows_order_from(sorts, a, b, i + 1)
    }
}

/// How two rows compare under the whole list of sort keys, the first dominant.
pub open spec fn rows_order(sorts: Seq<SortSpec>, a: Record, b: Record) -> Ordering {
    rows_order_from(sorts, a, b, 0)
}

/// `p` lists the positions of `rows` in sorted order: each position once,
/// each row no later than the next under `rows_order`, and rows that compare
/// equal in their input order.
pub open spec fn stable_sorted(rows: Seq<Record>, sorts: Seq<SortSpec>, p: Seq<usize>) -> bool {
    &&& p.len() == rows.len()
    &&& forall|k: int| 0 <= k < p.len() ==> (#[trigger] p[k] as int) < rows.len()
    &&& forall|k: int, l: int| 0 <= k < l < p.len() ==> p[k] != p[l]
    &&& forall|x: usize| (x as int) < rows.len() ==> #[trigger] p.contains(x)
    &&& forall|k: int, l: int|
        0 <= k < l < p.len() ==> sorted_pair(rows, sorts, #[trigger] p[k], #[trigger] p[l])
}

/// The rows at positions `x` and `y` may stand in this order in the output.
pub open spec fn sorted_pair(rows: Seq<Record>, sorts: Seq<SortSpec>, x: usize, y: usize) -> bool {
    let o = rows_order(sorts, rows[x as int], rows[y as int]);
    o != Ordering::Greater && (o == Ordering::Equal ==> x < y)
}

proof fn lemma_key_order_antisymmetric(s: SortSpec, a: Record, b: Record)
    ensures
        key_order(s, b, a) == reverse(key_order(s, a, b)),
{
    lemma_sort_order_antisymmetric(field_typed(a, s.key@), field_typed(b, s.key@));
}

proof fn lemma_key_order_transitive(s: SortSpec, a: Record, b: Record, c: Record)
    requires
        key_order(s, a, b) != Ordering::Greater,
        key_order(s, b, c) != Ordering::Greater,
    ensures
        key_order(s, a, c) != Ordering::Greater,
{
    let (x, y, z) = (field_typed(a, s.key@), field_typed(b, s.key@), field_typed(c, s.key@));
    if s.ascending {
        lemma_sort_order_transitive(x, y, z);
    } else {
        lemma_sort_order_antisymmetric(x, y);
        lemma_sort_order_antisymmetric(y, z);
        lemma_sort_order_antisymmetric(x, z);
        lemma_sort_order_transitive(z, y, x);
    }
}

/// The multi-key order is antisymmetric.
pub proof fn lemma_rows_order_antisymmetric(sorts: Seq<SortSpec>, a: Record, b: Record, i: int)
    ensures
        rows_order_from(sorts, b, a, i) == reverse(rows_order_from(sorts, a, b, i)),
    decreases sorts.len() - i,
{
    if 0 <= i < sorts.len() {
        lemma_key_order_antisymmetric(sorts[i], a, b);
        lemma_rows_order_antisymmetric(sorts, a, b, i + 1);
    }
}

/// The multi-key order is transitive.
pub proof fn lemma_rows_order_transitive(
    sorts: Seq<SortSpec>,
    a: Record,
    b: Record,
    c: Record,
    i: int,
)
    requires
        rows_order_from(sorts, a, b, i) != Ordering::Greater,
        rows_order_from(sorts, b, c, i) != Ordering::Greater,
    ensures
        rows_order_from(sorts, a, c, i) != Ordering::Greater,
    decreases sorts.len() - i,
{
    if 0 <= i < sorts.len() {
        let s = sorts[i];
        lemma_key_order_antisymmetric(s, a, b);
        lemma_key_order_antisymmetric(s, b, c);
        lemma_key_order_antisymmetric(s, a, c);
        lemma_key_order_transitive(s, a, b, c);
        let (ab, bc, ac) = (key_order(s, a, b), key_order(s, b, c), key_order(s, a, c));
        if ab == Ordering::Equal && bc == Ordering::Equal {
            lemma_key_order_transitive(s, c, b, a);
            lemma_rows_order_transitive(sorts, a, b, c, i + 1);
        } else if ab == Ordering::Less && ac == Ordering::Equal {
            lemma_key_order_transitive(s, b, c, a);
        } else if ab == Ordering::Equal && ac == Ordering::Equal {
            lemma_key_order_transitive(s, c, a, b);
        }
    }
}

/// The coerced value of the field `key` of `record`, `Absent` where missing.
pub fn typed_field<'a>(record: &'a Record, key: &String, absent: &'a TypedValue) -> (r: &'a TypedValue)
    requires
        *absent == TypedValue::Absent,
    ensures
        *r == field_typed(*record, key@),
{
    match record.get(key) {
        Some(v) => &v.typed,
        None => absent,
    }
}

/// How `left` compares with `right` under one sort key.
pub fn compare_records(left: &Record, right: &Record, sort: &SortSpec) -> (r: Ordering)
    ensures
        r == key_order(*sort, *left, *right),
{
    let absent = TypedValue::Absent;
    let a = typed_field(left, &sort.key, &absent);
    let b = typed_field(right, &sort.key, &absent);
    let o = sort_order(a, b);
    if sort.ascending {
        o
    } else {
        reverse_order(o)
    }
}

/// How `left` compares with `right` under the whole list of sort keys.
pub fn compare_rows(left: &Record, right: &Record, sorts: &Vec<SortSpec>) -> (r: Ordering)
    ensures
        r == rows_order(sorts@, *left, *right),
{
    let mut i: usize = 0;
    while i < sorts.len()
        invariant
            i <= sorts@.len(),
            rows_order(sorts@, *left, *right) == rows_order_from(sorts@, *left, *right, i as int),
        decreases sorts@.len() - i,
    {
        let o = compare_records(left, right, &sorts[i]);
        if !matches!(o, Ordering::Equal) {
            return o;
        }
        i = i + 1;
    }
    Ordering::Equal
}

/// The rows of `records` at the positions `idx`, in that order.
pub open spec fn selected(records: Seq<Record>, idx: Seq<usize>) -> Seq<Record> {
    idx.map_values(|i: usize| records[i as int])
}

/// Sorts the rows `records[kept[0]], records[kept[1]], ...` stably by
/// `sorts`, and returns the order as positions into `kept`.
pub fn stable_sort(records: &Vec<Record>, kept: &Vec<usize>, sorts: &Vec<SortSpec>) -> (p: Vec<usize>)
    requires
        forall|k: int| 0 <= k < kept@.len() ==> (#[trigger] kept@[k] as int) < records@.len(),
    ensures
        stable_sorted(selected(records@, kept@), sorts@, p@),
{
    let ghost rows = selected(records@, kept@);
    let n = kept.len();
    let mut p: Vec<usize> = Vec::new();
    let mut j: usize = 0;
    while j < n
        invariant
            n == kept@.len() == rows.len(),
            rows == selected(records@, kept@),
            forall|k: int| 0 <= k < kept@.len() ==> (#[trigger] kept@[k] as int) < records@.len(),
            j <= n,
            p@.len() == j,
            forall|k: int| 0 <= k < p@.len() ==> (#[trigger] p@[k]) < j,
            forall|k: int, l: int| 0 <= k < l < p@.len() ==> p@[k] != p@[l],
            forall|x: usize| x < j ==> #[trigger] p@.contains(x),
            forall|k: int, l: int|
                0 <= k < l < p@.len() ==> sorted_pair(rows, sorts@, #[trigger] p@[k], #[trigger] p@[l]),
        decreases n - j,
    {
        let new_row = &records[kept[j]];
        let mut pos: usize = p.len();
        while pos > 0 && matches!(compare_rows(&records[kept[p[pos - 1]]], new_row, sorts), Ordering::Greater)
            invariant
                n == kept@.len() == rows.len(),
                rows == selected(records@, kept@),
                forall|k: int| 0 <= k < kept@.len() ==> (#[trigger] kept@[k] as int) < records@.len(),
                j < n,
                *new_row == rows[j as int],
                p@.len() == j,
                forall|k: int| 0 <= k < p@.len() ==> (#[trigger] p@[k]) < j,
                pos <= p@.len(),
                forall|m: int|
                    pos <= m < p@.len() ==> rows_order(sorts@, rows[#[trigger] p@[m] as int], rows[j as int])
                        == Ordering::Greater,
            decreases pos,
        {
            pos = pos - 1;
        }
        let ghost old_p = p@;
        p.insert(pos, j);
        proof {
            assert(pos == 0 || rows_order(sorts@, rows[old_p[pos - 1] as int], rows[j as int])
                != Ordering::Greater);
            assert forall|k: int, l: int| 0 <= k < l < p@.len() implies sorted_pair(
                rows,
                sorts@,
                #[trigger] p@[k],
                #[trigger] p@[l],
            ) by {
                let (x, y) = (p@[k], p@[l]);
                if l == pos {
                    if k < pos - 1 {
                        assert(sorted_pair(rows, sorts@, old_p[k], old_p[pos - 1]));
                        lemma_rows_order_transitive(
                            sorts@,
                            rows[x as int],
                            rows[old_p[pos - 1] as int],
                            rows[j as int],
                            0,
                        );
                    }
                } else if k == pos {
                    assert(y == old_p[l - 1]);
                    lemma_rows_order_antisymmetric(sorts@, rows[y as int], rows[j as int], 0);
                } else if k < pos && l > pos {
                    assert(sorted_pair(rows, sorts@, old_p[k], old_p[l - 1]));
                } else if k > pos {
                    assert(sorted_pair(rows, sorts@, old_p[k - 1], old_p[l - 1]));
                } else {
                    assert(sorted_pair(rows, sorts@, old_p[k], old_p[l]));
                }
            }
            assert forall|x: usize| x < j + 1 implies #[trigger] p@.contains(x) by {
                if x == j {
                    assert(p@[pos as int] == j);
                } else {
                    assert(old_p.contains(x));
                    let k = choose|k: int| 0 <= k < old_p.len() && old_p[k] == x;
                    if k < pos {
                        assert(p@[k] == x);
                    } else {
                        assert(p@[k + 1] == x);
                    }
                }
            }
            assert forall|k: int, l: int| 0 <= k < l < p@.len() implies p@[k] != p@[l] by {
                if k != pos && l != pos {
                    let k0 = if k < pos { k } else { k - 1 };
                    let l0 = if l < pos { l } else { l - 1 };
                    assert(p@[k] == old_p[k0] && p@[l] == old_p[l0]);
                }
            }
        }
        j = j + 1;
    }
    p
}

proof fn lemma_sorted_listing_unique(rows: Seq<Record>, sorts: Seq<SortSpec>, p: Seq<usize>, q: Seq<usize>)
    requires
        p.len() == q.len(),
        forall|k: int, l: int| 0 <= k < l < p.len() ==> p[k] != p[l],
        forall|k: int, l: int| 0 <= k < l < q.len() ==> q[k] != q[l],
        forall|k: int| 0 <= k < p.len() ==> (#[trigger] p[k] as int) < rows.len(),
        forall|k: int| 0 <= k < q.len() ==> (#[trigger] q[k] as int) < rows.len(),
        forall|x: usize| #[trigger] p.contains(x) <==> q.contains(x),
        forall|k: int, l: int|
            0 <= k < l < p.len() ==> sorted_pair(rows, sorts, #[trigger] p[k], #[trigger] p[l]),
        forall|k: int, l: int|
            0 <= k < l < q.len() ==> sorted_pair(rows, sorts, #[trigger] q[k], #[trigger] q[l]),
    ensures
        p == q,
    decreases p.len(),
{
    if p.len() > 0 {
        let (a, b) = (p[0], q[0]);
        if a != b {
            assert(p.contains(a));
            assert(q.contains(a));
            let j = choose|j: int| 0 <= j < q.len() && q[j] == a;
            assert(q.contains(b));
            assert(p.contains(b));
            let i = choose|i: int| 0 <= i < p.len() && p[i] == b;
            assert(sorted_pair(rows, sorts, q[0], q[j]));
            assert(sorted_pair(rows, sorts, p[0], p[i]));
            lemma_rows_order_antisymmetric(sorts, rows[a as int], rows[b as int], 0);
        }
        let (p1, q1) = (p.drop_first(), q.drop_first());
        assert forall|x: usize| #[trigger] p1.contains(x) <==> q1.contains(x) by {
            if p1.contains(x) {
                let k = choose|k: int| 0 <= k < p1.len() && p1[k] == x;
                assert(p[k + 1] == x);
                assert(p[0] != p[k + 1]);
                assert(p.contains(x));
                let m = choose|m: int| 0 <= m < q.len() && q[m] == x;
                assert(m != 0);
                assert(q1[m - 1] == x);
            }
            if q1.contains(x) {
                let k = choose|k: int| 0 <= k < q1.len() && q1[k] == x;
                assert(q[k + 1] == x);
                assert(q[0] != q[k + 1]);
                assert(q.contains(x));
                assert(p.contains(x));
                let m = choose|m: int| 0 <= m < p.len() && p[m] == x;
                assert(m != 0);
                assert(p1[m - 1] == x);
            }
        }
        assert forall|k: int, l: int| 0 <= k < l < p1.len() implies sorted_pair(
            rows,
            sorts,
            #[trigger] p1[k],
            #[trigger] p1[l],
        ) by {
            assert(sorted_pair(rows, sorts, p[k + 1], p[l + 1]));
        }
        assert forall|k: int, l: int| 0 <= k < l < q1.len() implies sorted_pair(
            rows,
            sorts,
            #[trigger] q1[k],
            #[trigger] q1[l],
        ) by {
            assert(sorted_pair(rows, sorts, q[k + 1], q[l + 1]));
        }
        assert forall|k: int| 0 <= k < p1.len() implies (#[trigger] p1[k] as int) < rows.len() by {
            assert(p[k + 1] == p1[k]);
        }
        assert forall|k: int| 0 <= k < q1.len() implies (#[trigger] q1[k] as int) < rows.len() by {
            assert(q[k + 1] == q1[k]);
        }
        lemma_sorted_listing_unique(rows, sorts, p1, q1);
        assert(p[0] == q[0]);
        assert forall|k: int| 0 <= k < p.len() implies p[k] == q[k] by {
            if k > 0 {
                assert(p1[k - 1] == q1[k - 1]);
            }
        }
        assert(p =~= q);
    }
}

/// There is one stable sorted order of a row set: two listings that both
/// meet `stable_sorted` are the same.
pub proof fn lemma_stable_sort_unique(rows: Seq<Record>, sorts: Seq<SortSpec>, p: Seq<usize>, q: Seq<usize>)
    requires
        stable_sorted(rows, sorts, p),
        stable_sorted(rows, sorts, q),
    ensures
        p == q,
{
    assert forall|x: usize| #[trigger] p.contains(x) <==> q.contains(x) by {
        if p.contains(x) {
            let k = choose|k: int| 0 <= k < p.len() && p[k] == x;
            assert((p[k] as int) < rows.len());
        }
        if q.contains(x) {
            let k = choose|k: int| 0 <= k < q.len() && q[k] == x;
            assert((q[k] as int) < rows.len());
        }
    }
    lemma_sorted_listing_unique(rows, sorts, p, q);
}

/// Without sort keys the rows keep their order: the only stable sorted
/// listing is the identity.
pub proof fn lemma_no_keys_keeps_order(rows: Seq<Record>, p: Seq<usize>)
    requires
        stable_sorted(rows, Seq::empty(), p),
        rows.len() <= usize::MAX,
    ensures
        forall|k: int| 0 <= k < p.len() ==> p[k] == k,
{
    let sorts = Seq::<SortSpec>::empty();
    let id = Seq::new(rows.len(), |i: int| i as usize);
    assert forall|x: usize| (x as int) < rows.len() implies #[trigger] id.contains(x) by {
        assert(id[x as int] == x);
    }
    assert forall|k: int, l: int| 0 <= k < l < id.len() implies sorted_pair(
        rows,
        sorts,
        #[trigger] id[k],
        #[trigger] id[l],
    ) by {
        assert(rows_order(sorts, rows[k], rows[l]) == Ordering::Equal);
    }
    lemma_stable_sort_unique(rows, sorts, p, id);
}

/// In a stable sort the first key dominates: every pair of rows in the
/// output is in order under the first key, and rows that tie on it are in
/// order under the remaining keys.
pub proof fn lemma_first_key_dominates(
    rows: Seq<Record>,
    sorts: Seq<SortSpec>,
    p: Seq<usize>,
    k: int,
    l: int,
)
    requires
        stable_sorted(rows, sorts, p),
        sorts.len() >= 1,
        0 <= k < l < p.len(),
    ensures
        key_order(sorts[0], rows[p[k] as int], rows[p[l] as int]) != Ordering::Greater,
        key_order(sorts[0], rows[p[k] as int], rows[p[l] as int]) == Ordering::Equal
            ==> rows_order_from(sorts, rows[p[k] as int], rows[p[l] as int], 1) != Ordering::Greater,
{
    assert(sorted_pair(rows, sorts, p[k], p[l]));
}

/// Under an ascending first key, a row without that field never comes
/// before a row that has a non-null value there.
pub proof fn lemma_absent_sorts_last(
    rows: Seq<Record>,
    sorts: Seq<SortSpec>,
    p: Seq<usize>,
    k: int,
    l: int,
)
    requires
        stable_sorted(rows, sorts, p),
        sorts.len() >= 1,
        sorts[0].ascending,
        0 <= k < l < p.len(),
    ensures
        !(lookup(rows[p[k] as int], sorts[0].key@) is None
            && !(field_typed(rows[p[l] as int], sorts[0].key@) is Absent)),
{
    assert(sorted_pair(rows, sorts, p[k], p[l]));
}

} // verus!
