//! The typed value model shared by filtering and sorting: a closed tagged
//! union, strict equality and ordering for filters, and a total order for sorts.

use vstd::prelude::*;
use std::cmp::Ordering;
use crate::float::{float_rank, is_nan_bits, widen_bits, is_nan, rank, widen};

verus! {

/// A field value or filter operand after coercion.
#[derive(Debug)]
pub enum TypedValue {
    /// No value, or null.
    Absent,
    Boolean(bool),
    Integer(i64),
    /// A double, held as its IEEE-754 bit pattern.
    Float(u64),
    Text(String),
}

/// A loosely-typed value as the caller's data layer supplies it: its
/// coercion, and its textual rendering where it has one.
#[derive(Debug)]
pub struct DynamicValue {
    pub typed: TypedValue,
    pub text: Option<String>,
}

/// The three-way comparison of two integers.
pub open spec fn cmp_int(a: int, b: int) -> Ordering {
    if a < b {
        Ordering::Less
    } else if a == b {
        Ordering::Equal
    } else {
        Ordering::Greater
    }
}

/// `false` before `true`.
pub open spec fn cmp_bool(a: bool, b: bool) -> Ordering {
    if a == b {
        Ordering::Equal
    } else if !a {
        Ordering::Less
    } else {
        Ordering::Greater
    }
}

/// Lexicographic order on character sequences, a proper prefix first.
pub open spec fn lex_cmp(a: Seq<char>, b: Seq<char>) -> Ordering
    decreases a.len(),
{
    if a.len() == 0 {
        if b.len() == 0 {
            Ordering::Equal
        } else {
            Ordering::Less
        }
    } else if b.len() == 0 {
        Ordering::Greater
    } else if a[0] != b[0] {
        cmp_int(a[0] as int, b[0] as int)
    } else {
        lex_cmp(a.drop_first(), b.drop_first())
    }
}

pub open spec fn reverse(o: Ordering) -> Ordering {
    match o {
        Ordering::Less => Ordering::Greater,
        Ordering::Equal => Ordering::Equal,
        Ordering::Greater => Ordering::Less,
    }
}

/// IEEE equality of two doubles: NaN equals nothing, the zeros are equal.
pub open spec fn float_eq(a: u64, b: u64) -> bool {
    !is_nan_bits(a) && !is_nan_bits(b) && float_rank(a) == float_rank(b)
}

/// IEEE ordering of two doubles: none where either is NaN.
pub open spec fn float_order(a: u64, b: u64) -> Option<Ordering> {
    if is_nan_bits(a) || is_nan_bits(b) {
        None
    } else {
        Some(cmp_int(float_rank(a), float_rank(b)))
    }
}

/// An integer widened to a double.
pub open spec fn widened(i: i64) -> u64 {
    widen_bits(i as int) as u64
}

/// Equality for filters: same variant and same value, integers and floats
/// compared after widening the integer; every other pair is unequal.
pub open spec fn values_equal_spec(a: TypedValue, b: TypedValue) -> bool {
    match (a, b) {
        (TypedValue::Absent, TypedValue::Absent) => true,
        (TypedValue::Boolean(x), TypedValue::Boolean(y)) => x == y,
        (TypedValue::Integer(x), TypedValue::Integer(y)) => x == y,
        (TypedValue::Float(x), TypedValue::Float(y)) => float_eq(x, y),
        (TypedValue::Integer(x), TypedValue::Float(y)) => float_eq(widened(x), y),
        (TypedValue::Float(x), TypedValue::Integer(y)) => float_eq(x, widened(y)),
        (TypedValue::Text(x), TypedValue::Text(y)) => x@ == y@,
        _ => false,
    }
}

/// Ordering for filters; `None` for an incomparable pair, which is any pair
/// with `Absent`, any NaN, and any mix of variants but integer with float.
pub open spec fn order_values_spec(a: TypedValue, b: TypedValue) -> Option<Ordering> {
    match (a, b) {
        (TypedValue::Boolean(x), TypedValue::Boolean(y)) => Some(cmp_bool(x, y)),
        (TypedValue::Integer(x), TypedValue::Integer(y)) => Some(cmp_int(x as int, y as int)),
        (TypedValue::Float(x), TypedValue::Float(y)) => float_order(x, y),
        (TypedValue::Integer(x), TypedValue::Float(y)) => float_order(widened(x), y),
        (TypedValue::Float(x), TypedValue::Integer(y)) => float_order(x, widened(y)),
        (TypedValue::Text(x), TypedValue::Text(y)) => Some(lex_cmp(x@, y@)),
        _ => None,
    }
}

/// Where a variant stands in the sort order against the others: the order
/// of the variants' names (`Bool`, `Float`, `Int`, `String`), `Absent` last.
pub open spec fn variant_rank(v: TypedValue) -> int {
    match v {
        TypedValue::Boolean(_) => 0,
        TypedValue::Float(_) => 1,
        TypedValue::Integer(_) => 2,
        TypedValue::Text(_) => 3,
        TypedValue::Absent => 4,
    }
}

/// The total order used by sorts. `Absent` comes after everything else and
/// equals itself; values of one variant compare naturally (floats by their
/// place on the number line, NaNs beyond the infinities of their sign); values
/// of different variants compare by variant.
pub open spec fn sort_order_spec(a: TypedValue, b: TypedValue) -> Ordering {
    if variant_rank(a) != variant_rank(b) {
        cmp_int(variant_rank(a), variant_rank(b))
    } else {
        match (a, b) {
            (TypedValue::Boolean(x), TypedValue::Boolean(y)) => cmp_bool(x, y),
            (TypedValue::Integer(x), TypedValue::Integer(y)) => cmp_int(x as int, y as int),
            (TypedValue::Float(x), TypedValue::Float(y)) => cmp_int(float_rank(x), float_rank(y)),
            (TypedValue::Text(x), TypedValue::Text(y)) => lex_cmp(x@, y@),
            _ => Ordering::Equal,
        }
    }
}

/// Lexicographic order is antisymmetric.
pub proof fn lemma_lex_antisymmetric(a: Seq<char>, b: Seq<char>)
    ensures
        lex_cmp(b, a) == reverse(lex_cmp(a, b)),
    decreases a.len(),
{
    if a.len() > 0 && b.len() > 0 && a[0] == b[0] {
        lemma_lex_antisymmetric(a.drop_first(), b.drop_first());
    }
}

/// Lexicographic order is transitive.
pub proof fn lemma_lex_transitive(a: Seq<char>, b: Seq<char>, c: Seq<char>)
    requires
        lex_cmp(a, b) != Ordering::Greater,
        lex_cmp(b, c) != Ordering::Greater,
    ensures
        lex_cmp(a, c) != Ordering::Greater,
    decreases a.len(),
{
    if a.len() > 0 && b.len() > 0 && c.len() > 0 {
        let (x, y, z) = (a[0] as int, b[0] as int, c[0] as int);
        if a[0] == b[0] && b[0] == c[0] {
            lemma_lex_transitive(a.drop_first(), b.drop_first(), c.drop_first());
        } else {
            assert(x <= y && y <= z);
            assert(x != z);
        }
    }
}

/// The sort order is antisymmetric: swapping the operands reverses it.
pub proof fn lemma_sort_order_antisymmetric(a: TypedValue, b: TypedValue)
    ensures
        sort_order_spec(b, a) == reverse(sort_order_spec(a, b)),
{
    if let (TypedValue::Text(x), TypedValue::Text(y)) = (a, b) {
        lemma_lex_antisymmetric(x@, y@);
    }
}

/// The sort order is transitive.
pub proof fn lemma_sort_order_transitive(a: TypedValue, b: TypedValue, c: TypedValue)
    requires
        sort_order_spec(a, b) != Ordering::Greater,
        sort_order_spec(b, c) != Ordering::Greater,
    ensures
        sort_order_spec(a, c) != Ordering::Greater,
{
    if let (TypedValue::Text(x), TypedValue::Text(y), TypedValue::Text(z)) = (a, b, c) {
        lemma_lex_transitive(x@, y@, z@);
    }
}

/// Relies on `Ord for str`: lexicographic over the UTF-8 bytes, which orders
/// as the sequence of code points does.
#[verifier::external_body]
fn text_cmp(a: &String, b: &String) -> (r: Ordering)
    ensures
        r == lex_cmp(a@, b@),
{
    a.as_str().cmp(b.as_str())
}

/// The opposite ordering.
pub fn reverse_order(o: Ordering) -> (r: Ordering)
    ensures
        r == reverse(o),
{
    match o {
        Ordering::Less => Ordering::Greater,
        Ordering::Equal => Ordering::Equal,
        Ordering::Greater => Ordering::Less,
    }
}

fn int_cmp(a: i64, b: i64) -> (r: Ordering)
    ensures
        r == cmp_int(a as int, b as int),
{
    if a < b {
        Ordering::Less
    } else if a == b {
        Ordering::Equal
    } else {
        Ordering::Greater
    }
}

fn bool_cmp(a: bool, b: bool) -> (r: Ordering)
    ensures
        r == cmp_bool(a, b),
{
    if a == b {
        Ordering::Equal
    } else if !a {
        Ordering::Less
    } else {
        Ordering::Greater
    }
}

/// The ordering of two doubles given as bit patterns, `None` where either is NaN.
pub fn float_partial_cmp(a: u64, b: u64) -> (r: Option<Ordering>)
    ensures
        r == float_order(a, b),
{
    if is_nan(a) || is_nan(b) {
        None
    } else {
        Some(int_cmp(rank(a), rank(b)))
    }
}

fn float_equal(a: u64, b: u64) -> (r: bool)
    ensures
        r == float_eq(a, b),
{
    !is_nan(a) && !is_nan(b) && rank(a) == rank(b)
}

/// Equality of two typed values as filters use it.
pub fn values_equal(a: &TypedValue, b: &TypedValue) -> (r: bool)
    ensures
        r == values_equal_spec(*a, *b),
{
    match (a, b) {
        (TypedValue::Absent, TypedValue::Absent) => true,
        (TypedValue::Boolean(x), TypedValue::Boolean(y)) => *x == *y,
        (TypedValue::Integer(x), TypedValue::Integer(y)) => *x == *y,
        (TypedValue::Float(x), TypedValue::Float(y)) => float_equal(*x, *y),
        (TypedValue::Integer(x), TypedValue::Float(y)) => float_equal(widen(*x), *y),
        (TypedValue::Float(x), TypedValue::Integer(y)) => float_equal(*x, widen(*y)),
        (TypedValue::Text(x), TypedValue::Text(y)) => *x == *y,
        _ => false,
    }
}

/// Ordering of two typed values as filters use it; `None` when incomparable.
pub fn order_values(a: &TypedValue, b: &TypedValue) -> (r: Option<Ordering>)
    ensures
        r == order_values_spec(*a, *b),
{
    match (a, b) {
        (TypedValue::Boolean(x), TypedValue::Boolean(y)) => Some(bool_cmp(*x, *y)),
        (TypedValue::Integer(x), TypedValue::Integer(y)) => Some(int_cmp(*x, *y)),
        (TypedValue::Float(x), TypedValue::Float(y)) => float_partial_cmp(*x, *y),
        (TypedValue::Integer(x), TypedValue::Float(y)) => float_partial_cmp(widen(*x), *y),
        (TypedValue::Float(x), TypedValue::Integer(y)) => float_partial_cmp(*x, widen(*y)),
        (TypedValue::Text(x), TypedValue::Text(y)) => Some(text_cmp(x, y)),
        _ => None,
    }
}

fn rank_of_variant(v: &TypedValue) -> (r: u8)
    ensures
        r as int == variant_rank(*v),
{
    match v {
        TypedValue::Boolean(_) => 0,
        TypedValue::Float(_) => 1,
        TypedValue::Integer(_) => 2,
        TypedValue::Text(_) => 3,
        TypedValue::Absent => 4,
    }
}

/// The total order of two typed values as sorts use it.
pub fn sort_order(a: &TypedValue, b: &TypedValue) -> (r: Ordering)
    ensures
        r == sort_order_spec(*a, *b),
{
    let ra = rank_of_variant(a);
    let rb = rank_of_variant(b);
    if ra != rb {
        return int_cmp(ra as i64, rb as i64);
    }
    match (a, b) {
        (TypedValue::Boolean(x), TypedValue::Boolean(y)) => bool_cmp(*x, *y),
        (TypedValue::Integer(x), TypedValue::Integer(y)) => int_cmp(*x, *y),
        (TypedValue::Float(x), TypedValue::Float(y)) => int_cmp(rank(*x), rank(*y)),
        (TypedValue::Text(x), TypedValue::Text(y)) => text_cmp(x, y),
        _ => Ordering::Equal,
    }
}

} // verus!
