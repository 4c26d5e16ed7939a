use fletplus::filter::{FilterOp, FilterSpec, compare_filter, fold_text, folded_contains, matches_filter};
use fletplus::query::{apply_query, filter_records, parse_filters, QueryError, RawFilter};
use fletplus::record::Record;
use fletplus::sort::SortSpec;
use fletplus::value::{DynamicValue, TypedValue};

fn text(s: &str) -> DynamicValue {
    DynamicValue { typed: TypedValue::Text(s.to_string()), text: Some(s.to_string()) }
}

fn whole(i: i64) -> DynamicValue {
    DynamicValue { typed: TypedValue::Integer(i), text: Some(i.to_string()) }
}

fn float(x: f64) -> DynamicValue {
    DynamicValue { typed: TypedValue::Float(x.to_bits()), text: Some(format!("{}", x)) }
}

fn boolean(b: bool) -> DynamicValue {
    DynamicValue {
        typed: TypedValue::Boolean(b),
        text: Some(if b { "True".to_string() } else { "False".to_string() }),
    }
}

fn null() -> DynamicValue {
    DynamicValue { typed: TypedValue::Absent, text: Some("None".to_string()) }
}

fn row(id: i64, fields: Vec<(&str, DynamicValue)>) -> Record {
    Record { row_id: id, fields: fields.into_iter().map(|(k, v)| (k.to_string(), v)).collect() }
}

fn people() -> Vec<Record> {
    vec![
        row(1, vec![("n", text("bob")), ("age", whole(30))]),
        row(2, vec![("n", text("Ann")), ("age", whole(25))]),
        row(3, vec![("n", text("cal"))]),
    ]
}

fn filter(key: &str, operand: DynamicValue, op: FilterOp) -> FilterSpec {
    FilterSpec { key: key.to_string(), operand, op }
}

fn sort(key: &str, ascending: bool) -> SortSpec {
    SortSpec { key: key.to_string(), ascending }
}

#[test]
fn contains_then_sort_puts_missing_age_last() {
    let ids = apply_query(people(), vec![filter("n", text("a"), FilterOp::ContainsCi)], vec![sort("age", true)]);
    assert_eq!(ids, vec![2, 3]);
}

#[test]
fn gte_skips_missing_and_smaller() {
    let ids = apply_query(people(), vec![filter("age", whole(28), FilterOp::Gte)], vec![]);
    assert_eq!(ids, vec![1]);
}

#[test]
fn neq_keeps_missing_field() {
    let ids = apply_query(people(), vec![filter("age", whole(28), FilterOp::Neq)], vec![]);
    assert_eq!(ids, vec![1, 2, 3]);
}

#[test]
fn filtering_twice_keeps_the_same_rows() {
    let records = people();
    let filters = vec![filter("n", text("A"), FilterOp::ContainsCi)];
    let once = filter_records(&records, &filters);
    assert_eq!(once, vec![1, 2]);
    let survivors: Vec<Record> = people().into_iter().enumerate().filter(|(i, _)| once.contains(i)).map(|(_, r)| r).collect();
    let twice = filter_records(&survivors, &filters);
    assert_eq!(twice, vec![0, 1]);
}

#[test]
fn filtering_keeps_input_order() {
    let records = vec![
        row(9, vec![("x", whole(5))]),
        row(4, vec![("x", whole(1))]),
        row(7, vec![("x", whole(8))]),
        row(2, vec![("x", whole(3))]),
    ];
    let ids = apply_query(records, vec![filter("x", whole(3), FilterOp::Gte)], vec![]);
    assert_eq!(ids, vec![9, 7, 2]);
}

#[test]
fn empty_operand_lets_every_row_pass() {
    for op in [FilterOp::Eq, FilterOp::Neq, FilterOp::Lt, FilterOp::Lte, FilterOp::Gt, FilterOp::Gte, FilterOp::ContainsCi] {
        let ids = apply_query(people(), vec![filter("age", null(), op)], vec![]);
        assert_eq!(ids, vec![1, 2, 3]);
        let ids = apply_query(people(), vec![filter("missing", text(""), op)], vec![]);
        assert_eq!(ids, vec![1, 2, 3]);
    }
}

#[test]
fn mismatched_kinds_neq_true_ordering_false() {
    let r = row(1, vec![("n", text("bob"))]);
    assert!(matches_filter(&r, &filter("n", whole(5), FilterOp::Neq)));
    assert!(!matches_filter(&r, &filter("n", whole(5), FilterOp::Eq)));
    for op in [FilterOp::Lt, FilterOp::Lte, FilterOp::Gt, FilterOp::Gte] {
        assert!(!matches_filter(&r, &filter("n", whole(5), op)));
    }
    let b = TypedValue::Boolean(true);
    let one = TypedValue::Integer(1);
    assert!(compare_filter(FilterOp::Neq, &b, &one));
    assert!(!compare_filter(FilterOp::Gte, &b, &one));
}

#[test]
fn first_sort_key_dominates() {
    let records = vec![
        row(1, vec![("a", whole(2)), ("b", whole(1))]),
        row(2, vec![("a", whole(1)), ("b", whole(9))]),
        row(3, vec![("a", whole(2)), ("b", whole(0))]),
        row(4, vec![("a", whole(1)), ("b", whole(3))]),
    ];
    let ids = apply_query(records, vec![], vec![sort("a", true), sort("b", true)]);
    assert_eq!(ids, vec![4, 2, 3, 1]);
}

#[test]
fn descending_key_with_ties_keeps_input_order() {
    let records = vec![
        row(1, vec![("a", whole(1))]),
        row(2, vec![("a", whole(3))]),
        row(3, vec![("a", whole(1))]),
        row(4, vec![("a", whole(3))]),
    ];
    let ids = apply_query(records, vec![], vec![sort("a", false)]);
    assert_eq!(ids, vec![2, 4, 1, 3]);
}

#[test]
fn missing_values_sort_last_whatever_the_types() {
    let records = vec![
        row(1, vec![]),
        row(2, vec![("k", text("z"))]),
        row(3, vec![("k", null())]),
        row(4, vec![("k", boolean(true))]),
        row(5, vec![("k", whole(-7))]),
        row(6, vec![("k", float(2.5))]),
    ];
    let ids = apply_query(records, vec![], vec![sort("k", true)]);
    assert_eq!(ids, vec![4, 6, 5, 2, 1, 3]);
}

#[test]
fn sort_without_keys_keeps_filtered_order() {
    let ids = apply_query(people(), vec![], vec![]);
    assert_eq!(ids, vec![1, 2, 3]);
}

#[test]
fn unknown_sort_key_keeps_order() {
    let ids = apply_query(people(), vec![], vec![sort("nope", true)]);
    assert_eq!(ids, vec![1, 2, 3]);
}

#[test]
fn text_sort_is_by_code_point() {
    let records = vec![
        row(1, vec![("n", text("bob"))]),
        row(2, vec![("n", text("Ann"))]),
        row(3, vec![("n", text("ann"))]),
        row(4, vec![("n", text("an"))]),
    ];
    let ids = apply_query(records, vec![], vec![sort("n", true)]);
    assert_eq!(ids, vec![2, 4, 3, 1]);
}

#[test]
fn comparison_operators_on_numbers() {
    let r = row(1, vec![("x", whole(5))]);
    let cases = [
        (FilterOp::Eq, 5, true),
        (FilterOp::Eq, 4, false),
        (FilterOp::Lt, 6, true),
        (FilterOp::Lt, 5, false),
        (FilterOp::Lte, 5, true),
        (FilterOp::Lte, 4, false),
        (FilterOp::Gt, 4, true),
        (FilterOp::Gt, 5, false),
        (FilterOp::Gte, 5, true),
        (FilterOp::Gte, 6, false),
    ];
    for (op, operand, expected) in cases {
        assert_eq!(matches_filter(&r, &filter("x", whole(operand), op)), expected);
    }
}

#[test]
fn integer_and_float_compare_after_widening() {
    let r = row(1, vec![("x", whole(3))]);
    assert!(matches_filter(&r, &filter("x", float(3.0), FilterOp::Eq)));
    assert!(matches_filter(&r, &filter("x", float(3.5), FilterOp::Lt)));
    assert!(matches_filter(&r, &filter("x", float(-0.5), FilterOp::Gt)));
    let big = row(2, vec![("x", whole(9007199254740993))]);
    assert!(matches_filter(&big, &filter("x", float(9007199254740992.0), FilterOp::Eq)));
    let f = row(3, vec![("x", float(2.5))]);
    assert!(matches_filter(&f, &filter("x", whole(2), FilterOp::Gt)));
    assert!(matches_filter(&f, &filter("x", float(2.5), FilterOp::Eq)));
}

#[test]
fn nan_is_neither_equal_nor_ordered() {
    let r = row(1, vec![("x", float(f64::NAN))]);
    assert!(!matches_filter(&r, &filter("x", float(f64::NAN), FilterOp::Eq)));
    assert!(matches_filter(&r, &filter("x", float(f64::NAN), FilterOp::Neq)));
    assert!(!matches_filter(&r, &filter("x", whole(1), FilterOp::Lte)));
    assert!(!matches_filter(&r, &filter("x", whole(1), FilterOp::Gte)));
}

#[test]
fn zeros_are_equal() {
    let r = row(1, vec![("x", float(-0.0))]);
    assert!(matches_filter(&r, &filter("x", float(0.0), FilterOp::Eq)));
    assert!(matches_filter(&r, &filter("x", whole(0), FilterOp::Eq)));
}

#[test]
fn booleans_are_not_integers() {
    let r = row(1, vec![("x", boolean(true))]);
    assert!(!matches_filter(&r, &filter("x", whole(1), FilterOp::Eq)));
    assert!(matches_filter(&r, &filter("x", boolean(false), FilterOp::Gt)));
}

#[test]
fn absent_equals_absent() {
    assert!(compare_filter(FilterOp::Eq, &TypedValue::Absent, &TypedValue::Absent));
    assert!(!compare_filter(FilterOp::Lte, &TypedValue::Absent, &TypedValue::Absent));
}

#[test]
fn contains_is_case_insensitive() {
    let r = row(1, vec![("n", text("Hello World"))]);
    assert!(matches_filter(&r, &filter("n", text("WORLD"), FilterOp::ContainsCi)));
    assert!(!matches_filter(&r, &filter("n", text("planet"), FilterOp::ContainsCi)));
    assert!(!matches_filter(&r, &filter("other", text("x"), FilterOp::ContainsCi)));
    let n = row(2, vec![("n", whole(1234))]);
    assert!(matches_filter(&n, &filter("n", whole(23), FilterOp::ContainsCi)));
    let unset = row(3, vec![("n", null())]);
    assert!(!matches_filter(&unset, &filter("n", text("none"), FilterOp::ContainsCi)));
}

#[test]
fn contains_with_unrenderable_operand_passes_present_fields() {
    let r = row(1, vec![("n", text("abc"))]);
    let odd = DynamicValue { typed: TypedValue::Integer(1), text: None };
    assert!(matches_filter(&r, &filter("n", odd, FilterOp::ContainsCi)));
    let odd = DynamicValue { typed: TypedValue::Integer(1), text: None };
    assert!(!matches_filter(&r, &filter("gone", odd, FilterOp::ContainsCi)));
}

#[test]
fn folding_lowers_text() {
    assert_eq!(fold_text(&text("AbC")), Some("abc".to_string()));
    assert_eq!(fold_text(&null()), None);
    let cell = "hello".to_string();
    let needle = "ell".to_string();
    assert!(folded_contains(Some(&cell), Some(&needle)));
    let needle = "lle".to_string();
    assert!(!folded_contains(Some(&cell), Some(&needle)));
    assert!(!folded_contains(None, Some(&needle)));
    let empty = String::new();
    assert!(folded_contains(None, Some(&empty)));
    assert!(folded_contains(None, None));
}

#[test]
fn operator_names_parse() {
    let names = ["eq", "neq", "lt", "lte", "gt", "gte", "contains_ci"];
    let ops = [FilterOp::Eq, FilterOp::Neq, FilterOp::Lt, FilterOp::Lte, FilterOp::Gt, FilterOp::Gte, FilterOp::ContainsCi];
    for (name, op) in names.iter().zip(ops.iter()) {
        assert_eq!(FilterOp::parse(&name.to_string()).unwrap(), *op);
    }
    match FilterOp::parse(&"like".to_string()) {
        Err(QueryError::UnknownOperator(n)) => assert_eq!(n, "like"),
        other => panic!("unexpected {:?}", other),
    }
    assert!(FilterOp::parse(&"EQ".to_string()).is_err());
}

#[test]
fn filter_list_fails_on_first_unknown_operator() {
    let raw = vec![
        RawFilter { key: "a".to_string(), operand: whole(1), op: "eq".to_string() },
        RawFilter { key: "b".to_string(), operand: whole(1), op: "between".to_string() },
        RawFilter { key: "c".to_string(), operand: whole(1), op: "other".to_string() },
    ];
    match parse_filters(raw) {
        Err(QueryError::UnknownOperator(n)) => assert_eq!(n, "between"),
        other => panic!("unexpected {:?}", other),
    }
    let raw = vec![
        RawFilter { key: "a".to_string(), operand: whole(1), op: "gte".to_string() },
        RawFilter { key: "b".to_string(), operand: text("x"), op: "contains_ci".to_string() },
    ];
    let parsed = parse_filters(raw).unwrap();
    assert_eq!(parsed.len(), 2);
    assert_eq!(parsed[0].op, FilterOp::Gte);
    assert_eq!(parsed[1].key, "b");
    assert_eq!(parsed[1].op, FilterOp::ContainsCi);
}

#[test]
fn first_duplicate_field_counts() {
    let r = row(1, vec![("x", whole(1)), ("x", whole(2))]);
    assert!(matches_filter(&r, &filter("x", whole(1), FilterOp::Eq)));
    assert_eq!(r.find_field(&"x".to_string()), Some(0));
    assert_eq!(r.find_field(&"y".to_string()), None);
}
