use luzmo_plugin::dataset::col_index_map;
use luzmo_plugin::filters::{apply_filters, canonical_op, normalize_op, FilterOp};
use luzmo_plugin::types::FilterExpr;
use luzmo_plugin::value::{contains_folded, normalize_value, Scalar, Value, SCALE};

fn s(x: &str) -> Value {
    Value::Scalar(Scalar::Str(x.to_string()))
}

fn n(units: i64) -> Value {
    Value::Scalar(Scalar::Num(units * SCALE))
}

fn rows() -> Vec<Vec<Value>> {
    vec![
        vec![s("Apple"), s("2025-01-01"), n(10)],
        vec![s("banana"), s("2025-01-02"), n(20)],
        vec![s("Cherry"), s("2025-02-01"), Value::Scalar(Scalar::Null)],
        vec![n(7), s("2025-02-02"), n(5)],
    ]
}

fn f(col: &str, op: &str, value: Option<Value>) -> FilterExpr {
    FilterExpr { column_id: Some(col.to_string()), id: None, expression: Some(op.to_string()), value }
}

fn apply(filters: Vec<FilterExpr>) -> Vec<Vec<Value>> {
    apply_filters(&rows(), &Some(filters), &col_index_map()).unwrap()
}

#[test]
fn operator_synonyms_are_canonical() {
    assert_eq!(canonical_op("greater_than"), FilterOp::Gt);
    assert_eq!(canonical_op(">="), FilterOp::Ge);
    assert_eq!(canonical_op("less_than_or_equal"), FilterOp::Le);
    assert_eq!(canonical_op("equal"), FilterOp::Eq);
    assert_eq!(canonical_op("="), FilterOp::Eq);
    assert_eq!(canonical_op("!=="), FilterOp::Ne);
    assert_eq!(canonical_op("like"), FilterOp::Contains);
    assert_eq!(canonical_op("is missing"), FilterOp::IsNull);
    assert_eq!(canonical_op("is not null"), FilterOp::IsNotNull);
    assert_eq!(canonical_op("between"), FilterOp::Unknown);
}

#[test]
fn operator_text_is_trimmed() {
    assert_eq!(normalize_op(Some("  > ")), Some(FilterOp::Gt));
    assert_eq!(normalize_op(None), None);
}

#[test]
fn no_filters_keep_everything() {
    assert_eq!(apply_filters(&rows(), &None, &col_index_map()).unwrap(), rows());
    assert_eq!(apply(vec![]), rows());
}

#[test]
fn unknown_filter_column_is_dropped() {
    assert_eq!(apply(vec![f("bogus", ">", Some(n(100)))]), rows());
}

#[test]
fn unknown_operator_keeps_everything() {
    assert_eq!(apply(vec![f("value", "between", Some(n(100)))]), rows());
}

#[test]
fn equality_uses_normalized_literal() {
    let out = apply(vec![f("value", "equal", Some(Value::List(vec![n(20)])))]);
    assert_eq!(out, vec![rows().remove(1)]);
}

#[test]
fn not_equal_keeps_others() {
    let out = apply(vec![f("category", "!=", Some(s("Apple")))]);
    assert_eq!(out.len(), 3);
}

#[test]
fn mixed_types_never_order() {
    let out = apply(vec![f("category", "<", Some(n(100)))]);
    assert_eq!(out, vec![rows().remove(3)]);
}

#[test]
fn strings_order_lexicographically() {
    let out = apply(vec![f("date", ">=", Some(s("2025-02")))]);
    assert_eq!(out.len(), 2);
    let out = apply(vec![f("date", "<=", Some(s("2025-01-01")))]);
    assert_eq!(out, vec![rows().remove(0)]);
}

#[test]
fn in_takes_a_list_or_a_scalar() {
    let list = Value::List(vec![n(5), n(10)]);
    assert_eq!(apply(vec![f("value", "in", Some(list))]).len(), 2);
    assert_eq!(apply(vec![f("value", "in", Some(n(20)))]), vec![rows().remove(1)]);
    assert_eq!(apply(vec![f("value", "in", None)]), rows());
}

#[test]
fn contains_ignores_case() {
    let out = apply(vec![f("category", "contains", Some(s("AN")))]);
    assert_eq!(out, vec![rows().remove(1)]);
    let none = apply(vec![f("category", "contains", Some(s("7")))]);
    assert!(none.is_empty());
}

#[test]
fn null_tests() {
    assert_eq!(apply(vec![f("value", "is null", None)]), vec![rows().remove(2)]);
    assert_eq!(apply(vec![f("value", "is not null", None)]).len(), 3);
}

#[test]
fn two_filters_narrow_in_turn() {
    let out = apply(vec![f("value", ">", Some(n(4))), f("value", "<", Some(n(15)))]);
    assert_eq!(out, vec![rows().remove(0), rows().remove(3)]);
}

#[test]
fn folded_substring_search() {
    assert!(contains_folded("an", "banana"));
    assert!(contains_folded("", "x"));
    assert!(!contains_folded("nab", "banana"));
    assert!(!contains_folded("longer", "short"));
}

#[test]
fn single_element_list_normalizes_to_scalar() {
    assert_eq!(normalize_value(&Value::List(vec![Value::Scalar(Scalar::Bool(true))])), Value::Scalar(Scalar::Bool(true)));
    let two = || Value::List(vec![Value::Scalar(Scalar::Null), Value::Scalar(Scalar::Null)]);
    assert_eq!(normalize_value(&two()), two());
}

#[test]
fn in_set_members_are_normalized() {
    let paths = Value::List(vec![Value::List(vec![s("Apple")]), Value::List(vec![s("banana")])]);
    let out = apply(vec![f("category", "in", Some(paths))]);
    assert_eq!(out, vec![rows().remove(0), rows().remove(1)]);
}

#[test]
fn objects_compare_structurally() {
    let obj = || Value::Object(vec![("k".to_string(), n(1)), ("l".to_string(), Value::List(vec![s("x"), s("y")]))]);
    let data = vec![vec![obj(), s("d"), n(1)], vec![s("other"), s("d"), n(2)]];
    let out = apply_filters(&data, &Some(vec![f("category", "==", Some(obj()))]), &col_index_map()).unwrap();
    assert_eq!(out, vec![vec![obj(), s("d"), n(1)]]);
}
