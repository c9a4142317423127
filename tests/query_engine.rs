use luzmo_plugin::dataset::col_index_map;
use luzmo_plugin::execute::run;
use luzmo_plugin::types::{Column, FilterExpr, QueryRequest};
use luzmo_plugin::errors::PluginError;
use luzmo_plugin::value::{Scalar, Value, SCALE};

fn s(x: &str) -> Value {
    Value::Scalar(Scalar::Str(x.to_string()))
}

fn n(units: i64) -> Value {
    Value::Scalar(Scalar::Num(units * SCALE))
}

fn demo_rows() -> Vec<Vec<Value>> {
    let mut rows = Vec::new();
    let cats = ["A", "B", "C"];
    for d in 1..=12 {
        for (k, c) in cats.iter().enumerate() {
            let date = format!("2025-{:02}-{:02}T00:00:00.000Z", (d % 3) + 1, d);
            rows.push(vec![s(c), s(&date), n((d * 3 + k as i64) % 17 + 1)]);
        }
    }
    rows
}

fn is_string(v: &Value) -> bool {
    matches!(v, Value::Scalar(Scalar::Str(_)))
}

#[test]
fn raw_query_returns_rows() {
    let req = QueryRequest {
        dataset_id: Some("demo".to_string()),
        limit: Some(20),
        ..Default::default()
    };

    let rows = run(&req, &demo_rows(), &col_index_map()).unwrap();
    assert!(rows.len() > 0);
    assert!(rows[0].len() >= 3);
}

#[test]
fn non_agg_selects_requested_columns() {
    let req = QueryRequest {
        dataset_id: Some("demo".to_string()),
        columns: Some(vec![
            Column { id: "category".into(), ..Default::default() },
            Column { id: "date".into(), ..Default::default() },
        ]),
        limit: Some(10),
        ..Default::default()
    };

    let rows = run(&req, &demo_rows(), &col_index_map()).unwrap();
    assert!(rows.len() > 0);
    assert_eq!(rows[0].len(), 2);
    assert!(is_string(&rows[0][0]));
    assert!(is_string(&rows[0][1]));
}

#[test]
fn agg_query_groups_and_sums() {
    let req = QueryRequest {
        dataset_id: Some("demo".to_string()),
        columns: Some(vec![
            Column { id: "category".into(), ..Default::default() },
            Column { id: "value".into(), aggregation: Some("sum".into()), ..Default::default() },
        ]),
        limit: Some(10),
        ..Default::default()
    };

    let rows = run(&req, &demo_rows(), &col_index_map()).unwrap();
    assert!(rows.len() > 0);
    assert_eq!(rows[0].len(), 2);
}

fn filter(col: &str, op: &str, value: Value) -> FilterExpr {
    FilterExpr { column_id: Some(col.to_string()), id: None, expression: Some(op.to_string()), value: Some(value) }
}

fn sample_rows() -> Vec<Vec<Value>> {
    vec![
        vec![s("A"), s("2025-01-01"), n(10)],
        vec![s("A"), s("2025-01-02"), n(20)],
        vec![s("B"), s("2025-01-01"), n(5)],
    ]
}

fn col(id: &str) -> Column {
    Column { id: id.into(), ..Default::default() }
}

fn measure(id: &str, agg: &str) -> Column {
    Column { id: id.into(), aggregation: Some(agg.into()), ..Default::default() }
}

fn query(columns: Vec<Column>, filters: Vec<FilterExpr>, limit: Option<usize>) -> QueryRequest {
    QueryRequest {
        dataset_id: Some("demo".to_string()),
        columns: if columns.is_empty() { None } else { Some(columns) },
        filters: if filters.is_empty() { None } else { Some(filters) },
        limit,
        ..Default::default()
    }
}

fn exec(req: &QueryRequest, rows: &Vec<Vec<Value>>) -> Result<Vec<Vec<Value>>, PluginError> {
    run(req, rows, &col_index_map())
}

#[test]
fn group_by_category_sums_values() {
    let req = query(vec![col("category"), measure("value", "sum")], vec![], None);
    let out = exec(&req, &sample_rows()).unwrap();
    assert_eq!(out, vec![vec![s("A"), n(30)], vec![s("B"), n(5)]]);
}

#[test]
fn filter_greater_than_keeps_larger_value() {
    let req = query(vec![], vec![filter("value", ">", n(10))], None);
    let out = exec(&req, &sample_rows()).unwrap();
    assert_eq!(out, vec![vec![s("A"), s("2025-01-02"), n(20)]]);
}

#[test]
fn unknown_group_column_fails() {
    let req = query(vec![col("bogus")], vec![], None);
    match exec(&req, &sample_rows()) {
        Err(PluginError::UnknownColumn { message }) => assert_eq!(message, "Unknown column in request: bogus"),
        other => panic!("unexpected {:?}", other),
    }
}

#[test]
fn unknown_column_fails_with_aggregation_too() {
    let req = query(vec![col("category"), measure("bogus", "sum")], vec![], None);
    assert!(matches!(exec(&req, &sample_rows()), Err(PluginError::UnknownColumn { .. })));
}

#[test]
fn unsupported_aggregation_fails() {
    let req = query(vec![col("category"), measure("value", "median")], vec![], None);
    match exec(&req, &sample_rows()) {
        Err(PluginError::UnsupportedAggregation { message }) => assert_eq!(message, "Unsupported aggregation: median"),
        other => panic!("unexpected {:?}", other),
    }
}

#[test]
fn unsupported_aggregation_fails_without_rows() {
    let req = query(vec![measure("value", "median")], vec![], None);
    assert!(matches!(exec(&req, &Vec::new()), Err(PluginError::UnsupportedAggregation { .. })));
}

#[test]
fn wildcard_sum_is_unknown_measure_column() {
    let req = query(vec![measure("*", "sum")], vec![], None);
    match exec(&req, &sample_rows()) {
        Err(PluginError::UnknownColumn { message }) => assert_eq!(message, "Unknown measure column: *"),
        other => panic!("unexpected {:?}", other),
    }
}

#[test]
fn wildcard_projection_is_unknown_column() {
    let req = query(vec![col("*")], vec![], None);
    assert!(matches!(exec(&req, &sample_rows()), Err(PluginError::UnknownColumn { .. })));
}

#[test]
fn count_all_totals_filtered_rows() {
    let rows = demo_rows();
    let req = query(vec![col("category"), measure("*", "count")], vec![filter("value", ">=", n(5))], None);
    let out = exec(&req, &rows).unwrap();
    let filtered = exec(&query(vec![], vec![filter("value", ">=", n(5))], None), &rows).unwrap();
    let mut total: i64 = 0;
    for r in &out {
        match &r[1] {
            Value::Scalar(Scalar::Num(c)) => total += c / SCALE,
            other => panic!("unexpected {:?}", other),
        }
    }
    assert_eq!(total as usize, filtered.len());
    assert_eq!(out.len(), 3);
}

#[test]
fn avg_min_max_per_group() {
    let rows = vec![
        vec![s("A"), s("2025-01-01"), n(1)],
        vec![s("A"), s("2025-01-02"), n(1)],
        vec![s("A"), s("2025-01-03"), n(2)],
        vec![s("A"), s("2025-01-04"), s("n/a")],
    ];
    let req = query(
        vec![col("category"), measure("value", "avg"), measure("value", "min"), measure("value", "max"), measure("value", "count")],
        vec![],
        None,
    );
    let out = exec(&req, &rows).unwrap();
    assert_eq!(out, vec![vec![s("A"), Value::Scalar(Scalar::Num(1_330_000)), n(1), n(2), n(4)]]);
}

#[test]
fn avg_rounds_half_away_from_zero() {
    let rows = vec![
        vec![s("A"), s("d"), Value::Scalar(Scalar::Num(10_000))],
        vec![s("A"), s("d"), Value::Scalar(Scalar::Num(0))],
    ];
    let req = query(vec![col("category"), measure("value", "avg")], vec![], None);
    let out = exec(&req, &rows).unwrap();
    assert_eq!(out[0][1], Value::Scalar(Scalar::Num(10_000)));
}

#[test]
fn non_numeric_values_leave_extremes_at_zero() {
    let rows = vec![vec![s("A"), s("d"), s("x")]];
    let req = query(vec![col("category"), measure("value", "min"), measure("value", "avg"), measure("value", "sum")], vec![], None);
    let out = exec(&req, &rows).unwrap();
    assert_eq!(out, vec![vec![s("A"), n(0), n(0), n(0)]]);
}

#[test]
fn count_of_named_column_skips_nulls() {
    let rows = vec![
        vec![s("A"), s("d"), Value::Scalar(Scalar::Null)],
        vec![s("A"), s("d"), n(3)],
        vec![s("A"), s("d")],
    ];
    let req = query(vec![col("category"), measure("value", "count")], vec![], None);
    let out = exec(&req, &rows).unwrap();
    assert_eq!(out, vec![vec![s("A"), n(1)]]);
}

#[test]
fn groups_come_out_in_key_order() {
    let rows = vec![
        vec![s("C"), s("d"), n(1)],
        vec![s("A"), s("d"), n(1)],
        vec![s("B"), s("d"), n(1)],
        vec![s("A"), s("d"), n(1)],
    ];
    let req = query(vec![col("category"), measure("*", "count")], vec![], None);
    let out = exec(&req, &rows).unwrap();
    assert_eq!(out, vec![vec![s("A"), n(2)], vec![s("B"), n(1)], vec![s("C"), n(1)]]);
}

#[test]
fn same_query_gives_same_output() {
    let rows = demo_rows();
    let req = query(vec![col("category"), measure("value", "sum"), measure("value", "avg")], vec![], None);
    assert_eq!(exec(&req, &rows).unwrap(), exec(&req, &rows).unwrap());
}

#[test]
fn month_bucketing_groups_by_month() {
    let rows = vec![
        vec![s("A"), s("2025-01-05T00:00:00.000Z"), n(1)],
        vec![s("A"), s("2025-01-20T00:00:00.000Z"), n(2)],
        vec![s("A"), s("2025-02-01T00:00:00.000Z"), n(4)],
    ];
    let date = Column { id: "date".into(), level: Some("month".into()), ..Default::default() };
    let req = query(vec![date, measure("value", "sum")], vec![], None);
    let out = exec(&req, &rows).unwrap();
    assert_eq!(
        out,
        vec![vec![s("2025-01-01T00:00:00.000Z"), n(3)], vec![s("2025-02-01T00:00:00.000Z"), n(4)]]
    );
}

#[test]
fn month_bucketing_in_projection() {
    let date = Column { id: "date".into(), level: Some("month".into()), ..Default::default() };
    let req = query(vec![date], vec![], Some(1));
    let out = exec(&req, &sample_rows()).unwrap();
    assert_eq!(out, vec![vec![s("2025-01-01T00:00:00.000Z")]]);
}

#[test]
fn hierarchy_group_is_collapsed_on_output() {
    let cat = Column { id: "category".into(), col_type: Some("hierarchy".into()), ..Default::default() };
    let req = query(vec![cat, measure("value", "sum")], vec![], None);
    let out = exec(&req, &sample_rows()).unwrap();
    assert_eq!(out, vec![vec![s("A"), n(30)], vec![s("B"), n(5)]]);
}

#[test]
fn projection_keeps_source_order_and_limit() {
    let req = query(vec![col("value"), col("category")], vec![], Some(2));
    let out = exec(&req, &sample_rows()).unwrap();
    assert_eq!(out, vec![vec![n(10), s("A")], vec![n(20), s("A")]]);
}

#[test]
fn raw_rows_collapse_single_element_lists() {
    let rows = vec![vec![Value::List(vec![s("A")]), s("d"), n(1)]];
    let out = exec(&query(vec![], vec![], None), &rows).unwrap();
    assert_eq!(out, vec![vec![s("A"), s("d"), n(1)]]);
}

#[test]
fn limit_larger_than_rows_keeps_all() {
    let out = exec(&query(vec![], vec![], Some(100)), &sample_rows()).unwrap();
    assert_eq!(out.len(), 3);
    let none = exec(&query(vec![], vec![], Some(0)), &sample_rows()).unwrap();
    assert!(none.is_empty());
}

#[test]
fn empty_input_gives_no_groups() {
    let req = query(vec![col("category"), measure("value", "sum")], vec![], None);
    assert!(exec(&req, &Vec::new()).unwrap().is_empty());
}

#[test]
fn filters_apply_in_sequence_as_and() {
    let rows = demo_rows();
    let f1 = filter("value", ">", n(4));
    let f2 = filter("category", "==", s("B"));
    let both = exec(&query(vec![], vec![f1, f2], None), &rows).unwrap();
    let expected: Vec<Vec<Value>> = demo_rows()
        .into_iter()
        .filter(|r| matches!(&r[2], Value::Scalar(Scalar::Num(v)) if *v > 4 * SCALE) && r[0] == s("B"))
        .collect();
    assert_eq!(both, expected);
    assert!(!both.is_empty());
}

#[test]
fn raw_rows_match_filtered_rows() {
    let rows = demo_rows();
    let req = query(vec![], vec![filter("category", "in", Value::List(vec![s("A"), s("C")]))], None);
    let out = exec(&req, &rows).unwrap();
    assert_eq!(out.len(), 24);
    assert!(out.iter().all(|r| r.len() == 3));
    let limited = exec(&query(vec![], vec![], Some(5)), &rows).unwrap();
    let mut first = demo_rows();
    first.truncate(5);
    assert_eq!(limited, first);
}
