use luzmo_plugin::aggregation::{agg_kind, bucket_month, AggKind};
use luzmo_plugin::dataset::{col_index_map, ColumnIndex};
use luzmo_plugin::errors::PluginError;
use luzmo_plugin::group_key::encode_key;
use luzmo_plugin::ids::{hex_id, make_req_id};
use luzmo_plugin::plan::build_plan;
use luzmo_plugin::types::{Column, QueryRequest};
use luzmo_plugin::value::{Scalar, Value};

fn s(x: &str) -> Value {
    Value::Scalar(Scalar::Str(x.to_string()))
}

#[test]
fn demo_index_has_three_columns() {
    let m = col_index_map();
    assert_eq!(m.get("category"), Some(0));
    assert_eq!(m.get("date"), Some(1));
    assert_eq!(m.get("value"), Some(2));
    assert_eq!(m.get("other"), None);
}

#[test]
fn index_insert_replaces() {
    let mut m = ColumnIndex::new();
    m.insert("a", 1);
    m.insert("a", 4);
    assert_eq!(m.get("a"), Some(4));
}

#[test]
fn month_bucket_of_dates() {
    assert_eq!(bucket_month(&s("2025-03-14")), s("2025-03-01T00:00:00.000Z"));
    assert_eq!(bucket_month(&s("abc")), s("abc"));
    assert_eq!(bucket_month(&s("2025/03/14")), s("2025/03/14"));
    assert_eq!(bucket_month(&Value::Scalar(Scalar::Num(5))), Value::Scalar(Scalar::Num(5)));
}

#[test]
fn aggregation_names() {
    assert_eq!(agg_kind("sum"), Some(AggKind::Sum));
    assert_eq!(agg_kind("count"), Some(AggKind::Count));
    assert_eq!(agg_kind("SUM"), None);
}

#[test]
fn keys_look_like_json() {
    let t = vec![s("a\"b"), Value::Scalar(Scalar::Num(-15)), Value::List(vec![Value::Scalar(Scalar::Null), Value::Scalar(Scalar::Bool(true))]), Value::Object(vec![("k".to_string(), s("v"))])];
    let k: String = encode_key(&t).into_iter().collect();
    assert_eq!(k, "[\"a\\\"b\",-15,[null,true],{\"k\":\"v\"}]");
}

#[test]
fn plan_splits_groups_and_measures() {
    let req = QueryRequest {
        id: Some("demo".into()),
        columns: Some(vec![
            Column { id: "value".into(), aggregation: Some("sum".into()), ..Default::default() },
            Column { id: "ignored".into(), column_id: Some("category".into()), ..Default::default() },
            Column { id: "*".into(), aggregation: Some("count".into()), ..Default::default() },
        ]),
        limit: Some(3),
        ..Default::default()
    };
    let plan = build_plan(&req, &col_index_map()).unwrap();
    assert_eq!(plan.dataset_id, "demo");
    assert!(plan.has_agg);
    assert_eq!(plan.group_cols.len(), 1);
    assert_eq!(plan.group_cols[0].id, "category");
    assert_eq!(plan.measures.len(), 2);
    assert_eq!(plan.measures[1].id, "*");
    assert_eq!(plan.limit, Some(3));
    assert_eq!(plan.requested_cols.len(), 3);
}

#[test]
fn plan_without_columns_has_no_aggregation() {
    let plan = build_plan(&QueryRequest::default(), &col_index_map()).unwrap();
    assert!(!plan.has_agg);
    assert_eq!(plan.dataset_id, "");
}

#[test]
fn error_codes_and_text() {
    let e = PluginError::UnknownColumn { message: "x".into() };
    assert_eq!(e.status_code(), 400);
    assert_eq!(e.to_text(), "Unknown column (400): x");
    let d = PluginError::DatasetNotFound { message: "m".into() };
    assert_eq!(d.status_code(), 404);
    let body = PluginError::InternalError { message: "boom".into() }.error_response();
    assert_eq!(body.error_type.code, 500);
    assert_eq!(body.error_type.description, "Internal error");
    assert_eq!(body.message, "boom");
}

#[test]
fn request_ids_are_hex() {
    assert_eq!(hex_id(255), "ff");
    assert_eq!(hex_id(0), "0");
    assert_eq!(hex_id(4096), "1000");
    let id = make_req_id();
    assert!(!id.is_empty());
    assert!(id.chars().all(|c| c.is_ascii_hexdigit() && !c.is_ascii_uppercase()));
}
