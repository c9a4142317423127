//! The query pipeline: filter, plan, then project or aggregate, normalise and truncate.
use vstd::prelude::*;
use crate::aggregation::{aggregated, bucket_month, bucket_spec, error_is, plan_fault, pos, execute_aggregation};
use crate::dataset::ColumnIndex;
use crate::errors::PluginError;
use crate::filters::apply_filters;
use crate::filters::apply_all;
use crate::plan::{
    build_plan, col_id, col_id_spec, groups_of, has_agg_spec, measures_of, unknown_column_message, unknown_in,
};
use crate::types::{Column, ColumnV, QueryRequest};
use crate::value::{
    Value, ValueV, cell_at, cell_of, normal, normalize_value, row_view, rows_view, sanitize_json_value, str_eq,
};

verus! {

pub open spec fn normal_row(r: Seq<ValueV>) -> Seq<ValueV> {
    r.map_values(|c: ValueV| normal(c))
}

pub open spec fn normal_rows(rs: Seq<Seq<ValueV>>) -> Seq<Seq<ValueV>> {
    rs.map_values(|r: Seq<ValueV>| normal_row(r))
}

/// The first `limit` rows, or all of them where there is no limit.
pub open spec fn truncate(rs: Seq<Seq<ValueV>>, limit: Option<usize>) -> Seq<Seq<ValueV>> {
    match limit {
        Some(l) => if l < rs.len() { rs.subrange(0, l as int) } else { rs },
        None => rs,
    }
}

/// One projected cell: normalised, and bucketed to its month where the column asks for it.
pub open spec fn project_value(c: ColumnV, index: ColumnIndex, row: Seq<ValueV>) -> ValueV {
    let id = col_id_spec(c);
    let v = normal(cell_at(row, pos(index, id)));
    if id == "date"@ && c.level == Some("month"@) { bucket_spec(v) } else { v }
}

pub open spec fn project_row(cols: Seq<ColumnV>, index: ColumnIndex, row: Seq<ValueV>) -> Seq<ValueV> {
    Seq::new(cols.len(), |j: int| project_value(cols[j], index, row))
}

pub open spec fn project_rows(cols: Seq<ColumnV>, index: ColumnIndex, rs: Seq<Seq<ValueV>>) -> Seq<Seq<ValueV>> {
    rs.map_values(|r: Seq<ValueV>| project_row(cols, index, r))
}

/// A requested column that a projection cannot find.
pub open spec fn unprojectable(index: ColumnIndex, c: ColumnV) -> bool {
    index.lookup(col_id_spec(c)) is None
}

/// The rows of a request after its filters.
pub open spec fn filtered_spec(req: &QueryRequest, data: Seq<Seq<ValueV>>, index: ColumnIndex) -> Seq<Seq<ValueV>> {
    apply_all(data, req.filters_spec(), index)
}

/// Every cell of a row in normal form.
pub fn normalize_row(r: &Vec<Value>) -> (out: Vec<Value>)
    ensures
        row_view(out@) == normal_row(row_view(r@)),
{
    let mut out: Vec<Value> = Vec::new();
    let mut i: usize = 0;
    while i < r.len()
        invariant
            i <= r.len(),
            out.len() == i,
            forall|j: int| 0 <= j < i ==> (#[trigger] out@[j])@ == normal(r@[j]@),
        decreases r.len() - i,
    {
        out.push(sanitize_json_value(normalize_value(&r[i])));
        i = i + 1;
    }
    assert(row_view(out@) =~= normal_row(row_view(r@)));
    out
}

fn normalize_rows(rs: &Vec<Vec<Value>>) -> (out: Vec<Vec<Value>>)
    ensures
        rows_view(out@) == normal_rows(rows_view(rs@)),
{
    let mut out: Vec<Vec<Value>> = Vec::new();
    let mut i: usize = 0;
    while i < rs.len()
        invariant
            i <= rs.len(),
            out.len() == i,
            forall|j: int| 0 <= j < i ==> row_view((#[trigger] out@[j])@) == normal_row(row_view(rs@[j]@)),
        decreases rs.len() - i,
    {
        out.push(normalize_row(&rs[i]));
        i = i + 1;
    }
    assert(rows_view(out@) =~= normal_rows(rows_view(rs@)));
    out
}

fn truncate_rows(rs: &mut Vec<Vec<Value>>, limit: Option<usize>)
    ensures
        rows_view(final(rs)@) == truncate(rows_view(old(rs)@), limit),
{
    match limit {
        Some(l) => {
            let ghost before = rs@;
            rs.truncate(l);
            proof {
                if l < before.len() {
                    assert(rows_view(rs@) =~= rows_view(before).subrange(0, l as int));
                }
            }
        },
        None => {},
    }
}

/// The requested columns projected out of each row, in row order.
fn project(rows: &Vec<Vec<Value>>, cols: &Vec<Column>, idx: &Vec<usize>, index: &ColumnIndex) -> (out: Vec<Vec<Value>>)
    requires
        idx.len() == cols.len(),
        forall|j: int| 0 <= j < cols.len() ==> index.lookup(col_id_spec(cols@[j]@)) == Some(#[trigger] idx@[j]),
    ensures
        rows_view(out@) == project_rows(crate::types::columns_view(cols@), *index, rows_view(rows@)),
{
    let ghost cv = crate::types::columns_view(cols@);
    let mut out: Vec<Vec<Value>> = Vec::new();
    let mut i: usize = 0;
    while i < rows.len()
        invariant
            i <= rows.len(),
            out.len() == i,
            cv == crate::types::columns_view(cols@),
            idx.len() == cols.len(),
            forall|j: int| 0 <= j < cols.len() ==> index.lookup(col_id_spec(cols@[j]@)) == Some(#[trigger] idx@[j]),
            forall|k: int| 0 <= k < i ==> row_view((#[trigger] out@[k])@) == project_row(cv, *index, row_view(rows@[k]@)),
        decreases rows.len() - i,
    {
        let r = &rows[i];
        let mut row_out: Vec<Value> = Vec::new();
        let mut j: usize = 0;
        while j < cols.len()
            invariant
                j <= cols.len(),
                row_out.len() == j,
                cv == crate::types::columns_view(cols@),
                idx.len() == cols.len(),
                forall|t: int| 0 <= t < cols.len() ==> index.lookup(col_id_spec(cols@[t]@)) == Some(#[trigger] idx@[t]),
                forall|t: int| 0 <= t < j ==> (#[trigger] row_out@[t])@ == project_value(cv[t], *index, row_view(r@)),
            decreases cols.len() - j,
        {
            let c = &cols[j];
            assert(cv[j as int] == c@);
            assert(index.lookup(col_id_spec(cols@[j as int]@)) == Some(idx@[j as int]));
            let cid = col_id(c);
            let mut v = normalize_value(&cell_of(r, idx[j]));
            let month = str_eq(cid.as_str(), "date") && match &c.level {
                Some(l) => str_eq(l.as_str(), "month"),
                None => false,
            };
            if month {
                v = bucket_month(&v);
            }
            row_out.push(sanitize_json_value(v));
            j = j + 1;
        }
        assert(row_view(row_out@) =~= project_row(cv, *index, row_view(r@)));
        out.push(row_out);
        i = i + 1;
    }
    assert(rows_view(out@) =~= project_rows(cv, *index, rows_view(rows@)));
    out
}

/// What a query answers: failures in order of checking, then the rows of its mode.
pub open spec fn query_post(
    req: &QueryRequest,
    data: Seq<Seq<ValueV>>,
    col_index: ColumnIndex,
    r: Result<Vec<Vec<Value>>, PluginError>,
) -> bool {
    let cols = req.columns_spec();
    let f = filtered_spec(req, data, col_index);
    let gs = groups_of(cols);
    let ms = measures_of(cols);
    if exists|i: int| 0 <= i < cols.len() && unknown_in(col_index, #[trigger] cols[i]) {
        match r {
            Err(e) => exists|i: int|
                0 <= i < cols.len() && unknown_in(col_index, #[trigger] cols[i])
                    && (forall|j: int| 0 <= j < i ==> !unknown_in(col_index, cols[j]))
                    && e is UnknownColumn
                    && e.message_spec() == unknown_column_message(col_id_spec(cols[i])),
            Ok(_) => false,
        }
    } else if cols.len() == 0 {
        match r {
            Ok(out) => rows_view(out@) == truncate(normal_rows(f), req.limit),
            Err(_) => false,
        }
    } else if !has_agg_spec(cols) {
        if exists|i: int| 0 <= i < cols.len() && unprojectable(col_index, #[trigger] cols[i]) {
            match r {
                Err(e) => exists|i: int|
                    0 <= i < cols.len() && unprojectable(col_index, #[trigger] cols[i])
                        && (forall|j: int| 0 <= j < i ==> !unprojectable(col_index, cols[j]))
                        && e is UnknownColumn
                        && e.message_spec() == unknown_column_message(col_id_spec(cols[i])),
                Ok(_) => false,
            }
        } else {
            match r {
                Ok(out) => rows_view(out@) == truncate(project_rows(cols, col_index, f), req.limit),
                Err(_) => false,
            }
        }
    } else {
        match plan_fault(gs, ms, col_index) {
            Some(fault) => match r {
                Err(e) => error_is(e, fault),
                Ok(_) => false,
            },
            None => match r {
                Ok(out) => exists|a: Seq<Seq<ValueV>>|
                    aggregated(f, gs, ms, col_index, a)
                        && rows_view(out@) == truncate(normal_rows(a), req.limit),
                Err(_) => false,
            },
        }
    }
}

/// Runs a request over `data`: filters, then (with no requested columns) every cell
/// normalised; (without aggregation) the requested columns projected; (with
/// aggregation) the grouped measures with one-element lists collapsed. The limit
/// truncates last.
pub fn execute_query(req: &QueryRequest, data: &Vec<Vec<Value>>, col_index: &ColumnIndex)
    -> (r: Result<Vec<Vec<Value>>, PluginError>)
    ensures
        query_post(req, rows_view(data@), *col_index, r),
{
    let ghost cols = req.columns_spec();
    let filtered = match apply_filters(data, &req.filters, col_index) {
        Ok(rows) => rows,
        Err(e) => {
            return Err(e);
        },
    };
    assert(req.filters_spec() == match req.filters {
        Some(f) => crate::types::filters_view(f@),
        None => Seq::empty(),
    });
    let plan = match build_plan(req, col_index) {
        Ok(p) => p,
        Err(e) => {
            return Err(e);
        },
    };
    if plan.requested_cols.len() == 0 {
        let mut out = normalize_rows(&filtered);
        truncate_rows(&mut out, req.limit);
        return Ok(out);
    }
    if !plan.has_agg {
        assert(forall|i: int| 0 <= i < cols.len() ==> !unknown_in(*col_index, #[trigger] cols[i]));
        let ghost cv = crate::types::columns_view(plan.requested_cols@);
        let mut idx: Vec<usize> = Vec::new();
        let mut j: usize = 0;
        while j < plan.requested_cols.len()
            invariant
                j <= plan.requested_cols.len(),
                cv == crate::types::columns_view(plan.requested_cols@),
                cv == cols,
                cols == req.columns_spec(),
                cols.len() > 0,
                !has_agg_spec(cols),
                forall|i: int| 0 <= i < cols.len() ==> !unknown_in(*col_index, #[trigger] cols[i]),
                idx.len() == j,
                forall|t: int| 0 <= t < j ==> !unprojectable(*col_index, cv[t]),
                forall|t: int| 0 <= t < j ==> col_index.lookup(col_id_spec(plan.requested_cols@[t]@)) == Some(#[trigger] idx@[t]),
            decreases plan.requested_cols.len() - j,
        {
            let c = &plan.requested_cols[j];
            assert(cv[j as int] == c@);
            let cid = col_id(c);
            match col_index.get(cid.as_str()) {
                Some(p) => {
                    idx.push(p);
                },
                None => {
                    let mut message = String::from_str("Unknown column in request: ");
                    message.append(cid.as_str());
                    let e = PluginError::UnknownColumn { message };
                    assert(cv == cols);
                    assert(unprojectable(*col_index, cv[j as int]));
                    assert(e.message_spec() == unknown_column_message(col_id_spec(cv[j as int])));
                    return Err(e);
                },
            }
            j = j + 1;
        }
        let mut out = project(&filtered, &plan.requested_cols, &idx, col_index);
        truncate_rows(&mut out, req.limit);
        return Ok(out);
    }
    let agg = match execute_aggregation(&filtered, &plan, col_index) {
        Ok(a) => a,
        Err(e) => {
            return Err(e);
        },
    };
    let mut out = normalize_rows(&agg);
    truncate_rows(&mut out, req.limit);
    assert(aggregated(
        filtered_spec(req, rows_view(data@), *col_index),
        groups_of(cols),
        measures_of(cols),
        *col_index,
        rows_view(agg@),
    ));
    Ok(out)
}

/// Accepts a request that names dataset `known`; any other fails with `DatasetNotFound`.
pub fn check_dataset(req: &QueryRequest, known: &str) -> (r: Result<(), PluginError>)
    ensures
        match r {
            Ok(_) => crate::plan::dataset_of(req) == known@,
            Err(e) => crate::plan::dataset_of(req) != known@ && e is DatasetNotFound
                && e.message_spec() == "Unknown dataset id: "@ + crate::plan::dataset_of(req),
        },
{
    let id = match &req.dataset_id {
        Some(d) => d.clone(),
        None => match &req.id {
            Some(i) => i.clone(),
            None => String::new(),
        },
    };
    if str_eq(id.as_str(), known) {
        Ok(())
    } else {
        let mut message = String::from_str("Unknown dataset id: ");
        message.append(id.as_str());
        Err(PluginError::DatasetNotFound { message })
    }
}

/// Runs a request against the rows a data source supplied.
pub fn run(req: &QueryRequest, data: &Vec<Vec<Value>>, col_index: &ColumnIndex) -> (r: Result<Vec<Vec<Value>>, PluginError>)
    ensures
        query_post(req, rows_view(data@), *col_index, r),
{
    execute_query(req, data, col_index)
}

/// Without requested columns, as many rows come out as passed the filters (up to
/// the limit), each with as many cells as its source row.
pub proof fn lemma_raw_shape(req: &QueryRequest, data: Seq<Seq<ValueV>>, col_index: ColumnIndex, out: Vec<Vec<Value>>)
    requires
        req.columns_spec().len() == 0,
        query_post(req, data, col_index, Ok(out)),
    ensures
        rows_view(out@).len() == match req.limit {
            Some(l) => if (l as int) < filtered_spec(req, data, col_index).len() {
                l as int
            } else {
                filtered_spec(req, data, col_index).len() as int
            },
            None => filtered_spec(req, data, col_index).len() as int,
        },
        forall|i: int| 0 <= i < rows_view(out@).len()
            ==> (#[trigger] rows_view(out@)[i]).len() == filtered_spec(req, data, col_index)[i].len(),
{
}

/// A query answers the same rows every time it runs on the same data.
pub proof fn lemma_query_deterministic(
    req: &QueryRequest,
    data: Seq<Seq<ValueV>>,
    col_index: ColumnIndex,
    r1: Result<Vec<Vec<Value>>, PluginError>,
    r2: Result<Vec<Vec<Value>>, PluginError>,
)
    requires
        query_post(req, data, col_index, r1),
        query_post(req, data, col_index, r2),
    ensures
        r1 is Ok <==> r2 is Ok,
        r1 is Ok ==> rows_view(r1->Ok_0@) == rows_view(r2->Ok_0@),
{
    let cols = req.columns_spec();
    let f = filtered_spec(req, data, col_index);
    let gs = groups_of(cols);
    let ms = measures_of(cols);
    if r1 is Ok && r2 is Ok && !(exists|i: int| 0 <= i < cols.len() && unknown_in(col_index, #[trigger] cols[i]))
        && cols.len() != 0 && has_agg_spec(cols) {
        let a1 = choose|a: Seq<Seq<ValueV>>| aggregated(f, gs, ms, col_index, a)
            && rows_view(r1->Ok_0@) == truncate(normal_rows(a), req.limit);
        let a2 = choose|a: Seq<Seq<ValueV>>| aggregated(f, gs, ms, col_index, a)
            && rows_view(r2->Ok_0@) == truncate(normal_rows(a), req.limit);
        crate::laws::lemma_aggregation_unique(f, gs, ms, col_index, a1, a2);
    }
}

} // verus!
