//! The declarative request: requested columns, filters, sorting and limit.
use vstd::prelude::*;
use crate::value::{Value, ValueV, copy_value};

verus! {

pub open spec fn opt_view(o: Option<String>) -> Option<Seq<char>> {
    match o {
        Some(s) => Some(s@),
        None => None,
    }
}

pub fn copy_opt(o: &Option<String>) -> (r: Option<String>)
    ensures
        opt_view(r) == opt_view(*o),
{
    match o {
        Some(s) => Some(s.clone()),
        None => None,
    }
}

/// A requested column: a plain column to group by, or a measure when it names an aggregation.
#[derive(Debug, Default)]
pub struct Column {
    pub id: String,
    pub column_id: Option<String>,
    pub aggregation: Option<String>,
    pub level: Option<String>,
    pub col_type: Option<String>,
}

pub struct ColumnV {
    pub id: Seq<char>,
    pub column_id: Option<Seq<char>>,
    pub aggregation: Option<Seq<char>>,
    pub level: Option<Seq<char>>,
    pub col_type: Option<Seq<char>>,
}

impl View for Column {
    type V = ColumnV;

    open spec fn view(&self) -> ColumnV {
        ColumnV {
            id: self.id@,
            column_id: opt_view(self.column_id),
            aggregation: opt_view(self.aggregation),
            level: opt_view(self.level),
            col_type: opt_view(self.col_type),
        }
    }
}

pub open spec fn columns_view(cols: Seq<Column>) -> Seq<ColumnV> {
    cols.map_values(|c: Column| c@)
}

impl Column {
    pub fn copy(&self) -> (r: Column)
        ensures
            r@ == self@,
    {
        Column {
            id: self.id.clone(),
            column_id: copy_opt(&self.column_id),
            aggregation: copy_opt(&self.aggregation),
            level: copy_opt(&self.level),
            col_type: copy_opt(&self.col_type),
        }
    }
}

/// One predicate of a request: a column reference, an operator and a literal.
#[derive(Debug)]
pub struct FilterExpr {
    pub column_id: Option<String>,
    pub id: Option<String>,
    pub expression: Option<String>,
    pub value: Option<Value>,
}

pub struct FilterV {
    pub column_id: Option<Seq<char>>,
    pub id: Option<Seq<char>>,
    pub expression: Option<Seq<char>>,
    pub value: Option<ValueV>,
}

impl View for FilterExpr {
    type V = FilterV;

    open spec fn view(&self) -> FilterV {
        FilterV {
            column_id: opt_view(self.column_id),
            id: opt_view(self.id),
            expression: opt_view(self.expression),
            value: match self.value {
                Some(v) => Some(v@),
                None => None,
            },
        }
    }
}

pub open spec fn filters_view(fs: Seq<FilterExpr>) -> Seq<FilterV> {
    fs.map_values(|f: FilterExpr| f@)
}

impl FilterExpr {
    pub fn copy(&self) -> (r: FilterExpr)
        ensures
            r@ == self@,
    {
        FilterExpr {
            column_id: copy_opt(&self.column_id),
            id: copy_opt(&self.id),
            expression: copy_opt(&self.expression),
            value: match &self.value {
                Some(v) => Some(copy_value(v)),
                None => None,
            },
        }
    }
}

pub fn copy_filters(fs: &Vec<FilterExpr>) -> (r: Vec<FilterExpr>)
    ensures
        filters_view(r@) == filters_view(fs@),
{
    let mut r: Vec<FilterExpr> = Vec::new();
    let mut i: usize = 0;
    while i < fs.len()
        invariant
            i <= fs.len(),
            r.len() == i,
            forall|j: int| 0 <= j < i ==> r@[j]@ == fs@[j]@,
        decreases fs.len() - i,
    {
        r.push(fs[i].copy());
        i = i + 1;
    }
    assert(filters_view(r@) =~= filters_view(fs@));
    r
}

/// A sort instruction; carried with a request, not applied by the engine.
#[derive(Debug)]
pub struct SortExpr {
    pub column_id: Option<String>,
    pub column_index: Option<usize>,
    pub index: Option<usize>,
    pub direction: Option<String>,
    pub order: Option<String>,
}

/// Transport options; carried with a request, not applied by the engine.
#[derive(Debug, Default)]
pub struct QueryOptions {
    pub pushdown: bool,
    pub include_metadata: bool,
    pub sort: Option<Vec<SortExpr>>,
}

/// A query against one dataset.
#[derive(Debug, Default)]
pub struct QueryRequest {
    pub id: Option<String>,
    pub dataset_id: Option<String>,
    pub columns: Option<Vec<Column>>,
    pub filters: Option<Vec<FilterExpr>>,
    pub limit: Option<usize>,
    pub options: Option<QueryOptions>,
}

impl QueryRequest {
    /// The requested columns; absent means none.
    pub open spec fn columns_spec(&self) -> Seq<ColumnV> {
        match self.columns {
            Some(c) => columns_view(c@),
            None => Seq::empty(),
        }
    }

    /// The filters; absent means none.
    pub open spec fn filters_spec(&self) -> Seq<FilterV> {
        match self.filters {
            Some(f) => filters_view(f@),
            None => Seq::empty(),
        }
    }
}

} // verus!
