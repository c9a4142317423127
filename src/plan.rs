//! Turning a request into a validated plan: group columns, measures, aggregation flag.
use vstd::prelude::*;
use crate::dataset::ColumnIndex;
use crate::errors::PluginError;
use crate::types::{
    copy_filters, copy_opt, filters_view, opt_view, Column, ColumnV, FilterExpr,
    QueryRequest, columns_view,
};
use crate::value::str_eq;

verus! {

/// A column to group by, with an optional bucketing level and type tag.
#[derive(Debug)]
pub struct GroupCol {
    pub id: String,
    pub level: Option<String>,
    pub col_type: Option<String>,
}

/// A column paired with an aggregation function.
#[derive(Debug)]
pub struct Measure {
    pub id: String,
    pub agg: String,
    pub col_type: Option<String>,
}

pub struct GroupColV {
    pub id: Seq<char>,
    pub level: Option<Seq<char>>,
    pub col_type: Option<Seq<char>>,
}

pub struct MeasureV {
    pub id: Seq<char>,
    pub agg: Seq<char>,
    pub col_type: Option<Seq<char>>,
}

impl View for GroupCol {
    type V = GroupColV;

    open spec fn view(&self) -> GroupColV {
        GroupColV { id: self.id@, level: opt_view(self.level), col_type: opt_view(self.col_type) }
    }
}

impl View for Measure {
    type V = MeasureV;

    open spec fn view(&self) -> MeasureV {
        MeasureV { id: self.id@, agg: self.agg@, col_type: opt_view(self.col_type) }
    }
}

/// A validated query: what to group by, what to compute, which filters and how many rows.
#[derive(Debug)]
pub struct QueryPlan {
    pub dataset_id: String,
    pub group_cols: Vec<GroupCol>,
    pub measures: Vec<Measure>,
    pub filters: Option<Vec<FilterExpr>>,
    pub limit: Option<usize>,
    pub has_agg: bool,
    pub requested_cols: Vec<Column>,
}

impl QueryPlan {
    pub open spec fn groups_view(&self) -> Seq<GroupColV> {
        self.group_cols@.map_values(|g: GroupCol| g@)
    }

    pub open spec fn measures_view(&self) -> Seq<MeasureV> {
        self.measures@.map_values(|m: Measure| m@)
    }
}

/// The id a requested column refers to: its `column_id`, else its `id`.
pub open spec fn col_id_spec(c: ColumnV) -> Seq<char> {
    match c.column_id {
        Some(s) => s,
        None => c.id,
    }
}

/// The aggregation a column names; empty where it names none.
pub open spec fn agg_of(c: ColumnV) -> Seq<char> {
    match c.aggregation {
        Some(a) => a,
        None => Seq::empty(),
    }
}

pub open spec fn is_measure(c: ColumnV) -> bool {
    agg_of(c).len() > 0
}

pub open spec fn group_of(c: ColumnV) -> GroupColV {
    GroupColV { id: col_id_spec(c), level: c.level, col_type: c.col_type }
}

pub open spec fn measure_of(c: ColumnV) -> MeasureV {
    MeasureV { id: col_id_spec(c), agg: agg_of(c), col_type: c.col_type }
}

/// The columns without an aggregation, as group columns, in request order.
pub open spec fn groups_of(cols: Seq<ColumnV>) -> Seq<GroupColV>
    decreases cols.len(),
{
    if cols.len() == 0 {
        Seq::empty()
    } else if is_measure(cols.last()) {
        groups_of(cols.drop_last())
    } else {
        groups_of(cols.drop_last()).push(group_of(cols.last()))
    }
}

/// The columns with an aggregation, as measures, in request order.
pub open spec fn measures_of(cols: Seq<ColumnV>) -> Seq<MeasureV>
    decreases cols.len(),
{
    if cols.len() == 0 {
        Seq::empty()
    } else if is_measure(cols.last()) {
        measures_of(cols.drop_last()).push(measure_of(cols.last()))
    } else {
        measures_of(cols.drop_last())
    }
}

/// A requested column whose id is neither the wildcard nor in the index.
pub open spec fn unknown_in(index: ColumnIndex, c: ColumnV) -> bool {
    col_id_spec(c) != "*"@ && index.lookup(col_id_spec(c)) is None
}

pub open spec fn has_agg_spec(cols: Seq<ColumnV>) -> bool {
    exists|i: int| 0 <= i < cols.len() && is_measure(#[trigger] cols[i])
}

/// The dataset a request names: `dataset_id`, else `id`, else empty.
pub open spec fn dataset_of(req: &QueryRequest) -> Seq<char> {
    match req.dataset_id {
        Some(d) => d@,
        None => match req.id {
            Some(i) => i@,
            None => Seq::empty(),
        },
    }
}

pub open spec fn unknown_column_message(id: Seq<char>) -> Seq<char> {
    "Unknown column in request: "@ + id
}

/// The id a requested column refers to.
pub fn col_id(c: &Column) -> (r: String)
    ensures
        r@ == col_id_spec(c@),
{
    match &c.column_id {
        Some(s) => s.clone(),
        None => c.id.clone(),
    }
}

fn is_wildcard(s: &str) -> (r: bool)
    ensures
        r == (s@ == "*"@),
{
    str_eq(s, "*")
}

fn has_aggregation(c: &Column) -> (r: bool)
    ensures
        r == is_measure(c@),
{
    match &c.aggregation {
        Some(a) => a.unicode_len() > 0,
        None => false,
    }
}

/// Validates the requested columns against `col_index` and splits them into
/// group columns and measures.
pub fn build_plan(req: &QueryRequest, col_index: &ColumnIndex) -> (r: Result<QueryPlan, PluginError>)
    ensures
        match r {
            Ok(p) => {
                &&& forall|i: int| 0 <= i < req.columns_spec().len()
                    ==> !unknown_in(*col_index, #[trigger] req.columns_spec()[i])
                &&& p.dataset_id@ == dataset_of(req)
                &&& p.groups_view() == groups_of(req.columns_spec())
                &&& p.measures_view() == measures_of(req.columns_spec())
                &&& p.has_agg == has_agg_spec(req.columns_spec())
                &&& columns_view(p.requested_cols@) == req.columns_spec()
                &&& p.limit == req.limit
                &&& match p.filters {
                    Some(f) => req.filters is Some && filters_view(f@) == req.filters_spec(),
                    None => req.filters is None,
                }
            },
            Err(e) => exists|i: int|
                0 <= i < req.columns_spec().len() && unknown_in(*col_index, #[trigger] req.columns_spec()[i])
                    && (forall|j: int| 0 <= j < i ==> !unknown_in(*col_index, req.columns_spec()[j]))
                    && e is UnknownColumn
                    && e.message_spec() == unknown_column_message(col_id_spec(req.columns_spec()[i])),
        },
{
    let dataset_id = match &req.dataset_id {
        Some(d) => d.clone(),
        None => match &req.id {
            Some(i) => i.clone(),
            None => String::new(),
        },
    };
    let empty: Vec<Column> = Vec::new();
    let cols: &Vec<Column> = match &req.columns {
        Some(c) => c,
        None => &empty,
    };
    assert(columns_view(cols@) == req.columns_spec());

    let mut i: usize = 0;
    while i < cols.len()
        invariant
            i <= cols.len(),
            columns_view(cols@) == req.columns_spec(),
            forall|j: int| 0 <= j < i ==> !unknown_in(*col_index, columns_view(cols@)[j]),
        decreases cols.len() - i,
    {
        let cid = col_id(&cols[i]);
        if !is_wildcard(cid.as_str()) {
            if col_index.get(cid.as_str()).is_none() {
                let mut message = String::from_str("Unknown column in request: ");
                message.append(cid.as_str());
                let e = PluginError::UnknownColumn { message };
                assert(unknown_in(*col_index, req.columns_spec()[i as int]));
                assert(e.message_spec() == unknown_column_message(col_id_spec(req.columns_spec()[i as int])));
                return Err(e);
            }
        }
        i = i + 1;
    }

    let mut group_cols: Vec<GroupCol> = Vec::new();
    let mut measures: Vec<Measure> = Vec::new();
    let mut requested_cols: Vec<Column> = Vec::new();
    let mut has_agg = false;
    let mut i: usize = 0;
    while i < cols.len()
        invariant
            i <= cols.len(),
            columns_view(cols@) == req.columns_spec(),
            group_cols@.map_values(|g: GroupCol| g@) == groups_of(columns_view(cols@).subrange(0, i as int)),
            measures@.map_values(|m: Measure| m@) == measures_of(columns_view(cols@).subrange(0, i as int)),
            columns_view(requested_cols@) == columns_view(cols@).subrange(0, i as int),
            has_agg == has_agg_spec(columns_view(cols@).subrange(0, i as int)),
        decreases cols.len() - i,
    {
        let c = &cols[i];
        let ghost prefix = columns_view(cols@).subrange(0, i as int);
        let ghost next = columns_view(cols@).subrange(0, i + 1);
        assert(next.drop_last() =~= prefix);
        assert(next.last() == c@);
        let cid = col_id(c);
        if has_aggregation(c) {
            let agg = match &c.aggregation {
                Some(a) => a.clone(),
                None => String::new(),
            };
            measures.push(Measure { id: cid, agg, col_type: copy_opt(&c.col_type) });
            has_agg = true;
            assert(is_measure(next[i as int]));
        } else {
            group_cols.push(GroupCol { id: cid, level: copy_opt(&c.level), col_type: copy_opt(&c.col_type) });
            assert(has_agg_spec(next) == has_agg_spec(prefix)) by {
                if has_agg_spec(next) {
                    let k = choose|k: int| 0 <= k < next.len() && is_measure(#[trigger] next[k]);
                    assert(prefix[k] == next[k]);
                }
                if has_agg_spec(prefix) {
                    let k = choose|k: int| 0 <= k < prefix.len() && is_measure(#[trigger] prefix[k]);
                    assert(prefix[k] == next[k]);
                }
            }
        }
        assert(has_agg_spec(prefix) ==> has_agg_spec(next)) by {
            if has_agg_spec(prefix) {
                let k = choose|k: int| 0 <= k < prefix.len() && is_measure(#[trigger] prefix[k]);
                assert(prefix[k] == next[k]);
            }
        }
        requested_cols.push(c.copy());
        assert(group_cols@.map_values(|g: GroupCol| g@) =~= groups_of(next));
        assert(measures@.map_values(|m: Measure| m@) =~= measures_of(next));
        assert(columns_view(requested_cols@) =~= next);
        i = i + 1;
    }
    assert(columns_view(cols@).subrange(0, i as int) =~= columns_view(cols@));
    let filters = match &req.filters {
        Some(f) => Some(copy_filters(f)),
        None => None,
    };
    Ok(QueryPlan {
        dataset_id,
        group_cols,
        measures,
        filters,
        limit: req.limit,
        has_agg,
        requested_cols,
    })
}

} // verus!
