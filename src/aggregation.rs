//! Grouping of rows by their group-column values and per-group measure accumulation.
use vstd::prelude::*;
use crate::dataset::ColumnIndex;
use crate::errors::PluginError;
use crate::filters::copy_row;
use crate::group_key::{encode_key, key_of, lemma_cmp_antisym, lemma_cmp_trans};
use crate::plan::{GroupColV, Measure, MeasureV, QueryPlan};
use crate::value::{
    SCALE, Scalar, ScalarV, Value, ValueV, cell_at, cell_of, chars_cmp, chars_of, compare_chars,
    copy_value, is_null, normal, normalize_value, row_view, rows_view, str_eq,
};

verus! {

/// The supported aggregation functions.
#[derive(Debug, Clone, Copy, PartialEq, Eq)]
pub enum AggKind {
    Count,
    Sum,
    Avg,
    Min,
    Max,
}

pub open spec fn kind_spec(a: Seq<char>) -> Option<AggKind> {
    if a == "count"@ {
        Some(AggKind::Count)
    } else if a == "sum"@ {
        Some(AggKind::Sum)
    } else if a == "avg"@ {
        Some(AggKind::Avg)
    } else if a == "min"@ {
        Some(AggKind::Min)
    } else if a == "max"@ {
        Some(AggKind::Max)
    } else {
        None
    }
}

/// The aggregation function an aggregation name selects.
pub fn agg_kind(a: &str) -> (r: Option<AggKind>)
    ensures
        r == kind_spec(a@),
{
    if str_eq(a, "count") {
        Some(AggKind::Count)
    } else if str_eq(a, "sum") {
        Some(AggKind::Sum)
    } else if str_eq(a, "avg") {
        Some(AggKind::Avg)
    } else if str_eq(a, "min") {
        Some(AggKind::Min)
    } else if str_eq(a, "max") {
        Some(AggKind::Max)
    } else {
        None
    }
}

/// `count(*)`: counts every row, reading no column.
pub open spec fn is_count_all(m: MeasureV) -> bool {
    m.agg == "count"@ && m.id == "*"@
}

pub open spec fn is_digit(c: char) -> bool {
    '0' <= c && c <= '9'
}

/// A string that starts with a year and a month: `YYYY-MM`.
pub open spec fn has_month_prefix(s: Seq<char>) -> bool {
    &&& s.len() >= 7
    &&& is_digit(s[0]) && is_digit(s[1]) && is_digit(s[2]) && is_digit(s[3])
    &&& s[4] == '-'
    &&& is_digit(s[5]) && is_digit(s[6])
}

/// A date string moved to the first instant of its month; any other value unchanged.
pub open spec fn bucket_spec(v: ValueV) -> ValueV {
    match v {
        ValueV::Scalar(ScalarV::Str(s)) => if has_month_prefix(s) {
            ValueV::Scalar(ScalarV::Str(s.subrange(0, 7) + "-01T00:00:00.000Z"@))
        } else {
            v
        },
        _ => v,
    }
}

/// Truncates an ISO-8601 date string to its month: `2025-03-14...` becomes
/// `2025-03-01T00:00:00.000Z`. Other values pass through.
pub fn bucket_month(v: &Value) -> (r: Value)
    ensures
        r@ == bucket_spec(v@),
{
    match v {
        Value::Scalar(Scalar::Str(s)) => {
            let c = chars_of(s.as_str());
            if c.len() >= 7 && '0' <= c[0] && c[0] <= '9' && '0' <= c[1] && c[1] <= '9' && '0' <= c[2]
                && c[2] <= '9' && '0' <= c[3] && c[3] <= '9' && c[4] == '-' && '0' <= c[5] && c[5] <= '9'
                && '0' <= c[6] && c[6] <= '9' {
                let mut t = String::from_str(s.as_str().substring_char(0, 7));
                t.append("-01T00:00:00.000Z");
                Value::Scalar(Scalar::Str(t))
            } else {
                copy_value(v)
            }
        },
        _ => copy_value(v),
    }
}

pub open spec fn is_month_col(g: GroupColV) -> bool {
    g.id == "date"@ && g.level == Some("month"@)
}

pub open spec fn is_hierarchy(t: Option<Seq<char>>) -> bool {
    t == Some("hierarchy"@)
}

/// The value a row contributes for one group column found at `idx`.
pub open spec fn group_value(g: GroupColV, idx: int, row: Seq<ValueV>) -> ValueV {
    let v = normal(cell_at(row, idx));
    let b = if is_month_col(g) { bucket_spec(v) } else { v };
    if is_hierarchy(g.col_type) {
        match b {
            ValueV::Scalar(ScalarV::Str(s)) => ValueV::List(seq![ValueV::Scalar(ScalarV::Str(s))]),
            _ => b,
        }
    } else {
        b
    }
}

/// Position of a column the index is known to hold.
pub open spec fn pos(index: ColumnIndex, id: Seq<char>) -> int {
    match index.lookup(id) {
        Some(p) => p as int,
        None => 0,
    }
}

/// The group-value tuple of a row.
pub open spec fn tuple_of(gs: Seq<GroupColV>, index: ColumnIndex, row: Seq<ValueV>) -> Seq<ValueV> {
    Seq::new(gs.len(), |i: int| group_value(gs[i], pos(index, gs[i].id), row))
}

pub open spec fn row_key(gs: Seq<GroupColV>, index: ColumnIndex, row: Seq<ValueV>) -> Seq<char> {
    key_of(tuple_of(gs, index, row))
}

/// The cell a measure reads from a row: none for `count(*)`.
pub open spec fn measure_cell(m: MeasureV, index: ColumnIndex, row: Seq<ValueV>) -> ValueV {
    if is_count_all(m) {
        ValueV::Scalar(ScalarV::Null)
    } else {
        cell_at(row, pos(index, m.id))
    }
}

/// A running accumulator: how many values counted, their sum and extremes.
pub struct AggV {
    pub count: nat,
    pub sum: int,
    pub min: Option<int>,
    pub max: Option<int>,
}

pub open spec fn agg_init() -> AggV {
    AggV { count: 0, sum: 0, min: None, max: None }
}

pub open spec fn min_with(o: Option<int>, n: int) -> int {
    match o {
        Some(x) => if x < n { x } else { n },
        None => n,
    }
}

pub open spec fn max_with(o: Option<int>, n: int) -> int {
    match o {
        Some(x) => if x > n { x } else { n },
        None => n,
    }
}

/// One row's effect on an accumulator of measure `m`.
pub open spec fn update_spec(st: AggV, m: MeasureV, raw: ValueV) -> AggV {
    let v = normal(raw);
    if kind_spec(m.agg) == Some(AggKind::Count) {
        if is_count_all(m) || !is_null(v) {
            AggV { count: st.count + 1, ..st }
        } else {
            st
        }
    } else {
        match v {
            ValueV::Scalar(ScalarV::Num(n)) => AggV {
                count: st.count + 1,
                sum: st.sum + n,
                min: Some(min_with(st.min, n)),
                max: Some(max_with(st.max, n)),
            },
            _ => st,
        }
    }
}

/// The accumulator of measure `m` over the rows whose key is `key`.
pub open spec fn acc(
    rows: Seq<Seq<ValueV>>,
    gs: Seq<GroupColV>,
    index: ColumnIndex,
    key: Seq<char>,
    m: MeasureV,
) -> AggV
    decreases rows.len(),
{
    if rows.len() == 0 {
        agg_init()
    } else {
        let prev = acc(rows.drop_last(), gs, index, key, m);
        if row_key(gs, index, rows.last()) == key {
            update_spec(prev, m, measure_cell(m, index, rows.last()))
        } else {
            prev
        }
    }
}

/// The tuple of the first row whose key is `key`.
pub open spec fn first_with(rows: Seq<Seq<ValueV>>, gs: Seq<GroupColV>, index: ColumnIndex, key: Seq<char>) -> Option<Seq<ValueV>>
    decreases rows.len(),
{
    if rows.len() == 0 {
        None
    } else {
        match first_with(rows.drop_last(), gs, index, key) {
            Some(t) => Some(t),
            None => if row_key(gs, index, rows.last()) == key {
                Some(tuple_of(gs, index, rows.last()))
            } else {
                None
            },
        }
    }
}

/// `n / d` rounded to the nearest integer, halves away from zero.
pub open spec fn round_div(n: int, d: int) -> int {
    if n >= 0 {
        n / d + if 2 * (n % d) >= d { 1int } else { 0int }
    } else {
        -((-n) / d + if 2 * ((-n) % d) >= d { 1int } else { 0int })
    }
}

/// A number of millionths rounded to two decimals.
pub open spec fn round2(x: int) -> int {
    round_div(x, 10000) * 10000
}

/// A number where it fits, else null.
pub open spec fn num_or_null(x: int) -> ValueV {
    if i64::MIN <= x <= i64::MAX {
        ValueV::Scalar(ScalarV::Num(x))
    } else {
        ValueV::Scalar(ScalarV::Null)
    }
}

/// The output cell of a measure from its accumulator. An extreme that was never
/// observed reads as zero.
pub open spec fn finalize_spec(kind: AggKind, st: AggV) -> ValueV {
    match kind {
        AggKind::Count => num_or_null(st.count * (SCALE as int)),
        AggKind::Sum => num_or_null(round2(st.sum)),
        AggKind::Avg => if st.count > 0 {
            num_or_null(round_div(st.sum, (st.count * 10000) as int) * 10000)
        } else {
            ValueV::Scalar(ScalarV::Num(0))
        },
        AggKind::Min => num_or_null(round2(match st.min { Some(x) => x, None => 0 })),
        AggKind::Max => num_or_null(round2(match st.max { Some(x) => x, None => 0 })),
    }
}

/// Per group and measure: a running count, sum, minimum and maximum.
pub struct AggState {
    pub count: usize,
    pub sum: i128,
    pub min: Option<i64>,
    pub max: Option<i64>,
}

impl View for AggState {
    type V = AggV;

    open spec fn view(&self) -> AggV {
        AggV {
            count: self.count as nat,
            sum: self.sum as int,
            min: match self.min { Some(x) => Some(x as int), None => None },
            max: match self.max { Some(x) => Some(x as int), None => None },
        }
    }
}

/// The sum stays within what `count` values of `i64` can add up to.
pub open spec fn sum_bounded(v: AggV) -> bool {
    -(v.count as int) * 9223372036854775808 <= v.sum <= (v.count as int) * 9223372036854775807
}

fn agg_state_new() -> (r: AggState)
    ensures
        r@ == agg_init(),
{
    AggState { count: 0, sum: 0, min: None, max: None }
}

/// Adds one row's cell to an accumulator. An unsupported aggregation name leaves
/// the accumulator as it was and fails.
fn measure_update(st: &mut AggState, m: &Measure, raw: &Value) -> (r: Result<(), PluginError>)
    requires
        old(st).count < usize::MAX,
        sum_bounded(old(st)@),
    ensures
        sum_bounded(final(st)@),
        match kind_spec(m.agg@) {
            Some(_) => r is Ok && final(st)@ == update_spec(old(st)@, m@, raw@),
            None => final(st)@ == old(st)@ && match r {
                Err(e) => e is UnsupportedAggregation && e.message_spec() == "Unsupported aggregation: "@ + m.agg@,
                Ok(_) => false,
            },
        },
{
    let v = normalize_value(raw);
    let kind = agg_kind(m.agg.as_str());
    match kind {
        None => {
            let mut message = String::from_str("Unsupported aggregation: ");
            message.append(m.agg.as_str());
            return Err(PluginError::UnsupportedAggregation { message });
        },
        Some(AggKind::Count) => {
            if (str_eq(m.agg.as_str(), "count") && str_eq(m.id.as_str(), "*")) || !crate::value::value_is_null(&v) {
                st.count = st.count + 1;
            }
        },
        _ => {
            match v {
                Value::Scalar(Scalar::Num(n)) => {
                    st.count = st.count + 1;
                    st.sum = st.sum + n as i128;
                    st.min = Some(match st.min { Some(x) => if x < n { x } else { n }, None => n });
                    st.max = Some(match st.max { Some(x) => if x > n { x } else { n }, None => n });
                },
                _ => {},
            }
        },
    }
    Ok(())
}

fn round_div_exec(n: i128, d: i128) -> (r: i128)
    requires
        d > 0,
        n > i128::MIN,
        d <= 0x1_0000_0000_0000_0000_0000,
        -0x7fff_ffff_ffff_ffff_8000_0000_0000_0000 <= n <= 0x7fff_ffff_ffff_ffff_8000_0000_0000_0000,
    ensures
        r as int == round_div(n as int, d as int),
{
    if n >= 0 {
        let q = n / d;
        let rem = n % d;
        if 2 * rem >= d { q + 1 } else { q }
    } else {
        let p = -n;
        let q = p / d;
        let rem = p % d;
        if 2 * rem >= d { -(q + 1) } else { -q }
    }
}

fn num_or_null_exec(x: i128) -> (r: Value)
    ensures
        r@ == num_or_null(x as int),
{
    if -9223372036854775808 <= x && x <= 9223372036854775807 {
        Value::Scalar(Scalar::Num(x as i64))
    } else {
        Value::Scalar(Scalar::Null)
    }
}

fn hundredths_or_null(q: i128) -> (r: Value)
    ensures
        r@ == num_or_null(q * 10000),
{
    match q.checked_mul(10000) {
        Some(x) => num_or_null_exec(x),
        None => Value::Scalar(Scalar::Null),
    }
}

/// The output cell of a finished accumulator.
fn measure_finalize(st: &AggState, kind: AggKind) -> (r: Value)
    requires
        sum_bounded(st@),
    ensures
        r@ == finalize_spec(kind, st@),
{
    assert(st.count as int <= 0xffff_ffff_ffff_ffff);
    assert(-0x7fff_ffff_ffff_ffff_8000_0000_0000_0000 <= st.sum <= 0x7fff_ffff_ffff_ffff_8000_0000_0000_0000);
    match kind {
        AggKind::Count => num_or_null_exec(st.count as i128 * SCALE as i128),
        AggKind::Sum => hundredths_or_null(round_div_exec(st.sum, 10000)),
        AggKind::Avg => {
            if st.count > 0 {
                hundredths_or_null(round_div_exec(st.sum, st.count as i128 * 10000))
            } else {
                Value::Scalar(Scalar::Num(0))
            }
        },
        AggKind::Min => {
            let x: i64 = match st.min { Some(x) => x, None => 0 };
            hundredths_or_null(round_div_exec(x as i128, 10000))
        },
        AggKind::Max => {
            let x: i64 = match st.max { Some(x) => x, None => 0 };
            hundredths_or_null(round_div_exec(x as i128, 10000))
        },
    }
}


/// Why a plan cannot be aggregated.
pub enum Failure {
    UnknownColumn(Seq<char>),
    UnsupportedAggregation(Seq<char>),
}

/// The message for the first group column the index lacks, if any.
pub open spec fn group_fault(gs: Seq<GroupColV>, index: ColumnIndex) -> Option<Seq<char>>
    decreases gs.len(),
{
    if gs.len() == 0 {
        None
    } else {
        match group_fault(gs.drop_last(), index) {
            Some(msg) => Some(msg),
            None => if index.lookup(gs.last().id) is None {
                Some("Unknown group column: "@ + gs.last().id)
            } else {
                None
            },
        }
    }
}

/// What is wrong with one measure: its column is unknown, or its function unsupported.
pub open spec fn measure_fault(m: MeasureV, index: ColumnIndex) -> Option<Failure> {
    if is_count_all(m) {
        None
    } else if index.lookup(m.id) is None {
        Some(Failure::UnknownColumn("Unknown measure column: "@ + m.id))
    } else if kind_spec(m.agg) is None {
        Some(Failure::UnsupportedAggregation("Unsupported aggregation: "@ + m.agg))
    } else {
        None
    }
}

/// The fault of the first faulty measure, if any.
pub open spec fn measures_fault(ms: Seq<MeasureV>, index: ColumnIndex) -> Option<Failure>
    decreases ms.len(),
{
    if ms.len() == 0 {
        None
    } else {
        match measures_fault(ms.drop_last(), index) {
            Some(f) => Some(f),
            None => measure_fault(ms.last(), index),
        }
    }
}

/// The first fault of a plan: group columns are checked before measures.
pub open spec fn plan_fault(gs: Seq<GroupColV>, ms: Seq<MeasureV>, index: ColumnIndex) -> Option<Failure> {
    match group_fault(gs, index) {
        Some(msg) => Some(Failure::UnknownColumn(msg)),
        None => measures_fault(ms, index),
    }
}

pub open spec fn error_is(e: PluginError, f: Failure) -> bool {
    match f {
        Failure::UnknownColumn(msg) => e is UnknownColumn && e.message_spec() == msg,
        Failure::UnsupportedAggregation(msg) => e is UnsupportedAggregation && e.message_spec() == msg,
    }
}

pub open spec fn kind_of(m: MeasureV) -> AggKind {
    match kind_spec(m.agg) {
        Some(k) => k,
        None => AggKind::Count,
    }
}

/// The group-value cells that lead an output row.
pub open spec fn lead(gs: Seq<GroupColV>, row: Seq<ValueV>) -> Seq<ValueV> {
    row.subrange(0, gs.len() as int)
}

/// `out` is the aggregation of `rows`: one row per distinct key, in strictly
/// ascending key order, each holding the first tuple seen with its key and
/// then one finalised accumulator per measure.
pub open spec fn aggregated(
    rows: Seq<Seq<ValueV>>,
    gs: Seq<GroupColV>,
    ms: Seq<MeasureV>,
    index: ColumnIndex,
    out: Seq<Seq<ValueV>>,
) -> bool {
    &&& forall|a: int| 0 <= a < out.len() ==> (#[trigger] out[a]).len() == gs.len() + ms.len()
    &&& forall|a: int, b: int| 0 <= a < b < out.len()
        ==> chars_cmp(key_of(lead(gs, #[trigger] out[a])), key_of(lead(gs, #[trigger] out[b]))) == -1
    &&& forall|k: int| 0 <= k < rows.len() ==> exists|a: int|
        0 <= a < out.len() && key_of(lead(gs, #[trigger] out[a])) == row_key(gs, index, #[trigger] rows[k])
    &&& forall|a: int| 0 <= a < out.len()
        ==> first_with(rows, gs, index, key_of(lead(gs, #[trigger] out[a]))) == Some(lead(gs, out[a]))
    &&& forall|a: int, m: int| 0 <= a < out.len() && 0 <= m < ms.len()
        ==> (#[trigger] out[a])[gs.len() + m] == finalize_spec(
            kind_of(#[trigger] ms[m]),
            acc(rows, gs, index, key_of(lead(gs, out[a])), ms[m]),
        )
}

/// Positions of the plan's columns; a `count(*)` measure gets position zero, unused.
struct Resolved {
    group_idx: Vec<usize>,
    measure_idx: Vec<usize>,
}

pub open spec fn gs_of(plan: &QueryPlan) -> Seq<GroupColV> {
    plan.groups_view()
}

pub open spec fn ms_of(plan: &QueryPlan) -> Seq<MeasureV> {
    plan.measures_view()
}

fn resolve(plan: &QueryPlan, index: &ColumnIndex) -> (r: Result<Resolved, PluginError>)
    ensures
        match r {
            Ok(res) => plan_fault(gs_of(plan), ms_of(plan), *index) is None && resolved_ok(plan, &res, *index),
            Err(e) => match plan_fault(gs_of(plan), ms_of(plan), *index) {
                Some(f) => error_is(e, f),
                None => false,
            },
        },
{
    let ghost gs = gs_of(plan);
    let ghost ms = ms_of(plan);
    let mut group_idx: Vec<usize> = Vec::new();
    let mut i: usize = 0;
    while i < plan.group_cols.len()
        invariant
            i <= plan.group_cols.len(),
            gs == gs_of(plan),
            gs.len() == plan.group_cols.len(),
            group_idx.len() == i,
            group_fault(gs.subrange(0, i as int), *index) is None,
            forall|j: int| 0 <= j < i ==> index.lookup(gs[j].id) == Some(#[trigger] group_idx@[j]),
        decreases plan.group_cols.len() - i,
    {
        let g = &plan.group_cols[i];
        assert(gs.subrange(0, i + 1).drop_last() =~= gs.subrange(0, i as int));
        assert(gs[i as int] == g@);
        match index.get(g.id.as_str()) {
            Some(p) => {
                group_idx.push(p);
            },
            None => {
                let mut message = String::from_str("Unknown group column: ");
                message.append(g.id.as_str());
                assert(group_fault(gs.subrange(0, i + 1), *index) == Some("Unknown group column: "@ + g.id@));
                proof { lemma_group_fault_prefix(gs, *index, i + 1); }
                return Err(PluginError::UnknownColumn { message });
            },
        }
        i = i + 1;
    }
    assert(gs.subrange(0, i as int) =~= gs);
    let mut measure_idx: Vec<usize> = Vec::new();
    let mut i: usize = 0;
    while i < plan.measures.len()
        invariant
            i <= plan.measures.len(),
            ms == ms_of(plan),
            gs == gs_of(plan),
            ms.len() == plan.measures.len(),
            group_idx.len() == gs.len(),
            forall|j: int| 0 <= j < gs.len() ==> index.lookup(gs[j].id) == Some(#[trigger] group_idx@[j]),
            measure_idx.len() == i,
            group_fault(gs, *index) is None,
            measures_fault(ms.subrange(0, i as int), *index) is None,
            forall|j: int| 0 <= j < i ==> measure_fault(#[trigger] ms[j], *index) is None,
            forall|j: int| 0 <= j < i ==> (!is_count_all(ms[j]) ==> index.lookup(ms[j].id) == Some(#[trigger] measure_idx@[j])),
        decreases plan.measures.len() - i,
    {
        let m = &plan.measures[i];
        assert(ms.subrange(0, i + 1).drop_last() =~= ms.subrange(0, i as int));
        assert(ms[i as int] == m@);
        if str_eq(m.agg.as_str(), "count") && str_eq(m.id.as_str(), "*") {
            measure_idx.push(0);
        } else {
            match index.get(m.id.as_str()) {
                Some(p) => {
                    if agg_kind(m.agg.as_str()).is_none() {
                        let mut message = String::from_str("Unsupported aggregation: ");
                        message.append(m.agg.as_str());
                        assert(measure_fault(ms[i as int], *index) == Some(Failure::UnsupportedAggregation("Unsupported aggregation: "@ + m.agg@)));
                        assert(measures_fault(ms.subrange(0, i + 1), *index) == measure_fault(ms[i as int], *index));
                        proof { lemma_measures_fault_prefix(ms, *index, i + 1); }
                        return Err(PluginError::UnsupportedAggregation { message });
                    }
                    measure_idx.push(p);
                },
                None => {
                    let mut message = String::from_str("Unknown measure column: ");
                    message.append(m.id.as_str());
                    assert(measure_fault(ms[i as int], *index) == Some(Failure::UnknownColumn("Unknown measure column: "@ + m.id@)));
                    assert(measures_fault(ms.subrange(0, i + 1), *index) == measure_fault(ms[i as int], *index));
                    proof { lemma_measures_fault_prefix(ms, *index, i + 1); }
                    return Err(PluginError::UnknownColumn { message });
                },
            }
        }
        assert(measure_fault(ms[i as int], *index) is None);
        assert(measures_fault(ms.subrange(0, i + 1), *index) is None);
        assert(!is_count_all(ms[i as int]) ==> index.lookup(ms[i as int].id) == Some(measure_idx@[i as int]));
        i = i + 1;
    }
    assert(ms.subrange(0, i as int) =~= ms);
    Ok(Resolved { group_idx, measure_idx })
}

proof fn lemma_group_fault_prefix(gs: Seq<GroupColV>, index: ColumnIndex, n: int)
    requires
        0 <= n <= gs.len(),
        group_fault(gs.subrange(0, n), index) is Some,
    ensures
        group_fault(gs, index) == group_fault(gs.subrange(0, n), index),
    decreases gs.len() - n,
{
    if n < gs.len() {
        assert(gs.subrange(0, n + 1).drop_last() =~= gs.subrange(0, n));
        lemma_group_fault_prefix(gs, index, n + 1);
    } else {
        assert(gs.subrange(0, n) =~= gs);
    }
}

proof fn lemma_measures_fault_prefix(ms: Seq<MeasureV>, index: ColumnIndex, n: int)
    requires
        0 <= n <= ms.len(),
        measures_fault(ms.subrange(0, n), index) is Some,
    ensures
        measures_fault(ms, index) == measures_fault(ms.subrange(0, n), index),
    decreases ms.len() - n,
{
    if n < ms.len() {
        assert(ms.subrange(0, n + 1).drop_last() =~= ms.subrange(0, n));
        lemma_measures_fault_prefix(ms, index, n + 1);
    } else {
        assert(ms.subrange(0, n) =~= ms);
    }
}


fn is_month_column(id: &String, level: &Option<String>) -> (r: bool)
    ensures
        r == (id@ == "date"@ && crate::types::opt_view(*level) == Some("month"@)),
{
    str_eq(id.as_str(), "date") && match level {
        Some(l) => str_eq(l.as_str(), "month"),
        None => false,
    }
}

fn is_hierarchy_column(t: &Option<String>) -> (r: bool)
    ensures
        r == is_hierarchy(crate::types::opt_view(*t)),
{
    match t {
        Some(s) => str_eq(s.as_str(), "hierarchy"),
        None => false,
    }
}

/// The group-value tuple of one row.
fn group_tuple(row: &Vec<Value>, plan: &QueryPlan, res: &Resolved, index: &ColumnIndex) -> (r: Vec<Value>)
    requires
        res.group_idx.len() == gs_of(plan).len(),
        forall|j: int| 0 <= j < res.group_idx.len() ==> index.lookup(gs_of(plan)[j].id) == Some(#[trigger] res.group_idx@[j]),
    ensures
        row_view(r@) == tuple_of(gs_of(plan), *index, row_view(row@)),
{
    let ghost gs = gs_of(plan);
    let mut out: Vec<Value> = Vec::new();
    let mut j: usize = 0;
    while j < plan.group_cols.len()
        invariant
            j <= plan.group_cols.len(),
            gs == gs_of(plan),
            gs.len() == plan.group_cols.len(),
            res.group_idx.len() == gs.len(),
            forall|k: int| 0 <= k < res.group_idx.len() ==> index.lookup(gs[k].id) == Some(#[trigger] res.group_idx@[k]),
            out.len() == j,
            forall|k: int| 0 <= k < j ==> (#[trigger] out@[k])@ == group_value(gs[k], pos(*index, gs[k].id), row_view(row@)),
        decreases plan.group_cols.len() - j,
    {
        let g = &plan.group_cols[j];
        assert(gs[j as int] == g@);
        assert(index.lookup(gs[j as int].id) == Some(res.group_idx@[j as int]));
        let idx = res.group_idx[j];
        let mut v = normalize_value(&cell_of(row, idx));
        if is_month_column(&g.id, &g.level) {
            v = bucket_month(&v);
        }
        if is_hierarchy_column(&g.col_type) {
            v = match v {
                Value::Scalar(Scalar::Str(s)) => {
                    let mut l: Vec<Value> = Vec::new();
                    l.push(Value::Scalar(Scalar::Str(s)));
                    let w = Value::List(l);
                    assert(w@->List_0 =~= seq![ValueV::Scalar(ScalarV::Str(s@))]);
                    w
                },
                other => other,
            };
        }
        out.push(v);
        j = j + 1;
    }
    assert(row_view(out@) =~= tuple_of(gs, *index, row_view(row@)));
    out
}

/// A group under construction: its key, its group values, one accumulator per measure.
struct Group {
    key: Vec<char>,
    values: Vec<Value>,
    states: Vec<AggState>,
}

/// What holds of the groups built from `rows`.
spec fn groups_ok(
    groups: Seq<Group>,
    rows: Seq<Seq<ValueV>>,
    gs: Seq<GroupColV>,
    ms: Seq<MeasureV>,
    index: ColumnIndex,
) -> bool {
    &&& forall|a: int| 0 <= a < groups.len()
        ==> (#[trigger] groups[a]).key@ == key_of(row_view(groups[a].values@))
            && groups[a].values.len() == gs.len()
            && groups[a].states.len() == ms.len()
            && first_with(rows, gs, index, groups[a].key@) == Some(row_view(groups[a].values@))
    &&& forall|a: int, b: int| 0 <= a < b < groups.len()
        ==> chars_cmp((#[trigger] groups[a]).key@, (#[trigger] groups[b]).key@) == -1
    &&& forall|k: int| 0 <= k < rows.len() ==> exists|a: int|
        0 <= a < groups.len() && (#[trigger] groups[a]).key@ == row_key(gs, index, #[trigger] rows[k])
    &&& forall|a: int, m: int| 0 <= a < groups.len() && 0 <= m < ms.len()
        ==> (#[trigger] groups[a]).states@[m]@ == acc(rows, gs, index, groups[a].key@, #[trigger] ms[m])
            && sum_bounded(groups[a].states@[m]@)
            && groups[a].states@[m].count <= rows.len()
}

proof fn lemma_step(rows: Seq<Seq<ValueV>>, row: Seq<ValueV>, gs: Seq<GroupColV>, index: ColumnIndex, key: Seq<char>, m: MeasureV)
    ensures
        acc(rows.push(row), gs, index, key, m) == if row_key(gs, index, row) == key {
            update_spec(acc(rows, gs, index, key, m), m, measure_cell(m, index, row))
        } else {
            acc(rows, gs, index, key, m)
        },
        first_with(rows.push(row), gs, index, key) == match first_with(rows, gs, index, key) {
            Some(t) => Some(t),
            None => if row_key(gs, index, row) == key { Some(tuple_of(gs, index, row)) } else { None },
        },
{
    assert(rows.push(row).drop_last() =~= rows);
    assert(rows.push(row).last() == row);
}

proof fn lemma_absent(rows: Seq<Seq<ValueV>>, gs: Seq<GroupColV>, index: ColumnIndex, key: Seq<char>, m: MeasureV)
    requires
        forall|k: int| 0 <= k < rows.len() ==> row_key(gs, index, #[trigger] rows[k]) != key,
    ensures
        acc(rows, gs, index, key, m) == agg_init(),
        first_with(rows, gs, index, key) is None,
    decreases rows.len(),
{
    if rows.len() > 0 {
        let r = rows.drop_last();
        assert forall|k: int| 0 <= k < r.len() implies row_key(gs, index, #[trigger] r[k]) != key by {
            assert(r[k] == rows[k]);
        }
        lemma_absent(r, gs, index, key, m);
        assert(row_key(gs, index, rows[rows.len() - 1]) != key);
    }
}

/// Where `key` belongs among the sorted groups, and whether a group has it.
fn find_slot(groups: &Vec<Group>, key: &Vec<char>) -> (r: (usize, bool))
    ensures
        r.0 <= groups.len(),
        forall|a: int| 0 <= a < r.0 ==> chars_cmp((#[trigger] groups@[a]).key@, key@) == -1,
        r.1 ==> r.0 < groups.len() && groups@[r.0 as int].key@ == key@,
        !r.1 && r.0 < groups.len() ==> chars_cmp(groups@[r.0 as int].key@, key@) == 1,
{
    let mut p: usize = 0;
    while p < groups.len()
        invariant
            p <= groups.len(),
            forall|a: int| 0 <= a < p ==> chars_cmp((#[trigger] groups@[a]).key@, key@) == -1,
        decreases groups.len() - p,
    {
        let c = compare_chars(&groups[p].key, key);
        if c == 0 {
            proof { lemma_cmp_antisym(groups@[p as int].key@, key@); }
            return (p, true);
        }
        if c == 1 {
            return (p, false);
        }
        p = p + 1;
    }
    (p, false)
}

/// Each accumulator with one more row's cell added.
fn update_states(
    states: &Vec<AggState>,
    row: &Vec<Value>,
    plan: &QueryPlan,
    res: &Resolved,
    index: &ColumnIndex,
) -> (r: Vec<AggState>)
    requires
        states.len() == ms_of(plan).len(),
        res.measure_idx.len() == ms_of(plan).len(),
        forall|j: int| 0 <= j < res.measure_idx.len() ==> measure_fault(#[trigger] ms_of(plan)[j], *index) is None,
        forall|j: int| 0 <= j < res.measure_idx.len()
            ==> (!is_count_all(ms_of(plan)[j]) ==> index.lookup(ms_of(plan)[j].id) == Some(#[trigger] res.measure_idx@[j])),
        forall|j: int| 0 <= j < states.len() ==> (#[trigger] states@[j]).count < usize::MAX && sum_bounded(states@[j]@),
    ensures
        r.len() == states.len(),
        forall|j: int| 0 <= j < r.len() ==> (#[trigger] r@[j])@ == update_spec(
            states@[j]@,
            ms_of(plan)[j],
            measure_cell(ms_of(plan)[j], *index, row_view(row@)),
        ) && sum_bounded(r@[j]@) && r@[j].count <= states@[j].count + 1,
{
    let ghost ms = ms_of(plan);
    let mut out: Vec<AggState> = Vec::new();
    let mut j: usize = 0;
    while j < states.len()
        invariant
            j <= states.len(),
            ms == ms_of(plan),
            states.len() == ms.len(),
            ms.len() == plan.measures.len(),
            res.measure_idx.len() == ms.len(),
            forall|k: int| 0 <= k < res.measure_idx.len() ==> measure_fault(#[trigger] ms[k], *index) is None,
            forall|k: int| 0 <= k < res.measure_idx.len()
                ==> (!is_count_all(ms[k]) ==> index.lookup(ms[k].id) == Some(#[trigger] res.measure_idx@[k])),
            forall|k: int| 0 <= k < states.len() ==> (#[trigger] states@[k]).count < usize::MAX && sum_bounded(states@[k]@),
            out.len() == j,
            forall|k: int| 0 <= k < j ==> (#[trigger] out@[k])@ == update_spec(
                states@[k]@,
                ms[k],
                measure_cell(ms[k], *index, row_view(row@)),
            ) && sum_bounded(out@[k]@) && out@[k].count <= states@[k].count + 1,
        decreases states.len() - j,
    {
        let m = &plan.measures[j];
        assert(ms[j as int] == m@);
        assert(measure_fault(ms[j as int], *index) is None);
        let count_all = str_eq(m.agg.as_str(), "count") && str_eq(m.id.as_str(), "*");
        let cell = if count_all {
            Value::Scalar(Scalar::Null)
        } else {
            assert(index.lookup(ms[j as int].id) == Some(res.measure_idx@[j as int]));
            cell_of(row, res.measure_idx[j])
        };
        let st = &states[j];
        let mut next = AggState { count: st.count, sum: st.sum, min: st.min, max: st.max };
        let updated = measure_update(&mut next, m, &cell);
        assert(updated is Ok);
        out.push(next);
        j = j + 1;
    }
    out
}

fn fresh_states(n: usize) -> (r: Vec<AggState>)
    ensures
        r.len() == n,
        forall|j: int| 0 <= j < n ==> (#[trigger] r@[j])@ == agg_init(),
{
    let mut out: Vec<AggState> = Vec::new();
    let mut j: usize = 0;
    while j < n
        invariant
            j <= n,
            out.len() == j,
            forall|k: int| 0 <= k < j ==> (#[trigger] out@[k])@ == agg_init(),
        decreases n - j,
    {
        out.push(agg_state_new());
        j = j + 1;
    }
    out
}


/// Facts about a resolved plan that the per-row work relies on.
spec fn resolved_ok(plan: &QueryPlan, res: &Resolved, index: ColumnIndex) -> bool {
    &&& res.group_idx.len() == gs_of(plan).len()
    &&& res.measure_idx.len() == ms_of(plan).len()
    &&& forall|j: int| 0 <= j < res.group_idx.len() ==> index.lookup(gs_of(plan)[j].id) == Some(#[trigger] res.group_idx@[j])
    &&& forall|j: int| 0 <= j < res.measure_idx.len() ==> measure_fault(#[trigger] ms_of(plan)[j], index) is None
    &&& forall|j: int| 0 <= j < res.measure_idx.len()
        ==> (!is_count_all(ms_of(plan)[j]) ==> index.lookup(ms_of(plan)[j].id) == Some(#[trigger] res.measure_idx@[j]))
}

proof fn lemma_keys_differ(a: Seq<char>, b: Seq<char>)
    requires
        chars_cmp(a, b) == -1 || chars_cmp(a, b) == 1,
    ensures
        a != b,
{
    lemma_cmp_antisym(a, b);
}

/// Folds one more row into the groups.
#[verifier::spinoff_prover]
#[verifier::rlimit(80)]
fn add_row(
    groups: &mut Vec<Group>,
    row: &Vec<Value>,
    plan: &QueryPlan,
    res: &Resolved,
    index: &ColumnIndex,
    Ghost(seen): Ghost<Seq<Seq<ValueV>>>,
)
    requires
        groups_ok(old(groups)@, seen, gs_of(plan), ms_of(plan), *index),
        resolved_ok(plan, res, *index),
        seen.len() < usize::MAX,
    ensures
        groups_ok(final(groups)@, seen.push(row_view(row@)), gs_of(plan), ms_of(plan), *index),
{
    let ghost gs = gs_of(plan);
    let ghost ms = ms_of(plan);
    let ghost rv = row_view(row@);
    let ghost seen2 = seen.push(rv);
    let ghost before = groups@;
    let t = group_tuple(row, plan, res, index);
    let key = encode_key(&t);
    assert(key@ == row_key(gs, *index, rv));
    let (p, found) = find_slot(groups, &key);
    if found {
        let g = groups.remove(p);
        assert forall|j: int| 0 <= j < g.states.len() implies (#[trigger] g.states@[j]).count < usize::MAX
            && sum_bounded(g.states@[j]@) by {
            assert(before[p as int] == g);
            assert(g.states@[j]@ == acc(seen, gs, *index, g.key@, ms[j]));
        }
        let states = update_states(&g.states, row, plan, res, index);
        let newg = Group { key: g.key, values: g.values, states };
        groups.insert(p, newg);
        proof {
            let after = groups@;
            assert(after =~= before.update(p as int, newg));
            assert forall|a: int| 0 <= a < after.len() && a != p implies (#[trigger] after[a]).key@ != key@ by {
                if a < p {
                    lemma_keys_differ(before[a].key@, before[p as int].key@);
                } else {
                    lemma_keys_differ(before[p as int].key@, before[a].key@);
                }
            }
            assert forall|a: int| 0 <= a < after.len() implies (#[trigger] after[a]).key@ == key_of(row_view(after[a].values@))
                && after[a].values.len() == gs.len()
                && after[a].states.len() == ms.len()
                && first_with(seen2, gs, *index, after[a].key@) == Some(row_view(after[a].values@)) by {
                lemma_step(seen, rv, gs, *index, after[a].key@, ms[0]);
            }
            assert forall|k: int| 0 <= k < seen2.len() implies exists|a: int|
                0 <= a < after.len() && (#[trigger] after[a]).key@ == row_key(gs, *index, #[trigger] seen2[k]) by {
                if k < seen.len() {
                    assert(seen2[k] == seen[k]);
                    let a = choose|a: int| 0 <= a < before.len() && (#[trigger] before[a]).key@ == row_key(gs, *index, seen[k]);
                    assert(after[a].key@ == before[a].key@);
                } else {
                    assert(seen2[k] == rv);
                    assert(after[p as int].key@ == key@);
                }
            }
            assert forall|a: int, m: int| 0 <= a < after.len() && 0 <= m < ms.len() implies
                (#[trigger] after[a]).states@[m]@ == acc(seen2, gs, *index, after[a].key@, #[trigger] ms[m])
                && sum_bounded(after[a].states@[m]@)
                && after[a].states@[m].count <= seen2.len() by {
                lemma_step(seen, rv, gs, *index, after[a].key@, ms[m]);
                assert(before[a].states@[m]@ == acc(seen, gs, *index, before[a].key@, ms[m]));
            }
            assert forall|a: int, b: int| 0 <= a < b < after.len() implies
                chars_cmp((#[trigger] after[a]).key@, (#[trigger] after[b]).key@) == -1 by {
                assert(before[a].key@ == after[a].key@);
                assert(before[b].key@ == after[b].key@);
            }
        }
    } else {
        let st0 = fresh_states(plan.measures.len());
        let states = update_states(&st0, row, plan, res, index);
        let newg = Group { key, values: t, states };
        proof {
            assert forall|a: int| 0 <= a < before.len() implies (#[trigger] before[a]).key@ != key@ by {
                if a < p {
                    lemma_keys_differ(before[a].key@, key@);
                } else {
                    lemma_cmp_antisym(before[p as int].key@, key@);
                    if a > p {
                        lemma_cmp_trans(key@, before[p as int].key@, before[a].key@);
                    }
                    lemma_keys_differ(key@, before[a].key@);
                }
            }
            assert forall|a: int| p <= a < before.len() implies chars_cmp(key@, (#[trigger] before[a]).key@) == -1 by {
                lemma_cmp_antisym(before[p as int].key@, key@);
                if a > p {
                    lemma_cmp_trans(key@, before[p as int].key@, before[a].key@);
                }
            }
            assert forall|k: int| 0 <= k < seen.len() implies row_key(gs, *index, #[trigger] seen[k]) != key@ by {
                let a = choose|a: int| 0 <= a < before.len() && (#[trigger] before[a]).key@ == row_key(gs, *index, seen[k]);
            }
            assert forall|m: int| 0 <= m < ms.len() implies acc(seen, gs, *index, key@, #[trigger] ms[m]) == agg_init() by {
                lemma_absent(seen, gs, *index, key@, ms[m]);
            }
            lemma_absent(seen, gs, *index, key@, ms[0]);
        }
        groups.insert(p, newg);
        proof {
            let after = groups@;
            assert(after =~= before.insert(p as int, newg));
            assert forall|a: int| 0 <= a < after.len() implies (#[trigger] after[a]).key@ == key_of(row_view(after[a].values@))
                && after[a].values.len() == gs.len()
                && after[a].states.len() == ms.len()
                && first_with(seen2, gs, *index, after[a].key@) == Some(row_view(after[a].values@)) by {
                lemma_step(seen, rv, gs, *index, after[a].key@, ms[0]);
                if a > p {
                    assert(after[a] == before[a - 1]);
                } else if a < p {
                    assert(after[a] == before[a]);
                }
            }
            assert forall|k: int| 0 <= k < seen2.len() implies exists|a: int|
                0 <= a < after.len() && (#[trigger] after[a]).key@ == row_key(gs, *index, #[trigger] seen2[k]) by {
                if k < seen.len() {
                    assert(seen2[k] == seen[k]);
                    let a = choose|a: int| 0 <= a < before.len() && (#[trigger] before[a]).key@ == row_key(gs, *index, seen[k]);
                    if a < p {
                        assert(after[a] == before[a]);
                    } else {
                        assert(after[a + 1] == before[a]);
                    }
                } else {
                    assert(seen2[k] == rv);
                    assert(after[p as int].key@ == key@);
                }
            }
            assert forall|a: int, m: int| 0 <= a < after.len() && 0 <= m < ms.len() implies
                (#[trigger] after[a]).states@[m]@ == acc(seen2, gs, *index, after[a].key@, #[trigger] ms[m])
                && sum_bounded(after[a].states@[m]@)
                && after[a].states@[m].count <= seen2.len() by {
                lemma_step(seen, rv, gs, *index, after[a].key@, ms[m]);
                if a > p {
                    assert(after[a] == before[a - 1]);
                    assert(before[a - 1].states@[m]@ == acc(seen, gs, *index, before[a - 1].key@, ms[m]));
                } else if a < p {
                    assert(after[a] == before[a]);
                    assert(before[a].states@[m]@ == acc(seen, gs, *index, before[a].key@, ms[m]));
                } else {
                    assert(st0@[m]@ == agg_init());
                }
            }
            assert forall|a: int, b: int| 0 <= a < b < after.len() implies
                chars_cmp((#[trigger] after[a]).key@, (#[trigger] after[b]).key@) == -1 by {
                if b < p {
                    assert(after[a] == before[a] && after[b] == before[b]);
                } else if b == p {
                    assert(after[a] == before[a]);
                } else if a < p {
                    assert(after[a] == before[a] && after[b] == before[b - 1]);
                    lemma_cmp_trans(before[a].key@, key@, before[b - 1].key@);
                } else if a == p {
                    assert(after[b] == before[b - 1]);
                } else {
                    assert(after[a] == before[a - 1] && after[b] == before[b - 1]);
                }
            }
        }
    }
}


/// The output row of a group: its values, then one finalised cell per measure.
fn emit_row(g: &Group, plan: &QueryPlan) -> (r: Vec<Value>)
    requires
        g.states.len() == ms_of(plan).len(),
        g.values.len() == gs_of(plan).len(),
        forall|m: int| 0 <= m < g.states.len() ==> sum_bounded((#[trigger] g.states@[m])@),
    ensures
        r.len() == gs_of(plan).len() + ms_of(plan).len(),
        lead(gs_of(plan), row_view(r@)) == row_view(g.values@),
        forall|m: int| 0 <= m < ms_of(plan).len() ==> row_view(r@)[gs_of(plan).len() + m]
            == finalize_spec(kind_of(#[trigger] ms_of(plan)[m]), g.states@[m]@),
{
    let ghost ms = ms_of(plan);
    let ghost n = gs_of(plan).len();
    let mut row = copy_row(&g.values);
    assert(row@.len() == row_view(row@).len());
    assert(row_view(row@).subrange(0, n as int) =~= row_view(row@));
    let mut m: usize = 0;
    while m < plan.measures.len()
        invariant
            m <= plan.measures.len(),
            ms == ms_of(plan),
            ms.len() == plan.measures.len(),
            g.states.len() == ms.len(),
            n == g.values.len(),
            n == gs_of(plan).len(),
            forall|k: int| 0 <= k < g.states.len() ==> sum_bounded((#[trigger] g.states@[k])@),
            row.len() == n + m,
            lead(gs_of(plan), row_view(row@)) == row_view(g.values@),
            forall|k: int| 0 <= k < m ==> row_view(row@)[n + k] == finalize_spec(kind_of(#[trigger] ms[k]), g.states@[k]@),
        decreases plan.measures.len() - m,
    {
        let mm = &plan.measures[m];
        assert(ms[m as int] == mm@);
        let kind = match agg_kind(mm.agg.as_str()) {
            Some(k) => k,
            None => AggKind::Count,
        };
        let cell = measure_finalize(&g.states[m], kind);
        let ghost before = row_view(row@);
        row.push(cell);
        assert(row_view(row@) =~= before.push(cell@));
        assert(lead(gs_of(plan), row_view(row@)) =~= lead(gs_of(plan), before));
        assert forall|k: int| 0 <= k < m + 1 implies row_view(row@)[n + k] == finalize_spec(kind_of(#[trigger] ms[k]), g.states@[k]@) by {
            if k < m {
                assert(row_view(row@)[n + k] == before[n + k]);
            }
        }
        m = m + 1;
    }
    row
}

/// Groups `rows` by their group-value tuples and computes each measure per group.
/// Groups come out in ascending order of their keys.
pub fn execute_aggregation(rows: &Vec<Vec<Value>>, plan: &QueryPlan, col_index: &ColumnIndex)
    -> (r: Result<Vec<Vec<Value>>, PluginError>)
    ensures
        match r {
            Ok(out) => plan_fault(gs_of(plan), ms_of(plan), *col_index) is None
                && aggregated(rows_view(rows@), gs_of(plan), ms_of(plan), *col_index, rows_view(out@)),
            Err(e) => match plan_fault(gs_of(plan), ms_of(plan), *col_index) {
                Some(f) => error_is(e, f),
                None => false,
            },
        },
{
    let ghost gs = gs_of(plan);
    let ghost ms = ms_of(plan);
    let ghost all = rows_view(rows@);
    let res = match resolve(plan, col_index) {
        Ok(res) => res,
        Err(e) => {
            return Err(e);
        },
    };
    let mut groups: Vec<Group> = Vec::new();
    let mut i: usize = 0;
    while i < rows.len()
        invariant
            i <= rows.len(),
            all == rows_view(rows@),
            gs == gs_of(plan),
            ms == ms_of(plan),
            resolved_ok(plan, &res, *col_index),
            groups_ok(groups@, all.subrange(0, i as int), gs, ms, *col_index),
        decreases rows.len() - i,
    {
        add_row(&mut groups, &rows[i], plan, &res, col_index, Ghost(all.subrange(0, i as int)));
        assert(all.subrange(0, i + 1) =~= all.subrange(0, i as int).push(row_view(rows@[i as int]@)));
        i = i + 1;
    }
    assert(all.subrange(0, i as int) =~= all);
    let mut out: Vec<Vec<Value>> = Vec::new();
    let mut a: usize = 0;
    while a < groups.len()
        invariant
            a <= groups.len(),
            all == rows_view(rows@),
            gs == gs_of(plan),
            ms == ms_of(plan),
            groups_ok(groups@, all, gs, ms, *col_index),
            out.len() == a,
            forall|b: int| 0 <= b < a ==> {
                &&& (#[trigger] out@[b]).len() == gs.len() + ms.len()
                &&& lead(gs, row_view(out@[b]@)) == row_view(groups@[b].values@)
                &&& forall|m: int| 0 <= m < ms.len() ==> row_view(out@[b]@)[gs.len() + m]
                    == finalize_spec(kind_of(#[trigger] ms[m]), groups@[b].states@[m]@)
            },
        decreases groups.len() - a,
    {
        let g = &groups[a];
        assert(groups@[a as int] == *g);
        assert forall|m: int| 0 <= m < g.states.len() implies sum_bounded((#[trigger] g.states@[m])@) by {
            assert(g.states@[m]@ == acc(all, gs, *col_index, g.key@, ms[m]));
        }
        let row = emit_row(g, plan);
        out.push(row);
        a = a + 1;
    }
    proof {
        let ov = rows_view(out@);
        assert forall|b: int| 0 <= b < ov.len() implies lead(gs, #[trigger] ov[b]) == row_view(groups@[b].values@)
            && key_of(lead(gs, ov[b])) == groups@[b].key@ by {
            assert(ov[b] == row_view(out@[b]@));
        }
        assert forall|b: int, m: int| 0 <= b < ov.len() && 0 <= m < ms.len() implies
            (#[trigger] ov[b])[gs.len() + m] == finalize_spec(kind_of(#[trigger] ms[m]), acc(all, gs, *col_index, key_of(lead(gs, ov[b])), ms[m])) by {
            assert(ov[b] == row_view(out@[b]@));
            assert(groups@[b].states@[m]@ == acc(all, gs, *col_index, groups@[b].key@, ms[m]));
        }
        assert forall|k: int| 0 <= k < all.len() implies exists|b: int|
            0 <= b < ov.len() && key_of(lead(gs, #[trigger] ov[b])) == row_key(gs, *col_index, #[trigger] all[k]) by {
            let b = choose|b: int| 0 <= b < groups@.len() && (#[trigger] groups@[b]).key@ == row_key(gs, *col_index, all[k]);
            assert(key_of(lead(gs, ov[b])) == groups@[b].key@);
        }
        assert forall|b: int, c: int| 0 <= b < c < ov.len() implies
            chars_cmp(key_of(lead(gs, #[trigger] ov[b])), key_of(lead(gs, #[trigger] ov[c]))) == -1 by {
            assert(key_of(lead(gs, ov[b])) == groups@[b].key@);
            assert(key_of(lead(gs, ov[c])) == groups@[c].key@);
        }
        assert forall|b: int| 0 <= b < ov.len() implies (#[trigger] ov[b]).len() == gs.len() + ms.len() by {
            assert(ov[b] == row_view(out@[b]@));
        }
    }
    Ok(out)
}

} // verus!
