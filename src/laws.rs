//! Properties of the aggregation that hold of every input.
use vstd::prelude::*;
use crate::aggregation::{
    AggKind, acc, aggregated, bucket_spec, group_value, is_hierarchy, is_month_col, finalize_spec, first_with, is_count_all, kind_of, kind_spec, lead, num_or_null,
    pos, round2, round_div, row_key, tuple_of,
};
use crate::dataset::ColumnIndex;
use crate::filters::select;
use crate::group_key::{key_of, lemma_cmp_antisym, lemma_cmp_trans};
use crate::plan::{GroupColV, MeasureV};
use crate::value::{SCALE, ScalarV, ValueV, cell_at, chars_cmp, normal};

verus! {

/// A tuple recorded for a key is the tuple of some row.
proof fn lemma_first_with_row(rows: Seq<Seq<ValueV>>, gs: Seq<GroupColV>, index: ColumnIndex, key: Seq<char>)
    requires
        first_with(rows, gs, index, key) is Some,
    ensures
        exists|k: int| 0 <= k < rows.len() && row_key(gs, index, #[trigger] rows[k]) == key
            && tuple_of(gs, index, rows[k]) == first_with(rows, gs, index, key)->Some_0,
    decreases rows.len(),
{
    let r = rows.drop_last();
    if first_with(r, gs, index, key) is Some {
        lemma_first_with_row(r, gs, index, key);
        let k = choose|k: int| 0 <= k < r.len() && row_key(gs, index, #[trigger] r[k]) == key
            && tuple_of(gs, index, r[k]) == first_with(r, gs, index, key)->Some_0;
        assert(rows[k] == r[k]);
    } else {
        assert(rows[rows.len() - 1] == rows.last());
    }
}

/// Some row of `rows` has group-value tuple `t`.
pub open spec fn tuple_seen(rows: Seq<Seq<ValueV>>, gs: Seq<GroupColV>, index: ColumnIndex, t: Seq<ValueV>) -> bool {
    exists|k: int| 0 <= k < rows.len() && #[trigger] tuple_of(gs, index, rows[k]) == t
}

/// The output rows of an aggregation have pairwise distinct group-value tuples,
/// and each one's leading cells are the tuple of some input row.
pub proof fn lemma_group_tuples_distinct(
    rows: Seq<Seq<ValueV>>,
    gs: Seq<GroupColV>,
    ms: Seq<MeasureV>,
    index: ColumnIndex,
    out: Seq<Seq<ValueV>>,
)
    requires
        aggregated(rows, gs, ms, index, out),
    ensures
        forall|a: int, b: int| 0 <= a < out.len() && 0 <= b < out.len() && a != b
            ==> lead(gs, #[trigger] out[a]) != lead(gs, #[trigger] out[b]),
        forall|a: int| 0 <= a < out.len() ==> tuple_seen(rows, gs, index, lead(gs, #[trigger] out[a])),
{
    assert forall|a: int, b: int| 0 <= a < out.len() && 0 <= b < out.len() && a != b
        implies lead(gs, #[trigger] out[a]) != lead(gs, #[trigger] out[b]) by {
        if a < b {
            assert(chars_cmp(key_of(lead(gs, out[a])), key_of(lead(gs, out[b]))) == -1);
            lemma_cmp_antisym(key_of(lead(gs, out[a])), key_of(lead(gs, out[b])));
        } else {
            assert(chars_cmp(key_of(lead(gs, out[b])), key_of(lead(gs, out[a]))) == -1);
            lemma_cmp_antisym(key_of(lead(gs, out[b])), key_of(lead(gs, out[a])));
        }
    }
    assert forall|a: int| 0 <= a < out.len() implies tuple_seen(rows, gs, index, lead(gs, #[trigger] out[a])) by {
        let key = key_of(lead(gs, out[a]));
        assert(first_with(rows, gs, index, key) == Some(lead(gs, out[a])));
        lemma_first_with_row(rows, gs, index, key);
        let k = choose|k: int| 0 <= k < rows.len() && row_key(gs, index, #[trigger] rows[k]) == key
            && tuple_of(gs, index, rows[k]) == first_with(rows, gs, index, key)->Some_0;
        assert(tuple_of(gs, index, rows[k]) == lead(gs, out[a]));
    }
}

/// How many of `keys` equal `k`.
pub open spec fn occurrences(keys: Seq<Seq<char>>, k: Seq<char>) -> nat
    decreases keys.len(),
{
    if keys.len() == 0 {
        0
    } else {
        occurrences(keys.drop_last(), k) + if keys.last() == k { 1nat } else { 0nat }
    }
}

/// The counts of measure `m` summed over the groups with keys `keys`.
pub open spec fn count_sum(
    rows: Seq<Seq<ValueV>>,
    gs: Seq<GroupColV>,
    index: ColumnIndex,
    keys: Seq<Seq<char>>,
    m: MeasureV,
) -> nat
    decreases keys.len(),
{
    if keys.len() == 0 {
        0
    } else {
        count_sum(rows, gs, index, keys.drop_last(), m) + acc(rows, gs, index, keys.last(), m).count
    }
}

/// The keys of the output rows, in order.
pub open spec fn out_keys(gs: Seq<GroupColV>, out: Seq<Seq<ValueV>>) -> Seq<Seq<char>> {
    out.map_values(|o: Seq<ValueV>| key_of(lead(gs, o)))
}

proof fn lemma_occurs_once(keys: Seq<Seq<char>>, k: Seq<char>)
    requires
        forall|a: int, b: int| 0 <= a < keys.len() && 0 <= b < keys.len() && a != b ==> keys[a] != keys[b],
        keys.contains(k),
    ensures
        occurrences(keys, k) == 1,
    decreases keys.len(),
{
    let r = keys.drop_last();
    if keys.last() == k {
        lemma_occurs_none(r, k, keys);
    } else {
        let i = choose|i: int| 0 <= i < keys.len() && keys[i] == k;
        assert(r[i] == k);
        lemma_occurs_once(r, k);
    }
}

proof fn lemma_occurs_none(r: Seq<Seq<char>>, k: Seq<char>, keys: Seq<Seq<char>>)
    requires
        keys.len() == r.len() + 1,
        forall|i: int| 0 <= i < r.len() ==> r[i] == keys[i],
        keys.last() == k,
        forall|a: int, b: int| 0 <= a < keys.len() && 0 <= b < keys.len() && a != b ==> keys[a] != keys[b],
    ensures
        occurrences(r, k) == 0,
    decreases r.len(),
{
    if r.len() > 0 {
        assert(r.last() == keys[r.len() - 1]);
        let keys2 = keys.drop_last().drop_last().push(k);
        assert forall|i: int| 0 <= i < r.drop_last().len() implies r.drop_last()[i] == keys2[i] by {}
        assert forall|a: int, b: int| 0 <= a < keys2.len() && 0 <= b < keys2.len() && a != b implies keys2[a] != keys2[b] by {
            let a2 = if a == keys2.len() - 1 { keys.len() - 1 } else { a };
            let b2 = if b == keys2.len() - 1 { keys.len() - 1 } else { b };
            assert(keys2[a] == keys[a2]);
            assert(keys2[b] == keys[b2]);
        }
        lemma_occurs_none(r.drop_last(), k, keys2);
    }
}

proof fn lemma_count_sum_step(
    rows: Seq<Seq<ValueV>>,
    row: Seq<ValueV>,
    gs: Seq<GroupColV>,
    index: ColumnIndex,
    keys: Seq<Seq<char>>,
    m: MeasureV,
)
    requires
        is_count_all(m),
    ensures
        count_sum(rows.push(row), gs, index, keys, m)
            == count_sum(rows, gs, index, keys, m) + occurrences(keys, row_key(gs, index, row)),
    decreases keys.len(),
{
    assert(rows.push(row).drop_last() =~= rows);
    assert(rows.push(row).last() == row);
    if keys.len() > 0 {
        lemma_count_sum_step(rows, row, gs, index, keys.drop_last(), m);
        let k = keys.last();
        assert(kind_spec(m.agg) == Some(AggKind::Count));
        assert(acc(rows.push(row), gs, index, k, m).count
            == acc(rows, gs, index, k, m).count + if row_key(gs, index, row) == k { 1nat } else { 0nat });
        assert(count_sum(rows.push(row), gs, index, keys, m)
            == count_sum(rows.push(row), gs, index, keys.drop_last(), m) + acc(rows.push(row), gs, index, k, m).count);
        assert(count_sum(rows, gs, index, keys, m)
            == count_sum(rows, gs, index, keys.drop_last(), m) + acc(rows, gs, index, k, m).count);
        assert(occurrences(keys, row_key(gs, index, row))
            == occurrences(keys.drop_last(), row_key(gs, index, row)) + if k == row_key(gs, index, row) { 1nat } else { 0nat });
    }
}

proof fn lemma_count_sum_total(
    rows: Seq<Seq<ValueV>>,
    gs: Seq<GroupColV>,
    index: ColumnIndex,
    keys: Seq<Seq<char>>,
    m: MeasureV,
)
    requires
        is_count_all(m),
        forall|a: int, b: int| 0 <= a < keys.len() && 0 <= b < keys.len() && a != b ==> keys[a] != keys[b],
        forall|k: int| 0 <= k < rows.len() ==> keys.contains(row_key(gs, index, #[trigger] rows[k])),
    ensures
        count_sum(rows, gs, index, keys, m) == rows.len(),
    decreases rows.len(),
{
    if rows.len() == 0 {
        assert(rows =~= Seq::<Seq<ValueV>>::empty());
        lemma_count_sum_empty(gs, index, keys, m);
    } else {
        let r = rows.drop_last();
        assert forall|k: int| 0 <= k < r.len() implies keys.contains(row_key(gs, index, #[trigger] r[k])) by {
            assert(r[k] == rows[k]);
        }
        lemma_count_sum_total(r, gs, index, keys, m);
        assert(r.push(rows.last()) =~= rows);
        lemma_count_sum_step(r, rows.last(), gs, index, keys, m);
        assert(keys.contains(row_key(gs, index, rows[rows.len() - 1])));
        lemma_occurs_once(keys, row_key(gs, index, rows.last()));
    }
}

proof fn lemma_count_sum_empty(gs: Seq<GroupColV>, index: ColumnIndex, keys: Seq<Seq<char>>, m: MeasureV)
    ensures
        count_sum(Seq::empty(), gs, index, keys, m) == 0,
    decreases keys.len(),
{
    if keys.len() > 0 {
        lemma_count_sum_empty(gs, index, keys.drop_last(), m);
    }
}

/// The `count(*)` accumulators of all output groups add up to the number of input rows.
pub proof fn lemma_count_all_total(
    rows: Seq<Seq<ValueV>>,
    gs: Seq<GroupColV>,
    ms: Seq<MeasureV>,
    index: ColumnIndex,
    out: Seq<Seq<ValueV>>,
    m: int,
)
    requires
        aggregated(rows, gs, ms, index, out),
        0 <= m < ms.len(),
        is_count_all(ms[m]),
    ensures
        count_sum(rows, gs, index, out_keys(gs, out), ms[m]) == rows.len(),
{
    let keys = out_keys(gs, out);
    assert forall|a: int, b: int| 0 <= a < keys.len() && 0 <= b < keys.len() && a != b implies keys[a] != keys[b] by {
        if a < b {
            lemma_cmp_antisym(key_of(lead(gs, out[a])), key_of(lead(gs, out[b])));
        } else {
            lemma_cmp_antisym(key_of(lead(gs, out[b])), key_of(lead(gs, out[a])));
        }
    }
    assert forall|k: int| 0 <= k < rows.len() implies keys.contains(row_key(gs, index, #[trigger] rows[k])) by {
        let a = choose|a: int| 0 <= a < out.len() && key_of(lead(gs, #[trigger] out[a])) == row_key(gs, index, rows[k]);
        assert(keys[a] == row_key(gs, index, rows[k]));
    }
    lemma_count_sum_total(rows, gs, index, keys, ms[m]);
}

/// The numeric value a cell holds, if any.
pub open spec fn numeric(v: ValueV) -> Option<int> {
    match normal(v) {
        ValueV::Scalar(ScalarV::Num(n)) => Some(n),
        _ => None,
    }
}

/// The sum of the numeric cells at `idx` over `rows`; other cells add nothing.
pub open spec fn numeric_sum(rows: Seq<Seq<ValueV>>, idx: int) -> int
    decreases rows.len(),
{
    if rows.len() == 0 {
        0
    } else {
        numeric_sum(rows.drop_last(), idx) + match numeric(cell_at(rows.last(), idx)) {
            Some(n) => n,
            None => 0,
        }
    }
}

/// How many cells at `idx` over `rows` are numeric.
pub open spec fn numeric_count(rows: Seq<Seq<ValueV>>, idx: int) -> nat
    decreases rows.len(),
{
    if rows.len() == 0 {
        0
    } else {
        numeric_count(rows.drop_last(), idx) + if numeric(cell_at(rows.last(), idx)) is Some { 1nat } else { 0nat }
    }
}

/// The rows whose key is `key`.
pub open spec fn rows_with_key(rows: Seq<Seq<ValueV>>, gs: Seq<GroupColV>, index: ColumnIndex, key: Seq<char>) -> Seq<Seq<ValueV>> {
    select(rows, |r: Seq<ValueV>| row_key(gs, index, r) == key)
}

proof fn lemma_numeric_acc(rows: Seq<Seq<ValueV>>, gs: Seq<GroupColV>, index: ColumnIndex, key: Seq<char>, m: MeasureV)
    requires
        kind_spec(m.agg) is Some,
        kind_spec(m.agg) != Some(AggKind::Count),
    ensures
        acc(rows, gs, index, key, m).sum == numeric_sum(rows_with_key(rows, gs, index, key), pos(index, m.id)),
        acc(rows, gs, index, key, m).count == numeric_count(rows_with_key(rows, gs, index, key), pos(index, m.id)),
    decreases rows.len(),
{
    if rows.len() > 0 {
        lemma_numeric_acc(rows.drop_last(), gs, index, key, m);
        let p = |r: Seq<ValueV>| row_key(gs, index, r) == key;
        if p(rows.last()) {
            let s = select(rows.drop_last(), p).push(rows.last());
            assert(s.drop_last() =~= select(rows.drop_last(), p));
        }
    }
}

/// A `sum` cell is the rounded sum of the numeric values among the group's rows;
/// an `avg` cell is that sum over the number of numeric values, rounded, or zero
/// where there are none.
pub proof fn lemma_sum_and_avg(
    rows: Seq<Seq<ValueV>>,
    gs: Seq<GroupColV>,
    ms: Seq<MeasureV>,
    index: ColumnIndex,
    out: Seq<Seq<ValueV>>,
    a: int,
    m: int,
)
    requires
        aggregated(rows, gs, ms, index, out),
        0 <= a < out.len(),
        0 <= m < ms.len(),
        kind_spec(ms[m].agg) == Some(AggKind::Sum) || kind_spec(ms[m].agg) == Some(AggKind::Avg),
    ensures
        ({
            let g = rows_with_key(rows, gs, index, key_of(lead(gs, out[a])));
            let total = numeric_sum(g, pos(index, ms[m].id));
            let n = numeric_count(g, pos(index, ms[m].id));
            out[a][gs.len() + m] == if kind_spec(ms[m].agg) == Some(AggKind::Sum) {
                num_or_null(round2(total))
            } else if n > 0 {
                num_or_null(round_div(total, (n * 10000) as int) * 10000)
            } else {
                ValueV::Scalar(ScalarV::Num(0))
            }
        }),
{
    lemma_numeric_acc(rows, gs, index, key_of(lead(gs, out[a])), ms[m]);
    assert(out[a][gs.len() + m] == finalize_spec(kind_of(ms[m]), acc(rows, gs, index, key_of(lead(gs, out[a])), ms[m])));
}

proof fn lemma_sorted_equal(s1: Seq<Seq<char>>, s2: Seq<Seq<char>>)
    requires
        forall|a: int, b: int| 0 <= a < b < s1.len() ==> chars_cmp(#[trigger] s1[a], #[trigger] s1[b]) == -1,
        forall|a: int, b: int| 0 <= a < b < s2.len() ==> chars_cmp(#[trigger] s2[a], #[trigger] s2[b]) == -1,
        forall|x: Seq<char>| s1.contains(x) <==> s2.contains(x),
    ensures
        s1 == s2,
    decreases s1.len(),
{
    if s1.len() == 0 || s2.len() == 0 {
        if s1.len() > 0 {
            assert(s1.contains(s1[0]));
        }
        if s2.len() > 0 {
            assert(s2.contains(s2[0]));
        }
        assert(s1 =~= s2);
    } else {
        assert(s1.contains(s1[0]));
        assert(s2.contains(s2[0]));
        let j = choose|j: int| 0 <= j < s2.len() && s2[j] == s1[0];
        let k = choose|k: int| 0 <= k < s1.len() && s1[k] == s2[0];
        if j > 0 && k > 0 {
            lemma_cmp_trans(s2[0], s2[j], s1[k]);
            lemma_cmp_antisym(s2[0], s1[k]);
        }
        if j > 0 && k == 0 {
            lemma_cmp_antisym(s2[0], s2[j]);
        }
        if k > 0 && j == 0 {
            lemma_cmp_antisym(s1[0], s1[k]);
        }
        assert(s1[0] == s2[0]);
        let t1 = s1.drop_first();
        let t2 = s2.drop_first();
        assert forall|x: Seq<char>| t1.contains(x) <==> t2.contains(x) by {
            if t1.contains(x) {
                let i = choose|i: int| 0 <= i < t1.len() && t1[i] == x;
                assert(s1[i + 1] == x);
                assert(s2.contains(x));
                let i2 = choose|i2: int| 0 <= i2 < s2.len() && s2[i2] == x;
                if i2 == 0 {
                    lemma_cmp_antisym(s1[0], s1[i + 1]);
                }
                assert(t2[i2 - 1] == x);
            }
            if t2.contains(x) {
                let i = choose|i: int| 0 <= i < t2.len() && t2[i] == x;
                assert(s2[i + 1] == x);
                assert(s1.contains(x));
                let i1 = choose|i1: int| 0 <= i1 < s1.len() && s1[i1] == x;
                if i1 == 0 {
                    lemma_cmp_antisym(s2[0], s2[i + 1]);
                }
                assert(t1[i1 - 1] == x);
            }
        }
        assert forall|a: int, b: int| 0 <= a < b < t1.len() implies chars_cmp(#[trigger] t1[a], #[trigger] t1[b]) == -1 by {
            assert(t1[a] == s1[a + 1] && t1[b] == s1[b + 1]);
        }
        assert forall|a: int, b: int| 0 <= a < b < t2.len() implies chars_cmp(#[trigger] t2[a], #[trigger] t2[b]) == -1 by {
            assert(t2[a] == s2[a + 1] && t2[b] == s2[b + 1]);
        }
        lemma_sorted_equal(t1, t2);
        assert(s1 =~= seq![s1[0]] + t1);
        assert(s2 =~= seq![s2[0]] + t2);
    }
}

/// An aggregation is determined by its input: two results for the same rows and
/// plan are equal, row for row and cell for cell.
pub proof fn lemma_aggregation_unique(
    rows: Seq<Seq<ValueV>>,
    gs: Seq<GroupColV>,
    ms: Seq<MeasureV>,
    index: ColumnIndex,
    out1: Seq<Seq<ValueV>>,
    out2: Seq<Seq<ValueV>>,
)
    requires
        aggregated(rows, gs, ms, index, out1),
        aggregated(rows, gs, ms, index, out2),
    ensures
        out1 == out2,
{
    let k1 = out_keys(gs, out1);
    let k2 = out_keys(gs, out2);
    assert forall|x: Seq<char>| k1.contains(x) implies k2.contains(x) by {
        let a = choose|a: int| 0 <= a < k1.len() && k1[a] == x;
        assert(first_with(rows, gs, index, key_of(lead(gs, out1[a]))) == Some(lead(gs, out1[a])));
        lemma_first_with_row(rows, gs, index, x);
        let k = choose|k: int| 0 <= k < rows.len() && row_key(gs, index, #[trigger] rows[k]) == x
            && tuple_of(gs, index, rows[k]) == first_with(rows, gs, index, x)->Some_0;
        let b = choose|b: int| 0 <= b < out2.len() && key_of(lead(gs, #[trigger] out2[b])) == row_key(gs, index, rows[k]);
        assert(k2[b] == x);
    }
    assert forall|x: Seq<char>| k2.contains(x) implies k1.contains(x) by {
        let a = choose|a: int| 0 <= a < k2.len() && k2[a] == x;
        assert(first_with(rows, gs, index, key_of(lead(gs, out2[a]))) == Some(lead(gs, out2[a])));
        lemma_first_with_row(rows, gs, index, x);
        let k = choose|k: int| 0 <= k < rows.len() && row_key(gs, index, #[trigger] rows[k]) == x
            && tuple_of(gs, index, rows[k]) == first_with(rows, gs, index, x)->Some_0;
        let b = choose|b: int| 0 <= b < out1.len() && key_of(lead(gs, #[trigger] out1[b])) == row_key(gs, index, rows[k]);
        assert(k1[b] == x);
    }
    assert forall|a: int, b: int| 0 <= a < b < k1.len() implies chars_cmp(#[trigger] k1[a], #[trigger] k1[b]) == -1 by {
        assert(chars_cmp(key_of(lead(gs, out1[a])), key_of(lead(gs, out1[b]))) == -1);
    }
    assert forall|a: int, b: int| 0 <= a < b < k2.len() implies chars_cmp(#[trigger] k2[a], #[trigger] k2[b]) == -1 by {
        assert(chars_cmp(key_of(lead(gs, out2[a])), key_of(lead(gs, out2[b]))) == -1);
    }
    lemma_sorted_equal(k1, k2);
    assert forall|a: int| 0 <= a < out1.len() implies out1[a] == out2[a] by {
        assert(k1[a] == k2[a]);
        let key = k1[a];
        assert(first_with(rows, gs, index, key_of(lead(gs, out1[a]))) == Some(lead(gs, out1[a])));
        assert(first_with(rows, gs, index, key_of(lead(gs, out2[a]))) == Some(lead(gs, out2[a])));
        assert(lead(gs, out1[a]) == lead(gs, out2[a]));
        assert forall|i: int| 0 <= i < out1[a].len() implies out1[a][i] == out2[a][i] by {
            if i < gs.len() {
                assert(lead(gs, out1[a])[i] == out1[a][i]);
                assert(lead(gs, out2[a])[i] == out2[a][i]);
            } else {
                let m = i - gs.len();
                assert(out1[a][gs.len() + m] == finalize_spec(kind_of(ms[m]), acc(rows, gs, index, key_of(lead(gs, out1[a])), ms[m])));
                assert(out2[a][gs.len() + m] == finalize_spec(kind_of(ms[m]), acc(rows, gs, index, key_of(lead(gs, out2[a])), ms[m])));
            }
        }
        assert(out1[a] =~= out2[a]);
    }
    assert(out1 =~= out2);
}


/// A one-element list whose member is itself a one-element list: collapsing
/// for output unwraps such a cell one level further than grouping did.
pub open spec fn doubly_wrapped(v: ValueV) -> bool {
    match v {
        ValueV::List(l) => l.len() == 1 && match l[0] {
            ValueV::List(m) => m.len() == 1,
            _ => false,
        },
        _ => false,
    }
}

pub open spec fn is_string(v: ValueV) -> bool {
    match v {
        ValueV::Scalar(ScalarV::Str(_)) => true,
        _ => false,
    }
}

/// The forms a group value can take: in a hierarchy column a one-string list or
/// a normal value that is no string; elsewhere a normal value.
pub open spec fn group_value_form(g: GroupColV, v: ValueV) -> bool {
    if is_hierarchy(g.col_type) {
        (match v {
            ValueV::List(l) => l.len() == 1 && is_string(l[0]),
            _ => false,
        }) || (normal(v) == v && !is_string(v))
    } else {
        normal(v) == v
    }
}

proof fn lemma_group_value_form(g: GroupColV, idx: int, row: Seq<ValueV>)
    requires
        !doubly_wrapped(cell_at(row, idx)),
    ensures
        group_value_form(g, group_value(g, idx, row)),
{
    let v = normal(cell_at(row, idx));
    assert(normal(v) == v);
    let b = if is_month_col(g) { bucket_spec(v) } else { v };
    assert(normal(b) == b);
}

proof fn lemma_collapse_injective(g: GroupColV, v1: ValueV, v2: ValueV)
    requires
        group_value_form(g, v1),
        group_value_form(g, v2),
        normal(v1) == normal(v2),
    ensures
        v1 == v2,
{
    if is_hierarchy(g.col_type) {
        match (v1, v2) {
            (ValueV::List(l1), ValueV::List(l2)) => {
                if l1.len() == 1 && l2.len() == 1 {
                    assert(l1 =~= l2);
                }
            },
            (ValueV::List(l1), _) => {},
            (_, ValueV::List(l2)) => {},
            _ => {},
        }
    }
}

/// The group values of distinct output rows stay distinct once one-element
/// lists are collapsed for output, unless a cell was a doubly wrapped list.
pub proof fn lemma_collapsed_groups_distinct(
    rows: Seq<Seq<ValueV>>,
    gs: Seq<GroupColV>,
    ms: Seq<MeasureV>,
    index: ColumnIndex,
    out: Seq<Seq<ValueV>>,
)
    requires
        aggregated(rows, gs, ms, index, out),
        forall|k: int, i: int| 0 <= k < rows.len() && 0 <= i < rows[k].len() ==> !doubly_wrapped(#[trigger] rows[k][i]),
    ensures
        forall|a: int, b: int| 0 <= a < out.len() && 0 <= b < out.len() && a != b
            ==> lead(gs, out[a]).map_values(|c: ValueV| normal(c)) != lead(gs, out[b]).map_values(|c: ValueV| normal(c)),
{
    lemma_group_tuples_distinct(rows, gs, ms, index, out);
    assert forall|a: int, b: int| 0 <= a < out.len() && 0 <= b < out.len() && a != b
        implies lead(gs, out[a]).map_values(|c: ValueV| normal(c)) != lead(gs, out[b]).map_values(|c: ValueV| normal(c)) by {
        assert(tuple_seen(rows, gs, index, lead(gs, out[a])));
        assert(tuple_seen(rows, gs, index, lead(gs, out[b])));
        let ka = choose|k: int| 0 <= k < rows.len() && #[trigger] tuple_of(gs, index, rows[k]) == lead(gs, out[a]);
        let kb = choose|k: int| 0 <= k < rows.len() && #[trigger] tuple_of(gs, index, rows[k]) == lead(gs, out[b]);
        let ta = lead(gs, out[a]);
        let tb = lead(gs, out[b]);
        if ta.map_values(|c: ValueV| normal(c)) == tb.map_values(|c: ValueV| normal(c)) {
            assert forall|j: int| 0 <= j < gs.len() implies ta[j] == tb[j] by {
                lemma_group_value_form(gs[j], pos(index, gs[j].id), rows[ka]);
                lemma_group_value_form(gs[j], pos(index, gs[j].id), rows[kb]);
                assert(ta[j] == tuple_of(gs, index, rows[ka])[j]);
                assert(tb[j] == tuple_of(gs, index, rows[kb])[j]);
                assert(ta.map_values(|c: ValueV| normal(c))[j] == normal(ta[j]));
                assert(tb.map_values(|c: ValueV| normal(c))[j] == normal(tb[j]));
                lemma_collapse_injective(gs[j], ta[j], tb[j]);
            }
            assert(ta =~= tb);
        }
    }
}


/// The numbers in column `col` of `out`, added up; other cells add nothing.
pub open spec fn column_total(out: Seq<Seq<ValueV>>, col: int) -> int
    decreases out.len(),
{
    if out.len() == 0 {
        0
    } else {
        column_total(out.drop_last(), col) + match out.last()[col] {
            ValueV::Scalar(ScalarV::Num(n)) => n,
            _ => 0,
        }
    }
}

proof fn lemma_column_total_counts(
    rows: Seq<Seq<ValueV>>,
    gs: Seq<GroupColV>,
    index: ColumnIndex,
    o: Seq<Seq<ValueV>>,
    col: int,
    m: MeasureV,
)
    requires
        forall|a: int| 0 <= a < o.len() ==> (#[trigger] o[a])[col]
            == ValueV::Scalar(ScalarV::Num(acc(rows, gs, index, key_of(lead(gs, o[a])), m).count * (SCALE as int))),
    ensures
        column_total(o, col) == count_sum(rows, gs, index, out_keys(gs, o), m) * (SCALE as int),
    decreases o.len(),
{
    if o.len() > 0 {
        let p = o.drop_last();
        assert forall|a: int| 0 <= a < p.len() implies (#[trigger] p[a])[col]
            == ValueV::Scalar(ScalarV::Num(acc(rows, gs, index, key_of(lead(gs, p[a])), m).count * (SCALE as int))) by {
            assert(p[a] == o[a]);
        }
        lemma_column_total_counts(rows, gs, index, p, col, m);
        assert(out_keys(gs, o).drop_last() =~= out_keys(gs, p));
        assert(o.last() == o[o.len() - 1]);
        assert(out_keys(gs, o).last() == key_of(lead(gs, o.last())));
        let c = acc(rows, gs, index, key_of(lead(gs, o.last())), m).count as int;
        assert(count_sum(rows, gs, index, out_keys(gs, o), m) == count_sum(rows, gs, index, out_keys(gs, p), m) + c);
        assert((count_sum(rows, gs, index, out_keys(gs, p), m) + c) * (SCALE as int)
            == count_sum(rows, gs, index, out_keys(gs, p), m) * (SCALE as int) + c * (SCALE as int)) by (nonlinear_arith);
    }
}

/// The `count(*)` cells of an aggregation add up to the number of input rows
/// (in millionths), wherever no count outgrew the number range.
pub proof fn lemma_count_all_cells_total(
    rows: Seq<Seq<ValueV>>,
    gs: Seq<GroupColV>,
    ms: Seq<MeasureV>,
    index: ColumnIndex,
    out: Seq<Seq<ValueV>>,
    m: int,
)
    requires
        aggregated(rows, gs, ms, index, out),
        0 <= m < ms.len(),
        is_count_all(ms[m]),
        forall|a: int| 0 <= a < out.len() ==> (#[trigger] out[a])[gs.len() + m] != ValueV::Scalar(ScalarV::Null),
    ensures
        column_total(out, gs.len() + m) == rows.len() * (SCALE as int),
{
    assert(kind_of(ms[m]) == AggKind::Count);
    assert forall|a: int| 0 <= a < out.len() implies (#[trigger] out[a])[gs.len() + m]
        == ValueV::Scalar(ScalarV::Num(acc(rows, gs, index, key_of(lead(gs, out[a])), ms[m]).count * (SCALE as int))) by {
        assert(out[a][gs.len() + m] == finalize_spec(kind_of(ms[m]), acc(rows, gs, index, key_of(lead(gs, out[a])), ms[m])));
    }
    lemma_column_total_counts(rows, gs, index, out, gs.len() + m, ms[m]);
    lemma_count_all_total(rows, gs, ms, index, out, m);
}

} // verus!
