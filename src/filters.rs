//! Sequential, conjunctive predicate filters over a row set.
use vstd::prelude::*;
use crate::dataset::ColumnIndex;
use crate::errors::PluginError;
use crate::types::{FilterExpr, FilterV, filters_view};
use crate::value::{
    Scalar, ScalarV, Value, ValueV, cell_at, cell_of, chars_cmp, compare_str, contains_folded,
    copy_value, is_null, is_substring, normal, normalize_value, row_view, rows_view, scalar_eq,
    str_eq, value_eq, value_is_null,
};

verus! {

/// The canonical filter operators.
#[derive(Debug, Clone, Copy, PartialEq, Eq)]
pub enum FilterOp {
    Gt,
    Ge,
    Lt,
    Le,
    Eq,
    Ne,
    In,
    Contains,
    IsNull,
    IsNotNull,
    /// An operator outside the known set; such a filter keeps every row.
    Unknown,
}

/// What `str::trim` leaves of a string.
pub uninterp spec fn trimmed(s: Seq<char>) -> Seq<char>;

/// What `str::to_lowercase` makes of a string.
pub uninterp spec fn lower_of(s: Seq<char>) -> Seq<char>;

/// A printable ASCII character other than the space; never whitespace.
pub open spec fn is_visible_ascii(c: char) -> bool {
    '!' <= c && c <= '~'
}

/// Relies on `str::trim`: the string without leading and trailing whitespace.
/// A string that neither starts nor ends with whitespace comes back unchanged.
#[verifier::external_body]
fn trim_str(s: &str) -> (r: &str)
    ensures
        r@ == trimmed(s@),
        s@.len() == 0 ==> r@.len() == 0,
        s@.len() > 0 && is_visible_ascii(s@[0]) && is_visible_ascii(s@.last()) ==> r@ == s@,
{
    s.trim()
}

/// Relies on `str::to_lowercase`: the lowercase form, which depends on the characters alone.
#[verifier::external_body]
fn lowercase(s: &str) -> (r: String)
    ensures
        r@ == lower_of(s@),
{
    s.to_lowercase()
}

/// The canonical operator for an operator text, synonyms included.
pub open spec fn op_spec(t: Seq<char>) -> FilterOp {
    if t == ">"@ || t == "greater_than"@ {
        FilterOp::Gt
    } else if t == ">="@ || t == "greater_than_or_equal"@ {
        FilterOp::Ge
    } else if t == "<"@ || t == "less_than"@ {
        FilterOp::Lt
    } else if t == "<="@ || t == "less_than_or_equal"@ {
        FilterOp::Le
    } else if t == "="@ || t == "=="@ || t == "equal"@ {
        FilterOp::Eq
    } else if t == "!="@ || t == "!=="@ || t == "not_equal"@ {
        FilterOp::Ne
    } else if t == "in"@ {
        FilterOp::In
    } else if t == "contains"@ || t == "like"@ {
        FilterOp::Contains
    } else if t == "is missing"@ || t == "is null"@ {
        FilterOp::IsNull
    } else if t == "is not missing"@ || t == "is not null"@ {
        FilterOp::IsNotNull
    } else {
        FilterOp::Unknown
    }
}

/// The canonical operator for an already trimmed operator text.
pub fn canonical_op(t: &str) -> (r: FilterOp)
    ensures
        r == op_spec(t@),
{
    if str_eq(t, ">") || str_eq(t, "greater_than") {
        FilterOp::Gt
    } else if str_eq(t, ">=") || str_eq(t, "greater_than_or_equal") {
        FilterOp::Ge
    } else if str_eq(t, "<") || str_eq(t, "less_than") {
        FilterOp::Lt
    } else if str_eq(t, "<=") || str_eq(t, "less_than_or_equal") {
        FilterOp::Le
    } else if str_eq(t, "=") || str_eq(t, "==") || str_eq(t, "equal") {
        FilterOp::Eq
    } else if str_eq(t, "!=") || str_eq(t, "!==") || str_eq(t, "not_equal") {
        FilterOp::Ne
    } else if str_eq(t, "in") {
        FilterOp::In
    } else if str_eq(t, "contains") || str_eq(t, "like") {
        FilterOp::Contains
    } else if str_eq(t, "is missing") || str_eq(t, "is null") {
        FilterOp::IsNull
    } else if str_eq(t, "is not missing") || str_eq(t, "is not null") {
        FilterOp::IsNotNull
    } else {
        FilterOp::Unknown
    }
}

/// The operator of a filter: absent stays absent, text is trimmed and canonicalised.
pub fn normalize_op(op: Option<&str>) -> (r: Option<FilterOp>)
    ensures
        match op {
            Some(t) => {
                &&& r == Some(op_spec(trimmed(t@)))
                &&& t@.len() > 0 && is_visible_ascii(t@[0]) && is_visible_ascii(t@.last()) ==> r == Some(op_spec(t@))
            },
            None => r is None,
        },
{
    match op {
        Some(t) => Some(canonical_op(trim_str(t))),
        None => None,
    }
}

/// Three-way order of two values: numbers by magnitude, strings lexicographically,
/// anything else unordered.
pub open spec fn order_spec(a: ValueV, b: ValueV) -> Option<int> {
    match (a, b) {
        (ValueV::Scalar(ScalarV::Num(x)), ValueV::Scalar(ScalarV::Num(y))) =>
            Some(if x < y { -1 } else if x > y { 1 } else { 0 }),
        (ValueV::Scalar(ScalarV::Str(x)), ValueV::Scalar(ScalarV::Str(y))) => Some(chars_cmp(x, y)),
        _ => None,
    }
}

fn order(a: &Value, b: &Value) -> (r: Option<i8>)
    ensures
        match r {
            Some(k) => order_spec(a@, b@) == Some(k as int),
            None => order_spec(a@, b@) is None,
        },
{
    match (a, b) {
        (Value::Scalar(Scalar::Num(x)), Value::Scalar(Scalar::Num(y))) =>
            Some(if *x < *y { -1 } else if *x > *y { 1 } else { 0 }),
        (Value::Scalar(Scalar::Str(x)), Value::Scalar(Scalar::Str(y))) =>
            Some(compare_str(x.as_str(), y.as_str())),
        _ => None,
    }
}

fn cmp_gt(a: &Value, b: &Value) -> (r: bool)
    ensures
        r == (order_spec(a@, b@) == Some(1int)),
{
    match order(a, b) {
        Some(k) => k == 1,
        None => false,
    }
}

fn cmp_ge(a: &Value, b: &Value) -> (r: bool)
    ensures
        r == (order_spec(a@, b@) == Some(1int) || order_spec(a@, b@) == Some(0int)),
{
    match order(a, b) {
        Some(k) => k == 1 || k == 0,
        None => false,
    }
}

fn cmp_lt(a: &Value, b: &Value) -> (r: bool)
    ensures
        r == (order_spec(a@, b@) == Some(-1int)),
{
    match order(a, b) {
        Some(k) => k == -1,
        None => false,
    }
}

fn cmp_le(a: &Value, b: &Value) -> (r: bool)
    ensures
        r == (order_spec(a@, b@) == Some(-1int) || order_spec(a@, b@) == Some(0int)),
{
    match order(a, b) {
        Some(k) => k == -1 || k == 0,
        None => false,
    }
}

/// The values a literal stands for under `in`: a list's members, or a lone value,
/// each normalised.
pub open spec fn literal_set(lit: ValueV) -> Seq<ValueV> {
    match lit {
        ValueV::List(l) => Seq::new(l.len(), |i: int| normal(l[i])),
        _ => seq![normal(lit)],
    }
}

/// The text searched for under `contains`: a string literal, else empty.
pub open spec fn needle_of(lit: ValueV) -> Seq<char> {
    match lit {
        ValueV::Scalar(ScalarV::Str(s)) => s,
        _ => Seq::empty(),
    }
}

/// The literal a comparison uses: normalised, an absent one reading as null.
pub open spec fn operand(lit: Option<ValueV>) -> ValueV {
    match lit {
        Some(v) => normal(v),
        None => ValueV::Scalar(ScalarV::Null),
    }
}

/// Whether a cell passes operator `op` against literal `lit`.
pub open spec fn cell_passes(op: FilterOp, lit: Option<ValueV>, cell: ValueV) -> bool {
    let c = normal(cell);
    let v = operand(lit);
    match op {
        FilterOp::Gt => order_spec(c, v) == Some(1int),
        FilterOp::Ge => order_spec(c, v) == Some(1int) || order_spec(c, v) == Some(0int),
        FilterOp::Lt => order_spec(c, v) == Some(-1int),
        FilterOp::Le => order_spec(c, v) == Some(-1int) || order_spec(c, v) == Some(0int),
        FilterOp::Eq => c == v,
        FilterOp::Ne => c != v,
        FilterOp::In => match lit {
            None => true,
            Some(l) => literal_set(l).contains(c),
        },
        FilterOp::Contains => match c {
            ValueV::Scalar(ScalarV::Str(s)) => is_substring(lower_of(needle_of(v)), lower_of(s)),
            _ => false,
        },
        FilterOp::IsNull => is_null(c),
        FilterOp::IsNotNull => !is_null(c),
        FilterOp::Unknown => true,
    }
}

/// The column a filter refers to: `column_id`, else `id`, else empty.
pub open spec fn filter_ref(f: FilterV) -> Seq<char> {
    match f.column_id {
        Some(c) => c,
        None => match f.id {
            Some(i) => i,
            None => Seq::empty(),
        },
    }
}

/// Whether a row passes one filter. A filter on a column the index lacks, or
/// without an operator, keeps every row.
pub open spec fn row_passes(index: ColumnIndex, f: FilterV, row: Seq<ValueV>) -> bool {
    match index.lookup(filter_ref(f)) {
        None => true,
        Some(idx) => match f.expression {
            None => true,
            Some(t) => cell_passes(op_spec(trimmed(t)), f.value, cell_at(row, idx as int)),
        },
    }
}

/// The predicate of one filter on rows.
pub open spec fn passes_filter(index: ColumnIndex, f: FilterV) -> spec_fn(Seq<ValueV>) -> bool {
    |r: Seq<ValueV>| row_passes(index, f, r)
}

/// The rows satisfying `p`, in their order.
pub open spec fn select(rows: Seq<Seq<ValueV>>, p: spec_fn(Seq<ValueV>) -> bool) -> Seq<Seq<ValueV>>
    decreases rows.len(),
{
    if rows.len() == 0 {
        Seq::empty()
    } else if p(rows.last()) {
        select(rows.drop_last(), p).push(rows.last())
    } else {
        select(rows.drop_last(), p)
    }
}

/// The rows that pass every filter of `fs`, each filter narrowing the result of those before it.
pub open spec fn apply_all(rows: Seq<Seq<ValueV>>, fs: Seq<FilterV>, index: ColumnIndex) -> Seq<Seq<ValueV>>
    decreases fs.len(),
{
    if fs.len() == 0 {
        rows
    } else {
        select(apply_all(rows, fs.drop_last(), index), passes_filter(index, fs.last()))
    }
}

/// Selecting by `p` and then by `q` selects by `p` and `q` together.
pub proof fn lemma_select_twice(rows: Seq<Seq<ValueV>>, p: spec_fn(Seq<ValueV>) -> bool, q: spec_fn(Seq<ValueV>) -> bool)
    ensures
        select(select(rows, p), q) == select(rows, |r: Seq<ValueV>| p(r) && q(r)),
    decreases rows.len(),
{
    if rows.len() > 0 {
        lemma_select_twice(rows.drop_last(), p, q);
        if p(rows.last()) {
            let s = select(rows.drop_last(), p).push(rows.last());
            assert(s.drop_last() =~= select(rows.drop_last(), p));
        }
    }
}

/// Two filters applied in turn keep exactly the rows that pass both.
pub proof fn lemma_filters_conjoin(rows: Seq<Seq<ValueV>>, f1: FilterV, f2: FilterV, index: ColumnIndex)
    ensures
        apply_all(rows, seq![f1, f2], index)
            == select(rows, |r: Seq<ValueV>| row_passes(index, f1, r) && row_passes(index, f2, r)),
{
    let fs = seq![f1, f2];
    assert(fs.drop_last() =~= seq![f1]);
    assert(seq![f1].drop_last() =~= Seq::<FilterV>::empty());
    let p = passes_filter(index, f1);
    let q = passes_filter(index, f2);
    lemma_select_twice(rows, p, q);
    assert(seq![f1].last() == f1);
    assert(fs.last() == f2);
    assert(apply_all(rows, Seq::<FilterV>::empty(), index) == rows);
    assert(apply_all(rows, seq![f1], index) == select(rows, p));
    assert(apply_all(rows, fs, index) == select(select(rows, p), q));
    assert((|r: Seq<ValueV>| p(r) && q(r)) =~= (|r: Seq<ValueV>| row_passes(index, f1, r) && row_passes(index, f2, r)));
}

fn in_set(c: &Value, lit: &Value) -> (r: bool)
    ensures
        r == literal_set(lit@).contains(c@),
{
    match lit {
        Value::List(l) => {
            let ghost set = literal_set(lit@);
            let mut i: usize = 0;
            while i < l.len()
                invariant
                    i <= l.len(),
                    set == literal_set(lit@),
                    *lit == Value::List(*l),
                    set.len() == l.len(),
                    forall|j: int| 0 <= j < i ==> set[j] != c@,
                decreases l.len() - i,
            {
                assert(set[i as int] == normal(l@[i as int]@));
                let m = normalize_value(&l[i]);
                if value_eq(&m, c) {
                    assert(set[i as int] == c@);
                    return true;
                }
                i = i + 1;
            }
            proof {
                if set.contains(c@) {
                    let k = choose|k: int| 0 <= k < set.len() && set[k] == c@;
                }
            }
            false
        },
        _ => {
            let m = normalize_value(lit);
            let b = value_eq(&m, c);
            proof {
                assert(literal_set(lit@) == seq![normal(lit@)]);
                if b {
                    assert(literal_set(lit@)[0] == c@);
                }
                if literal_set(lit@).contains(c@) {
                    let k = choose|k: int| 0 <= k < literal_set(lit@).len() && literal_set(lit@)[k] == c@;
                    assert(k == 0);
                }
            }
            b
        },
    }
}

fn lower_needle(v: &Value) -> (r: String)
    ensures
        r@ == lower_of(needle_of(v@)),
{
    match v {
        Value::Scalar(Scalar::Str(s)) => lowercase(s.as_str()),
        _ => {
            proof {
                reveal_strlit("");
                assert(""@ =~= Seq::<char>::empty());
            }
            lowercase("")
        },
    }
}

/// Whether one cell passes: `lit` is the filter's literal, `operand` its comparison
/// form and `needle` the lowercase text searched for.
fn passes(op: FilterOp, lit: &Option<Value>, operand_v: &Value, needle: &String, cell: &Value) -> (r: bool)
    requires
        operand_v@ == operand(match lit { Some(v) => Some(v@), None => None }),
        needle@ == lower_of(needle_of(operand_v@)),
    ensures
        r == cell_passes(op, match lit { Some(v) => Some(v@), None => None }, cell@),
{
    let c = normalize_value(cell);
    match op {
        FilterOp::Gt => cmp_gt(&c, operand_v),
        FilterOp::Ge => cmp_ge(&c, operand_v),
        FilterOp::Lt => cmp_lt(&c, operand_v),
        FilterOp::Le => cmp_le(&c, operand_v),
        FilterOp::Eq => value_eq(&c, operand_v),
        FilterOp::Ne => !value_eq(&c, operand_v),
        FilterOp::In => match lit {
            None => true,
            Some(l) => in_set(&c, l),
        },
        FilterOp::Contains => match &c {
            Value::Scalar(Scalar::Str(s)) => {
                let h = lowercase(s.as_str());
                contains_folded(needle.as_str(), h.as_str())
            },
            _ => false,
        },
        FilterOp::IsNull => value_is_null(&c),
        FilterOp::IsNotNull => !value_is_null(&c),
        FilterOp::Unknown => true,
    }
}

fn filter_column(f: &FilterExpr) -> (r: String)
    ensures
        r@ == filter_ref(f@),
{
    match &f.column_id {
        Some(c) => c.clone(),
        None => match &f.id {
            Some(i) => i.clone(),
            None => String::new(),
        },
    }
}

pub fn copy_row(r: &Vec<Value>) -> (out: Vec<Value>)
    ensures
        row_view(out@) == row_view(r@),
{
    let mut out: Vec<Value> = Vec::new();
    let mut i: usize = 0;
    while i < r.len()
        invariant
            i <= r.len(),
            out.len() == i,
            forall|j: int| 0 <= j < i ==> out@[j]@ == r@[j]@,
        decreases r.len() - i,
    {
        out.push(copy_value(&r[i]));
        i = i + 1;
    }
    assert(row_view(out@) =~= row_view(r@));
    out
}

/// A copy of every row.
pub fn copy_rows(rows: &Vec<Vec<Value>>) -> (out: Vec<Vec<Value>>)
    ensures
        rows_view(out@) == rows_view(rows@),
{
    let mut out: Vec<Vec<Value>> = Vec::new();
    let mut i: usize = 0;
    while i < rows.len()
        invariant
            i <= rows.len(),
            out.len() == i,
            forall|j: int| 0 <= j < i ==> row_view(out@[j]@) == row_view(rows@[j]@),
        decreases rows.len() - i,
    {
        out.push(copy_row(&rows[i]));
        i = i + 1;
    }
    assert(rows_view(out@) =~= rows_view(rows@));
    out
}

/// The rows of `rows` that pass filter `f`, in order.
fn apply_one(rows: Vec<Vec<Value>>, f: &FilterExpr, col_index: &ColumnIndex) -> (out: Vec<Vec<Value>>)
    ensures
        rows_view(out@) == select(rows_view(rows@), passes_filter(*col_index, f@)),
{
    let ghost p = passes_filter(*col_index, f@);
    let col = filter_column(f);
    let idx = match col_index.get(col.as_str()) {
        Some(i) => i,
        None => {
            proof { lemma_select_all(rows_view(rows@), p); }
            return rows;
        },
    };
    let op = match normalize_op(match &f.expression { Some(e) => Some(e.as_str()), None => None }) {
        Some(o) => o,
        None => {
            proof { lemma_select_all(rows_view(rows@), p); }
            return rows;
        },
    };
    let operand_v = match &f.value {
        Some(v) => normalize_value(v),
        None => Value::Scalar(Scalar::Null),
    };
    let needle = lower_needle(&operand_v);
    let mut out: Vec<Vec<Value>> = Vec::new();
    let mut i: usize = 0;
    while i < rows.len()
        invariant
            i <= rows.len(),
            col_index.lookup(filter_ref(f@)) == Some(idx),
            f@.expression is Some,
            p == passes_filter(*col_index, f@),
            op == op_spec(trimmed(f@.expression->Some_0)),
            operand_v@ == operand(f@.value),
            needle@ == lower_of(needle_of(operand_v@)),
            rows_view(out@) == select(rows_view(rows@).subrange(0, i as int), p),
        decreases rows.len() - i,
    {
        let ghost pre = rows_view(rows@).subrange(0, i as int);
        let ghost next = rows_view(rows@).subrange(0, i + 1);
        assert(next.drop_last() =~= pre);
        let cell = cell_of(&rows[i], idx);
        let keep = passes(op, &f.value, &operand_v, &needle, &cell);
        assert(next.last() == row_view(rows@[i as int]@));
        assert(cell@ == cell_at(next.last(), idx as int));
        assert(keep == cell_passes(op, f@.value, cell@));
        assert(keep == row_passes(*col_index, f@, next.last()));
        assert(keep == p(next.last()));
        if keep {
            out.push(copy_row(&rows[i]));
        }
        assert(rows_view(out@) =~= select(next, p));
        i = i + 1;
    }
    assert(rows_view(rows@).subrange(0, i as int) =~= rows_view(rows@));
    out
}

proof fn lemma_select_all(rows: Seq<Seq<ValueV>>, p: spec_fn(Seq<ValueV>) -> bool)
    requires
        forall|r: Seq<ValueV>| #[trigger] p(r),
    ensures
        select(rows, p) == rows,
    decreases rows.len(),
{
    if rows.len() > 0 {
        lemma_select_all(rows.drop_last(), p);
        assert(rows.drop_last().push(rows.last()) =~= rows);
    }
}

/// The rows that pass every filter, in order; a filter on an unknown column is dropped.
pub fn apply_filters(rows: &Vec<Vec<Value>>, filters: &Option<Vec<FilterExpr>>, col_index: &ColumnIndex)
    -> (r: Result<Vec<Vec<Value>>, PluginError>)
    ensures
        match r {
            Ok(out) => rows_view(out@) == apply_all(
                rows_view(rows@),
                match filters {
                    Some(f) => filters_view(f@),
                    None => Seq::empty(),
                },
                *col_index,
            ),
            Err(_) => false,
        },
{
    let mut result = copy_rows(rows);
    let fs = match filters {
        Some(f) => f,
        None => {
            return Ok(result);
        },
    };
    let mut i: usize = 0;
    while i < fs.len()
        invariant
            i <= fs.len(),
            rows_view(result@) == apply_all(rows_view(rows@), filters_view(fs@).subrange(0, i as int), *col_index),
        decreases fs.len() - i,
    {
        let ghost pre = filters_view(fs@).subrange(0, i as int);
        let ghost next = filters_view(fs@).subrange(0, i + 1);
        assert(next.drop_last() =~= pre);
        result = apply_one(result, &fs[i], col_index);
        i = i + 1;
    }
    assert(filters_view(fs@).subrange(0, i as int) =~= filters_view(fs@));
    Ok(result)
}

} // verus!
