//! Cell values, their normal form, equality and ordering.
use vstd::prelude::*;
pub use crate::copy::copy_value;

verus! {

broadcast use vstd::seq::axiom_seq_index_decreases;

/// Fixed-point numbers are held as integer multiples of one millionth.
pub const SCALE: i64 = 1000000;

/// An atomic cell value.
#[derive(Debug, Clone, PartialEq)]
pub enum Scalar {
    Null,
    Bool(bool),
    /// A number, in millionths.
    Num(i64),
    Str(String),
}

/// A cell: a scalar, a list of values (a hierarchy path or a value set), or an
/// object of named values.
#[derive(Debug, PartialEq)]
pub enum Value {
    Scalar(Scalar),
    List(Vec<Value>),
    Object(Vec<(String, Value)>),
}

pub enum ScalarV {
    Null,
    Bool(bool),
    Num(int),
    Str(Seq<char>),
}

pub enum ValueV {
    Scalar(ScalarV),
    List(Seq<ValueV>),
    Object(Seq<(Seq<char>, ValueV)>),
}

impl View for Scalar {
    type V = ScalarV;

    open spec fn view(&self) -> ScalarV {
        match self {
            Scalar::Null => ScalarV::Null,
            Scalar::Bool(b) => ScalarV::Bool(*b),
            Scalar::Num(n) => ScalarV::Num(*n as int),
            Scalar::Str(s) => ScalarV::Str(s@),
        }
    }
}

/// The mathematical form of a value, members and fields included.
pub open spec fn value_view(v: Value) -> ValueV
    decreases v,
{
    match v {
        Value::Scalar(s) => ValueV::Scalar(s@),
        Value::List(l) => ValueV::List(
            Seq::new(l@.len(), |i: int| if 0 <= i < l@.len() { value_view(l@[i]) } else { ValueV::Scalar(ScalarV::Null) }),
        ),
        Value::Object(o) => ValueV::Object(
            Seq::new(
                o@.len(),
                |i: int| if 0 <= i < o@.len() {
                    (o@[i].0@, value_view(o@[i].1))
                } else {
                    (Seq::empty(), ValueV::Scalar(ScalarV::Null))
                },
            ),
        ),
    }
}

impl View for Value {
    type V = ValueV;

    open spec fn view(&self) -> ValueV {
        value_view(*self)
    }
}

pub open spec fn row_view(r: Seq<Value>) -> Seq<ValueV> {
    r.map_values(|c: Value| c@)
}

pub open spec fn rows_view(rows: Seq<Vec<Value>>) -> Seq<Seq<ValueV>> {
    rows.map_values(|r: Vec<Value>| row_view(r@))
}

/// A one-element list stands for its sole element; every other value is unchanged.
pub open spec fn normal(v: ValueV) -> ValueV {
    match v {
        ValueV::List(l) => if l.len() == 1 { l[0] } else { v },
        _ => v,
    }
}

pub open spec fn is_null(v: ValueV) -> bool {
    v == ValueV::Scalar(ScalarV::Null)
}

/// The cell at `idx`, a missing cell reading as null.
pub open spec fn cell_at(row: Seq<ValueV>, idx: int) -> ValueV {
    if 0 <= idx < row.len() { row[idx] } else { ValueV::Scalar(ScalarV::Null) }
}

/// Three-way lexicographic comparison of character sequences, by code point.
pub open spec fn chars_cmp(a: Seq<char>, b: Seq<char>) -> int
    decreases a.len(),
{
    if a.len() == 0 {
        if b.len() == 0 { 0 } else { -1 }
    } else if b.len() == 0 {
        1
    } else if a[0] < b[0] {
        -1
    } else if a[0] > b[0] {
        1
    } else {
        chars_cmp(a.drop_first(), b.drop_first())
    }
}

/// Whether `needle` occurs as a contiguous run inside `hay`.
pub open spec fn is_substring(needle: Seq<char>, hay: Seq<char>) -> bool {
    exists|i: int| 0 <= i <= hay.len() - needle.len() && #[trigger] hay.subrange(i, i + needle.len()) == needle
}

pub fn copy_scalar(s: &Scalar) -> (r: Scalar)
    ensures
        r@ == s@,
{
    match s {
        Scalar::Null => Scalar::Null,
        Scalar::Bool(b) => Scalar::Bool(*b),
        Scalar::Num(n) => Scalar::Num(*n),
        Scalar::Str(t) => Scalar::Str(t.clone()),
    }
}

/// Collapses a one-element list to its element.
pub fn normalize_value(v: &Value) -> (r: Value)
    ensures
        r@ == normal(v@),
{
    match v {
        Value::List(l) => {
            if l.len() == 1 {
                copy_value(&l[0])
            } else {
                copy_value(v)
            }
        },
        _ => copy_value(v),
    }
}

/// Rebuilds a value for output. Every value of this model is already
/// representable as JSON (numbers are finite by construction), so the result
/// equals the input.
pub fn sanitize_json_value(v: Value) -> (r: Value)
    ensures
        r@ == v@,
{
    v
}

pub fn value_is_null(v: &Value) -> (r: bool)
    ensures
        r == is_null(v@),
{
    match v {
        Value::Scalar(Scalar::Null) => true,
        _ => false,
    }
}

/// The cell at `idx` of `row`, or null where the row is shorter.
pub fn cell_of(row: &Vec<Value>, idx: usize) -> (r: Value)
    ensures
        r@ == cell_at(row_view(row@), idx as int),
{
    if idx < row.len() {
        copy_value(&row[idx])
    } else {
        Value::Scalar(Scalar::Null)
    }
}

pub fn scalar_eq(a: &Scalar, b: &Scalar) -> (r: bool)
    ensures
        r == (a@ == b@),
{
    match (a, b) {
        (Scalar::Null, Scalar::Null) => true,
        (Scalar::Bool(x), Scalar::Bool(y)) => *x == *y,
        (Scalar::Num(x), Scalar::Num(y)) => *x == *y,
        (Scalar::Str(x), Scalar::Str(y)) => *x == *y,
        _ => false,
    }
}

/// Structural equality: same shape, same members in order, same fields in order.
pub fn value_eq(a: &Value, b: &Value) -> (r: bool)
    ensures
        r == (a@ == b@),
    decreases a,
{
    match (a, b) {
        (Value::Scalar(x), Value::Scalar(y)) => scalar_eq(x, y),
        (Value::List(x), Value::List(y)) => {
            if x.len() != y.len() {
                assert(a@->List_0.len() != b@->List_0.len());
                return false;
            }
            let mut i: usize = 0;
            while i < x.len()
                invariant
                    x.len() == y.len(),
                    i <= x.len(),
                    *a == Value::List(*x),
                    *b == Value::List(*y),
                    forall|j: int| 0 <= j < i ==> x@[j]@ == y@[j]@,
                decreases x.len() - i,
            {
                assert(decreases_to!(*a => x@[i as int])) by {
                    broadcast use vstd::std_specs::vec::axiom_vec_index_decreases;
                }
                if !value_eq(&x[i], &y[i]) {
                    assert(a@->List_0[i as int] != b@->List_0[i as int]);
                    return false;
                }
                i = i + 1;
            }
            assert(a@->List_0 =~= b@->List_0);
            true
        },
        (Value::Object(x), Value::Object(y)) => {
            if x.len() != y.len() {
                assert(a@->Object_0.len() != b@->Object_0.len());
                return false;
            }
            let mut i: usize = 0;
            while i < x.len()
                invariant
                    x.len() == y.len(),
                    i <= x.len(),
                    *a == Value::Object(*x),
                    *b == Value::Object(*y),
                    forall|j: int| 0 <= j < i ==> x@[j].0@ == y@[j].0@ && x@[j].1@ == y@[j].1@,
                decreases x.len() - i,
            {
                assert(decreases_to!(*a => x@[i as int].1)) by {
                    broadcast use vstd::std_specs::vec::axiom_vec_index_decreases;
                }
                if !(x[i].0 == y[i].0) {
                    assert(a@->Object_0[i as int] != b@->Object_0[i as int]);
                    return false;
                }
                if !value_eq(&x[i].1, &y[i].1) {
                    assert(a@->Object_0[i as int] != b@->Object_0[i as int]);
                    return false;
                }
                i = i + 1;
            }
            assert(a@->Object_0 =~= b@->Object_0);
            true
        },
        _ => false,
    }
}

/// The characters of `s`, in order.
pub fn chars_of(s: &str) -> (r: Vec<char>)
    ensures
        r@ == s@,
{
    let n = s.unicode_len();
    let mut r: Vec<char> = Vec::new();
    let mut i: usize = 0;
    while i < n
        invariant
            n == s@.len(),
            i <= n,
            r@ == s@.subrange(0, i as int),
        decreases n - i,
    {
        r.push(s.get_char(i));
        i = i + 1;
        assert(r@ =~= s@.subrange(0, i as int));
    }
    assert(r@ =~= s@);
    r
}

/// Whether two strings hold the same characters.
pub fn str_eq(a: &str, b: &str) -> (r: bool)
    ensures
        r == (a@ == b@),
{
    let x = chars_of(a);
    let y = chars_of(b);
    if x.len() != y.len() {
        assert(x@.len() != y@.len());
        return false;
    }
    let mut i: usize = 0;
    while i < x.len()
        invariant
            x@ == a@,
            y@ == b@,
            x.len() == y.len(),
            i <= x.len(),
            forall|j: int| 0 <= j < i ==> x@[j] == y@[j],
        decreases x.len() - i,
    {
        if x[i] != y[i] {
            assert(x@[i as int] != y@[i as int]);
            return false;
        }
        i = i + 1;
    }
    assert(x@ =~= y@);
    true
}

proof fn lemma_chars_cmp_skip(a: Seq<char>, b: Seq<char>, i: int)
    requires
        0 <= i < a.len(),
        i < b.len(),
        a[i] == b[i],
    ensures
        chars_cmp(a.skip(i), b.skip(i)) == chars_cmp(a.skip(i + 1), b.skip(i + 1)),
{
    assert(a.skip(i).drop_first() =~= a.skip(i + 1));
    assert(b.skip(i).drop_first() =~= b.skip(i + 1));
}

/// Three-way lexicographic comparison of two character vectors.
pub fn compare_chars(a: &Vec<char>, b: &Vec<char>) -> (r: i8)
    ensures
        r as int == chars_cmp(a@, b@),
        -1 <= r <= 1,
{
    let mut i: usize = 0;
    assert(a@.skip(0) =~= a@);
    assert(b@.skip(0) =~= b@);
    while i < a.len() && i < b.len()
        invariant
            i <= a.len(),
            i <= b.len(),
            chars_cmp(a@, b@) == chars_cmp(a@.skip(i as int), b@.skip(i as int)),
        decreases a.len() - i,
    {
        let x = a[i];
        let y = b[i];
        if x < y {
            return -1;
        }
        if x > y {
            return 1;
        }
        proof {
            lemma_chars_cmp_skip(a@, b@, i as int);
        }
        i = i + 1;
    }
    if i < b.len() {
        -1
    } else if i < a.len() {
        1
    } else {
        0
    }
}

/// Three-way lexicographic comparison of two strings.
pub fn compare_str(a: &str, b: &str) -> (r: i8)
    ensures
        r as int == chars_cmp(a@, b@),
{
    let x = chars_of(a);
    let y = chars_of(b);
    compare_chars(&x, &y)
}

/// Whether `needle` occurs inside `hay`, both already case-folded by the caller.
pub fn contains_folded(needle: &str, hay: &str) -> (r: bool)
    ensures
        r == is_substring(needle@, hay@),
{
    let n = chars_of(needle);
    let h = chars_of(hay);
    if n.len() > h.len() {
        return false;
    }
    let mut i: usize = 0;
    while i <= h.len() - n.len()
        invariant
            n.len() <= h.len(),
            n@ == needle@,
            h@ == hay@,
            i <= h.len() - n.len() + 1,
            forall|k: int| 0 <= k < i ==> #[trigger] h@.subrange(k, k + n@.len()) != n@,
        decreases h.len() - n.len() + 1 - i,
    {
        let mut j: usize = 0;
        let mut same = true;
        while j < n.len()
            invariant
                n.len() <= h.len(),
                i <= h.len() - n.len(),
                j <= n.len(),
                same ==> forall|t: int| 0 <= t < j ==> h@[i + t] == n@[t],
                !same ==> h@.subrange(i as int, i + n@.len()) != n@,
            decreases n.len() - j,
        {
            if h[i + j] != n[j] {
                same = false;
                assert(h@.subrange(i as int, i + n@.len())[j as int] != n@[j as int]);
            }
            j = j + 1;
        }
        if same {
            assert(h@.subrange(i as int, i + n@.len()) =~= n@);
            return true;
        }
        if i == h.len() - n.len() {
            return false;
        }
        i = i + 1;
    }
    false
}


pub open spec fn digit_char(d: nat) -> char {
    if d == 0 { '0' } else if d == 1 { '1' } else if d == 2 { '2' } else if d == 3 { '3' }
    else if d == 4 { '4' } else if d == 5 { '5' } else if d == 6 { '6' } else if d == 7 { '7' }
    else if d == 8 { '8' } else { '9' }
}

/// Decimal digits of `n`, most significant first, without leading zeros.
pub open spec fn decimal_chars(n: nat) -> Seq<char>
    decreases n,
{
    if n < 10 { seq![digit_char(n)] } else { decimal_chars(n / 10) + seq![digit_char(n % 10)] }
}

fn digit_str(d: u64) -> (r: &'static str)
    requires
        d < 10,
    ensures
        r@ == seq![digit_char(d as nat)],
{
    proof {
        reveal_strlit("0"); reveal_strlit("1"); reveal_strlit("2"); reveal_strlit("3");
        reveal_strlit("4"); reveal_strlit("5"); reveal_strlit("6"); reveal_strlit("7");
        reveal_strlit("8"); reveal_strlit("9");
    }
    if d == 0 { "0" } else if d == 1 { "1" } else if d == 2 { "2" } else if d == 3 { "3" }
    else if d == 4 { "4" } else if d == 5 { "5" } else if d == 6 { "6" } else if d == 7 { "7" }
    else if d == 8 { "8" } else { "9" }
}

/// Appends the decimal digits of `n` to `s`.
pub fn append_decimal(s: &mut String, n: u64)
    ensures
        final(s)@ == old(s)@ + decimal_chars(n as nat),
    decreases n,
{
    if n >= 10 {
        append_decimal(s, n / 10);
    }
    s.append(digit_str(n % 10));
    assert(final(s)@ =~= old(s)@ + decimal_chars(n as nat));
}

/// Pushes the decimal digits of `n` onto `v`.
pub fn push_decimal(v: &mut Vec<char>, n: u64)
    ensures
        final(v)@ == old(v)@ + decimal_chars(n as nat),
    decreases n,
{
    if n >= 10 {
        push_decimal(v, n / 10);
    }
    let d = n % 10;
    let c = if d == 0 { '0' } else if d == 1 { '1' } else if d == 2 { '2' } else if d == 3 { '3' }
    else if d == 4 { '4' } else if d == 5 { '5' } else if d == 6 { '6' } else if d == 7 { '7' }
    else if d == 8 { '8' } else { '9' };
    v.push(c);
    assert(final(v)@ =~= old(v)@ + decimal_chars(n as nat));
}

} // verus!
