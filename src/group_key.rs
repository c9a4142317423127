//! The canonical text of a group-value tuple, which identifies and orders groups.
use vstd::prelude::*;
use crate::value::{Scalar, ScalarV, Value, ValueV, chars_cmp, chars_of, decimal_chars, push_decimal, row_view};

verus! {

broadcast use vstd::seq::axiom_seq_index_decreases;

pub open spec fn escape_chars(s: Seq<char>) -> Seq<char>
    decreases s.len(),
{
    if s.len() == 0 {
        Seq::empty()
    } else {
        let c = s.last();
        escape_chars(s.drop_last()) + if c == '"' {
            seq!['\\', '"']
        } else if c == '\\' {
            seq!['\\', '\\']
        } else {
            seq![c]
        }
    }
}

/// The text of one scalar, in the manner of JSON.
pub open spec fn scalar_text(s: ScalarV) -> Seq<char> {
    match s {
        ScalarV::Null => seq!['n', 'u', 'l', 'l'],
        ScalarV::Bool(b) => if b { seq!['t', 'r', 'u', 'e'] } else { seq!['f', 'a', 'l', 's', 'e'] },
        ScalarV::Num(n) => if n < 0 { seq!['-'] + decimal_chars((-n) as nat) } else { decimal_chars(n as nat) },
        ScalarV::Str(t) => seq!['"'] + escape_chars(t) + seq!['"'],
    }
}

/// The text of a string, quoted and escaped.
pub open spec fn quoted(t: Seq<char>) -> Seq<char> {
    seq!['"'] + escape_chars(t) + seq!['"']
}

/// The text of a value, in the manner of JSON.
pub open spec fn value_text(v: ValueV) -> Seq<char>
    decreases v, 0int,
{
    match v {
        ValueV::Scalar(s) => scalar_text(s),
        ValueV::List(l) => seq!['['] + items_text(l, l.len() as int) + seq![']'],
        ValueV::Object(o) => seq!['{'] + fields_text(o, o.len() as int) + seq!['}'],
    }
}

/// The texts of the first `n` members of `l`, separated by commas.
pub open spec fn items_text(l: Seq<ValueV>, n: int) -> Seq<char>
    decreases l, n,
{
    if n <= 0 || n > l.len() {
        Seq::empty()
    } else if n == 1 {
        value_text(l[0])
    } else {
        items_text(l, n - 1) + seq![','] + value_text(l[n - 1])
    }
}

/// The texts of the first `n` fields of `o`, each `"name":value`, separated by commas.
pub open spec fn fields_text(o: Seq<(Seq<char>, ValueV)>, n: int) -> Seq<char>
    decreases o, n,
{
    if n <= 0 || n > o.len() {
        Seq::empty()
    } else if n == 1 {
        quoted(o[0].0) + seq![':'] + value_text(o[0].1)
    } else {
        fields_text(o, n - 1) + seq![','] + quoted(o[n - 1].0) + seq![':'] + value_text(o[n - 1].1)
    }
}

/// The key of a group-value tuple: its values, bracketed and comma-separated.
pub open spec fn key_of(t: Seq<ValueV>) -> Seq<char> {
    value_text(ValueV::List(t))
}

fn push_str_chars(out: &mut Vec<char>, s: &str)
    ensures
        final(out)@ == old(out)@ + s@,
{
    let c = chars_of(s);
    let mut i: usize = 0;
    while i < c.len()
        invariant
            i <= c.len(),
            c@ == s@,
            out@ == old(out)@ + c@.subrange(0, i as int),
        decreases c.len() - i,
    {
        out.push(c[i]);
        i = i + 1;
        assert(out@ =~= old(out)@ + c@.subrange(0, i as int));
    }
    assert(c@.subrange(0, i as int) =~= c@);
}

fn push_escaped(out: &mut Vec<char>, s: &str)
    ensures
        final(out)@ == old(out)@ + escape_chars(s@),
{
    let c = chars_of(s);
    let mut i: usize = 0;
    assert(escape_chars(c@.subrange(0, 0)) =~= Seq::<char>::empty());
    assert(out@ =~= old(out)@ + escape_chars(c@.subrange(0, 0)));
    while i < c.len()
        invariant
            i <= c.len(),
            c@ == s@,
            out@ == old(out)@ + escape_chars(c@.subrange(0, i as int)),
        decreases c.len() - i,
    {
        let ch = c[i];
        if ch == '"' {
            out.push('\\');
            out.push('"');
        } else if ch == '\\' {
            out.push('\\');
            out.push('\\');
        } else {
            out.push(ch);
        }
        assert(c@.subrange(0, i + 1).drop_last() =~= c@.subrange(0, i as int));
        i = i + 1;
        assert(out@ =~= old(out)@ + escape_chars(c@.subrange(0, i as int)));
    }
    assert(c@.subrange(0, i as int) =~= c@);
}

fn push_scalar(out: &mut Vec<char>, s: &Scalar)
    ensures
        final(out)@ == old(out)@ + scalar_text(s@),
{
    match s {
        Scalar::Null => {
            out.push('n');
            out.push('u');
            out.push('l');
            out.push('l');
        },
        Scalar::Bool(b) => {
            if *b {
                out.push('t');
                out.push('r');
                out.push('u');
                out.push('e');
            } else {
                out.push('f');
                out.push('a');
                out.push('l');
                out.push('s');
                out.push('e');
            }
        },
        Scalar::Num(n) => {
            if *n < 0 {
                out.push('-');
                let m: u64 = (-(*n as i128)) as u64;
                push_decimal(out, m);
            } else {
                push_decimal(out, *n as u64);
            }
        },
        Scalar::Str(t) => {
            out.push('"');
            push_escaped(out, t.as_str());
            out.push('"');
        },
    }
    assert(final(out)@ =~= old(out)@ + scalar_text(s@));
}

fn push_value(out: &mut Vec<char>, v: &Value)
    ensures
        final(out)@ == old(out)@ + value_text(v@),
    decreases v,
{
    match v {
        Value::Scalar(s) => push_scalar(out, s),
        Value::List(l) => {
            let ghost lv = v@->List_0;
            out.push('[');
            let ghost start = out@;
            let mut i: usize = 0;
            while i < l.len()
                invariant
                    i <= l.len(),
                    *v == Value::List(*l),
                    lv == v@->List_0,
                    lv.len() == l.len(),
                    forall|j: int| 0 <= j < l.len() ==> #[trigger] lv[j] == l@[j]@,
                    out@ == start + items_text(lv, i as int),
                decreases l.len() - i,
            {
                assert(decreases_to!(*v => l[i as int])) by {
                    broadcast use vstd::std_specs::vec::axiom_vec_index_decreases;
                }
                assert(lv[i as int] == l@[i as int]@);
                if i > 0 {
                    out.push(',');
                }
                push_value(out, &l[i]);
                i = i + 1;
                assert(out@ =~= start + items_text(lv, i as int));
            }
            out.push(']');
            assert(final(out)@ =~= old(out)@ + value_text(v@));
        },
        Value::Object(o) => {
            let ghost ov = v@->Object_0;
            out.push('{');
            let ghost start = out@;
            let mut i: usize = 0;
            while i < o.len()
                invariant
                    i <= o.len(),
                    *v == Value::Object(*o),
                    ov == v@->Object_0,
                    ov.len() == o.len(),
                    forall|j: int| 0 <= j < o.len() ==> #[trigger] ov[j] == (o@[j].0@, o@[j].1@),
                    out@ == start + fields_text(ov, i as int),
                decreases o.len() - i,
            {
                assert(decreases_to!(*v => o[i as int].1)) by {
                    broadcast use vstd::std_specs::vec::axiom_vec_index_decreases;
                }
                assert(ov[i as int] == (o@[i as int].0@, o@[i as int].1@));
                if i > 0 {
                    out.push(',');
                }
                out.push('"');
                push_escaped(out, o[i].0.as_str());
                out.push('"');
                out.push(':');
                push_value(out, &o[i].1);
                i = i + 1;
                assert(out@ =~= start + fields_text(ov, i as int));
            }
            out.push('}');
            assert(final(out)@ =~= old(out)@ + value_text(v@));
        },
    }
}

/// The key of a group-value tuple.
pub fn encode_key(t: &Vec<Value>) -> (r: Vec<char>)
    ensures
        r@ == key_of(row_view(t@)),
{
    let ghost tv = row_view(t@);
    let mut out: Vec<char> = Vec::new();
    out.push('[');
    let ghost start = out@;
    let mut i: usize = 0;
    while i < t.len()
        invariant
            i <= t.len(),
            tv == row_view(t@),
            start == seq!['['],
            out@ == start + items_text(tv, i as int),
        decreases t.len() - i,
    {
        if i > 0 {
            out.push(',');
        }
        push_value(&mut out, &t[i]);
        i = i + 1;
        assert(out@ =~= start + items_text(tv, i as int));
    }
    out.push(']');
    assert(out@ =~= key_of(row_view(t@)));
    out
}

/// Comparing `a` with `b` gives the opposite of comparing `b` with `a`.
pub proof fn lemma_cmp_antisym(a: Seq<char>, b: Seq<char>)
    ensures
        chars_cmp(a, b) == -chars_cmp(b, a),
        chars_cmp(a, b) == 0 <==> a == b,
    decreases a.len(),
{
    if a.len() > 0 && b.len() > 0 && a[0] == b[0] {
        lemma_cmp_antisym(a.drop_first(), b.drop_first());
        if a.drop_first() == b.drop_first() {
            assert(a =~= seq![a[0]] + a.drop_first());
            assert(b =~= seq![b[0]] + b.drop_first());
        }
    }
    if a.len() == 0 && b.len() == 0 {
        assert(a =~= b);
    }
}

/// Strict lexicographic order is transitive.
pub proof fn lemma_cmp_trans(a: Seq<char>, b: Seq<char>, c: Seq<char>)
    requires
        chars_cmp(a, b) == -1,
        chars_cmp(b, c) == -1,
    ensures
        chars_cmp(a, c) == -1,
    decreases a.len(),
{
    if a.len() > 0 && b.len() > 0 && c.len() > 0 && a[0] == b[0] && b[0] == c[0] {
        lemma_cmp_trans(a.drop_first(), b.drop_first(), c.drop_first());
    }
}

} // verus!
