//! Deep copies of values whose views are known to agree with the original.
use vstd::prelude::*;
use crate::value::{Value, copy_scalar};

verus! {

broadcast use vstd::seq::axiom_seq_index_decreases;

proof fn lemma_member_smaller(v: Value, l: Vec<Value>, i: int)
    requires
        v == Value::List(l),
        0 <= i < l.len(),
    ensures
        decreases_to!(v => l@[i]),
{
    broadcast use vstd::std_specs::vec::axiom_vec_decreases_to_view, vstd::seq::axiom_seq_index_decreases;
    assert(decreases_to!(v => v->List_0));
    assert(decreases_to!(l => l@));
    assert(decreases_to!(l@ => l@[i]));
}

proof fn lemma_field_smaller(v: Value, o: Vec<(String, Value)>, i: int)
    requires
        v == Value::Object(o),
        0 <= i < o.len(),
    ensures
        decreases_to!(v => o@[i].1),
{
    broadcast use vstd::std_specs::vec::axiom_vec_decreases_to_view, vstd::seq::axiom_seq_index_decreases;
    assert(decreases_to!(v => v->Object_0));
    assert(decreases_to!(o => o@));
    assert(decreases_to!(o@ => o@[i]));
    assert(decreases_to!(o@[i] => o@[i].1));
}

/// A copy of `v` with the same view.
pub fn copy_value(v: &Value) -> (r: Value)
    ensures
        r@ == v@,
    decreases v,
{
    match v {
        Value::Scalar(s) => Value::Scalar(copy_scalar(s)),
        Value::List(l) => {
            let mut items: Vec<Value> = Vec::new();
            let mut i: usize = 0;
            while i < l.len()
                invariant
                    i <= l.len(),
                    *v == Value::List(*l),
                    items.len() == i,
                    forall|j: int| 0 <= j < i ==> (#[trigger] items@[j])@ == l@[j]@,
                decreases l.len() - i,
            {
                proof { lemma_member_smaller(*v, *l, i as int); }
                items.push(copy_value(&l[i]));
                i = i + 1;
            }
            let out = Value::List(items);
            assert(out@->List_0.len() == v@->List_0.len());
            assert forall|j: int| 0 <= j < items.len() implies out@->List_0[j] == v@->List_0[j] by {
                assert(out@->List_0[j] == items@[j]@);
                assert(v@->List_0[j] == l@[j]@);
            }
            assert(out@->List_0 =~= v@->List_0);
            out
        },
        Value::Object(o) => {
            let mut items: Vec<(String, Value)> = Vec::new();
            let mut i: usize = 0;
            while i < o.len()
                invariant
                    i <= o.len(),
                    *v == Value::Object(*o),
                    items.len() == i,
                    forall|j: int| 0 <= j < i ==> (#[trigger] items@[j]).0@ == o@[j].0@ && items@[j].1@ == o@[j].1@,
                decreases o.len() - i,
            {
                proof { lemma_field_smaller(*v, *o, i as int); }
                let (k, x) = &o[i];
                items.push((k.clone(), copy_value(x)));
                i = i + 1;
            }
            let out = Value::Object(items);
            assert(out@->Object_0.len() == v@->Object_0.len());
            assert forall|j: int| 0 <= j < items.len() implies out@->Object_0[j] == v@->Object_0[j] by {
                assert(out@->Object_0[j] == (items@[j].0@, items@[j].1@));
                assert(v@->Object_0[j] == (o@[j].0@, o@[j].1@));
            }
            assert(out@->Object_0 =~= v@->Object_0);
            out
        },
    }
}

} // verus!
