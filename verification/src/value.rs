//! The cell value type shared by every table in the pipeline, together
//! with its mathematical model and the executable equality and cloning
//! helpers that the table operations rely on.

use vstd::prelude::*;

verus! {

/// Mathematical model of a JSON value: integers are unbounded, text and
/// collections are sequences.
#[verifier::ext_equal]
pub enum JVal {
    Null,
    Bool(bool),
    Int(int),
    Str(Seq<u8>),
    Arr(Seq<JVal>),
    Obj(Seq<(Seq<u8>, JVal)>),
}

/// Executable JSON value. Numbers are restricted to signed 64-bit
/// integers; text is carried as UTF-8 bytes.
pub enum JsonValue {
    Null,
    Bool(bool),
    Int(i64),
    Str(Vec<u8>),
    Arr(Vec<JsonValue>),
    Obj(Vec<(Vec<u8>, JsonValue)>),
}

/// Model of a sequence of values, element by element.
pub open spec fn jview_list(s: Seq<JsonValue>) -> Seq<JVal>
    decreases s,
    via jview_list_decreases
{
    if s.len() == 0 {
        Seq::empty()
    } else {
        jview_list(s.drop_last()).push(jview(s.last()))
    }
}

#[via_fn]
proof fn jview_list_decreases(s: Seq<JsonValue>) {
    if s.len() != 0 {
        assert(decreases_to!(s => s.drop_last()));
        assert(decreases_to!(s => s[s.len() - 1]));
    }
}

/// Model of a sequence of object fields, element by element.
pub open spec fn jview_fields(s: Seq<(Vec<u8>, JsonValue)>) -> Seq<(Seq<u8>, JVal)>
    decreases s,
    via jview_fields_decreases
{
    if s.len() == 0 {
        Seq::empty()
    } else {
        jview_fields(s.drop_last()).push((s.last().0@, jview(s.last().1)))
    }
}

#[via_fn]
proof fn jview_fields_decreases(s: Seq<(Vec<u8>, JsonValue)>) {
    if s.len() != 0 {
        assert(decreases_to!(s => s.drop_last()));
        assert(decreases_to!(s => s[s.len() - 1]));
        assert(decreases_to!(s[s.len() - 1] => s[s.len() - 1].1));
    }
}

/// The model of a value sequence has the same length and is the model
/// of the elements, pointwise.
pub broadcast proof fn lemma_jview_list(s: Seq<JsonValue>)
    ensures
        (#[trigger] jview_list(s)).len() == s.len(),
        forall|i: int| 0 <= i < s.len() ==> jview_list(s)[i] == jview(s[i]),
    decreases s.len(),
{
    if s.len() != 0 {
        lemma_jview_list(s.drop_last());
    }
}

/// The model of a field sequence has the same length and is the model
/// of the fields, pointwise.
pub broadcast proof fn lemma_jview_fields(s: Seq<(Vec<u8>, JsonValue)>)
    ensures
        (#[trigger] jview_fields(s)).len() == s.len(),
        forall|i: int| 0 <= i < s.len() ==> jview_fields(s)[i] == (s[i].0@, jview(s[i].1)),
    decreases s.len(),
{
    if s.len() != 0 {
        lemma_jview_fields(s.drop_last());
    }
}

/// Model of one value.
pub open spec fn jview(v: JsonValue) -> JVal
    decreases v,
    via jview_decreases
{
    match v {
        JsonValue::Null => JVal::Null,
        JsonValue::Bool(b) => JVal::Bool(b),
        JsonValue::Int(n) => JVal::Int(n as int),
        JsonValue::Str(s) => JVal::Str(s@),
        JsonValue::Arr(xs) => JVal::Arr(jview_list(xs@)),
        JsonValue::Obj(fs) => JVal::Obj(jview_fields(fs@)),
    }
}

#[via_fn]
proof fn jview_decreases(v: JsonValue) {
    broadcast use vstd::std_specs::vec::axiom_vec_decreases_to_view;

    match v {
        JsonValue::Arr(xs) => {
            assert(decreases_to!(v => xs));
            assert(decreases_to!(xs => xs@));
        },
        JsonValue::Obj(fs) => {
            assert(decreases_to!(v => fs));
            assert(decreases_to!(fs => fs@));
        },
        _ => {},
    }
}

impl View for JsonValue {
    type V = JVal;

    open spec fn view(&self) -> JVal {
        jview(*self)
    }
}

/// An array element sits below the whole array value in the
/// well-founded order used for recursion.
proof fn lemma_arr_elem_decreases(v: JsonValue, i: int)
    requires
        v is Arr,
        0 <= i < (v->Arr_0)@.len(),
    ensures
        decreases_to!(v => (v->Arr_0)@[i]),
{
    broadcast use vstd::std_specs::vec::axiom_vec_decreases_to_view;

    let xs = v->Arr_0;
    assert(decreases_to!(v => xs));
    assert(decreases_to!(xs => xs@));
    assert(decreases_to!(xs@ => xs@[i]));
}

/// An object field's value sits below the whole object value in the
/// well-founded order used for recursion.
proof fn lemma_obj_elem_decreases(v: JsonValue, i: int)
    requires
        v is Obj,
        0 <= i < (v->Obj_0)@.len(),
    ensures
        decreases_to!(v => (v->Obj_0)@[i].1),
{
    broadcast use vstd::std_specs::vec::axiom_vec_decreases_to_view;

    let fs = v->Obj_0;
    assert(decreases_to!(v => fs));
    assert(decreases_to!(fs => fs@));
    assert(decreases_to!(fs@ => fs@[i]));
    assert(decreases_to!(fs@[i] => fs@[i].1));
}

/// Byte-string equality.
pub fn compare_bytes(a: &Vec<u8>, b: &Vec<u8>) -> (r: bool)
    ensures
        r <==> a@ == b@,
{
    if a.len() != b.len() {
        return false;
    }
    let n = a.len();
    for i in 0..n
        invariant
            n == a.len() == b.len(),
            forall|k: int| 0 <= k < i ==> a[k] == b[k],
    {
        if a[i] != b[i] {
            return false;
        }
    }
    proof {
        assert(a@ =~= b@);
    }
    true
}

/// Deep equality on values, deciding equality of the models.
pub fn value_eq(a: &JsonValue, b: &JsonValue) -> (r: bool)
    ensures
        r <==> a@ == b@,
    decreases *a,
{
    match (a, b) {
        (JsonValue::Null, JsonValue::Null) => true,
        (JsonValue::Bool(x), JsonValue::Bool(y)) => x == y,
        (JsonValue::Int(x), JsonValue::Int(y)) => x == y,
        (JsonValue::Str(x), JsonValue::Str(y)) => {
            let r = compare_bytes(x, y);
            proof {
                if x@ == y@ {
                    assert(a@ =~= b@);
                }
            }
            r
        },
        (JsonValue::Arr(x), JsonValue::Arr(y)) => {
            proof {
                lemma_jview_list(x@);
                lemma_jview_list(y@);
            }
            if x.len() != y.len() {
                return false;
            }
            let n = x.len();
            for i in 0..n
                invariant
                    n == x.len() == y.len(),
                    a is Arr && a->Arr_0 == *x,
                    b is Arr && b->Arr_0 == *y,
                    forall|k: int| 0 <= k < i ==> jview(x@[k]) == jview(y@[k]),
            {
                proof {
                    lemma_arr_elem_decreases(*a, i as int);
                }
                if !value_eq(&x[i], &y[i]) {
                    proof {
                        lemma_jview_list(x@);
                        lemma_jview_list(y@);
                        assert(jview_list(x@)[i as int] != jview_list(y@)[i as int]);
                    }
                    return false;
                }
            }
            proof {
                lemma_jview_list(x@);
                lemma_jview_list(y@);
                assert(jview_list(x@) =~= jview_list(y@));
                assert(a@ =~= b@);
            }
            true
        },
        (JsonValue::Obj(x), JsonValue::Obj(y)) => {
            proof {
                lemma_jview_fields(x@);
                lemma_jview_fields(y@);
            }
            if x.len() != y.len() {
                return false;
            }
            let n = x.len();
            for i in 0..n
                invariant
                    n == x.len() == y.len(),
                    a is Obj && a->Obj_0 == *x,
                    b is Obj && b->Obj_0 == *y,
                    forall|k: int| 0 <= k < i ==> x@[k].0@ == y@[k].0@ && jview(x@[k].1)
                        == jview(y@[k].1),
            {
                let name_ok = compare_bytes(&x[i].0, &y[i].0);
                proof {
                    lemma_obj_elem_decreases(*a, i as int);
                }
                if !name_ok || !value_eq(&x[i].1, &y[i].1) {
                    proof {
                        lemma_jview_fields(x@);
                        lemma_jview_fields(y@);
                        assert(jview_fields(x@)[i as int] != jview_fields(y@)[i as int]);
                    }
                    return false;
                }
            }
            proof {
                lemma_jview_fields(x@);
                lemma_jview_fields(y@);
                assert(jview_fields(x@) =~~= jview_fields(y@));
                assert(a@ =~= b@);
            }
            true
        },
        _ => {
            proof {
                assert(a@ != b@);
            }
            false
        },
    }
}

/// Copy of a byte string with the same contents.
pub fn clone_bytes(v: &Vec<u8>) -> (r: Vec<u8>)
    ensures
        r@ == v@,
{
    let n = v.len();
    let mut out: Vec<u8> = Vec::new();
    for i in 0..n
        invariant
            n == v.len(),
            out@.len() == i,
            forall|k: int| 0 <= k < i ==> out[k] == v[k],
    {
        out.push(v[i]);
    }
    proof {
        assert(out@ =~= v@);
    }
    out
}

/// Deep copy of a value; the copy has the same model.
pub fn value_clone(v: &JsonValue) -> (r: JsonValue)
    ensures
        r@ == v@,
    decreases *v,
{
    match v {
        JsonValue::Null => JsonValue::Null,
        JsonValue::Bool(b) => JsonValue::Bool(*b),
        JsonValue::Int(n) => JsonValue::Int(*n),
        JsonValue::Str(s) => {
            let r = JsonValue::Str(clone_bytes(s));
            proof {
                assert(r@ =~= v@);
            }
            r
        },
        JsonValue::Arr(xs) => {
            let n = xs.len();
            let mut out: Vec<JsonValue> = Vec::new();
            for i in 0..n
                invariant
                    n == xs.len(),
                    v is Arr && v->Arr_0 == *xs,
                    out@.len() == i,
                    forall|k: int| 0 <= k < i ==> jview(out@[k]) == jview(xs@[k]),
            {
                proof {
                    lemma_arr_elem_decreases(*v, i as int);
                }
                out.push(value_clone(&xs[i]));
            }
            let r = JsonValue::Arr(out);
            proof {
                lemma_jview_list(out@);
                lemma_jview_list(xs@);
                assert(jview_list(out@) =~= jview_list(xs@));
                assert(r@ =~= v@);
            }
            r
        },
        JsonValue::Obj(fs) => {
            let n = fs.len();
            let mut out: Vec<(Vec<u8>, JsonValue)> = Vec::new();
            for i in 0..n
                invariant
                    n == fs.len(),
                    v is Obj && v->Obj_0 == *fs,
                    out@.len() == i,
                    forall|k: int| 0 <= k < i ==> out@[k].0@ == fs@[k].0@ && jview(out@[k].1)
                        == jview(fs@[k].1),
            {
                let name = clone_bytes(&fs[i].0);
                proof {
                    lemma_obj_elem_decreases(*v, i as int);
                }
                let val = value_clone(&fs[i].1);
                out.push((name, val));
            }
            let r = JsonValue::Obj(out);
            proof {
                lemma_jview_fields(out@);
                lemma_jview_fields(fs@);
                assert(jview_fields(out@) =~~= jview_fields(fs@));
                assert(r@ =~= v@);
            }
            r
        },
    }
}

} // verus!
