//! A dynamically-typed, JSON-like value: the field values of category records
//! and the detail payloads. `JsonValue` is the executable representation;
//! `ValueModel` is its mathematical abstraction, reached through `@`.

use vstd::prelude::*;

verus! {

broadcast use vstd::std_specs::vec::group_vec_axioms;

/// Executable JSON-like value. Numbers are held as `i64`: every identifier in
/// the datasets this library serves is an integer.
#[derive(Debug, PartialEq)]
pub enum JsonValue {
    Null,
    Bool(bool),
    Int(i64),
    Str(String),
    Array(Vec<JsonValue>),
    Object(Vec<(String, JsonValue)>),
}

/// Mathematical abstraction of a `JsonValue`: strings become `Seq<char>`,
/// vectors become `Seq`, machine integers become `int`.
#[verifier::ext_equal]
pub enum ValueModel {
    Null,
    Bool(bool),
    Int(int),
    Str(Seq<char>),
    Arr(Seq<ValueModel>),
    Obj(Seq<(Seq<char>, ValueModel)>),
}

/// The abstraction of a value: structure kept, every leaf abstracted.
pub open spec fn value_model(v: JsonValue) -> ValueModel
    decreases v,
{
    match v {
        JsonValue::Null => ValueModel::Null,
        JsonValue::Bool(b) => ValueModel::Bool(b),
        JsonValue::Int(i) => ValueModel::Int(i as int),
        JsonValue::Str(s) => ValueModel::Str(s@),
        // The range tests below only keep the recursion well-founded;
        // `Seq::new` never applies the closure outside the range.
        JsonValue::Array(items) => ValueModel::Arr(
            Seq::new(
                items@.len(),
                |i: int|
                    if 0 <= i < items@.len() {
                        value_model(items@[i])
                    } else {
                        ValueModel::Null
                    },
            ),
        ),
        JsonValue::Object(fields) => ValueModel::Obj(
            Seq::new(
                fields@.len(),
                |i: int|
                    if 0 <= i < fields@.len() {
                        (fields@[i].0@, value_model(fields@[i].1))
                    } else {
                        (Seq::empty(), ValueModel::Null)
                    },
            ),
        ),
    }
}

impl View for JsonValue {
    type V = ValueModel;

    open spec fn view(&self) -> ValueModel {
        value_model(*self)
    }
}

/// A copy of a value, equal to the original in the model.
fn clone_value(v: &JsonValue) -> (res: JsonValue)
    ensures
        res@ == v@,
    decreases *v,
{
    match v {
        JsonValue::Null => JsonValue::Null,
        JsonValue::Bool(b) => JsonValue::Bool(*b),
        JsonValue::Int(i) => JsonValue::Int(*i),
        JsonValue::Str(s) => JsonValue::Str(s.clone()),
        JsonValue::Array(items) => {
            let mut out: Vec<JsonValue> = Vec::new();
            let mut i: usize = 0;
            while i < items.len()
                invariant
                    *v == JsonValue::Array(*items),
                    i <= items@.len(),
                    out@.len() == i,
                    forall|j: int| 0 <= j < i ==> out@[j]@ == items@[j]@,
                decreases items@.len() - i,
            {
                proof {
                    // The element cloned next sits below `*v` in the
                    // termination order.
                    assert(decreases_to!(*v => v->Array_0));
                    assert(decreases_to!(v->Array_0 => v->Array_0@));
                    assert(decreases_to!(items@ => items@[i as int]));
                }
                out.push(clone_value(&items[i]));
                i = i + 1;
            }
            proof {
                let m1 = value_model(JsonValue::Array(out));
                let m2 = value_model(*v);
                assert forall|j: int| 0 <= j < m1->Arr_0.len() implies m1->Arr_0[j]
                    == m2->Arr_0[j] by {
                    assert(out@[j]@ == items@[j]@);
                }
                assert(m1->Arr_0 =~= m2->Arr_0);
                assert(m1 =~~= m2);
            }
            JsonValue::Array(out)
        },
        JsonValue::Object(fields) => {
            let mut out: Vec<(String, JsonValue)> = Vec::new();
            let mut i: usize = 0;
            while i < fields.len()
                invariant
                    *v == JsonValue::Object(*fields),
                    i <= fields@.len(),
                    out@.len() == i,
                    forall|j: int|
                        0 <= j < i ==> out@[j].0@ == fields@[j].0@ && out@[j].1@ == fields@[j].1@,
                decreases fields@.len() - i,
            {
                proof {
                    // The value cloned next sits below `*v` in the
                    // termination order.
                    assert(decreases_to!(*v => v->Object_0));
                    assert(decreases_to!(v->Object_0 => v->Object_0@));
                    assert(decreases_to!(fields@ => fields@[i as int]));
                    assert(decreases_to!(fields@[i as int] => fields@[i as int].1));
                }
                let entry = &fields[i];
                out.push((entry.0.clone(), clone_value(&entry.1)));
                i = i + 1;
            }
            proof {
                let m1 = value_model(JsonValue::Object(out));
                let m2 = value_model(*v);
                assert forall|j: int| 0 <= j < m1->Obj_0.len() implies m1->Obj_0[j]
                    == m2->Obj_0[j] by {
                    assert(out@[j].0@ == fields@[j].0@ && out@[j].1@ == fields@[j].1@);
                }
                assert(m1->Obj_0 =~= m2->Obj_0);
                assert(m1 =~~= m2);
            }
            JsonValue::Object(out)
        },
    }
}

impl Clone for JsonValue {
    /// A clone leaves the model unchanged.
    fn clone(&self) -> (res: Self)
        ensures
            res@ == self@,
    {
        clone_value(self)
    }
}

} // verus!
