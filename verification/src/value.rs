//! The document tree type and its mathematical model.

use vstd::prelude::*;

verus! {

/// A node of a document tree: one of null, boolean, number, string,
/// array, or object.  Objects are ordered lists of key/value pairs;
/// insertion order is kept, keys are compared by content.
#[derive(Debug)]
pub enum Value {
    Null,
    Bool(bool),
    Number(i64),
    Text(String),
    Array(Vec<Value>),
    Object(Vec<(String, Value)>),
}

/// The mathematical model of a [`Value`]: the same tree over `int`,
/// `Seq<char>` and `Seq`, used by every contract of this crate.
#[verifier::ext_equal]
pub enum ValueModel {
    Null,
    Bool(bool),
    Number(int),
    Text(Seq<char>),
    Array(Seq<ValueModel>),
    Object(Seq<(Seq<char>, ValueModel)>),
}

/// The model of a tree: the same shape over mathematical types.
pub open spec fn value_model(v: Value) -> ValueModel
    decreases v,
{
    match v {
        Value::Null => ValueModel::Null,
        Value::Bool(b) => ValueModel::Bool(b),
        Value::Number(n) => ValueModel::Number(n as int),
        Value::Text(s) => ValueModel::Text(s@),
        Value::Array(a) => ValueModel::Array(
            Seq::new(
                a@.len(),
                |i: int|
                    if 0 <= i < a@.len() {
                        value_model(a@[i])
                    } else {
                        ValueModel::Null
                    },
            ),
        ),
        Value::Object(m) => ValueModel::Object(
            Seq::new(
                m@.len(),
                |i: int|
                    if 0 <= i < m@.len() {
                        (m@[i].0@, value_model(m@[i].1))
                    } else {
                        (Seq::<char>::empty(), ValueModel::Null)
                    },
            ),
        ),
    }
}

impl View for Value {
    type V = ValueModel;

    open spec fn view(&self) -> ValueModel {
        value_model(*self)
    }
}

impl DeepView for Value {
    type V = ValueModel;

    open spec fn deep_view(&self) -> ValueModel {
        self.view()
    }
}

/// A well-formed tree: every object's keys are pairwise distinct.  Trees
/// parsed from text are always well formed; a hand-built object may
/// repeat a key, and comparison then treats each repetition as a lookup
/// of the first.
pub open spec fn wf_model(v: ValueModel) -> bool
    decreases v,
{
    match v {
        ValueModel::Array(a) => forall|i: int| 0 <= i < a.len() ==> wf_model(a[i]),
        ValueModel::Object(o) => (forall|i: int, j: int|
            0 <= i < j < o.len() ==> o[i].0 != o[j].0) && (forall|i: int|
            0 <= i < o.len() ==> wf_model(o[i].1)),
        _ => true,
    }
}

/// Whether some entry of the object model carries the given key.
pub open spec fn obj_has_key(m: Seq<(Seq<char>, ValueModel)>, k: Seq<char>) -> bool {
    exists|i: int| 0 <= i < m.len() && m[i].0 == k
}

/// The index of the first entry carrying the given key, or the length of
/// the object model when no entry does.
pub open spec fn obj_key_idx(m: Seq<(Seq<char>, ValueModel)>, k: Seq<char>) -> int
    decreases m.len(),
{
    if m.len() == 0 {
        0
    } else if m[0].0 == k {
        0
    } else {
        1 + obj_key_idx(m.drop_first(), k)
    }
}

/// The value of the first entry carrying the given key.
pub open spec fn obj_get(m: Seq<(Seq<char>, ValueModel)>, k: Seq<char>) -> ValueModel {
    m[obj_key_idx(m, k)].1
}

/// `obj_key_idx` is the first index whose entry carries the key, and is the
/// length of the object model exactly when the key is absent.
pub proof fn lemma_obj_key_idx(m: Seq<(Seq<char>, ValueModel)>, k: Seq<char>)
    ensures
        obj_has_key(m, k) ==> {
            let i = obj_key_idx(m, k);
            0 <= i < m.len() && m[i].0 == k && (forall|j: int| 0 <= j < i ==> m[j].0 != k)
        },
        !obj_has_key(m, k) ==> obj_key_idx(m, k) == m.len(),
    decreases m.len(),
{
    if m.len() == 0 {
    } else if m[0].0 == k {
    } else {
        lemma_obj_key_idx(m.drop_first(), k);
        assert forall|i: int| 0 <= i < m.len() && m[i].0 == k implies 1 <= i by {
        }
        if obj_has_key(m, k) {
            let w = choose|i: int| 0 <= i < m.len() && m[i].0 == k;
            assert(m.drop_first()[w - 1].0 == k);
            assert(obj_has_key(m.drop_first(), k));
            let i0 = obj_key_idx(m.drop_first(), k);
            assert(m.drop_first()[i0] == m[i0 + 1]);
            assert(m[obj_key_idx(m, k)].0 == k);
            assert forall|j: int| 0 <= j < obj_key_idx(m, k) implies m[j].0 != k by {
                if j >= 1 {
                    assert(m.drop_first()[j - 1] == m[j]);
                }
            }
        } else {
            assert forall|i: int| 0 <= i < m.drop_first().len() implies m.drop_first()[i].0 != k by {
                assert(m.drop_first()[i] == m[i + 1]);
            }
        }
    }
}

impl Clone for Value {
    /// A clone is equal to the original in the model.
    fn clone(&self) -> (r: Self)
        ensures
            r@ == self@,
    {
        deep_copy(self)
    }
}

/// Returns an independent copy of the given tree, equal to it in the model.
#[verifier::loop_isolation(false)]
pub fn deep_copy(v: &Value) -> (r: Value)
    ensures
        r@ == v@,
    decreases *v,
{
    match v {
        Value::Null => Value::Null,
        Value::Bool(b) => Value::Bool(*b),
        Value::Number(n) => Value::Number(*n),
        Value::Text(s) => Value::Text(s.clone()),
        Value::Array(a) => {
            let mut out: Vec<Value> = Vec::new();
            let mut i: usize = 0;
            while i < a.len()
                invariant
                    i <= a.len(),
                    out@.len() == i,
                    forall|k: int| 0 <= k < i ==> out@[k]@ == a@[k]@,
                decreases a.len() - i,
            {
                proof {
                    assert(decreases_to!(*v => v->Array_0));
                    assert(decreases_to!(*a => a@));
                    assert(decreases_to!(a@ => a@[i as int]));
                }
                out.push(deep_copy(&a[i]));
                i = i + 1;
            }
            let r = Value::Array(out);
            proof {
                assert(r@ matches ValueModel::Array(s) && s =~= v@->Array_0);
            }
            r
        },
        Value::Object(m) => {
            let mut out: Vec<(String, Value)> = Vec::new();
            let mut i: usize = 0;
            while i < m.len()
                invariant
                    i <= m.len(),
                    out@.len() == i,
                    forall|k: int| 0 <= k < i ==> out@[k].0@ == m@[k].0@ && out@[k].1@ == m@[k].1@,
                decreases m.len() - i,
            {
                proof {
                    assert(decreases_to!(*v => v->Object_0));
                    assert(decreases_to!(*m => m@));
                    assert(decreases_to!(m@ => m@[i as int]));
                    assert(decreases_to!(m@[i as int] => m@[i as int].1));
                }
                let entry = &m[i];
                out.push((entry.0.clone(), deep_copy(&entry.1)));
                i = i + 1;
            }
            let r = Value::Object(out);
            proof {
                assert(r@ matches ValueModel::Object(s) && s =~= v@->Object_0);
            }
            r
        },
    }
}

} // verus!
