//! The tree differ: walks two value trees in lock-step and emits an ordered
//! list of change records.  Arrays are reconciled either positionally or by
//! greedy order-insensitive content matching.

use vstd::prelude::*;

use crate::text::dec_digits;
use crate::value::{deep_copy, obj_get, obj_has_key, obj_key_idx, wf_model, Value, ValueModel};

verus! {

/// The classification of one change record.  `Moved` is a reserved
/// extension point: the differ never produces it.
#[derive(Debug, Clone, Copy, PartialEq, Eq, Structural)]
pub enum DiffType {
    Added,
    Removed,
    Modified,
    Moved,
}

/// One change record: where in the tree the change lies, what kind it is,
/// and the value before and after (each present only when meaningful).
#[derive(Debug, Clone)]
pub struct Diff {
    pub path: String,
    pub diff_type: DiffType,
    pub old_value: Option<Value>,
    pub new_value: Option<Value>,
}

/// The mathematical model of a [`Diff`] record.
#[verifier::ext_equal]
pub struct ChangeModel {
    pub path: Seq<char>,
    pub kind: DiffType,
    pub old_value: Option<ValueModel>,
    pub new_value: Option<ValueModel>,
}

impl View for Diff {
    type V = ChangeModel;

    open spec fn view(&self) -> ChangeModel {
        ChangeModel {
            path: self.path@,
            kind: self.diff_type,
            old_value: match self.old_value {
                Some(v) => Some(v@),
                None => None,
            },
            new_value: match self.new_value {
                Some(v) => Some(v@),
                None => None,
            },
        }
    }
}

impl DeepView for Diff {
    type V = ChangeModel;

    open spec fn deep_view(&self) -> ChangeModel {
        self.view()
    }
}

/// The record for a value substitution at `path`.
pub open spec fn modified_change(path: Seq<char>, old: ValueModel, new: ValueModel) -> ChangeModel {
    ChangeModel { path, kind: DiffType::Modified, old_value: Some(old), new_value: Some(new) }
}

/// The record for a value only present on the old side.
pub open spec fn removed_change(path: Seq<char>, old: ValueModel) -> ChangeModel {
    ChangeModel { path, kind: DiffType::Removed, old_value: Some(old), new_value: None }
}

/// The record for a value only present on the new side.
pub open spec fn added_change(path: Seq<char>, new: ValueModel) -> ChangeModel {
    ChangeModel { path, kind: DiffType::Added, old_value: None, new_value: Some(new) }
}

/// The path of an object member `k` under `base`: `base.k`, without the
/// separator when `base` is the root.
pub open spec fn key_path(base: Seq<char>, k: Seq<char>) -> Seq<char> {
    if base.len() == 0 {
        k
    } else {
        base + "."@ + k
    }
}

/// The path of array index `i` under `base`: `base[i]`.
pub open spec fn index_path(base: Seq<char>, i: int) -> Seq<char> {
    base + "["@ + dec_digits(i) + "]"@
}

/// Deep equality of two value models, used by order-insensitive array
/// matching.  Arrays are equal when they have the same length and, per the
/// same `io` flag, are element-wise equal or greedily match one-to-one;
/// objects are equal when they have the same entry count and every entry's
/// key is carried by the other object with a deeply equal first value.
pub open spec fn equal_model(v1: ValueModel, v2: ValueModel, io: bool) -> bool
    decreases v1, 0int,
{
    match (v1, v2) {
        (ValueModel::Null, ValueModel::Null) => true,
        (ValueModel::Bool(b1), ValueModel::Bool(b2)) => b1 == b2,
        (ValueModel::Number(n1), ValueModel::Number(n2)) => n1 == n2,
        (ValueModel::Text(s1), ValueModel::Text(s2)) => s1 == s2,
        (ValueModel::Array(a1), ValueModel::Array(a2)) => a1.len() == a2.len() && if io {
            all_matched(a1, a2, Seq::new(a2.len(), |j: int| j), io, 0)
        } else {
            forall|i: int| 0 <= i < a1.len() ==> equal_model(a1[i], a2[i], io)
        },
        (ValueModel::Object(o1), ValueModel::Object(o2)) => o1.len() == o2.len()
            && forall|i: int|
            0 <= i < o1.len() ==> obj_has_key(o2, o1[i].0) && equal_model(
                o1[i].1,
                obj_get(o2, o1[i].0),
                io,
            ),
        _ => false,
    }
}

/// The first position `t` at or after `from` such that `avail[t]` names an
/// element of `a2` deeply equal to `v`, or `avail.len()` when none does.
pub open spec fn first_match_from(
    v: ValueModel,
    a2: Seq<ValueModel>,
    avail: Seq<int>,
    io: bool,
    from: int,
) -> int
    decreases v, avail.len() - from,
{
    if from < 0 || from >= avail.len() {
        avail.len() as int
    } else if equal_model(v, a2[avail[from]], io) {
        from
    } else {
        first_match_from(v, a2, avail, io, from + 1)
    }
}

/// Greedy one-to-one matching: every element of `a1` from position `i` on,
/// taken in order, claims the first still-available element of `a2` deeply
/// equal to it; the whole run succeeds only if every element finds one.
pub open spec fn all_matched(
    a1: Seq<ValueModel>,
    a2: Seq<ValueModel>,
    avail: Seq<int>,
    io: bool,
    i: int,
) -> bool
    decreases a1, a1.len() - i,
{
    if i < 0 || i >= a1.len() {
        true
    } else {
        let t = first_match_from(a1[i], a2, avail, io, 0);
        if t < avail.len() {
            all_matched(a1, a2, avail.remove(t), io, i + 1)
        } else {
            false
        }
    }
}

/// The change records of the position-preserving array walk from index `i`
/// on: shared indices recurse, surplus old elements are removed, surplus
/// new elements are added.
pub open spec fn ordered_diff(
    a1: Seq<ValueModel>,
    a2: Seq<ValueModel>,
    io: bool,
    path: Seq<char>,
    i: int,
) -> Seq<ChangeModel>
    decreases a1, vstd::math::max(a1.len() as int, a2.len() as int) - i,
{
    let n = vstd::math::max(a1.len() as int, a2.len() as int);
    if i < 0 || i >= n {
        Seq::empty()
    } else {
        let recs = if i < a1.len() && i < a2.len() {
            diff_at(a1[i], a2[i], io, index_path(path, i))
        } else if i < a1.len() {
            seq![removed_change(index_path(path, i), a1[i])]
        } else {
            seq![added_change(index_path(path, i), a2[i])]
        };
        recs + ordered_diff(a1, a2, io, path, i + 1)
    }
}

/// The removal pass of order-insensitive array reconciliation, from
/// position `i` of the old array on: each old element claims the first
/// still-available deeply equal new element; an unclaimed old element
/// yields a `Removed` record at its own index.  Returns the records and
/// the indices of `a2` still unclaimed.
pub open spec fn unordered_pass1(
    a1: Seq<ValueModel>,
    a2: Seq<ValueModel>,
    avail: Seq<int>,
    io: bool,
    path: Seq<char>,
    i: int,
) -> (Seq<ChangeModel>, Seq<int>)
    decreases a1.len() - i,
{
    if i < 0 || i >= a1.len() {
        (Seq::empty(), avail)
    } else {
        let t = first_match_from(a1[i], a2, avail, io, 0);
        if t < avail.len() {
            unordered_pass1(a1, a2, avail.remove(t), io, path, i + 1)
        } else {
            let rest = unordered_pass1(a1, a2, avail, io, path, i + 1);
            (seq![removed_change(index_path(path, i), a1[i])] + rest.0, rest.1)
        }
    }
}

/// The addition pass of order-insensitive array reconciliation: one
/// `Added` record per unclaimed new element, keyed by its original index.
pub open spec fn unordered_added(
    a2: Seq<ValueModel>,
    remaining: Seq<int>,
    path: Seq<char>,
) -> Seq<ChangeModel> {
    remaining.map_values(|j: int| added_change(index_path(path, j), a2[j]))
}

/// The change records of order-insensitive array reconciliation: the
/// removal pass over the old array, then the addition pass over what is
/// left of the new one.
pub open spec fn unordered_diff(
    a1: Seq<ValueModel>,
    a2: Seq<ValueModel>,
    io: bool,
    path: Seq<char>,
) -> Seq<ChangeModel> {
    let r = unordered_pass1(a1, a2, Seq::new(a2.len(), |j: int| j), io, path, 0);
    r.0 + unordered_added(a2, r.1, path)
}

/// The records of the first object pass from entry `i` of the old object
/// on: a key carried by both sides recurses on the two values, a key only
/// on the old side yields a `Removed` record.
pub open spec fn obj_diff_pass1(
    o1: Seq<(Seq<char>, ValueModel)>,
    o2: Seq<(Seq<char>, ValueModel)>,
    io: bool,
    path: Seq<char>,
    i: int,
) -> Seq<ChangeModel>
    decreases o1, o1.len() - i,
{
    if i < 0 || i >= o1.len() {
        Seq::empty()
    } else {
        let k = o1[i].0;
        let recs = if obj_has_key(o2, k) {
            diff_at(o1[i].1, obj_get(o2, k), io, key_path(path, k))
        } else {
            seq![removed_change(key_path(path, k), o1[i].1)]
        };
        recs + obj_diff_pass1(o1, o2, io, path, i + 1)
    }
}

/// The records of the second object pass from entry `j` of the new object
/// on: a key only on the new side yields an `Added` record.
pub open spec fn obj_diff_pass2(
    o1: Seq<(Seq<char>, ValueModel)>,
    o2: Seq<(Seq<char>, ValueModel)>,
    path: Seq<char>,
    j: int,
) -> Seq<ChangeModel>
    decreases o2.len() - j,
{
    if j < 0 || j >= o2.len() {
        Seq::empty()
    } else {
        let rest = obj_diff_pass2(o1, o2, path, j + 1);
        if obj_has_key(o1, o2[j].0) {
            rest
        } else {
            seq![added_change(key_path(path, o2[j].0), o2[j].1)] + rest
        }
    }
}

/// The ordered change records of comparing `v1` to `v2` at `path`.  Equal
/// scalars yield nothing; array and object pairs recurse; any other
/// pairing is a single value substitution.
pub open spec fn diff_at(v1: ValueModel, v2: ValueModel, io: bool, path: Seq<char>) -> Seq<
    ChangeModel,
>
    decreases v1, 0int,
{
    match (v1, v2) {
        (ValueModel::Null, ValueModel::Null) => Seq::empty(),
        (ValueModel::Bool(b1), ValueModel::Bool(b2)) => if b1 == b2 {
            Seq::empty()
        } else {
            seq![modified_change(path, v1, v2)]
        },
        (ValueModel::Number(n1), ValueModel::Number(n2)) => if n1 == n2 {
            Seq::empty()
        } else {
            seq![modified_change(path, v1, v2)]
        },
        (ValueModel::Text(s1), ValueModel::Text(s2)) => if s1 == s2 {
            Seq::empty()
        } else {
            seq![modified_change(path, v1, v2)]
        },
        (ValueModel::Array(a1), ValueModel::Array(a2)) => if io {
            unordered_diff(a1, a2, io, path)
        } else {
            ordered_diff(a1, a2, io, path, 0)
        },
        (ValueModel::Object(o1), ValueModel::Object(o2)) => obj_diff_pass1(o1, o2, io, path, 0)
            + obj_diff_pass2(o1, o2, path, 0),
        _ => seq![modified_change(path, v1, v2)],
    }
}

/// The ordered change records of comparing two whole trees.
pub open spec fn diff_of(v1: ValueModel, v2: ValueModel, io: bool) -> Seq<ChangeModel> {
    diff_at(v1, v2, io, Seq::empty())
}

/// In a well-formed object every entry is the first carrier of its key.
proof fn lemma_obj_get_own_entry(o: Seq<(Seq<char>, ValueModel)>, i: int)
    requires
        0 <= i < o.len(),
        forall|p: int, q: int| 0 <= p < q < o.len() ==> o[p].0 != o[q].0,
    ensures
        obj_has_key(o, o[i].0),
        obj_get(o, o[i].0) == o[i].1,
{
    crate::value::lemma_obj_key_idx(o, o[i].0);
    let w = obj_key_idx(o, o[i].0);
    if w < i {
        assert(o[w].0 == o[i].0);
    }
}

/// Deep equality is reflexive on well-formed trees.
proof fn lemma_equal_model_refl(v: ValueModel, io: bool)
    requires
        wf_model(v),
    ensures
        equal_model(v, v, io),
    decreases v, 0int,
{
    match v {
        ValueModel::Array(a) => {
            if io {
                lemma_all_matched_refl(a, io, 0);
                assert(Seq::new((a.len() - 0) as nat, |t: int| 0 + t) =~= Seq::new(
                    a.len(),
                    |j: int| j,
                ));
            } else {
                assert forall|i: int| 0 <= i < a.len() implies equal_model(a[i], a[i], io) by {
                    lemma_equal_model_refl(a[i], io);
                }
            }
        },
        ValueModel::Object(o) => {
            assert forall|i: int| 0 <= i < o.len() implies obj_has_key(o, o[i].0) && equal_model(
                o[i].1,
                obj_get(o, o[i].0),
                io,
            ) by {
                lemma_obj_get_own_entry(o, i);
                lemma_equal_model_refl(o[i].1, io);
            }
        },
        _ => {},
    }
}

/// Greedy matching of a well-formed array against itself succeeds: each
/// element claims its own position.
proof fn lemma_all_matched_refl(a: Seq<ValueModel>, io: bool, i: int)
    requires
        0 <= i <= a.len(),
        forall|k: int| 0 <= k < a.len() ==> wf_model(a[k]),
    ensures
        all_matched(a, a, Seq::new((a.len() - i) as nat, |t: int| i + t), io, i),
    decreases a, a.len() - i,
{
    let avail = Seq::new((a.len() - i) as nat, |t: int| i + t);
    if i < a.len() {
        lemma_equal_model_refl(a[i], io);
        assert(avail[0] == i);
        assert(equal_model(a[i], a[avail[0]], io));
        assert(first_match_from(a[i], a, avail, io, 0) == 0);
        lemma_all_matched_refl(a, io, i + 1);
        assert(avail.remove(0) =~= Seq::new((a.len() - (i + 1)) as nat, |t: int| i + 1 + t));
    }
}

/// The removal pass of a well-formed array against itself claims every
/// element and emits nothing.
proof fn lemma_unordered_pass1_refl(a: Seq<ValueModel>, io: bool, path: Seq<char>, i: int)
    requires
        0 <= i <= a.len(),
        forall|k: int| 0 <= k < a.len() ==> wf_model(a[k]),
    ensures
        unordered_pass1(a, a, Seq::new((a.len() - i) as nat, |t: int| i + t), io, path, i) == (
            Seq::<ChangeModel>::empty(),
            Seq::<int>::empty(),
        ),
    decreases a, a.len() - i,
{
    let avail = Seq::new((a.len() - i) as nat, |t: int| i + t);
    if i >= a.len() {
        assert(avail =~= Seq::<int>::empty());
    } else {
        lemma_equal_model_refl(a[i], io);
        assert(avail[0] == i);
        assert(first_match_from(a[i], a, avail, io, 0) == 0);
        lemma_unordered_pass1_refl(a, io, path, i + 1);
        assert(avail.remove(0) =~= Seq::new((a.len() - (i + 1)) as nat, |t: int| i + 1 + t));
    }
}

/// The position-preserving walk of a well-formed array against itself
/// emits nothing.
proof fn lemma_ordered_diff_refl(a: Seq<ValueModel>, io: bool, path: Seq<char>, i: int)
    requires
        0 <= i <= a.len(),
        forall|k: int| 0 <= k < a.len() ==> wf_model(a[k]),
    ensures
        ordered_diff(a, a, io, path, i) == Seq::<ChangeModel>::empty(),
    decreases a, a.len() - i,
{
    if i < a.len() {
        lemma_diff_at_refl(a[i], io, index_path(path, i));
        lemma_ordered_diff_refl(a, io, path, i + 1);
        assert(ordered_diff(a, a, io, path, i) =~= Seq::<ChangeModel>::empty());
    }
}

/// The first object pass of a well-formed object against itself emits
/// nothing.
proof fn lemma_obj_pass1_refl(o: Seq<(Seq<char>, ValueModel)>, io: bool, path: Seq<char>, i: int)
    requires
        0 <= i <= o.len(),
        forall|p: int, q: int| 0 <= p < q < o.len() ==> o[p].0 != o[q].0,
        forall|k: int| 0 <= k < o.len() ==> wf_model(o[k].1),
    ensures
        obj_diff_pass1(o, o, io, path, i) == Seq::<ChangeModel>::empty(),
    decreases o, o.len() - i,
{
    if i < o.len() {
        lemma_obj_get_own_entry(o, i);
        lemma_diff_at_refl(o[i].1, io, key_path(path, o[i].0));
        lemma_obj_pass1_refl(o, io, path, i + 1);
        assert(obj_diff_pass1(o, o, io, path, i) =~= Seq::<ChangeModel>::empty());
    }
}

/// The second object pass of an object against itself emits nothing:
/// every key of the new side is carried by the old side.
proof fn lemma_obj_pass2_refl(o: Seq<(Seq<char>, ValueModel)>, path: Seq<char>, j: int)
    requires
        0 <= j <= o.len(),
    ensures
        obj_diff_pass2(o, o, path, j) == Seq::<ChangeModel>::empty(),
    decreases o.len() - j,
{
    if j < o.len() {
        assert(obj_has_key(o, o[j].0));
        lemma_obj_pass2_refl(o, path, j + 1);
    }
}

/// Comparing a well-formed tree to itself at any path emits nothing.
proof fn lemma_diff_at_refl(v: ValueModel, io: bool, path: Seq<char>)
    requires
        wf_model(v),
    ensures
        diff_at(v, v, io, path) == Seq::<ChangeModel>::empty(),
    decreases v, 0int,
{
    match v {
        ValueModel::Array(a) => {
            if io {
                lemma_unordered_pass1_refl(a, io, path, 0);
                assert(Seq::new((a.len() - 0) as nat, |t: int| 0 + t) =~= Seq::new(a.len(), |j: int| j));
                assert(unordered_added(a, Seq::<int>::empty(), path) =~= Seq::<
                    ChangeModel,
                >::empty());
                assert(diff_at(v, v, io, path) =~= Seq::<ChangeModel>::empty());
            } else {
                lemma_ordered_diff_refl(a, io, path, 0);
            }
        },
        ValueModel::Object(o) => {
            lemma_obj_pass1_refl(o, io, path, 0);
            lemma_obj_pass2_refl(o, path, 0);
            assert(diff_at(v, v, io, path) =~= Seq::<ChangeModel>::empty());
        },
        _ => {},
    }
}

/// The values a record of the given kind carries: old for `Removed`,
/// new for `Added`, both for `Modified`.
pub open spec fn wf_change(c: ChangeModel) -> bool {
    match c.kind {
        DiffType::Added => c.old_value is None && c.new_value is Some,
        DiffType::Removed => c.old_value is Some && c.new_value is None,
        DiffType::Modified => c.old_value is Some && c.new_value is Some,
        DiffType::Moved => true,
    }
}

/// Every record of the list carries exactly the values its kind calls
/// for, and none is `Moved`.
pub open spec fn all_shaped(cs: Seq<ChangeModel>) -> bool {
    forall|i: int| 0 <= i < cs.len() ==> wf_change(cs[i]) && cs[i].kind != DiffType::Moved
}

proof fn lemma_all_shaped_concat(a: Seq<ChangeModel>, b: Seq<ChangeModel>)
    requires
        all_shaped(a),
        all_shaped(b),
    ensures
        all_shaped(a + b),
{
    assert forall|i: int| 0 <= i < (a + b).len() implies wf_change((a + b)[i]) && (a + b)[i].kind
        != DiffType::Moved by {
        if i < a.len() {
            assert((a + b)[i] == a[i]);
        } else {
            assert((a + b)[i] == b[i - a.len()]);
        }
    }
}

proof fn lemma_shape_ordered(a1: Seq<ValueModel>, a2: Seq<ValueModel>, io: bool, path: Seq<char>, i: int)
    ensures
        all_shaped(ordered_diff(a1, a2, io, path, i)),
    decreases a1, vstd::math::max(a1.len() as int, a2.len() as int) - i,
{
    let n = vstd::math::max(a1.len() as int, a2.len() as int);
    if 0 <= i < n {
        let recs = if i < a1.len() && i < a2.len() {
            lemma_shape_at(a1[i], a2[i], io, index_path(path, i));
            diff_at(a1[i], a2[i], io, index_path(path, i))
        } else if i < a1.len() {
            seq![removed_change(index_path(path, i), a1[i])]
        } else {
            seq![added_change(index_path(path, i), a2[i])]
        };
        lemma_shape_ordered(a1, a2, io, path, i + 1);
        lemma_all_shaped_concat(recs, ordered_diff(a1, a2, io, path, i + 1));
    }
}

proof fn lemma_shape_pass1(
    a1: Seq<ValueModel>,
    a2: Seq<ValueModel>,
    avail: Seq<int>,
    io: bool,
    path: Seq<char>,
    i: int,
)
    ensures
        all_shaped(unordered_pass1(a1, a2, avail, io, path, i).0),
    decreases a1.len() - i,
{
    if 0 <= i < a1.len() {
        let t = first_match_from(a1[i], a2, avail, io, 0);
        if t < avail.len() {
            lemma_shape_pass1(a1, a2, avail.remove(t), io, path, i + 1);
        } else {
            lemma_shape_pass1(a1, a2, avail, io, path, i + 1);
            lemma_all_shaped_concat(
                seq![removed_change(index_path(path, i), a1[i])],
                unordered_pass1(a1, a2, avail, io, path, i + 1).0,
            );
        }
    }
}

proof fn lemma_shape_obj1(
    o1: Seq<(Seq<char>, ValueModel)>,
    o2: Seq<(Seq<char>, ValueModel)>,
    io: bool,
    path: Seq<char>,
    i: int,
)
    ensures
        all_shaped(obj_diff_pass1(o1, o2, io, path, i)),
    decreases o1, o1.len() - i,
{
    if 0 <= i < o1.len() {
        let k = o1[i].0;
        let recs = if obj_has_key(o2, k) {
            lemma_shape_at(o1[i].1, obj_get(o2, k), io, key_path(path, k));
            diff_at(o1[i].1, obj_get(o2, k), io, key_path(path, k))
        } else {
            seq![removed_change(key_path(path, k), o1[i].1)]
        };
        lemma_shape_obj1(o1, o2, io, path, i + 1);
        lemma_all_shaped_concat(recs, obj_diff_pass1(o1, o2, io, path, i + 1));
    }
}

proof fn lemma_shape_obj2(
    o1: Seq<(Seq<char>, ValueModel)>,
    o2: Seq<(Seq<char>, ValueModel)>,
    path: Seq<char>,
    j: int,
)
    ensures
        all_shaped(obj_diff_pass2(o1, o2, path, j)),
    decreases o2.len() - j,
{
    if 0 <= j < o2.len() {
        lemma_shape_obj2(o1, o2, path, j + 1);
        if !obj_has_key(o1, o2[j].0) {
            lemma_all_shaped_concat(
                seq![added_change(key_path(path, o2[j].0), o2[j].1)],
                obj_diff_pass2(o1, o2, path, j + 1),
            );
        }
    }
}

proof fn lemma_shape_at(v1: ValueModel, v2: ValueModel, io: bool, path: Seq<char>)
    ensures
        all_shaped(diff_at(v1, v2, io, path)),
    decreases v1, 0int,
{
    match (v1, v2) {
        (ValueModel::Array(a1), ValueModel::Array(a2)) => {
            if io {
                let avail = Seq::new(a2.len(), |j: int| j);
                lemma_shape_pass1(a1, a2, avail, io, path, 0);
                let r = unordered_pass1(a1, a2, avail, io, path, 0);
                assert forall|i: int| 0 <= i < unordered_added(a2, r.1, path).len() implies
                    wf_change(unordered_added(a2, r.1, path)[i]) && unordered_added(
                    a2,
                    r.1,
                    path,
                )[i].kind != DiffType::Moved by {
                    assert(unordered_added(a2, r.1, path)[i] == added_change(
                        index_path(path, r.1[i]),
                        a2[r.1[i]],
                    ));
                }
                lemma_all_shaped_concat(r.0, unordered_added(a2, r.1, path));
            } else {
                lemma_shape_ordered(a1, a2, io, path, 0);
            }
        },
        (ValueModel::Object(o1), ValueModel::Object(o2)) => {
            lemma_shape_obj1(o1, o2, io, path, 0);
            lemma_shape_obj2(o1, o2, path, 0);
            lemma_all_shaped_concat(
                obj_diff_pass1(o1, o2, io, path, 0),
                obj_diff_pass2(o1, o2, path, 0),
            );
        },
        _ => {},
    }
}

/// Every record the differ emits carries exactly the values its kind
/// calls for -- old for `Removed`, new for `Added`, both for `Modified`
/// -- and the reserved `Moved` kind is never produced.
pub proof fn lemma_diff_record_shape(v1: ValueModel, v2: ValueModel, io: bool)
    ensures
        all_shaped(diff_of(v1, v2, io)),
{
    lemma_shape_at(v1, v2, io, Seq::empty());
}

/// Reflexivity: comparing a well-formed tree to itself, under either
/// array-reconciliation policy, yields no change records.
pub proof fn lemma_diff_reflexive(v: ValueModel, io: bool)
    requires
        wf_model(v),
    ensures
        diff_of(v, v, io) == Seq::<ChangeModel>::empty(),
{
    lemma_diff_at_refl(v, io, Seq::empty());
}

fn index_path_string(path: &str, i: usize) -> (s: String)
    ensures
        s@ == index_path(path@, i as int),
{
    let mut s = path.to_owned();
    s.append("[");
    let digits = crate::text::u64_to_string(i as u64);
    s.append(digits.as_str());
    s.append("]");
    proof {
        assert(s@ =~= index_path(path@, i as int));
    }
    s
}

fn key_path_string(path: &str, k: &String) -> (s: String)
    ensures
        s@ == key_path(path@, k@),
{
    if path.is_empty() {
        k.clone()
    } else {
        let mut s = path.to_owned();
        s.append(".");
        s.append(k.as_str());
        proof {
            assert(s@ =~= key_path(path@, k@));
        }
        s
    }
}

/// The index of the first entry of `o` whose key equals `k`, if any.
fn lookup(o: &Vec<(String, Value)>, k: &String) -> (r: Option<usize>)
    ensures
        match r {
            Some(i) => 0 <= i < o.deep_view().len() && o.deep_view()[i as int].0 == k@
                && obj_has_key(o.deep_view(), k@) && obj_key_idx(o.deep_view(), k@) == i,
            None => !obj_has_key(o.deep_view(), k@),
        },
{
    let ghost m = o.deep_view();
    let mut i: usize = 0;
    while i < o.len()
        invariant
            0 <= i <= o.len(),
            m == o.deep_view(),
            m.len() == o.len(),
            forall|j: int| 0 <= j < i ==> m[j].0 != k@,
        decreases o.len() - i,
    {
        if o[i].0.eq(k) {
            proof {
                crate::value::lemma_obj_key_idx(m, k@);
                assert(m[i as int].0 == k@);
            }
            return Some(i);
        }
        i = i + 1;
    }
    proof {
        if obj_has_key(m, k@) {
            let w = choose|j: int| 0 <= j < m.len() && m[j].0 == k@;
            assert(m[w].0 != k@);
        }
    }
    None
}

/// Characterizes `first_match_from` by the contents of `avail`: scanning
/// from `u`, the first hit is at `t` (or there is none and `t` is the
/// scan's end).
proof fn lemma_first_match_from_at(
    v: ValueModel,
    a2: Seq<ValueModel>,
    avail: Seq<int>,
    io: bool,
    u: int,
    t: int,
)
    requires
        0 <= u <= t <= avail.len(),
        forall|s: int| u <= s < t ==> !equal_model(v, a2[avail[s]], io),
        t < avail.len() ==> equal_model(v, a2[avail[t]], io),
    ensures
        first_match_from(v, a2, avail, io, u) == if t < avail.len() {
            t
        } else {
            avail.len() as int
        },
    decreases t - u,
{
    if u < t {
        lemma_first_match_from_at(v, a2, avail, io, u + 1, t);
    }
}

/// The index list carried by the greedy matcher, as a model sequence.
pub open spec fn idxs(s: Seq<usize>) -> Seq<int> {
    s.map_values(|u: usize| u as int)
}

/// The tree differ; `ignore_order` selects the array-reconciliation
/// policy (position-preserving by default).
pub struct JsonDiff {
    ignore_order: bool,
}

impl JsonDiff {
    /// Whether arrays are reconciled by order-insensitive content matching.
    pub closed spec fn ignores_order(&self) -> bool {
        self.ignore_order
    }

    /// A differ with the position-preserving array policy.
    pub fn new() -> (r: Self)
        ensures
            !r.ignores_order(),
    {
        JsonDiff { ignore_order: false }
    }

    /// Selects the array-reconciliation policy.
    pub fn ignore_order(self, ignore: bool) -> (r: Self)
        ensures
            r.ignores_order() == ignore,
    {
        JsonDiff { ignore_order: ignore }
    }

    /// The position of the first entry of `avail` naming an element of
    /// `a2` deeply equal to `v1`, if any.
    #[verifier::loop_isolation(false)]
    fn find_match(&self, v1: &Value, a2: &Vec<Value>, avail: &Vec<usize>) -> (r: Option<usize>)
        requires
            forall|s: int| 0 <= s < avail@.len() ==> avail@[s] < a2@.len(),
        ensures
            match r {
                Some(t) => 0 <= t < avail@.len() && first_match_from(
                    v1@,
                    a2.deep_view(),
                    idxs(avail@),
                    self.ignores_order(),
                    0,
                ) == t,
                None => first_match_from(
                    v1@,
                    a2.deep_view(),
                    idxs(avail@),
                    self.ignores_order(),
                    0,
                ) == avail@.len(),
            },
        decreases *v1, 1int,
    {
        let ghost a2d = a2.deep_view();
        let ghost avm = idxs(avail@);
        let mut t: usize = 0;
        while t < avail.len()
            invariant
                0 <= t <= avail.len(),
                forall|s: int| 0 <= s < t ==> !equal_model(v1@, a2d[avm[s]], self.ignores_order()),
            decreases avail.len() - t,
        {
            let j = avail[t];
            proof {
                assert(a2d[avm[t as int]] == a2@[j as int]@);
            }
            if self.values_equal(v1, &a2[j]) {
                proof {
                    lemma_first_match_from_at(v1@, a2d, avm, self.ignores_order(), 0, t as int);
                }
                return Some(t);
            }
            t = t + 1;
        }
        proof {
            lemma_first_match_from_at(v1@, a2d, avm, self.ignores_order(), 0, avm.len() as int);
        }
        None
    }

    /// Greedy one-to-one matching of whole arrays, used by deep equality
    /// in order-insensitive mode.
    #[verifier::loop_isolation(false)]
    fn arrays_equal_ignore_order(&self, a1: &Vec<Value>, a2: &Vec<Value>) -> (r: bool)
        ensures
            r == (a1.deep_view().len() == a2.deep_view().len() && all_matched(
                a1.deep_view(),
                a2.deep_view(),
                Seq::new(a2.deep_view().len(), |j: int| j),
                self.ignores_order(),
                0,
            )),
        decreases *a1, 2int,
    {
        let ghost a1d = a1.deep_view();
        let ghost a2d = a2.deep_view();
        if a1.len() != a2.len() {
            return false;
        }
        let mut avail: Vec<usize> = Vec::new();
        let mut j: usize = 0;
        while j < a2.len()
            invariant
                0 <= j <= a2.len(),
                avail@.len() == j,
                forall|s: int| 0 <= s < j ==> avail@[s] == s,
            decreases a2.len() - j,
        {
            avail.push(j);
            j = j + 1;
        }
        proof {
            assert(idxs(avail@) =~= Seq::new(a2d.len(), |j: int| j));
        }
        let ghost avail0 = idxs(avail@);
        let mut i: usize = 0;
        while i < a1.len()
            invariant
                0 <= i <= a1.len(),
                a1d == a1.deep_view(),
                a2d == a2.deep_view(),
                a1d.len() == a1@.len(),
                a2d.len() == a2@.len(),
                forall|s: int| 0 <= s < avail@.len() ==> avail@[s] < a2@.len(),
                all_matched(a1d, a2d, avail0, self.ignores_order(), 0) == all_matched(
                    a1d,
                    a2d,
                    idxs(avail@),
                    self.ignores_order(),
                    i as int,
                ),
            decreases a1.len() - i,
        {
            proof {
                assert(a1d[i as int] == a1@[i as int]@);
            }
            match self.find_match(&a1[i], a2, &avail) {
                Some(t) => {
                    let ghost avm = idxs(avail@);
                    avail.remove(t);
                    proof {
                        assert(idxs(avail@) =~= avm.remove(t as int));
                    }
                },
                None => {
                    return false;
                },
            }
            i = i + 1;
        }
        true
    }

    /// Compares two whole trees and returns the ordered change records.
    pub fn diff(&self, v1: &Value, v2: &Value) -> (r: Vec<Diff>)
        ensures
            r.deep_view() == diff_of(v1@, v2@, self.ignores_order()),
    {
        let mut diffs: Vec<Diff> = Vec::new();
        let root = String::new();
        self.diff_values(v1, v2, root.as_str(), &mut diffs);
        proof {
            assert(diffs.deep_view() =~= diff_of(v1@, v2@, self.ignores_order()));
        }
        diffs
    }

    /// Emits the change records of comparing `v1` to `v2` at `path`.
    #[verifier::loop_isolation(false)]
    fn diff_values(&self, v1: &Value, v2: &Value, path: &str, diffs: &mut Vec<Diff>)
        ensures
            final(diffs).deep_view() == old(diffs).deep_view() + diff_at(
                v1@,
                v2@,
                self.ignores_order(),
                path@,
            ),
        decreases *v1, 0int,
    {
        let ghost target = diff_at(v1@, v2@, self.ignores_order(), path@);
        match (v1, v2) {
            (Value::Null, Value::Null) => {
                proof {
                    assert(diffs.deep_view() =~= diffs.deep_view() + target);
                }
            },
            (Value::Bool(b1), Value::Bool(b2)) if *b1 == *b2 => {
                proof {
                    assert(diffs.deep_view() =~= diffs.deep_view() + target);
                }
            },
            (Value::Number(n1), Value::Number(n2)) if *n1 == *n2 => {
                proof {
                    assert(diffs.deep_view() =~= diffs.deep_view() + target);
                }
            },
            (Value::Text(s1), Value::Text(s2)) if s1.eq(s2) => {
                proof {
                    assert(diffs.deep_view() =~= diffs.deep_view() + target);
                }
            },
            (Value::Array(a1), Value::Array(a2)) => {
                proof {
                    assert(decreases_to!(*v1 => v1->Array_0));
                    assert(v1@->Array_0 =~= a1.deep_view());
                    assert(v2@->Array_0 =~= a2.deep_view());
                }
                self.diff_arrays(a1, a2, path, diffs);
            },
            (Value::Object(o1), Value::Object(o2)) => {
                proof {
                    assert(decreases_to!(*v1 => v1->Object_0));
                    assert forall|s: int| 0 <= s < o1@.len() implies v1@->Object_0[s]
                        == o1.deep_view()[s] by {}
                    assert(v1@->Object_0 =~= o1.deep_view());
                    assert forall|s: int| 0 <= s < o2@.len() implies v2@->Object_0[s]
                        == o2.deep_view()[s] by {}
                    assert(v2@->Object_0 =~= o2.deep_view());
                }
                self.diff_objects(o1, o2, path, diffs);
            },
            _ => {
                let d = Diff {
                    path: path.to_owned(),
                    diff_type: DiffType::Modified,
                    old_value: Some(deep_copy(v1)),
                    new_value: Some(deep_copy(v2)),
                };
                diffs.push(d);
                proof {
                    assert(diffs.deep_view() =~= old(diffs).deep_view() + target);
                }
            },
        }
    }

    /// Dispatches array reconciliation per the configured policy.
    fn diff_arrays(&self, a1: &Vec<Value>, a2: &Vec<Value>, path: &str, diffs: &mut Vec<Diff>)
        ensures
            final(diffs).deep_view() == old(diffs).deep_view() + if self.ignores_order() {
                unordered_diff(a1.deep_view(), a2.deep_view(), self.ignores_order(), path@)
            } else {
                ordered_diff(a1.deep_view(), a2.deep_view(), self.ignores_order(), path@, 0)
            },
        decreases *a1, 3int,
    {
        if self.ignore_order {
            self.diff_arrays_ignore_order(a1, a2, path, diffs);
        } else {
            self.diff_arrays_preserve_order(a1, a2, path, diffs);
        }
    }

    /// Position-preserving array reconciliation: walks the indices of both
    /// arrays in lock-step, removing or adding the surplus of either side.
    #[verifier::loop_isolation(false)]
    fn diff_arrays_preserve_order(
        &self,
        a1: &Vec<Value>,
        a2: &Vec<Value>,
        path: &str,
        diffs: &mut Vec<Diff>,
    )
        ensures
            final(diffs).deep_view() == old(diffs).deep_view() + ordered_diff(
                a1.deep_view(),
                a2.deep_view(),
                self.ignores_order(),
                path@,
                0,
            ),
        decreases *a1, 2int,
    {
        let ghost a1d = a1.deep_view();
        let ghost a2d = a2.deep_view();
        let ghost io = self.ignores_order();
        let ghost dv0 = diffs.deep_view();
        let max_len = if a1.len() >= a2.len() {
            a1.len()
        } else {
            a2.len()
        };
        let mut i: usize = 0;
        while i < max_len
            invariant
                0 <= i <= max_len,
                diffs.deep_view() + ordered_diff(a1d, a2d, io, path@, i as int) == dv0
                    + ordered_diff(a1d, a2d, io, path@, 0),
            decreases max_len - i,
        {
            let ghost pre = diffs.deep_view();
            let new_path = index_path_string(path, i);
            let ghost step = ordered_diff(a1d, a2d, io, path@, i as int);
            let ghost rest = ordered_diff(a1d, a2d, io, path@, i + 1);
            if i < a1.len() && i < a2.len() {
                proof {
                    assert(decreases_to!(*a1 => a1@));
                    assert(decreases_to!(a1@ => a1@[i as int]));
                    assert(a1d[i as int] == a1@[i as int]@);
                    assert(a2d[i as int] == a2@[i as int]@);
                }
                self.diff_values(&a1[i], &a2[i], new_path.as_str(), diffs);
                proof {
                    assert(step == diff_at(a1d[i as int], a2d[i as int], io, new_path@) + rest);
                    assert((pre + diff_at(a1d[i as int], a2d[i as int], io, new_path@)) + rest
                        =~= pre + step);
                }
            } else if i < a1.len() {
                let d = Diff {
                    path: new_path,
                    diff_type: DiffType::Removed,
                    old_value: Some(deep_copy(&a1[i])),
                    new_value: None,
                };
                diffs.push(d);
                proof {
                    assert(step == seq![removed_change(index_path(path@, i as int), a1d[i as int])]
                        + rest);
                    assert(diffs.deep_view() =~= pre + seq![
                        removed_change(index_path(path@, i as int), a1d[i as int]),
                    ]);
                    assert((pre + seq![
                        removed_change(index_path(path@, i as int), a1d[i as int]),
                    ]) + rest =~= pre + step);
                }
            } else {
                let d = Diff {
                    path: new_path,
                    diff_type: DiffType::Added,
                    old_value: None,
                    new_value: Some(deep_copy(&a2[i])),
                };
                diffs.push(d);
                proof {
                    assert(step == seq![added_change(index_path(path@, i as int), a2d[i as int])]
                        + rest);
                    assert(diffs.deep_view() =~= pre + seq![
                        added_change(index_path(path@, i as int), a2d[i as int]),
                    ]);
                    assert((pre + seq![added_change(index_path(path@, i as int), a2d[i as int])])
                        + rest =~= pre + step);
                }
            }
            i = i + 1;
        }
        proof {
            assert(diffs.deep_view() =~= diffs.deep_view() + ordered_diff(
                a1d,
                a2d,
                io,
                path@,
                max_len as int,
            ));
        }
    }

    /// Order-insensitive array reconciliation: each old element claims the
    /// first still-available deeply equal new element; unclaimed old
    /// elements are removed, unclaimed new elements are added, each keyed
    /// by its original index.
    #[verifier::loop_isolation(false)]
    fn diff_arrays_ignore_order(
        &self,
        a1: &Vec<Value>,
        a2: &Vec<Value>,
        path: &str,
        diffs: &mut Vec<Diff>,
    )
        ensures
            final(diffs).deep_view() == old(diffs).deep_view() + unordered_diff(
                a1.deep_view(),
                a2.deep_view(),
                self.ignores_order(),
                path@,
            ),
        decreases *a1, 2int,
    {
        let ghost a1d = a1.deep_view();
        let ghost a2d = a2.deep_view();
        let ghost io = self.ignores_order();
        let ghost dv0 = diffs.deep_view();
        let mut avail: Vec<usize> = Vec::new();
        let mut j: usize = 0;
        while j < a2.len()
            invariant
                0 <= j <= a2.len(),
                avail@.len() == j,
                forall|s: int| 0 <= s < j ==> avail@[s] == s,
            decreases a2.len() - j,
        {
            avail.push(j);
            j = j + 1;
        }
        proof {
            assert(idxs(avail@) =~= Seq::new(a2d.len(), |t: int| t));
        }
        let ghost full = unordered_pass1(a1d, a2d, idxs(avail@), io, path@, 0);
        let mut i: usize = 0;
        while i < a1.len()
            invariant
                0 <= i <= a1.len(),
                forall|s: int| 0 <= s < avail@.len() ==> avail@[s] < a2@.len(),
                diffs.deep_view() + unordered_pass1(
                    a1d,
                    a2d,
                    idxs(avail@),
                    io,
                    path@,
                    i as int,
                ).0 == dv0 + full.0,
                unordered_pass1(a1d, a2d, idxs(avail@), io, path@, i as int).1 == full.1,
            decreases a1.len() - i,
        {
            let ghost pre = diffs.deep_view();
            let ghost avm = idxs(avail@);
            let ghost step = unordered_pass1(a1d, a2d, avm, io, path@, i as int);
            proof {
                assert(decreases_to!(*a1 => a1@));
                assert(decreases_to!(a1@ => a1@[i as int]));
                assert(a1d[i as int] == a1@[i as int]@);
            }
            match self.find_match(&a1[i], a2, &avail) {
                Some(t) => {
                    avail.remove(t);
                    proof {
                        assert(idxs(avail@) =~= avm.remove(t as int));
                    }
                },
                None => {
                    let new_path = index_path_string(path, i);
                    let d = Diff {
                        path: new_path,
                        diff_type: DiffType::Removed,
                        old_value: Some(deep_copy(&a1[i])),
                        new_value: None,
                    };
                    diffs.push(d);
                    proof {
                        let rest = unordered_pass1(a1d, a2d, avm, io, path@, i + 1);
                        assert(step.0 == seq![
                            removed_change(index_path(path@, i as int), a1d[i as int]),
                        ] + rest.0);
                        assert(diffs.deep_view() =~= pre + seq![
                            removed_change(index_path(path@, i as int), a1d[i as int]),
                        ]);
                        assert((pre + seq![
                            removed_change(index_path(path@, i as int), a1d[i as int]),
                        ]) + rest.0 =~= pre + step.0);
                    }
                },
            }
            i = i + 1;
        }
        let ghost rem = idxs(avail@);
        proof {
            assert(unordered_pass1(a1d, a2d, rem, io, path@, a1d.len() as int).0
                =~= Seq::<ChangeModel>::empty());
            assert(diffs.deep_view() =~= dv0 + full.0);
            assert(rem == full.1);
        }
        let ghost base = diffs.deep_view();
        let mut t: usize = 0;
        while t < avail.len()
            invariant
                0 <= t <= avail.len(),
                diffs.deep_view() =~= base + unordered_added(a2d, rem.take(t as int), path@),
            decreases avail.len() - t,
        {
            let ghost pre = diffs.deep_view();
            let jdx = avail[t];
            let new_path = index_path_string(path, jdx);
            let d = Diff {
                path: new_path,
                diff_type: DiffType::Added,
                old_value: None,
                new_value: Some(deep_copy(&a2[jdx])),
            };
            diffs.push(d);
            proof {
                let rec = added_change(index_path(path@, jdx as int), a2d[jdx as int]);
                assert(a2d[jdx as int] == a2@[jdx as int]@);
                assert(rem[t as int] == jdx as int);
                assert(diffs.deep_view() =~= pre.push(rec));
                assert(unordered_added(a2d, rem.take(t + 1), path@) =~= unordered_added(
                    a2d,
                    rem.take(t as int),
                    path@,
                ).push(rec));
                assert(base + unordered_added(a2d, rem.take(t + 1), path@) =~= (base
                    + unordered_added(a2d, rem.take(t as int), path@)).push(rec));
            }
            t = t + 1;
        }
        proof {
            assert(rem.take(rem.len() as int) =~= rem);
            assert(diffs.deep_view() =~= old(diffs).deep_view() + unordered_diff(
                a1d,
                a2d,
                io,
                path@,
            ));
        }
    }

    /// Object reconciliation: keys of the old object in entry order (a key
    /// carried by both sides recurses, one only on the old side is
    /// removed), then keys only on the new side, in entry order, added.
    #[verifier::loop_isolation(false)]
    fn diff_objects(
        &self,
        o1: &Vec<(String, Value)>,
        o2: &Vec<(String, Value)>,
        path: &str,
        diffs: &mut Vec<Diff>,
    )
        ensures
            final(diffs).deep_view() == old(diffs).deep_view() + obj_diff_pass1(
                o1.deep_view(),
                o2.deep_view(),
                self.ignores_order(),
                path@,
                0,
            ) + obj_diff_pass2(o1.deep_view(), o2.deep_view(), path@, 0),
        decreases *o1, 2int,
    {
        let ghost o1d = o1.deep_view();
        let ghost o2d = o2.deep_view();
        let ghost io = self.ignores_order();
        let ghost dv0 = diffs.deep_view();
        let mut i: usize = 0;
        while i < o1.len()
            invariant
                0 <= i <= o1.len(),
                diffs.deep_view() + obj_diff_pass1(o1d, o2d, io, path@, i as int) == dv0
                    + obj_diff_pass1(o1d, o2d, io, path@, 0),
            decreases o1.len() - i,
        {
            let ghost pre = diffs.deep_view();
            let ghost step = obj_diff_pass1(o1d, o2d, io, path@, i as int);
            let ghost rest = obj_diff_pass1(o1d, o2d, io, path@, i + 1);
            let entry = &o1[i];
            let new_path = key_path_string(path, &entry.0);
            proof {
                assert(o1d[i as int] == (o1@[i as int].0@, o1@[i as int].1@));
            }
            match lookup(o2, &entry.0) {
                Some(j) => {
                    proof {
                        assert(obj_get(o2d, o1d[i as int].0) == o2d[j as int].1);
                        assert(o2d[j as int].1 == o2@[j as int].1@);
                        assert(decreases_to!(*o1 => o1@));
                        assert(decreases_to!(o1@ => o1@[i as int]));
                        assert(decreases_to!(o1@[i as int] => o1@[i as int].1));
                    }
                    self.diff_values(&entry.1, &o2[j].1, new_path.as_str(), diffs);
                    proof {
                        assert(step == diff_at(
                            o1d[i as int].1,
                            obj_get(o2d, o1d[i as int].0),
                            io,
                            new_path@,
                        ) + rest);
                        assert((pre + diff_at(
                            o1d[i as int].1,
                            obj_get(o2d, o1d[i as int].0),
                            io,
                            new_path@,
                        )) + rest =~= pre + step);
                    }
                },
                None => {
                    let d = Diff {
                        path: new_path,
                        diff_type: DiffType::Removed,
                        old_value: Some(deep_copy(&entry.1)),
                        new_value: None,
                    };
                    diffs.push(d);
                    proof {
                        assert(step == seq![
                            removed_change(key_path(path@, o1d[i as int].0), o1d[i as int].1),
                        ] + rest);
                        assert(diffs.deep_view() =~= pre + seq![
                            removed_change(key_path(path@, o1d[i as int].0), o1d[i as int].1),
                        ]);
                        assert((pre + seq![
                            removed_change(key_path(path@, o1d[i as int].0), o1d[i as int].1),
                        ]) + rest =~= pre + step);
                    }
                },
            }
            i = i + 1;
        }
        proof {
            assert(diffs.deep_view() =~= diffs.deep_view() + obj_diff_pass1(
                o1d,
                o2d,
                io,
                path@,
                o1d.len() as int,
            ));
            assert(diffs.deep_view() =~= dv0 + obj_diff_pass1(o1d, o2d, io, path@, 0));
        }
        let ghost base = diffs.deep_view();
        let mut j: usize = 0;
        while j < o2.len()
            invariant
                0 <= j <= o2.len(),
                diffs.deep_view() + obj_diff_pass2(o1d, o2d, path@, j as int) == base
                    + obj_diff_pass2(o1d, o2d, path@, 0),
            decreases o2.len() - j,
        {
            let ghost pre = diffs.deep_view();
            let ghost step = obj_diff_pass2(o1d, o2d, path@, j as int);
            let ghost rest = obj_diff_pass2(o1d, o2d, path@, j + 1);
            let entry = &o2[j];
            proof {
                assert(o2d[j as int] == (o2@[j as int].0@, o2@[j as int].1@));
            }
            match lookup(o1, &entry.0) {
                Some(_) => {
                    proof {
                        assert(step == rest);
                    }
                },
                None => {
                    let new_path = key_path_string(path, &entry.0);
                    let d = Diff {
                        path: new_path,
                        diff_type: DiffType::Added,
                        old_value: None,
                        new_value: Some(deep_copy(&entry.1)),
                    };
                    diffs.push(d);
                    proof {
                        assert(step == seq![
                            added_change(key_path(path@, o2d[j as int].0), o2d[j as int].1),
                        ] + rest);
                        assert(diffs.deep_view() =~= pre + seq![
                            added_change(key_path(path@, o2d[j as int].0), o2d[j as int].1),
                        ]);
                        assert((pre + seq![
                            added_change(key_path(path@, o2d[j as int].0), o2d[j as int].1),
                        ]) + rest =~= pre + step);
                    }
                },
            }
            j = j + 1;
        }
        proof {
            assert(diffs.deep_view() =~= diffs.deep_view() + obj_diff_pass2(
                o1d,
                o2d,
                path@,
                o2d.len() as int,
            ));
        }
    }

    /// Deep structural equality per the differ's array policy, used only
    /// by order-insensitive array matching.
    #[verifier::loop_isolation(false)]
    fn values_equal(&self, v1: &Value, v2: &Value) -> (r: bool)
        ensures
            r == equal_model(v1@, v2@, self.ignores_order()),
        decreases *v1, 0int,
    {
        match (v1, v2) {
            (Value::Null, Value::Null) => true,
            (Value::Bool(b1), Value::Bool(b2)) => *b1 == *b2,
            (Value::Number(n1), Value::Number(n2)) => *n1 == *n2,
            (Value::Text(s1), Value::Text(s2)) => s1.eq(s2),
            (Value::Array(x), Value::Array(y)) => {
                let ghost xd = x.deep_view();
                let ghost yd = y.deep_view();
                proof {
                    assert(v1@->Array_0 =~= xd);
                    assert(v2@->Array_0 =~= yd);
                }
                if x.len() != y.len() {
                    false
                } else if self.ignore_order {
                    proof {
                        assert(decreases_to!(*v1 => v1->Array_0));
                    }
                    self.arrays_equal_ignore_order(x, y)
                } else {
                    let mut i: usize = 0;
                    while i < x.len()
                        invariant
                            0 <= i <= x.len(),
                            forall|s: int|
                                0 <= s < i ==> equal_model(xd[s], yd[s], self.ignores_order()),
                        decreases x.len() - i,
                    {
                        proof {
                            assert(decreases_to!(*v1 => v1->Array_0));
                            assert(decreases_to!(*x => x@));
                            assert(decreases_to!(x@ => x@[i as int]));
                        }
                        if !self.values_equal(&x[i], &y[i]) {
                            proof {
                                assert(!equal_model(
                                    v1@->Array_0[i as int],
                                    v2@->Array_0[i as int],
                                    self.ignores_order(),
                                ));
                            }
                            return false;
                        }
                        i = i + 1;
                    }
                    true
                }
            },
            (Value::Object(m1), Value::Object(m2)) => {
                let ghost o1 = m1.deep_view();
                let ghost o2 = m2.deep_view();
                proof {
                    assert(*v1 == Value::Object(*m1));
                    assert(v1@->Object_0.len() == m1@.len());
                    assert forall|s: int| 0 <= s < m1@.len() implies v1@->Object_0[s] == o1[s] by {
                        assert(v1@->Object_0[s] == (m1@[s].0@, m1@[s].1@));
                        assert(o1[s] == (m1@[s].0@, m1@[s].1@));
                    }
                    assert(v1@->Object_0 =~= o1);
                    assert forall|s: int| 0 <= s < m2@.len() implies v2@->Object_0[s] == o2[s] by {
                        assert(v2@->Object_0[s].0 == m2@[s].0@);
                        assert(o2[s] == (m2@[s].0@, m2@[s].1@));
                    }
                    assert(v2@->Object_0 =~= o2);
                }
                if m1.len() != m2.len() {
                    false
                } else {
                    let mut i: usize = 0;
                    while i < m1.len()
                        invariant
                            0 <= i <= m1.len(),
                            forall|s: int|
                                0 <= s < i ==> obj_has_key(o2, o1[s].0) && equal_model(
                                    o1[s].1,
                                    obj_get(o2, o1[s].0),
                                    self.ignores_order(),
                                ),
                        decreases m1.len() - i,
                    {
                        let entry = &m1[i];
                        match lookup(m2, &entry.0) {
                            Some(j) => {
                                proof {
                                    assert(o1[i as int].0 == entry.0@);
                                    assert(obj_get(o2, o1[i as int].0) == o2[j as int].1);
                                    assert(o2[j as int].1 == m2@[j as int].1@);
                                    assert(decreases_to!(*v1 => v1->Object_0));
                                    assert(decreases_to!(*m1 => m1@));
                                    assert(decreases_to!(m1@ => m1@[i as int]));
                                    assert(decreases_to!(m1@[i as int] => m1@[i as int].1));
                                }
                                if !self.values_equal(&entry.1, &m2[j].1) {
                                    return false;
                                }
                            },
                            None => {
                                return false;
                            },
                        }
                        i = i + 1;
                    }
                    true
                }
            },
            _ => false,
        }
    }
}

impl Default for JsonDiff {
    /// The default differ: the position-preserving array policy.
    fn default() -> (r: Self)
        ensures
            !r.ignores_order(),
    {
        Self::new()
    }
}

} // verus!
