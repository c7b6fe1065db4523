//! What holds of the tree across several of its operations: of edits
//! and the breadcrumb here, of binding twice, of binding and writing, and
//! of well-formedness in the modules below.
use vstd::prelude::*;

pub mod idempotence;
pub mod round_trip;
pub mod well_formed;

use crate::node::data_path::{
    marked,
    node_at,
    path_child,
    replaced_at,
    resolved_len,
    shown_child,
    with_child,
    StepV,
};
use crate::node::{
    entries_all_modified,
    entries_shift_removed,
    keys_unique,
    ContainerV,
    NodeV,
    ObjectV,
};
use crate::node::apply::{
    bind_as,
    bind_extra,
    bind_fixed,
    bind_items,
    cleared,
    first_matching,
    first_matching_key,
    has_fixed_key,
    matching,
};
use crate::node::from_json_schema::plain;
use crate::node::{entries_put, valid, ArrayV, TemplateV};
use crate::number::converted_number;
use crate::page::{changed, edited, ChangeV};
use crate::seqs::lemma_first_index;
use crate::value::{key_value, ValueV};
use crate::value::{key_index, lemma_key_index, lemma_key_index_is, lemma_key_index_none};

verus! {

/// Choosing a variant of an enum leaves every other variant as it was.
pub proof fn lemma_change_enum_keeps_other_variants(c: ContainerV, b: usize, a: int)
    requires
        c.node is Enum,
        b < c.node->Enum_0.nodes.len(),
        0 <= a < c.node->Enum_0.nodes.len(),
        a != b,
    ensures
        changed(c, ChangeV::ChangeEnum(b)) matches Ok(Some(c1)) && c1.node is Enum
            && c1.node->Enum_0.value == Some(b as int) && c1.node->Enum_0.nodes.len()
            == c.node->Enum_0.nodes.len() && c1.node->Enum_0.nodes[a] == c.node->Enum_0.nodes[a],
{
}

/// Going from one variant of an enum to another and back gives the first
/// variant as it was left, with what was entered in it, and not as the
/// schema made it.
pub proof fn lemma_enum_switch_and_back(c: ContainerV, a: usize, b: usize)
    requires
        c.node is Enum,
        a < c.node->Enum_0.nodes.len(),
        b < c.node->Enum_0.nodes.len(),
        a != b,
    ensures
        changed(c, ChangeV::ChangeEnum(a)) matches Ok(Some(c1)) && changed(
            c1,
            ChangeV::ChangeEnum(b),
        ) matches Ok(Some(c2)) && changed(c2, ChangeV::ChangeEnum(a)) matches Ok(Some(c3))
            && c3.node->Enum_0.value == Some(a as int) && c3.node->Enum_0.nodes[a as int]
            == c1.node->Enum_0.nodes[a as int] && c1.node->Enum_0.nodes[a as int] == (ContainerV {
            modified: true,
            ..c.node->Enum_0.nodes[a as int]
        }),
{
    let c1 = changed(c, ChangeV::ChangeEnum(a))->Ok_0->0;
    lemma_change_enum_keeps_other_variants(c1, b, a as int);
}

/// Replacing the child that a step leads to makes the step lead to the
/// new child.
pub proof fn lemma_path_child_of_with_child(c: ContainerV, step: StepV, r: ContainerV)
    requires
        path_child(c, step) is Some,
    ensures
        path_child(with_child(c, step, r), step) == Some(r),
{
    match (c.node, step) {
        (NodeV::Object(o), StepV::Name(k)) => {
            lemma_key_index(o.nodes, k);
            let i = key_index(o.nodes, k)->0;
            let m = o.nodes.update(i, (o.nodes[i].0, r));
            lemma_key_index_is(m, k, i);
        },
        _ => {},
    }
}

/// A node can be replaced wherever a path leads to a node, and the path
/// then leads to the new node.
pub proof fn lemma_node_at_of_replaced(t: ContainerV, p: Seq<StepV>, n: ContainerV, i: int)
    requires
        0 <= i,
    ensures
        replaced_at(t, p, i, n) is Some == node_at(t, p, i) is Some,
        replaced_at(t, p, i, n) matches Some(r) ==> node_at(r, p, i) == Some(n),
    decreases p.len() - i,
{
    if i < p.len() {
        match path_child(t, p[i]) {
            Some(child) => {
                lemma_node_at_of_replaced(child, p, n, i + 1);
                match replaced_at(child, p, i + 1, n) {
                    Some(r) => {
                        lemma_path_child_of_with_child(t, p[i], r);
                    },
                    None => {},
                }
            },
            None => {},
        }
    }
}

/// Marking the nodes along a path leaves the node that the path leads
/// to as it is, but marked modified.
pub proof fn lemma_node_at_of_marked(t: ContainerV, p: Seq<StepV>, i: int)
    requires
        0 <= i,
        node_at(t, p, i) is Some,
    ensures
        node_at(marked(t, p, i), p, i) == Some(
            ContainerV { modified: true, ..node_at(t, p, i)->0 },
        ),
    decreases p.len() - i,
{
    if i < p.len() {
        let here = ContainerV { modified: true, ..t };
        let child = path_child(t, p[i])->0;
        lemma_node_at_of_marked(child, p, i + 1);
        assert(path_child(here, p[i]) == path_child(t, p[i]));
        lemma_path_child_of_with_child(here, p[i], marked(child, p, i + 1));
    }
}

/// After an edit other than a return to the default, the path of the
/// edit leads to the edited node, marked modified.
pub proof fn lemma_node_at_of_edited(t: ContainerV, p: Seq<StepV>, ch: ChangeV)
    requires
        !(ch is ApplyDefault),
        node_at(t, p, 0) matches Some(c) && changed(c, ch) matches Ok(Some(_)),
    ensures
        edited(t, p, ch) matches Ok(Some(r)) && node_at(r, p, 0) == Some(
            ContainerV { modified: true, ..changed(node_at(t, p, 0)->0, ch)->Ok_0->0 },
        ),
{
    let c = node_at(t, p, 0)->0;
    let n = changed(c, ch)->Ok_0->0;
    lemma_node_at_of_replaced(t, p, n, 0);
    let replaced = replaced_at(t, p, 0, n)->0;
    lemma_node_at_of_marked(replaced, p, 0);
}

/// Within a tree: going from one variant of an enum to another and back
/// gives the first variant as it was left.
pub proof fn lemma_edit_enum_switch_and_back(t: ContainerV, p: Seq<StepV>, a: usize, b: usize)
    requires
        node_at(t, p, 0) matches Some(c) && c.node matches NodeV::Enum(e) && a < e.nodes.len()
            && b < e.nodes.len(),
        a != b,
    ensures
        ({
            &&& edited(t, p, ChangeV::ChangeEnum(a)) matches Ok(Some(t1))
            &&& edited(t1, p, ChangeV::ChangeEnum(b)) matches Ok(Some(t2))
            &&& edited(t2, p, ChangeV::ChangeEnum(a)) matches Ok(Some(t3))
            &&& node_at(t1, p, 0) matches Some(c1)
            &&& c1.node matches NodeV::Enum(e1)
            &&& node_at(t3, p, 0) matches Some(c3)
            &&& c3.node matches NodeV::Enum(e3)
            &&& e3.value == Some(a as int)
            &&& e3.nodes[a as int] == e1.nodes[a as int]
        }),
{
    let c = node_at(t, p, 0)->0;
    lemma_enum_switch_and_back(c, a, b);
    lemma_node_at_of_edited(t, p, ChangeV::ChangeEnum(a));
    let t1 = edited(t, p, ChangeV::ChangeEnum(a))->Ok_0->0;
    let c1 = node_at(t1, p, 0)->0;
    lemma_enum_switch_and_back(c1, a, b);
    lemma_change_enum_keeps_other_variants(c1, b, a as int);
    lemma_node_at_of_edited(t1, p, ChangeV::ChangeEnum(b));
    let t2 = edited(t1, p, ChangeV::ChangeEnum(b))->Ok_0->0;
    let c2 = node_at(t2, p, 0)->0;
    lemma_change_enum_keeps_other_variants(c2, a, b as int);
    lemma_node_at_of_edited(t2, p, ChangeV::ChangeEnum(a));
}

/// Replacing the child that a step leads to leaves where a breadcrumb
/// goes by any other step, and makes a breadcrumb that went to the old
/// child go to the new one.
pub proof fn lemma_shown_child_of_with_child(
    c: ContainerV,
    step: StepV,
    r: ContainerV,
    other: StepV,
)
    requires
        path_child(c, step) is Some,
    ensures
        other != step ==> shown_child(with_child(c, step, r), other) == shown_child(c, other),
        shown_child(c, step) is Some ==> shown_child(with_child(c, step, r), step) == Some(r),
        shown_child(c, step) is None ==> shown_child(with_child(c, step, r), step) is None,
{
    match (c.node, step) {
        (NodeV::Object(o), StepV::Name(k)) => {
            lemma_key_index(o.nodes, k);
            let i = key_index(o.nodes, k)->0;
            let m = o.nodes.update(i, (o.nodes[i].0, r));
            lemma_key_index_is(m, k, i);
            match other {
                StepV::Name(k2) => {
                    if k2 != k {
                        lemma_key_index(o.nodes, k2);
                        lemma_key_index(m, k2);
                        match key_index(o.nodes, k2) {
                            Some(j) => {
                                lemma_key_index_is(m, k2, j);
                            },
                            None => {
                                lemma_key_index_none(m, k2);
                            },
                        }
                    }
                },
                _ => {},
            }
        },
        _ => {},
    }
}

/// Where a breadcrumb goes does not depend on what is marked modified
/// along a path.
pub proof fn lemma_resolved_len_of_marked(t: ContainerV, p: Seq<StepV>, s: Seq<StepV>, i: int)
    requires
        0 <= i,
    ensures
        resolved_len(marked(t, p, i), s, i) == resolved_len(t, s, i),
    decreases p.len() - i,
{
    let here = ContainerV { modified: true, ..t };
    if i < p.len() {
        match path_child(t, p[i]) {
            Some(child) => {
                let m = marked(child, p, i + 1);
                lemma_resolved_len_of_marked(child, p, s, i + 1);
                if i < s.len() {
                    lemma_shown_child_of_with_child(here, p[i], m, s[i]);
                    assert(shown_child(here, s[i]) == shown_child(t, s[i]));
                    if s[i] == p[i] && shown_child(t, p[i]) is Some {
                        assert(shown_child(t, p[i]) == Some(child));
                    }
                }
            },
            None => {
                if i < s.len() {
                    assert(shown_child(here, s[i]) == shown_child(t, s[i]));
                }
            },
        }
    } else {
        if i < s.len() {
            assert(shown_child(here, s[i]) == shown_child(t, s[i]));
        }
    }
}

/// True where the breadcrumb `s` passes every step of the path `p` from
/// position `i` on.
pub open spec fn follows(s: Seq<StepV>, p: Seq<StepV>, i: int) -> bool {
    p.len() <= s.len() && forall|j: int| i <= j < p.len() ==> s[j] == p[j]
}

/// A breadcrumb that leads to a node of a tree, held against the tree
/// with one node replaced: where the breadcrumb passes the whole path to
/// that node, it goes on in the new node; else it leads where it led.
pub proof fn lemma_resolved_len_of_replaced(
    t: ContainerV,
    p: Seq<StepV>,
    n: ContainerV,
    s: Seq<StepV>,
    i: int,
)
    requires
        0 <= i <= p.len(),
        i <= s.len(),
        replaced_at(t, p, i, n) is Some,
        resolved_len(t, s, i) == s.len(),
    ensures
        follows(s, p, i) ==> resolved_len(replaced_at(t, p, i, n)->0, s, i) == resolved_len(
            n,
            s,
            p.len() as int,
        ),
        !follows(s, p, i) ==> resolved_len(replaced_at(t, p, i, n)->0, s, i) == s.len(),
    decreases p.len() - i,
{
    if i < p.len() {
        let child = path_child(t, p[i])->0;
        let r = replaced_at(child, p, i + 1, n)->0;
        let t2 = with_child(t, p[i], r);
        if i < s.len() {
            lemma_shown_child_of_with_child(t, p[i], r, s[i]);
            if s[i] == p[i] {
                assert(shown_child(t, p[i]) == Some(child));
                lemma_resolved_len_of_replaced(child, p, n, s, i + 1);
                assert(follows(s, p, i) == follows(s, p, i + 1));
            } else {
                assert(!follows(s, p, i));
            }
        } else {
            assert(!follows(s, p, i));
        }
    } else {
    }
}

/// Taking the child under a key out of an object with distinct keys
/// leaves no child under that key, and leaves every other child where a
/// breadcrumb finds it, marked modified.
pub proof fn lemma_removed_entries(m: Seq<(Seq<char>, ContainerV)>, k: Seq<char>, o: Seq<char>)
    requires
        keys_unique(m),
    ensures
        key_index(entries_all_modified(entries_shift_removed(m, k)), k) is None,
        o != k ==> match key_index(m, o) {
            Some(i) => key_index(entries_all_modified(entries_shift_removed(m, k)), o) matches Some(
                j,
            ) && entries_all_modified(entries_shift_removed(m, k))[j].1 == (ContainerV {
                modified: true,
                ..m[i].1
            }),
            None => key_index(entries_all_modified(entries_shift_removed(m, k)), o) is None,
        },
{
    let r = entries_all_modified(entries_shift_removed(m, k));
    lemma_key_index(m, k);
    lemma_key_index(m, o);
    match key_index(m, k) {
        Some(x) => {
            let rm = m.remove(x);
            assert forall|j: int| 0 <= j < r.len() implies (#[trigger] r[j]).0 != k by {
                if j < x {
                    assert(rm[j] == m[j]);
                } else {
                    assert(rm[j] == m[j + 1]);
                }
            }
            lemma_key_index_none(r, k);
            if o != k {
                match key_index(m, o) {
                    Some(i) => {
                        let j = if i < x {
                            i
                        } else {
                            i - 1
                        };
                        assert(rm[j] == m[i]);
                        assert forall|q: int| 0 <= q < j implies (#[trigger] r[q]).0 != o by {
                            if q < x {
                                assert(rm[q] == m[q]);
                            } else {
                                assert(rm[q] == m[q + 1]);
                            }
                        }
                        lemma_key_index_is(r, o, j);
                    },
                    None => {
                        assert forall|q: int| 0 <= q < r.len() implies (#[trigger] r[q]).0 != o by {
                            if q < x {
                                assert(rm[q] == m[q]);
                            } else {
                                assert(rm[q] == m[q + 1]);
                            }
                        }
                        lemma_key_index_none(r, o);
                    },
                }
            }
        },
        None => {
            assert forall|j: int| 0 <= j < r.len() implies (#[trigger] r[j]).0 != k by {
                assert(r[j].0 == m[j].0);
            }
            lemma_key_index_none(r, k);
            if o != k {
                match key_index(m, o) {
                    Some(i) => {
                        assert forall|q: int| 0 <= q < i implies (#[trigger] r[q]).0 != o by {
                            assert(r[q].0 == m[q].0);
                        }
                        lemma_key_index_is(r, o, i);
                    },
                    None => {
                        assert forall|q: int| 0 <= q < r.len() implies (#[trigger] r[q]).0 != o by {
                            assert(r[q].0 == m[q].0);
                        }
                        lemma_key_index_none(r, o);
                    },
                }
            }
        },
    }
}

/// Where a breadcrumb goes from a node does not depend on whether the
/// node is marked modified.
pub proof fn lemma_resolved_len_ignores_mark(c: ContainerV, b: bool, s: Seq<StepV>, i: int)
    ensures
        resolved_len(ContainerV { modified: b, ..c }, s, i) == resolved_len(c, s, i),
{
    if 0 <= i < s.len() {
        assert(shown_child(ContainerV { modified: b, ..c }, s[i]) == shown_child(c, s[i]));
    }
}

/// Removing the child of an object that a breadcrumb passes cuts the
/// breadcrumb down to the steps that lead to the object: the parent of
/// what was removed.
pub proof fn lemma_remove_key_on_breadcrumb(
    t: ContainerV,
    p: Seq<StepV>,
    k: Seq<char>,
    s: Seq<StepV>,
)
    requires
        resolved_len(t, s, 0) == s.len(),
        p.len() < s.len(),
        follows(s, p, 0),
        s[p.len() as int] == StepV::Name(k),
        edited(t, p, ChangeV::Remove(StepV::Name(k))) matches Ok(Some(_)),
        node_at(t, p, 0) matches Some(c) && c.node matches NodeV::Object(o) && keys_unique(
            o.nodes,
        ),
    ensures
        edited(t, p, ChangeV::Remove(StepV::Name(k))) matches Ok(Some(t2)) && resolved_len(
            t2,
            s,
            0,
        ) == p.len(),
{
    let ch = ChangeV::Remove(StepV::Name(k));
    let c = node_at(t, p, 0)->0;
    let n = changed(c, ch)->Ok_0->0;
    let r = replaced_at(t, p, 0, n)->0;
    lemma_resolved_len_of_replaced(t, p, n, s, 0);
    lemma_resolved_len_of_marked(r, p, s, 0);
    lemma_removed_entries(c.node->Object_0.nodes, k, k);
}

/// Removing a child of an object that a breadcrumb does not pass leaves
/// the breadcrumb whole.
pub proof fn lemma_remove_key_off_breadcrumb(
    t: ContainerV,
    p: Seq<StepV>,
    k: Seq<char>,
    s: Seq<StepV>,
)
    requires
        resolved_len(t, s, 0) == s.len(),
        !(p.len() < s.len() && follows(s, p, 0) && s[p.len() as int] == StepV::Name(k)),
        edited(t, p, ChangeV::Remove(StepV::Name(k))) matches Ok(Some(_)),
        node_at(t, p, 0) matches Some(c) && c.node matches NodeV::Object(o) && keys_unique(
            o.nodes,
        ),
    ensures
        edited(t, p, ChangeV::Remove(StepV::Name(k))) matches Ok(Some(t2)) && resolved_len(
            t2,
            s,
            0,
        ) == s.len(),
{
    let ch = ChangeV::Remove(StepV::Name(k));
    let c = node_at(t, p, 0)->0;
    let n = changed(c, ch)->Ok_0->0;
    let r = replaced_at(t, p, 0, n)->0;
    lemma_resolved_len_of_replaced(t, p, n, s, 0);
    lemma_resolved_len_of_marked(r, p, s, 0);
    if follows(s, p, 0) {
        if p.len() < s.len() {
            // The breadcrumb goes on below the object by another step.
            lemma_node_at_on_breadcrumb(t, p, s, 0);
            let step = s[p.len() as int];
            assert(resolved_len(c, s, p.len() as int) == s.len());
            match step {
                StepV::Name(k2) => {
                    lemma_removed_entries(c.node->Object_0.nodes, k, k2);
                    let child = shown_child(c, step)->0;
                    lemma_resolved_len_ignores_mark(child, true, s, p.len() as int + 1);
                },
                StepV::Indice(_) => {},
            }
        }
    }
}

/// A breadcrumb that passes a path and leads to a node goes on to the
/// end from the node that the path leads to.
pub proof fn lemma_node_at_on_breadcrumb(t: ContainerV, p: Seq<StepV>, s: Seq<StepV>, i: int)
    requires
        0 <= i <= p.len(),
        follows(s, p, i),
        resolved_len(t, s, i) == s.len(),
        node_at(t, p, i) is Some,
    ensures
        resolved_len(node_at(t, p, i)->0, s, p.len() as int) == s.len(),
    decreases p.len() - i,
{
    if i < p.len() {
        let child = path_child(t, p[i])->0;
        if shown_child(t, s[i]) is Some {
            assert(shown_child(t, p[i]) == Some(child));
            lemma_node_at_on_breadcrumb(child, p, s, i + 1);
        } else {
            if s.len() > i {
                assert(resolved_len(t, s, i) == i);
            }
        }
    }
}

/// True where a value gives every node of a container that is in use a
/// value, by itself or by the defaults of the nodes that it leaves out:
/// the value is complete for the container.
///
/// - A scalar takes a value of its kind; a number, one that its kind can
///   hold. A constant takes a string.
/// - An enum has a variant that the value chooses, and the value is
///   complete for that variant.
/// - Every fixed child of an object has a complete value in the
///   dictionary, or a complete default, or is valid as it is; and the
///   values under the further keys are complete for the template.
/// - An array has a shape for every item, and each item is complete for
///   its shape.
pub open spec fn covers(c: ContainerV, v: ValueV) -> bool
    decreases c,
{
    match (v, c.node) {
        (ValueV::String(_), NodeV::String(_)) => true,
        (ValueV::String(_), NodeV::Value(_)) => true,
        (ValueV::Bool(_), NodeV::Bool(_)) => true,
        (ValueV::Num(x), NodeV::Number(n)) => converted_number(n.kind, x) is Some,
        (ValueV::String(_), NodeV::Enum(e)) => match first_matching(e.nodes, v) {
            Some(pos) => 0 <= pos < e.nodes.len() && covers(e.nodes[pos], v),
            None => false,
        },
        (ValueV::Dict(d), NodeV::Enum(e)) => match first_matching_key(e.nodes, d) {
            Some(pos) => 0 <= pos < e.nodes.len() && covers(e.nodes[pos], v),
            None => false,
        },
        (ValueV::Empty(_), NodeV::Enum(e)) => first_matching(e.nodes, v) is Some,
        (ValueV::Dict(d), NodeV::Object(o)) => {
            &&& forall|i: int|
                0 <= i < o.nodes.len() ==> (#[trigger] o.nodes[i]).1.removable || match key_value(
                    d,
                    o.nodes[i].0,
                ) {
                    Some(x) => covers(o.nodes[i].1, x),
                    None => match o.nodes[i].1.default {
                        Some(dv) => covers(o.nodes[i].1, dv),
                        None => valid(o.nodes[i].1),
                    },
                }
            &&& match o.template {
                Some(t) => forall|j: int|
                    0 <= j < d.len() ==> has_fixed_key(o.nodes, (#[trigger] d[j]).0) || covers(
                        *t,
                        d[j].1,
                    ),
                None => true,
            }
        },
        (ValueV::Array(vs), NodeV::Array(a)) => match a.template {
            TemplateV::All(t) => forall|i: int| 0 <= i < vs.len() ==> covers(*t, #[trigger] vs[i]),
            TemplateV::FirstN(shapes) => vs.len() <= shapes.len() && forall|i: int|
                0 <= i < vs.len() ==> covers(#[trigger] shapes[i], vs[i]),
        },
        _ => false,
    }
}

/// True where every container of the entries is valid.
pub open spec fn entries_valid(m: Seq<(Seq<char>, ContainerV)>) -> bool {
    forall|i: int| 0 <= i < m.len() ==> valid((#[trigger] m[i]).1)
}

/// Putting a valid container into valid entries leaves them valid.
pub proof fn lemma_entries_put_valid(m: Seq<(Seq<char>, ContainerV)>, k: Seq<char>, n: ContainerV)
    requires
        entries_valid(m),
        valid(n),
    ensures
        entries_valid(entries_put(m, k, n)),
{
    lemma_key_index(m, k);
    let r = entries_put(m, k, n);
    assert forall|i: int| 0 <= i < r.len() implies valid((#[trigger] r[i]).1) by {
        match key_index(m, k) {
            Some(x) => {
                if i != x {
                    assert(r[i] == m[i]);
                }
            },
            None => {
                if i < m.len() {
                    assert(r[i] == m[i]);
                }
            },
        }
    }
}

/// Whether a container is valid does not depend on its marks.
pub proof fn lemma_valid_ignores_marks(c: ContainerV, modified: bool, removable: bool)
    ensures
        valid(ContainerV { modified, removable, ..c }) == valid(c),
{
}

/// A value that is complete for a container can be bound to it, and
/// makes it valid.
pub proof fn lemma_bind_complete_is_valid(c: ContainerV, removable: bool, v: ValueV, modified: bool)
    requires
        covers(c, v),
    ensures
        bind_as(c, removable, v, modified) is Ok,
        valid(bind_as(c, removable, v, modified)->Ok_0),
    decreases c, 1nat,
{
    match (v, c.node) {
        (ValueV::String(_), NodeV::Enum(e)) => {
            let pos = first_matching(e.nodes, v)->0;
            lemma_bind_complete_is_valid(e.nodes[pos], e.nodes[pos].removable, v, modified);
        },
        (ValueV::Dict(d), NodeV::Enum(e)) => {
            let pos = first_matching_key(e.nodes, d)->0;
            lemma_bind_complete_is_valid(e.nodes[pos], e.nodes[pos].removable, v, modified);
        },
        (ValueV::Empty(_), NodeV::Enum(e)) => {
            lemma_first_index(e.nodes, |x: ContainerV| matching(x, v));
            let pos = first_matching(e.nodes, v)->0;
            assert(matching(e.nodes[pos], v));
            lemma_valid_ignores_marks(e.nodes[pos], modified, e.nodes[pos].removable);
        },
        (ValueV::Dict(d), NodeV::Object(o)) => {
            lemma_bind_fixed_valid(o, d, modified, 0, Seq::empty());
            let fixed = bind_fixed(o, d, modified, 0, Seq::empty())->Ok_0;
            match o.template {
                Some(t) => {
                    lemma_bind_extra_valid(o, d, modified, 0, fixed);
                },
                None => {},
            }
        },
        (ValueV::Array(vs), NodeV::Array(a)) => {
            lemma_bind_items_valid(a, vs, modified, 0, Seq::empty());
        },
        _ => {},
    }
}

/// The children that stay when a complete dictionary is bound to an
/// object are valid.
pub proof fn lemma_bind_fixed_valid(
    o: ObjectV,
    d: Seq<(Seq<char>, ValueV)>,
    modified: bool,
    i: int,
    acc: Seq<(Seq<char>, ContainerV)>,
)
    requires
        0 <= i,
        entries_valid(acc),
        covers(plain(NodeV::Object(o)), ValueV::Dict(d)),
    ensures
        bind_fixed(o, d, modified, i, acc) is Ok,
        entries_valid(bind_fixed(o, d, modified, i, acc)->Ok_0),
    decreases o, o.nodes.len() - i,
{
    if i < o.nodes.len() {
        let k = o.nodes[i].0;
        let c = o.nodes[i].1;
        if c.removable {
            lemma_bind_fixed_valid(o, d, modified, i + 1, acc);
        } else {
            let n = match key_value(d, k) {
                Some(x) => {
                    lemma_bind_complete_is_valid(o.nodes[i].1, c.removable, x, modified);
                    bind_as(o.nodes[i].1, c.removable, x, modified)->Ok_0
                },
                None => match c.default {
                    Some(dv) => {
                        lemma_bind_complete_is_valid(o.nodes[i].1, c.removable, dv, false);
                        bind_as(o.nodes[i].1, c.removable, dv, false)->Ok_0
                    },
                    None => c,
                },
            };
            lemma_entries_put_valid(acc, k, n);
            lemma_bind_fixed_valid(o, d, modified, i + 1, entries_put(acc, k, n));
        }
    }
}

/// The children that an object makes from its template for a complete
/// dictionary are valid.
pub proof fn lemma_bind_extra_valid(
    o: ObjectV,
    d: Seq<(Seq<char>, ValueV)>,
    modified: bool,
    i: int,
    acc: Seq<(Seq<char>, ContainerV)>,
)
    requires
        0 <= i,
        entries_valid(acc),
        covers(plain(NodeV::Object(o)), ValueV::Dict(d)),
    ensures
        bind_extra(o, d, modified, i, acc) is Ok,
        entries_valid(bind_extra(o, d, modified, i, acc)->Ok_0),
    decreases o, d.len() - i,
{
    if i < d.len() {
        match o.template {
            Some(t) => {
                assert(has_fixed_key(o.nodes, d[i].0) || covers(*t, d[i].1));
                if has_fixed_key(o.nodes, d[i].0) {
                    lemma_bind_extra_valid(o, d, modified, i + 1, acc);
                } else {
                    lemma_bind_complete_is_valid(*t, true, d[i].1, modified);
                    let n = bind_as(*t, true, d[i].1, modified)->Ok_0;
                    lemma_entries_put_valid(acc, d[i].0, n);
                    lemma_bind_extra_valid(o, d, modified, i + 1, entries_put(acc, d[i].0, n));
                }
            },
            None => {},
        }
    }
}

/// The items that an array makes for a complete list are valid.
pub proof fn lemma_bind_items_valid(
    a: ArrayV,
    vs: Seq<ValueV>,
    modified: bool,
    i: int,
    acc: Seq<ContainerV>,
)
    requires
        0 <= i,
        forall|j: int| 0 <= j < acc.len() ==> valid(#[trigger] acc[j]),
        covers(plain(NodeV::Array(a)), ValueV::Array(vs)),
    ensures
        bind_items(a, vs, modified, i, acc) is Ok,
        forall|j: int|
            0 <= j < bind_items(a, vs, modified, i, acc)->Ok_0.len() ==> valid(
                #[trigger] bind_items(a, vs, modified, i, acc)->Ok_0[j],
            ),
    decreases a, vs.len() - i,
{
    if i < vs.len() {
        let whole = ValueV::Array(vs);
        assert(whole->Array_0[i] == vs[i]);
        let n = match a.template {
            TemplateV::All(t) => {
                lemma_bind_complete_is_valid(*t, true, vs[i], modified);
                bind_as(*t, true, vs[i], modified)->Ok_0
            },
            TemplateV::FirstN(shapes) => {
                assert(covers(shapes[i], vs[i]));
                lemma_bind_complete_is_valid(shapes[i], shapes[i].removable, vs[i], modified);
                bind_as(shapes[i], shapes[i].removable, vs[i], modified)->Ok_0
            },
        };
        let acc2 = acc.push(n);
        assert forall|j: int| 0 <= j < acc2.len() implies valid(#[trigger] acc2[j]) by {
            if j < acc.len() {
                assert(acc2[j] == acc[j]);
            }
        }
        lemma_bind_items_valid(a, vs, modified, i + 1, acc2);
    }
}

/// After a node is set back to its default, the node is valid, where its
/// default is complete for it.
pub proof fn lemma_apply_default_is_valid(c: ContainerV)
    requires
        c.default matches Some(d) && covers(cleared(c), d),
    ensures
        changed(c, ChangeV::ApplyDefault) matches Ok(Some(n)) && valid(n),
{
    let d = c.default->0;
    lemma_bind_complete_is_valid(cleared(c), cleared(c).removable, d, false);
}

} // verus!
