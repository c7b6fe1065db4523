//! What a tree gives back after a value was bound to it.
use vstd::prelude::*;
use crate::laws::idempotence::{lemma_bound_children, plain_object};
use crate::json::json_to_value;
use crate::laws::{covers, lemma_bind_complete_is_valid};
use crate::page::written;
use crate::node::apply::{
    bind,
    bind_as,
    bind_extra,
    bind_fixed,
    bind_items,
    bind_object,
    first_matching,
    first_matching_key,
    has_fixed_key,
    ApplyError,
};
use crate::node::provider::{project, project_entries, project_items, ValueError};
use crate::node::{
    entries_put,
    keys_unique,
    well_formed,
    ArrayV,
    ContainerV,
    NodeV,
    ObjectV,
    TemplateV,
};
use crate::number::converted_number;

use crate::text::{lemma_text_lt_irreflexive, lemma_text_lt_transitive, text_lt};
use crate::value::{
    dict_insert,
    key_index,
    key_value,
    keys_sorted,
    lemma_dict_insert,
    lemma_key_index,
    lemma_key_index_is,
    lemma_sorted_keys_unique,
    value_well_formed,
    Empty,
    ValueV,
};

verus! {

/// Two dictionaries whose keys are in order and that have the same value
/// under every key are the same.
pub proof fn lemma_sorted_dicts_equal(a: Seq<(Seq<char>, ValueV)>, b: Seq<(Seq<char>, ValueV)>)
    requires
        keys_sorted(a),
        keys_sorted(b),
        forall|k: Seq<char>| key_value(a, k) == key_value(b, k),
    ensures
        a == b,
    decreases a.len(),
{
    lemma_sorted_keys_unique(a);
    lemma_sorted_keys_unique(b);
    if a.len() == 0 {
        if b.len() > 0 {
            lemma_key_index(b, b[0].0);
            lemma_key_index(a, b[0].0);
            assert(key_value(a, b[0].0) == key_value(b, b[0].0));
            assert(false);
        }
        assert(a =~= b);
    } else {
        let ka = a.last().0;
        lemma_key_index(a, ka);
        lemma_key_index(b, ka);
        assert(key_value(a, ka) == key_value(b, ka));
        assert(key_index(a, ka) == Some(a.len() - 1)) by {
            lemma_key_index_is(a, ka, a.len() - 1);
        }
        let xb = key_index(b, ka)->0;
        // The last key of `a` is the last key of `b`.
        if xb < b.len() - 1 {
            let kb = b.last().0;
            lemma_key_index(a, kb);
            lemma_key_index(b, kb);
            assert(key_index(b, kb) == Some(b.len() - 1)) by {
                lemma_key_index_is(b, kb, b.len() - 1);
            }
            assert(key_value(a, kb) == key_value(b, kb));
            let xa = key_index(a, kb)->0;
            assert(text_lt(b[xb].0, b[b.len() - 1].0));
            if xa < a.len() - 1 {
                assert(text_lt(a[xa].0, a[a.len() - 1].0));
                lemma_text_lt_transitive(ka, kb, ka);
                lemma_text_lt_irreflexive(ka);
            } else {
                lemma_text_lt_irreflexive(ka);
            }
            assert(false);
        }
        assert(b.last() == a.last());
        let a2 = a.drop_last();
        let b2 = b.drop_last();
        assert(keys_sorted(a2)) by {
            assert forall|i: int, j: int| 0 <= i < j < a2.len() implies text_lt(
                #[trigger] a2[i].0,
                #[trigger] a2[j].0,
            ) by {
                assert(text_lt(a[i].0, a[j].0));
            }
        }
        assert(keys_sorted(b2)) by {
            assert forall|i: int, j: int| 0 <= i < j < b2.len() implies text_lt(
                #[trigger] b2[i].0,
                #[trigger] b2[j].0,
            ) by {
                assert(text_lt(b[i].0, b[j].0));
            }
        }
        assert forall|k: Seq<char>| key_value(a2, k) == key_value(b2, k) by {
            lemma_key_index(a, k);
            lemma_key_index(b, k);
            lemma_key_index(a2, k);
            lemma_key_index(b2, k);
            assert(key_value(a, k) == key_value(b, k));
            if k == ka {
                if key_index(a2, k) is Some {
                    let x = key_index(a2, k)->0;
                    assert(a[x].0 == a[a.len() - 1].0);
                }
                if key_index(b2, k) is Some {
                    let x = key_index(b2, k)->0;
                    assert(b[x].0 == b[b.len() - 1].0);
                }
            } else {
                match key_index(a, k) {
                    Some(x) => {
                        assert(a2[x] == a[x]);
                        lemma_key_index_is(a2, k, x);
                    },
                    None => {
                        if key_index(a2, k) is Some {
                            let x = key_index(a2, k)->0;
                            assert(a[x].0 == k);
                        }
                    },
                }
                match key_index(b, k) {
                    Some(x) => {
                        assert(b2[x] == b[x]);
                        lemma_key_index_is(b2, k, x);
                    },
                    None => {
                        if key_index(b2, k) is Some {
                            let x = key_index(b2, k)->0;
                            assert(b[x].0 == k);
                        }
                    },
                }
            }
        }
        lemma_sorted_dicts_equal(a2, b2);
        assert(a =~= a2.push(a.last()));
        assert(b =~= b2.push(b.last()));
    }
}

/// True where a tree takes all of a value, so that it gives the value
/// back once the value is bound to it:
///
/// - a string or a boolean on the node of its kind; a number on a node
///   of its own kind; a string on a constant that is that string;
/// - on an enum, a value that the chosen variant takes all of; an empty
///   value that is nothing, where it chooses a null;
/// - on an object, a dictionary whose every key has a fixed child or the
///   template to take all of its value, while the fixed children that it
///   leaves out give nothing;
/// - on an array, a list whose every item the shape for its position
///   takes all of.
pub open spec fn takes_all(c: ContainerV, v: ValueV) -> bool
    decreases c,
{
    match (v, c.node) {
        (ValueV::String(_), NodeV::String(_)) => true,
        (ValueV::String(_), NodeV::Value(j)) => json_to_value(j) == v,
        (ValueV::Bool(_), NodeV::Bool(_)) => true,
        (ValueV::Num(x), NodeV::Number(n)) => converted_number(n.kind, x) == Some(x),
        (ValueV::String(_), NodeV::Enum(e)) => match first_matching(e.nodes, v) {
            Some(pos) => 0 <= pos < e.nodes.len() && takes_all(e.nodes[pos], v),
            None => false,
        },
        (ValueV::Dict(d), NodeV::Enum(e)) => match first_matching_key(e.nodes, d) {
            Some(pos) => 0 <= pos < e.nodes.len() && takes_all(e.nodes[pos], v),
            None => false,
        },
        (ValueV::Empty(x), NodeV::Enum(e)) => match first_matching(e.nodes, v) {
            Some(pos) => 0 <= pos < e.nodes.len() && x == Empty::Nothing
                && e.nodes[pos].node is Null,
            None => false,
        },
        (ValueV::Dict(d), NodeV::Object(o)) => {
            &&& forall|i: int|
                0 <= i < o.nodes.len() ==> (#[trigger] o.nodes[i]).1.removable || match key_value(
                    d,
                    o.nodes[i].0,
                ) {
                    Some(x) => takes_all(o.nodes[i].1, x),
                    None => match o.nodes[i].1.default {
                        Some(_) => !(o.nodes[i].1.node is Value),
                        None => project(o.nodes[i].1) == Ok::<Option<ValueV>, ValueError>(None),
                    },
                }
            &&& forall|j: int|
                0 <= j < d.len() ==> has_fixed_key(o.nodes, (#[trigger] d[j]).0) || match o.template {
                    Some(t) => takes_all(*t, d[j].1),
                    None => false,
                }
        },
        (ValueV::Array(vs), NodeV::Array(a)) => match a.template {
            TemplateV::All(t) => forall|i: int| 0 <= i < vs.len() ==> takes_all(*t, #[trigger] vs[i]),
            TemplateV::FirstN(shapes) => vs.len() <= shapes.len() && forall|i: int|
                0 <= i < vs.len() ==> takes_all(#[trigger] shapes[i], vs[i]),
        },
        _ => false,
    }
}

/// Binding a value leaves a constant a constant and makes nothing else
/// one.
pub proof fn lemma_bind_keeps_constants(c: ContainerV, removable: bool, v: ValueV, modified: bool)
    requires
        bind_as(c, removable, v, modified) is Ok,
    ensures
        bind_as(c, removable, v, modified)->Ok_0.node is Value == c.node is Value,
{
}

/// True where every container of the entries gives the value that the
/// dictionary has under its key, and nothing where it has none.
pub open spec fn gives_entries(d: Seq<(Seq<char>, ValueV)>, m: Seq<(Seq<char>, ContainerV)>)
    -> bool {
    forall|i: int|
        0 <= i < m.len() ==> project((#[trigger] m[i]).1) == Ok::<Option<ValueV>, ValueError>(
            key_value(d, m[i].0),
        )
}

/// Putting a container that gives what the dictionary has under its key
/// into such entries leaves them such.
pub proof fn lemma_entries_put_gives(
    d: Seq<(Seq<char>, ValueV)>,
    m: Seq<(Seq<char>, ContainerV)>,
    k: Seq<char>,
    n: ContainerV,
)
    requires
        gives_entries(d, m),
        project(n) == Ok::<Option<ValueV>, ValueError>(key_value(d, k)),
    ensures
        gives_entries(d, entries_put(m, k, n)),
{
    lemma_key_index(m, k);
    let r = entries_put(m, k, n);
    assert forall|i: int| 0 <= i < r.len() implies project((#[trigger] r[i]).1) == Ok::<
        Option<ValueV>,
        ValueError,
    >(key_value(d, r[i].0)) by {
        match key_index(m, k) {
            Some(x) => {
                if i != x {
                    assert(r[i] == m[i]);
                }
            },
            None => {
                if i < m.len() {
                    assert(r[i] == m[i]);
                }
            },
        }
    }
}

/// Round trip: a well-formed tree that takes all of a value gives the
/// value back after the value was bound to it as modified.
pub proof fn lemma_bind_then_project(c: ContainerV, removable: bool, v: ValueV)
    requires
        well_formed(c),
        value_well_formed(v),
        takes_all(c, v),
        bind_as(c, removable, v, true) is Ok,
    ensures
        project(bind_as(c, removable, v, true)->Ok_0) == Ok::<Option<ValueV>, ValueError>(
            Some(v),
        ),
    decreases c, 1nat,
{
    let c1 = bind_as(c, removable, v, true)->Ok_0;
    match (v, c.node) {
        (ValueV::String(_), NodeV::Enum(e)) => {
            let pos = first_matching(e.nodes, v)->0;
            lemma_bind_then_project(e.nodes[pos], e.nodes[pos].removable, v);
        },
        (ValueV::Dict(d), NodeV::Enum(e)) => {
            let pos = first_matching_key(e.nodes, d)->0;
            lemma_bind_then_project(e.nodes[pos], e.nodes[pos].removable, v);
        },
        (ValueV::Dict(d), NodeV::Object(o)) => {
            lemma_object_gives_dict(o, d);
        },
        (ValueV::Array(vs), NodeV::Array(a)) => {
            lemma_bind_items_closed(a, vs, 0, Seq::empty());
            let a1 = c1.node->Array_0;
            assert(vs.subrange(0, 0) =~= Seq::<ValueV>::empty());
            lemma_items_give_list(a, a1, vs, 0);
            assert(vs.subrange(0, vs.len() as int) =~= vs);
        },
        (ValueV::Empty(_), NodeV::Enum(e)) => {
            let pos = first_matching(e.nodes, v)->0;
            let chosen = ContainerV { modified: true, ..e.nodes[pos] };
            assert(project(chosen) == Ok::<Option<ValueV>, ValueError>(Some(v)));
        },
        _ => {},
    }
}

/// The shape that an array has for the item at a position, and whether a
/// container made from it is removable.
pub open spec fn item_bound(a: ArrayV, vs: Seq<ValueV>, i: int) -> Result<ContainerV, ApplyError> {
    match a.template {
        TemplateV::All(t) => bind_as(*t, true, vs[i], true),
        TemplateV::FirstN(shapes) => if i < shapes.len() {
            bind_as(shapes[i], shapes[i].removable, vs[i], true)
        } else {
            Err(ApplyError::NoCompatibleNode)
        },
    }
}

/// The items that an array makes for a list: what was made so far, then
/// one for each further value, each bound to the shape for its position.
pub proof fn lemma_bind_items_closed(a: ArrayV, vs: Seq<ValueV>, i: int, acc: Seq<ContainerV>)
    requires
        0 <= i <= vs.len(),
        acc.len() == i,
        bind_items(a, vs, true, i, acc) is Ok,
    ensures
        bind_items(a, vs, true, i, acc)->Ok_0.len() == vs.len(),
        bind_items(a, vs, true, i, acc)->Ok_0.subrange(0, i) == acc,
        forall|x: int|
            i <= x < vs.len() ==> item_bound(a, vs, x) == Ok::<ContainerV, ApplyError>(
                #[trigger] bind_items(a, vs, true, i, acc)->Ok_0[x],
            ),
    decreases vs.len() - i,
{
    if i < vs.len() {
        let n = item_bound(a, vs, i)->Ok_0;
        let acc2 = acc.push(n);
        lemma_bind_items_closed(a, vs, i + 1, acc2);
        let r = bind_items(a, vs, true, i, acc)->Ok_0;
        assert(r.subrange(0, i + 1)[i] == acc2[i]);
        assert(r.subrange(0, i) =~= acc) by {
            assert forall|x: int| 0 <= x < i implies r.subrange(0, i)[x] == acc[x] by {
                assert(r.subrange(0, i + 1)[x] == acc2[x]);
            }
        }
    } else {
        assert(acc.subrange(0, i) =~= acc);
    }
}

/// The items of an array that a list was bound to give the list.
pub proof fn lemma_items_give_list(a: ArrayV, a1: ArrayV, vs: Seq<ValueV>, i: int)
    requires
        0 <= i <= vs.len(),
        well_formed(plain_array(a)),
        value_well_formed(ValueV::Array(vs)),
        takes_all(plain_array(a), ValueV::Array(vs)),
        a1.values is Some,
        a1.values->0.len() == vs.len(),
        forall|x: int|
            0 <= x < vs.len() ==> item_bound(a, vs, x) == Ok::<ContainerV, ApplyError>(
                #[trigger] a1.values->0[x],
            ),
    ensures
        project_items(a1, i, vs.subrange(0, i)) == Ok::<Seq<ValueV>, ValueError>(vs),
    decreases a, vs.len() - i,
{
    if i < vs.len() {
        let whole = ValueV::Array(vs);
        assert(whole->Array_0[i] == vs[i]);
        let item = a1.values->0[i];
        match a.template {
            TemplateV::All(t) => {
                lemma_bind_then_project(*t, true, vs[i]);
            },
            TemplateV::FirstN(shapes) => {
                assert(takes_all(shapes[i], vs[i]));
                assert(well_formed(shapes[i]));
                lemma_bind_then_project(shapes[i], shapes[i].removable, vs[i]);
            },
        }
        assert(project(item) == Ok::<Option<ValueV>, ValueError>(Some(vs[i])));
        assert(vs.subrange(0, i).push(vs[i]) =~= vs.subrange(0, i + 1));
        lemma_items_give_list(a, a1, vs, i + 1);
    } else {
        assert(vs.subrange(0, i) =~= vs);
    }
}

/// An array as the payload of a container without marks.
pub open spec fn plain_array(a: ArrayV) -> ContainerV {
    ContainerV {
        node: NodeV::Array(a),
        default: None,
        title: None,
        desc: None,
        modified: false,
        removable: false,
    }
}

/// The children that stay when a dictionary is bound to an object that
/// takes all of it give what the dictionary has under their keys.
pub proof fn lemma_bind_fixed_gives(
    o: ObjectV,
    d: Seq<(Seq<char>, ValueV)>,
    i: int,
    acc: Seq<(Seq<char>, ContainerV)>,
)
    requires
        0 <= i <= o.nodes.len(),
        well_formed(plain_object(o)),
        value_well_formed(ValueV::Dict(d)),
        takes_all(plain_object(o), ValueV::Dict(d)),
        gives_entries(d, acc),
        bind_fixed(o, d, true, i, acc) is Ok,
    ensures
        gives_entries(d, bind_fixed(o, d, true, i, acc)->Ok_0),
    decreases o, o.nodes.len() - i,
{
    if i < o.nodes.len() {
        let k = o.nodes[i].0;
        let c = o.nodes[i].1;
        if c.removable {
            lemma_bind_fixed_gives(o, d, i + 1, acc);
        } else {
            lemma_key_index(d, k);
            let whole = ValueV::Dict(d);
            assert(well_formed(o.nodes[i].1));
            let n = match key_value(d, k) {
                Some(x) => {
                    let at = key_index(d, k)->0;
                    assert(whole->Dict_0[at].1 == x);
                    lemma_bind_then_project(o.nodes[i].1, c.removable, x);
                    bind_as(o.nodes[i].1, c.removable, x, true)->Ok_0
                },
                None => match c.default {
                    Some(dv) => {
                        lemma_bind_keeps_constants(o.nodes[i].1, c.removable, dv, false);
                        bind_as(o.nodes[i].1, c.removable, dv, false)->Ok_0
                    },
                    None => c,
                },
            };
            lemma_entries_put_gives(d, acc, k, n);
            lemma_bind_fixed_gives(o, d, i + 1, entries_put(acc, k, n));
        }
    }
}

/// The children that an object makes from its template for a dictionary
/// that it takes all of give what the dictionary has under their keys.
pub proof fn lemma_bind_extra_gives(
    o: ObjectV,
    d: Seq<(Seq<char>, ValueV)>,
    i: int,
    acc: Seq<(Seq<char>, ContainerV)>,
)
    requires
        0 <= i <= d.len(),
        well_formed(plain_object(o)),
        value_well_formed(ValueV::Dict(d)),
        takes_all(plain_object(o), ValueV::Dict(d)),
        gives_entries(d, acc),
        bind_extra(o, d, true, i, acc) is Ok,
    ensures
        gives_entries(d, bind_extra(o, d, true, i, acc)->Ok_0),
    decreases o, d.len() - i,
{
    if i < d.len() {
        match o.template {
            Some(t) => {
                let k = d[i].0;
                let whole = ValueV::Dict(d);
                assert(whole->Dict_0[i] == d[i]);
                if has_fixed_key(o.nodes, k) {
                    lemma_bind_extra_gives(o, d, i + 1, acc);
                } else {
                    lemma_sorted_keys_unique(d);
                    lemma_key_index(d, k);
                    lemma_key_index_is(d, k, i);
                    lemma_bind_then_project(*t, true, d[i].1);
                    let n = bind_as(*t, true, d[i].1, true)->Ok_0;
                    lemma_entries_put_gives(d, acc, k, n);
                    lemma_bind_extra_gives(o, d, i + 1, entries_put(acc, k, n));
                }
            },
            None => {},
        }
    }
}

/// The dictionary that is made of what the children of an object give,
/// where each child gives what a dictionary `d` has under its key: it
/// has under every key what `d` has, where a child has the key, and
/// nothing where none has.
pub proof fn lemma_project_entries_of(
    o: ObjectV,
    d: Seq<(Seq<char>, ValueV)>,
    i: int,
    acc: Seq<(Seq<char>, ValueV)>,
)
    requires
        0 <= i <= o.nodes.len(),
        keys_unique(o.nodes),
        gives_entries(d, o.nodes),
        keys_sorted(acc),
        forall|k: Seq<char>|
            key_value(acc, k) == if key_index(o.nodes.subrange(0, i), k) is Some {
                key_value(d, k)
            } else {
                None
            },
    ensures
        project_entries(o, i, acc) is Ok,
        keys_sorted(project_entries(o, i, acc)->Ok_0),
        forall|k: Seq<char>|
            key_value(project_entries(o, i, acc)->Ok_0, k) == if key_index(o.nodes, k) is Some {
                key_value(d, k)
            } else {
                None
            },
    decreases o.nodes.len() - i,
{
    if i < o.nodes.len() {
        let k0 = o.nodes[i].0;
        let before = o.nodes.subrange(0, i);
        let after = o.nodes.subrange(0, i + 1);
        assert(after =~= before.push(o.nodes[i]));
        assert(after.drop_last() =~= before);
        let acc2 = match project(o.nodes[i].1) {
            Ok(Some(v)) => dict_insert(acc, k0, v),
            _ => acc,
        };
        match key_value(d, k0) {
            Some(v) => {
                lemma_dict_insert(acc, k0, v);
            },
            None => {},
        }
        assert forall|k: Seq<char>|
            key_value(acc2, k) == if key_index(after, k) is Some {
                key_value(d, k)
            } else {
                None
            } by {
            lemma_key_index(before, k);
            lemma_key_index(after, k);
            if k == k0 {
                if key_index(before, k) is Some {
                    let x = key_index(before, k)->0;
                    assert(before[x] == o.nodes[x]);
                    assert(o.nodes[x].0 == o.nodes[i].0);
                    assert(false);
                }
                assert(after[i].0 == k0);
                assert(key_index(after, k) is Some);
                assert(key_value(acc, k) is None);
                assert(project(o.nodes[i].1) == Ok::<Option<ValueV>, ValueError>(key_value(d, k0)));
            } else {
                assert(key_value(acc2, k) == key_value(acc, k));
                match key_index(before, k) {
                    Some(x) => {
                        assert(after[x] == before[x]);
                    },
                    None => {
                        if key_index(after, k) is Some {
                            let x = key_index(after, k)->0;
                            if x < i {
                                assert(before[x] == after[x]);
                            }
                        }
                    },
                }
            }
        }
        lemma_project_entries_of(o, d, i + 1, acc2);
    } else {
        assert(o.nodes.subrange(0, i) =~= o.nodes);
    }
}

/// An object that takes all of a dictionary gives the dictionary back
/// after it was bound.
pub proof fn lemma_object_gives_dict(o: ObjectV, d: Seq<(Seq<char>, ValueV)>)
    requires
        well_formed(plain_object(o)),
        value_well_formed(ValueV::Dict(d)),
        takes_all(plain_object(o), ValueV::Dict(d)),
        bind_object(o, d, true) is Ok,
    ensures
        bind_object(o, d, true)->Ok_0 is Object,
        project_entries(bind_object(o, d, true)->Ok_0->Object_0, 0, Seq::empty()) == Ok::<
            Seq<(Seq<char>, ValueV)>,
            ValueError,
        >(d),
    decreases o, o.nodes.len() + d.len() + 4,
{
    let empty = Seq::<(Seq<char>, ContainerV)>::empty();
    let none = Seq::<(Seq<char>, ValueV)>::empty();
    lemma_bound_children(o, d, true);
    let f = bind_fixed(o, d, true, 0, empty)->Ok_0;
    let o2 = bind_object(o, d, true)->Ok_0->Object_0;
    let r = o2.nodes;
    assert(gives_entries(d, empty));
    lemma_bind_fixed_gives(o, d, 0, empty);
    match o.template {
        Some(t) => {
            lemma_bind_extra_gives(o, d, 0, f);
        },
        None => {},
    }
    assert(gives_entries(d, r));
    assert(r.subrange(0, 0) =~= empty);
    assert forall|k: Seq<char>|
        key_value(none, k) == if key_index(r.subrange(0, 0), k) is Some {
            key_value(d, k)
        } else {
            None
        } by {}
    lemma_project_entries_of(o2, d, 0, none);
    let got = project_entries(o2, 0, none)->Ok_0;
    assert forall|k: Seq<char>| key_value(got, k) == key_value(d, k) by {
        lemma_key_index(d, k);
        lemma_key_index(r, k);
        lemma_key_index(o.nodes, k);
        lemma_key_index(f, k);
        if key_index(d, k) is Some {
            let j = key_index(d, k)->0;
            let whole = ValueV::Dict(d);
            assert(whole->Dict_0[j] == d[j]);
            if has_fixed_key(o.nodes, k) {
                let x = key_index(o.nodes, k)->0;
                let q = key_index(f, k)->0;
                assert(r.subrange(0, f.len() as int)[q] == r[q]);
                assert(r[q].0 == k);
            } else {
                assert(o.template is Some);
            }
        }
    }
    lemma_sorted_dicts_equal(got, d);
}

/// Round trip: where a well-formed tree takes all of a value, binding
/// the value to it as modified and then asking the tree for its value
/// gives the value back.
pub proof fn lemma_round_trip(c: ContainerV, v: ValueV)
    requires
        well_formed(c),
        value_well_formed(v),
        takes_all(c, v),
        bind(c, v, true) is Ok,
    ensures
        project(bind(c, v, true)->Ok_0) == Ok::<Option<ValueV>, ValueError>(Some(v)),
{
    lemma_bind_then_project(c, c.removable, v);
}

/// Round trip of what is written: where a value is complete for a
/// well-formed tree that takes all of it, the tree is valid after the
/// value was bound to it as modified, and the value is what is written
/// out.
pub proof fn lemma_round_trip_written(c: ContainerV, v: ValueV)
    requires
        well_formed(c),
        value_well_formed(v),
        covers(c, v),
        takes_all(c, v),
    ensures
        bind(c, v, true) matches Ok(c1) && written(c1) == Some(v),
{
    lemma_bind_complete_is_valid(c, c.removable, v, true);
    lemma_bind_then_project(c, c.removable, v);
}

} // verus!
