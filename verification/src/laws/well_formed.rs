//! The trees and the values that the library makes are well-formed.
use vstd::prelude::*;
use crate::laws::idempotence::{lemma_bound_children, plain_object};
use crate::json::{json_members_to_dict, json_to_value, JsonV};
use crate::node::apply::{
    bind,
    bind_as,
    bind_extra,
    bind_fixed,
    bind_items,
    bind_object,
    first_matching,
    first_matching_key,
    has_fixed_key,
    matching,
};
use crate::node::apply::cleared;
use crate::node::data_path::{marked, node_at, path_child, replaced_at, with_child, StepV};
use crate::node::{
    all_modified,
    array_template,
    as_removable,
    entries_all_modified,
    entries_shift_removed,
    entries_swap_removed,
};
use crate::page::{changed, edited, items_with_new, new_child, ChangeV};
use crate::seqs::lemma_first_index;
use crate::value::key_value;
use crate::node::from_json_schema::{
    all_of_part,
    array_part,
    choice_part,
    compile,
    compile_list,
    compile_properties,
    compile_schema,
    enum_part,
    instance_node,
    merge,
    merge_variants,
    merged,
    object_part,
    plain,
    reference_part,
    type_part,
    with_metadata,
    SchemaError,
};
use crate::node::provider::{project, project_entries, project_items};
use crate::node::{
    entries_put,
    keys_unique,
    well_formed,
    ArrayV,
    ContainerV,
    EnumV,
    NodeV,
    ObjectV,
    TemplateV,
};
use crate::schema::{Items, Metadata, Schema, SchemaObject};
use crate::value::{
    dict_insert,
    key_index,
    lemma_dict_insert,
    lemma_key_index,
    lower_count,
    value_well_formed,
    ValueV,
};

verus! {

/// The number of smaller keys lies between nothing and all.
pub proof fn lemma_lower_count_range<A>(m: Seq<(Seq<char>, A)>, k: Seq<char>)
    ensures
        0 <= lower_count(m, k) <= m.len(),
    decreases m.len(),
{
    if m.len() > 0 {
        lemma_lower_count_range(m.drop_last(), k);
    }
}

/// What holds of every entry of a dictionary and of a value holds of
/// every entry once the value is put into the dictionary.
pub proof fn lemma_dict_insert_all(
    m: Seq<(Seq<char>, ValueV)>,
    k: Seq<char>,
    v: ValueV,
    p: spec_fn(ValueV) -> bool,
)
    requires
        forall|i: int| 0 <= i < m.len() ==> p((#[trigger] m[i]).1),
        p(v),
    ensures
        forall|i: int|
            0 <= i < dict_insert(m, k, v).len() ==> p((#[trigger] dict_insert(m, k, v)[i]).1),
{
    let r = dict_insert(m, k, v);
    let at = lower_count(m, k);
    lemma_lower_count_range(m, k);
    assert forall|i: int| 0 <= i < r.len() implies p((#[trigger] r[i]).1) by {
        if at < m.len() && m[at].0 == k {
            if i != at {
                assert(r[i] == m[i]);
            }
        } else {
            if i < at {
                assert(r[i] == m[i]);
            } else if i > at {
                assert(r[i] == m[i - 1]);
            }
        }
    }
}

/// Putting a well-formed value into a well-formed dictionary gives a
/// well-formed dictionary.
pub proof fn lemma_dict_insert_well_formed(m: Seq<(Seq<char>, ValueV)>, k: Seq<char>, v: ValueV)
    requires
        value_well_formed(ValueV::Dict(m)),
        value_well_formed(v),
    ensures
        value_well_formed(ValueV::Dict(dict_insert(m, k, v))),
{
    let whole = ValueV::Dict(m);
    assert forall|i: int| 0 <= i < m.len() implies value_well_formed((#[trigger] m[i]).1) by {
        assert(whole->Dict_0[i] == m[i]);
    }
    lemma_dict_insert(m, k, v);
    lemma_dict_insert_all(m, k, v, |x: ValueV| value_well_formed(x));
}

/// The value that a JSON literal stands for is well-formed.
pub proof fn lemma_json_to_value_well_formed(j: JsonV)
    ensures
        value_well_formed(json_to_value(j)),
    decreases j, 1nat, 0nat,
{
    match j {
        JsonV::Array(a) => {
            let r = json_to_value(j)->Array_0;
            assert forall|i: int| 0 <= i < r.len() implies value_well_formed(#[trigger] r[i]) by {
                lemma_json_to_value_well_formed(a[i]);
            }
        },
        JsonV::Object(e) => {
            lemma_json_members_well_formed(j, e.len());
        },
        _ => {},
    }
}

/// The dictionary made of the members of a JSON object is well-formed.
pub proof fn lemma_json_members_well_formed(j: JsonV, n: nat)
    ensures
        value_well_formed(ValueV::Dict(json_members_to_dict(j, n))),
    decreases j, 0nat, n,
{
    match j {
        JsonV::Object(e) => {
            if n == 0 || n > e.len() {
            } else {
                lemma_json_members_well_formed(j, (n - 1) as nat);
                lemma_json_to_value_well_formed(e[n - 1].1);
                lemma_dict_insert_well_formed(
                    json_members_to_dict(j, (n - 1) as nat),
                    e[n - 1].0,
                    json_to_value(e[n - 1].1),
                );
            }
        },
        _ => {},
    }
}

/// The value that a tree gives is well-formed.
pub proof fn lemma_project_well_formed(c: ContainerV)
    ensures
        project(c) matches Ok(Some(v)) ==> value_well_formed(v),
    decreases c, 1nat,
{
    match c.node {
        NodeV::Value(j) => {
            lemma_json_to_value_well_formed(j);
        },
        NodeV::Object(o) => {
            lemma_project_entries_well_formed(o, 0, Seq::empty());
        },
        NodeV::Enum(e) => {
            match e.value {
                Some(pos) => {
                    if 0 <= pos < e.nodes.len() {
                        lemma_project_well_formed(e.nodes[pos]);
                    }
                },
                None => {},
            }
        },
        NodeV::Array(a) => {
            lemma_project_items_well_formed(a, 0, Seq::empty());
        },
        _ => {},
    }
}

/// The dictionary of what the children of an object give is well-formed.
pub proof fn lemma_project_entries_well_formed(
    o: ObjectV,
    i: int,
    acc: Seq<(Seq<char>, ValueV)>,
)
    requires
        0 <= i,
        value_well_formed(ValueV::Dict(acc)),
    ensures
        project_entries(o, i, acc) matches Ok(d) ==> value_well_formed(ValueV::Dict(d)),
    decreases o, o.nodes.len() - i,
{
    if i < o.nodes.len() {
        match project(o.nodes[i].1) {
            Ok(Some(v)) => {
                lemma_project_well_formed(o.nodes[i].1);
                lemma_dict_insert_well_formed(acc, o.nodes[i].0, v);
                lemma_project_entries_well_formed(o, i + 1, dict_insert(acc, o.nodes[i].0, v));
            },
            Ok(None) => {
                lemma_project_entries_well_formed(o, i + 1, acc);
            },
            Err(_) => {},
        }
    }
}

/// The list of what the items of an array give is well-formed.
pub proof fn lemma_project_items_well_formed(a: ArrayV, i: int, acc: Seq<ValueV>)
    requires
        0 <= i,
        value_well_formed(ValueV::Array(acc)),
    ensures
        project_items(a, i, acc) matches Ok(l) ==> value_well_formed(ValueV::Array(l)),
    decreases a, (if a.values is Some {
        a.values->0.len() - i
    } else {
        0
    }),
{
    match a.values {
        Some(vs) => {
            if i < vs.len() {
                match project(vs[i]) {
                    Ok(Some(v)) => {
                        lemma_project_well_formed(vs[i]);
                        let acc2 = acc.push(v);
                        let whole = ValueV::Array(acc);
                        assert forall|x: int| 0 <= x < acc2.len() implies value_well_formed(
                            #[trigger] acc2[x],
                        ) by {
                            if x < acc.len() {
                                assert(whole->Array_0[x] == acc2[x]);
                            }
                        }
                        lemma_project_items_well_formed(a, i + 1, acc2);
                    },
                    _ => {},
                }
            }
        },
        None => {},
    }
}

/// What holds of every entry and of a new one holds of every entry once
/// the new one is put in.
pub proof fn lemma_entries_put_all(
    m: Seq<(Seq<char>, ContainerV)>,
    k: Seq<char>,
    n: ContainerV,
    p: spec_fn(ContainerV) -> bool,
)
    requires
        forall|i: int| 0 <= i < m.len() ==> p((#[trigger] m[i]).1),
        p(n),
    ensures
        forall|i: int|
            0 <= i < entries_put(m, k, n).len() ==> p((#[trigger] entries_put(m, k, n)[i]).1),
{
    lemma_key_index(m, k);
    let r = entries_put(m, k, n);
    assert forall|i: int| 0 <= i < r.len() implies p((#[trigger] r[i]).1) by {
        match key_index(m, k) {
            Some(x) => {
                if i != x {
                    assert(r[i] == m[i]);
                }
            },
            None => {
                if i < m.len() {
                    assert(r[i] == m[i]);
                }
            },
        }
    }
}

/// Putting an entry into entries with distinct keys leaves the keys
/// distinct.
pub proof fn lemma_entries_put_unique(m: Seq<(Seq<char>, ContainerV)>, k: Seq<char>, n: ContainerV)
    requires
        keys_unique(m),
    ensures
        keys_unique(entries_put(m, k, n)),
{
    lemma_key_index(m, k);
    let r = entries_put(m, k, n);
    assert forall|a: int, b: int| 0 <= a < r.len() && 0 <= b < r.len() && a != b implies (
    #[trigger] r[a]).0 != (#[trigger] r[b]).0 by {
        match key_index(m, k) {
            Some(x) => {
                assert(r[a].0 == m[a].0);
                assert(r[b].0 == m[b].0);
            },
            None => {
                if a < m.len() {
                    assert(r[a] == m[a]);
                }
                if b < m.len() {
                    assert(r[b] == m[b]);
                }
            },
        }
    }
}

/// True for a well-formed container that is not removable: what a schema
/// is compiled to.
pub open spec fn fresh(c: ContainerV) -> bool {
    well_formed(c) && !c.removable
}

/// Metadata leaves a container as fresh as it is.
pub proof fn lemma_with_metadata_fresh(c: ContainerV, m: Option<Box<Metadata>>)
    requires
        fresh(c),
    ensures
        fresh(with_metadata(c, m)),
{
    match m {
        Some(b) => {
            match b.default {
                Some(j) => {
                    lemma_json_to_value_well_formed(j@);
                },
                None => {},
            }
        },
        None => {},
    }
}

/// Two fresh descriptions of a node merge to a fresh one.
pub proof fn lemma_merge_fresh(a: ContainerV, b: ContainerV)
    requires
        fresh(a),
        fresh(b),
    ensures
        merge(a, b) matches Some(m) ==> fresh(m),
    decreases a, 1nat,
{
    match a.node {
        NodeV::Enum(e) => {
            lemma_merge_variants_fresh(e, b, 0);
            match merge_variants(e, b, 0) {
                Some((i, m)) => {
                    let nodes2 = e.nodes.update(i, m);
                    assert forall|x: int| 0 <= x < nodes2.len() implies well_formed(
                        #[trigger] nodes2[x],
                    ) by {
                        if x != i {
                            assert(nodes2[x] == e.nodes[x]);
                        }
                    }
                },
                None => {},
            }
        },
        _ => {},
    }
}

/// What is merged into a variant of a well-formed enum is well-formed.
pub proof fn lemma_merge_variants_fresh(e: EnumV, b: ContainerV, i: int)
    requires
        0 <= i,
        forall|x: int| 0 <= x < e.nodes.len() ==> well_formed(#[trigger] e.nodes[x]),
        fresh(b),
    ensures
        merge_variants(e, b, i) matches Some((x, m)) ==> 0 <= x < e.nodes.len() && well_formed(m),
    decreases e, e.nodes.len() - i,
{
    if i < e.nodes.len() {
        lemma_merge_any(e.nodes[i], b);
        match merge(e.nodes[i], b) {
            Some(m) => {},
            None => {
                lemma_merge_variants_fresh(e, b, i + 1);
            },
        }
    }
}

/// Two well-formed descriptions of a node merge to a well-formed one.
pub proof fn lemma_merge_any(a: ContainerV, b: ContainerV)
    requires
        well_formed(a),
        fresh(b),
    ensures
        merge(a, b) matches Some(m) ==> well_formed(m) && m.removable == (if a.node is Enum
            || b.node is Any {
            a.removable
        } else {
            b.removable
        }),
    decreases a, 1nat,
{
    match a.node {
        NodeV::Enum(e) => {
            lemma_merge_variants_fresh(e, b, 0);
            match merge_variants(e, b, 0) {
                Some((i, m)) => {
                    let nodes2 = e.nodes.update(i, m);
                    assert forall|x: int| 0 <= x < nodes2.len() implies well_formed(
                        #[trigger] nodes2[x],
                    ) by {
                        if x != i {
                            assert(nodes2[x] == e.nodes[x]);
                        }
                    }
                },
                None => {},
            }
        },
        _ => {},
    }
}

/// One more fresh part merged into a fresh result leaves it fresh.
pub proof fn lemma_merged_fresh(
    acc: Result<ContainerV, SchemaError>,
    part: Result<Option<ContainerV>, SchemaError>,
)
    requires
        acc matches Ok(a) ==> fresh(a),
        part matches Ok(Some(p)) ==> fresh(p),
    ensures
        merged(acc, part) matches Ok(m) ==> fresh(m),
{
    match (acc, part) {
        (Ok(a), Ok(Some(p))) => {
            lemma_merge_fresh(a, p);
        },
        _ => {},
    }
}

/// The tree that a schema is compiled to is well-formed, and nothing in
/// it is removable.
pub proof fn lemma_compile_fresh(defs: Seq<(String, Schema)>, s: SchemaObject, fuel: nat)
    ensures
        compile(defs, s, fuel) matches Ok(c) ==> fresh(c),
    decreases fuel, s, 1nat,
{
    let r0: Result<ContainerV, SchemaError> = Ok(plain(NodeV::Any));
    let p1: Result<Option<ContainerV>, SchemaError> = Ok(type_part(s));
    let r1 = merged(r0, p1);
    let p2 = object_part(defs, s, fuel);
    let r2 = merged(r1, p2);
    let p3: Result<Option<ContainerV>, SchemaError> = Ok(enum_part(s));
    let r3 = merged(r2, p3);
    let p4 = array_part(defs, s, fuel);
    let r4 = merged(r3, p4);
    let p5 = all_of_part(defs, s, fuel);
    let r5 = merged(r4, p5);
    let p6 = match s.subschemas {
        Some(sub) => choice_part(defs, s, sub.one_of, fuel),
        None => Ok(None),
    };
    let r6 = merged(r5, p6);
    let p7 = match s.subschemas {
        Some(sub) => choice_part(defs, s, sub.any_of, fuel),
        None => Ok(None),
    };
    let r7 = merged(r6, p7);
    let p8 = reference_part(defs, s, fuel);
    let r8 = merged(r7, p8);
    lemma_type_part_fresh(s);
    lemma_merged_fresh(r0, p1);
    lemma_object_part_fresh(defs, s, fuel);
    lemma_merged_fresh(r1, p2);
    lemma_enum_part_fresh(s);
    lemma_merged_fresh(r2, p3);
    lemma_array_part_fresh(defs, s, fuel);
    lemma_merged_fresh(r3, p4);
    lemma_all_of_part_fresh(defs, s, fuel);
    lemma_merged_fresh(r4, p5);
    match s.subschemas {
        Some(sub) => {
            lemma_choice_part_fresh(defs, s, sub.one_of, fuel);
            lemma_choice_part_fresh(defs, s, sub.any_of, fuel);
        },
        None => {},
    }
    lemma_merged_fresh(r5, p6);
    lemma_merged_fresh(r6, p7);
    lemma_reference_part_fresh(defs, s, fuel);
    lemma_merged_fresh(r7, p8);
    match r8 {
        Ok(c) => {
            lemma_with_metadata_fresh(c, s.metadata);
        },
        Err(_) => {},
    }
}

/// The node that a JSON type asks for is fresh.
pub proof fn lemma_instance_node_fresh(t: crate::schema::InstanceType, format: Option<String>)
    ensures
        fresh(plain(instance_node(t, format))),
{
    assert(well_formed(plain(NodeV::Any)));
    let c = plain(instance_node(t, format));
    match c.node {
        NodeV::Object(o) => {
            assert(o.nodes.len() == 0);
        },
        _ => {},
    }
}

/// What the `type` of a schema gives is fresh.
pub proof fn lemma_type_part_fresh(s: SchemaObject)
    ensures
        type_part(s) matches Some(c) ==> fresh(c),
{
    match s.instance_type {
        Some(crate::schema::InstanceTypes::Single(t)) => {
            lemma_instance_node_fresh(t, s.format);
            lemma_with_metadata_fresh(plain(instance_node(t, s.format)), s.metadata);
        },
        Some(crate::schema::InstanceTypes::Vec(ts)) => {
            let nodes = Seq::new(ts@.len(), |i: int| plain(instance_node(ts@[i], s.format)));
            let c = plain(NodeV::Enum(EnumV { value: None, nodes }));
            assert forall|x: int| 0 <= x < nodes.len() implies well_formed(#[trigger] nodes[x]) by {
                lemma_instance_node_fresh(ts@[x], s.format);
            }
            lemma_with_metadata_fresh(c, s.metadata);
        },
        None => {},
    }
}

/// What the `enum` of a schema gives is fresh.
pub proof fn lemma_enum_part_fresh(s: SchemaObject)
    ensures
        enum_part(s) matches Some(c) ==> fresh(c),
{
    match s.enum_values {
        Some(vs) => {
            if vs@.len() == 1 {
                lemma_with_metadata_fresh(plain(NodeV::Value(vs@[0]@)), s.metadata);
            } else {
                let nodes = Seq::new(
                    vs@.len(),
                    |i: int| with_metadata(plain(NodeV::Value(vs@[i]@)), s.metadata),
                );
                assert forall|x: int| 0 <= x < nodes.len() implies well_formed(
                    #[trigger] nodes[x],
                ) by {
                    lemma_with_metadata_fresh(plain(NodeV::Value(vs@[x]@)), s.metadata);
                }
                lemma_with_metadata_fresh(
                    plain(NodeV::Enum(EnumV { value: None, nodes })),
                    s.metadata,
                );
            }
        },
        None => {},
    }
}

/// The node that a schema describes is fresh.
pub proof fn lemma_compile_schema_fresh(defs: Seq<(String, Schema)>, s: Schema, fuel: nat)
    ensures
        compile_schema(defs, s, fuel) matches Ok(c) ==> fresh(c),
    decreases fuel, s, 2nat,
{
    match s {
        Schema::Bool(_) => {},
        Schema::Object(o) => {
            lemma_compile_fresh(defs, o, fuel);
        },
    }
}

/// The nodes that the schemas of a list describe are fresh.
pub proof fn lemma_compile_list_fresh(
    defs: Seq<(String, Schema)>,
    list: Seq<Schema>,
    fuel: nat,
    i: int,
    acc: Seq<ContainerV>,
)
    requires
        0 <= i,
        forall|x: int| 0 <= x < acc.len() ==> fresh(#[trigger] acc[x]),
    ensures
        compile_list(defs, list, fuel, i, acc) matches Ok(cs) ==> forall|x: int|
            0 <= x < cs.len() ==> fresh(#[trigger] cs[x]),
    decreases fuel, list, list.len() - i,
{
    if i < list.len() {
        lemma_compile_schema_fresh(defs, list[i], fuel);
        match compile_schema(defs, list[i], fuel) {
            Ok(c) => {
                let acc2 = acc.push(c);
                assert forall|x: int| 0 <= x < acc2.len() implies fresh(#[trigger] acc2[x]) by {
                    if x < acc.len() {
                        assert(acc2[x] == acc[x]);
                    }
                }
                lemma_compile_list_fresh(defs, list, fuel, i + 1, acc2);
            },
            Err(_) => {},
        }
    }
}

/// The children that the properties of an object describe are fresh, each
/// under a key of its own.
pub proof fn lemma_compile_properties_fresh(
    defs: Seq<(String, Schema)>,
    props: Seq<(String, Schema)>,
    fuel: nat,
    i: int,
    acc: Seq<(Seq<char>, ContainerV)>,
)
    requires
        0 <= i,
        keys_unique(acc),
        forall|x: int| 0 <= x < acc.len() ==> fresh((#[trigger] acc[x]).1),
    ensures
        compile_properties(defs, props, fuel, i, acc) matches Ok(r) ==> keys_unique(r) && forall|
            x: int,
        | 0 <= x < r.len() ==> fresh((#[trigger] r[x]).1),
    decreases fuel, props, props.len() - i,
{
    if i < props.len() {
        lemma_compile_schema_fresh(defs, props[i].1, fuel);
        match compile_schema(defs, props[i].1, fuel) {
            Ok(c) => {
                lemma_entries_put_unique(acc, props[i].0@, c);
                lemma_entries_put_all(acc, props[i].0@, c, |x: ContainerV| fresh(x));
                lemma_compile_properties_fresh(
                    defs,
                    props,
                    fuel,
                    i + 1,
                    entries_put(acc, props[i].0@, c),
                );
            },
            Err(_) => {},
        }
    }
}

/// What the object part of a schema gives is fresh.
pub proof fn lemma_object_part_fresh(defs: Seq<(String, Schema)>, s: SchemaObject, fuel: nat)
    ensures
        object_part(defs, s, fuel) matches Ok(Some(c)) ==> fresh(c),
    decreases fuel, s, 0nat,
{
    match s.object {
        Some(ov) => {
            lemma_compile_properties_fresh(defs, ov.properties@, fuel, 0, Seq::empty());
            match ov.additional_properties {
                Some(ap) => {
                    lemma_compile_schema_fresh(defs, *ap, fuel);
                },
                None => {},
            }
        },
        None => {},
    }
}

/// What the array part of a schema gives is fresh.
pub proof fn lemma_array_part_fresh(defs: Seq<(String, Schema)>, s: SchemaObject, fuel: nat)
    ensures
        array_part(defs, s, fuel) matches Ok(Some(c)) ==> fresh(c),
    decreases fuel, s, 0nat,
{
    match s.array {
        Some(av) => {
            match av.items {
                Some(Items::Single(sch)) => {
                    lemma_compile_schema_fresh(defs, *sch, fuel);
                },
                Some(Items::Vec(list)) => {
                    lemma_compile_list_fresh(defs, list@, fuel, 0, Seq::empty());
                },
                None => {
                    assert(well_formed(plain(NodeV::Any)));
                },
            }
            match array_part(defs, s, fuel) {
                Ok(Some(c)) => {
                    let a = c.node->Array_0;
                    let bare = plain(NodeV::Array(a));
                    match a.template {
                        TemplateV::All(t) => {
                            assert(well_formed(*t));
                        },
                        TemplateV::FirstN(shapes) => {
                            assert forall|x: int| 0 <= x < shapes.len() implies well_formed(
                                #[trigger] shapes[x],
                            ) by {
                                assert(fresh(shapes[x]));
                            }
                        },
                    }
                    assert(fresh(bare));
                    lemma_with_metadata_fresh(bare, s.metadata);
                },
                _ => {},
            }
        },
        None => {},
    }
}

/// What an `allOf` gives is fresh.
pub proof fn lemma_all_of_part_fresh(defs: Seq<(String, Schema)>, s: SchemaObject, fuel: nat)
    ensures
        all_of_part(defs, s, fuel) matches Ok(Some(c)) ==> fresh(c),
    decreases fuel, s, 0nat,
{
    match s.subschemas {
        Some(sub) => match sub.all_of {
            Some(list) => {
                lemma_compile_list_fresh(defs, list@, fuel, 0, Seq::empty());
                match compile_list(defs, list@, fuel, 0, Seq::empty()) {
                    Ok(cs) => {
                        if cs.len() == 1 {
                            lemma_with_metadata_fresh(cs[0], s.metadata);
                        }
                    },
                    Err(_) => {},
                }
            },
            None => {},
        },
        None => {},
    }
}

/// What a `oneOf` or an `anyOf` gives is fresh.
pub proof fn lemma_choice_part_fresh(
    defs: Seq<(String, Schema)>,
    s: SchemaObject,
    list: Option<Vec<Schema>>,
    fuel: nat,
)
    ensures
        choice_part(defs, s, list, fuel) matches Ok(Some(c)) ==> fresh(c),
    decreases fuel, list, 0nat,
{
    match list {
        Some(l) => {
            lemma_compile_list_fresh(defs, l@, fuel, 0, Seq::empty());
            match compile_list(defs, l@, fuel, 0, Seq::empty()) {
                Ok(cs) => {
                    let c = plain(NodeV::Enum(EnumV { value: None, nodes: cs }));
                    assert(fresh(c));
                    lemma_with_metadata_fresh(c, s.metadata);
                },
                Err(_) => {},
            }
        },
        None => {},
    }
}

/// What a reference gives is fresh.
pub proof fn lemma_reference_part_fresh(defs: Seq<(String, Schema)>, s: SchemaObject, fuel: nat)
    ensures
        reference_part(defs, s, fuel) matches Ok(Some(c)) ==> fresh(c),
    decreases fuel, s, 0nat,
{
    match reference_part(defs, s, fuel) {
        Ok(Some(c)) => {
            let r = s.reference->0;
            let prefix = crate::node::from_json_schema::definitions_prefix();
            let name = r@.subrange(prefix.len() as int, r@.len() as int);
            let i = key_index(crate::node::from_json_schema::named(defs), name)->0;
            lemma_compile_schema_fresh(defs, defs[i].1, (fuel - 1) as nat);
        },
        _ => {},
    }
}

/// Binding a well-formed value to a well-formed tree gives a well-formed
/// tree.
pub proof fn lemma_bind_well_formed(c: ContainerV, removable: bool, v: ValueV, modified: bool)
    requires
        well_formed(c),
        value_well_formed(v),
        bind_as(c, removable, v, modified) is Ok,
    ensures
        well_formed(bind_as(c, removable, v, modified)->Ok_0),
    decreases c, 1nat,
{
    let c1 = bind_as(c, removable, v, modified)->Ok_0;
    match (v, c.node) {
        (ValueV::String(_), NodeV::Enum(e)) => {
            let pos = first_matching(e.nodes, v)->0;
            lemma_bind_well_formed(e.nodes[pos], e.nodes[pos].removable, v, modified);
            let nodes2 = c1.node->Enum_0.nodes;
            assert forall|x: int| 0 <= x < nodes2.len() implies well_formed(#[trigger] nodes2[x]) by {
                if x != pos {
                    assert(nodes2[x] == e.nodes[x]);
                }
            }
        },
        (ValueV::Dict(d), NodeV::Enum(e)) => {
            let pos = first_matching_key(e.nodes, d)->0;
            lemma_bind_well_formed(e.nodes[pos], e.nodes[pos].removable, v, modified);
            let nodes2 = c1.node->Enum_0.nodes;
            assert forall|x: int| 0 <= x < nodes2.len() implies well_formed(#[trigger] nodes2[x]) by {
                if x != pos {
                    assert(nodes2[x] == e.nodes[x]);
                }
            }
        },
        (ValueV::Empty(_), NodeV::Enum(e)) => {
            lemma_first_index(e.nodes, |x: ContainerV| matching(x, v));
            let pos = first_matching(e.nodes, v)->0;
            let nodes2 = c1.node->Enum_0.nodes;
            assert(well_formed(e.nodes[pos]));
            assert(well_formed(ContainerV { modified, ..e.nodes[pos] }));
            assert forall|x: int| 0 <= x < nodes2.len() implies well_formed(#[trigger] nodes2[x]) by {
                if x != pos {
                    assert(nodes2[x] == e.nodes[x]);
                }
            }
        },
        (ValueV::Dict(d), NodeV::Object(o)) => {
            lemma_bind_object_well_formed(o, d, modified);
        },
        (ValueV::Array(vs), NodeV::Array(a)) => {
            lemma_bind_items_well_formed(a, vs, modified, 0, Seq::empty());
        },
        _ => {},
    }
}

/// The children that stay when a dictionary is bound to an object are
/// well-formed and not removable.
pub proof fn lemma_bind_fixed_well_formed(
    o: ObjectV,
    d: Seq<(Seq<char>, ValueV)>,
    modified: bool,
    i: int,
    acc: Seq<(Seq<char>, ContainerV)>,
)
    requires
        0 <= i,
        well_formed(plain_object(o)),
        value_well_formed(ValueV::Dict(d)),
        forall|x: int| 0 <= x < acc.len() ==> fresh((#[trigger] acc[x]).1),
        bind_fixed(o, d, modified, i, acc) is Ok,
    ensures
        forall|x: int|
            0 <= x < bind_fixed(o, d, modified, i, acc)->Ok_0.len() ==> fresh(
                (#[trigger] bind_fixed(o, d, modified, i, acc)->Ok_0[x]).1,
            ),
    decreases o, o.nodes.len() - i,
{
    if i < o.nodes.len() {
        let k = o.nodes[i].0;
        let c = o.nodes[i].1;
        assert(well_formed(o.nodes[i].1));
        if c.removable {
            lemma_bind_fixed_well_formed(o, d, modified, i + 1, acc);
        } else {
            lemma_key_index(d, k);
            let whole = ValueV::Dict(d);
            let n = match key_value(d, k) {
                Some(x) => {
                    let at = key_index(d, k)->0;
                    assert(whole->Dict_0[at].1 == x);
                    lemma_bind_well_formed(o.nodes[i].1, c.removable, x, modified);
                    bind_as(o.nodes[i].1, c.removable, x, modified)->Ok_0
                },
                None => match c.default {
                    Some(dv) => {
                        lemma_bind_well_formed(o.nodes[i].1, c.removable, dv, false);
                        bind_as(o.nodes[i].1, c.removable, dv, false)->Ok_0
                    },
                    None => c,
                },
            };
            lemma_entries_put_all(acc, k, n, |x: ContainerV| fresh(x));
            lemma_bind_fixed_well_formed(o, d, modified, i + 1, entries_put(acc, k, n));
        }
    }
}

/// The children that an object makes from its template are well-formed.
pub proof fn lemma_bind_extra_well_formed(
    o: ObjectV,
    d: Seq<(Seq<char>, ValueV)>,
    modified: bool,
    i: int,
    acc: Seq<(Seq<char>, ContainerV)>,
)
    requires
        0 <= i,
        well_formed(plain_object(o)),
        value_well_formed(ValueV::Dict(d)),
        forall|x: int| 0 <= x < acc.len() ==> well_formed((#[trigger] acc[x]).1),
        bind_extra(o, d, modified, i, acc) is Ok,
    ensures
        forall|x: int|
            0 <= x < bind_extra(o, d, modified, i, acc)->Ok_0.len() ==> well_formed(
                (#[trigger] bind_extra(o, d, modified, i, acc)->Ok_0[x]).1,
            ),
    decreases o, d.len() - i,
{
    if i < d.len() {
        match o.template {
            Some(t) => {
                let whole = ValueV::Dict(d);
                assert(whole->Dict_0[i] == d[i]);
                if has_fixed_key(o.nodes, d[i].0) {
                    lemma_bind_extra_well_formed(o, d, modified, i + 1, acc);
                } else {
                    lemma_bind_well_formed(*t, true, d[i].1, modified);
                    let n = bind_as(*t, true, d[i].1, modified)->Ok_0;
                    lemma_entries_put_all(acc, d[i].0, n, |x: ContainerV| well_formed(x));
                    lemma_bind_extra_well_formed(
                        o,
                        d,
                        modified,
                        i + 1,
                        entries_put(acc, d[i].0, n),
                    );
                }
            },
            None => {},
        }
    }
}

/// An object that a dictionary was bound to is well-formed.
pub proof fn lemma_bind_object_well_formed(
    o: ObjectV,
    d: Seq<(Seq<char>, ValueV)>,
    modified: bool,
)
    requires
        well_formed(plain_object(o)),
        value_well_formed(ValueV::Dict(d)),
        bind_object(o, d, modified) is Ok,
    ensures
        bind_object(o, d, modified)->Ok_0 is Object,
        well_formed(plain_object(bind_object(o, d, modified)->Ok_0->Object_0)),
    decreases o, o.nodes.len() + d.len() + 4,
{
    lemma_bound_children(o, d, modified);
    let empty = Seq::<(Seq<char>, ContainerV)>::empty();
    lemma_bind_fixed_well_formed(o, d, modified, 0, empty);
    let f = bind_fixed(o, d, modified, 0, empty)->Ok_0;
    let r = bind_object(o, d, modified)->Ok_0->Object_0.nodes;
    match o.template {
        Some(t) => {
            assert forall|x: int| 0 <= x < f.len() implies well_formed((#[trigger] f[x]).1) by {
                assert(fresh(f[x].1));
            }
            lemma_bind_extra_well_formed(o, d, modified, 0, f);
        },
        None => {
            assert forall|x: int| 0 <= x < r.len() implies well_formed((#[trigger] r[x]).1) && !r[x].1.removable by {
                assert(fresh(f[x].1));
            }
        },
    }
}

/// The items that an array makes for a list are well-formed.
pub proof fn lemma_bind_items_well_formed(
    a: ArrayV,
    vs: Seq<ValueV>,
    modified: bool,
    i: int,
    acc: Seq<ContainerV>,
)
    requires
        0 <= i,
        well_formed(plain(NodeV::Array(a))),
        value_well_formed(ValueV::Array(vs)),
        forall|x: int| 0 <= x < acc.len() ==> well_formed(#[trigger] acc[x]),
        bind_items(a, vs, modified, i, acc) is Ok,
    ensures
        forall|x: int|
            0 <= x < bind_items(a, vs, modified, i, acc)->Ok_0.len() ==> well_formed(
                #[trigger] bind_items(a, vs, modified, i, acc)->Ok_0[x],
            ),
    decreases a, vs.len() - i,
{
    if i < vs.len() {
        let whole = ValueV::Array(vs);
        assert(whole->Array_0[i] == vs[i]);
        let n = match a.template {
            TemplateV::All(t) => {
                lemma_bind_well_formed(*t, true, vs[i], modified);
                bind_as(*t, true, vs[i], modified)->Ok_0
            },
            TemplateV::FirstN(shapes) => {
                assert(well_formed(shapes[i]));
                lemma_bind_well_formed(shapes[i], shapes[i].removable, vs[i], modified);
                bind_as(shapes[i], shapes[i].removable, vs[i], modified)->Ok_0
            },
        };
        let acc2 = acc.push(n);
        assert forall|x: int| 0 <= x < acc2.len() implies well_formed(#[trigger] acc2[x]) by {
            if x < acc.len() {
                assert(acc2[x] == acc[x]);
            }
        }
        lemma_bind_items_well_formed(a, vs, modified, i + 1, acc2);
    }
}

/// Whether a container is well-formed does not depend on its marks.
pub proof fn lemma_well_formed_ignores_marks(c: ContainerV, modified: bool, removable: bool)
    ensures
        well_formed(ContainerV { modified, removable, ..c }) == well_formed(c),
{
}

/// A well-formed tree without its values is well-formed.
pub proof fn lemma_cleared_well_formed(c: ContainerV)
    requires
        well_formed(c),
    ensures
        well_formed(cleared(c)),
        cleared(c).removable == c.removable,
        cleared(c).default == c.default,
    decreases c,
{
    match c.node {
        NodeV::Object(o) => {
            let nodes2 = cleared(c).node->Object_0.nodes;
            assert forall|i: int| 0 <= i < nodes2.len() implies well_formed(
                (#[trigger] nodes2[i]).1,
            ) && (nodes2[i].1.removable ==> o.template is Some) by {
                lemma_cleared_well_formed(o.nodes[i].1);
            }
            assert(keys_unique(nodes2)) by {
                assert forall|a: int, b: int|
                    0 <= a < nodes2.len() && 0 <= b < nodes2.len() && a != b implies (
                #[trigger] nodes2[a]).0 != (#[trigger] nodes2[b]).0 by {
                    assert(nodes2[a].0 == o.nodes[a].0);
                    assert(nodes2[b].0 == o.nodes[b].0);
                }
            }
        },
        _ => {},
    }
}

/// A new child made from a well-formed template is well-formed.
pub proof fn lemma_new_child_well_formed(t: ContainerV)
    requires
        well_formed(t),
    ensures
        new_child(t) matches Ok(n) ==> well_formed(n) && n.removable == t.removable,
{
    match t.default {
        Some(d) => {
            if bind(t, d, false) is Ok {
                lemma_bind_well_formed(t, t.removable, d, false);
            }
        },
        None => {
            let empty = ValueV::Dict(Seq::empty());
            if bind(t, empty, false) is Ok {
                lemma_bind_well_formed(t, t.removable, empty, false);
            }
        },
    }
}

/// Taking an entry out of entries with distinct keys leaves the keys
/// distinct, and so does marking every entry modified.
pub proof fn lemma_removed_entries_unique(m: Seq<(Seq<char>, ContainerV)>, k: Seq<char>)
    requires
        keys_unique(m),
    ensures
        keys_unique(entries_all_modified(entries_shift_removed(m, k))),
        keys_unique(entries_swap_removed(m, k)),
        keys_unique(entries_all_modified(m)),
{
    lemma_key_index(m, k);
    let r = entries_all_modified(entries_shift_removed(m, k));
    let sw = entries_swap_removed(m, k);
    let am = entries_all_modified(m);
    assert forall|a: int, b: int| 0 <= a < am.len() && 0 <= b < am.len() && a != b implies (
    #[trigger] am[a]).0 != (#[trigger] am[b]).0 by {
        assert(am[a].0 == m[a].0);
        assert(am[b].0 == m[b].0);
    }
    match key_index(m, k) {
        Some(x) => {
            let rm = m.remove(x);
            assert forall|a: int, b: int| 0 <= a < r.len() && 0 <= b < r.len() && a != b implies (
            #[trigger] r[a]).0 != (#[trigger] r[b]).0 by {
                let a0 = if a < x {
                    a
                } else {
                    a + 1
                };
                let b0 = if b < x {
                    b
                } else {
                    b + 1
                };
                assert(rm[a] == m[a0]);
                assert(rm[b] == m[b0]);
            }
            assert forall|a: int, b: int|
                0 <= a < sw.len() && 0 <= b < sw.len() && a != b implies (#[trigger] sw[a]).0 != (
            #[trigger] sw[b]).0 by {
                let last = m.len() - 1;
                let a0 = if a == x {
                    last
                } else {
                    a
                };
                let b0 = if b == x {
                    last
                } else {
                    b
                };
                assert(sw[a] == m[a0]);
                assert(sw[b] == m[b0]);
            }
        },
        None => {
            assert forall|a: int, b: int| 0 <= a < r.len() && 0 <= b < r.len() && a != b implies (
            #[trigger] r[a]).0 != (#[trigger] r[b]).0 by {
                assert(r[a].0 == m[a].0);
                assert(r[b].0 == m[b].0);
            }
        },
    }
}

/// What holds of the container of every entry holds of that of every
/// entry that is left when one is taken out.
pub proof fn lemma_removed_entries_all(
    m: Seq<(Seq<char>, ContainerV)>,
    k: Seq<char>,
    p: spec_fn(ContainerV) -> bool,
)
    requires
        forall|i: int| 0 <= i < m.len() ==> p((#[trigger] m[i]).1),
    ensures
        forall|i: int|
            0 <= i < entries_shift_removed(m, k).len() ==> p(
                (#[trigger] entries_shift_removed(m, k)[i]).1,
            ),
        forall|i: int|
            0 <= i < entries_swap_removed(m, k).len() ==> p(
                (#[trigger] entries_swap_removed(m, k)[i]).1,
            ),
{
    lemma_key_index(m, k);
    let r = entries_shift_removed(m, k);
    let sw = entries_swap_removed(m, k);
    match key_index(m, k) {
        Some(x) => {
            assert forall|i: int| 0 <= i < r.len() implies p((#[trigger] r[i]).1) by {
                if i < x {
                    assert(r[i] == m[i]);
                } else {
                    assert(r[i] == m[i + 1]);
                }
            }
            assert forall|i: int| 0 <= i < sw.len() implies p((#[trigger] sw[i]).1) by {
                if i == x {
                    assert(sw[i] == m[m.len() - 1]);
                } else {
                    assert(sw[i] == m[i]);
                }
            }
        },
        None => {},
    }
}

/// A well-formed node is well-formed after an edit.
pub proof fn lemma_changed_well_formed(c: ContainerV, ch: ChangeV)
    requires
        well_formed(c),
    ensures
        changed(c, ch) matches Ok(Some(n)) ==> well_formed(n) && n.removable == c.removable,
{
    match changed(c, ch) {
        Ok(Some(n)) => {
            match ch {
                ChangeV::ApplyDefault => {
                    lemma_cleared_well_formed(c);
                    lemma_bind_well_formed(cleared(c), cleared(c).removable, c.default->0, false);
                },
                ChangeV::ChangeEnum(p) => {
                    let e = c.node->Enum_0;
                    let nodes2 = n.node->Enum_0.nodes;
                    assert(well_formed(e.nodes[p as int]));
                    assert forall|x: int| 0 <= x < nodes2.len() implies well_formed(
                        #[trigger] nodes2[x],
                    ) by {
                        if x != p {
                            assert(nodes2[x] == e.nodes[x]);
                        }
                    }
                },
                ChangeV::Remove(step) => {
                    match c.node {
                        NodeV::Object(o) => {
                            let k = step->Name_0;
                            let kept = |x: ContainerV|
                                well_formed(x) && (x.removable ==> o.template is Some);
                            lemma_removed_entries_unique(o.nodes, k);
                            lemma_removed_entries_all(o.nodes, k, kept);
                            let rm = entries_shift_removed(o.nodes, k);
                            let nodes2 = n.node->Object_0.nodes;
                            assert forall|i: int| 0 <= i < nodes2.len() implies well_formed(
                                (#[trigger] nodes2[i]).1,
                            ) && (nodes2[i].1.removable ==> o.template is Some) by {
                                assert(kept(rm[i].1));
                            }
                        },
                        NodeV::Array(a) => {
                            let vs = a.values->0;
                            let i = step->Indice_0;
                            let items = n.node->Array_0.values->0;
                            assert forall|x: int| 0 <= x < items.len() implies well_formed(
                                #[trigger] items[x],
                            ) by {
                                let from = if x < i {
                                    x
                                } else {
                                    x + 1
                                };
                                assert(vs.remove(i as int)[x] == vs[from]);
                                assert(well_formed(vs[from]));
                                lemma_well_formed_ignores_marks(
                                    vs[from],
                                    true,
                                    vs[from].removable,
                                );
                                assert(items[x] == all_modified(vs.remove(i as int))[x]);
                            }
                        },
                        _ => {},
                    }
                },
                ChangeV::AddNewNodeToObject(name) => {
                    let o = c.node->Object_0;
                    let t = *(o.template->0);
                    lemma_well_formed_ignores_marks(t, t.modified, true);
                    lemma_new_child_well_formed(as_removable(t));
                    let made = new_child(as_removable(t))->Ok_0;
                    let kept = |x: ContainerV|
                        well_formed(x) && (x.removable ==> o.template is Some);
                    lemma_entries_put_unique(o.nodes, name, made);
                    lemma_entries_put_all(o.nodes, name, made, kept);
                    let put = entries_put(o.nodes, name, made);
                    lemma_removed_entries_unique(put, name);
                    let nodes2 = n.node->Object_0.nodes;
                    assert forall|i: int| 0 <= i < nodes2.len() implies well_formed(
                        (#[trigger] nodes2[i]).1,
                    ) && (nodes2[i].1.removable ==> o.template is Some) by {
                        assert(kept(put[i].1));
                    }
                },
                ChangeV::AddNewNodeToArray => {
                    let a = c.node->Array_0;
                    let t = array_template(a, None)->0;
                    match a.template {
                        TemplateV::All(b) => {
                            lemma_well_formed_ignores_marks(*b, b.modified, true);
                        },
                        TemplateV::FirstN(shapes) => {
                            let at = match a.values {
                                Some(vs) => vs.len() as int,
                                None => 0,
                            };
                            assert(well_formed(shapes[at]));
                        },
                    }
                    lemma_new_child_well_formed(t);
                    let made = new_child(t)->Ok_0;
                    let items = n.node->Array_0.values->0;
                    assert(items == items_with_new(a.values, made));
                    assert(well_formed(made));
                    assert forall|x: int| 0 <= x < items.len() implies well_formed(
                        #[trigger] items[x],
                    ) by {
                        lemma_well_formed_ignores_marks(made, true, made.removable);
                        assert(well_formed(ContainerV { modified: true, ..made }));
                        match a.values {
                            Some(vs) => {
                                if x < vs.len() {
                                    assert(well_formed(vs[x]));
                                    lemma_well_formed_ignores_marks(vs[x], true, vs[x].removable);
                                    assert(items[x] == all_modified(vs)[x]);
                                } else {
                                    assert(items[x] == ContainerV { modified: true, ..made });
                                }
                            },
                            None => {
                                assert(items[x] == ContainerV { modified: true, ..made });
                            },
                        }
                    }
                },
                ChangeV::RenameKey { prev, new } => {
                    let o = c.node->Object_0;
                    lemma_key_index(o.nodes, prev);
                    let i = key_index(o.nodes, prev)->0;
                    let kept = |x: ContainerV|
                        well_formed(x) && (x.removable ==> o.template is Some);
                    assert(kept(o.nodes[i].1));
                    lemma_entries_put_unique(o.nodes, new, o.nodes[i].1);
                    lemma_entries_put_all(o.nodes, new, o.nodes[i].1, kept);
                    let put = entries_put(o.nodes, new, o.nodes[i].1);
                    lemma_removed_entries_unique(put, prev);
                    lemma_removed_entries_all(put, prev, kept);
                    let nodes2 = n.node->Object_0.nodes;
                    assert forall|x: int| 0 <= x < nodes2.len() implies well_formed(
                        (#[trigger] nodes2[x]).1,
                    ) && (nodes2[x].1.removable ==> o.template is Some) by {
                        assert(kept(nodes2[x].1));
                    }
                },
                _ => {},
            }
        },
        _ => {},
    }
}

/// The children of a well-formed node are well-formed.
pub proof fn lemma_path_child_well_formed(c: ContainerV, step: StepV)
    requires
        well_formed(c),
    ensures
        path_child(c, step) matches Some(child) ==> well_formed(child),
{
    match (c.node, step) {
        (NodeV::Object(o), StepV::Name(k)) => {
            lemma_key_index(o.nodes, k);
            match key_index(o.nodes, k) {
                Some(i) => {
                    assert(well_formed(o.nodes[i].1));
                },
                None => {},
            }
        },
        (NodeV::Enum(e), StepV::Indice(p)) => {
            if p < e.nodes.len() {
                assert(well_formed(e.nodes[p as int]));
            }
        },
        (NodeV::Array(a), StepV::Indice(p)) => {
            match a.values {
                Some(vs) => {
                    if p < vs.len() {
                        assert(well_formed(vs[p as int]));
                    }
                },
                None => {},
            }
        },
        _ => {},
    }
}

/// A well-formed node is well-formed with another well-formed child in
/// place of one that is as removable as it.
pub proof fn lemma_with_child_well_formed(c: ContainerV, step: StepV, n: ContainerV)
    requires
        well_formed(c),
        well_formed(n),
        path_child(c, step) matches Some(child) && child.removable == n.removable,
    ensures
        well_formed(with_child(c, step, n)),
{
    let r = with_child(c, step, n);
    match (c.node, step) {
        (NodeV::Object(o), StepV::Name(k)) => {
            lemma_key_index(o.nodes, k);
            let i = key_index(o.nodes, k)->0;
            let nodes2 = r.node->Object_0.nodes;
            assert forall|x: int| 0 <= x < nodes2.len() implies well_formed(
                (#[trigger] nodes2[x]).1,
            ) && (nodes2[x].1.removable ==> o.template is Some) by {
                if x != i {
                    assert(nodes2[x] == o.nodes[x]);
                } else {
                    assert(o.nodes[i].1.removable ==> o.template is Some);
                }
            }
            assert(keys_unique(nodes2)) by {
                assert forall|a: int, b: int|
                    0 <= a < nodes2.len() && 0 <= b < nodes2.len() && a != b implies (
                #[trigger] nodes2[a]).0 != (#[trigger] nodes2[b]).0 by {
                    assert(nodes2[a].0 == o.nodes[a].0);
                    assert(nodes2[b].0 == o.nodes[b].0);
                }
            }
        },
        (NodeV::Enum(e), StepV::Indice(p)) => {
            let nodes2 = r.node->Enum_0.nodes;
            assert forall|x: int| 0 <= x < nodes2.len() implies well_formed(#[trigger] nodes2[x]) by {
                if x != p {
                    assert(nodes2[x] == e.nodes[x]);
                }
            }
        },
        (NodeV::Array(a), StepV::Indice(p)) => {
            let vs = a.values->0;
            let items = r.node->Array_0.values->0;
            assert forall|x: int| 0 <= x < items.len() implies well_formed(#[trigger] items[x]) by {
                if x != p {
                    assert(items[x] == vs[x]);
                }
            }
        },
        _ => {},
    }
}

/// A well-formed tree with a well-formed node in place of one that is as
/// removable as it is well-formed.
pub proof fn lemma_replaced_at_well_formed(t: ContainerV, p: Seq<StepV>, i: int, n: ContainerV)
    requires
        0 <= i,
        well_formed(t),
        well_formed(n),
        node_at(t, p, i) matches Some(c) && c.removable == n.removable,
    ensures
        replaced_at(t, p, i, n) matches Some(r) && well_formed(r) && r.removable == t.removable,
    decreases p.len() - i,
{
    if i < p.len() {
        let child = path_child(t, p[i])->0;
        lemma_path_child_well_formed(t, p[i]);
        lemma_replaced_at_well_formed(child, p, i + 1, n);
        let r = replaced_at(child, p, i + 1, n)->0;
        lemma_with_child_well_formed(t, p[i], r);
    }
}

/// A well-formed tree is well-formed with the nodes along a path marked
/// modified.
pub proof fn lemma_marked_well_formed(t: ContainerV, p: Seq<StepV>, i: int)
    requires
        0 <= i,
        well_formed(t),
    ensures
        well_formed(marked(t, p, i)),
        marked(t, p, i).removable == t.removable,
    decreases p.len() - i,
{
    let here = ContainerV { modified: true, ..t };
    lemma_well_formed_ignores_marks(t, true, t.removable);
    if i < p.len() {
        match path_child(t, p[i]) {
            Some(child) => {
                lemma_path_child_well_formed(t, p[i]);
                lemma_marked_well_formed(child, p, i + 1);
                assert(path_child(here, p[i]) == path_child(t, p[i]));
                lemma_with_child_well_formed(here, p[i], marked(child, p, i + 1));
            },
            None => {},
        }
    }
}

/// A well-formed tree is well-formed after an edit.
pub proof fn lemma_edited_well_formed(t: ContainerV, p: Seq<StepV>, ch: ChangeV)
    requires
        well_formed(t),
    ensures
        edited(t, p, ch) matches Ok(Some(r)) ==> well_formed(r),
{
    match edited(t, p, ch) {
        Ok(Some(r)) => {
            let c = node_at(t, p, 0)->0;
            lemma_node_at_well_formed(t, p, 0);
            lemma_changed_well_formed(c, ch);
            let n = changed(c, ch)->Ok_0->0;
            lemma_replaced_at_well_formed(t, p, 0, n);
            let replaced = replaced_at(t, p, 0, n)->0;
            if ch is ApplyDefault {
                if p.len() > 0 {
                    lemma_marked_well_formed(replaced, p.take(p.len() - 1), 0);
                }
            } else {
                lemma_marked_well_formed(replaced, p, 0);
            }
        },
        _ => {},
    }
}

/// The node that a path leads to in a well-formed tree is well-formed.
pub proof fn lemma_node_at_well_formed(t: ContainerV, p: Seq<StepV>, i: int)
    requires
        0 <= i,
        well_formed(t),
    ensures
        node_at(t, p, i) matches Some(c) ==> well_formed(c),
    decreases p.len() - i,
{
    if i < p.len() {
        match path_child(t, p[i]) {
            Some(child) => {
                lemma_path_child_well_formed(t, p[i]);
                lemma_node_at_well_formed(child, p, i + 1);
            },
            None => {},
        }
    }
}

} // verus!
