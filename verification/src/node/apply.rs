//! Binding configuration values onto the tree.
use vstd::prelude::*;
use crate::json::{json_eq_value, json_value_eq_figment_value};
use crate::laws::well_formed::{lemma_bind_well_formed, lemma_cleared_well_formed};
use crate::value::value_well_formed;
use crate::node::{
    clone_nodes,
    containers_model,
    entries_put,
    well_formed,
    ArrayV,
    ContainerV,
    EnumV,
    Node,
    NodeArray,
    NodeArrayTemplate,
    NodeBool,
    NodeContainer,
    NodeEnum,
    NodeNumber,
    NodeObject,
    NodeString,
    NodeV,
    NumberV,
    ObjectV,
    TemplateV,
};
use crate::number::{convert_number, converted_number};
use crate::seqs::{first_index, lemma_first_index_is, lemma_first_index_none};
use crate::text::copy_opt_text;
use crate::value::{key_index, key_value, values_model, Dict, Value, ValueV};

verus! {

/// Why a value could not be bound.
#[derive(Clone, Copy, Debug, PartialEq, Eq, Structural)]
pub enum ApplyError {
    /// None of an enum's variants takes the value.
    NoCompatibleVariant,
    /// The node's shape does not take a value of this kind.
    NoCompatibleNode,
}

/// True where a node's shape takes a value, as far as choosing an enum's
/// variant goes: a string matches a string node, and an object that has
/// it as a key; a boolean and a number match the node of their kind; an
/// empty value matches a null; a dictionary matches an object where it
/// has a matching value under every key of the object; a constant matches
/// the values equal to it.
pub open spec fn matching(c: ContainerV, v: ValueV) -> bool
    decreases c,
{
    match (v, c.node) {
        (ValueV::String(_), NodeV::String(_)) => true,
        (ValueV::String(s), NodeV::Object(o)) => key_index(o.nodes, s) is Some,
        (ValueV::Bool(_), NodeV::Bool(_)) => true,
        (ValueV::Num(_), NodeV::Number(_)) => true,
        (ValueV::Empty(_), NodeV::Null) => true,
        (ValueV::Dict(d), NodeV::Object(o)) => forall|i: int|
            0 <= i < o.nodes.len() ==> match key_value(d, (#[trigger] o.nodes[i]).0) {
                Some(dv) => matching(o.nodes[i].1, dv),
                None => false,
            },
        (_, NodeV::Value(j)) => json_eq_value(j, v),
        _ => false,
    }
}

/// The first variant that takes the value.
pub open spec fn first_matching(nodes: Seq<ContainerV>, v: ValueV) -> Option<int> {
    first_index(nodes, |c: ContainerV| matching(c, v))
}

/// The variant that a dictionary chooses: the first variant that takes,
/// as a string, the first key of the dictionary that any variant takes.
pub open spec fn first_matching_key(nodes: Seq<ContainerV>, d: Seq<(Seq<char>, ValueV)>) -> Option<
    int,
> {
    match first_index(
        d,
        |e: (Seq<char>, ValueV)| first_matching(nodes, ValueV::String(e.0)) is Some,
    ) {
        Some(i) => first_matching(nodes, ValueV::String(d[i].0)),
        None => None,
    }
}

/// True where the object has a child under the key that is not removable.
pub open spec fn has_fixed_key(nodes: Seq<(Seq<char>, ContainerV)>, k: Seq<char>) -> bool {
    match key_index(nodes, k) {
        Some(i) => !nodes[i].1.removable,
        None => false,
    }
}

/// The container `c` with the value `v` bound to it, marked `modified`
/// and `removable` as given.
pub open spec fn bind_as(c: ContainerV, removable: bool, v: ValueV, modified: bool) -> Result<
    ContainerV,
    ApplyError,
>
    decreases c, 1nat,
{
    match bind_node(c.node, v, modified) {
        Ok(n) => Ok(ContainerV { node: n, modified, removable, ..c }),
        Err(x) => Err(x),
    }
}

/// The variants of an enum with the value bound to the one at `pos`, and
/// that variant chosen.
pub open spec fn bind_variant(e: EnumV, pos: int, v: ValueV, modified: bool) -> Result<
    NodeV,
    ApplyError,
>
    decreases e, 0nat,
{
    if 0 <= pos < e.nodes.len() {
        match bind_as(e.nodes[pos], e.nodes[pos].removable, v, modified) {
            Ok(b) => Ok(
                NodeV::Enum(EnumV { value: Some(pos), nodes: e.nodes.update(pos, b) }),
            ),
            Err(x) => Err(x),
        }
    } else {
        Err(ApplyError::NoCompatibleVariant)
    }
}

/// The payload `n` with the value `v` bound to it. Children keep their
/// own `removable`; the children that an object or an array makes from a
/// template are removable.
///
/// - A string, a boolean and a number set the node of their kind; a number
///   is converted to the node's kind, and its text is kept beside it.
/// - An enum chooses the first variant that takes the value; a string or a
///   dictionary is then bound to that variant, an empty value marks it
///   `modified` as given.
/// - A string leaves a constant as it is.
/// - A dictionary on an object: see `bind_fixed` and `bind_extra`.
/// - A list on an array binds each item to a new container made from the
///   array's template for its position.
/// - Everything else is an error.
pub open spec fn bind_node(n: NodeV, v: ValueV, modified: bool) -> Result<NodeV, ApplyError>
    decreases n, 2nat,
{
    match (v, n) {
        (ValueV::String(s), NodeV::String(_)) => Ok(NodeV::String(Some(s))),
        (ValueV::String(_), NodeV::Enum(e)) => match first_matching(e.nodes, v) {
            Some(pos) => bind_variant(e, pos, v, modified),
            None => Err(ApplyError::NoCompatibleVariant),
        },
        (ValueV::String(_), NodeV::Value(_)) => Ok(n),
        (ValueV::Bool(b), NodeV::Bool(_)) => Ok(NodeV::Bool(Some(b))),
        (ValueV::Num(x), NodeV::Number(nn)) => match converted_number(nn.kind, x) {
            Some(y) => Ok(
                NodeV::Number(NumberV { kind: nn.kind, value: Some(y), value_string: y.text() }),
            ),
            None => Err(ApplyError::NoCompatibleNode),
        },
        (ValueV::Empty(_), NodeV::Enum(e)) => match first_matching(e.nodes, v) {
            Some(pos) => Ok(
                NodeV::Enum(
                    EnumV {
                        value: Some(pos),
                        nodes: e.nodes.update(pos, ContainerV { modified, ..e.nodes[pos] }),
                    },
                ),
            ),
            None => Err(ApplyError::NoCompatibleVariant),
        },
        (ValueV::Dict(d), NodeV::Object(o)) => bind_object(o, d, modified),
        (ValueV::Dict(d), NodeV::Enum(e)) => match first_matching_key(e.nodes, d) {
            Some(pos) => bind_variant(e, pos, v, modified),
            None => Err(ApplyError::NoCompatibleVariant),
        },
        (ValueV::Array(vs), NodeV::Array(a)) => match bind_items(a, vs, modified, 0, Seq::empty()) {
            Ok(items) => Ok(NodeV::Array(ArrayV { values: Some(items), ..a })),
            Err(x) => Err(x),
        },
        _ => Err(ApplyError::NoCompatibleNode),
    }
}

/// An object with a dictionary bound to it: the children that stay, then,
/// where the object has a template, a child for each further key.
pub open spec fn bind_object(o: ObjectV, d: Seq<(Seq<char>, ValueV)>, modified: bool) -> Result<
    NodeV,
    ApplyError,
>
    decreases o, o.nodes.len() + d.len() + 1,
{
    match bind_fixed(o, d, modified, 0, Seq::empty()) {
        Ok(fixed) => match o.template {
            Some(t) => match bind_extra(o, d, modified, 0, fixed) {
                Ok(all) => Ok(NodeV::Object(ObjectV { nodes: all, template: o.template })),
                Err(x) => Err(x),
            },
            None => Ok(NodeV::Object(ObjectV { nodes: fixed, template: o.template })),
        },
        Err(x) => Err(x),
    }
}

/// The children of an object that stay when a dictionary is bound to it,
/// from position `i` on, added to `acc`: the children that are not
/// removable, in their order. A child whose key the dictionary has gets
/// that value; any other child gets its default, not marked modified, or
/// stays as it is where it has none.
pub open spec fn bind_fixed(
    o: ObjectV,
    d: Seq<(Seq<char>, ValueV)>,
    modified: bool,
    i: int,
    acc: Seq<(Seq<char>, ContainerV)>,
) -> Result<Seq<(Seq<char>, ContainerV)>, ApplyError>
    decreases o, o.nodes.len() - i,
{
    if 0 <= i < o.nodes.len() {
        let k = o.nodes[i].0;
        let c = o.nodes[i].1;
        if c.removable {
            bind_fixed(o, d, modified, i + 1, acc)
        } else {
            let b = match key_value(d, k) {
                Some(v) => bind_as(o.nodes[i].1, c.removable, v, modified),
                None => match c.default {
                    Some(dv) => bind_as(o.nodes[i].1, c.removable, dv, false),
                    None => Ok(c),
                },
            };
            match b {
                Ok(n) => bind_fixed(o, d, modified, i + 1, entries_put(acc, k, n)),
                Err(x) => Err(x),
            }
        }
    } else {
        Ok(acc)
    }
}

/// The children that an object with a template makes for the entries of
/// a dictionary from position `i` on, added to `acc`: one removable child
/// for every key that no fixed child has, made from the template and
/// bound to the entry's value.
pub open spec fn bind_extra(
    o: ObjectV,
    d: Seq<(Seq<char>, ValueV)>,
    modified: bool,
    i: int,
    acc: Seq<(Seq<char>, ContainerV)>,
) -> Result<Seq<(Seq<char>, ContainerV)>, ApplyError>
    decreases o, d.len() - i,
{
    if 0 <= i < d.len() {
        match o.template {
            Some(t) => if has_fixed_key(o.nodes, d[i].0) {
                bind_extra(o, d, modified, i + 1, acc)
            } else {
                match bind_as(*t, true, d[i].1, modified) {
                    Ok(n) => bind_extra(o, d, modified, i + 1, entries_put(acc, d[i].0, n)),
                    Err(x) => Err(x),
                }
            },
            None => Ok(acc),
        }
    } else {
        Ok(acc)
    }
}

/// The items that an array makes for the values from position `i` on,
/// added to `acc`: each from the array's template for its position. A
/// position for which the array has no shape is an error.
pub open spec fn bind_items(
    a: ArrayV,
    vs: Seq<ValueV>,
    modified: bool,
    i: int,
    acc: Seq<ContainerV>,
) -> Result<Seq<ContainerV>, ApplyError>
    decreases a, vs.len() - i,
{
    if 0 <= i < vs.len() {
        let b = match a.template {
            TemplateV::All(t) => bind_as(*t, true, vs[i], modified),
            TemplateV::FirstN(shapes) => if i < shapes.len() {
                bind_as(shapes[i], shapes[i].removable, vs[i], modified)
            } else {
                Err(ApplyError::NoCompatibleNode)
            },
        };
        match b {
            Ok(n) => bind_items(a, vs, modified, i + 1, acc.push(n)),
            Err(x) => Err(x),
        }
    } else {
        Ok(acc)
    }
}

/// The container with the value bound to it.
pub open spec fn bind(c: ContainerV, v: ValueV, modified: bool) -> Result<ContainerV, ApplyError> {
    bind_as(c, c.removable, v, modified)
}

/// The container without the values that were bound to it: scalars have
/// none, an object's children are cleared in turn, an enum has chosen
/// nothing, an array has no items. Nothing is marked modified.
pub open spec fn cleared(c: ContainerV) -> ContainerV
    decreases c,
{
    ContainerV {
        node: match c.node {
            NodeV::Bool(_) => NodeV::Bool(None),
            NodeV::String(_) => NodeV::String(None),
            NodeV::Number(n) => NodeV::Number(NumberV { value: None, ..n }),
            NodeV::Object(o) => NodeV::Object(
                ObjectV {
                    nodes: Seq::new(
                        o.nodes.len(),
                        |i: int|
                            if 0 <= i < o.nodes.len() {
                                (o.nodes[i].0, cleared(o.nodes[i].1))
                            } else {
                                arbitrary()
                            },
                    ),
                    template: o.template,
                },
            ),
            NodeV::Enum(e) => NodeV::Enum(EnumV { value: None, ..e }),
            NodeV::Array(a) => NodeV::Array(ArrayV { values: None, ..a }),
            _ => c.node,
        },
        modified: false,
        ..c
    }
}

/// The position of the first variant that takes the value.
fn find_matching(nodes: &Vec<NodeContainer>, value: &Value) -> (r: Option<usize>)
    ensures
        match r {
            Some(i) => first_matching(containers_model(nodes@), value@) == Some(i as int) && i
                < nodes.len(),
            None => first_matching(containers_model(nodes@), value@) is None,
        },
{
    let ghost s = containers_model(nodes@);
    let ghost p = |c: ContainerV| matching(c, value@);
    let mut i: usize = 0;
    while i < nodes.len()
        invariant
            i <= nodes.len(),
            s == containers_model(nodes@),
            p == |c: ContainerV| matching(c, value@),
            forall|j: int| 0 <= j < i ==> !p(#[trigger] s[j]),
        decreases nodes.len() - i,
    {
        assert(s[i as int] == nodes@[i as int]@);
        if nodes[i].is_matching(value) {
            proof {
                lemma_first_index_is(s, p, i as int);
            }
            return Some(i);
        }
        i += 1;
    }
    proof {
        lemma_first_index_none(s, p);
    }
    None
}

/// The position of the variant that a dictionary chooses.
fn find_matching_key(nodes: &Vec<NodeContainer>, d: &Dict) -> (r: Option<usize>)
    ensures
        match r {
            Some(i) => first_matching_key(containers_model(nodes@), d@) == Some(i as int) && i
                < nodes.len(),
            None => first_matching_key(containers_model(nodes@), d@) is None,
        },
{
    let ghost s = containers_model(nodes@);
    let ghost p = |e: (Seq<char>, ValueV)| first_matching(s, ValueV::String(e.0)) is Some;
    let n = d.len();
    let mut i: usize = 0;
    while i < n
        invariant
            i <= n,
            n == d@.len(),
            s == containers_model(nodes@),
            p == |e: (Seq<char>, ValueV)| first_matching(s, ValueV::String(e.0)) is Some,
            forall|j: int| 0 <= j < i ==> !p(#[trigger] d@[j]),
        decreases n - i,
    {
        let key = Value::String(d.key_at(i).clone());
        match find_matching(nodes, &key) {
            Some(pos) => {
                proof {
                    lemma_first_index_is(d@, p, i as int);
                }
                return Some(pos);
            },
            None => {},
        }
        i += 1;
    }
    proof {
        lemma_first_index_none(d@, p);
    }
    None
}

/// The variants of an enum with the value bound to the one at `pos`.
fn bound_variant(e: &NodeEnum, pos: usize, value: &Value, modified: bool) -> (r: Result<
    Vec<NodeContainer>,
    ApplyError,
>)
    requires
        pos < e.nodes.len(),
    ensures
        match r {
            Ok(nodes) => bind_as(
                containers_model(e.nodes@)[pos as int],
                containers_model(e.nodes@)[pos as int].removable,
                value@,
                modified,
            ) matches Ok(b) && containers_model(nodes@) == containers_model(e.nodes@).update(
                pos as int,
                b,
            ),
            Err(x) => bind_as(
                containers_model(e.nodes@)[pos as int],
                containers_model(e.nodes@)[pos as int].removable,
                value@,
                modified,
            ) == Err::<ContainerV, ApplyError>(x),
        },
    decreases e, 0nat,
{
    assert(containers_model(e.nodes@)[pos as int] == e.nodes@[pos as int]@);
    match e.nodes[pos].bound_as(e.nodes[pos].removable, value, modified) {
        Ok(b) => {
            let mut nodes = clone_nodes(&e.nodes);
            assert(containers_model(nodes@).len() == nodes@.len());
            let ghost before = nodes@;
            nodes.set(pos, b);
            assert forall|j: int| 0 <= j < nodes@.len() implies #[trigger] containers_model(
                nodes@,
            )[j] == containers_model(e.nodes@).update(pos as int, b@)[j] by {
                if j != pos {
                    assert(containers_model(before)[j] == before[j]@);
                }
            }
            assert(containers_model(nodes@) =~= containers_model(e.nodes@).update(
                pos as int,
                b@,
            ));
            Ok(nodes)
        },
        Err(x) => Err(x),
    }
}

/// An object with the children of `o` that stay when the dictionary is
/// bound to it, and with the template of `o`.
#[verifier::loop_isolation(false)]
fn bound_fixed(o: &NodeObject, d: &Dict, modified: bool) -> (r: Result<NodeObject, ApplyError>)
    ensures
        match r {
            Ok(out) => bind_fixed(o@, d@, modified, 0, Seq::empty()) == Ok::<
                Seq<(Seq<char>, ContainerV)>,
                ApplyError,
            >(out@.nodes) && out@.template == o@.template,
            Err(x) => bind_fixed(o@, d@, modified, 0, Seq::empty()) == Err::<
                Seq<(Seq<char>, ContainerV)>,
                ApplyError,
            >(x),
        },
    decreases o, 0nat,
{
    let ghost ov = o@;
    let template = match o.template_ref() {
        Some(t) => Some(t.clone()),
        None => None,
    };
    let mut out = NodeObject::empty(template);
    assert(out@.nodes =~= Seq::empty());
    let n = o.len();
    let mut i: usize = 0;
    while i < n
        invariant
            i <= n,
            n == ov.nodes.len(),
            out@.template == ov.template,
            bind_fixed(ov, d@, modified, i as int, out@.nodes) == bind_fixed(
                ov,
                d@,
                modified,
                0,
                Seq::empty(),
            ),
        decreases n - i,
    {
        let c = o.node_at(i);
        if !c.removable {
            let b = match d.get(o.key_at(i).as_str()) {
                Some(v) => c.bound_as(c.removable, v, modified),
                None => match &c.default {
                    Some(dv) => c.bound_as(c.removable, dv, false),
                    None => Ok(c.clone()),
                },
            };
            match b {
                Ok(nc) => {
                    out = out.with_entry(o.key_at(i).clone(), nc);
                },
                Err(x) => {
                    return Err(x);
                },
            }
        }
        i += 1;
    }
    Ok(out)
}

/// The object `out` with the children that `o` makes from its template
/// for the entries of the dictionary.
#[verifier::loop_isolation(false)]
fn bound_extra(o: &NodeObject, out: NodeObject, d: &Dict, modified: bool) -> (r: Result<
    NodeObject,
    ApplyError,
>)
    requires
        out@.template == o@.template,
    ensures
        match r {
            Ok(all) => all@.template == o@.template && all@.nodes == match o@.template {
                Some(_) => bind_extra(o@, d@, modified, 0, out@.nodes)->Ok_0,
                None => out@.nodes,
            } && (o@.template is Some ==> bind_extra(o@, d@, modified, 0, out@.nodes) is Ok),
            Err(x) => o@.template is Some && bind_extra(o@, d@, modified, 0, out@.nodes) == Err::<
                Seq<(Seq<char>, ContainerV)>,
                ApplyError,
            >(x),
        },
    decreases o, 0nat,
{
    let ghost ov = o@;
    let ghost fixed = out@.nodes;
    let mut out = out;
    match o.template_ref() {
        Some(t) => {
            let m = d.len();
            let mut k: usize = 0;
            while k < m
                invariant
                    k <= m,
                    m == d@.len(),
                    out@.template == ov.template,
                    ov.template == Some(Box::new(t@)),
                    bind_extra(ov, d@, modified, k as int, out@.nodes) == bind_extra(
                        ov,
                        d@,
                        modified,
                        0,
                        fixed,
                    ),
                decreases m - k,
            {
                let key = d.key_at(k);
                let is_fixed = match o.get(key.as_str()) {
                    Some(c) => !c.removable,
                    None => false,
                };
                if !is_fixed {
                    match t.bound_as(true, d.value_at(k), modified) {
                        Ok(nc) => {
                            out = out.with_entry(key.clone(), nc);
                        },
                        Err(x) => {
                            return Err(x);
                        },
                    }
                }
                k += 1;
            }
            Ok(out)
        },
        None => Ok(out),
    }
}

/// The items that an array makes for a list of values.
#[verifier::loop_isolation(false)]
fn bound_items(a: &NodeArray, values: &Vec<Value>, modified: bool) -> (r: Result<
    Vec<NodeContainer>,
    ApplyError,
>)
    ensures
        match r {
            Ok(nodes) => bind_items(a.model(), values_model(values@), modified, 0, Seq::empty())
                == Ok::<Seq<ContainerV>, ApplyError>(containers_model(nodes@)),
            Err(x) => bind_items(a.model(), values_model(values@), modified, 0, Seq::empty())
                == Err::<Seq<ContainerV>, ApplyError>(x),
        },
    decreases a, 0nat,
{
    let ghost am = a.model();
    let ghost vs = values_model(values@);
    let mut nodes: Vec<NodeContainer> = Vec::new();
    let mut i: usize = 0;
    assert(containers_model(nodes@) =~= Seq::empty());
    while i < values.len()
        invariant
            i <= values.len(),
            vs.len() == values.len(),
            bind_items(am, vs, modified, i as int, containers_model(nodes@)) == bind_items(
                am,
                vs,
                modified,
                0,
                Seq::empty(),
            ),
        decreases values.len() - i,
    {
        assert(vs[i as int] == values@[i as int]@);
        let ghost before = containers_model(nodes@);
        let b = match &a.template {
            NodeArrayTemplate::All(t) => t.bound_as(true, &values[i], modified),
            NodeArrayTemplate::FirstN(shapes) => {
                let ghost sh = am.template->FirstN_0;
                assert(sh == containers_model(shapes@));
                if i < shapes.len() {
                    assert(sh[i as int] == shapes@[i as int]@);
                    shapes[i].bound_as(shapes[i].removable, &values[i], modified)
                } else {
                    Err(ApplyError::NoCompatibleNode)
                }
            },
        };
        match b {
            Ok(nc) => {
                nodes.push(nc);
                assert(containers_model(nodes@) =~= before.push(nc@));
            },
            Err(x) => {
                return Err(x);
            },
        }
        i += 1;
    }
    Ok(nodes)
}

/// An enum with the variant at `pos` chosen and marked `modified` as
/// given.
fn chosen_variant(e: &NodeEnum, pos: usize, modified: bool) -> (r: NodeEnum)
    requires
        pos < e.nodes.len(),
    ensures
        r.value == Some(pos),
        containers_model(r.nodes@) == containers_model(e.nodes@).update(
            pos as int,
            ContainerV { modified, ..containers_model(e.nodes@)[pos as int] },
        ),
{
    let mut nodes = clone_nodes(&e.nodes);
    assert(containers_model(nodes@).len() == nodes@.len());
    assert(containers_model(nodes@)[pos as int] == nodes@[pos as int]@);
    let ghost before = nodes@;
    let mut chosen = nodes[pos].clone();
    chosen.modified = modified;
    nodes.set(pos, chosen);
    assert forall|j: int| 0 <= j < nodes@.len() implies #[trigger] containers_model(nodes@)[j]
        == containers_model(e.nodes@).update(
        pos as int,
        ContainerV { modified, ..containers_model(e.nodes@)[pos as int] },
    )[j] by {
        if j != pos {
            assert(containers_model(before)[j] == before[j]@);
        }
    }
    assert(containers_model(nodes@) =~= containers_model(e.nodes@).update(
        pos as int,
        ContainerV { modified, ..containers_model(e.nodes@)[pos as int] },
    ));
    NodeEnum { value: Some(pos), nodes }
}

/// An enum with the value bound to its variant at `pos`.
fn bound_enum(e: &NodeEnum, found: Option<usize>, value: &Value, modified: bool) -> (r: Result<
    Node,
    ApplyError,
>)
    requires
        found matches Some(pos) ==> pos < e.nodes.len(),
    ensures
        match found {
            Some(pos) => match r {
                Ok(n) => bind_variant((Node::Enum(*e))@->Enum_0, pos as int, value@, modified)
                    == Ok::<NodeV, ApplyError>(n@),
                Err(x) => bind_variant((Node::Enum(*e))@->Enum_0, pos as int, value@, modified)
                    == Err::<NodeV, ApplyError>(x),
            },
            None => r == Err::<Node, ApplyError>(ApplyError::NoCompatibleVariant),
        },
    decreases e, 1nat,
{
    match found {
        Some(pos) => match bound_variant(e, pos, value, modified) {
            Ok(nodes) => Ok(Node::Enum(NodeEnum { value: Some(pos), nodes })),
            Err(x) => Err(x),
        },
        None => Err(ApplyError::NoCompatibleVariant),
    }
}

/// An object with a dictionary bound to it.
fn bound_object(o: &NodeObject, d: &Dict, modified: bool) -> (r: Result<Node, ApplyError>)
    ensures
        match r {
            Ok(n) => bind_object(o@, d@, modified) == Ok::<NodeV, ApplyError>(n@),
            Err(x) => bind_object(o@, d@, modified) == Err::<NodeV, ApplyError>(x),
        },
    decreases o, 1nat,
{
    match bound_fixed(o, d, modified) {
        Ok(fixed) => match bound_extra(o, fixed, d, modified) {
            Ok(all) => Ok(Node::Object(all)),
            Err(x) => Err(x),
        },
        Err(x) => Err(x),
    }
}

/// An array with a list of values bound to it.
fn bound_array(a: &NodeArray, values: &Vec<Value>, modified: bool) -> (r: Result<
    Node,
    ApplyError,
>)
    ensures
        match bind_items(a.model(), values_model(values@), modified, 0, Seq::empty()) {
            Ok(items) => r matches Ok(n) && n@ == NodeV::Array(
                ArrayV { values: Some(items), ..a.model() },
            ),
            Err(x) => r == Err::<Node, ApplyError>(x),
        },
    decreases a, 1nat,
{
    match bound_items(a, values, modified) {
        Ok(nodes) => {
            let template = match &a.template {
                NodeArrayTemplate::All(t) => NodeArrayTemplate::All(Box::new((&**t).clone())),
                NodeArrayTemplate::FirstN(v) => NodeArrayTemplate::FirstN(clone_nodes(v)),
            };
            Ok(Node::Array(NodeArray { values: Some(nodes), template, min: a.min, max: a.max }))
        },
        Err(x) => Err(x),
    }
}

/// A number node with a number bound to it.
fn bound_number(n: &NodeNumber, x: &crate::value::Num) -> (r: Result<Node, ApplyError>)
    ensures
        match converted_number(n.kind, x@) {
            Some(y) => r matches Ok(node) && node@ == NodeV::Number(
                NumberV { kind: n.kind, value: Some(y), value_string: y.text() },
            ),
            None => r == Err::<Node, ApplyError>(ApplyError::NoCompatibleNode),
        },
{
    match convert_number(n.kind, x) {
        Ok(y) => {
            let value_string = y.to_text();
            Ok(Node::Number(NodeNumber { kind: n.kind, value: Some(y), value_string }))
        },
        Err(_) => Err(ApplyError::NoCompatibleNode),
    }
}

/// A copy of the payload with the value bound to it.
fn bound_node(node: &Node, value: &Value, modified: bool) -> (r: Result<Node, ApplyError>)
    ensures
        match r {
            Ok(n) => bind_node(node@, value@, modified) == Ok::<NodeV, ApplyError>(n@),
            Err(e) => bind_node(node@, value@, modified) == Err::<NodeV, ApplyError>(e),
        },
    decreases node, 0nat,
{
    match node {
        Node::String(_) => match value {
            Value::String(s) => Ok(Node::String(NodeString { value: Some(s.clone()) })),
            _ => Err(ApplyError::NoCompatibleNode),
        },
        Node::Bool(_) => match value {
            Value::Bool(b) => Ok(Node::Bool(NodeBool { value: Some(*b) })),
            _ => Err(ApplyError::NoCompatibleNode),
        },
        Node::Number(n) => match value {
            Value::Num(x) => bound_number(n, x),
            _ => Err(ApplyError::NoCompatibleNode),
        },
        Node::Value(_) => match value {
            Value::String(_) => Ok(node.clone()),
            _ => Err(ApplyError::NoCompatibleNode),
        },
        Node::Object(o) => match value {
            Value::Dict(d) => bound_object(o, d, modified),
            _ => Err(ApplyError::NoCompatibleNode),
        },
        Node::Array(a) => match value {
            Value::Array(values) => bound_array(a, values, modified),
            _ => Err(ApplyError::NoCompatibleNode),
        },
        Node::Enum(e) => match value {
            Value::String(_) => bound_enum(e, find_matching(&e.nodes, value), value, modified),
            Value::Dict(d) => bound_enum(e, find_matching_key(&e.nodes, d), value, modified),
            Value::Empty(_) => match find_matching(&e.nodes, value) {
                Some(pos) => Ok(Node::Enum(chosen_variant(e, pos, modified))),
                None => Err(ApplyError::NoCompatibleVariant),
            },
            _ => Err(ApplyError::NoCompatibleNode),
        },
        _ => Err(ApplyError::NoCompatibleNode),
    }
}

impl NodeContainer {
    /// True where the node's shape takes the value, as far as choosing an
    /// enum's variant goes.
    #[verifier::loop_isolation(false)]
    pub fn is_matching(&self, value: &Value) -> (r: bool)
        ensures
            r == matching(self@, value@),
        decreases self,
    {
        match (value, &self.node) {
            (Value::String(_), Node::String(_)) => true,
            (Value::String(value), Node::Object(node_object)) => node_object.contains_key(
                value.as_str(),
            ),
            (Value::Bool(_), Node::Bool(_)) => true,
            (Value::Num(_), Node::Number(_)) => true,
            (Value::Empty(_), Node::Null) => true,
            (Value::Dict(values), Node::Object(node_object)) => {
                let n = node_object.len();
                let mut i: usize = 0;
                while i < n
                    invariant
                        i <= n,
                        forall|j: int|
                            0 <= j < i ==> match key_value(
                                values@,
                                (#[trigger] node_object@.nodes[j]).0,
                            ) {
                                Some(dv) => matching(node_object@.nodes[j].1, dv),
                                None => false,
                            },
                    decreases n - i,
                {
                    let same = match values.get(node_object.key_at(i).as_str()) {
                        Some(v) => node_object.node_at(i).is_matching(v),
                        None => false,
                    };
                    if !same {
                        assert(key_value(values@, node_object@.nodes[i as int].0) matches Some(dv)
                            ==> !matching(node_object@.nodes[i as int].1, dv));
                        return false;
                    }
                    i += 1;
                }
                true
            },
            (value, Node::Value(node_value)) => json_value_eq_figment_value(
                &node_value.value,
                value,
            ),
            _ => false,
        }
    }

    /// The rest of a container around a new payload.
    fn rebuilt(&self, node: Node, removable: bool, modified: bool) -> (r: NodeContainer)
        ensures
            r@ == (ContainerV { node: node@, modified, removable, ..self@ }),
    {
        NodeContainer {
            node,
            default: match &self.default {
                Some(v) => Some(v.clone()),
                None => None,
            },
            title: copy_opt_text(&self.title),
            desc: copy_opt_text(&self.desc),
            modified,
            removable,
        }
    }

    /// A copy of the container with the value bound to it, marked
    /// `modified` and `removable` as given.
    pub fn bound_as(&self, removable: bool, value: &Value, modified: bool) -> (r: Result<
        NodeContainer,
        ApplyError,
    >)
        ensures
            match r {
                Ok(n) => bind_as(self@, removable, value@, modified) == Ok::<
                    ContainerV,
                    ApplyError,
                >(n@),
                Err(e) => bind_as(self@, removable, value@, modified) == Err::<
                    ContainerV,
                    ApplyError,
                >(e),
            },
            well_formed(self@) && value_well_formed(value@) ==> (r matches Ok(n) ==> well_formed(
                n@,
            )),
        decreases self, 1nat,
    {
        proof {
            if well_formed(self@) && value_well_formed(value@) && bind_as(
                self@,
                removable,
                value@,
                modified,
            ) is Ok {
                lemma_bind_well_formed(self@, removable, value@, modified);
            }
        }
        match bound_node(&self.node, value, modified) {
            Ok(node) => Ok(self.rebuilt(node, removable, modified)),
            Err(x) => Err(x),
        }
    }

    /// Binds a value to the container: on success the container is what
    /// `bind` says; on an error it is left as it was.
    pub fn apply_value(&mut self, value: Value, modified: bool) -> (r: Result<(), ApplyError>)
        ensures
            match r {
                Ok(_) => bind(old(self)@, value@, modified) == Ok::<ContainerV, ApplyError>(
                    final(self)@,
                ),
                Err(e) => bind(old(self)@, value@, modified) == Err::<ContainerV, ApplyError>(e)
                    && final(self)@ == old(self)@,
            },
            well_formed(old(self)@) && value_well_formed(value@) ==> well_formed(final(self)@),
    {
        match self.bound_as(self.removable, &value, modified) {
            Ok(n) => {
                *self = n;
                Ok(())
            },
            Err(e) => Err(e),
        }
    }

    /// Binds the data of a configuration source to the tree: the data as a
    /// dictionary, marked modified; or, where the source has none, an
    /// empty dictionary, not marked modified.
    pub fn apply_figment(&mut self, data: Option<Dict>) -> (r: Result<(), ApplyError>)
        ensures
            match r {
                Ok(_) => bind(old(self)@, figment_value(data), data is Some) == Ok::<
                    ContainerV,
                    ApplyError,
                >(final(self)@),
                Err(e) => bind(old(self)@, figment_value(data), data is Some) == Err::<
                    ContainerV,
                    ApplyError,
                >(e) && final(self)@ == old(self)@,
            },
            well_formed(old(self)@) && value_well_formed(figment_value(data)) ==> well_formed(
                final(self)@,
            ),
    {
        match data {
            Some(data) => self.apply_value(Value::Dict(data), true),
            None => {
                let empty = Dict::new();
                assert(value_well_formed(ValueV::Dict(empty@)));
                self.apply_value(Value::Dict(empty), false)
            },
        }
    }

    /// A copy of the container without the values that were bound to it.
    #[verifier::loop_isolation(false)]
    pub fn without_values(&self) -> (r: NodeContainer)
        ensures
            r@ == cleared(self@),
            well_formed(self@) ==> well_formed(r@),
        decreases self,
    {
        proof {
            if well_formed(self@) {
                lemma_cleared_well_formed(self@);
            }
        }
        let node = match &self.node {
            Node::Bool(_) => Node::Bool(NodeBool { value: None }),
            Node::String(_) => Node::String(NodeString { value: None }),
            Node::Number(n) => Node::Number(
                NodeNumber { kind: n.kind, value: None, value_string: n.value_string.clone() },
            ),
            Node::Object(o) => {
                let ghost ov = self@.node->Object_0;
                let mut out = o.clone();
                let n = o.len();
                let mut i: usize = 0;
                while i < n
                    invariant
                        i <= n,
                        n == ov.nodes.len(),
                        out@.template == ov.template,
                        out@.nodes.len() == n,
                        forall|j: int|
                            0 <= j < i ==> (#[trigger] out@.nodes[j]) == (
                                ov.nodes[j].0,
                                cleared(ov.nodes[j].1),
                            ),
                        forall|j: int| i <= j < n ==> (#[trigger] out@.nodes[j]) == ov.nodes[j],
                    decreases n - i,
                {
                    let c = o.node_at(i).without_values();
                    out = out.with_node_at(i, c);
                    i += 1;
                }
                assert(out@.nodes =~= cleared(self@).node->Object_0.nodes);
                Node::Object(out)
            },
            Node::Enum(e) => Node::Enum(NodeEnum { value: None, nodes: clone_nodes(&e.nodes) }),
            Node::Array(a) => Node::Array(
                NodeArray {
                    values: None,
                    template: match &a.template {
                        NodeArrayTemplate::All(t) => NodeArrayTemplate::All(
                            Box::new((&**t).clone()),
                        ),
                        NodeArrayTemplate::FirstN(v) => NodeArrayTemplate::FirstN(clone_nodes(v)),
                    },
                    min: a.min,
                    max: a.max,
                },
            ),
            _ => self.node.clone(),
        };
        self.rebuilt(node, self.removable, false)
    }

    /// Takes away the values that were bound to the container.
    pub fn remove_value_rec(&mut self)
        ensures
            final(self)@ == cleared(old(self)@),
            well_formed(old(self)@) ==> well_formed(final(self)@),
    {
        let n = self.without_values();
        *self = n;
    }
}

/// The value that the data of a configuration source is bound as.
pub open spec fn figment_value(data: Option<Dict>) -> ValueV {
    match data {
        Some(d) => ValueV::Dict(d@),
        None => ValueV::Dict(Seq::empty()),
    }
}

} // verus!
