//! Compiling a schema into the shape of the tree.
use vstd::prelude::*;
use crate::json::{json_to_value, json_value_to_figment_value};
use crate::laws::well_formed::lemma_compile_fresh;
use crate::node::{
    clone_nodes,
    containers_model,
    entries_put,
    well_formed,
    ArrayV,
    ContainerV,
    EnumV,
    Node,
    NodeArray,
    NodeArrayTemplate,
    NodeBool,
    NodeContainer,
    NodeEnum,
    NodeNumber,
    NodeObject,
    NodeString,
    NodeV,
    NodeValue,
    NumberV,
    ObjectV,
    TemplateV,
};
use crate::number::{kind_of_format, NumberValue, NumberValueLight};
use crate::schema::{InstanceType, InstanceTypes, Items, Metadata, RootSchema, Schema, SchemaObject};
use crate::text::{copy_opt_text, has_prefix, opt_text, str_eq, strip_prefix};
use crate::value::{key_index, lemma_key_index_is, lemma_key_index_none};

verus! {

/// Why a schema cannot be compiled.
#[derive(Clone, Copy, Debug, PartialEq, Eq, Structural)]
pub enum SchemaError {
    /// Two parts of one schema describe shapes that cannot be one node.
    Unmergeable,
    /// An `allOf` that does not hold exactly one schema.
    UnsupportedAllOf,
    /// A reference that names no definition.
    MissingDefinition,
    /// References lead to references more often than `MAX_REFERENCE_DEPTH`
    /// times: the schema may refer to itself.
    ReferenceTooDeep,
}

/// How many references may be followed one from within the other.
pub const MAX_REFERENCE_DEPTH: usize = 64;

/// A container around a payload, with nothing else set.
pub open spec fn plain(n: NodeV) -> ContainerV {
    ContainerV {
        node: n,
        default: None,
        title: None,
        desc: None,
        modified: false,
        removable: false,
    }
}

/// The container with the title, the description and the default of the
/// metadata, and without them where there is no metadata.
pub open spec fn with_metadata(c: ContainerV, m: Option<Box<Metadata>>) -> ContainerV {
    ContainerV {
        default: match m {
            Some(b) => match b.default {
                Some(j) => Some(json_to_value(j@)),
                None => None,
            },
            None => None,
        },
        title: match m {
            Some(b) => opt_text(b.title),
            None => None,
        },
        desc: match m {
            Some(b) => opt_text(b.description),
            None => None,
        },
        ..c
    }
}

/// The kind of number that a `format` word asks for, or `fallback` where
/// it names none.
pub open spec fn format_kind(format: Option<String>, fallback: NumberValueLight)
    -> NumberValueLight {
    match format {
        Some(f) => match kind_of_format(f@) {
            Some(k) => k,
            None => fallback,
        },
        None => fallback,
    }
}

/// The payload that a JSON type asks for.
pub open spec fn instance_node(t: InstanceType, format: Option<String>) -> NodeV {
    match t {
        InstanceType::Null => NodeV::Null,
        InstanceType::Boolean => NodeV::Bool(None),
        InstanceType::Object => NodeV::Object(ObjectV { nodes: Seq::empty(), template: None }),
        InstanceType::Array => NodeV::Array(
            ArrayV {
                values: None,
                template: TemplateV::All(Box::new(plain(NodeV::Any))),
                min: None,
                max: None,
            },
        ),
        InstanceType::Number => NodeV::Number(
            NumberV {
                kind: format_kind(format, NumberValueLight::F64),
                value: None,
                value_string: Seq::empty(),
            },
        ),
        InstanceType::String => NodeV::String(None),
        InstanceType::Integer => NodeV::Number(
            NumberV {
                kind: format_kind(format, NumberValueLight::I128),
                value: None,
                value_string: Seq::empty(),
            },
        ),
    }
}

/// Two descriptions of one node as one. The later one, `b`, replaces the
/// earlier one, `a`, but: a wildcard `b` leaves `a` as it is; and where
/// `a` is an enum, `b` is merged into the first of its variants that it
/// can be merged into, and there is no result where there is no such
/// variant.
pub open spec fn merge(a: ContainerV, b: ContainerV) -> Option<ContainerV>
    decreases a, 1nat,
{
    match a.node {
        NodeV::Enum(e) => match merge_variants(e, b, 0) {
            Some((i, m)) => Some(
                ContainerV { node: NodeV::Enum(EnumV { nodes: e.nodes.update(i, m), ..e }), ..a },
            ),
            None => None,
        },
        _ => if b.node is Any {
            Some(a)
        } else {
            Some(b)
        },
    }
}

/// The first variant from position `i` on that `b` can be merged into,
/// and the result of merging.
pub open spec fn merge_variants(e: EnumV, b: ContainerV, i: int) -> Option<(int, ContainerV)>
    decreases e, e.nodes.len() - i,
{
    if 0 <= i < e.nodes.len() {
        match merge(e.nodes[i], b) {
            Some(m) => Some((i, m)),
            None => merge_variants(e, b, i + 1),
        }
    } else {
        None
    }
}

/// One more part of a schema merged into what the parts before it gave.
pub open spec fn merged(acc: Result<ContainerV, SchemaError>, part: Result<
    Option<ContainerV>,
    SchemaError,
>) -> Result<ContainerV, SchemaError> {
    match acc {
        Err(e) => Err(e),
        Ok(a) => match part {
            Err(e) => Err(e),
            Ok(None) => Ok(a),
            Ok(Some(p)) => match merge(a, p) {
                Some(m) => Ok(m),
                None => Err(SchemaError::Unmergeable),
            },
        },
    }
}

/// The definitions by their names.
pub open spec fn named(defs: Seq<(String, Schema)>) -> Seq<(Seq<char>, Schema)> {
    Seq::new(defs.len(), |i: int| (defs[i].0@, defs[i].1))
}

/// What the `type` of a schema gives: a node of that type, or an enum of
/// a node for each type of a list.
pub open spec fn type_part(s: SchemaObject) -> Option<ContainerV> {
    match s.instance_type {
        Some(InstanceTypes::Single(t)) => Some(
            with_metadata(plain(instance_node(t, s.format)), s.metadata),
        ),
        Some(InstanceTypes::Vec(ts)) => Some(
            with_metadata(
                plain(
                    NodeV::Enum(
                        EnumV {
                            value: None,
                            nodes: Seq::new(
                                ts@.len(),
                                |i: int| plain(instance_node(ts@[i], s.format)),
                            ),
                        },
                    ),
                ),
                s.metadata,
            ),
        ),
        None => None,
    }
}

/// What the `enum` of a schema gives: a constant for a single literal,
/// else an enum of a constant for each literal.
pub open spec fn enum_part(s: SchemaObject) -> Option<ContainerV> {
    match s.enum_values {
        Some(vs) => Some(
            if vs@.len() == 1 {
                with_metadata(plain(NodeV::Value(vs@[0]@)), s.metadata)
            } else {
                with_metadata(
                    plain(
                        NodeV::Enum(
                            EnumV {
                                value: None,
                                nodes: Seq::new(
                                    vs@.len(),
                                    |i: int| with_metadata(plain(NodeV::Value(vs@[i]@)), s.metadata),
                                ),
                            },
                        ),
                    ),
                    s.metadata,
                )
            },
        ),
        None => None,
    }
}

/// The node that a schema describes. A schema that is `true` or `false`
/// describes a wildcard.
pub open spec fn compile_schema(defs: Seq<(String, Schema)>, s: Schema, fuel: nat) -> Result<
    ContainerV,
    SchemaError,
>
    decreases fuel, s, 1nat,
{
    match s {
        Schema::Bool(_) => Ok(plain(NodeV::Any)),
        Schema::Object(o) => compile(defs, o, fuel),
    }
}

/// The nodes that the schemas of a list describe from position `i` on,
/// added to `acc`.
pub open spec fn compile_list(
    defs: Seq<(String, Schema)>,
    list: Seq<Schema>,
    fuel: nat,
    i: int,
    acc: Seq<ContainerV>,
) -> Result<Seq<ContainerV>, SchemaError>
    decreases fuel, list, list.len() - i,
{
    if 0 <= i < list.len() {
        match compile_schema(defs, list[i], fuel) {
            Ok(c) => compile_list(defs, list, fuel, i + 1, acc.push(c)),
            Err(e) => Err(e),
        }
    } else {
        Ok(acc)
    }
}

/// The children that the properties of an object describe from position
/// `i` on, put into `acc` under their names.
pub open spec fn compile_properties(
    defs: Seq<(String, Schema)>,
    props: Seq<(String, Schema)>,
    fuel: nat,
    i: int,
    acc: Seq<(Seq<char>, ContainerV)>,
) -> Result<Seq<(Seq<char>, ContainerV)>, SchemaError>
    decreases fuel, props, props.len() - i,
{
    if 0 <= i < props.len() {
        match compile_schema(defs, props[i].1, fuel) {
            Ok(c) => compile_properties(defs, props, fuel, i + 1, entries_put(acc, props[i].0@, c)),
            Err(e) => Err(e),
        }
    } else {
        Ok(acc)
    }
}

/// What the object part of a schema gives: an object with a child for
/// each property, and, where there are no properties, with the schema of
/// further properties as its template.
pub open spec fn object_part(defs: Seq<(String, Schema)>, s: SchemaObject, fuel: nat) -> Result<
    Option<ContainerV>,
    SchemaError,
>
    decreases fuel, s, 0nat,
{
    match s.object {
        Some(ov) => match compile_properties(defs, ov.properties@, fuel, 0, Seq::empty()) {
            Ok(nodes) => {
                if ov.properties@.len() == 0 {
                    match ov.additional_properties {
                        Some(ap) => match compile_schema(defs, *ap, fuel) {
                            Ok(t) => Ok(
                                Some(
                                    plain(
                                        NodeV::Object(
                                            ObjectV { nodes, template: Some(Box::new(t)) },
                                        ),
                                    ),
                                ),
                            ),
                            Err(e) => Err(e),
                        },
                        None => Ok(Some(plain(NodeV::Object(ObjectV { nodes, template: None })))),
                    }
                } else {
                    Ok(Some(plain(NodeV::Object(ObjectV { nodes, template: None }))))
                }
            },
            Err(e) => Err(e),
        },
        None => Ok(None),
    }
}

/// What the array part of a schema gives: an array without items whose
/// template is the schema of its items, or a wildcard where none is
/// given.
pub open spec fn array_part(defs: Seq<(String, Schema)>, s: SchemaObject, fuel: nat) -> Result<
    Option<ContainerV>,
    SchemaError,
>
    decreases fuel, s, 0nat,
{
    match s.array {
        Some(av) => {
            let template = match av.items {
                Some(Items::Single(sch)) => match compile_schema(defs, *sch, fuel) {
                    Ok(c) => Ok(TemplateV::All(Box::new(c))),
                    Err(e) => Err(e),
                },
                Some(Items::Vec(list)) => match compile_list(defs, list@, fuel, 0, Seq::empty()) {
                    Ok(cs) => Ok(TemplateV::FirstN(cs)),
                    Err(e) => Err(e),
                },
                None => Ok(TemplateV::All(Box::new(plain(NodeV::Any)))),
            };
            match template {
                Ok(t) => Ok(
                    Some(
                        with_metadata(
                            plain(
                                NodeV::Array(
                                    ArrayV {
                                        values: None,
                                        template: t,
                                        min: av.min_items,
                                        max: av.max_items,
                                    },
                                ),
                            ),
                            s.metadata,
                        ),
                    ),
                ),
                Err(e) => Err(e),
            }
        },
        None => Ok(None),
    }
}

/// What an `allOf` gives: the node of its one schema.
pub open spec fn all_of_part(defs: Seq<(String, Schema)>, s: SchemaObject, fuel: nat) -> Result<
    Option<ContainerV>,
    SchemaError,
>
    decreases fuel, s, 0nat,
{
    match s.subschemas {
        Some(sub) => match sub.all_of {
            Some(list) => match compile_list(defs, list@, fuel, 0, Seq::empty()) {
                Ok(cs) => if cs.len() == 1 {
                    Ok(Some(with_metadata(cs[0], s.metadata)))
                } else {
                    Err(SchemaError::UnsupportedAllOf)
                },
                Err(e) => Err(e),
            },
            None => Ok(None),
        },
        None => Ok(None),
    }
}

/// What a `oneOf` or an `anyOf` gives: an enum of the nodes of its
/// schemas.
pub open spec fn choice_part(
    defs: Seq<(String, Schema)>,
    s: SchemaObject,
    list: Option<Vec<Schema>>,
    fuel: nat,
) -> Result<Option<ContainerV>, SchemaError>
    decreases fuel, list, 0nat,
{
    match list {
        Some(l) => match compile_list(defs, l@, fuel, 0, Seq::empty()) {
            Ok(cs) => Ok(
                Some(with_metadata(plain(NodeV::Enum(EnumV { value: None, nodes: cs })), s.metadata)),
            ),
            Err(e) => Err(e),
        },
        None => Ok(None),
    }
}

/// The text that every reference to a definition begins with.
pub open spec fn definitions_prefix() -> Seq<char> {
    "#/definitions/"@
}

/// What a reference gives: the node of the definition that it names. A
/// reference that does not begin as a reference to a definition gives
/// nothing.
pub open spec fn reference_part(defs: Seq<(String, Schema)>, s: SchemaObject, fuel: nat) -> Result<
    Option<ContainerV>,
    SchemaError,
>
    decreases fuel, s, 0nat,
{
    match s.reference {
        Some(r) => if has_prefix(r@, definitions_prefix()) {
            let name = r@.subrange(definitions_prefix().len() as int, r@.len() as int);
            match key_index(named(defs), name) {
                Some(i) => if fuel == 0 {
                    Err(SchemaError::ReferenceTooDeep)
                } else if 0 <= i < defs.len() {
                    match compile_schema(defs, defs[i].1, (fuel - 1) as nat) {
                        Ok(c) => Ok(Some(c)),
                        Err(e) => Err(e),
                    }
                } else {
                    Err(SchemaError::MissingDefinition)
                },
                None => Err(SchemaError::MissingDefinition),
            }
        } else {
            Ok(None)
        },
        None => Ok(None),
    }
}

/// The node that a schema describes: the parts of the schema, each
/// merged into what the parts before it gave, beginning with a wildcard;
/// then, where the schema has metadata, with that metadata.
pub open spec fn compile(defs: Seq<(String, Schema)>, s: SchemaObject, fuel: nat) -> Result<
    ContainerV,
    SchemaError,
>
    decreases fuel, s, 1nat,
{
    let r1 = merged(Ok(plain(NodeV::Any)), Ok(type_part(s)));
    let r2 = merged(r1, object_part(defs, s, fuel));
    let r3 = merged(r2, Ok(enum_part(s)));
    let r4 = merged(r3, array_part(defs, s, fuel));
    let r5 = merged(r4, all_of_part(defs, s, fuel));
    let r6 = merged(
        r5,
        match s.subschemas {
            Some(sub) => choice_part(defs, s, sub.one_of, fuel),
            None => Ok(None),
        },
    );
    let r7 = merged(
        r6,
        match s.subschemas {
            Some(sub) => choice_part(defs, s, sub.any_of, fuel),
            None => Ok(None),
        },
    );
    let r8 = merged(r7, reference_part(defs, s, fuel));
    match r8 {
        Ok(c) => Ok(
            if s.metadata is Some {
                with_metadata(c, s.metadata)
            } else {
                c
            },
        ),
        Err(e) => Err(e),
    }
}

impl NodeContainer {
    /// The container with the title, the description and the default of
    /// the metadata, and without them where there is no metadata.
    pub fn metadata(self, metadata: &Option<Box<Metadata>>) -> (r: Self)
        ensures
            r@ == with_metadata(self@, *metadata),
    {
        let NodeContainer { node, default: _, title: _, desc: _, modified, removable } = self;
        match metadata {
            Some(m) => NodeContainer {
                node,
                default: match &m.default {
                    Some(j) => Some(json_value_to_figment_value(j)),
                    None => None,
                },
                title: copy_opt_text(&m.title),
                desc: copy_opt_text(&m.description),
                modified,
                removable,
            },
            None => NodeContainer { node, default: None, title: None, desc: None, modified, removable },
        }
    }

    /// Two descriptions of one node as one; `None` where `self` is an
    /// enum and `other` can be merged into none of its variants.
    #[verifier::loop_isolation(false)]
    pub fn merge(&self, other: &NodeContainer) -> (r: Option<NodeContainer>)
        ensures
            match r {
                Some(c) => merge(self@, other@) == Some(c@),
                None => merge(self@, other@) is None,
            },
        decreases self,
    {
        match &self.node {
            Node::Enum(node_enum) => {
                let ghost e = self@.node->Enum_0;
                assert(e.nodes == containers_model(node_enum.nodes@));
                assert(e.nodes.len() == node_enum.nodes@.len());
                let mut i: usize = 0;
                while i < node_enum.nodes.len()
                    invariant
                        i <= node_enum.nodes.len(),
                        merge_variants(e, other@, i as int) == merge_variants(e, other@, 0),
                    decreases node_enum.nodes.len() - i,
                {
                    assert(e.nodes[i as int] == node_enum.nodes@[i as int]@);
                    match node_enum.nodes[i].merge(other) {
                        Some(new) => {
                            let mut nodes = clone_nodes(&node_enum.nodes);
                            assert(containers_model(nodes@).len() == nodes@.len());
                            let ghost before = nodes@;
                            nodes.set(i, new);
                            assert forall|j: int| 0 <= j < nodes@.len() implies (
                            #[trigger] containers_model(nodes@)[j]) == e.nodes.update(
                                i as int,
                                new@,
                            )[j] by {
                                if j != i {
                                    assert(containers_model(before)[j] == before[j]@);
                                }
                            }
                            assert(containers_model(nodes@) =~= e.nodes.update(i as int, new@));
                            return Some(
                                NodeContainer {
                                    node: Node::Enum(NodeEnum { value: node_enum.value, nodes }),
                                    default: match &self.default {
                                        Some(v) => Some(v.clone()),
                                        None => None,
                                    },
                                    title: copy_opt_text(&self.title),
                                    desc: copy_opt_text(&self.desc),
                                    modified: self.modified,
                                    removable: self.removable,
                                },
                            );
                        },
                        None => {},
                    }
                    i += 1;
                }
                None
            },
            _ => match &other.node {
                Node::Any => Some(self.clone()),
                _ => Some(other.clone()),
            },
        }
    }
}

/// A container around a payload, with the metadata.
fn from_metadata(node: Node, metadata: &Option<Box<Metadata>>) -> (r: NodeContainer)
    ensures
        r@ == with_metadata(plain(node@), *metadata),
{
    NodeContainer::from_node(node).metadata(metadata)
}

/// The kind of number that a `format` word asks for.
fn kind_for(format: &Option<String>, fallback: NumberValueLight) -> (r: NumberValueLight)
    ensures
        r == format_kind(*format, fallback),
{
    match format {
        Some(f) => match NumberValue::kind_from_str(f.as_str()) {
            Some(k) => k,
            None => fallback,
        },
        None => fallback,
    }
}

/// The payload that a JSON type asks for.
fn instance_type_to_node(instance_type: InstanceType, format: &Option<String>) -> (r: Node)
    ensures
        r@ == instance_node(instance_type, *format),
{
    match instance_type {
        InstanceType::Null => Node::Null,
        InstanceType::Boolean => Node::Bool(NodeBool::new()),
        InstanceType::Object => {
            let o = NodeObject::empty(None);
            assert(o@.nodes =~= Seq::empty());
            Node::Object(o)
        },
        InstanceType::Array => Node::Array(NodeArray::new_any()),
        InstanceType::Number => Node::Number(
            NodeNumber::new(kind_for(format, NumberValueLight::F64)),
        ),
        InstanceType::String => Node::String(NodeString::new()),
        InstanceType::Integer => Node::Number(
            NodeNumber::new(kind_for(format, NumberValueLight::I128)),
        ),
    }
}

impl NodeNumber {
    /// A number of a kind, without a value.
    pub fn new(kind: NumberValueLight) -> (r: Self)
        ensures
            r@ == (NumberV { kind, value: None, value_string: Seq::empty() }),
    {
        Self { value: None, value_string: String::new(), kind }
    }
}

/// What the `type` of a schema gives.
fn type_node(s: &SchemaObject) -> (r: Option<NodeContainer>)
    ensures
        match r {
            Some(c) => type_part(*s) == Some(c@),
            None => type_part(*s) is None,
        },
{
    match &s.instance_type {
        Some(InstanceTypes::Single(t)) => Some(
            from_metadata(instance_type_to_node(*t, &s.format), &s.metadata),
        ),
        Some(InstanceTypes::Vec(vec)) => {
            let mut nodes: Vec<NodeContainer> = Vec::new();
            let mut i: usize = 0;
            while i < vec.len()
                invariant
                    i <= vec.len(),
                    nodes.len() == i,
                    forall|j: int|
                        0 <= j < i ==> (#[trigger] nodes@[j])@ == plain(
                            instance_node(vec@[j], s.format),
                        ),
                decreases vec.len() - i,
            {
                nodes.push(NodeContainer::from_node(instance_type_to_node(vec[i], &s.format)));
                i += 1;
            }
            assert(containers_model(nodes@) =~= Seq::new(
                vec@.len(),
                |i: int| plain(instance_node(vec@[i], s.format)),
            ));
            Some(from_metadata(Node::Enum(NodeEnum::new(nodes)), &s.metadata))
        },
        None => None,
    }
}

/// What the `enum` of a schema gives.
fn enum_node(s: &SchemaObject) -> (r: Option<NodeContainer>)
    ensures
        match r {
            Some(c) => enum_part(*s) == Some(c@),
            None => enum_part(*s) is None,
        },
{
    match &s.enum_values {
        Some(enum_values) => {
            if enum_values.len() == 1 {
                Some(
                    from_metadata(Node::Value(NodeValue::new(enum_values[0].clone())), &s.metadata),
                )
            } else {
                let mut nodes: Vec<NodeContainer> = Vec::new();
                let mut i: usize = 0;
                while i < enum_values.len()
                    invariant
                        i <= enum_values.len(),
                        nodes.len() == i,
                        forall|j: int|
                            0 <= j < i ==> (#[trigger] nodes@[j])@ == with_metadata(
                                plain(NodeV::Value(enum_values@[j]@)),
                                s.metadata,
                            ),
                    decreases enum_values.len() - i,
                {
                    nodes.push(
                        from_metadata(
                            Node::Value(NodeValue::new(enum_values[i].clone())),
                            &s.metadata,
                        ),
                    );
                    i += 1;
                }
                assert(containers_model(nodes@) =~= Seq::new(
                    enum_values@.len(),
                    |i: int| with_metadata(plain(NodeV::Value(enum_values@[i]@)), s.metadata),
                ));
                Some(from_metadata(Node::Enum(NodeEnum::new(nodes)), &s.metadata))
            }
        },
        None => None,
    }
}

/// The node that a schema describes.
fn schema_to_node(def: &Vec<(String, Schema)>, schema: &Schema, depth: usize) -> (r: Result<
    NodeContainer,
    SchemaError,
>)
    ensures
        match r {
            Ok(c) => compile_schema(def@, *schema, depth as nat) == Ok::<ContainerV, SchemaError>(
                c@,
            ),
            Err(e) => compile_schema(def@, *schema, depth as nat) == Err::<
                ContainerV,
                SchemaError,
            >(e),
        },
    decreases depth, schema, 1nat,
{
    match schema {
        Schema::Bool(_) => Ok(NodeContainer::from_node(Node::Any)),
        Schema::Object(o) => schema_object_to_node(def, o, depth),
    }
}

/// The nodes that the schemas of a list describe.
#[verifier::loop_isolation(false)]
fn list_to_nodes(def: &Vec<(String, Schema)>, list: &Vec<Schema>, depth: usize) -> (r: Result<
    Vec<NodeContainer>,
    SchemaError,
>)
    ensures
        match r {
            Ok(cs) => compile_list(def@, list@, depth as nat, 0, Seq::empty()) == Ok::<
                Seq<ContainerV>,
                SchemaError,
            >(containers_model(cs@)),
            Err(e) => compile_list(def@, list@, depth as nat, 0, Seq::empty()) == Err::<
                Seq<ContainerV>,
                SchemaError,
            >(e),
        },
    decreases depth, list, 0nat,
{
    let mut nodes: Vec<NodeContainer> = Vec::new();
    assert(containers_model(nodes@) =~= Seq::empty());
    let mut i: usize = 0;
    while i < list.len()
        invariant
            i <= list.len(),
            compile_list(def@, list@, depth as nat, i as int, containers_model(nodes@))
                == compile_list(def@, list@, depth as nat, 0, Seq::empty()),
        decreases list.len() - i,
    {
        let ghost before = containers_model(nodes@);
        match schema_to_node(def, &list[i], depth) {
            Ok(c) => {
                nodes.push(c);
                assert(containers_model(nodes@) =~= before.push(c@));
            },
            Err(e) => {
                return Err(e);
            },
        }
        i += 1;
    }
    Ok(nodes)
}

/// What the object part of a schema gives.
#[verifier::loop_isolation(false)]
fn object_node(def: &Vec<(String, Schema)>, s: &SchemaObject, depth: usize) -> (r: Result<
    Option<NodeContainer>,
    SchemaError,
>)
    ensures
        match r {
            Ok(Some(c)) => object_part(def@, *s, depth as nat) == Ok::<
                Option<ContainerV>,
                SchemaError,
            >(Some(c@)),
            Ok(None) => object_part(def@, *s, depth as nat) == Ok::<
                Option<ContainerV>,
                SchemaError,
            >(None),
            Err(e) => object_part(def@, *s, depth as nat) == Err::<
                Option<ContainerV>,
                SchemaError,
            >(e),
        },
    decreases depth, s, 0nat,
{
    match &s.object {
        Some(obj) => {
            let props = &obj.properties;
            let mut out = NodeObject::empty(None);
            assert(out@.nodes =~= Seq::empty());
            let mut i: usize = 0;
            while i < props.len()
                invariant
                    i <= props.len(),
                    out@.template is None,
                    compile_properties(def@, props@, depth as nat, i as int, out@.nodes)
                        == compile_properties(def@, props@, depth as nat, 0, Seq::empty()),
                decreases props.len() - i,
            {
                match schema_to_node(def, &props[i].1, depth) {
                    Ok(node) => {
                        out = out.with_entry(props[i].0.clone(), node);
                    },
                    Err(e) => {
                        return Err(e);
                    },
                }
                i += 1;
            }
            if props.len() == 0 {
                match &obj.additional_properties {
                    Some(additional_properties) => {
                        match schema_to_node(def, additional_properties, depth) {
                            Ok(t) => {
                                out = out.with_template(Some(t));
                            },
                            Err(e) => {
                                return Err(e);
                            },
                        }
                    },
                    None => {},
                }
            }
            Ok(Some(NodeContainer::from_node(Node::Object(out))))
        },
        None => Ok(None),
    }
}

/// What the array part of a schema gives.
fn array_node(def: &Vec<(String, Schema)>, s: &SchemaObject, depth: usize) -> (r: Result<
    Option<NodeContainer>,
    SchemaError,
>)
    ensures
        match r {
            Ok(Some(c)) => array_part(def@, *s, depth as nat) == Ok::<
                Option<ContainerV>,
                SchemaError,
            >(Some(c@)),
            Ok(None) => array_part(def@, *s, depth as nat) == Ok::<
                Option<ContainerV>,
                SchemaError,
            >(None),
            Err(e) => array_part(def@, *s, depth as nat) == Err::<
                Option<ContainerV>,
                SchemaError,
            >(e),
        },
    decreases depth, s, 0nat,
{
    match &s.array {
        Some(array) => {
            let template = match &array.items {
                Some(Items::Single(schema)) => match schema_to_node(def, schema, depth) {
                    Ok(node) => NodeArrayTemplate::All(Box::new(node)),
                    Err(e) => {
                        return Err(e);
                    },
                },
                Some(Items::Vec(vec)) => match list_to_nodes(def, vec, depth) {
                    Ok(nodes) => NodeArrayTemplate::FirstN(nodes),
                    Err(e) => {
                        return Err(e);
                    },
                },
                None => NodeArrayTemplate::All(Box::new(NodeContainer::from_node(Node::Any))),
            };
            Ok(
                Some(
                    from_metadata(
                        Node::Array(
                            NodeArray {
                                values: None,
                                template,
                                min: array.min_items,
                                max: array.max_items,
                            },
                        ),
                        &s.metadata,
                    ),
                ),
            )
        },
        None => Ok(None),
    }
}

/// What an `allOf` gives.
fn all_of_node(def: &Vec<(String, Schema)>, s: &SchemaObject, depth: usize) -> (r: Result<
    Option<NodeContainer>,
    SchemaError,
>)
    ensures
        match r {
            Ok(Some(c)) => all_of_part(def@, *s, depth as nat) == Ok::<
                Option<ContainerV>,
                SchemaError,
            >(Some(c@)),
            Ok(None) => all_of_part(def@, *s, depth as nat) == Ok::<
                Option<ContainerV>,
                SchemaError,
            >(None),
            Err(e) => all_of_part(def@, *s, depth as nat) == Err::<
                Option<ContainerV>,
                SchemaError,
            >(e),
        },
    decreases depth, s, 0nat,
{
    match &s.subschemas {
        Some(subschemas) => match &subschemas.all_of {
            Some(all_of) => match list_to_nodes(def, all_of, depth) {
                Ok(nodes) => {
                    let mut nodes = nodes;
                    assert(containers_model(nodes@).len() == nodes@.len());
                    if nodes.len() == 1 {
                        assert(containers_model(nodes@)[0] == nodes@[0]@);
                        let node = nodes.remove(0);
                        Ok(Some(node.metadata(&s.metadata)))
                    } else {
                        Err(SchemaError::UnsupportedAllOf)
                    }
                },
                Err(e) => Err(e),
            },
            None => Ok(None),
        },
        None => Ok(None),
    }
}

/// What a `oneOf` or an `anyOf` gives.
fn choice_node(
    def: &Vec<(String, Schema)>,
    s: &SchemaObject,
    list: &Option<Vec<Schema>>,
    depth: usize,
) -> (r: Result<Option<NodeContainer>, SchemaError>)
    ensures
        match r {
            Ok(Some(c)) => choice_part(def@, *s, *list, depth as nat) == Ok::<
                Option<ContainerV>,
                SchemaError,
            >(Some(c@)),
            Ok(None) => choice_part(def@, *s, *list, depth as nat) == Ok::<
                Option<ContainerV>,
                SchemaError,
            >(None),
            Err(e) => choice_part(def@, *s, *list, depth as nat) == Err::<
                Option<ContainerV>,
                SchemaError,
            >(e),
        },
    decreases depth, list, 0nat,
{
    match list {
        Some(l) => match list_to_nodes(def, l, depth) {
            Ok(nodes) => Ok(Some(from_metadata(Node::Enum(NodeEnum::new(nodes)), &s.metadata))),
            Err(e) => Err(e),
        },
        None => Ok(None),
    }
}

/// The position of the definition with a name.
fn find_definition(def: &Vec<(String, Schema)>, name: &str) -> (r: Option<usize>)
    ensures
        match r {
            Some(i) => key_index(named(def@), name@) == Some(i as int) && i < def.len(),
            None => key_index(named(def@), name@) is None,
        },
{
    let mut i: usize = 0;
    while i < def.len()
        invariant
            i <= def.len(),
            forall|j: int| 0 <= j < i ==> (#[trigger] named(def@)[j]).0 != name@,
        decreases def.len() - i,
    {
        if str_eq(def[i].0.as_str(), name) {
            proof {
                lemma_key_index_is(named(def@), name@, i as int);
            }
            return Some(i);
        }
        i += 1;
    }
    proof {
        lemma_key_index_none(named(def@), name@);
    }
    None
}

/// What a reference gives.
fn reference_node(def: &Vec<(String, Schema)>, s: &SchemaObject, depth: usize) -> (r: Result<
    Option<NodeContainer>,
    SchemaError,
>)
    ensures
        match r {
            Ok(Some(c)) => reference_part(def@, *s, depth as nat) == Ok::<
                Option<ContainerV>,
                SchemaError,
            >(Some(c@)),
            Ok(None) => reference_part(def@, *s, depth as nat) == Ok::<
                Option<ContainerV>,
                SchemaError,
            >(None),
            Err(e) => reference_part(def@, *s, depth as nat) == Err::<
                Option<ContainerV>,
                SchemaError,
            >(e),
        },
    decreases depth, s, 0nat,
{
    match &s.reference {
        Some(definition) => match strip_prefix(definition.as_str(), "#/definitions/") {
            Some(name) => match find_definition(def, name) {
                Some(i) => {
                    if depth == 0 {
                        Err(SchemaError::ReferenceTooDeep)
                    } else {
                        match schema_to_node(def, &def[i].1, depth - 1) {
                            Ok(c) => Ok(Some(c)),
                            Err(e) => Err(e),
                        }
                    }
                },
                None => Err(SchemaError::MissingDefinition),
            },
            None => Ok(None),
        },
        None => Ok(None),
    }
}

/// One more part of a schema merged into what the parts before it gave.
fn merge_part(acc: Result<NodeContainer, SchemaError>, part: Result<
    Option<NodeContainer>,
    SchemaError,
>) -> (r: Result<NodeContainer, SchemaError>)
    ensures
        result_model(r) == merged(result_model(acc), part_model(part)),
{
    match acc {
        Err(e) => Err(e),
        Ok(a) => match part {
            Err(e) => Err(e),
            Ok(None) => Ok(a),
            Ok(Some(p)) => match a.merge(&p) {
                Some(m) => Ok(m),
                None => Err(SchemaError::Unmergeable),
            },
        },
    }
}

/// What the result of compiling is.
pub open spec fn result_model(r: Result<NodeContainer, SchemaError>) -> Result<
    ContainerV,
    SchemaError,
> {
    match r {
        Ok(c) => Ok(c@),
        Err(e) => Err(e),
    }
}

/// What the result of compiling a part is.
pub open spec fn part_model(r: Result<Option<NodeContainer>, SchemaError>) -> Result<
    Option<ContainerV>,
    SchemaError,
> {
    match r {
        Ok(Some(c)) => Ok(Some(c@)),
        Ok(None) => Ok(None),
        Err(e) => Err(e),
    }
}

/// The node that a schema describes, where references are followed one
/// from within the other at most `depth` times.
pub fn schema_object_to_node(
    def: &Vec<(String, Schema)>,
    schema_object: &SchemaObject,
    depth: usize,
) -> (r: Result<NodeContainer, SchemaError>)
    ensures
        result_model(r) == compile(def@, *schema_object, depth as nat),
        r matches Ok(c) ==> well_formed(c@) && !c@.removable,
    decreases depth, schema_object, 1nat,
{
    proof {
        lemma_compile_fresh(def@, *schema_object, depth as nat);
    }
    let ghost defs = def@;
    let ghost s = *schema_object;
    let ghost fuel = depth as nat;
    let ghost r1 = merged(Ok(plain(NodeV::Any)), Ok(type_part(s)));
    let ghost r2 = merged(r1, object_part(defs, s, fuel));
    let ghost r3 = merged(r2, Ok(enum_part(s)));
    let ghost r4 = merged(r3, array_part(defs, s, fuel));
    let ghost r5 = merged(r4, all_of_part(defs, s, fuel));
    let ghost r6 = merged(
        r5,
        match s.subschemas {
            Some(sub) => choice_part(defs, s, sub.one_of, fuel),
            None => Ok(None),
        },
    );
    let ghost r7 = merged(
        r6,
        match s.subschemas {
            Some(sub) => choice_part(defs, s, sub.any_of, fuel),
            None => Ok(None),
        },
    );
    let ghost r8 = merged(r7, reference_part(defs, s, fuel));
    assert(compile(defs, s, fuel) == match r8 {
        Ok(c) => Ok::<ContainerV, SchemaError>(
            if s.metadata is Some {
                with_metadata(c, s.metadata)
            } else {
                c
            },
        ),
        Err(e) => Err(e),
    });
    let res = merge_part(Ok(NodeContainer::from_node(Node::Any)), Ok(type_node(schema_object)));
    assert(result_model(res) == r1);
    if res.is_err() {
        return res;
    }
    let res = merge_part(res, object_node(def, schema_object, depth));
    assert(result_model(res) == r2);
    if res.is_err() {
        return res;
    }
    let res = merge_part(res, Ok(enum_node(schema_object)));
    assert(result_model(res) == r3);
    if res.is_err() {
        return res;
    }
    let res = merge_part(res, array_node(def, schema_object, depth));
    assert(result_model(res) == r4);
    if res.is_err() {
        return res;
    }
    let res = merge_part(res, all_of_node(def, schema_object, depth));
    assert(result_model(res) == r5);
    if res.is_err() {
        return res;
    }
    let res = match &schema_object.subschemas {
        Some(sub) => merge_part(res, choice_node(def, schema_object, &sub.one_of, depth)),
        None => res,
    };
    assert(result_model(res) == r6);
    if res.is_err() {
        return res;
    }
    let res = match &schema_object.subschemas {
        Some(sub) => merge_part(res, choice_node(def, schema_object, &sub.any_of, depth)),
        None => res,
    };
    assert(result_model(res) == r7);
    if res.is_err() {
        return res;
    }
    let res = merge_part(res, reference_node(def, schema_object, depth));
    assert(result_model(res) == r8);
    match res {
        Ok(c) => Ok(
            if schema_object.metadata.is_some() {
                c.metadata(&schema_object.metadata)
            } else {
                c
            },
        ),
        Err(e) => Err(e),
    }
}

impl NodeContainer {
    /// The tree that a schema document describes.
    pub fn from_json_schema(schema: &RootSchema) -> (r: Result<Self, SchemaError>)
        ensures
            result_model(r) == compile(
                schema.definitions@,
                schema.schema,
                MAX_REFERENCE_DEPTH as nat,
            ),
            r matches Ok(c) ==> well_formed(c@) && !c@.removable,
    {
        schema_object_to_node(&schema.definitions, &schema.schema, MAX_REFERENCE_DEPTH)
    }
}

} // verus!
