//! The node tree: one container at every position, around a payload
//! whose shape the schema decided.
use vstd::prelude::*;
use indexmap::IndexSet;
use crate::json::{Json, JsonV};
use crate::keys::{
    keys_clone,
    keys_get_index,
    keys_index_of,
    keys_insert,
    keys_new,
    keys_of,
    keys_shift_remove,
    keys_swap_remove,
    swap_removed,
};
use crate::number::{NumV, NumberValue, NumberValueLight};
use crate::text::{copy_opt_text, opt_text};
use crate::value::{key_index, lemma_key_index, value_well_formed, Value, ValueV};

pub mod apply;
pub mod data_path;
pub mod from_json_schema;
pub mod provider;

verus! {

/// A node of the tree with what every node carries besides its payload.
#[derive(Debug)]
pub struct NodeContainer {
    pub node: Node,
    /// The default value that the schema gave.
    pub default: Option<Value>,
    pub title: Option<String>,
    pub desc: Option<String>,
    /// A modified node is written out.
    pub modified: bool,
    /// True for a node that was made from a template, as the entries of a
    /// map and the items of a list are: such a node may be removed.
    pub removable: bool,
}

/// The payload of a node.
#[derive(Debug)]
pub enum Node {
    Null,
    Bool(NodeBool),
    String(NodeString),
    Number(NodeNumber),
    Object(NodeObject),
    Enum(NodeEnum),
    Array(NodeArray),
    /// A constant that the schema pins.
    Value(NodeValue),
    Any,
}

/// A list of nodes without names.
#[derive(Debug)]
pub struct UnNamedObject {
    pub values: Vec<NodeContainer>,
}

/// A boolean; without a value until one is bound.
#[derive(Debug)]
pub struct NodeBool {
    pub value: Option<bool>,
}

/// A string; without a value until one is bound.
#[derive(Debug)]
pub struct NodeString {
    pub value: Option<String>,
}

/// A number of a kind that the schema fixes.
#[derive(Debug)]
pub struct NodeNumber {
    pub kind: NumberValueLight,
    pub value: Option<NumberValue>,
    /// The text as it was last entered or shown; it may write no number.
    pub value_string: String,
}

/// A constant that the schema pins: it is matched against values, and
/// never edited.
#[derive(Debug)]
pub struct NodeValue {
    pub value: Json,
}

/// A choice among variants. Every variant stays as it is while another
/// one is chosen.
#[derive(Debug)]
pub struct NodeEnum {
    /// The position of the chosen variant.
    pub value: Option<usize>,
    pub nodes: Vec<NodeContainer>,
}

/// An object: named children in the order they were added, and the
/// template of further children where the schema allows them.
#[derive(Debug)]
pub struct NodeObject {
    pub(crate) keys: IndexSet<String>,
    pub(crate) nodes: Vec<NodeContainer>,
    pub(crate) template: Option<Box<NodeContainer>>,
}

/// The shapes of the items of an array.
#[derive(Debug)]
pub enum NodeArrayTemplate {
    /// Every item has this shape.
    All(Box<NodeContainer>),
    /// The item at each position has a shape of its own.
    FirstN(Vec<NodeContainer>),
}

/// An array; without items until a list is bound.
#[derive(Debug)]
pub struct NodeArray {
    pub values: Option<Vec<NodeContainer>>,
    pub template: NodeArrayTemplate,
    pub min: Option<u32>,
    pub max: Option<u32>,
}

/// What a container is.
pub ghost struct ContainerV {
    pub node: NodeV,
    pub default: Option<ValueV>,
    pub title: Option<Seq<char>>,
    pub desc: Option<Seq<char>>,
    pub modified: bool,
    pub removable: bool,
}

/// What a payload is.
pub ghost enum NodeV {
    Null,
    Bool(Option<bool>),
    String(Option<Seq<char>>),
    Number(NumberV),
    Object(ObjectV),
    Enum(EnumV),
    Array(ArrayV),
    Value(JsonV),
    Any,
}

pub ghost struct NumberV {
    pub kind: NumberValueLight,
    pub value: Option<NumV>,
    pub value_string: Seq<char>,
}

pub ghost struct ObjectV {
    pub nodes: Seq<(Seq<char>, ContainerV)>,
    pub template: Option<Box<ContainerV>>,
}

pub ghost struct EnumV {
    /// The position of the chosen variant.
    pub value: Option<int>,
    pub nodes: Seq<ContainerV>,
}

pub ghost enum TemplateV {
    All(Box<ContainerV>),
    FirstN(Seq<ContainerV>),
}

pub ghost struct ArrayV {
    pub values: Option<Seq<ContainerV>>,
    pub template: TemplateV,
    pub min: Option<u32>,
    pub max: Option<u32>,
}

/// What a container is.
pub open spec fn container_model(c: NodeContainer) -> ContainerV
    decreases c,
{
    ContainerV {
        node: node_model(c.node),
        default: match c.default {
            Some(v) => Some(v@),
            None => None,
        },
        title: opt_text(c.title),
        desc: opt_text(c.desc),
        modified: c.modified,
        removable: c.removable,
    }
}

/// What a payload is.
pub open spec fn node_model(n: Node) -> NodeV
    decreases n,
{
    match n {
        Node::Null => NodeV::Null,
        Node::Bool(b) => NodeV::Bool(b.value),
        Node::String(s) => NodeV::String(opt_text(s.value)),
        Node::Number(n) => NodeV::Number(n@),
        Node::Object(o) => NodeV::Object(object_model(o)),
        Node::Enum(e) => NodeV::Enum(
            EnumV {
                value: match e.value {
                    Some(p) => Some(p as int),
                    None => None,
                },
                nodes: containers_model(e.nodes@),
            },
        ),
        Node::Array(a) => NodeV::Array(
            ArrayV {
                values: match a.values {
                    Some(v) => Some(containers_model(v@)),
                    None => None,
                },
                template: match a.template {
                    NodeArrayTemplate::All(t) => TemplateV::All(Box::new(container_model(*t))),
                    NodeArrayTemplate::FirstN(v) => TemplateV::FirstN(containers_model(v@)),
                },
                min: a.min,
                max: a.max,
            },
        ),
        Node::Value(v) => NodeV::Value(v.value@),
        Node::Any => NodeV::Any,
    }
}

/// What a list of containers is.
pub open spec fn containers_model(s: Seq<NodeContainer>) -> Seq<ContainerV>
    decreases s,
{
    Seq::new(
        s.len(),
        |i: int|
            if 0 <= i < s.len() {
                container_model(s[i])
            } else {
                arbitrary()
            },
    )
}

/// What an object is: each child with its key, and the template.
pub closed spec fn object_model(o: NodeObject) -> ObjectV
    decreases o,
{
    ObjectV {
        nodes: Seq::new(
            o.nodes@.len(),
            |i: int|
                if 0 <= i < o.nodes@.len() {
                    (keys_of(o.keys)[i], container_model(o.nodes@[i]))
                } else {
                    arbitrary()
                },
        ),
        template: match o.template {
            Some(t) => Some(Box::new(container_model(*t))),
            None => None,
        },
    }
}

impl View for NodeContainer {
    type V = ContainerV;

    open spec fn view(&self) -> ContainerV {
        container_model(*self)
    }
}

impl View for Node {
    type V = NodeV;

    open spec fn view(&self) -> NodeV {
        node_model(*self)
    }
}

impl View for NodeObject {
    type V = ObjectV;

    open spec fn view(&self) -> ObjectV {
        object_model(*self)
    }
}

impl View for NodeNumber {
    type V = NumberV;

    open spec fn view(&self) -> NumberV {
        NumberV {
            kind: self.kind,
            value: match self.value {
                Some(v) => Some(v@),
                None => None,
            },
            value_string: self.value_string@,
        }
    }
}

/// True where no key occurs twice.
pub open spec fn keys_unique<A>(m: Seq<(Seq<char>, A)>) -> bool {
    forall|i: int, j: int|
        0 <= i < m.len() && 0 <= j < m.len() && i != j ==> (#[trigger] m[i]).0 != (
        #[trigger] m[j]).0
}

/// The containers with the one at `key` replaced by `c`, or with `c` added
/// at the end under `key` where no entry has that key.
pub open spec fn entries_put(
    m: Seq<(Seq<char>, ContainerV)>,
    key: Seq<char>,
    c: ContainerV,
) -> Seq<(Seq<char>, ContainerV)> {
    match key_index(m, key) {
        Some(i) => m.update(i, (key, c)),
        None => m.push((key, c)),
    }
}

impl NodeContainer {
    /// A copy of the container around another payload.
    pub fn with_node(&self, node: Node) -> (r: Self)
        ensures
            r@ == (ContainerV { node: node@, ..self@ }),
    {
        NodeContainer {
            node,
            default: match &self.default {
                Some(v) => Some(v.clone()),
                None => None,
            },
            title: copy_opt_text(&self.title),
            desc: copy_opt_text(&self.desc),
            modified: self.modified,
            removable: self.removable,
        }
    }

    /// A container around a payload, with nothing else set.
    pub fn from_node(node: Node) -> (r: Self)
        ensures
            r@ == (ContainerV {
                node: node@,
                default: None,
                title: None,
                desc: None,
                modified: false,
                removable: false,
            }),
    {
        Self { node, default: None, title: None, desc: None, modified: false, removable: false }
    }
}

impl UnNamedObject {
    /// A list of the given nodes.
    pub fn new(values: Vec<NodeContainer>) -> (r: Self)
        ensures
            r.values == values,
    {
        Self { values }
    }
}

impl NodeBool {
    /// A boolean that has no value yet.
    pub fn new() -> (r: Self)
        ensures
            r.value is None,
    {
        Self { value: None }
    }
}

impl NodeString {
    /// A string that has no value yet.
    pub fn new() -> (r: Self)
        ensures
            r.value is None,
    {
        Self { value: None }
    }
}

impl NodeValue {
    /// The constant `value`.
    pub fn new(value: Json) -> (r: Self)
        ensures
            r.value == value,
    {
        Self { value }
    }
}

impl NodeEnum {
    /// A choice among `nodes`, with nothing chosen yet.
    pub fn new(nodes: Vec<NodeContainer>) -> (r: Self)
        ensures
            r.value is None,
            r.nodes == nodes,
    {
        Self { value: None, nodes }
    }
}

impl Clone for NodeContainer {
    fn clone(&self) -> (r: Self)
        ensures
            r@ == self@,
        decreases self,
    {
        NodeContainer {
            node: self.node.clone(),
            default: match &self.default {
                Some(v) => Some(v.clone()),
                None => None,
            },
            title: copy_opt_text(&self.title),
            desc: copy_opt_text(&self.desc),
            modified: self.modified,
            removable: self.removable,
        }
    }
}

/// A copy of each container of a list.
#[verifier::loop_isolation(false)]
pub fn clone_nodes(v: &Vec<NodeContainer>) -> (r: Vec<NodeContainer>)
    ensures
        containers_model(r@) == containers_model(v@),
    decreases v,
{
    let mut out: Vec<NodeContainer> = Vec::new();
    let mut i: usize = 0;
    while i < v.len()
        invariant
            i <= v.len(),
            out.len() == i,
            forall|j: int| 0 <= j < i ==> (#[trigger] out@[j])@ == v@[j]@,
        decreases v.len() - i,
    {
        let c = v[i].clone();
        out.push(c);
        i += 1;
    }
    assert(containers_model(out@) =~= containers_model(v@));
    out
}

impl Clone for Node {
    fn clone(&self) -> (r: Self)
        ensures
            r@ == self@,
        decreases self,
    {
        match self {
            Node::Null => Node::Null,
            Node::Bool(b) => Node::Bool(NodeBool { value: b.value }),
            Node::String(s) => Node::String(NodeString { value: copy_opt_text(&s.value) }),
            Node::Number(n) => Node::Number(
                NodeNumber {
                    kind: n.kind,
                    value: match &n.value {
                        Some(v) => Some(v.clone()),
                        None => None,
                    },
                    value_string: n.value_string.clone(),
                },
            ),
            Node::Object(o) => Node::Object(o.clone()),
            Node::Enum(e) => Node::Enum(NodeEnum { value: e.value, nodes: clone_nodes(&e.nodes) }),
            Node::Array(a) => Node::Array(
                NodeArray {
                    values: match &a.values {
                        Some(v) => Some(clone_nodes(v)),
                        None => None,
                    },
                    template: match &a.template {
                        NodeArrayTemplate::All(t) => NodeArrayTemplate::All(
                            Box::new((&**t).clone()),
                        ),
                        NodeArrayTemplate::FirstN(v) => NodeArrayTemplate::FirstN(clone_nodes(v)),
                    },
                    min: a.min,
                    max: a.max,
                },
            ),
            Node::Value(v) => Node::Value(NodeValue { value: v.value.clone() }),
            Node::Any => Node::Any,
        }
    }
}

impl Clone for NodeObject {
    fn clone(&self) -> (r: Self)
        ensures
            r@ == self@,
        decreases self,
    {
        proof {
            use_type_invariant(self);
        }
        let nodes = clone_nodes(&self.nodes);
        assert(containers_model(nodes@).len() == nodes@.len());
        assert(containers_model(self.nodes@).len() == self.nodes@.len());
        let r = NodeObject {
            keys: keys_clone(&self.keys),
            nodes,
            template: match &self.template {
                Some(t) => Some(Box::new((&**t).clone())),
                None => None,
            },
        };
        proof {
            assert(containers_model(r.nodes@).len() == r.nodes@.len());
            assert forall|i: int| 0 <= i < r.nodes@.len() implies container_model(r.nodes@[i])
                == container_model(self.nodes@[i]) by {
                assert(containers_model(r.nodes@)[i] == containers_model(self.nodes@)[i]);
            }
            assert(r@.nodes =~= self@.nodes);
        }
        r
    }
}

impl NodeObject {
    /// An object has as many keys as children, and no key twice.
    #[verifier::type_invariant]
    pub closed spec fn inv(self) -> bool {
        &&& keys_of(self.keys).len() == self.nodes@.len()
        &&& keys_of(self.keys).no_duplicates()
    }

    /// An object without children.
    pub fn empty(template: Option<NodeContainer>) -> (r: Self)
        ensures
            r@.nodes.len() == 0,
            r@.template == match template {
                Some(t) => Some(Box::new(t@)),
                None => None,
            },
    {
        NodeObject {
            keys: keys_new(),
            nodes: Vec::new(),
            template: match template {
                Some(t) => Some(Box::new(t)),
                None => None,
            },
        }
    }

    /// The object with another template.
    pub fn with_template(self, template: Option<NodeContainer>) -> (r: Self)
        ensures
            r@.nodes == self@.nodes,
            r@.template == match template {
                Some(t) => Some(Box::new(t@)),
                None => None,
            },
    {
        proof {
            use_type_invariant(&self);
        }
        let ghost old_model = self@;
        let NodeObject { keys, nodes, template: _ } = self;
        let r = NodeObject {
            keys,
            nodes,
            template: match template {
                Some(t) => Some(Box::new(t)),
                None => None,
            },
        };
        assert(r@.nodes =~= old_model.nodes);
        r
    }

    /// The number of children. No two children of an object have the same
    /// key.
    pub fn len(&self) -> (r: usize)
        ensures
            r == self@.nodes.len(),
            keys_unique(self@.nodes),
    {
        proof {
            use_type_invariant(self);
            let k = keys_of(self.keys);
            assert forall|i: int, j: int|
                0 <= i < self@.nodes.len() && 0 <= j < self@.nodes.len() && i != j implies (
            #[trigger] self@.nodes[i]).0 != (#[trigger] self@.nodes[j]).0 by {
                assert(k[i] != k[j]);
            }
        }
        self.nodes.len()
    }

    /// The key of the child at a position.
    pub fn key_at(&self, i: usize) -> (r: &String)
        requires
            i < self@.nodes.len(),
        ensures
            r@ == self@.nodes[i as int].0,
    {
        proof {
            use_type_invariant(self);
        }
        keys_get_index(&self.keys, i)
    }

    /// The child at a position.
    pub fn node_at(&self, i: usize) -> (r: &NodeContainer)
        requires
            i < self@.nodes.len(),
        ensures
            r@ == self@.nodes[i as int].1,
            decreases_to!(*self => *r),
    {
        &self.nodes[i]
    }

    /// The template of further children, if the object has one.
    pub fn template_ref(&self) -> (r: Option<&NodeContainer>)
        ensures
            match r {
                Some(t) => self@.template == Some(Box::new(t@)) && decreases_to!(*self => *t),
                None => self@.template is None,
            },
    {
        match &self.template {
            Some(t) => Some(&**t),
            None => None,
        }
    }

    /// The position of a key, if a child has it.
    pub fn index_of(&self, key: &str) -> (r: Option<usize>)
        ensures
            match r {
                Some(i) => key_index(self@.nodes, key@) == Some(i as int),
                None => key_index(self@.nodes, key@) is None,
            },
    {
        proof {
            use_type_invariant(self);
            lemma_key_index(self@.nodes, key@);
        }
        let r = keys_index_of(&self.keys, key);
        proof {
            let k = keys_of(self.keys);
            match r {
                Some(i) => {
                    match key_index(self@.nodes, key@) {
                        Some(j) => {
                            assert(k[j] == key@);
                            assert(k[i as int] == key@);
                        },
                        None => {
                            assert(self@.nodes[i as int].0 == key@);
                        },
                    }
                },
                None => {
                    match key_index(self@.nodes, key@) {
                        Some(j) => {
                            assert(k[j] == key@);
                            assert(k.contains(key@));
                        },
                        None => {},
                    }
                },
            }
        }
        r
    }

    /// True where a child has the key.
    pub fn contains_key(&self, key: &str) -> (r: bool)
        ensures
            r == key_index(self@.nodes, key@) is Some,
    {
        self.index_of(key).is_some()
    }

    /// The child under a key, if there is one.
    pub fn get(&self, key: &str) -> (r: Option<&NodeContainer>)
        ensures
            match r {
                Some(c) => key_index(self@.nodes, key@) matches Some(i) && self@.nodes[i].1 == c@
                    && decreases_to!(*self => *c),
                None => key_index(self@.nodes, key@) is None,
            },
    {
        match self.index_of(key) {
            Some(i) => {
                proof {
                    lemma_key_index(self@.nodes, key@);
                }
                Some(self.node_at(i))
            },
            None => None,
        }
    }
}

/// The entries with every container marked modified.
pub open spec fn entries_all_modified(m: Seq<(Seq<char>, ContainerV)>) -> Seq<
    (Seq<char>, ContainerV),
> {
    Seq::new(m.len(), |i: int| (m[i].0, ContainerV { modified: true, ..m[i].1 }))
}

/// The containers, every one marked modified.
pub open spec fn all_modified(s: Seq<ContainerV>) -> Seq<ContainerV> {
    Seq::new(s.len(), |i: int| ContainerV { modified: true, ..s[i] })
}

/// The entries without the one at `key`, the later ones moved forward.
pub open spec fn entries_shift_removed(m: Seq<(Seq<char>, ContainerV)>, key: Seq<char>) -> Seq<
    (Seq<char>, ContainerV),
> {
    match key_index(m, key) {
        Some(i) => m.remove(i),
        None => m,
    }
}

/// The entries without the one at `key`, the last one moved into its
/// place.
pub open spec fn entries_swap_removed(m: Seq<(Seq<char>, ContainerV)>, key: Seq<char>) -> Seq<
    (Seq<char>, ContainerV),
> {
    match key_index(m, key) {
        Some(i) => swap_removed(m, i),
        None => m,
    }
}

/// The entries that a list of named containers makes when they are put
/// into an object one after the other.
pub open spec fn entries_from(l: Seq<(Seq<char>, ContainerV)>) -> Seq<(Seq<char>, ContainerV)>
    decreases l.len(),
{
    if l.len() == 0 {
        Seq::empty()
    } else {
        entries_put(entries_from(l.drop_last()), l.last().0, l.last().1)
    }
}

/// A copy of a template as a child of its own: marked removable.
pub open spec fn as_removable(c: ContainerV) -> ContainerV {
    ContainerV { removable: true, ..c }
}

/// The container that an array makes for its item at position `n`, or at
/// the position after its last item where `n` is `None`. A shared shape
/// gives a removable copy; a list of shapes gives the shape at that
/// position, and nothing past its end.
pub open spec fn array_template(a: ArrayV, n: Option<usize>) -> Option<ContainerV> {
    match a.template {
        TemplateV::All(t) => Some(as_removable(*t)),
        TemplateV::FirstN(v) => {
            let i = match n {
                Some(n) => n as int,
                None => match a.values {
                    Some(vs) => vs.len() as int,
                    None => 0,
                },
            };
            if i < v.len() {
                Some(v[i])
            } else {
                None
            }
        },
    }
}

/// True where every node that is in use has a value: a scalar has one, an
/// object's children are all valid, an enum has chosen a variant that is
/// valid, an array has items that are all valid. A null, a constant and a
/// wildcard are always valid.
pub open spec fn valid(c: ContainerV) -> bool
    decreases c,
{
    match c.node {
        NodeV::Null => true,
        NodeV::Bool(v) => v is Some,
        NodeV::String(v) => v is Some,
        NodeV::Number(n) => n.value is Some,
        NodeV::Object(o) => forall|i: int|
            0 <= i < o.nodes.len() ==> valid((#[trigger] o.nodes[i]).1),
        NodeV::Enum(e) => match e.value {
            Some(p) => 0 <= p < e.nodes.len() && valid(e.nodes[p]),
            None => false,
        },
        NodeV::Array(a) => match a.values {
            Some(vs) => forall|i: int| 0 <= i < vs.len() ==> valid(#[trigger] vs[i]),
            None => false,
        },
        NodeV::Value(_) => true,
        NodeV::Any => true,
    }
}

/// The name that a node shows for itself, where it has one.
pub open spec fn node_name(n: NodeV) -> Option<Seq<char>> {
    match n {
        NodeV::Null => Some("Null"@),
        NodeV::Value(JsonV::String(s)) => Some(s),
        NodeV::Any => Some("Any"@),
        _ => None,
    }
}

impl NodeObject {
    /// The object with `node` under `key`: in place of the child that had
    /// the key, or else as a new last child.
    pub fn with_entry(self, key: String, node: NodeContainer) -> (r: Self)
        ensures
            r@.nodes == entries_put(self@.nodes, key@, node@),
            r@.template == self@.template,
    {
        proof {
            use_type_invariant(&self);
        }
        let found = self.index_of(key.as_str());
        let ghost old_model = self@;
        let NodeObject { keys, nodes, template } = self;
        let mut keys = keys;
        let mut nodes = nodes;
        match found {
            Some(i) => {
                proof {
                    lemma_key_index(old_model.nodes, key@);
                }
                nodes.set(i, node);
            },
            None => {
                proof {
                    lemma_key_index(old_model.nodes, key@);
                    if keys_of(keys).contains(key@) {
                        let j = choose|j: int|
                            0 <= j < keys_of(keys).len() && keys_of(keys)[j] == key@;
                        assert(old_model.nodes[j].0 == key@);
                    }
                }
                let added = keys_insert(&mut keys, key);
                nodes.push(node);
            },
        }
        let r = NodeObject { keys, nodes, template };
        assert(r@.nodes =~= entries_put(old_model.nodes, key@, node@));
        r
    }

    /// An object with the given children, put in one after the other, and
    /// the given template.
    pub fn new(nodes: Vec<(String, NodeContainer)>, node_type: Option<NodeContainer>) -> (r: Self)
        ensures
            r@.nodes == entries_from(named_model(nodes@)),
            r@.template == match node_type {
                Some(t) => Some(Box::new(t@)),
                None => None,
            },
    {
        let mut out = NodeObject::empty(node_type);
        let mut rest = nodes;
        let ghost all = named_model(rest@);
        assert(out@.nodes =~= entries_from(all.subrange(0, 0)));
        assert(named_model(rest@) =~= all.subrange(0, all.len() as int));
        while rest.len() > 0
            invariant
                rest.len() <= all.len(),
                named_model(rest@) == all.subrange(all.len() - rest.len(), all.len() as int),
                out@.nodes == entries_from(all.subrange(0, all.len() - rest.len())),
                out@.template == match node_type {
                    Some(t) => Some(Box::new(t@)),
                    None => None,
                },
            decreases rest.len(),
        {
            let ghost before = named_model(rest@);
            let ghost old_rest = rest@;
            let ghost done = all.len() - rest.len();
            let e = rest.remove(0);
            assert(before[0] == (e.0@, e.1@));
            assert forall|j: int| 0 <= j < rest@.len() implies #[trigger] named_model(rest@)[j]
                == all[done + 1 + j] by {
                assert(rest@[j] == old_rest[j + 1]);
                assert(before[j + 1] == all[done + 1 + j]);
            }
            assert(named_model(rest@) =~= all.subrange(done + 1, all.len() as int));
            assert(all.subrange(0, done + 1).drop_last() =~= all.subrange(0, done));
            out = out.with_entry(e.0, e.1);
        }
        assert(all.subrange(0, all.len() as int) =~= all);
        out
    }

    /// The object with the child at a position replaced.
    pub fn with_node_at(self, i: usize, node: NodeContainer) -> (r: Self)
        requires
            i < self@.nodes.len(),
        ensures
            r@.nodes == self@.nodes.update(i as int, (self@.nodes[i as int].0, node@)),
            r@.template == self@.template,
    {
        proof {
            use_type_invariant(&self);
        }
        let ghost old_model = self@;
        let NodeObject { keys, nodes, template } = self;
        let mut nodes = nodes;
        nodes.set(i, node);
        let r = NodeObject { keys, nodes, template };
        assert(r@.nodes =~= old_model.nodes.update(i as int, (old_model.nodes[i as int].0, node@)));
        r
    }

    /// The object without the child at `key`; the children after it move
    /// one place forward.
    pub fn shift_removed(self, key: &str) -> (r: Self)
        ensures
            r@.nodes == entries_shift_removed(self@.nodes, key@),
            r@.template == self@.template,
    {
        proof {
            use_type_invariant(&self);
            lemma_key_index(self@.nodes, key@);
        }
        let ghost old_model = self@;
        let ghost old_keys = keys_of(self.keys);
        let NodeObject { keys, nodes, template } = self;
        let mut keys = keys;
        let mut nodes = nodes;
        match keys_shift_remove(&mut keys, key) {
            Some(i) => {
                proof {
                    match key_index(old_model.nodes, key@) {
                        Some(j) => {
                            assert(old_keys[j] == key@);
                        },
                        None => {
                            assert(old_model.nodes[i as int].0 == key@);
                        },
                    }
                    assert(old_keys.remove(i as int).no_duplicates());
                }
                let gone = nodes.remove(i);
            },
            None => {
                proof {
                    match key_index(old_model.nodes, key@) {
                        Some(j) => {
                            assert(old_keys[j] == key@);
                        },
                        None => {},
                    }
                }
            },
        }
        let r = NodeObject { keys, nodes, template };
        assert(r@.nodes =~= entries_shift_removed(old_model.nodes, key@));
        r
    }

    /// The object without the child at `key`; the last child takes its
    /// place.
    pub fn swap_removed(self, key: &str) -> (r: Self)
        ensures
            r@.nodes == entries_swap_removed(self@.nodes, key@),
            r@.template == self@.template,
    {
        proof {
            use_type_invariant(&self);
            lemma_key_index(self@.nodes, key@);
        }
        let ghost old_model = self@;
        let ghost old_keys = keys_of(self.keys);
        let NodeObject { keys, nodes, template } = self;
        let mut keys = keys;
        let mut nodes = nodes;
        match keys_swap_remove(&mut keys, key) {
            Some(i) => {
                proof {
                    match key_index(old_model.nodes, key@) {
                        Some(j) => {
                            assert(old_keys[j] == key@);
                        },
                        None => {
                            assert(old_model.nodes[i as int].0 == key@);
                        },
                    }
                    assert(swap_removed(old_keys, i as int).no_duplicates());
                }
                let gone = nodes.swap_remove(i);
            },
            None => {
                proof {
                    match key_index(old_model.nodes, key@) {
                        Some(j) => {
                            assert(old_keys[j] == key@);
                        },
                        None => {},
                    }
                }
            },
        }
        let r = NodeObject { keys, nodes, template };
        assert(r@.nodes =~= entries_swap_removed(old_model.nodes, key@));
        r
    }

    /// The object with every child marked modified.
    pub fn with_all_modified(self) -> (r: Self)
        ensures
            r@.nodes == entries_all_modified(self@.nodes),
            r@.template == self@.template,
    {
        proof {
            use_type_invariant(&self);
        }
        let ghost old_model = self@;
        let NodeObject { keys, nodes, template } = self;
        let ghost old_nodes = containers_model(nodes@);
        assert(old_nodes.len() == nodes@.len());
        assert(forall|i: int| 0 <= i < nodes@.len() ==> old_nodes[i] == old_model.nodes[i].1);
        let nodes = mark_all_modified(nodes);
        let r = NodeObject { keys, nodes, template };
        assert forall|i: int| 0 <= i < r.nodes@.len() implies r@.nodes[i]
            == entries_all_modified(old_model.nodes)[i] by {
            assert(containers_model(r.nodes@)[i] == all_modified(old_nodes)[i]);
        }
        assert(r@.nodes =~= entries_all_modified(old_model.nodes));
        r
    }

    /// A new child made from the template, if the object has one.
    pub fn template(&self) -> (r: Option<NodeContainer>)
        ensures
            match r {
                Some(t) => self@.template matches Some(b) && t@ == as_removable(*b),
                None => self@.template is None,
            },
    {
        match &self.template {
            Some(template) => {
                let mut template = (&**template).clone();
                template.removable = true;
                Some(template)
            },
            None => None,
        }
    }
}

/// What a list of named containers is.
pub open spec fn named_model(l: Seq<(String, NodeContainer)>) -> Seq<(Seq<char>, ContainerV)> {
    Seq::new(l.len(), |i: int| (l[i].0@, l[i].1@))
}

/// The containers, every one marked modified.
pub fn mark_all_modified(nodes: Vec<NodeContainer>) -> (r: Vec<NodeContainer>)
    ensures
        containers_model(r@) == all_modified(containers_model(nodes@)),
        r.len() == nodes.len(),
{
    let mut nodes = nodes;
    let ghost before = containers_model(nodes@);
    let mut out: Vec<NodeContainer> = Vec::new();
    let n = nodes.len();
    // Take the containers from the back, then put them back in order.
    let mut back: Vec<NodeContainer> = Vec::new();
    while nodes.len() > 0
        invariant
            nodes.len() + back.len() == n,
            forall|j: int| 0 <= j < nodes.len() ==> (#[trigger] nodes@[j])@ == before[j],
            forall|j: int|
                0 <= j < back.len() ==> (#[trigger] back@[j])@ == (ContainerV {
                    modified: true,
                    ..before[n - 1 - j]
                }),
            before.len() == n,
        decreases nodes.len(),
    {
        let mut c = nodes.pop().unwrap();
        c.modified = true;
        back.push(c);
    }
    while back.len() > 0
        invariant
            out.len() + back.len() == n,
            forall|j: int|
                0 <= j < back.len() ==> (#[trigger] back@[j])@ == (ContainerV {
                    modified: true,
                    ..before[n - 1 - j]
                }),
            forall|j: int|
                0 <= j < out.len() ==> (#[trigger] out@[j])@ == (ContainerV {
                    modified: true,
                    ..before[j]
                }),
            before.len() == n,
        decreases back.len(),
    {
        let c = back.pop().unwrap();
        out.push(c);
    }
    assert(containers_model(out@) =~= all_modified(before));
    out
}

impl NodeArray {
    /// An array of anything, without items.
    pub fn new_any() -> (r: Self)
        ensures
            r.values is None,
            r.min is None,
            r.max is None,
            (Node::Array(r))@->Array_0.template == TemplateV::All(
                Box::new(
                    ContainerV {
                        node: NodeV::Any,
                        default: None,
                        title: None,
                        desc: None,
                        modified: false,
                        removable: false,
                    },
                ),
            ),
    {
        Self {
            values: None,
            template: NodeArrayTemplate::All(Box::new(NodeContainer::from_node(Node::Any))),
            min: None,
            max: None,
        }
    }

    /// What the array is.
    pub open spec fn model(&self) -> ArrayV {
        (Node::Array(*self))@->Array_0
    }

    /// A new item for position `n`, or for the position after the last
    /// item where `n` is `None`; `None` where the array has a shape for
    /// each position and none for this one.
    pub fn try_template(&self, n: Option<usize>) -> (r: Option<NodeContainer>)
        ensures
            match r {
                Some(t) => array_template(self.model(), n) == Some(t@),
                None => array_template(self.model(), n) is None,
            },
    {
        match &self.template {
            NodeArrayTemplate::All(new_node) => {
                let mut new_node = (&**new_node).clone();
                new_node.removable = true;
                Some(new_node)
            },
            NodeArrayTemplate::FirstN(vec) => {
                let n = match n {
                    Some(n) => n,
                    None => match &self.values {
                        Some(v) => v.len(),
                        None => 0,
                    },
                };
                if n < vec.len() {
                    Some(vec[n].clone())
                } else {
                    None
                }
            },
        }
    }

    /// A new item for position `n`, or for the position after the last
    /// item where `n` is `None`.
    pub fn template(&self, n: Option<usize>) -> (r: NodeContainer)
        requires
            array_template(self.model(), n) is Some,
        ensures
            array_template(self.model(), n) == Some(r@),
    {
        self.try_template(n).unwrap()
    }
}

impl NodeEnum {
    /// The chosen position and the variant at it.
    pub fn unwrap_value(&self) -> (r: (usize, &NodeContainer))
        requires
            self.value matches Some(pos) && pos < self.nodes.len(),
        ensures
            self.value == Some(r.0),
            *r.1 == self.nodes@[r.0 as int],
    {
        let pos = match self.value {
            Some(pos) => pos,
            None => 0,
        };
        (pos, &self.nodes[pos])
    }
}

impl NodeContainer {
    /// True where every node that is in use has a value.
    #[verifier::loop_isolation(false)]
    pub fn is_valid(&self) -> (r: bool)
        ensures
            r == valid(self@),
        decreases self,
    {
        match &self.node {
            Node::Null => true,
            Node::Bool(node_bool) => node_bool.value.is_some(),
            Node::String(node_string) => node_string.value.is_some(),
            Node::Number(node_number) => node_number.value.is_some(),
            Node::Object(node_object) => {
                let n = node_object.len();
                let mut i: usize = 0;
                while i < n
                    invariant
                        i <= n,
                        forall|j: int| 0 <= j < i ==> valid((#[trigger] node_object@.nodes[j]).1),
                    decreases n - i,
                {
                    if !node_object.node_at(i).is_valid() {
                        assert(!valid(node_object@.nodes[i as int].1));
                        return false;
                    }
                    i += 1;
                }
                true
            },
            Node::Enum(node_enum) => match node_enum.value {
                Some(pos) => {
                    assert(containers_model(node_enum.nodes@).len() == node_enum.nodes@.len());
                    if pos < node_enum.nodes.len() {
                        assert(containers_model(node_enum.nodes@)[pos as int]
                            == node_enum.nodes@[pos as int]@);
                        node_enum.nodes[pos].is_valid()
                    } else {
                        false
                    }
                },
                None => false,
            },
            Node::Array(node_array) => match &node_array.values {
                Some(values) => {
                    let ghost vs = self@.node->Array_0.values->0;
                    assert(vs == containers_model(values@));
                    let mut i: usize = 0;
                    while i < values.len()
                        invariant
                            i <= values.len(),
                            vs.len() == values.len(),
                            forall|j: int| 0 <= j < i ==> valid(#[trigger] vs[j]),
                        decreases values.len() - i,
                    {
                        assert(vs[i as int] == values@[i as int]@);
                        if !values[i].is_valid() {
                            return false;
                        }
                        i += 1;
                    }
                    true
                },
                None => false,
            },
            Node::Value(_) => true,
            Node::Any => true,
        }
    }

    /// The name that the node shows for itself, where it has one.
    pub fn name(&self) -> (r: Option<String>)
        ensures
            opt_text(r) == node_name(self@.node),
    {
        match &self.node {
            Node::Null => Some("Null".to_owned()),
            Node::Value(node_value) => match node_value.value.as_str() {
                Some(s) => Some(s.to_owned()),
                None => None,
            },
            Node::Any => Some("Any".to_owned()),
            _ => None,
        }
    }
}

/// True where a tree is as the library makes trees: no two children of
/// an object have the same key; only an object with a template has
/// removable children; and the dictionaries of the defaults are in
/// order.
pub open spec fn well_formed(c: ContainerV) -> bool
    decreases c,
{
    &&& match c.default {
        Some(d) => value_well_formed(d),
        None => true,
    }
    &&& match c.node {
        NodeV::Object(o) => {
            &&& keys_unique(o.nodes)
            &&& forall|i: int|
                0 <= i < o.nodes.len() ==> well_formed((#[trigger] o.nodes[i]).1) && (
                o.nodes[i].1.removable ==> o.template is Some)
            &&& match o.template {
                Some(t) => well_formed(*t),
                None => true,
            }
        },
        NodeV::Enum(e) => forall|i: int| 0 <= i < e.nodes.len() ==> well_formed(#[trigger] e.nodes[i]),
        NodeV::Array(a) => {
            &&& match a.values {
                Some(vs) => forall|i: int| 0 <= i < vs.len() ==> well_formed(#[trigger] vs[i]),
                None => true,
            }
            &&& match a.template {
                TemplateV::All(t) => well_formed(*t),
                TemplateV::FirstN(shapes) => forall|i: int|
                    0 <= i < shapes.len() ==> well_formed(#[trigger] shapes[i]),
            }
        },
        _ => true,
    }
}

} // verus!
