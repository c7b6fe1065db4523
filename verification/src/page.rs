//! A page: one tree with the breadcrumb of its view, and the edits that
//! a view asks for.
use vstd::prelude::*;
use crate::node::apply::{bind, cleared, ApplyError};
use crate::node::data_path::{
    marked,
    next_pos,
    node_at,
    opened,
    path_model,
    replaced_at,
    resolved_len,
    sanitized_pos,
    DataPath,
    DataPathType,
    StepV,
};
use crate::node::provider::project;
use crate::node::{
    all_modified,
    array_template,
    as_removable,
    clone_nodes,
    containers_model,
    entries_all_modified,
    entries_put,
    entries_shift_removed,
    entries_swap_removed,
    mark_all_modified,
    valid,
    well_formed,
    ArrayV,
    ContainerV,
    EnumV,
    Node,
    NodeArray,
    NodeArrayTemplate,
    NodeBool,
    NodeContainer,
    NodeEnum,
    NodeNumber,
    NodeString,
    NodeV,
    NumberV,
    ObjectV,
};
use crate::number::{parse_number, parsed_number};
use crate::value::{key_index, Dict, Value, ValueV};

verus! {

/// An edit of the node that a path leads to.
#[derive(Debug)]
pub enum ChangeMsg {
    ApplyDefault,
    ChangeBool(bool),
    ChangeString(String),
    ChangeNumber(String),
    ChangeEnum(usize),
    Remove(DataPathType),
    AddNewNodeToObject(String),
    AddNewNodeToArray,
    RenameKey { prev: String, new: String },
}

/// What an edit is.
pub ghost enum ChangeV {
    ApplyDefault,
    ChangeBool(bool),
    ChangeString(Seq<char>),
    ChangeNumber(Seq<char>),
    ChangeEnum(usize),
    Remove(StepV),
    AddNewNodeToObject(Seq<char>),
    AddNewNodeToArray,
    RenameKey { prev: Seq<char>, new: Seq<char> },
}

impl View for ChangeMsg {
    type V = ChangeV;

    open spec fn view(&self) -> ChangeV {
        match self {
            ChangeMsg::ApplyDefault => ChangeV::ApplyDefault,
            ChangeMsg::ChangeBool(b) => ChangeV::ChangeBool(*b),
            ChangeMsg::ChangeString(s) => ChangeV::ChangeString(s@),
            ChangeMsg::ChangeNumber(s) => ChangeV::ChangeNumber(s@),
            ChangeMsg::ChangeEnum(p) => ChangeV::ChangeEnum(*p),
            ChangeMsg::Remove(s) => ChangeV::Remove(s@),
            ChangeMsg::AddNewNodeToObject(s) => ChangeV::AddNewNodeToObject(s@),
            ChangeMsg::AddNewNodeToArray => ChangeV::AddNewNodeToArray,
            ChangeMsg::RenameKey { prev, new } => ChangeV::RenameKey { prev: prev@, new: new@ },
        }
    }
}

/// What a view asks of a page.
#[derive(Debug)]
pub enum PageMsg {
    SelectDataPath(Option<usize>),
    OpenDataPath(DataPathType),
    ChangeMsg(Vec<DataPathType>, ChangeMsg),
    DialogAddNewNodeToObject(Vec<DataPathType>),
    DialogRenameKey(Vec<DataPathType>, String),
    Nothing,
}

/// A dialog that a page asks its view to open.
#[derive(Debug)]
pub enum Dialog {
    AddNewNodeToObject { name: String, data_path: Vec<DataPathType> },
    RenameKey { previous: String, name: String, data_path: Vec<DataPathType> },
}

/// What the view is to do after a page has taken a message.
#[derive(Debug)]
pub enum Action {
    CreateDialog(Dialog),
    RemoveDialog,
    Nothing,
}

/// Why an edit was not made.
#[derive(Clone, Copy, Debug, PartialEq, Eq, Structural)]
pub enum EditError {
    /// The path leads to no node.
    PathNotFound,
    /// The node is not of the kind that the edit is for.
    WrongNode,
    /// A child of an object was named by a position, or an item of an
    /// array by a name.
    WrongStep,
    /// The node has no default.
    NoDefault,
    /// The object or the array has no template for a new child.
    NoTemplate,
    /// A position past the variants of an enum or the items of an array.
    OutOfRange,
    /// The object has no child under the key.
    MissingKey,
    /// The default could not be bound.
    Bind(ApplyError),
}

/// A new child made from a template: with its default bound to it, not
/// marked modified; without a default, with an empty dictionary bound to
/// it where its shape takes one, and else as the template is.
pub open spec fn new_child(t: ContainerV) -> Result<ContainerV, EditError> {
    match t.default {
        Some(d) => match bind(t, d, false) {
            Ok(n) => Ok(n),
            Err(e) => Err(EditError::Bind(e)),
        },
        None => match bind(t, ValueV::Dict(Seq::empty()), false) {
            Ok(n) => Ok(n),
            Err(_) => Ok(t),
        },
    }
}

/// The items of an array with a new item `n` after them, all marked
/// modified.
pub open spec fn items_with_new(values: Option<Seq<ContainerV>>, n: ContainerV) -> Seq<
    ContainerV,
> {
    match values {
        Some(vs) => all_modified(vs).push(ContainerV { modified: true, ..n }),
        None => seq![ContainerV { modified: true, ..n }],
    }
}

/// The node `c` after an edit; `Ok(None)` where the edit leaves the node
/// as it is because a key is taken.
///
/// - `ApplyDefault`: the node without its values, then its default bound
///   to it, not marked modified.
/// - `ChangeBool`, `ChangeString`: the value set.
/// - `ChangeNumber`: the text kept, and the number that it writes, if any.
/// - `ChangeEnum`: the variant chosen and marked modified.
/// - `Remove`: the child of an object or the item of an array taken out,
///   all that stay marked modified. A key that the object does not have
///   takes nothing out.
/// - `AddNewNodeToObject`: a new child from the template at the end, all
///   children marked modified.
/// - `AddNewNodeToArray`: a new item from the template at the end, all
///   items marked modified.
/// - `RenameKey`: the child under the new key, at the place where it was.
pub open spec fn changed(c: ContainerV, ch: ChangeV) -> Result<Option<ContainerV>, EditError> {
    match ch {
        ChangeV::ApplyDefault => match c.default {
            Some(d) => match bind(cleared(c), d, false) {
                Ok(n) => Ok(Some(n)),
                Err(e) => Err(EditError::Bind(e)),
            },
            None => Err(EditError::NoDefault),
        },
        ChangeV::ChangeBool(v) => match c.node {
            NodeV::Bool(_) => Ok(Some(ContainerV { node: NodeV::Bool(Some(v)), ..c })),
            _ => Err(EditError::WrongNode),
        },
        ChangeV::ChangeString(v) => match c.node {
            NodeV::String(_) => Ok(Some(ContainerV { node: NodeV::String(Some(v)), ..c })),
            _ => Err(EditError::WrongNode),
        },
        ChangeV::ChangeNumber(t) => match c.node {
            NodeV::Number(n) => Ok(
                Some(
                    ContainerV {
                        node: NodeV::Number(
                            NumberV {
                                kind: n.kind,
                                value: parsed_number(n.kind, t),
                                value_string: t,
                            },
                        ),
                        ..c
                    },
                ),
            ),
            _ => Err(EditError::WrongNode),
        },
        ChangeV::ChangeEnum(p) => match c.node {
            NodeV::Enum(e) => if p < e.nodes.len() {
                Ok(
                    Some(
                        ContainerV {
                            node: NodeV::Enum(
                                EnumV {
                                    value: Some(p as int),
                                    nodes: e.nodes.update(
                                        p as int,
                                        ContainerV { modified: true, ..e.nodes[p as int] },
                                    ),
                                },
                            ),
                            ..c
                        },
                    ),
                )
            } else {
                Err(EditError::OutOfRange)
            },
            _ => Err(EditError::WrongNode),
        },
        ChangeV::Remove(step) => match c.node {
            NodeV::Object(o) => match step {
                StepV::Name(k) => Ok(
                    Some(
                        ContainerV {
                            node: NodeV::Object(
                                ObjectV {
                                    nodes: entries_all_modified(entries_shift_removed(o.nodes, k)),
                                    ..o
                                },
                            ),
                            ..c
                        },
                    ),
                ),
                StepV::Indice(_) => Err(EditError::WrongStep),
            },
            NodeV::Array(a) => match step {
                StepV::Indice(i) => match a.values {
                    Some(vs) => if i < vs.len() {
                        Ok(
                            Some(
                                ContainerV {
                                    node: NodeV::Array(
                                        ArrayV {
                                            values: Some(all_modified(vs.remove(i as int))),
                                            ..a
                                        },
                                    ),
                                    ..c
                                },
                            ),
                        )
                    } else {
                        Err(EditError::OutOfRange)
                    },
                    None => Err(EditError::OutOfRange),
                },
                StepV::Name(_) => Err(EditError::WrongStep),
            },
            _ => Err(EditError::WrongNode),
        },
        ChangeV::AddNewNodeToObject(name) => match c.node {
            NodeV::Object(o) => if key_index(o.nodes, name) is Some {
                Ok(None)
            } else {
                match o.template {
                    Some(t) => match new_child(as_removable(*t)) {
                        Ok(n) => Ok(
                            Some(
                                ContainerV {
                                    node: NodeV::Object(
                                        ObjectV {
                                            nodes: entries_all_modified(
                                                entries_put(o.nodes, name, n),
                                            ),
                                            ..o
                                        },
                                    ),
                                    ..c
                                },
                            ),
                        ),
                        Err(e) => Err(e),
                    },
                    None => Err(EditError::NoTemplate),
                }
            },
            _ => Err(EditError::WrongNode),
        },
        ChangeV::AddNewNodeToArray => match c.node {
            NodeV::Array(a) => match array_template(a, None) {
                Some(t) => match new_child(t) {
                    Ok(n) => Ok(
                        Some(
                            ContainerV {
                                node: NodeV::Array(
                                    ArrayV { values: Some(items_with_new(a.values, n)), ..a },
                                ),
                                ..c
                            },
                        ),
                    ),
                    Err(e) => Err(e),
                },
                None => Err(EditError::NoTemplate),
            },
            _ => Err(EditError::WrongNode),
        },
        ChangeV::RenameKey { prev, new } => match c.node {
            NodeV::Object(o) => if key_index(o.nodes, new) is Some {
                Ok(None)
            } else {
                match key_index(o.nodes, prev) {
                    Some(i) => Ok(
                        Some(
                            ContainerV {
                                node: NodeV::Object(
                                    ObjectV {
                                        nodes: entries_swap_removed(
                                            entries_put(o.nodes, new, o.nodes[i].1),
                                            prev,
                                        ),
                                        ..o
                                    },
                                ),
                                ..c
                            },
                        ),
                    ),
                    None => Err(EditError::MissingKey),
                }
            },
            _ => Err(EditError::WrongNode),
        },
    }
}

/// The steps whose nodes an edit marks modified: the whole path, but for
/// `ApplyDefault` the path without its last step.
pub open spec fn marked_after(t: ContainerV, path: Seq<StepV>, ch: ChangeV) -> ContainerV {
    if ch is ApplyDefault {
        if path.len() == 0 {
            t
        } else {
            marked(t, path.take(path.len() - 1), 0)
        }
    } else {
        marked(t, path, 0)
    }
}

/// The tree after an edit of the node that a path leads to; `Ok(None)`
/// where the edit leaves the tree as it is.
pub open spec fn edited(tree: ContainerV, path: Seq<StepV>, ch: ChangeV) -> Result<
    Option<ContainerV>,
    EditError,
> {
    match node_at(tree, path, 0) {
        Some(c) => match changed(c, ch) {
            Ok(Some(n)) => match replaced_at(tree, path, 0, n) {
                Some(t) => Ok(Some(marked_after(t, path, ch))),
                None => Err(EditError::PathNotFound),
            },
            Ok(None) => Ok(None),
            Err(e) => Err(e),
        },
        None => Err(EditError::PathNotFound),
    }
}

/// The value to write out for a tree: what the tree gives, where the tree
/// is valid and gives a value.
pub open spec fn written(tree: ContainerV) -> Option<ValueV> {
    if valid(tree) {
        match project(tree) {
            Ok(Some(v)) => Some(v),
            _ => None,
        }
    } else {
        None
    }
}

/// A new child made from a template.
fn make_child(t: NodeContainer) -> (r: Result<NodeContainer, EditError>)
    ensures
        match r {
            Ok(n) => new_child(t@) == Ok::<ContainerV, EditError>(n@),
            Err(e) => new_child(t@) == Err::<ContainerV, EditError>(e),
        },
{
    match &t.default {
        Some(default) => match t.bound_as(t.removable, default, false) {
            Ok(n) => Ok(n),
            Err(e) => Err(EditError::Bind(e)),
        },
        None => {
            let empty = Value::Dict(Dict::new());
            match t.bound_as(t.removable, &empty, false) {
                Ok(n) => Ok(n),
                Err(_) => Ok(t),
            }
        },
    }
}

/// A copy of the array's shape with other items.
fn array_with(a: &NodeArray, values: Vec<NodeContainer>) -> (r: Node)
    ensures
        r@ == NodeV::Array(ArrayV { values: Some(containers_model(values@)), ..a.model() }),
{
    Node::Array(
        NodeArray {
            values: Some(values),
            template: match &a.template {
                NodeArrayTemplate::All(t) => NodeArrayTemplate::All(Box::new((&**t).clone())),
                NodeArrayTemplate::FirstN(v) => NodeArrayTemplate::FirstN(clone_nodes(v)),
            },
            min: a.min,
            max: a.max,
        },
    )
}

/// The node after `Remove`.
fn removed(c: &NodeContainer, field: &DataPathType) -> (r: Result<Option<NodeContainer>, EditError>)
    ensures
        edit_model(r) == changed(c@, ChangeV::Remove(field@)),
{
    match &c.node {
        Node::Object(node_object) => match field {
            DataPathType::Name(name) => {
                let o = node_object.clone().shift_removed(name.as_str()).with_all_modified();
                Ok(Some(c.with_node(Node::Object(o))))
            },
            DataPathType::Indice(_) => Err(EditError::WrongStep),
        },
        Node::Array(node_array) => match field {
            DataPathType::Indice(i) => match &node_array.values {
                Some(values) => {
                    let ghost vs = c@.node->Array_0.values->0;
                    assert(vs == containers_model(values@));
                    assert(vs.len() == values@.len());
                    if *i < values.len() {
                        let mut nodes = clone_nodes(values);
                        assert(containers_model(nodes@).len() == nodes@.len());
                        let ghost before = nodes@;
                        let gone = nodes.remove(*i);
                        assert(containers_model(nodes@) =~= vs.remove(*i as int)) by {
                            assert forall|j: int| 0 <= j < nodes@.len() implies (
                            #[trigger] containers_model(nodes@)[j]) == vs.remove(*i as int)[j] by {
                                if j < *i {
                                    assert(containers_model(before)[j] == before[j]@);
                                } else {
                                    assert(containers_model(before)[j + 1] == before[j + 1]@);
                                }
                            }
                        }
                        let nodes = mark_all_modified(nodes);
                        Ok(Some(c.with_node(array_with(node_array, nodes))))
                    } else {
                        Err(EditError::OutOfRange)
                    }
                },
                None => Err(EditError::OutOfRange),
            },
            DataPathType::Name(_) => Err(EditError::WrongStep),
        },
        _ => Err(EditError::WrongNode),
    }
}

/// The node after `AddNewNodeToObject`.
fn object_added(c: &NodeContainer, name: &String) -> (r: Result<Option<NodeContainer>, EditError>)
    ensures
        edit_model(r) == changed(c@, ChangeV::AddNewNodeToObject(name@)),
{
    match &c.node {
        Node::Object(node_object) => {
            if node_object.contains_key(name.as_str()) {
                return Ok(None);
            }
            match node_object.template() {
                Some(t) => match make_child(t) {
                    Ok(n) => {
                        let o = node_object.clone().with_entry(name.clone(), n).with_all_modified();
                        Ok(Some(c.with_node(Node::Object(o))))
                    },
                    Err(e) => Err(e),
                },
                None => Err(EditError::NoTemplate),
            }
        },
        _ => Err(EditError::WrongNode),
    }
}

/// The node after `AddNewNodeToArray`.
fn array_added(c: &NodeContainer) -> (r: Result<Option<NodeContainer>, EditError>)
    ensures
        edit_model(r) == changed(c@, ChangeV::AddNewNodeToArray),
{
    match &c.node {
        Node::Array(node_array) => match node_array.try_template(None) {
            Some(t) => match make_child(t) {
                Ok(n) => {
                    let mut n = n;
                    let ghost n0 = n@;
                    n.modified = true;
                    let mut nodes = match &node_array.values {
                        Some(values) => mark_all_modified(clone_nodes(values)),
                        None => Vec::new(),
                    };
                    let ghost before = containers_model(nodes@);
                    nodes.push(n);
                    assert(containers_model(nodes@) =~= before.push(n@));
                    assert(containers_model(nodes@) =~= items_with_new(
                        node_array.model().values,
                        n0,
                    ));
                    Ok(Some(c.with_node(array_with(node_array, nodes))))
                },
                Err(e) => Err(e),
            },
            None => Err(EditError::NoTemplate),
        },
        _ => Err(EditError::WrongNode),
    }
}

/// The node after `RenameKey`.
fn renamed(c: &NodeContainer, prev: &String, new: &String) -> (r: Result<
    Option<NodeContainer>,
    EditError,
>)
    ensures
        edit_model(r) == changed(c@, ChangeV::RenameKey { prev: prev@, new: new@ }),
{
    match &c.node {
        Node::Object(node_object) => {
            if node_object.contains_key(new.as_str()) {
                return Ok(None);
            }
            match node_object.get(prev.as_str()) {
                Some(node) => {
                    let o = node_object.clone().with_entry(new.clone(), node.clone()).swap_removed(
                        prev.as_str(),
                    );
                    Ok(Some(c.with_node(Node::Object(o))))
                },
                None => Err(EditError::MissingKey),
            }
        },
        _ => Err(EditError::WrongNode),
    }
}

/// The node after `ChangeEnum`.
fn variant_chosen(c: &NodeContainer, value: usize) -> (r: Result<Option<NodeContainer>, EditError>)
    ensures
        edit_model(r) == changed(c@, ChangeV::ChangeEnum(value)),
{
    match &c.node {
        Node::Enum(node_enum) => {
            let ghost e = c@.node->Enum_0;
            assert(e.nodes == containers_model(node_enum.nodes@));
            assert(e.nodes.len() == node_enum.nodes@.len());
            if value < node_enum.nodes.len() {
                let mut nodes = clone_nodes(&node_enum.nodes);
                assert(containers_model(nodes@).len() == nodes@.len());
                assert(containers_model(nodes@)[value as int] == nodes@[value as int]@);
                let ghost before = nodes@;
                let mut chosen = nodes[value].clone();
                chosen.modified = true;
                nodes.set(value, chosen);
                assert(containers_model(nodes@) =~= e.nodes.update(
                    value as int,
                    ContainerV { modified: true, ..e.nodes[value as int] },
                )) by {
                    assert forall|j: int| 0 <= j < nodes@.len() implies (
                    #[trigger] containers_model(nodes@)[j]) == e.nodes.update(
                        value as int,
                        ContainerV { modified: true, ..e.nodes[value as int] },
                    )[j] by {
                        if j != value {
                            assert(containers_model(before)[j] == before[j]@);
                        }
                    }
                }
                Ok(Some(c.with_node(Node::Enum(NodeEnum { value: Some(value), nodes }))))
            } else {
                Err(EditError::OutOfRange)
            }
        },
        _ => Err(EditError::WrongNode),
    }
}

/// The node after `ApplyDefault`.
fn default_applied(c: &NodeContainer) -> (r: Result<Option<NodeContainer>, EditError>)
    ensures
        edit_model(r) == changed(c@, ChangeV::ApplyDefault),
{
    match &c.default {
        Some(d) => {
            let blank = c.without_values();
            match blank.bound_as(blank.removable, d, false) {
                Ok(n) => Ok(Some(n)),
                Err(e) => Err(EditError::Bind(e)),
            }
        },
        None => Err(EditError::NoDefault),
    }
}

/// The node after `ChangeNumber`.
fn number_changed(c: &NodeContainer, text: &String) -> (r: Result<Option<NodeContainer>, EditError>)
    ensures
        edit_model(r) == changed(c@, ChangeV::ChangeNumber(text@)),
{
    match &c.node {
        Node::Number(node_number) => {
            let value = match parse_number(node_number.kind, text.as_str()) {
                Ok(v) => Some(v),
                Err(_) => None,
            };
            Ok(
                Some(
                    c.with_node(
                        Node::Number(
                            NodeNumber { kind: node_number.kind, value, value_string: text.clone() },
                        ),
                    ),
                ),
            )
        },
        _ => Err(EditError::WrongNode),
    }
}

/// What the result of an edit is.
pub open spec fn edit_model(r: Result<Option<NodeContainer>, EditError>) -> Result<
    Option<ContainerV>,
    EditError,
> {
    match r {
        Ok(Some(c)) => Ok(Some(c@)),
        Ok(None) => Ok(None),
        Err(e) => Err(e),
    }
}

impl NodeContainer {
    /// A copy of the node after an edit; `Ok(None)` where the edit leaves
    /// the node as it is.
    pub fn changed(&self, change: &ChangeMsg) -> (r: Result<Option<NodeContainer>, EditError>)
        ensures
            edit_model(r) == changed(self@, change@),
    {
        match change {
            ChangeMsg::ApplyDefault => default_applied(self),
            ChangeMsg::ChangeBool(value) => match &self.node {
                Node::Bool(_) => Ok(
                    Some(self.with_node(Node::Bool(NodeBool { value: Some(*value) }))),
                ),
                _ => Err(EditError::WrongNode),
            },
            ChangeMsg::ChangeString(value) => match &self.node {
                Node::String(_) => Ok(
                    Some(self.with_node(Node::String(NodeString { value: Some(value.clone()) }))),
                ),
                _ => Err(EditError::WrongNode),
            },
            ChangeMsg::ChangeNumber(value) => number_changed(self, value),
            ChangeMsg::ChangeEnum(value) => variant_chosen(self, *value),
            ChangeMsg::Remove(field) => removed(self, field),
            ChangeMsg::AddNewNodeToObject(name) => object_added(self, name),
            ChangeMsg::AddNewNodeToArray => array_added(self),
            ChangeMsg::RenameKey { prev, new } => renamed(self, prev, new),
        }
    }

    /// A copy of the tree after an edit of the node that a path leads to;
    /// `Ok(None)` where the edit leaves the tree as it is.
    pub fn edited(&self, data_path: &Vec<DataPathType>, change: &ChangeMsg) -> (r: Result<
        Option<NodeContainer>,
        EditError,
    >)
        ensures
            edit_model(r) == edited(self@, path_model(data_path@), change@),
            well_formed(self@) ==> (r matches Ok(Some(t)) ==> well_formed(t@)),
    {
        proof {
            if well_formed(self@) {
                crate::laws::well_formed::lemma_edited_well_formed(self@, path_model(data_path@), change@);
            }
        }
        let path = data_path.as_slice();
        match self.get_at(path) {
            Some(node) => match node.changed(change) {
                Ok(Some(n)) => match self.replaced_at(path, n) {
                    Some(t) => {
                        let mut t = t;
                        match change {
                            ChangeMsg::ApplyDefault => {
                                if data_path.len() > 0 {
                                    let parent = vstd::slice::slice_subrange(
                                        path,
                                        0,
                                        data_path.len() - 1,
                                    );
                                    assert(path_model(parent@) =~= path_model(data_path@).take(
                                        data_path@.len() - 1,
                                    ));
                                    t.set_modified(parent);
                                }
                            },
                            _ => {
                                t.set_modified(path);
                            },
                        }
                        Ok(Some(t))
                    },
                    None => Err(EditError::PathNotFound),
                },
                Ok(None) => Ok(None),
                Err(e) => Err(e),
            },
            None => Err(EditError::PathNotFound),
        }
    }

    /// The value to write out: what the tree gives, where the tree is
    /// valid and gives a value.
    pub fn to_written_value(&self) -> (r: Option<Value>)
        ensures
            match r {
                Some(v) => written(self@) == Some(v@),
                None => written(self@) is None,
            },
    {
        if self.is_valid() {
            match self.to_value() {
                Ok(Some(v)) => Some(v),
                _ => None,
            }
        } else {
            None
        }
    }
}

/// One tree with the breadcrumb of its view.
#[derive(Debug)]
pub struct Page {
    pub tree: NodeContainer,
    pub data_path: DataPath,
}

/// What a page answers to a message: what the view is to do, and the
/// value to write out, if there is one.
#[derive(Debug)]
pub struct Update {
    pub action: Action,
    pub write: Option<Value>,
}

/// The action after an edit that was made.
pub open spec fn action_after(ch: ChangeV) -> bool {
    ch is AddNewNodeToObject || ch is RenameKey
}

impl Page {
    /// A page for a tree, at the root.
    pub fn new(tree: NodeContainer) -> (r: Self)
        ensures
            r.tree == tree,
            r.data_path.pos is None,
            r.data_path.steps() == Seq::<StepV>::empty(),
    {
        Page { tree, data_path: DataPath::new() }
    }

    /// Makes an edit. Where the edit is made, the tree is the edited one,
    /// the breadcrumb keeps what still leads to a node, the answer holds
    /// the value to write out, and it asks to close the dialog after a
    /// child was added to an object or renamed. Where a key is taken,
    /// nothing changes. On an error nothing changes either.
    pub fn change(&mut self, data_path: &Vec<DataPathType>, change: &ChangeMsg) -> (r: Result<
        Update,
        EditError,
    >)
        ensures
            match edited(old(self).tree@, path_model(data_path@), change@) {
                Ok(Some(t)) => {
                    &&& r matches Ok(u)
                    &&& final(self).tree@ == t
                    &&& final(self).data_path.steps() == old(self).data_path.steps().take(
                        resolved_len(t, old(self).data_path.steps(), 0),
                    )
                    &&& final(self).data_path.pos == sanitized_pos(
                        old(self).data_path.pos,
                        old(self).data_path.steps().len() as int,
                        resolved_len(t, old(self).data_path.steps(), 0),
                    )
                    &&& (u.action is RemoveDialog) == action_after(change@)
                    &&& (u.action is Nothing) == !action_after(change@)
                    &&& opt_value(u.write) == written(t)
                },
                Ok(None) => {
                    &&& r matches Ok(u)
                    &&& u.action is Nothing
                    &&& u.write is None
                    &&& final(self).tree@ == old(self).tree@
                    &&& final(self).data_path == old(self).data_path
                },
                Err(e) => {
                    &&& r == Err::<Update, EditError>(e)
                    &&& final(self).tree@ == old(self).tree@
                    &&& final(self).data_path == old(self).data_path
                },
            },
            well_formed(old(self).tree@) ==> well_formed(final(self).tree@),
    {
        match self.tree.edited(data_path, change) {
            Ok(Some(t)) => {
                self.tree = t;
                self.data_path.sanitize_path(&self.tree);
                let action = match change {
                    ChangeMsg::AddNewNodeToObject(_) => Action::RemoveDialog,
                    ChangeMsg::RenameKey { .. } => Action::RemoveDialog,
                    _ => Action::Nothing,
                };
                Ok(Update { action, write: self.tree.to_written_value() })
            },
            Ok(None) => Ok(Update { action: Action::Nothing, write: None }),
            Err(e) => Err(e),
        }
    }
}

impl Page {
    /// Takes a message of the view.
    ///
    /// - `SelectDataPath` and `OpenDataPath` move the breadcrumb.
    /// - `ChangeMsg` makes an edit: see `change`.
    /// - `DialogAddNewNodeToObject` and `DialogRenameKey` ask for a dialog,
    ///   the first with an empty name, the second with the key as it is.
    /// - `Nothing` does nothing.
    pub fn update(&mut self, message: PageMsg) -> (r: Result<Update, EditError>)
        ensures
            match message {
                PageMsg::SelectDataPath(pos) => {
                    &&& r matches Ok(u)
                    &&& u.action is Nothing
                    &&& u.write is None
                    &&& final(self).tree == old(self).tree
                    &&& final(self).data_path.pos == pos
                    &&& final(self).data_path.vec == old(self).data_path.vec
                },
                PageMsg::OpenDataPath(step) => {
                    &&& r matches Ok(u)
                    &&& u.action is Nothing
                    &&& u.write is None
                    &&& final(self).tree == old(self).tree
                    &&& if old(self).data_path.pos == Some(usize::MAX) {
                        final(self).data_path == old(self).data_path
                    } else {
                        &&& final(self).data_path.pos == Some(
                            next_pos(old(self).data_path.pos) as usize,
                        )
                        &&& final(self).data_path.steps() == opened(
                            old(self).data_path.steps(),
                            old(self).data_path.pos,
                            step@,
                        )
                    }
                },
                PageMsg::ChangeMsg(data_path, change) => match edited(
                    old(self).tree@,
                    path_model(data_path@),
                    change@,
                ) {
                    Ok(Some(t)) => {
                        &&& r matches Ok(u)
                        &&& final(self).tree@ == t
                        &&& final(self).data_path.steps() == old(self).data_path.steps().take(
                            resolved_len(t, old(self).data_path.steps(), 0),
                        )
                        &&& final(self).data_path.pos == sanitized_pos(
                            old(self).data_path.pos,
                            old(self).data_path.steps().len() as int,
                            resolved_len(t, old(self).data_path.steps(), 0),
                        )
                        &&& (u.action is RemoveDialog) == action_after(change@)
                        &&& (u.action is Nothing) == !action_after(change@)
                        &&& opt_value(u.write) == written(t)
                    },
                    Ok(None) => {
                        &&& r matches Ok(u)
                        &&& u.action is Nothing
                        &&& u.write is None
                        &&& final(self).tree@ == old(self).tree@
                        &&& final(self).data_path == old(self).data_path
                    },
                    Err(e) => {
                        &&& r == Err::<Update, EditError>(e)
                        &&& final(self).tree@ == old(self).tree@
                        &&& final(self).data_path == old(self).data_path
                    },
                },
                PageMsg::DialogAddNewNodeToObject(data_path) => {
                    &&& r matches Ok(u)
                    &&& u.write is None
                    &&& u.action matches Action::CreateDialog(
                        Dialog::AddNewNodeToObject { name, data_path: p },
                    )
                    &&& name@ == Seq::<char>::empty()
                    &&& p == data_path
                    &&& *final(self) == *old(self)
                },
                PageMsg::DialogRenameKey(data_path, key) => {
                    &&& r matches Ok(u)
                    &&& u.write is None
                    &&& u.action matches Action::CreateDialog(
                        Dialog::RenameKey { previous, name, data_path: p },
                    )
                    &&& previous@ == key@
                    &&& name@ == key@
                    &&& p == data_path
                    &&& *final(self) == *old(self)
                },
                PageMsg::Nothing => {
                    &&& r matches Ok(u)
                    &&& u.action is Nothing
                    &&& u.write is None
                    &&& *final(self) == *old(self)
                },
            },
            well_formed(old(self).tree@) ==> well_formed(final(self).tree@),
    {
        match message {
            PageMsg::SelectDataPath(pos) => {
                self.data_path.change_to(pos);
                Ok(Update { action: Action::Nothing, write: None })
            },
            PageMsg::OpenDataPath(data_path_type) => {
                let at_end = match self.data_path.pos {
                    Some(p) => p == usize::MAX,
                    None => false,
                };
                if !at_end {
                    self.data_path.open(data_path_type);
                }
                Ok(Update { action: Action::Nothing, write: None })
            },
            PageMsg::ChangeMsg(data_path, change_msg) => self.change(&data_path, &change_msg),
            PageMsg::DialogAddNewNodeToObject(data_path) => Ok(
                Update {
                    action: Action::CreateDialog(
                        Dialog::AddNewNodeToObject { name: String::new(), data_path },
                    ),
                    write: None,
                },
            ),
            PageMsg::DialogRenameKey(data_path, key) => Ok(
                Update {
                    action: Action::CreateDialog(
                        Dialog::RenameKey { previous: key.clone(), name: key, data_path },
                    ),
                    write: None,
                },
            ),
            PageMsg::Nothing => Ok(Update { action: Action::Nothing, write: None }),
        }
    }
}

/// What an optional value is.
pub open spec fn opt_value(v: Option<Value>) -> Option<ValueV> {
    match v {
        Some(x) => Some(x@),
        None => None,
    }
}

} // verus!
