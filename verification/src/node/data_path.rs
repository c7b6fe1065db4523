//! Paths into the tree, and the breadcrumb that a view keeps of where it
//! is.
use vstd::prelude::*;
use vstd::slice::slice_subrange;
use crate::node::{
    clone_nodes, containers_model, well_formed, ArrayV, ContainerV, EnumV, Node, NodeArray, NodeArrayTemplate,
    NodeContainer, NodeEnum, NodeV, ObjectV,
};
use crate::text::{copy_opt_text, decimal_text, u128_to_text};
use crate::value::{key_index, lemma_key_index};

verus! {

/// One step of a path: the name of a field, or a position in an array or
/// among the variants of an enum.
#[derive(Debug, Eq)]
pub enum DataPathType {
    Name(String),
    Indice(usize),
}

/// What a step of a path is.
pub ghost enum StepV {
    Name(Seq<char>),
    Indice(usize),
}

impl View for DataPathType {
    type V = StepV;

    open spec fn view(&self) -> StepV {
        match self {
            DataPathType::Name(n) => StepV::Name(n@),
            DataPathType::Indice(i) => StepV::Indice(*i),
        }
    }
}

impl Clone for DataPathType {
    fn clone(&self) -> (r: Self)
        ensures
            r@ == self@,
    {
        match self {
            DataPathType::Name(n) => DataPathType::Name(n.clone()),
            DataPathType::Indice(i) => DataPathType::Indice(*i),
        }
    }
}

impl PartialEq for DataPathType {
    fn eq(&self, other: &Self) -> (r: bool) {
        match (self, other) {
            (DataPathType::Name(a), DataPathType::Name(b)) => *a == *b,
            (DataPathType::Indice(a), DataPathType::Indice(b)) => *a == *b,
            _ => false,
        }
    }
}

impl vstd::std_specs::cmp::PartialEqSpecImpl for DataPathType {
    open spec fn obeys_eq_spec() -> bool {
        true
    }

    open spec fn eq_spec(&self, other: &Self) -> bool {
        match (self, other) {
            (DataPathType::Name(a), DataPathType::Name(b)) => a@ == b@,
            (DataPathType::Indice(a), DataPathType::Indice(b)) => a == b,
            _ => false,
        }
    }
}

impl DataPathType {
    /// The text that shows the step: the name, or the position in decimal
    /// notation.
    pub fn to_text(&self) -> (r: String)
        ensures
            r@ == step_text(self@),
    {
        match self {
            DataPathType::Name(name) => name.clone(),
            DataPathType::Indice(pos) => u128_to_text(*pos as u128),
        }
    }

    /// True where both steps are the same.
    pub fn same(&self, other: &DataPathType) -> (r: bool)
        ensures
            r == (self@ == other@),
    {
        *self == *other
    }
}

/// The text that shows a step.
pub open spec fn step_text(s: StepV) -> Seq<char> {
    match s {
        StepV::Name(n) => n,
        StepV::Indice(i) => decimal_text(i as int),
    }
}

/// What a path is.
pub open spec fn path_model(s: Seq<DataPathType>) -> Seq<StepV> {
    Seq::new(s.len(), |i: int| s[i]@)
}

/// The breadcrumb of a view: the steps it has gone down, and how many of
/// them lead to where it is now.
#[derive(Debug)]
pub struct DataPath {
    pub vec: Vec<DataPathType>,
    /// The position in `vec` of the step that leads to the current node;
    /// `None` at the root.
    pub pos: Option<usize>,
}

impl DataPath {
    /// The steps of the breadcrumb.
    pub open spec fn steps(&self) -> Seq<StepV> {
        path_model(self.vec@)
    }

    /// A breadcrumb at the root.
    pub fn new() -> (r: Self)
        ensures
            r.steps() == Seq::<StepV>::empty(),
            r.pos is None,
    {
        let r = Self { vec: Vec::new(), pos: None };
        assert(r.steps() =~= Seq::<StepV>::empty());
        r
    }

    /// Goes one step down from the current node. Where the breadcrumb
    /// already continues with that step, it is kept whole; else what lay
    /// below the current node is dropped and the step is added.
    pub fn open(&mut self, field: DataPathType)
        requires
            old(self).pos matches Some(p) ==> p < usize::MAX,
        ensures
            final(self).pos == Some(next_pos(old(self).pos) as usize),
            final(self).steps() == opened(old(self).steps(), old(self).pos, field@),
    {
        let next: usize = match self.pos {
            Some(pos) => pos + 1,
            None => 0,
        };
        let ghost before = self.steps();
        let keep = match self.get_at(next) {
            Some(current) => current.same(&field),
            None => false,
        };
        if !keep {
            self.vec.truncate(next);
            self.vec.push(field);
            assert(self.steps() =~= opened(before, old(self).pos, field@));
        }
        self.pos = Some(next);
    }

    /// Makes the node that the step at `pos` leads to the current one.
    pub fn change_to(&mut self, pos: Option<usize>)
        ensures
            final(self).pos == pos,
            final(self).vec == old(self).vec,
    {
        self.pos = pos;
    }

    /// The step at a position, `None` past the end.
    pub fn get_at(&self, pos: usize) -> (r: Option<&DataPathType>)
        ensures
            match r {
                Some(s) => pos < self.steps().len() && s@ == self.steps()[pos as int],
                None => pos >= self.steps().len(),
            },
    {
        if pos < self.vec.len() {
            Some(&self.vec[pos])
        } else {
            None
        }
    }

    /// The step that leads to the current node, `None` at the root.
    pub fn get_current(&self) -> (r: Option<&DataPathType>)
        requires
            self.pos matches Some(p) ==> p < self.steps().len(),
        ensures
            match r {
                Some(s) => self.pos matches Some(p) && s@ == self.steps()[p as int],
                None => self.pos is None,
            },
    {
        match self.pos {
            Some(pos) => self.get_at(pos),
            None => None,
        }
    }

    /// The steps from the root to the current node.
    pub fn current(&self) -> (r: &[DataPathType])
        requires
            self.pos matches Some(p) ==> p < self.steps().len(),
        ensures
            path_model(r@) == match self.pos {
                Some(p) => self.steps().subrange(0, p + 1),
                None => Seq::empty(),
            },
    {
        let n = self.vec.len();
        assert(self.steps().len() == n);
        let r = match self.pos {
            Some(pos) => slice_subrange(self.vec.as_slice(), 0, pos + 1),
            None => slice_subrange(self.vec.as_slice(), 0, 0),
        };
        assert(path_model(r@) =~= match self.pos {
            Some(p) => self.steps().subrange(0, p + 1),
            None => Seq::empty(),
        });
        r
    }

    /// Keeps of the breadcrumb what still leads to a node of the tree:
    /// the steps before the first one that leads nowhere. The current
    /// node becomes the last one that is left where it lay further down,
    /// and the root where no step is left.
    pub fn sanitize_path(&mut self, tree: &NodeContainer)
        ensures
            final(self).steps() == old(self).steps().take(
                resolved_len(tree@, old(self).steps(), 0),
            ),
            final(self).pos == sanitized_pos(
                old(self).pos,
                old(self).steps().len() as int,
                resolved_len(tree@, old(self).steps(), 0),
            ),
    {
        let ghost before = self.steps();
        proof {
            lemma_resolved_len_bounds(tree@, before, 0);
        }
        match sanitize_path_rec(self.vec.as_slice(), tree, 0) {
            Some(pos) => {
                self.vec.truncate(pos);
                assert(self.steps() =~= before.take(pos as int));
                if pos == 0 {
                    self.pos = None;
                } else {
                    self.pos = match self.pos {
                        Some(current_pos) => Some(
                            if current_pos < pos - 1 {
                                current_pos
                            } else {
                                pos - 1
                            },
                        ),
                        None => None,
                    };
                }
            },
            None => {
                assert(self.steps() =~= before.take(before.len() as int));
            },
        }
    }
}

/// The position after the one that leads to the current node.
pub open spec fn next_pos(pos: Option<usize>) -> int {
    match pos {
        Some(p) => p + 1,
        None => 0,
    }
}

/// The steps of a breadcrumb after going one step down from the node
/// that `pos` leads to.
pub open spec fn opened(steps: Seq<StepV>, pos: Option<usize>, field: StepV) -> Seq<StepV> {
    let next = next_pos(pos);
    if next < steps.len() && steps[next] == field {
        steps
    } else if next <= steps.len() {
        steps.take(next).push(field)
    } else {
        steps.push(field)
    }
}

/// The current position of a breadcrumb of `len` steps of which the first
/// `kept` are kept.
pub open spec fn sanitized_pos(pos: Option<usize>, len: int, kept: int) -> Option<usize> {
    if kept >= len {
        pos
    } else if kept == 0 {
        None
    } else {
        match pos {
            Some(p) => Some(
                if p < kept - 1 {
                    p
                } else {
                    (kept - 1) as usize
                },
            ),
            None => None,
        }
    }
}

/// The child that one step of a breadcrumb leads to: the child of an
/// object under a name, the chosen variant of an enum at its position,
/// the item of an array at a position.
pub open spec fn shown_child(c: ContainerV, step: StepV) -> Option<ContainerV> {
    match (c.node, step) {
        (NodeV::Object(o), StepV::Name(k)) => match key_index(o.nodes, k) {
            Some(i) => Some(o.nodes[i].1),
            None => None,
        },
        (NodeV::Enum(e), StepV::Indice(p)) => if e.value == Some(p as int) && p < e.nodes.len() {
            Some(e.nodes[p as int])
        } else {
            None
        },
        (NodeV::Array(a), StepV::Indice(p)) => match a.values {
            Some(vs) => if p < vs.len() {
                Some(vs[p as int])
            } else {
                None
            },
            None => None,
        },
        _ => None,
    }
}

/// The number of steps, counted from the start of `steps`, that lead to a
/// node when they are taken from `c` on, beginning with the step at
/// `from`.
pub open spec fn resolved_len(c: ContainerV, steps: Seq<StepV>, from: int) -> int
    decreases steps.len() - from,
{
    if 0 <= from < steps.len() {
        match shown_child(c, steps[from]) {
            Some(child) => resolved_len(child, steps, from + 1),
            None => from,
        }
    } else {
        steps.len() as int
    }
}

/// The count of resolved steps lies between the start and the end.
pub proof fn lemma_resolved_len_bounds(c: ContainerV, steps: Seq<StepV>, from: int)
    requires
        0 <= from <= steps.len(),
    ensures
        from <= resolved_len(c, steps, from) <= steps.len(),
    decreases steps.len() - from,
{
    if from < steps.len() {
        match shown_child(c, steps[from]) {
            Some(child) => lemma_resolved_len_bounds(child, steps, from + 1),
            None => {},
        }
    }
}

/// The child that a step of a breadcrumb leads to.
fn child_shown<'a>(node: &'a NodeContainer, step: &DataPathType) -> (r: Option<&'a NodeContainer>)
    ensures
        match r {
            Some(c) => shown_child(node@, step@) == Some(c@),
            None => shown_child(node@, step@) is None,
        },
{
    match &node.node {
        Node::Object(node_object) => match step {
            DataPathType::Name(name) => {
                proof {
                    lemma_key_index(node_object@.nodes, name@);
                }
                node_object.get(name.as_str())
            },
            DataPathType::Indice(_) => None,
        },
        Node::Enum(node_enum) => match step {
            DataPathType::Name(_) => None,
            DataPathType::Indice(indice_data_path) => {
                let ghost e = node@.node->Enum_0;
                assert(e.nodes == containers_model(node_enum.nodes@));
                assert(e.nodes.len() == node_enum.nodes@.len());
                match node_enum.value {
                    Some(indice_node) => {
                        if indice_node == *indice_data_path && indice_node < node_enum.nodes.len() {
                            assert(e.nodes[indice_node as int]
                                == node_enum.nodes@[indice_node as int]@);
                            Some(&node_enum.nodes[indice_node])
                        } else {
                            None
                        }
                    },
                    None => None,
                }
            },
        },
        Node::Array(node_array) => match step {
            DataPathType::Name(_) => None,
            DataPathType::Indice(indice_data_path) => match &node_array.values {
                Some(inner_nodes) => {
                    let ghost vs = node@.node->Array_0.values->0;
                    assert(vs == containers_model(inner_nodes@));
                    assert(vs.len() == inner_nodes@.len());
                    if *indice_data_path < inner_nodes.len() {
                        assert(vs[*indice_data_path as int]
                            == inner_nodes@[*indice_data_path as int]@);
                        Some(&inner_nodes[*indice_data_path])
                    } else {
                        None
                    }
                },
                None => None,
            },
        },
        _ => None,
    }
}

/// The position of the first step that leads nowhere; `None` where every
/// step leads to a node.
pub fn sanitize_path_rec(data_path: &[DataPathType], node: &NodeContainer, pos: usize) -> (r:
    Option<usize>)
    requires
        pos <= data_path@.len(),
    ensures
        match r {
            Some(p) => p < data_path@.len() && resolved_len(
                node@,
                path_model(data_path@),
                pos as int,
            ) == p,
            None => resolved_len(node@, path_model(data_path@), pos as int)
                == data_path@.len(),
        },
    decreases data_path@.len() - pos,
{
    if pos < data_path.len() {
        assert(path_model(data_path@)[pos as int] == data_path@[pos as int]@);
        match child_shown(node, &data_path[pos]) {
            Some(inner_node) => sanitize_path_rec(data_path, inner_node, pos + 1),
            None => Some(pos),
        }
    } else {
        None
    }
}

/// The child that one step of a path leads to: the child of an object
/// under a name, the variant of an enum at a position, the item of an
/// array at a position.
pub open spec fn path_child(c: ContainerV, step: StepV) -> Option<ContainerV> {
    match (c.node, step) {
        (NodeV::Object(o), StepV::Name(k)) => match key_index(o.nodes, k) {
            Some(i) => Some(o.nodes[i].1),
            None => None,
        },
        (NodeV::Enum(e), StepV::Indice(p)) => if p < e.nodes.len() {
            Some(e.nodes[p as int])
        } else {
            None
        },
        (NodeV::Array(a), StepV::Indice(p)) => match a.values {
            Some(vs) => if p < vs.len() {
                Some(vs[p as int])
            } else {
                None
            },
            None => None,
        },
        _ => None,
    }
}

/// The container with `n` in place of the child that the step leads to;
/// the container itself where the step leads nowhere.
pub open spec fn with_child(c: ContainerV, step: StepV, n: ContainerV) -> ContainerV {
    match (c.node, step) {
        (NodeV::Object(o), StepV::Name(k)) => match key_index(o.nodes, k) {
            Some(i) => ContainerV {
                node: NodeV::Object(ObjectV { nodes: o.nodes.update(i, (o.nodes[i].0, n)), ..o }),
                ..c
            },
            None => c,
        },
        (NodeV::Enum(e), StepV::Indice(p)) => if p < e.nodes.len() {
            ContainerV { node: NodeV::Enum(EnumV { nodes: e.nodes.update(p as int, n), ..e }), ..c }
        } else {
            c
        },
        (NodeV::Array(a), StepV::Indice(p)) => match a.values {
            Some(vs) => if p < vs.len() {
                ContainerV {
                    node: NodeV::Array(ArrayV { values: Some(vs.update(p as int, n)), ..a }),
                    ..c
                }
            } else {
                c
            },
            None => c,
        },
        _ => c,
    }
}

/// The node that the steps from `from` on lead to from `c`, if they lead
/// to one.
pub open spec fn node_at(c: ContainerV, steps: Seq<StepV>, from: int) -> Option<ContainerV>
    decreases steps.len() - from,
{
    if 0 <= from < steps.len() {
        match path_child(c, steps[from]) {
            Some(child) => node_at(child, steps, from + 1),
            None => None,
        }
    } else {
        Some(c)
    }
}

/// The tree `c` with `n` in place of the node that the steps from `from`
/// on lead to, if they lead to one.
pub open spec fn replaced_at(c: ContainerV, steps: Seq<StepV>, from: int, n: ContainerV) -> Option<
    ContainerV,
>
    decreases steps.len() - from,
{
    if 0 <= from < steps.len() {
        match path_child(c, steps[from]) {
            Some(child) => match replaced_at(child, steps, from + 1, n) {
                Some(r) => Some(with_child(c, steps[from], r)),
                None => None,
            },
            None => None,
        }
    } else {
        Some(n)
    }
}

/// The tree `c` with `c` and every node that the steps from `from` on
/// pass marked modified, as far as the steps lead to a node.
pub open spec fn marked(c: ContainerV, steps: Seq<StepV>, from: int) -> ContainerV
    decreases steps.len() - from,
{
    let here = ContainerV { modified: true, ..c };
    if 0 <= from < steps.len() {
        match path_child(c, steps[from]) {
            Some(child) => with_child(here, steps[from], marked(child, steps, from + 1)),
            None => here,
        }
    } else {
        here
    }
}

/// The child that a step of a path leads to.
fn child_on_path<'a>(node: &'a NodeContainer, step: &DataPathType) -> (r: Option<
    &'a NodeContainer,
>)
    ensures
        match r {
            Some(c) => path_child(node@, step@) == Some(c@),
            None => path_child(node@, step@) is None,
        },
{
    match &node.node {
        Node::Object(node_object) => match step {
            DataPathType::Name(name) => {
                proof {
                    lemma_key_index(node_object@.nodes, name@);
                }
                node_object.get(name.as_str())
            },
            DataPathType::Indice(_) => None,
        },
        Node::Enum(node_enum) => match step {
            DataPathType::Name(_) => None,
            DataPathType::Indice(p) => {
                let ghost e = node@.node->Enum_0;
                assert(e.nodes == containers_model(node_enum.nodes@));
                assert(e.nodes.len() == node_enum.nodes@.len());
                if *p < node_enum.nodes.len() {
                    assert(e.nodes[*p as int] == node_enum.nodes@[*p as int]@);
                    Some(&node_enum.nodes[*p])
                } else {
                    None
                }
            },
        },
        Node::Array(node_array) => match step {
            DataPathType::Name(_) => None,
            DataPathType::Indice(p) => match &node_array.values {
                Some(inner_nodes) => {
                    let ghost vs = node@.node->Array_0.values->0;
                    assert(vs == containers_model(inner_nodes@));
                    assert(vs.len() == inner_nodes@.len());
                    if *p < inner_nodes.len() {
                        assert(vs[*p as int] == inner_nodes@[*p as int]@);
                        Some(&inner_nodes[*p])
                    } else {
                        None
                    }
                },
                None => None,
            },
        },
        _ => None,
    }
}

/// A copy of the list with `n` at position `p`.
fn nodes_with(nodes: &Vec<NodeContainer>, p: usize, n: NodeContainer) -> (r: Vec<NodeContainer>)
    requires
        p < nodes.len(),
    ensures
        containers_model(r@) == containers_model(nodes@).update(p as int, n@),
{
    let mut out = clone_nodes(nodes);
    assert(containers_model(out@).len() == out@.len());
    let ghost before = out@;
    out.set(p, n);
    assert forall|j: int| 0 <= j < out@.len() implies #[trigger] containers_model(out@)[j]
        == containers_model(nodes@).update(p as int, n@)[j] by {
        if j != p {
            assert(containers_model(before)[j] == before[j]@);
        }
    }
    assert(containers_model(out@) =~= containers_model(nodes@).update(p as int, n@));
    out
}

/// A copy of the container with `n` in place of the child that the step
/// leads to, marked modified where `mark` says so.
fn child_replaced(node: &NodeContainer, step: &DataPathType, n: NodeContainer, mark: bool) -> (r:
    NodeContainer)
    ensures
        r@ == with_child(ContainerV { modified: mark || node@.modified, ..node@ }, step@, n@),
{
    let new_node = match &node.node {
        Node::Object(node_object) => match step {
            DataPathType::Name(name) => {
                proof {
                    lemma_key_index(node_object@.nodes, name@);
                }
                match node_object.index_of(name.as_str()) {
                    Some(i) => Node::Object(node_object.clone().with_node_at(i, n)),
                    None => node.node.clone(),
                }
            },
            DataPathType::Indice(_) => node.node.clone(),
        },
        Node::Enum(node_enum) => match step {
            DataPathType::Name(_) => node.node.clone(),
            DataPathType::Indice(p) => {
                let ghost e = node@.node->Enum_0;
                assert(e.nodes == containers_model(node_enum.nodes@));
                assert(e.nodes.len() == node_enum.nodes@.len());
                if *p < node_enum.nodes.len() {
                    Node::Enum(
                        NodeEnum { value: node_enum.value, nodes: nodes_with(&node_enum.nodes, *p, n) },
                    )
                } else {
                    node.node.clone()
                }
            },
        },
        Node::Array(node_array) => match step {
            DataPathType::Name(_) => node.node.clone(),
            DataPathType::Indice(p) => match &node_array.values {
                Some(inner_nodes) => {
                    let ghost vs = node@.node->Array_0.values->0;
                    assert(vs == containers_model(inner_nodes@));
                    assert(vs.len() == inner_nodes@.len());
                    if *p < inner_nodes.len() {
                        Node::Array(
                            NodeArray {
                                values: Some(nodes_with(inner_nodes, *p, n)),
                                template: match &node_array.template {
                                    NodeArrayTemplate::All(t) => NodeArrayTemplate::All(
                                        Box::new((&**t).clone()),
                                    ),
                                    NodeArrayTemplate::FirstN(v) => NodeArrayTemplate::FirstN(
                                        clone_nodes(v),
                                    ),
                                },
                                min: node_array.min,
                                max: node_array.max,
                            },
                        )
                    } else {
                        node.node.clone()
                    }
                },
                None => node.node.clone(),
            },
        },
        _ => node.node.clone(),
    };
    NodeContainer {
        node: new_node,
        default: match &node.default {
            Some(v) => Some(v.clone()),
            None => None,
        },
        title: copy_opt_text(&node.title),
        desc: copy_opt_text(&node.desc),
        modified: mark || node.modified,
        removable: node.removable,
    }
}

/// The node that the steps from `from` on lead to.
fn get_from<'a>(node: &'a NodeContainer, data_path: &[DataPathType], from: usize) -> (r: Option<
    &'a NodeContainer,
>)
    requires
        from <= data_path@.len(),
    ensures
        match r {
            Some(c) => node_at(node@, path_model(data_path@), from as int) == Some(c@),
            None => node_at(node@, path_model(data_path@), from as int) is None,
        },
    decreases data_path@.len() - from,
{
    if from < data_path.len() {
        assert(path_model(data_path@)[from as int] == data_path@[from as int]@);
        match child_on_path(node, &data_path[from]) {
            Some(child) => get_from(child, data_path, from + 1),
            None => None,
        }
    } else {
        Some(node)
    }
}

/// A copy of the tree with `n` in place of the node that the steps from
/// `from` on lead to.
fn replaced_from(node: &NodeContainer, data_path: &[DataPathType], from: usize, n: NodeContainer)
    -> (r: Option<NodeContainer>)
    requires
        from <= data_path@.len(),
    ensures
        match r {
            Some(c) => replaced_at(node@, path_model(data_path@), from as int, n@) == Some(c@),
            None => replaced_at(node@, path_model(data_path@), from as int, n@) is None,
        },
    decreases data_path@.len() - from,
{
    if from < data_path.len() {
        assert(path_model(data_path@)[from as int] == data_path@[from as int]@);
        match child_on_path(node, &data_path[from]) {
            Some(child) => match replaced_from(child, data_path, from + 1, n) {
                Some(r) => Some(child_replaced(node, &data_path[from], r, false)),
                None => None,
            },
            None => None,
        }
    } else {
        Some(n)
    }
}

/// A copy of the tree with the nodes that the steps from `from` on pass
/// marked modified.
fn marked_from(node: &NodeContainer, data_path: &[DataPathType], from: usize) -> (r: NodeContainer)
    requires
        from <= data_path@.len(),
    ensures
        r@ == marked(node@, path_model(data_path@), from as int),
    decreases data_path@.len() - from,
{
    if from < data_path.len() {
        assert(path_model(data_path@)[from as int] == data_path@[from as int]@);
        match child_on_path(node, &data_path[from]) {
            Some(child) => {
                let m = marked_from(child, data_path, from + 1);
                child_replaced(node, &data_path[from], m, true)
            },
            None => {
                let mut r = node.clone();
                r.modified = true;
                r
            },
        }
    } else {
        let mut r = node.clone();
        r.modified = true;
        r
    }
}

impl NodeContainer {
    /// The node that a path leads to, `None` where it leads to none.
    pub fn get_at(&self, data_path: &[DataPathType]) -> (r: Option<&Self>)
        ensures
            match r {
                Some(c) => node_at(self@, path_model(data_path@), 0) == Some(c@),
                None => node_at(self@, path_model(data_path@), 0) is None,
            },
    {
        get_from(self, data_path, 0)
    }

    /// A copy of the tree with `n` in place of the node that a path leads
    /// to, `None` where it leads to none.
    pub fn replaced_at(&self, data_path: &[DataPathType], n: NodeContainer) -> (r: Option<Self>)
        ensures
            match r {
                Some(c) => replaced_at(self@, path_model(data_path@), 0, n@) == Some(c@),
                None => replaced_at(self@, path_model(data_path@), 0, n@) is None,
            },
    {
        replaced_from(self, data_path, 0, n)
    }

    /// Marks the root and every node that the path passes as modified, as
    /// far as the path leads to a node.
    pub fn set_modified(&mut self, data_path: &[DataPathType])
        ensures
            final(self)@ == marked(old(self)@, path_model(data_path@), 0),
            well_formed(old(self)@) ==> well_formed(final(self)@),
    {
        proof {
            if well_formed(self@) {
                crate::laws::well_formed::lemma_marked_well_formed(self@, path_model(data_path@), 0);
            }
        }
        let r = marked_from(self, data_path, 0);
        *self = r;
    }
}

} // verus!
