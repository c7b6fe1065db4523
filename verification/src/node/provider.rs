//! Projecting the modified part of the tree into a configuration value.
use vstd::prelude::*;
use crate::json::{json_to_value, json_value_to_figment_value};
use crate::node::{
    containers_model,
    ArrayV,
    ContainerV,
    Node,
    NodeContainer,
    NodeObject,
    NodeV,
    ObjectV,
};
use crate::number::NumberValue;
use crate::value::value_well_formed;
use crate::laws::well_formed::lemma_project_well_formed;
use crate::value::{dict_insert, Dict, Empty, Num, Value, ValueV, values_model};

verus! {

/// Why a tree has no value to give.
#[derive(Clone, Copy, Debug, PartialEq, Eq, Structural)]
pub enum ValueError {
    /// A modified array holds an item that gives no value.
    ItemWithoutValue,
    /// A modified wildcard node: it has no value of its own.
    Wildcard,
}

/// The value that a container gives when it is written out. A constant
/// always gives its literal. Any other container gives nothing unless it
/// is marked modified; then a scalar gives its value if it has one, an
/// object a dictionary of what its children give, an enum what its chosen
/// variant gives, an array the list of what its items give.
pub open spec fn project(c: ContainerV) -> Result<Option<ValueV>, ValueError>
    decreases c, 1nat,
{
    match c.node {
        NodeV::Value(j) => Ok(Some(json_to_value(j))),
        _ => if !c.modified {
            Ok(None)
        } else {
            match c.node {
                NodeV::Null => Ok(Some(ValueV::Empty(Empty::Nothing))),
                NodeV::Bool(v) => Ok(
                    match v {
                        Some(b) => Some(ValueV::Bool(b)),
                        None => None,
                    },
                ),
                NodeV::String(v) => Ok(
                    match v {
                        Some(s) => Some(ValueV::String(s)),
                        None => None,
                    },
                ),
                NodeV::Number(n) => Ok(
                    match n.value {
                        Some(x) => Some(ValueV::Num(x)),
                        None => None,
                    },
                ),
                NodeV::Object(o) => match project_entries(o, 0, Seq::empty()) {
                    Ok(d) => Ok(Some(ValueV::Dict(d))),
                    Err(x) => Err(x),
                },
                NodeV::Enum(e) => match e.value {
                    Some(pos) => if 0 <= pos < e.nodes.len() {
                        project(e.nodes[pos])
                    } else {
                        Ok(None)
                    },
                    None => Ok(None),
                },
                NodeV::Array(a) => match a.values {
                    Some(vs) => match project_items(a, 0, Seq::empty()) {
                        Ok(items) => Ok(Some(ValueV::Array(items))),
                        Err(x) => Err(x),
                    },
                    None => Ok(None),
                },
                NodeV::Value(j) => Ok(Some(json_to_value(j))),
                NodeV::Any => Err(ValueError::Wildcard),
            }
        },
    }
}

/// The dictionary of what the children of an object give, from position
/// `i` on, put into `acc`: a child that gives nothing is left out.
pub open spec fn project_entries(o: ObjectV, i: int, acc: Seq<(Seq<char>, ValueV)>) -> Result<
    Seq<(Seq<char>, ValueV)>,
    ValueError,
>
    decreases o, o.nodes.len() - i,
{
    if 0 <= i < o.nodes.len() {
        match project(o.nodes[i].1) {
            Ok(Some(v)) => project_entries(o, i + 1, dict_insert(acc, o.nodes[i].0, v)),
            Ok(None) => project_entries(o, i + 1, acc),
            Err(x) => Err(x),
        }
    } else {
        Ok(acc)
    }
}

/// The list of what the items of an array give, from position `i` on,
/// added to `acc`. An item that gives nothing is an error.
pub open spec fn project_items(a: ArrayV, i: int, acc: Seq<ValueV>) -> Result<
    Seq<ValueV>,
    ValueError,
>
    decreases a, (if a.values is Some {
        a.values->0.len() - i
    } else {
        0
    }),
{
    match a.values {
        Some(vs) => if 0 <= i < vs.len() {
            match project(vs[i]) {
                Ok(Some(v)) => project_items(a, i + 1, acc.push(v)),
                Ok(None) => Err(ValueError::ItemWithoutValue),
                Err(x) => Err(x),
            }
        } else {
            Ok(acc)
        },
        None => Ok(acc),
    }
}

impl NumberValue {
    /// The number as a configuration source gives numbers.
    pub fn into_num(self) -> (r: Num)
        ensures
            r@ == self@,
    {
        match self {
            NumberValue::U8(v) => Num::U8(v),
            NumberValue::U16(v) => Num::U16(v),
            NumberValue::U32(v) => Num::U32(v),
            NumberValue::U64(v) => Num::U64(v),
            NumberValue::U128(v) => Num::U128(v),
            NumberValue::USize(v) => Num::USize(v),
            NumberValue::I8(v) => Num::I8(v),
            NumberValue::I16(v) => Num::I16(v),
            NumberValue::I32(v) => Num::I32(v),
            NumberValue::I64(v) => Num::I64(v),
            NumberValue::I128(v) => Num::I128(v),
            NumberValue::ISize(v) => Num::ISize(v),
            NumberValue::F32(v) => Num::F32(v),
            NumberValue::F64(v) => Num::F64(v),
        }
    }
}

/// The dictionary of what the children of an object give.
#[verifier::loop_isolation(false)]
fn object_value(o: &NodeObject) -> (r: Result<Dict, ValueError>)
    ensures
        match r {
            Ok(d) => project_entries(o@, 0, Seq::empty()) == Ok::<
                Seq<(Seq<char>, ValueV)>,
                ValueError,
            >(d@) && d.wf(),
            Err(x) => project_entries(o@, 0, Seq::empty()) == Err::<
                Seq<(Seq<char>, ValueV)>,
                ValueError,
            >(x),
        },
    decreases o, 0nat,
{
    let mut dict = Dict::new();
    let n = o.len();
    let mut i: usize = 0;
    while i < n
        invariant
            i <= n,
            n == o@.nodes.len(),
            dict.wf(),
            project_entries(o@, i as int, dict@) == project_entries(o@, 0, Seq::empty()),
        decreases n - i,
    {
        match o.node_at(i).to_value() {
            Ok(Some(value)) => {
                dict.insert(o.key_at(i).clone(), value);
            },
            Ok(None) => {},
            Err(x) => {
                return Err(x);
            },
        }
        i += 1;
    }
    Ok(dict)
}

/// The list of what the items of an array give.
#[verifier::loop_isolation(false)]
fn items_value(values: &Vec<NodeContainer>, Ghost(a): Ghost<ArrayV>) -> (r: Result<
    Vec<Value>,
    ValueError,
>)
    requires
        a.values == Some(containers_model(values@)),
    ensures
        match r {
            Ok(items) => project_items(a, 0, Seq::empty()) == Ok::<Seq<ValueV>, ValueError>(
                values_model(items@),
            ),
            Err(x) => project_items(a, 0, Seq::empty()) == Err::<Seq<ValueV>, ValueError>(x),
        },
    decreases values, 0nat,
{
    let ghost vs = a.values->0;
    let mut out: Vec<Value> = Vec::new();
    assert(values_model(out@) =~= Seq::empty());
    let mut i: usize = 0;
    while i < values.len()
        invariant
            i <= values.len(),
            vs.len() == values.len(),
            project_items(a, i as int, values_model(out@)) == project_items(a, 0, Seq::empty()),
        decreases values.len() - i,
    {
        assert(vs[i as int] == values@[i as int]@);
        let ghost before = values_model(out@);
        match values[i].to_value() {
            Ok(Some(value)) => {
                out.push(value);
                assert(values_model(out@) =~= before.push(value@));
            },
            Ok(None) => {
                return Err(ValueError::ItemWithoutValue);
            },
            Err(x) => {
                return Err(x);
            },
        }
        i += 1;
    }
    Ok(out)
}

impl NodeContainer {
    /// The value that the container gives when it is written out.
    pub fn to_value(&self) -> (r: Result<Option<Value>, ValueError>)
        ensures
            match r {
                Ok(Some(v)) => project(self@) == Ok::<Option<ValueV>, ValueError>(Some(v@)),
                Ok(None) => project(self@) == Ok::<Option<ValueV>, ValueError>(None),
                Err(x) => project(self@) == Err::<Option<ValueV>, ValueError>(x),
            },
            r matches Ok(Some(v)) ==> value_well_formed(v@),
        decreases self, 1nat,
    {
        proof {
            lemma_project_well_formed(self@);
        }
        if let Node::Value(node_value) = &self.node {
            return Ok(Some(json_value_to_figment_value(&node_value.value)));
        }
        if !self.modified {
            return Ok(None);
        }
        match &self.node {
            Node::Null => Ok(Some(Value::Empty(Empty::Nothing))),
            Node::Bool(node_bool) => Ok(
                match node_bool.value {
                    Some(value) => Some(Value::Bool(value)),
                    None => None,
                },
            ),
            Node::String(node_string) => Ok(
                match &node_string.value {
                    Some(value) => Some(Value::String(value.clone())),
                    None => None,
                },
            ),
            Node::Number(node_number) => Ok(
                match &node_number.value {
                    Some(value) => Some(Value::Num(value.clone().into_num())),
                    None => None,
                },
            ),
            Node::Object(node_object) => match object_value(node_object) {
                Ok(dict) => Ok(Some(Value::Dict(dict))),
                Err(x) => Err(x),
            },
            Node::Enum(node_enum) => match node_enum.value {
                Some(pos) => {
                    let ghost e = self@.node->Enum_0;
                    assert(e.nodes == containers_model(node_enum.nodes@));
                    assert(e.nodes.len() == node_enum.nodes@.len());
                    if pos < node_enum.nodes.len() {
                        assert(e.nodes[pos as int] == node_enum.nodes@[pos as int]@);
                        node_enum.nodes[pos].to_value()
                    } else {
                        Ok(None)
                    }
                },
                None => Ok(None),
            },
            Node::Array(node_array) => match &node_array.values {
                Some(values) => {
                    let ghost a = self@.node->Array_0;
                    match items_value(values, Ghost(a)) {
                        Ok(items) => Ok(Some(Value::Array(items))),
                        Err(x) => Err(x),
                    }
                },
                None => Ok(None),
            },
            Node::Value(node_value) => Ok(
                Some(json_value_to_figment_value(&node_value.value)),
            ),
            Node::Any => Err(ValueError::Wildcard),
        }
    }
}

} // verus!
