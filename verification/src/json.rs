//! JSON literals, as a schema holds them for defaults and pinned
//! constants, and how they relate to configuration values.
use vstd::prelude::*;
use crate::number::Float;
use crate::value::value_well_formed;
use crate::laws::well_formed::lemma_json_to_value_well_formed;
use crate::value::{dict_insert, key_value, unsigned_value, Dict, Empty, Num, Value, ValueV};
use crate::number::{NumV, NumberValueLight};

verus! {

/// A JSON number: an integer that is not negative, a negative integer, or
/// a float.
#[derive(Debug)]
pub enum JsonNumber {
    PosInt(u64),
    /// Always less than zero.
    NegInt(i64),
    Float(Float),
}

/// What a JSON number is.
pub ghost enum JsonNumberV {
    PosInt(u64),
    NegInt(i64),
    Float(Seq<char>),
}

impl View for JsonNumber {
    type V = JsonNumberV;

    open spec fn view(&self) -> JsonNumberV {
        match self {
            JsonNumber::PosInt(n) => JsonNumberV::PosInt(*n),
            JsonNumber::NegInt(n) => JsonNumberV::NegInt(*n),
            JsonNumber::Float(f) => JsonNumberV::Float(f@),
        }
    }
}

impl Clone for JsonNumber {
    fn clone(&self) -> (r: Self)
        ensures
            r@ == self@,
    {
        match self {
            JsonNumber::PosInt(n) => JsonNumber::PosInt(*n),
            JsonNumber::NegInt(n) => JsonNumber::NegInt(*n),
            JsonNumber::Float(f) => JsonNumber::Float(f.clone()),
        }
    }
}

/// The number as an `i64`, where it is an integer that fits.
pub open spec fn json_number_i64(n: JsonNumberV) -> Option<i64> {
    match n {
        JsonNumberV::PosInt(v) => if v <= i64::MAX {
            Some(v as i64)
        } else {
            None
        },
        JsonNumberV::NegInt(v) => Some(v),
        JsonNumberV::Float(_) => None,
    }
}

impl JsonNumber {
    /// The number as an `i64`, where it is an integer that fits.
    pub fn as_i64(&self) -> (r: Option<i64>)
        ensures
            r == json_number_i64(self@),
    {
        match self {
            JsonNumber::PosInt(v) => if *v <= 0x7fff_ffff_ffff_ffff {
                Some(*v as i64)
            } else {
                None
            },
            JsonNumber::NegInt(v) => Some(*v),
            JsonNumber::Float(_) => None,
        }
    }
}

/// A JSON literal.
#[derive(Debug)]
pub enum Json {
    Null,
    Bool(bool),
    Number(JsonNumber),
    String(String),
    Array(Vec<Json>),
    /// The members of an object, in the order they are written.
    Object(Vec<(String, Json)>),
}

/// What a JSON literal is.
pub ghost enum JsonV {
    Null,
    Bool(bool),
    Number(JsonNumberV),
    String(Seq<char>),
    Array(Seq<JsonV>),
    Object(Seq<(Seq<char>, JsonV)>),
}

/// What a JSON literal is.
pub open spec fn json_model(j: Json) -> JsonV
    decreases j,
{
    match j {
        Json::Null => JsonV::Null,
        Json::Bool(b) => JsonV::Bool(b),
        Json::Number(n) => JsonV::Number(n@),
        Json::String(s) => JsonV::String(s@),
        Json::Array(a) => JsonV::Array(
            Seq::new(
                a@.len(),
                |i: int|
                    if 0 <= i < a@.len() {
                        json_model(a@[i])
                    } else {
                        arbitrary()
                    },
            ),
        ),
        Json::Object(e) => JsonV::Object(
            Seq::new(
                e@.len(),
                |i: int|
                    if 0 <= i < e@.len() {
                        (e@[i].0@, json_model(e@[i].1))
                    } else {
                        arbitrary()
                    },
            ),
        ),
    }
}

impl View for Json {
    type V = JsonV;

    open spec fn view(&self) -> JsonV {
        json_model(*self)
    }
}

impl Clone for Json {
    #[verifier::loop_isolation(false)]
    fn clone(&self) -> (r: Self)
        ensures
            r@ == self@,
        decreases self,
    {
        match self {
            Json::Null => Json::Null,
            Json::Bool(b) => Json::Bool(*b),
            Json::Number(n) => Json::Number(n.clone()),
            Json::String(s) => Json::String(s.clone()),
            Json::Array(a) => {
                let mut out: Vec<Json> = Vec::new();
                let mut i: usize = 0;
                while i < a.len()
                    invariant
                        i <= a.len(),
                        out.len() == i,
                        forall|j: int|
                            0 <= j < i ==> json_model(#[trigger] out@[j]) == json_model(a@[j]),
                    decreases a.len() - i,
                {
                    let v = a[i].clone();
                    out.push(v);
                    i += 1;
                }
                let r = Json::Array(out);
                assert(r@->Array_0 =~= self@->Array_0);
                r
            },
            Json::Object(e) => {
                let mut out: Vec<(String, Json)> = Vec::new();
                let mut i: usize = 0;
                while i < e.len()
                    invariant
                        i <= e.len(),
                        out.len() == i,
                        forall|j: int|
                            0 <= j < i ==> (#[trigger] out@[j]).0@ == e@[j].0@ && json_model(
                                out@[j].1,
                            ) == json_model(e@[j].1),
                    decreases e.len() - i,
                {
                    let v = e[i].1.clone();
                    out.push((e[i].0.clone(), v));
                    i += 1;
                }
                let r = Json::Object(out);
                assert(r@->Object_0 =~= self@->Object_0);
                r
            },
        }
    }
}

/// The configuration value that a JSON literal stands for.
pub open spec fn json_to_value(j: JsonV) -> ValueV
    decreases j, 1nat, 0nat,
{
    match j {
        JsonV::Null => ValueV::Empty(Empty::Nothing),
        JsonV::Bool(b) => ValueV::Bool(b),
        JsonV::Number(n) => ValueV::Num(
            match n {
                JsonNumberV::PosInt(v) => NumV::Int { kind: NumberValueLight::U64, value: v as int },
                JsonNumberV::NegInt(v) => NumV::Int { kind: NumberValueLight::I64, value: v as int },
                JsonNumberV::Float(t) => NumV::Float { kind: NumberValueLight::F64, text: t },
            },
        ),
        JsonV::String(s) => ValueV::String(s),
        JsonV::Array(a) => ValueV::Array(
            Seq::new(
                a.len(),
                |i: int|
                    if 0 <= i < a.len() {
                        json_to_value(a[i])
                    } else {
                        arbitrary()
                    },
            ),
        ),
        JsonV::Object(e) => ValueV::Dict(json_members_to_dict(j, e.len())),
    }
}

/// The dictionary made of the first `n` members of a JSON object, each put
/// under its name in turn: a later member replaces an earlier one of the
/// same name.
pub open spec fn json_members_to_dict(j: JsonV, n: nat) -> Seq<(Seq<char>, ValueV)>
    decreases j, 0nat, n,
{
    match j {
        JsonV::Object(e) => if n == 0 || n > e.len() {
            Seq::empty()
        } else {
            dict_insert(
                json_members_to_dict(j, (n - 1) as nat),
                e[n - 1].0,
                json_to_value(e[n - 1].1),
            )
        },
        _ => Seq::empty(),
    }
}

/// True where a JSON literal and a configuration value hold the same:
/// `null` equals any empty value; booleans and strings equal their like;
/// a number equals a number where both, read as `i64`, give the same or
/// both give nothing; an object equals a dictionary of the same size that
/// has an equal value under each of the object's names. Nothing else is
/// equal.
pub open spec fn json_eq_value(j: JsonV, v: ValueV) -> bool
    decreases j,
{
    match (j, v) {
        (JsonV::Null, ValueV::Empty(_)) => true,
        (JsonV::Bool(a), ValueV::Bool(b)) => a == b,
        (JsonV::Number(n), ValueV::Num(m)) => json_number_i64(n) == match unsigned_value(m) {
            Some(u) => Some(u as i64),
            None => None,
        },
        (JsonV::String(a), ValueV::String(b)) => a == b,
        (JsonV::Object(e), ValueV::Dict(d)) => e.len() == d.len() && forall|i: int|
            0 <= i < e.len() ==> match key_value(d, (#[trigger] e[i]).0) {
                Some(fv) => json_eq_value(e[i].1, fv),
                None => false,
            },
        _ => false,
    }
}

/// The configuration value that a JSON literal stands for.
#[verifier::loop_isolation(false)]
pub fn json_value_to_figment_value(json_value: &Json) -> (r: Value)
    ensures
        r@ == json_to_value(json_value@),
        value_well_formed(r@),
    decreases json_value,
{
    proof {
        lemma_json_to_value_well_formed(json_value@);
    }
    match json_value {
        Json::Null => Value::Empty(Empty::Nothing),
        Json::Bool(value) => Value::Bool(*value),
        Json::Number(number) => Value::Num(
            match number {
                JsonNumber::PosInt(n) => Num::U64(*n),
                JsonNumber::NegInt(n) => Num::I64(*n),
                JsonNumber::Float(f) => Num::F64(f.clone()),
            },
        ),
        Json::String(s) => Value::String(s.clone()),
        Json::Array(vec) => {
            let mut out: Vec<Value> = Vec::new();
            let mut i: usize = 0;
            while i < vec.len()
                invariant
                    i <= vec.len(),
                    out.len() == i,
                    forall|j: int| 0 <= j < i ==> (#[trigger] out@[j])@ == json_to_value(vec@[j]@),
                decreases vec.len() - i,
            {
                let v = json_value_to_figment_value(&vec[i]);
                out.push(v);
                i += 1;
            }
            let r = Value::Array(out);
            assert(r@->Array_0 =~= json_to_value(json_value@)->Array_0);
            r
        },
        Json::Object(fields) => {
            let mut dict = Dict::new();
            let mut i: usize = 0;
            while i < fields.len()
                invariant
                    i <= fields.len(),
                    dict.wf(),
                    dict@ == json_members_to_dict(json_value@, i as nat),
                decreases fields.len() - i,
            {
                let v = json_value_to_figment_value(&fields[i].1);
                dict.insert(fields[i].0.clone(), v);
                i += 1;
            }
            Value::Dict(dict)
        },
    }
}

/// True where a JSON literal and a configuration value hold the same.
#[verifier::loop_isolation(false)]
pub fn json_value_eq_figment_value(json_value: &Json, fig: &Value) -> (r: bool)
    ensures
        r == json_eq_value(json_value@, fig@),
    decreases json_value,
{
    match (json_value, fig) {
        (Json::Null, Value::Empty(_)) => true,
        (Json::Bool(j_bool), Value::Bool(f_bool)) => *j_bool == *f_bool,
        (Json::Number(j_num), Value::Num(f_num)) => {
            let a = j_num.as_i64();
            let b = match f_num.to_u128_lossy() {
                Some(e) => Some(#[verifier::truncate] (e as i64)),
                None => None,
            };
            match (a, b) {
                (Some(x), Some(y)) => x == y,
                (None, None) => true,
                _ => false,
            }
        },
        (Json::String(j_str), Value::String(f_str)) => *j_str == *f_str,
        (Json::Object(j_map), Value::Dict(f_dict)) => {
            assert(json_value@ is Object && json_value@->Object_0.len() == j_map@.len());
            assert(fig@ == ValueV::Dict(f_dict@));
            if j_map.len() != f_dict.len() {
                return false;
            }
            assert forall|k: int| 0 <= k < j_map@.len() implies json_value@->Object_0[k] == (
                j_map@[k].0@,
                j_map@[k].1@,
            ) by {}
            let mut i: usize = 0;
            while i < j_map.len()
                invariant
                    i <= j_map.len(),
                    j_map.len() == f_dict@.len(),
                    forall|k: int|
                        0 <= k < i ==> match key_value(
                            f_dict@,
                            (#[trigger] json_value@->Object_0[k]).0,
                        ) {
                            Some(fv) => json_eq_value(json_value@->Object_0[k].1, fv),
                            None => false,
                        },
                decreases j_map.len() - i,
            {
                let same = match f_dict.get(j_map[i].0.as_str()) {
                    Some(f_val) => json_value_eq_figment_value(&j_map[i].1, f_val),
                    None => false,
                };
                if !same {
                    assert(key_value(f_dict@, json_value@->Object_0[i as int].0) matches Some(fv)
                        ==> !json_eq_value(json_value@->Object_0[i as int].1, fv));
                    return false;
                }
                i += 1;
            }
            true
        },
        _ => false,
    }
}

/// True where the configuration value holds the same as one of the JSON
/// literals.
pub fn json_values_eq_figment_value(json_values: &Vec<Json>, fig: &Value) -> (r: bool)
    ensures
        r == exists|i: int|
            0 <= i < json_values@.len() && json_eq_value(#[trigger] json_values@[i]@, fig@),
{
    let mut i: usize = 0;
    while i < json_values.len()
        invariant
            i <= json_values.len(),
            forall|k: int| 0 <= k < i ==> !json_eq_value(#[trigger] json_values@[k]@, fig@),
        decreases json_values.len() - i,
    {
        if json_value_eq_figment_value(&json_values[i], fig) {
            return true;
        }
        i += 1;
    }
    false
}

impl Json {
    /// The text of a JSON string, `None` for any other literal.
    pub fn as_str(&self) -> (r: Option<&str>)
        ensures
            match r {
                Some(s) => self@ == JsonV::String(s@),
                None => !(self@ is String),
            },
    {
        match self {
            Json::String(s) => Some(s.as_str()),
            _ => None,
        }
    }
}

} // verus!

