//! Sample configurations of every shape that the tree takes, each with
//! the value that a configuration source gives for it.
use vstd::prelude::*;
use crate::number::{Float, NumV, NumberValueLight};
use crate::value::{dict_insert, values_model, Dict, Empty, Num, Value, ValueV};

verus! {

/// The value of an `i32`.
pub open spec fn i32_value(v: i32) -> ValueV {
    ValueV::Num(NumV::Int { kind: NumberValueLight::I32, value: v as int })
}

/// A record of a text and a number.
#[derive(Debug)]
pub struct Complex {
    pub x: String,
    pub y: i32,
}

impl Complex {
    /// What the record is as a value: a dictionary of its fields.
    pub open spec fn value(self) -> ValueV {
        ValueV::Dict(
            dict_insert(
                dict_insert(Seq::empty(), "x"@, ValueV::String(self.x@)),
                "y"@,
                i32_value(self.y),
            ),
        )
    }

    /// The value that a configuration source gives for it.
    pub fn to_value(&self) -> (r: Value)
        ensures
            r@ == self.value(),
    {
        let mut d = Dict::new();
        d.insert("x".to_owned(), Value::String(self.x.clone()));
        d.insert("y".to_owned(), Value::Num(Num::I32(self.y)));
        Value::Dict(d)
    }
}

impl Default for Complex {
    fn default() -> (r: Self)
        ensures
            r.x@ == "default of complex mgl"@,
            r.y == 10,
    {
        Self { x: "default of complex mgl".to_owned(), y: 10 }
    }
}

impl Clone for Complex {
    fn clone(&self) -> (r: Self)
        ensures
            r.x@ == self.x@,
            r.y == self.y,
            r.value() == self.value(),
    {
        Complex { x: self.x.clone(), y: self.y }
    }
}

/// A record that may hold a record of its own kind.
#[derive(Debug)]
pub struct Rec {
    pub x: String,
    pub y: Option<Box<Rec>>,
}

impl Rec {
    /// What the record is as a value: a dictionary of its fields, with an
    /// empty value where it holds no further record.
    pub open spec fn value(self) -> ValueV
        decreases self,
    {
        ValueV::Dict(
            dict_insert(
                dict_insert(Seq::empty(), "x"@, ValueV::String(self.x@)),
                "y"@,
                match self.y {
                    Some(inner) => inner.value(),
                    None => ValueV::Empty(Empty::Nothing),
                },
            ),
        )
    }

    /// The value that a configuration source gives for it.
    pub fn to_value(&self) -> (r: Value)
        ensures
            r@ == self.value(),
        decreases self,
    {
        let mut d = Dict::new();
        d.insert("x".to_owned(), Value::String(self.x.clone()));
        let y = match &self.y {
            Some(inner) => inner.to_value(),
            None => Value::Empty(Empty::Nothing),
        };
        d.insert("y".to_owned(), y);
        Value::Dict(d)
    }
}

impl Default for Rec {
    fn default() -> (r: Self)
        ensures
            r.x@ == Seq::<char>::empty(),
            r.y matches Some(second) && second.x@ == "nested2"@ && (second.y matches Some(third)
                && third.x@ == "nested3"@ && third.y is None),
    {
        Self {
            x: String::new(),
            y: Some(
                Box::new(
                    Rec {
                        x: "nested2".to_owned(),
                        y: Some(Box::new(Rec { x: "nested3".to_owned(), y: None })),
                    },
                ),
            ),
        }
    }
}

/// A choice among a bare name, a number, a record and a record of both.
#[derive(Debug)]
pub enum EnumComplex {
    A,
    B(i32),
    C(Complex),
    D { a: i32, b: Complex },
}

impl EnumComplex {
    /// What the choice is as a value: the bare name as a string, any
    /// other variant as a dictionary with the variant's name as its one
    /// key.
    pub open spec fn value(self) -> ValueV {
        match self {
            EnumComplex::A => ValueV::String("A"@),
            EnumComplex::B(v) => ValueV::Dict(dict_insert(Seq::empty(), "B"@, i32_value(v))),
            EnumComplex::C(c) => ValueV::Dict(dict_insert(Seq::empty(), "C"@, c.value())),
            EnumComplex::D { a, b } => ValueV::Dict(
                dict_insert(
                    Seq::empty(),
                    "D"@,
                    ValueV::Dict(
                        dict_insert(dict_insert(Seq::empty(), "a"@, i32_value(a)), "b"@, b.value()),
                    ),
                ),
            ),
        }
    }

    /// The value that a configuration source gives for it.
    pub fn to_value(&self) -> (r: Value)
        ensures
            r@ == self.value(),
    {
        match self {
            EnumComplex::A => Value::String("A".to_owned()),
            EnumComplex::B(v) => {
                let mut d = Dict::new();
                d.insert("B".to_owned(), Value::Num(Num::I32(*v)));
                Value::Dict(d)
            },
            EnumComplex::C(c) => {
                let mut d = Dict::new();
                d.insert("C".to_owned(), c.to_value());
                Value::Dict(d)
            },
            EnumComplex::D { a, b } => {
                let mut inner = Dict::new();
                inner.insert("a".to_owned(), Value::Num(Num::I32(*a)));
                inner.insert("b".to_owned(), b.to_value());
                let mut d = Dict::new();
                d.insert("D".to_owned(), Value::Dict(inner));
                Value::Dict(d)
            },
        }
    }
}

impl Default for EnumComplex {
    fn default() -> (r: Self)
        ensures
            r matches EnumComplex::C(c) && c.x@ == "hello"@ && c.y == 1,
    {
        Self::C(Complex { x: "hello".to_owned(), y: 1 })
    }
}

/// A value under the one key `x`.
pub open spec fn x_value(v: ValueV) -> ValueV {
    ValueV::Dict(dict_insert(Seq::empty(), "x"@, v))
}

/// The dictionary with `v` under the one key `x`.
fn under_x(v: Value) -> (r: Value)
    ensures
        r@ == x_value(v@),
{
    let mut d = Dict::new();
    d.insert("x".to_owned(), v);
    Value::Dict(d)
}

/// A configuration of one boolean.
#[derive(Debug)]
pub struct TestBool {
    pub x: bool,
}

impl TestBool {
    /// The value that a configuration source gives for it.
    pub fn to_value(&self) -> (r: Value)
        ensures
            r@ == x_value(ValueV::Bool(self.x)),
    {
        under_x(Value::Bool(self.x))
    }
}

impl Default for TestBool {
    fn default() -> (r: Self)
        ensures
            r.x == false,
    {
        Self { x: false }
    }
}

/// A configuration of one text.
#[derive(Debug)]
pub struct TestString {
    pub x: String,
}

impl TestString {
    /// The value that a configuration source gives for it.
    pub fn to_value(&self) -> (r: Value)
        ensures
            r@ == x_value(ValueV::String(self.x@)),
    {
        under_x(Value::String(self.x.clone()))
    }
}

impl Default for TestString {
    fn default() -> (r: Self)
        ensures
            r.x@ == Seq::<char>::empty(),
    {
        Self { x: String::new() }
    }
}

/// A configuration of one number.
#[derive(Debug)]
pub struct TestNumber {
    pub x: i32,
}

impl TestNumber {
    /// The value that a configuration source gives for it.
    pub fn to_value(&self) -> (r: Value)
        ensures
            r@ == x_value(i32_value(self.x)),
    {
        under_x(Value::Num(Num::I32(self.x)))
    }
}

impl Default for TestNumber {
    fn default() -> (r: Self)
        ensures
            r.x == 0,
    {
        Self { x: 0 }
    }
}

/// A configuration of one float.
#[derive(Debug)]
pub struct TestFloat {
    pub x: Float,
}

impl TestFloat {
    /// The value that a configuration source gives for it.
    pub fn to_value(&self) -> (r: Value)
        ensures
            r@ == x_value(ValueV::Num(NumV::Float { kind: NumberValueLight::F32, text: self.x@ })),
    {
        under_x(Value::Num(Num::F32(self.x.clone())))
    }
}

impl Default for TestFloat {
    fn default() -> (r: Self)
        ensures
            r.x@ == "0"@,
    {
        Self { x: Float::zero() }
    }
}

/// A choice among three bare names.
#[derive(Clone, Copy, Debug, PartialEq, Eq, Structural)]
pub enum EnumSimple {
    A,
    B,
    C,
}

impl EnumSimple {
    /// What the choice is as a value: its name.
    pub open spec fn value(self) -> ValueV {
        match self {
            EnumSimple::A => ValueV::String("A"@),
            EnumSimple::B => ValueV::String("B"@),
            EnumSimple::C => ValueV::String("C"@),
        }
    }

    /// The value that a configuration source gives for it.
    pub fn to_value(&self) -> (r: Value)
        ensures
            r@ == self.value(),
    {
        match self {
            EnumSimple::A => Value::String("A".to_owned()),
            EnumSimple::B => Value::String("B".to_owned()),
            EnumSimple::C => Value::String("C".to_owned()),
        }
    }
}

impl Default for EnumSimple {
    fn default() -> (r: Self)
        ensures
            r == EnumSimple::A,
    {
        EnumSimple::A
    }
}

/// A configuration of one choice among bare names.
#[derive(Debug)]
pub struct TestEnumSimple {
    pub x: EnumSimple,
}

impl TestEnumSimple {
    /// The value that a configuration source gives for it.
    pub fn to_value(&self) -> (r: Value)
        ensures
            r@ == x_value(self.x.value()),
    {
        under_x(self.x.to_value())
    }
}

impl Default for TestEnumSimple {
    fn default() -> (r: Self)
        ensures
            r.x == EnumSimple::A,
    {
        Self { x: EnumSimple::A }
    }
}

/// A configuration of one choice among variants of every kind.
#[derive(Debug)]
pub struct TestEnumComplex {
    pub x: EnumComplex,
}

impl TestEnumComplex {
    /// The value that a configuration source gives for it.
    pub fn to_value(&self) -> (r: Value)
        ensures
            r@ == x_value(self.x.value()),
    {
        under_x(self.x.to_value())
    }
}

impl Default for TestEnumComplex {
    fn default() -> (r: Self)
        ensures
            r.x matches EnumComplex::C(c) && c.x@ == "hello"@ && c.y == 1,
    {
        Self { x: EnumComplex::default() }
    }
}

/// A configuration of one text that may be absent.
#[derive(Debug)]
pub struct TestOption {
    pub x: Option<String>,
}

impl TestOption {
    /// The value that a configuration source gives for it.
    pub fn to_value(&self) -> (r: Value)
        ensures
            r@ == x_value(
                match self.x {
                    Some(s) => ValueV::String(s@),
                    None => ValueV::Empty(Empty::Nothing),
                },
            ),
    {
        under_x(
            match &self.x {
                Some(s) => Value::String(s.clone()),
                None => Value::Empty(Empty::Nothing),
            },
        )
    }
}

impl Default for TestOption {
    fn default() -> (r: Self)
        ensures
            r.x is None,
    {
        Self { x: None }
    }
}

/// What an optional record is as a value.
pub open spec fn opt_complex_value(c: Option<Complex>) -> ValueV {
    match c {
        Some(c) => c.value(),
        None => ValueV::Empty(Empty::Nothing),
    }
}

fn opt_complex_to_value(c: &Option<Complex>) -> (r: Value)
    ensures
        r@ == opt_complex_value(*c),
{
    match c {
        Some(c) => c.to_value(),
        None => Value::Empty(Empty::Nothing),
    }
}

/// A configuration of one record that may be absent.
#[derive(Debug)]
pub struct TestOptionComplex {
    pub x: Option<Complex>,
}

impl TestOptionComplex {
    /// The value that a configuration source gives for it.
    pub fn to_value(&self) -> (r: Value)
        ensures
            r@ == x_value(opt_complex_value(self.x)),
    {
        under_x(opt_complex_to_value(&self.x))
    }
}

impl Default for TestOptionComplex {
    fn default() -> (r: Self)
        ensures
            r.x is None,
    {
        Self { x: None }
    }
}

/// A configuration of one tuple.
#[derive(Debug)]
pub struct TestTuple {
    pub x: (Option<Complex>, i32, String),
}

impl TestTuple {
    /// The value that a configuration source gives for it.
    pub fn to_value(&self) -> (r: Value)
        ensures
            r@ == x_value(
                ValueV::Array(
                    seq![
                        opt_complex_value(self.x.0),
                        i32_value(self.x.1),
                        ValueV::String(self.x.2@),
                    ],
                ),
            ),
    {
        let mut items: Vec<Value> = Vec::new();
        items.push(opt_complex_to_value(&self.x.0));
        items.push(Value::Num(Num::I32(self.x.1)));
        items.push(Value::String(self.x.2.clone()));
        let ghost held = items@;
        let a = Value::Array(items);
        assert(a@->Array_0 == values_model(held));
        assert(held[0]@ == opt_complex_value(self.x.0));
        assert(held[1]@ == i32_value(self.x.1));
        assert(held[2]@ == ValueV::String(self.x.2@));
        assert(a@->Array_0 =~= seq![
            opt_complex_value(self.x.0),
            i32_value(self.x.1),
            ValueV::String(self.x.2@),
        ]);
        under_x(a)
    }
}

impl Default for TestTuple {
    fn default() -> (r: Self)
        ensures
            r.x.0 is None,
            r.x.1 == 0,
            r.x.2@ == Seq::<char>::empty(),
    {
        Self { x: (None, 0, String::new()) }
    }
}

/// What a list of records is as a value: the list of their values.
pub open spec fn complex_list_value(l: Seq<Complex>) -> ValueV {
    ValueV::Array(Seq::new(l.len(), |i: int| l[i].value()))
}

/// What a map of records is as a value: the dictionary of the first `n`
/// entries, each put under its key in turn.
pub open spec fn complex_map_entries(m: Seq<(String, Complex)>, n: nat) -> Seq<(Seq<char>, ValueV)>
    decreases n,
{
    if n == 0 || n > m.len() {
        Seq::empty()
    } else {
        dict_insert(complex_map_entries(m, (n - 1) as nat), m[n - 1].0@, m[n - 1].1.value())
    }
}

/// What a map of choices is as a value: the dictionary of the first `n`
/// entries, each put under its key in turn.
pub open spec fn enum_map_entries(m: Seq<(String, EnumComplex)>, n: nat) -> Seq<
    (Seq<char>, ValueV),
>
    decreases n,
{
    if n == 0 || n > m.len() {
        Seq::empty()
    } else {
        dict_insert(enum_map_entries(m, (n - 1) as nat), m[n - 1].0@, m[n - 1].1.value())
    }
}

fn complex_list_to_value(l: &Vec<Complex>) -> (r: Value)
    ensures
        r@ == complex_list_value(l@),
{
    let mut items: Vec<Value> = Vec::new();
    let mut i: usize = 0;
    while i < l.len()
        invariant
            i <= l.len(),
            items.len() == i,
            forall|j: int| 0 <= j < i ==> (#[trigger] items@[j])@ == l@[j].value(),
        decreases l.len() - i,
    {
        items.push(l[i].to_value());
        i += 1;
    }
    let a = Value::Array(items);
    assert(a@->Array_0 =~= Seq::new(l@.len(), |i: int| l@[i].value()));
    a
}

fn complex_map_to_value(m: &Vec<(String, Complex)>) -> (r: Value)
    ensures
        r@ == ValueV::Dict(complex_map_entries(m@, m@.len())),
{
    let mut d = Dict::new();
    let mut i: usize = 0;
    while i < m.len()
        invariant
            i <= m.len(),
            d.wf(),
            d@ == complex_map_entries(m@, i as nat),
        decreases m.len() - i,
    {
        d.insert(m[i].0.clone(), m[i].1.to_value());
        i += 1;
    }
    Value::Dict(d)
}

fn enum_map_to_value(m: &Vec<(String, EnumComplex)>) -> (r: Value)
    ensures
        r@ == ValueV::Dict(enum_map_entries(m@, m@.len())),
{
    let mut d = Dict::new();
    let mut i: usize = 0;
    while i < m.len()
        invariant
            i <= m.len(),
            d.wf(),
            d@ == enum_map_entries(m@, i as nat),
        decreases m.len() - i,
    {
        d.insert(m[i].0.clone(), m[i].1.to_value());
        i += 1;
    }
    Value::Dict(d)
}

/// A configuration of one list of records.
#[derive(Debug)]
pub struct TestVec {
    pub x: Vec<Complex>,
}

impl TestVec {
    /// The value that a configuration source gives for it.
    pub fn to_value(&self) -> (r: Value)
        ensures
            r@ == x_value(complex_list_value(self.x@)),
    {
        under_x(complex_list_to_value(&self.x))
    }
}

impl Default for TestVec {
    fn default() -> (r: Self)
        ensures
            r.x@.len() == 0,
    {
        Self { x: Vec::new() }
    }
}

/// A configuration of one map from keys to records, kept as its entries.
#[derive(Debug)]
pub struct TestHashMap {
    pub x: Vec<(String, Complex)>,
}

impl TestHashMap {
    /// The value that a configuration source gives for it.
    pub fn to_value(&self) -> (r: Value)
        ensures
            r@ == x_value(ValueV::Dict(complex_map_entries(self.x@, self.x@.len()))),
    {
        under_x(complex_map_to_value(&self.x))
    }
}

impl Default for TestHashMap {
    fn default() -> (r: Self)
        ensures
            r.x@.len() == 0,
    {
        Self { x: Vec::new() }
    }
}

/// A configuration that nests maps, choices, tuples and lists.
#[derive(Debug)]
pub struct TestVeryComplex {
    pub x: Vec<(String, Complex)>,
    pub y: EnumComplex,
    pub v: (Vec<EnumComplex>, Vec<(String, EnumComplex)>),
}

impl TestVeryComplex {
    /// What the configuration is as a value.
    pub open spec fn value(self) -> ValueV {
        ValueV::Dict(
            dict_insert(
                dict_insert(
                    dict_insert(
                        Seq::empty(),
                        "x"@,
                        ValueV::Dict(complex_map_entries(self.x@, self.x@.len())),
                    ),
                    "y"@,
                    self.y.value(),
                ),
                "v"@,
                ValueV::Array(
                    seq![
                        ValueV::Array(Seq::new(self.v.0@.len(), |i: int| self.v.0@[i].value())),
                        ValueV::Dict(enum_map_entries(self.v.1@, self.v.1@.len())),
                    ],
                ),
            ),
        )
    }

    /// The value that a configuration source gives for it.
    pub fn to_value(&self) -> (r: Value)
        ensures
            r@ == self.value(),
    {
        let mut choices: Vec<Value> = Vec::new();
        let mut i: usize = 0;
        while i < self.v.0.len()
            invariant
                i <= self.v.0.len(),
                choices.len() == i,
                forall|j: int| 0 <= j < i ==> (#[trigger] choices@[j])@ == self.v.0@[j].value(),
            decreases self.v.0.len() - i,
        {
            choices.push(self.v.0[i].to_value());
            i += 1;
        }
        let first = Value::Array(choices);
        assert(first@->Array_0 =~= Seq::new(self.v.0@.len(), |i: int| self.v.0@[i].value()));
        let mut pair: Vec<Value> = Vec::new();
        pair.push(first);
        pair.push(enum_map_to_value(&self.v.1));
        let v = Value::Array(pair);
        assert(v@->Array_0 =~= seq![
            ValueV::Array(Seq::new(self.v.0@.len(), |i: int| self.v.0@[i].value())),
            ValueV::Dict(enum_map_entries(self.v.1@, self.v.1@.len())),
        ]);
        let mut d = Dict::new();
        d.insert("x".to_owned(), complex_map_to_value(&self.x));
        d.insert("y".to_owned(), self.y.to_value());
        d.insert("v".to_owned(), v);
        Value::Dict(d)
    }
}

impl Default for TestVeryComplex {
    fn default() -> (r: Self)
        ensures
            r.x@.len() == 1,
            r.x@[0].0@ == "hello"@,
            r.x@[0].1.x@ == "default of complex mgl"@,
            r.x@[0].1.y == 10,
            r.y matches EnumComplex::C(c) && c.x@ == "hello"@ && c.y == 1,
            r.v.0@.len() == 2,
            r.v.0@[0] is A,
            r.v.0@[1] matches EnumComplex::D { a, b } && a == 5 && b.x@ == "bis"@ && b.y == 123,
            r.v.1@.len() == 1,
            r.v.1@[0].0@ == "lol"@,
            r.v.1@[0].1 matches EnumComplex::C(c) && c.x@ == "hello"@ && c.y == 1,
    {
        let mut x: Vec<(String, Complex)> = Vec::new();
        x.push(("hello".to_owned(), Complex::default()));
        let mut choices: Vec<EnumComplex> = Vec::new();
        choices.push(EnumComplex::A);
        choices.push(EnumComplex::D { a: 5, b: Complex { x: "bis".to_owned(), y: 123 } });
        let mut map: Vec<(String, EnumComplex)> = Vec::new();
        map.push(("lol".to_owned(), EnumComplex::default()));
        Self { x, y: EnumComplex::default(), v: (choices, map) }
    }
}

/// The settings of the editor itself.
#[derive(Debug)]
pub struct Config {
    pub last_used_page: Option<String>,
    pub cosmic_compat: bool,
    /// The pages that are not shown.
    pub masked: Vec<String>,
}

impl Default for Config {
    fn default() -> (r: Self)
        ensures
            r.last_used_page is None,
            r.cosmic_compat,
            r.masked@.len() == 0,
    {
        Self { last_used_page: None, cosmic_compat: true, masked: Vec::new() }
    }
}

} // verus!
