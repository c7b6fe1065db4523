//! Generic configuration values: what a layered configuration source
//! hands to the tree and what the tree hands back.
use vstd::prelude::*;
use crate::number::{Float, NumV, NumberValueLight, Wide};
use crate::text::{
    lemma_text_lt_connected,
    lemma_text_lt_irreflexive,
    lemma_text_lt_transitive,
    str_eq,
    str_lt,
    text_lt,
};

verus! {

/// A value with no value: nothing, or the unit.
#[derive(Clone, Copy, Debug, PartialEq, Eq, Structural)]
pub enum Empty {
    /// Like an `Option` that holds nothing.
    Nothing,
    /// Like `()`.
    Unit,
}

/// A number as a configuration source gives it.
#[derive(Debug)]
pub enum Num {
    U8(u8),
    U16(u16),
    U32(u32),
    U64(u64),
    U128(u128),
    USize(usize),
    I8(i8),
    I16(i16),
    I32(i32),
    I64(i64),
    I128(i128),
    ISize(isize),
    F32(Float),
    F64(Float),
}

impl View for Num {
    type V = NumV;

    open spec fn view(&self) -> NumV {
        match self {
            Num::U8(v) => NumV::Int { kind: NumberValueLight::U8, value: *v as int },
            Num::U16(v) => NumV::Int { kind: NumberValueLight::U16, value: *v as int },
            Num::U32(v) => NumV::Int { kind: NumberValueLight::U32, value: *v as int },
            Num::U64(v) => NumV::Int { kind: NumberValueLight::U64, value: *v as int },
            Num::U128(v) => NumV::Int { kind: NumberValueLight::U128, value: *v as int },
            Num::USize(v) => NumV::Int { kind: NumberValueLight::USize, value: *v as int },
            Num::I8(v) => NumV::Int { kind: NumberValueLight::I8, value: *v as int },
            Num::I16(v) => NumV::Int { kind: NumberValueLight::I16, value: *v as int },
            Num::I32(v) => NumV::Int { kind: NumberValueLight::I32, value: *v as int },
            Num::I64(v) => NumV::Int { kind: NumberValueLight::I64, value: *v as int },
            Num::I128(v) => NumV::Int { kind: NumberValueLight::I128, value: *v as int },
            Num::ISize(v) => NumV::Int { kind: NumberValueLight::ISize, value: *v as int },
            Num::F32(f) => NumV::Float { kind: NumberValueLight::F32, text: f@ },
            Num::F64(f) => NumV::Float { kind: NumberValueLight::F64, text: f@ },
        }
    }
}

impl Clone for Num {
    fn clone(&self) -> (r: Self)
        ensures
            r@ == self@,
    {
        match self {
            Num::U8(v) => Num::U8(*v),
            Num::U16(v) => Num::U16(*v),
            Num::U32(v) => Num::U32(*v),
            Num::U64(v) => Num::U64(*v),
            Num::U128(v) => Num::U128(*v),
            Num::USize(v) => Num::USize(*v),
            Num::I8(v) => Num::I8(*v),
            Num::I16(v) => Num::I16(*v),
            Num::I32(v) => Num::I32(*v),
            Num::I64(v) => Num::I64(*v),
            Num::I128(v) => Num::I128(*v),
            Num::ISize(v) => Num::ISize(*v),
            Num::F32(f) => Num::F32(f.clone()),
            Num::F64(f) => Num::F64(f.clone()),
        }
    }
}

/// What a number holds: an integer, or the text of a float.
pub(crate) enum NumParts<'a> {
    Int(Wide),
    Float(&'a Float),
}

impl Num {
    /// The integer or the float that the number holds.
    pub(crate) fn parts(&self) -> (r: NumParts<'_>)
        ensures
            match r {
                NumParts::Int(w) => w.wf() && self@ is Int && self@->value == w.value(),
                NumParts::Float(f) => self@ is Float && self@->text == f@,
            },
    {
        match self {
            Num::U8(v) => NumParts::Int(Wide::Pos(*v as u128)),
            Num::U16(v) => NumParts::Int(Wide::Pos(*v as u128)),
            Num::U32(v) => NumParts::Int(Wide::Pos(*v as u128)),
            Num::U64(v) => NumParts::Int(Wide::Pos(*v as u128)),
            Num::U128(v) => NumParts::Int(Wide::Pos(*v)),
            Num::USize(v) => NumParts::Int(Wide::Pos(*v as u128)),
            Num::I8(v) => NumParts::Int(signed_wide(*v as i128)),
            Num::I16(v) => NumParts::Int(signed_wide(*v as i128)),
            Num::I32(v) => NumParts::Int(signed_wide(*v as i128)),
            Num::I64(v) => NumParts::Int(signed_wide(*v as i128)),
            Num::I128(v) => NumParts::Int(signed_wide(*v)),
            Num::ISize(v) => NumParts::Int(signed_wide(*v as i128)),
            Num::F32(f) => NumParts::Float(f),
            Num::F64(f) => NumParts::Float(f),
        }
    }

    /// The number as a `u128` where it is an integer that is not negative.
    pub fn to_u128_lossy(&self) -> (r: Option<u128>)
        ensures
            r == unsigned_value(self@),
    {
        match self.parts() {
            NumParts::Int(Wide::Pos(v)) => Some(v),
            _ => None,
        }
    }
}

/// The integer of a number, where it is an integer and not negative.
pub open spec fn unsigned_value(n: NumV) -> Option<u128> {
    match n {
        NumV::Int { value, .. } => if 0 <= value <= u128::MAX {
            Some(value as u128)
        } else {
            None
        },
        NumV::Float { .. } => None,
    }
}

fn signed_wide(v: i128) -> (r: Wide)
    ensures
        r.wf(),
        r.value() == v,
{
    if v < 0 {
        Wide::Neg(v)
    } else {
        Wide::Pos(v as u128)
    }
}

/// A configuration value.
#[derive(Debug)]
pub enum Value {
    /// A string.
    String(String),
    /// A character.
    Char(char),
    /// A boolean.
    Bool(bool),
    /// A numeric value.
    Num(Num),
    /// A value with no value.
    Empty(Empty),
    /// A dictionary: a map from `String` to `Value`.
    Dict(Dict),
    /// A sequence/array/vector.
    Array(Vec<Value>),
}

/// A map from keys to values, kept in the order of its keys.
#[derive(Debug)]
pub struct Dict {
    pub(crate) entries: Vec<(String, Value)>,
}

/// What a configuration value is.
pub ghost enum ValueV {
    String(Seq<char>),
    Char(char),
    Bool(bool),
    Num(NumV),
    Empty(Empty),
    Dict(Seq<(Seq<char>, ValueV)>),
    Array(Seq<ValueV>),
}

/// The position of the first entry with key `k`, if there is one.
pub open spec fn key_index<A>(m: Seq<(Seq<char>, A)>, k: Seq<char>) -> Option<int>
    decreases m.len(),
{
    if m.len() == 0 {
        None
    } else {
        match key_index(m.drop_last(), k) {
            Some(i) => Some(i),
            None => if m.last().0 == k {
                Some(m.len() - 1)
            } else {
                None
            },
        }
    }
}

/// `key_index` gives a position that holds the key, with no such position
/// before it, and `None` only where no entry has the key.
pub proof fn lemma_key_index<A>(m: Seq<(Seq<char>, A)>, k: Seq<char>)
    ensures
        match key_index(m, k) {
            Some(i) => 0 <= i < m.len() && m[i].0 == k && forall|j: int|
                0 <= j < i ==> (#[trigger] m[j]).0 != k,
            None => forall|j: int| 0 <= j < m.len() ==> (#[trigger] m[j]).0 != k,
        },
    decreases m.len(),
{
    if m.len() > 0 {
        lemma_key_index(m.drop_last(), k);
        assert(forall|j: int| 0 <= j < m.len() - 1 ==> m.drop_last()[j] == m[j]);
    }
}

/// A position that holds the key, with no such position before it, is
/// what `key_index` gives.
pub proof fn lemma_key_index_is<A>(m: Seq<(Seq<char>, A)>, k: Seq<char>, i: int)
    requires
        0 <= i < m.len(),
        m[i].0 == k,
        forall|j: int| 0 <= j < i ==> (#[trigger] m[j]).0 != k,
    ensures
        key_index(m, k) == Some(i),
{
    lemma_key_index(m, k);
}

/// Where no entry has the key, `key_index` gives `None`.
pub proof fn lemma_key_index_none<A>(m: Seq<(Seq<char>, A)>, k: Seq<char>)
    requires
        forall|j: int| 0 <= j < m.len() ==> (#[trigger] m[j]).0 != k,
    ensures
        key_index(m, k) is None,
{
    lemma_key_index(m, k);
}

/// The value under key `k`, if there is one.
pub open spec fn key_value<A>(m: Seq<(Seq<char>, A)>, k: Seq<char>) -> Option<A> {
    match key_index(m, k) {
        Some(i) => Some(m[i].1),
        None => None,
    }
}

/// True where the keys stand in strictly rising order.
pub open spec fn keys_sorted<A>(m: Seq<(Seq<char>, A)>) -> bool {
    forall|i: int, j: int| 0 <= i < j < m.len() ==> text_lt(#[trigger] m[i].0, #[trigger] m[j].0)
}

/// The number of entries whose key is smaller than `k`.
pub open spec fn lower_count<A>(m: Seq<(Seq<char>, A)>, k: Seq<char>) -> int
    decreases m.len(),
{
    if m.len() == 0 {
        0
    } else {
        lower_count(m.drop_last(), k) + if text_lt(m.last().0, k) {
            1int
        } else {
            0int
        }
    }
}

/// The entries with `v` under key `k`: in place of the entry that had the
/// key, or else at the place that keeps the keys in order.
pub open spec fn dict_insert<A>(m: Seq<(Seq<char>, A)>, k: Seq<char>, v: A) -> Seq<
    (Seq<char>, A),
> {
    let p = lower_count(m, k);
    if 0 <= p < m.len() && m[p].0 == k {
        m.update(p, (k, v))
    } else {
        m.insert(p, (k, v))
    }
}

/// Where the first `p` keys are smaller than `k` and no other is, `p` is
/// the number of smaller keys.
pub proof fn lemma_lower_count<A>(m: Seq<(Seq<char>, A)>, k: Seq<char>, p: int)
    requires
        0 <= p <= m.len(),
        forall|j: int| 0 <= j < p ==> text_lt((#[trigger] m[j]).0, k),
        forall|j: int| p <= j < m.len() ==> !text_lt((#[trigger] m[j]).0, k),
    ensures
        lower_count(m, k) == p,
    decreases m.len(),
{
    if m.len() > 0 {
        assert(forall|j: int| 0 <= j < m.len() - 1 ==> m.drop_last()[j] == m[j]);
        if p == m.len() {
            lemma_lower_count(m.drop_last(), k, p - 1);
        } else {
            lemma_lower_count(m.drop_last(), k, p);
        }
    }
}

/// Putting a value under a key keeps sorted entries sorted, gives the key
/// that value and leaves every other key as it was.
pub proof fn lemma_dict_insert<A>(m: Seq<(Seq<char>, A)>, k: Seq<char>, v: A)
    requires
        keys_sorted(m),
    ensures
        keys_sorted(dict_insert(m, k, v)),
        key_value(dict_insert(m, k, v), k) == Some(v),
        forall|o: Seq<char>| o != k ==> key_value(dict_insert(m, k, v), o) == key_value(m, o),
{
    let p = lower_count(m, k);
    lemma_lower_count_bounds(m, k);
    let r = dict_insert(m, k, v);
    assert forall|i: int, j: int| 0 <= i < j < r.len() implies text_lt(
        #[trigger] r[i].0,
        #[trigger] r[j].0,
    ) by {
        if 0 <= p < m.len() && m[p].0 == k {
            assert(r[i].0 == m[i].0);
            assert(r[j].0 == m[j].0);
        } else {
            if j == p {
                assert(r[i] == m[i]);
            } else if i == p {
                assert(r[j] == m[j - 1]);
                if j - 1 > p {
                    assert(text_lt(m[p].0, m[j - 1].0));
                }
                if !text_lt(k, m[j - 1].0) {
                    lemma_text_lt_connected(k, m[j - 1].0);
                    if j - 1 > p {
                        lemma_text_lt_transitive(m[p].0, m[j - 1].0, k);
                    }
                }
            } else {
                let i0 = if i < p {
                    i
                } else {
                    i - 1
                };
                let j0 = if j < p {
                    j
                } else {
                    j - 1
                };
                assert(r[i] == m[i0]);
                assert(r[j] == m[j0]);
            }
        }
    }
    lemma_key_index(r, k);
    lemma_text_lt_irreflexive(k);
    let pos = if 0 <= p < m.len() && m[p].0 == k {
        p
    } else {
        p
    };
    assert(r[pos] == (k, v));
    assert forall|j: int| 0 <= j < r.len() && j != pos implies (#[trigger] r[j]).0 != k by {
        if j < pos {
            assert(text_lt(r[j].0, r[pos].0));
        } else {
            assert(text_lt(r[pos].0, r[j].0));
        }
    }
    assert forall|o: Seq<char>| o != k implies key_value(r, o) == key_value(m, o) by {
        lemma_key_index(r, o);
        lemma_key_index(m, o);
        lemma_sorted_keys_unique(m);
        lemma_sorted_keys_unique(r);
        match key_index(m, o) {
            Some(i) => {
                let ri = if 0 <= p < m.len() && m[p].0 == k {
                    i
                } else if i < p {
                    i
                } else {
                    i + 1
                };
                assert(r[ri] == m[i]);
            },
            None => {
                match key_index(r, o) {
                    Some(ri) => {
                        let i = if 0 <= p < m.len() && m[p].0 == k {
                            ri
                        } else if ri < p {
                            ri
                        } else {
                            ri - 1
                        };
                        assert(r[ri] == m[i]);
                    },
                    None => {},
                }
            },
        }
    }
}

/// Sorted keys are all different.
pub proof fn lemma_sorted_keys_unique<A>(m: Seq<(Seq<char>, A)>)
    requires
        keys_sorted(m),
    ensures
        forall|i: int, j: int|
            0 <= i < m.len() && 0 <= j < m.len() && i != j ==> (#[trigger] m[i]).0 != (
            #[trigger] m[j]).0,
{
    assert forall|i: int, j: int| 0 <= i < m.len() && 0 <= j < m.len() && i != j implies (
    #[trigger] m[i]).0 != (#[trigger] m[j]).0 by {
        lemma_text_lt_irreflexive(m[i].0);
        if i < j {
            assert(text_lt(m[i].0, m[j].0));
        } else {
            assert(text_lt(m[j].0, m[i].0));
        }
    }
}

/// In sorted entries the keys smaller than `k` are the first ones.
pub proof fn lemma_lower_count_bounds<A>(m: Seq<(Seq<char>, A)>, k: Seq<char>)
    requires
        keys_sorted(m),
    ensures
        0 <= lower_count(m, k) <= m.len(),
        forall|j: int| 0 <= j < lower_count(m, k) ==> text_lt((#[trigger] m[j]).0, k),
        forall|j: int| lower_count(m, k) <= j < m.len() ==> !text_lt((#[trigger] m[j]).0, k),
    decreases m.len(),
{
    if m.len() > 0 {
        let d = m.drop_last();
        assert(forall|j: int| 0 <= j < m.len() - 1 ==> d[j] == m[j]);
        assert(keys_sorted(d)) by {
            assert forall|i: int, j: int| 0 <= i < j < d.len() implies text_lt(
                #[trigger] d[i].0,
                #[trigger] d[j].0,
            ) by {
                assert(text_lt(m[i].0, m[j].0));
            }
        }
        lemma_lower_count_bounds(d, k);
        let p = lower_count(d, k);
        if text_lt(m.last().0, k) {
            assert forall|j: int| 0 <= j < m.len() - 1 implies text_lt((#[trigger] m[j]).0, k) by {
                assert(text_lt(m[j].0, m[m.len() - 1].0));
                lemma_text_lt_transitive(m[j].0, m.last().0, k);
            }
            if p < d.len() {
                assert(!text_lt(m[p].0, k));
                assert(false);
            }
        }
    }
}

/// What a value is.
pub open spec fn value_model(v: Value) -> ValueV
    decreases v,
{
    match v {
        Value::String(s) => ValueV::String(s@),
        Value::Char(c) => ValueV::Char(c),
        Value::Bool(b) => ValueV::Bool(b),
        Value::Num(n) => ValueV::Num(n@),
        Value::Empty(e) => ValueV::Empty(e),
        Value::Dict(d) => ValueV::Dict(dict_entries(d)),
        Value::Array(a) => ValueV::Array(values_model(a@)),
    }
}

/// The entries of a dictionary.
pub closed spec fn dict_entries(d: Dict) -> Seq<(Seq<char>, ValueV)>
    decreases d,
{
    entries_model(d.entries@)
}

/// What a list of values is.
pub open spec fn values_model(a: Seq<Value>) -> Seq<ValueV>
    decreases a,
{
    Seq::new(
        a.len(),
        |i: int|
            if 0 <= i < a.len() {
                value_model(a[i])
            } else {
                arbitrary()
            },
    )
}

/// What a list of entries is.
pub open spec fn entries_model(e: Seq<(String, Value)>) -> Seq<(Seq<char>, ValueV)>
    decreases e,
{
    Seq::new(
        e.len(),
        |i: int|
            if 0 <= i < e.len() {
                (e[i].0@, value_model(e[i].1))
            } else {
                arbitrary()
            },
    )
}

impl View for Value {
    type V = ValueV;

    open spec fn view(&self) -> ValueV {
        value_model(*self)
    }
}

impl View for Dict {
    type V = Seq<(Seq<char>, ValueV)>;

    open spec fn view(&self) -> Seq<(Seq<char>, ValueV)> {
        dict_entries(*self)
    }
}

impl Clone for Value {
    #[verifier::loop_isolation(false)]
    fn clone(&self) -> (r: Self)
        ensures
            r@ == self@,
        decreases self,
    {
        match self {
            Value::String(s) => Value::String(s.clone()),
            Value::Char(c) => Value::Char(*c),
            Value::Bool(b) => Value::Bool(*b),
            Value::Num(n) => Value::Num(n.clone()),
            Value::Empty(e) => Value::Empty(*e),
            Value::Dict(d) => {
                let mut entries: Vec<(String, Value)> = Vec::new();
                let mut i: usize = 0;
                while i < d.entries.len()
                    invariant
                        i <= d.entries.len(),
                        entries.len() == i,
                        forall|j: int|
                            0 <= j < i ==> (#[trigger] entries@[j]).0@ == d.entries@[j].0@
                                && value_model(entries@[j].1) == value_model(d.entries@[j].1),
                    decreases d.entries.len() - i,
                {
                    let v = d.entries[i].1.clone();
                    entries.push((d.entries[i].0.clone(), v));
                    i += 1;
                }
                assert(entries_model(entries@) =~= entries_model(d.entries@));
                Value::Dict(Dict { entries })
            },
            Value::Array(a) => {
                let mut out: Vec<Value> = Vec::new();
                let mut i: usize = 0;
                while i < a.len()
                    invariant
                        i <= a.len(),
                        out.len() == i,
                        forall|j: int|
                            0 <= j < i ==> value_model(#[trigger] out@[j]) == value_model(a@[j]),
                    decreases a.len() - i,
                {
                    let v = a[i].clone();
                    out.push(v);
                    i += 1;
                }
                assert(values_model(out@) =~= values_model(a@));
                Value::Array(out)
            },
        }
    }
}

impl Clone for Dict {
    fn clone(&self) -> (r: Self)
        ensures
            r@ == self@,
    {
        let mut entries: Vec<(String, Value)> = Vec::new();
        let mut i: usize = 0;
        while i < self.entries.len()
            invariant
                i <= self.entries.len(),
                entries.len() == i,
                forall|j: int|
                    0 <= j < i ==> (#[trigger] entries@[j]).0@ == self.entries@[j].0@
                        && value_model(entries@[j].1) == value_model(self.entries@[j].1),
            decreases self.entries.len() - i,
        {
            entries.push((self.entries[i].0.clone(), self.entries[i].1.clone()));
            i += 1;
        }
        assert(entries_model(entries@) =~= entries_model(self.entries@));
        Dict { entries }
    }
}

impl Dict {
    /// The keys of a dictionary stand in strictly rising order.
    pub open spec fn wf(&self) -> bool {
        keys_sorted(self@)
    }

    /// A dictionary without entries.
    pub fn new() -> (r: Dict)
        ensures
            r@ == Seq::<(Seq<char>, ValueV)>::empty(),
            r.wf(),
            value_well_formed(ValueV::Dict(r@)),
    {
        let r = Dict { entries: Vec::new() };
        assert(r@ =~= Seq::<(Seq<char>, ValueV)>::empty());
        r
    }

    /// The number of entries.
    pub fn len(&self) -> (r: usize)
        ensures
            r == self@.len(),
    {
        self.entries.len()
    }

    /// The key of the entry at a position.
    pub fn key_at(&self, i: usize) -> (r: &String)
        requires
            i < self@.len(),
        ensures
            r@ == self@[i as int].0,
    {
        &self.entries[i].0
    }

    /// The value of the entry at a position.
    pub fn value_at(&self, i: usize) -> (r: &Value)
        requires
            i < self@.len(),
        ensures
            r@ == self@[i as int].1,
    {
        &self.entries[i].1
    }

    /// The position of a key, if the dictionary has it.
    pub fn index_of(&self, key: &str) -> (r: Option<usize>)
        ensures
            match r {
                Some(i) => key_index(self@, key@) == Some(i as int),
                None => key_index(self@, key@) is None,
            },
    {
        let mut i: usize = 0;
        while i < self.entries.len()
            invariant
                i <= self.entries.len(),
                forall|j: int| 0 <= j < i ==> (#[trigger] self@[j]).0 != key@,
            decreases self.entries.len() - i,
        {
            if str_eq(self.entries[i].0.as_str(), key) {
                proof {
                    lemma_key_index_is(self@, key@, i as int);
                }
                return Some(i);
            }
            i += 1;
        }
        proof {
            lemma_key_index_none(self@, key@);
        }
        None
    }

    /// The value under a key, if the dictionary has it.
    pub fn get(&self, key: &str) -> (r: Option<&Value>)
        ensures
            match r {
                Some(v) => key_value(self@, key@) == Some(v@),
                None => key_value(self@, key@) is None,
            },
    {
        match self.index_of(key) {
            Some(i) => {
                proof {
                    lemma_key_index(self@, key@);
                }
                Some(&self.entries[i].1)
            },
            None => None,
        }
    }

    /// Puts a value under a key: in place of the value that the key had,
    /// or as a new entry at the key's place in the order.
    pub fn insert(&mut self, key: String, value: Value)
        requires
            old(self).wf(),
        ensures
            final(self)@ == dict_insert(old(self)@, key@, value@),
            final(self).wf(),
            value_well_formed(ValueV::Dict(old(self)@)) && value_well_formed(value@)
                ==> value_well_formed(ValueV::Dict(final(self)@)),
    {
        proof {
            if value_well_formed(ValueV::Dict(self@)) && value_well_formed(value@) {
                crate::laws::well_formed::lemma_dict_insert_well_formed(self@, key@, value@);
            }
        }
        let ghost m = self@;
        let mut i: usize = 0;
        while i < self.entries.len() && str_lt(self.entries[i].0.as_str(), key.as_str())
            invariant
                i <= self.entries.len(),
                self@ == m,
                forall|j: int| 0 <= j < i ==> text_lt((#[trigger] m[j]).0, key@),
            decreases self.entries.len() - i,
        {
            i += 1;
        }
        proof {
            assert forall|j: int| i <= j < m.len() implies !text_lt((#[trigger] m[j]).0, key@) by {
                if j > i {
                    assert(text_lt(m[i as int].0, m[j].0));
                    if text_lt(m[j].0, key@) {
                        lemma_text_lt_transitive(m[i as int].0, m[j].0, key@);
                    }
                }
            }
            lemma_lower_count(m, key@, i as int);
            lemma_dict_insert(m, key@, value@);
        }
        if i < self.entries.len() && str_eq(self.entries[i].0.as_str(), key.as_str()) {
            self.entries.set(i, (key, value));
            assert(self@ =~= dict_insert(m, key@, value@));
        } else {
            self.entries.insert(i, (key, value));
            assert(self@ =~= dict_insert(m, key@, value@));
        }
    }
}

impl Num {
    /// True where both are the same number of the same kind.
    pub fn same(&self, other: &Num) -> (r: bool)
        ensures
            r == (self@ == other@),
    {
        match (self, other) {
            (Num::U8(a), Num::U8(b)) => *a == *b,
            (Num::U16(a), Num::U16(b)) => *a == *b,
            (Num::U32(a), Num::U32(b)) => *a == *b,
            (Num::U64(a), Num::U64(b)) => *a == *b,
            (Num::U128(a), Num::U128(b)) => *a == *b,
            (Num::USize(a), Num::USize(b)) => *a == *b,
            (Num::I8(a), Num::I8(b)) => *a == *b,
            (Num::I16(a), Num::I16(b)) => *a == *b,
            (Num::I32(a), Num::I32(b)) => *a == *b,
            (Num::I64(a), Num::I64(b)) => *a == *b,
            (Num::I128(a), Num::I128(b)) => *a == *b,
            (Num::ISize(a), Num::ISize(b)) => *a == *b,
            (Num::F32(a), Num::F32(b)) => a.same(b),
            (Num::F64(a), Num::F64(b)) => a.same(b),
            _ => false,
        }
    }
}

impl Value {
    /// True where both values hold the same.
    #[verifier::loop_isolation(false)]
    pub fn same(&self, other: &Value) -> (r: bool)
        ensures
            r == (self@ == other@),
        decreases self,
    {
        match (self, other) {
            (Value::String(a), Value::String(b)) => *a == *b,
            (Value::Char(a), Value::Char(b)) => *a == *b,
            (Value::Bool(a), Value::Bool(b)) => *a == *b,
            (Value::Num(a), Value::Num(b)) => a.same(b),
            (Value::Empty(a), Value::Empty(b)) => *a == *b,
            (Value::Dict(a), Value::Dict(b)) => {
                let ghost am = self@->Dict_0;
                let ghost bm = other@->Dict_0;
                assert(am == entries_model(a.entries@));
                assert(bm == entries_model(b.entries@));
                if a.entries.len() != b.entries.len() {
                    assert(am.len() != bm.len());
                    return false;
                }
                let mut i: usize = 0;
                while i < a.entries.len()
                    invariant
                        i <= a.entries.len(),
                        a.entries.len() == b.entries.len(),
                        forall|j: int| 0 <= j < i ==> am[j] == bm[j],
                    decreases a.entries.len() - i,
                {
                    let same_key = a.entries[i].0 == b.entries[i].0;
                    if !same_key || !a.entries[i].1.same(&b.entries[i].1) {
                        assert(am[i as int] != bm[i as int]);
                        return false;
                    }
                    i += 1;
                }
                assert(am =~= bm);
                true
            },
            (Value::Array(a), Value::Array(b)) => {
                let ghost am = self@->Array_0;
                let ghost bm = other@->Array_0;
                assert(am == values_model(a@));
                assert(bm == values_model(b@));
                if a.len() != b.len() {
                    assert(am.len() != bm.len());
                    return false;
                }
                let mut i: usize = 0;
                while i < a.len()
                    invariant
                        i <= a.len(),
                        a.len() == b.len(),
                        forall|j: int| 0 <= j < i ==> am[j] == bm[j],
                    decreases a.len() - i,
                {
                    if !a[i].same(&b[i]) {
                        assert(am[i as int] != bm[i as int]);
                        return false;
                    }
                    i += 1;
                }
                assert(am =~= bm);
                true
            },
            _ => false,
        }
    }
}

/// True where the keys of every dictionary of a value stand in strictly
/// rising order, as a dictionary keeps them.
pub open spec fn value_well_formed(v: ValueV) -> bool
    decreases v,
{
    match v {
        ValueV::Dict(d) => keys_sorted(d) && forall|i: int|
            0 <= i < d.len() ==> value_well_formed((#[trigger] d[i]).1),
        ValueV::Array(a) => forall|i: int| 0 <= i < a.len() ==> value_well_formed(#[trigger] a[i]),
        _ => true,
    }
}

} // verus!
