//! The number model: the numeric kinds a schema can ask for, numbers of
//! those kinds, and how text and other numbers are turned into them.
use vstd::prelude::*;
use vstd::string::StrSliceExecFns;
use crate::node::NodeNumber;
use crate::value::{Num, NumParts};
use crate::text::{
    decimal_text, digit_value, i128_to_text, integer_value, parse_i128, parse_u128, str_eq,
    u128_to_text,
};

verus! {

/// The kind of a number, without a value.
#[derive(Clone, Copy, Debug, PartialEq, Eq, Structural)]
pub enum NumberValueLight {
    U8,
    U16,
    U32,
    U64,
    U128,
    USize,
    I8,
    I16,
    I32,
    I64,
    I128,
    ISize,
    F32,
    F64,
}

/// True for the two floating-point kinds.
pub open spec fn kind_is_float(kind: NumberValueLight) -> bool {
    kind == NumberValueLight::F32 || kind == NumberValueLight::F64
}

/// True for the integer kinds that hold negative numbers.
pub open spec fn kind_is_signed(kind: NumberValueLight) -> bool {
    match kind {
        NumberValueLight::I8 | NumberValueLight::I16 | NumberValueLight::I32
        | NumberValueLight::I64 | NumberValueLight::I128 | NumberValueLight::ISize => true,
        _ => false,
    }
}

/// The smallest integer of an integer kind.
pub open spec fn kind_min(kind: NumberValueLight) -> int {
    match kind {
        NumberValueLight::I8 => i8::MIN as int,
        NumberValueLight::I16 => i16::MIN as int,
        NumberValueLight::I32 => i32::MIN as int,
        NumberValueLight::I64 => i64::MIN as int,
        NumberValueLight::I128 => i128::MIN as int,
        NumberValueLight::ISize => isize::MIN as int,
        _ => 0,
    }
}

/// The largest integer of an integer kind.
pub open spec fn kind_max(kind: NumberValueLight) -> int {
    match kind {
        NumberValueLight::U8 => u8::MAX as int,
        NumberValueLight::U16 => u16::MAX as int,
        NumberValueLight::U32 => u32::MAX as int,
        NumberValueLight::U64 => u64::MAX as int,
        NumberValueLight::U128 => u128::MAX as int,
        NumberValueLight::USize => usize::MAX as int,
        NumberValueLight::I8 => i8::MAX as int,
        NumberValueLight::I16 => i16::MAX as int,
        NumberValueLight::I32 => i32::MAX as int,
        NumberValueLight::I64 => i64::MAX as int,
        NumberValueLight::I128 => i128::MAX as int,
        NumberValueLight::ISize => isize::MAX as int,
        _ => 0,
    }
}

/// True where `v` is an integer that the integer kind `kind` can hold.
pub open spec fn kind_holds(kind: NumberValueLight, v: int) -> bool {
    !kind_is_float(kind) && kind_min(kind) <= v <= kind_max(kind)
}

/// True for a decimal digit.
pub open spec fn is_digit(c: char) -> bool {
    digit_value(c) is Some
}

/// The number of decimal digits that stand in `s` from position `from` on
/// without a break.
pub open spec fn digit_run(s: Seq<char>, from: int) -> int
    decreases s.len() - from,
{
    if 0 <= from < s.len() && is_digit(s[from]) {
        1 + digit_run(s, from + 1)
    } else {
        0
    }
}

/// 1 where a sign stands at `from`, else 0.
pub open spec fn sign_len(s: Seq<char>, from: int) -> int {
    if 0 <= from < s.len() && (s[from] == '+' || s[from] == '-') {
        1
    } else {
        0
    }
}

/// True where `s` from `from` to its end is the word `w`, whatever the
/// case of its letters; `w` is given in lower case.
pub open spec fn is_word_at(s: Seq<char>, from: int, w: Seq<char>) -> bool {
    &&& 0 <= from
    &&& s.len() - from == w.len()
    &&& forall|i: int| 0 <= i < w.len() ==> lower_letter(#[trigger] s[from + i]) == w[i]
}

/// The lower-case form of the letters that the words of a float use.
pub open spec fn lower_letter(c: char) -> char {
    if c == 'I' {
        'i'
    } else if c == 'N' {
        'n'
    } else if c == 'F' {
        'f'
    } else if c == 'T' {
        't'
    } else if c == 'Y' {
        'y'
    } else if c == 'A' {
        'a'
    } else {
        c
    }
}

/// True where an exponent stands in `s` from `from` to its end: `e` or
/// `E`, an optional sign, one or more digits.
pub open spec fn is_exponent_at(s: Seq<char>, from: int) -> bool {
    &&& 0 <= from < s.len()
    &&& (s[from] == 'e' || s[from] == 'E')
    &&& digit_run(s, from + 1 + sign_len(s, from + 1)) > 0
    &&& from + 1 + sign_len(s, from + 1) + digit_run(s, from + 1 + sign_len(s, from + 1))
        == s.len()
}

/// True where a decimal number stands in `s` from `from` to its end:
/// digits with at most one point among them, at least one digit, and an
/// optional exponent.
pub open spec fn is_decimal_at(s: Seq<char>, from: int) -> bool {
    let whole = digit_run(s, from);
    let point = from + whole < s.len() && s[from + whole] == '.';
    let fraction = if point {
        digit_run(s, from + whole + 1)
    } else {
        0
    };
    let end = from + whole + (if point {
        1 + fraction
    } else {
        0
    });
    &&& 0 <= from
    &&& whole + fraction > 0
    &&& (end == s.len() || is_exponent_at(s, end))
}

/// The texts that write a floating-point number: an optional sign, then
/// `inf`, `infinity`, `nan` or a decimal number.
pub open spec fn is_float_text(s: Seq<char>) -> bool {
    let from = sign_len(s, 0);
    ||| is_word_at(s, from, seq!['i', 'n', 'f'])
    ||| is_word_at(s, from, seq!['i', 'n', 'f', 'i', 'n', 'i', 't', 'y'])
    ||| is_word_at(s, from, seq!['n', 'a', 'n'])
    ||| is_decimal_at(s, from)
}

/// A floating-point number, carried as the text that writes it. The
/// library does no floating-point arithmetic: it only tells which texts
/// write such a number.
#[derive(Debug)]
pub struct Float {
    text: String,
}

impl View for Float {
    type V = Seq<char>;

    closed spec fn view(&self) -> Seq<char> {
        self.text@
    }
}

impl Clone for Float {
    fn clone(&self) -> (r: Self)
        ensures
            r@ == self@,
    {
        Float { text: self.text.clone() }
    }
}

/// The characters of a text, one by one.
fn chars_of(s: &str) -> (r: Vec<char>)
    ensures
        r@ == s@,
{
    let n = s.unicode_len();
    let mut out: Vec<char> = Vec::new();
    let mut i: usize = 0;
    while i < n
        invariant
            i <= n,
            n == s@.len(),
            out@ == s@.subrange(0, i as int),
        decreases n - i,
    {
        out.push(s.get_char(i));
        assert(out@ =~= s@.subrange(0, i + 1));
        i += 1;
    }
    assert(out@ =~= s@);
    out
}

fn is_digit_char(c: char) -> (r: bool)
    ensures
        r == is_digit(c),
{
    c == '0' || c == '1' || c == '2' || c == '3' || c == '4' || c == '5' || c == '6' || c == '7'
        || c == '8' || c == '9'
}

fn count_digits(s: &Vec<char>, from: usize) -> (r: usize)
    requires
        from <= s.len(),
    ensures
        r == digit_run(s@, from as int),
        from + r <= s.len(),
{
    let mut i: usize = from;
    while i < s.len() && is_digit_char(s[i])
        invariant
            from <= i <= s.len(),
            digit_run(s@, from as int) == (i - from) + digit_run(s@, i as int),
        decreases s.len() - i,
    {
        i += 1;
    }
    i - from
}

fn word_at(s: &Vec<char>, from: usize, w: &Vec<char>) -> (r: bool)
    requires
        from <= s.len(),
    ensures
        r == is_word_at(s@, from as int, w@),
{
    if s.len() - from != w.len() {
        return false;
    }
    let mut i: usize = 0;
    while i < w.len()
        invariant
            i <= w.len(),
            from <= s.len(),
            s.len() - from == w.len(),
            forall|j: int| 0 <= j < i ==> lower_letter(#[trigger] s@[from + j]) == w@[j],
        decreases w.len() - i,
    {
        let c = s[from + i];
        let l = if c == 'I' {
            'i'
        } else if c == 'N' {
            'n'
        } else if c == 'F' {
            'f'
        } else if c == 'T' {
            't'
        } else if c == 'Y' {
            'y'
        } else if c == 'A' {
            'a'
        } else {
            c
        };
        if l != w[i] {
            assert(lower_letter(s@[from + i]) != w@[i as int]);
            return false;
        }
        i += 1;
    }
    true
}

fn sign_at(s: &Vec<char>, from: usize) -> (r: usize)
    ensures
        r == sign_len(s@, from as int),
{
    if from < s.len() && (s[from] == '+' || s[from] == '-') {
        1
    } else {
        0
    }
}

fn exponent_at(s: &Vec<char>, from: usize) -> (r: bool)
    requires
        from <= s.len(),
    ensures
        r == is_exponent_at(s@, from as int),
{
    if from >= s.len() {
        return false;
    }
    if !(s[from] == 'e' || s[from] == 'E') {
        return false;
    }
    let start = from + 1 + sign_at(s, from + 1);
    let run = count_digits(s, start);
    run > 0 && start + run == s.len()
}

fn decimal_at(s: &Vec<char>, from: usize) -> (r: bool)
    requires
        from <= s.len(),
    ensures
        r == is_decimal_at(s@, from as int),
{
    let whole = count_digits(s, from);
    let point = from + whole < s.len() && s[from + whole] == '.';
    let fraction = if point {
        count_digits(s, from + whole + 1)
    } else {
        0
    };
    let end = if point {
        from + whole + 1 + fraction
    } else {
        from + whole
    };
    if whole == 0 && fraction == 0 {
        return false;
    }
    end == s.len() || exponent_at(s, end)
}

impl Float {
    /// Takes a text as a floating-point number, if it writes one.
    pub fn parse(text: &str) -> (r: Option<Float>)
        ensures
            r is Some == is_float_text(text@),
            r matches Some(f) ==> f@ == text@,
    {
        let s = chars_of(text);
        let from = sign_at(&s, 0);
        let mut inf: Vec<char> = Vec::new();
        inf.push('i');
        inf.push('n');
        inf.push('f');
        let mut nan: Vec<char> = Vec::new();
        nan.push('n');
        nan.push('a');
        nan.push('n');
        let mut infinity: Vec<char> = Vec::new();
        infinity.push('i');
        infinity.push('n');
        infinity.push('f');
        infinity.push('i');
        infinity.push('n');
        infinity.push('i');
        infinity.push('t');
        infinity.push('y');
        assert(inf@ =~= seq!['i', 'n', 'f']);
        assert(nan@ =~= seq!['n', 'a', 'n']);
        assert(infinity@ =~= seq!['i', 'n', 'f', 'i', 'n', 'i', 't', 'y']);
        if word_at(&s, from, &inf) || word_at(&s, from, &infinity) || word_at(&s, from, &nan)
            || decimal_at(&s, from) {
            Some(Float { text: text.to_owned() })
        } else {
            None
        }
    }

    /// The float zero.
    pub fn zero() -> (r: Float)
        ensures
            r@ == "0"@,
            is_float_text(r@),
    {
        proof {
            reveal_strlit("0");
            let s = "0"@;
            assert(s.len() == 1 && s[0] == '0');
            assert(digit_run(s, 1) == 0);
            assert(digit_run(s, 0) == 1);
            assert(is_decimal_at(s, 0));
        }
        Float { text: "0".to_owned() }
    }

    /// True where both are carried as the same text.
    pub fn same(&self, other: &Float) -> (r: bool)
        ensures
            r == (self@ == other@),
    {
        self.text == other.text
    }

    /// The text that writes the number.
    pub fn text(&self) -> (r: &str)
        ensures
            r@ == self@,
    {
        self.text.as_str()
    }
}

/// A number of one of the kinds.
#[derive(Debug)]
pub enum NumberValue {
    /// An 8-bit unsigned integer.
    U8(u8),
    /// A 16-bit unsigned integer.
    U16(u16),
    /// A 32-bit unsigned integer.
    U32(u32),
    /// A 64-bit unsigned integer.
    U64(u64),
    /// A 128-bit unsigned integer.
    U128(u128),
    /// An unsigned integer of platform width.
    USize(usize),
    /// An 8-bit signed integer.
    I8(i8),
    /// A 16-bit signed integer.
    I16(i16),
    /// A 32-bit signed integer.
    I32(i32),
    /// A 64-bit signed integer.
    I64(i64),
    /// A 128-bit signed integer.
    I128(i128),
    /// A signed integer of platform width.
    ISize(isize),
    /// A 32-bit wide float.
    F32(Float),
    /// A 64-bit wide float.
    F64(Float),
}

/// What a number is: its kind, and its integer or the text of its float.
pub ghost enum NumV {
    Int { kind: NumberValueLight, value: int },
    Float { kind: NumberValueLight, text: Seq<char> },
}

impl NumV {
    /// The kind of the number.
    pub open spec fn kind(self) -> NumberValueLight {
        match self {
            NumV::Int { kind, .. } => kind,
            NumV::Float { kind, .. } => kind,
        }
    }

    /// The text that shows the number.
    pub open spec fn text(self) -> Seq<char> {
        match self {
            NumV::Int { value, .. } => decimal_text(value),
            NumV::Float { text, .. } => text,
        }
    }
}

impl View for NumberValue {
    type V = NumV;

    open spec fn view(&self) -> NumV {
        match self {
            NumberValue::U8(v) => NumV::Int { kind: NumberValueLight::U8, value: *v as int },
            NumberValue::U16(v) => NumV::Int { kind: NumberValueLight::U16, value: *v as int },
            NumberValue::U32(v) => NumV::Int { kind: NumberValueLight::U32, value: *v as int },
            NumberValue::U64(v) => NumV::Int { kind: NumberValueLight::U64, value: *v as int },
            NumberValue::U128(v) => NumV::Int { kind: NumberValueLight::U128, value: *v as int },
            NumberValue::USize(v) => NumV::Int { kind: NumberValueLight::USize, value: *v as int },
            NumberValue::I8(v) => NumV::Int { kind: NumberValueLight::I8, value: *v as int },
            NumberValue::I16(v) => NumV::Int { kind: NumberValueLight::I16, value: *v as int },
            NumberValue::I32(v) => NumV::Int { kind: NumberValueLight::I32, value: *v as int },
            NumberValue::I64(v) => NumV::Int { kind: NumberValueLight::I64, value: *v as int },
            NumberValue::I128(v) => NumV::Int { kind: NumberValueLight::I128, value: *v as int },
            NumberValue::ISize(v) => NumV::Int { kind: NumberValueLight::ISize, value: *v as int },
            NumberValue::F32(f) => NumV::Float { kind: NumberValueLight::F32, text: f@ },
            NumberValue::F64(f) => NumV::Float { kind: NumberValueLight::F64, text: f@ },
        }
    }
}

impl Clone for NumberValue {
    fn clone(&self) -> (r: Self)
        ensures
            r@ == self@,
    {
        match self {
            NumberValue::U8(v) => NumberValue::U8(*v),
            NumberValue::U16(v) => NumberValue::U16(*v),
            NumberValue::U32(v) => NumberValue::U32(*v),
            NumberValue::U64(v) => NumberValue::U64(*v),
            NumberValue::U128(v) => NumberValue::U128(*v),
            NumberValue::USize(v) => NumberValue::USize(*v),
            NumberValue::I8(v) => NumberValue::I8(*v),
            NumberValue::I16(v) => NumberValue::I16(*v),
            NumberValue::I32(v) => NumberValue::I32(*v),
            NumberValue::I64(v) => NumberValue::I64(*v),
            NumberValue::I128(v) => NumberValue::I128(*v),
            NumberValue::ISize(v) => NumberValue::ISize(*v),
            NumberValue::F32(f) => NumberValue::F32(f.clone()),
            NumberValue::F64(f) => NumberValue::F64(f.clone()),
        }
    }
}

/// The kind that a schema's `format` word names.
pub open spec fn kind_of_format(s: Seq<char>) -> Option<NumberValueLight> {
    if s == "uint8"@ {
        Some(NumberValueLight::U8)
    } else if s == "uint16"@ {
        Some(NumberValueLight::U16)
    } else if s == "uint32"@ {
        Some(NumberValueLight::U32)
    } else if s == "uint64"@ {
        Some(NumberValueLight::U64)
    } else if s == "uint128"@ {
        Some(NumberValueLight::U128)
    } else if s == "usize"@ {
        Some(NumberValueLight::USize)
    } else if s == "int8"@ {
        Some(NumberValueLight::I8)
    } else if s == "int16"@ {
        Some(NumberValueLight::I16)
    } else if s == "int32"@ {
        Some(NumberValueLight::I32)
    } else if s == "int64"@ {
        Some(NumberValueLight::I64)
    } else if s == "int128"@ {
        Some(NumberValueLight::I128)
    } else if s == "isize"@ {
        Some(NumberValueLight::ISize)
    } else if s == "float"@ {
        Some(NumberValueLight::F32)
    } else if s == "float64"@ {
        Some(NumberValueLight::F64)
    } else {
        None
    }
}

/// The number of kind `kind` that the text `s` writes, if any: for an
/// integer kind a decimal integer in the kind's range, for a float kind
/// any text that writes a float.
pub open spec fn parsed_number(kind: NumberValueLight, s: Seq<char>) -> Option<NumV> {
    if kind_is_float(kind) {
        if is_float_text(s) {
            Some(NumV::Float { kind, text: s })
        } else {
            None
        }
    } else {
        match integer_value(s, kind_is_signed(kind)) {
            Some(v) => if kind_holds(kind, v) {
                Some(NumV::Int { kind, value: v })
            } else {
                None
            },
            None => None,
        }
    }
}

/// The number `n` as a number of kind `kind`, if that kind can hold it.
/// An integer becomes a float by its decimal text; a float becomes a number
/// of another kind where its text writes one.
pub open spec fn converted_number(kind: NumberValueLight, n: NumV) -> Option<NumV> {
    match n {
        NumV::Int { value, .. } => if kind_is_float(kind) {
            Some(NumV::Float { kind, text: decimal_text(value) })
        } else if kind_holds(kind, value) {
            Some(NumV::Int { kind, value })
        } else {
            None
        },
        NumV::Float { text, .. } => parsed_number(kind, text),
    }
}

/// A text that does not write a number of the kind asked for.
#[derive(Debug)]
pub struct NumberError {
    /// The kind that was asked for.
    pub kind: NumberValueLight,
}

/// An integer too wide for one machine type: below zero in an `i128`, else
/// in a `u128`.
pub(crate) enum Wide {
    Neg(i128),
    Pos(u128),
}

impl Wide {
    pub(crate) open spec fn wf(self) -> bool {
        match self {
            Wide::Neg(v) => v < 0,
            Wide::Pos(_) => true,
        }
    }

    pub(crate) open spec fn value(self) -> int {
        match self {
            Wide::Neg(v) => v as int,
            Wide::Pos(v) => v as int,
        }
    }
}

/// The integer `w` as a number of the integer kind `kind`, if it fits.
pub(crate) fn integer_of_kind(kind: NumberValueLight, w: Wide) -> (r: Option<NumberValue>)
    requires
        w.wf(),
        !kind_is_float(kind),
    ensures
        r is Some == kind_holds(kind, w.value()),
        r matches Some(n) ==> n@ == (NumV::Int { kind, value: w.value() }),
{
    match kind {
        NumberValueLight::U8 => match w {
            Wide::Pos(v) => if v <= 0xff {
                Some(NumberValue::U8(v as u8))
            } else {
                None
            },
            Wide::Neg(_) => None,
        },
        NumberValueLight::U16 => match w {
            Wide::Pos(v) => if v <= 0xffff {
                Some(NumberValue::U16(v as u16))
            } else {
                None
            },
            Wide::Neg(_) => None,
        },
        NumberValueLight::U32 => match w {
            Wide::Pos(v) => if v <= 0xffff_ffff {
                Some(NumberValue::U32(v as u32))
            } else {
                None
            },
            Wide::Neg(_) => None,
        },
        NumberValueLight::U64 => match w {
            Wide::Pos(v) => if v <= 0xffff_ffff_ffff_ffff {
                Some(NumberValue::U64(v as u64))
            } else {
                None
            },
            Wide::Neg(_) => None,
        },
        NumberValueLight::U128 => match w {
            Wide::Pos(v) => Some(NumberValue::U128(v)),
            Wide::Neg(_) => None,
        },
        NumberValueLight::USize => match w {
            Wide::Pos(v) => if v <= usize::MAX as u128 {
                Some(NumberValue::USize(v as usize))
            } else {
                None
            },
            Wide::Neg(_) => None,
        },
        NumberValueLight::I8 => match w {
            Wide::Pos(v) => if v <= 0x7f {
                Some(NumberValue::I8(v as i8))
            } else {
                None
            },
            Wide::Neg(v) => if v >= -0x80 {
                Some(NumberValue::I8(v as i8))
            } else {
                None
            },
        },
        NumberValueLight::I16 => match w {
            Wide::Pos(v) => if v <= 0x7fff {
                Some(NumberValue::I16(v as i16))
            } else {
                None
            },
            Wide::Neg(v) => if v >= -0x8000 {
                Some(NumberValue::I16(v as i16))
            } else {
                None
            },
        },
        NumberValueLight::I32 => match w {
            Wide::Pos(v) => if v <= 0x7fff_ffff {
                Some(NumberValue::I32(v as i32))
            } else {
                None
            },
            Wide::Neg(v) => if v >= -0x8000_0000 {
                Some(NumberValue::I32(v as i32))
            } else {
                None
            },
        },
        NumberValueLight::I64 => match w {
            Wide::Pos(v) => if v <= 0x7fff_ffff_ffff_ffff {
                Some(NumberValue::I64(v as i64))
            } else {
                None
            },
            Wide::Neg(v) => if v >= -0x8000_0000_0000_0000 {
                Some(NumberValue::I64(v as i64))
            } else {
                None
            },
        },
        NumberValueLight::I128 => match w {
            Wide::Pos(v) => if v <= 0x7fff_ffff_ffff_ffff_ffff_ffff_ffff_ffff {
                Some(NumberValue::I128(v as i128))
            } else {
                None
            },
            Wide::Neg(v) => Some(NumberValue::I128(v)),
        },
        NumberValueLight::ISize => match w {
            Wide::Pos(v) => if v <= isize::MAX as u128 {
                Some(NumberValue::ISize(v as isize))
            } else {
                None
            },
            Wide::Neg(v) => if v >= isize::MIN as i128 {
                Some(NumberValue::ISize(v as isize))
            } else {
                None
            },
        },
        _ => None,
    }
}

/// The text `s` as a number of kind `kind`.
pub fn parse_number(kind: NumberValueLight, s: &str) -> (r: Result<NumberValue, NumberError>)
    ensures
        match r {
            Ok(n) => parsed_number(kind, s@) == Some(n@),
            Err(e) => parsed_number(kind, s@) is None && e.kind == kind,
        },
{
    let parsed = match kind {
        NumberValueLight::F32 => match Float::parse(s) {
            Some(f) => Some(NumberValue::F32(f)),
            None => None,
        },
        NumberValueLight::F64 => match Float::parse(s) {
            Some(f) => Some(NumberValue::F64(f)),
            None => None,
        },
        NumberValueLight::I8 | NumberValueLight::I16 | NumberValueLight::I32
        | NumberValueLight::I64 | NumberValueLight::I128 | NumberValueLight::ISize => {
            match parse_i128(s) {
                Some(v) => if v < 0 {
                    integer_of_kind(kind, Wide::Neg(v))
                } else {
                    integer_of_kind(kind, Wide::Pos(v as u128))
                },
                None => None,
            }
        },
        _ => match parse_u128(s) {
            Some(v) => integer_of_kind(kind, Wide::Pos(v)),
            None => None,
        },
    };
    match parsed {
        Some(n) => Ok(n),
        None => Err(NumberError { kind }),
    }
}

/// The number `n` as a number of kind `kind`.
pub fn convert_number(kind: NumberValueLight, n: &Num) -> (r: Result<NumberValue, NumberError>)
    ensures
        match r {
            Ok(v) => converted_number(kind, n@) == Some(v@),
            Err(e) => converted_number(kind, n@) is None && e.kind == kind,
        },
{
    match n.parts() {
        NumParts::Int(w) => {
            let made = match kind {
                NumberValueLight::F32 => Some(NumberValue::F32(Float { text: wide_text(&w) })),
                NumberValueLight::F64 => Some(NumberValue::F64(Float { text: wide_text(&w) })),
                _ => integer_of_kind(kind, w),
            };
            match made {
                Some(v) => Ok(v),
                None => Err(NumberError { kind }),
            }
        },
        NumParts::Float(f) => parse_number(kind, f.text()),
    }
}

/// The decimal notation of a wide integer.
fn wide_text(w: &Wide) -> (r: String)
    requires
        w.wf(),
    ensures
        r@ == decimal_text(w.value()),
{
    match w {
        Wide::Neg(v) => i128_to_text(*v),
        Wide::Pos(v) => u128_to_text(*v),
    }
}

impl NumberValue {
    /// The kind that a schema's `format` word names, `None` for a word
    /// that names none.
    pub fn kind_from_str(s: &str) -> (r: Option<NumberValueLight>)
        ensures
            r == kind_of_format(s@),
    {
        if str_eq(s, "uint8") {
            Some(NumberValueLight::U8)
        } else if str_eq(s, "uint16") {
            Some(NumberValueLight::U16)
        } else if str_eq(s, "uint32") {
            Some(NumberValueLight::U32)
        } else if str_eq(s, "uint64") {
            Some(NumberValueLight::U64)
        } else if str_eq(s, "uint128") {
            Some(NumberValueLight::U128)
        } else if str_eq(s, "usize") {
            Some(NumberValueLight::USize)
        } else if str_eq(s, "int8") {
            Some(NumberValueLight::I8)
        } else if str_eq(s, "int16") {
            Some(NumberValueLight::I16)
        } else if str_eq(s, "int32") {
            Some(NumberValueLight::I32)
        } else if str_eq(s, "int64") {
            Some(NumberValueLight::I64)
        } else if str_eq(s, "int128") {
            Some(NumberValueLight::I128)
        } else if str_eq(s, "isize") {
            Some(NumberValueLight::ISize)
        } else if str_eq(s, "float") {
            Some(NumberValueLight::F32)
        } else if str_eq(s, "float64") {
            Some(NumberValueLight::F64)
        } else {
            None
        }
    }

    /// The kind of this number.
    pub fn kind(&self) -> (r: NumberValueLight)
        ensures
            r == self@.kind(),
    {
        match self {
            NumberValue::U8(_) => NumberValueLight::U8,
            NumberValue::U16(_) => NumberValueLight::U16,
            NumberValue::U32(_) => NumberValueLight::U32,
            NumberValue::U64(_) => NumberValueLight::U64,
            NumberValue::U128(_) => NumberValueLight::U128,
            NumberValue::USize(_) => NumberValueLight::USize,
            NumberValue::I8(_) => NumberValueLight::I8,
            NumberValue::I16(_) => NumberValueLight::I16,
            NumberValue::I32(_) => NumberValueLight::I32,
            NumberValue::I64(_) => NumberValueLight::I64,
            NumberValue::I128(_) => NumberValueLight::I128,
            NumberValue::ISize(_) => NumberValueLight::ISize,
            NumberValue::F32(_) => NumberValueLight::F32,
            NumberValue::F64(_) => NumberValueLight::F64,
        }
    }

    /// The text that shows the number: an integer in decimal notation, a
    /// float by the text it is carried as.
    pub fn to_text(&self) -> (r: String)
        ensures
            r@ == self@.text(),
    {
        match self {
            NumberValue::U8(v) => u128_to_text(*v as u128),
            NumberValue::U16(v) => u128_to_text(*v as u128),
            NumberValue::U32(v) => u128_to_text(*v as u128),
            NumberValue::U64(v) => u128_to_text(*v as u128),
            NumberValue::U128(v) => u128_to_text(*v),
            NumberValue::USize(v) => u128_to_text(*v as u128),
            NumberValue::I8(v) => i128_to_text(*v as i128),
            NumberValue::I16(v) => i128_to_text(*v as i128),
            NumberValue::I32(v) => i128_to_text(*v as i128),
            NumberValue::I64(v) => i128_to_text(*v as i128),
            NumberValue::I128(v) => i128_to_text(*v),
            NumberValue::ISize(v) => i128_to_text(*v as i128),
            NumberValue::F32(f) => f.text().to_owned(),
            NumberValue::F64(f) => f.text().to_owned(),
        }
    }
}

impl NodeNumber {
    /// The number `value` as a number of the node's kind.
    pub fn try_from_figment_num(&self, value: Num) -> (r: Result<NumberValue, NumberError>)
        ensures
            match r {
                Ok(v) => converted_number(self.kind, value@) == Some(v@),
                Err(e) => converted_number(self.kind, value@) is None && e.kind == self.kind,
            },
    {
        convert_number(self.kind, &value)
    }

    /// The text `str` as a number of the node's kind.
    pub fn try_parse_from_str(&self, str: &str) -> (r: Result<NumberValue, NumberError>)
        ensures
            match r {
                Ok(n) => parsed_number(self.kind, str@) == Some(n@),
                Err(e) => parsed_number(self.kind, str@) is None && e.kind == self.kind,
            },
    {
        parse_number(self.kind, str)
    }
}

} // verus!
