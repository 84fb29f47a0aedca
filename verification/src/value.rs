//! A parameter value that owns everything it refers to.

use vstd::prelude::*;
use vstd::string::*;

use crate::float::{nearest_double, nearest_double_int, Float64};
use crate::text::{decimal, push_decimal, push_signed, signed_decimal};

verus! {

/// What kind of value this is, without carrying it.
#[derive(Clone, Copy, PartialEq, Eq, Debug, Structural)]
pub enum ValueKind {
    /// An unsigned integer.
    Unsigned,
    /// A signed integer.
    Signed,
    /// A float.
    Float,
    /// A boolean.
    Bool,
    /// An enumeration label.
    Label,
    /// Text.
    Text,
    /// Raw bytes.
    Bytes,
}

impl ValueKind {
    /// Whether a value of this kind has a place on a numeric axis.
    ///
    /// A boolean does: it plots as 0 and 1, which is how an operator watches a relay.
    pub fn is_plottable(self) -> (r: bool)
        ensures
            r == (self is Unsigned || self is Signed || self is Float || self is Bool),
    {
        match self {
            ValueKind::Unsigned | ValueKind::Signed | ValueKind::Float | ValueKind::Bool => true,
            ValueKind::Label | ValueKind::Text | ValueKind::Bytes => false,
        }
    }
}

/// A field as its bits were read out of a packet.
#[derive(Debug)]
pub enum RawValue {
    /// An unsigned integer field.
    Unsigned(u64),
    /// A signed integer field.
    Signed(i64),
    /// A float field.
    Float(Float64),
    /// Any other field.
    Bytes(Vec<u8>),
}

/// A field after calibration, enumeration lookup or text decoding.
#[derive(Debug)]
pub enum EngValue {
    /// An unsigned integer.
    Unsigned(u64),
    /// A signed integer.
    Signed(i64),
    /// A float.
    Float(Float64),
    /// A boolean.
    Bool(bool),
    /// An enumeration label.
    Label(String),
    /// Text.
    Text(String),
    /// Binary data.
    Bytes(Vec<u8>),
}

/// A decoded value with no lifetime attached.
#[derive(Debug)]
pub enum Value {
    /// An unsigned integer field.
    Unsigned(u64),
    /// A signed integer field.
    Signed(i64),
    /// A float, either encoded as one or produced by a calibrator.
    Float(Float64),
    /// A boolean parameter's value.
    Bool(bool),
    /// An enumeration label, copied out of the definition.
    Label(String),
    /// Text decoded from the packet.
    Text(String),
    /// Binary data.
    Bytes(Vec<u8>),
}

/// What a value holds.
#[verifier::ext_equal]
pub enum ValueView {
    Unsigned(u64),
    Signed(i64),
    Float(Float64),
    Bool(bool),
    Label(Seq<char>),
    Text(Seq<char>),
    Bytes(Seq<u8>),
}

impl View for Value {
    type V = ValueView;

    open spec fn view(&self) -> ValueView {
        match self {
            Value::Unsigned(value) => ValueView::Unsigned(*value),
            Value::Signed(value) => ValueView::Signed(*value),
            Value::Float(value) => ValueView::Float(*value),
            Value::Bool(value) => ValueView::Bool(*value),
            Value::Label(text) => ValueView::Label(text@),
            Value::Text(text) => ValueView::Text(text@),
            Value::Bytes(bytes) => ValueView::Bytes(bytes@),
        }
    }
}

impl View for RawValue {
    type V = ValueView;

    open spec fn view(&self) -> ValueView {
        match self {
            RawValue::Unsigned(value) => ValueView::Unsigned(*value),
            RawValue::Signed(value) => ValueView::Signed(*value),
            RawValue::Float(value) => ValueView::Float(*value),
            RawValue::Bytes(bytes) => ValueView::Bytes(bytes@),
        }
    }
}

impl View for EngValue {
    type V = ValueView;

    open spec fn view(&self) -> ValueView {
        match self {
            EngValue::Unsigned(value) => ValueView::Unsigned(*value),
            EngValue::Signed(value) => ValueView::Signed(*value),
            EngValue::Float(value) => ValueView::Float(*value),
            EngValue::Bool(value) => ValueView::Bool(*value),
            EngValue::Label(text) => ValueView::Label(text@),
            EngValue::Text(text) => ValueView::Text(text@),
            EngValue::Bytes(bytes) => ValueView::Bytes(bytes@),
        }
    }
}

/// The place of a value on a numeric axis, where it has one.
pub open spec fn number_of(value: ValueView) -> Option<Float64> {
    match value {
        ValueView::Unsigned(value) => Some(nearest_double(value as nat)),
        ValueView::Signed(value) => Some(nearest_double_int(value as int)),
        ValueView::Float(value) => Some(value),
        ValueView::Bool(value) => Some(
            nearest_double(
                if value {
                    1
                } else {
                    0
                },
            ),
        ),
        ValueView::Label(_) | ValueView::Text(_) | ValueView::Bytes(_) => None,
    }
}

/// Equality of values: per variant and exact, a float as IEEE 754 has it.
pub open spec fn same_value(a: ValueView, b: ValueView) -> bool {
    match (a, b) {
        (ValueView::Float(x), ValueView::Float(y)) => x.equal(y),
        _ => a == b,
    }
}

/// The character of a hexadecimal digit.
pub open spec fn hex_digit(d: int) -> char {
    if d < 10 {
        crate::text::digit(d as nat)
    } else if d == 10 {
        'a'
    } else if d == 11 {
        'b'
    } else if d == 12 {
        'c'
    } else if d == 13 {
        'd'
    } else if d == 14 {
        'e'
    } else {
        'f'
    }
}

/// Bytes in hexadecimal, two digits each.
pub open spec fn hex(bytes: Seq<u8>) -> Seq<char>
    decreases bytes.len(),
{
    if bytes.len() == 0 {
        Seq::empty()
    } else {
        hex(bytes.drop_last()).push(hex_digit(bytes.last() as int / 16)).push(
            hex_digit(bytes.last() as int % 16),
        )
    }
}

/// What a value looks like in a table, given the text of the number where it is a float: the
/// first sixteen bytes of binary data stand for the rest.
pub open spec fn value_text(value: ValueView, float_text: Seq<char>) -> Seq<char> {
    match value {
        ValueView::Unsigned(value) => decimal(value as nat),
        ValueView::Signed(value) => signed_decimal(value as int),
        ValueView::Float(_) => float_text,
        ValueView::Bool(value) => if value {
            "true"@
        } else {
            "false"@
        },
        ValueView::Label(text) => text,
        ValueView::Text(text) => text,
        ValueView::Bytes(bytes) => if bytes.len() <= 16 {
            hex(bytes)
        } else {
            hex(bytes.take(16)) + "… ("@ + decimal(bytes.len()) + " bytes)"@
        },
    }
}

/// A copy of bytes.
pub fn copy_bytes(bytes: &Vec<u8>) -> (r: Vec<u8>)
    ensures
        r@ == bytes@,
{
    let copy = bytes.clone();
    assert(copy@ =~= bytes@);
    copy
}

fn same_bytes(a: &Vec<u8>, b: &Vec<u8>) -> (r: bool)
    ensures
        r == (a@ == b@),
{
    if a.len() != b.len() {
        return false;
    }
    let mut index: usize = 0;
    while index < a.len()
        invariant
            index <= a@.len(),
            a@.len() == b@.len(),
            a@.take(index as int) == b@.take(index as int),
        decreases a@.len() - index,
    {
        if a[index] != b[index] {
            assert(a@[index as int] != b@[index as int]);
            return false;
        }
        index = index + 1;
        assert(a@.take(index as int) =~= b@.take(index as int));
    }
    assert(a@.take(index as int) =~= a@);
    assert(b@.take(index as int) =~= b@);
    true
}

fn hex_char(d: u8) -> (r: char)
    requires
        d < 16,
    ensures
        r == hex_digit(d as int),
{
    if d < 10 {
        crate::text::digit_char(d as u64)
    } else {
        match d {
            10 => 'a',
            11 => 'b',
            12 => 'c',
            13 => 'd',
            14 => 'e',
            _ => 'f',
        }
    }
}

impl Clone for Value {
    fn clone(&self) -> (r: Self)
        ensures
            r@ == self@,
    {
        match self {
            Value::Unsigned(value) => Value::Unsigned(*value),
            Value::Signed(value) => Value::Signed(*value),
            Value::Float(value) => Value::Float(*value),
            Value::Bool(value) => Value::Bool(*value),
            Value::Label(text) => Value::Label(text.clone()),
            Value::Text(text) => Value::Text(text.clone()),
            Value::Bytes(bytes) => Value::Bytes(copy_bytes(bytes)),
        }
    }
}

impl PartialEq for Value {
    /// Equality is per variant and exact. Two floats that are both not a number are not equal.
    fn eq(&self, other: &Self) -> (r: bool) {
        match (self, other) {
            (Value::Unsigned(a), Value::Unsigned(b)) => *a == *b,
            (Value::Signed(a), Value::Signed(b)) => *a == *b,
            (Value::Float(a), Value::Float(b)) => a.same(*b),
            (Value::Bool(a), Value::Bool(b)) => *a == *b,
            (Value::Label(a), Value::Label(b)) => *a == *b,
            (Value::Text(a), Value::Text(b)) => *a == *b,
            (Value::Bytes(a), Value::Bytes(b)) => same_bytes(a, b),
            _ => false,
        }
    }
}

impl vstd::std_specs::cmp::PartialEqSpecImpl for Value {
    open spec fn obeys_eq_spec() -> bool {
        true
    }

    open spec fn eq_spec(&self, other: &Self) -> bool {
        same_value(self@, other@)
    }
}

impl Value {
    /// Takes ownership of a raw value.
    pub fn from_raw(raw: &RawValue) -> (r: Self)
        ensures
            r@ == raw@,
    {
        match raw {
            RawValue::Unsigned(value) => Value::Unsigned(*value),
            RawValue::Signed(value) => Value::Signed(*value),
            RawValue::Float(value) => Value::Float(*value),
            RawValue::Bytes(bytes) => Value::Bytes(copy_bytes(bytes)),
        }
    }

    /// Takes ownership of an engineering value.
    pub fn from_eng(eng: &EngValue) -> (r: Self)
        ensures
            r@ == eng@,
    {
        match eng {
            EngValue::Unsigned(value) => Value::Unsigned(*value),
            EngValue::Signed(value) => Value::Signed(*value),
            EngValue::Float(value) => Value::Float(*value),
            EngValue::Bool(value) => Value::Bool(*value),
            EngValue::Label(text) => Value::Label(text.clone()),
            EngValue::Text(text) => Value::Text(text.clone()),
            EngValue::Bytes(bytes) => Value::Bytes(copy_bytes(bytes)),
        }
    }

    /// This value's kind.
    pub fn kind(&self) -> (r: ValueKind)
        ensures
            r == (match self@ {
                ValueView::Unsigned(_) => ValueKind::Unsigned,
                ValueView::Signed(_) => ValueKind::Signed,
                ValueView::Float(_) => ValueKind::Float,
                ValueView::Bool(_) => ValueKind::Bool,
                ValueView::Label(_) => ValueKind::Label,
                ValueView::Text(_) => ValueKind::Text,
                ValueView::Bytes(_) => ValueKind::Bytes,
            }),
    {
        match self {
            Value::Unsigned(_) => ValueKind::Unsigned,
            Value::Signed(_) => ValueKind::Signed,
            Value::Float(_) => ValueKind::Float,
            Value::Bool(_) => ValueKind::Bool,
            Value::Label(_) => ValueKind::Label,
            Value::Text(_) => ValueKind::Text,
            Value::Bytes(_) => ValueKind::Bytes,
        }
    }

    /// The value on a numeric axis, when it has one: an integer as the nearest double, and
    /// `true` as one.
    pub fn as_f64(&self) -> (r: Option<Float64>)
        ensures
            r == number_of(self@),
    {
        match self {
            Value::Unsigned(value) => Some(Float64::from_u64(*value)),
            Value::Signed(value) => Some(Float64::from_i64(*value)),
            Value::Float(value) => Some(*value),
            Value::Bool(value) => if *value {
                Some(Float64::from_u64(1))
            } else {
                Some(Float64::from_u64(0))
            },
            Value::Label(_) | Value::Text(_) | Value::Bytes(_) => None,
        }
    }

    /// The value as text, when it is textual.
    pub fn as_str(&self) -> (r: Option<&str>)
        ensures
            r is Some <==> self@ is Label || self@ is Text,
            r matches Some(text) ==> self@ == ValueView::Label(text@) || self@ == ValueView::Text(
                text@,
            ),
    {
        match self {
            Value::Label(text) => Some(text.as_str()),
            Value::Text(text) => Some(text.as_str()),
            _ => None,
        }
    }

    /// The bytes, when this is a binary value.
    pub fn as_bytes(&self) -> (r: Option<&[u8]>)
        ensures
            r is Some <==> self@ is Bytes,
            r matches Some(bytes) ==> self@ == ValueView::Bytes(bytes@),
    {
        match self {
            Value::Bytes(bytes) => Some(bytes.as_slice()),
            _ => None,
        }
    }

    /// The value as a table shows it.
    ///
    /// `float_text` is the decimal rendering of the number where the value is a float, and is
    /// not looked at where it is not.
    pub fn display(&self, float_text: &str) -> (r: String)
        ensures
            r@ == value_text(self@, float_text@),
    {
        let mut out: String = String::new();
        match self {
            Value::Unsigned(value) => {
                push_decimal(&mut out, *value);
                assert(out@ =~= decimal(*value as nat));
            },
            Value::Signed(value) => {
                push_signed(&mut out, *value);
                assert(out@ =~= signed_decimal(*value as int));
            },
            Value::Float(_) => {
                out = float_text.to_owned();
            },
            Value::Bool(value) => {
                out = if *value {
                    "true".to_owned()
                } else {
                    "false".to_owned()
                };
            },
            Value::Label(text) => {
                out = text.clone();
            },
            Value::Text(text) => {
                out = text.clone();
            },
            Value::Bytes(bytes) => {
                let shown: usize = if bytes.len() < 16 {
                    bytes.len()
                } else {
                    16
                };
                let mut index: usize = 0;
                assert(out@ =~= hex(bytes@.take(0)));
                while index < shown
                    invariant
                        index <= shown <= bytes@.len(),
                        out@ == hex(bytes@.take(index as int)),
                    decreases shown - index,
                {
                    out.push(hex_char(bytes[index] / 16));
                    out.push(hex_char(bytes[index] % 16));
                    index = index + 1;
                    assert(bytes@.take(index as int).drop_last() =~= bytes@.take(index - 1));
                }
                if bytes.len() > 16 {
                    out.append("… (");
                    push_decimal(&mut out, bytes.len() as u64);
                    out.append(" bytes)");
                } else {
                    assert(bytes@.take(shown as int) =~= bytes@);
                }
            },
        }
        out
    }
}

/// Only a value of a plottable kind has a place on an axis.
pub proof fn plottable_values_have_numbers(value: ValueView)
    ensures
        number_of(value) is Some <==> (value is Unsigned || value is Signed || value is Float
            || value is Bool),
{
}

} // verus!
