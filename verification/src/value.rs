//! Language values, property keys and property descriptors.

use vstd::prelude::*;

verus! {

/// Largest integer a SmallInteger value may carry: 2^53 - 1.
pub const MAX_SAFE_INTEGER: i64 = 9007199254740991;

/// Largest valid array index: 2^32 - 2.
pub const MAX_ARRAY_INDEX: i64 = 4294967294;

/// Bit pattern of the canonical IEEE 754 quiet NaN.
pub const CANONICAL_NAN_BITS: u64 = 0x7FF8_0000_0000_0000;

/// An ECMAScript language value. Non-primitive variants carry an index into
/// the typed arena of their kind; `Number` carries raw IEEE 754 bits, which
/// the core treats as opaque data.
#[derive(Debug, Clone)]
pub enum Value {
    Undefined,
    Null,
    Boolean(bool),
    /// Small integer in the safe range `[-(2^53 - 1), 2^53 - 1]`.
    Integer(i64),
    /// A double, stored as its bit pattern.
    Number(u64),
    String(String),
    Symbol(u32),
    Object(u32),
    Array(u32),
    Function(u32),
}

impl Value {
    /// A value is in range when its integer payload fits the safe range.
    pub open spec fn wf(self) -> bool {
        match self {
            Value::Integer(i) => -MAX_SAFE_INTEGER <= i <= MAX_SAFE_INTEGER,
            _ => true,
        }
    }

    /// Structural equality, except that strings compare by their characters.
    pub open spec fn same_value_spec(self, other: Value) -> bool {
        match (self, other) {
            (Value::String(a), Value::String(b)) => a@ == b@,
            _ => self == other,
        }
    }

    pub fn duplicate(&self) -> (r: Value)
        ensures
            r == *self,
    {
        match self {
            Value::Undefined => Value::Undefined,
            Value::Null => Value::Null,
            Value::Boolean(b) => Value::Boolean(*b),
            Value::Integer(i) => Value::Integer(*i),
            Value::Number(n) => Value::Number(*n),
            Value::String(s) => Value::String(s.clone()),
            Value::Symbol(s) => Value::Symbol(*s),
            Value::Object(o) => Value::Object(*o),
            Value::Array(a) => Value::Array(*a),
            Value::Function(f) => Value::Function(*f),
        }
    }

    pub fn is_undefined(&self) -> (r: bool)
        ensures
            r == (*self is Undefined),
    {
        matches!(self, Value::Undefined)
    }

    pub fn nan() -> (r: Value)
        ensures
            r == Value::Number(CANONICAL_NAN_BITS),
    {
        Value::Number(CANONICAL_NAN_BITS)
    }
}

/// SameValue on the modelled values: structural equality with strings
/// compared by content. On `Number` bit patterns this identifies exactly the
/// doubles with equal bits, which agrees with SameValue whenever NaNs are
/// kept canonical.
pub fn same_value(a: &Value, b: &Value) -> (r: bool)
    ensures
        r == a.same_value_spec(*b),
{
    match (a, b) {
        (Value::Undefined, Value::Undefined) => true,
        (Value::Null, Value::Null) => true,
        (Value::Boolean(x), Value::Boolean(y)) => *x == *y,
        (Value::Integer(x), Value::Integer(y)) => *x == *y,
        (Value::Number(x), Value::Number(y)) => *x == *y,
        (Value::String(x), Value::String(y)) => *x == *y,
        (Value::Symbol(x), Value::Symbol(y)) => *x == *y,
        (Value::Object(x), Value::Object(y)) => *x == *y,
        (Value::Array(x), Value::Array(y)) => *x == *y,
        (Value::Function(x), Value::Function(y)) => *x == *y,
        _ => false,
    }
}

/// IEEE 754: a double is NaN when the exponent bits are all ones and the
/// mantissa is non-zero.
pub open spec fn f64_bits_is_nan(b: u64) -> bool {
    (b >> 52) & 0x7FF == 0x7FF && b & 0xF_FFFF_FFFF_FFFF != 0
}

/// IEEE 754: a double is finite when the exponent bits are not all ones.
pub open spec fn f64_bits_is_finite(b: u64) -> bool {
    (b >> 52) & 0x7FF != 0x7FF
}

pub fn bits_is_nan(b: u64) -> (r: bool)
    ensures
        r == f64_bits_is_nan(b),
{
    (b >> 52) & 0x7FF == 0x7FF && b & 0xF_FFFF_FFFF_FFFF != 0
}

pub fn bits_is_finite(b: u64) -> (r: bool)
    ensures
        r == f64_bits_is_finite(b),
{
    (b >> 52) & 0x7FF != 0x7FF
}

/// A property key: an integer index, a string, or a symbol.
#[derive(Debug, Clone)]
pub enum PropertyKey {
    Integer(i64),
    String(String),
    Symbol(u32),
}

/// The mathematical identity of a property key, used to compare keys.
pub enum KeyAbs {
    Int(int),
    Str(Seq<char>),
    Sym(u32),
}

impl PropertyKey {
    pub open spec fn abs(self) -> KeyAbs {
        match self {
            PropertyKey::Integer(i) => KeyAbs::Int(i as int),
            PropertyKey::String(s) => KeyAbs::Str(s@),
            PropertyKey::Symbol(n) => KeyAbs::Sym(n),
        }
    }

    /// Whether the key is the string "length".
    pub open spec fn is_length_spec(self) -> bool {
        self.abs() == KeyAbs::Str("length"@)
    }

    pub fn duplicate(&self) -> (r: PropertyKey)
        ensures
            r == *self,
    {
        match self {
            PropertyKey::Integer(i) => PropertyKey::Integer(*i),
            PropertyKey::String(s) => PropertyKey::String(s.clone()),
            PropertyKey::Symbol(n) => PropertyKey::Symbol(*n),
        }
    }
}

/// Key equality, by mathematical identity.
pub fn key_eq(a: &PropertyKey, b: &PropertyKey) -> (r: bool)
    ensures
        r == (a.abs() == b.abs()),
{
    match (a, b) {
        (PropertyKey::Integer(x), PropertyKey::Integer(y)) => *x == *y,
        (PropertyKey::String(x), PropertyKey::String(y)) => *x == *y,
        (PropertyKey::Symbol(x), PropertyKey::Symbol(y)) => *x == *y,
        _ => false,
    }
}

/// Whether the key is the string "length".
pub fn key_is_length(k: &PropertyKey) -> (r: bool)
    ensures
        r == k.is_length_spec(),
{
    match k {
        PropertyKey::String(s) => {
            let length_str = String::from_str("length");
            *s == length_str
        },
        _ => false,
    }
}

/// A (possibly partial) property descriptor. `get` and `set` carry function
/// handles.
#[derive(Debug, Clone)]
pub struct PropertyDescriptor {
    pub value: Option<Value>,
    pub writable: Option<bool>,
    pub get: Option<u32>,
    pub set: Option<u32>,
    pub enumerable: Option<bool>,
    pub configurable: Option<bool>,
}

impl PropertyDescriptor {
    pub open spec fn is_accessor_spec(self) -> bool {
        self.get is Some || self.set is Some
    }

    pub open spec fn is_data_spec(self) -> bool {
        self.value is Some || self.writable is Some
    }

    pub open spec fn is_generic_spec(self) -> bool {
        !self.is_accessor_spec() && !self.is_data_spec()
    }

    pub open spec fn has_fields_spec(self) -> bool {
        self.value is Some || self.writable is Some || self.get is Some || self.set is Some
            || self.enumerable is Some || self.configurable is Some
    }

    /// A full data descriptor.
    pub fn new_data(value: Value, writable: bool, enumerable: bool, configurable: bool) -> (r:
        PropertyDescriptor)
        ensures
            r == (PropertyDescriptor {
                value: Some(value),
                writable: Some(writable),
                get: None,
                set: None,
                enumerable: Some(enumerable),
                configurable: Some(configurable),
            }),
    {
        PropertyDescriptor {
            value: Some(value),
            writable: Some(writable),
            get: None,
            set: None,
            enumerable: Some(enumerable),
            configurable: Some(configurable),
        }
    }

    pub fn is_accessor_descriptor(&self) -> (r: bool)
        ensures
            r == self.is_accessor_spec(),
    {
        self.get.is_some() || self.set.is_some()
    }

    pub fn is_data_descriptor(&self) -> (r: bool)
        ensures
            r == self.is_data_spec(),
    {
        self.value.is_some() || self.writable.is_some()
    }

    pub fn is_generic_descriptor(&self) -> (r: bool)
        ensures
            r == self.is_generic_spec(),
    {
        !self.is_accessor_descriptor() && !self.is_data_descriptor()
    }

    pub fn has_fields(&self) -> (r: bool)
        ensures
            r == self.has_fields_spec(),
    {
        self.value.is_some() || self.writable.is_some() || self.get.is_some()
            || self.set.is_some() || self.enumerable.is_some() || self.configurable.is_some()
    }

    pub fn duplicate(&self) -> (r: PropertyDescriptor)
        ensures
            r == *self,
    {
        PropertyDescriptor {
            value: match &self.value {
                Some(v) => Some(v.duplicate()),
                None => None,
            },
            writable: self.writable,
            get: self.get,
            set: self.set,
            enumerable: self.enumerable,
            configurable: self.configurable,
        }
    }
}

/// The kind of a script-visible exception.
#[derive(Debug, Clone, Copy, PartialEq, Eq, Structural)]
pub enum ExceptionType {
    TypeError,
    SyntaxError,
    RangeError,
    ReferenceError,
    UriError,
}

/// A throw completion: the kind of error together with a message.
#[derive(Debug, Clone)]
pub struct JsError {
    pub kind: ExceptionType,
    pub message: String,
}

impl JsError {
    pub fn new(kind: ExceptionType, message: &str) -> (r: JsError)
        ensures
            r.kind == kind,
            r.message@ == message@,
    {
        JsError { kind, message: String::from_str(message) }
    }
}

/// Outcome of a fast-path internal method: `Continue` carries the finished
/// result; `Break` means completing the operation would have to call user
/// code, which the caller must do through the slow path.
#[derive(Debug)]
pub enum TryResult<T> {
    Continue(T),
    Break,
}

/// A numeric value: a small integer or a double (as bits).
#[derive(Debug, Clone, Copy, PartialEq, Eq, Structural)]
pub enum Numeric {
    Integer(i64),
    Number(u64),
}

/// Conversion into a numeric value for types that are statically known to be
/// numeric.
pub trait IntoNumeric where Self: Sized + Copy {
    fn into_numeric(self) -> Numeric;
}

impl IntoNumeric for Numeric {
    fn into_numeric(self) -> Numeric {
        self
    }
}

} // verus!
