//! The JSON data model that configuration values are made of.
use vstd::prelude::*;

verus! {

/// A JSON number, held the way a JSON reader classifies it: a non-negative
/// integer, a negative integer, or a floating-point number given by the
/// bits of its IEEE-754 binary64 encoding.
#[derive(Debug, Clone, Copy, PartialEq, Eq, Structural)]
pub enum JsonNumber {
    PosInt(u64),
    NegInt(i64),
    Float(u64),
}

/// A JSON value. An object holds its members in a sequence, in the order in
/// which they were given (a document read by `serde_json` gives them sorted
/// by key).
#[derive(Debug, PartialEq)]
pub enum JsonValue {
    Null,
    Bool(bool),
    Number(JsonNumber),
    String(String),
    Array(Vec<JsonValue>),
    Object(Vec<(String, JsonValue)>),
}

impl JsonNumber {
    /// The number that an `i64` denotes.
    pub fn from_i64(i: i64) -> (n: JsonNumber)
        ensures
            n == (if i < 0 { JsonNumber::NegInt(i) } else { JsonNumber::PosInt(i as u64) }),
    {
        if i < 0 {
            JsonNumber::NegInt(i)
        } else {
            JsonNumber::PosInt(i as u64)
        }
    }

    /// The number that a `u64` denotes.
    pub fn from_u64(u: u64) -> (n: JsonNumber)
        ensures
            n == JsonNumber::PosInt(u),
    {
        JsonNumber::PosInt(u)
    }

    /// The integer value of the number, where it is an integer that fits in `i64`.
    pub open spec fn spec_as_i64(&self) -> Option<i64> {
        match *self {
            JsonNumber::PosInt(u) => if u <= i64::MAX { Some(u as i64) } else { None },
            JsonNumber::NegInt(i) => Some(i),
            JsonNumber::Float(_) => None,
        }
    }

    #[verifier::when_used_as_spec(spec_as_i64)]
    pub fn as_i64(&self) -> (r: Option<i64>)
        ensures
            r == self.spec_as_i64(),
    {
        match *self {
            JsonNumber::PosInt(u) => if u <= 9223372036854775807u64 { Some(u as i64) } else { None },
            JsonNumber::NegInt(i) => Some(i),
            JsonNumber::Float(_) => None,
        }
    }

    /// Whether the number is an integer that fits in `i64`.
    pub open spec fn spec_is_i64(&self) -> bool {
        self.spec_as_i64() is Some
    }

    #[verifier::when_used_as_spec(spec_is_i64)]
    pub fn is_i64(&self) -> (b: bool)
        ensures
            b == self.spec_is_i64(),
    {
        self.as_i64().is_some()
    }

    /// Whether the number is a floating-point number.
    pub open spec fn spec_is_f64(&self) -> bool {
        *self is Float
    }

    #[verifier::when_used_as_spec(spec_is_f64)]
    pub fn is_f64(&self) -> (b: bool)
        ensures
            b == self.spec_is_f64(),
    {
        match *self {
            JsonNumber::Float(_) => true,
            _ => false,
        }
    }
}

impl JsonValue {
    /// The integer a value holds, where it is a number that is an `i64`.
    pub open spec fn spec_as_i64(&self) -> Option<i64> {
        match self {
            JsonValue::Number(n) => n.spec_as_i64(),
            _ => None,
        }
    }

    #[verifier::when_used_as_spec(spec_as_i64)]
    pub fn as_i64(&self) -> (r: Option<i64>)
        ensures
            r == self.spec_as_i64(),
    {
        match self {
            JsonValue::Number(n) => n.as_i64(),
            _ => None,
        }
    }

    /// The text a value holds, where it is a string.
    pub fn as_str(&self) -> (r: Option<&str>)
        ensures
            match self {
                JsonValue::String(s) => r matches Some(t) && t@ == s@,
                _ => r is None,
            },
    {
        match self {
            JsonValue::String(s) => Some(s.as_str()),
            _ => None,
        }
    }

    /// Whether the value is `null`.
    pub open spec fn spec_is_null(&self) -> bool {
        *self is Null
    }

    #[verifier::when_used_as_spec(spec_is_null)]
    pub fn is_null(&self) -> (b: bool)
        ensures
            b == self.spec_is_null(),
    {
        match self {
            JsonValue::Null => true,
            _ => false,
        }
    }
}

/// The declared type of a configuration value.
#[derive(Debug, PartialEq, Eq)]
pub enum DataType {
    String,
    Integer,
    Float,
    Boolean,
    Array(Box<DataType>),
    Object,
    Custom(String),
}

/// The type that a JSON value is given when no type is declared for it:
/// strings are strings, numbers that fit in `i64` are integers,
/// floating-point numbers are floats, booleans are booleans, arrays and
/// objects are objects, and anything else (`null`, or an integer above
/// `i64::MAX`) is taken as a string.
pub open spec fn spec_type_of(value: JsonValue) -> DataType {
    match value {
        JsonValue::String(_) => DataType::String,
        JsonValue::Number(n) => if n.spec_is_i64() {
            DataType::Integer
        } else if n.spec_is_f64() {
            DataType::Float
        } else {
            DataType::String
        },
        JsonValue::Bool(_) => DataType::Boolean,
        JsonValue::Array(_) => DataType::Object,
        JsonValue::Object(_) => DataType::Object,
        JsonValue::Null => DataType::String,
    }
}

impl DataType {
    pub fn from_json_value(value: &JsonValue) -> (t: DataType)
        ensures
            t == spec_type_of(*value),
    {
        match value {
            JsonValue::String(_) => DataType::String,
            JsonValue::Number(n) => {
                if n.is_i64() {
                    DataType::Integer
                } else if n.is_f64() {
                    DataType::Float
                } else {
                    DataType::String
                }
            },
            JsonValue::Bool(_) => DataType::Boolean,
            JsonValue::Array(_) => DataType::Object,
            JsonValue::Object(_) => DataType::Object,
            _ => DataType::String,
        }
    }
}

} // verus!
