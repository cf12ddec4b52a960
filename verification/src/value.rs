//! The traversal protocol: the closed set of shapes a structured value can
//! declare itself as.
//!
//! A value to be encoded is described once, top to bottom, left to right, by
//! one of these tags.  Composite tags carry the nested values in order; the
//! encoder reacts to each tag and never reorders anything.

use vstd::prelude::*;

verus! {

/// One named field of a record-shaped value, in declaration order, together
/// with the omission hint the field's producer supplied.
#[derive(Debug)]
pub struct Field {
    /// The rendered key of the entry (the field's own name, or its rename).
    pub name: String,
    /// The field's value.
    pub value: Value,
    /// When true and the value is an empty sequence, the whole entry is
    /// elided instead of being rendered as `key=`.
    pub skip_if_empty: bool,
}

/// The shape a value reports of itself when visited.
#[derive(Debug)]
pub enum Value {
    /// A boolean, rendered `true` or `false`.
    Bool(bool),
    /// A signed integer, rendered in decimal.
    I64(i64),
    /// An unsigned integer, rendered in decimal.
    U64(u64),
    /// A single character, rendered verbatim.
    Char(char),
    /// Text, rendered verbatim — no escaping of spaces or punctuation.
    Text(String),
    /// A byte sequence, rendered as comma-joined decimal bytes.
    Bytes(Vec<u8>),
    /// An absent optional: contributes nothing to the output, key and all.
    Absent,
    /// A present optional: rendered exactly as the inner value, under the
    /// optional's own key.
    Present(Box<Value>),
    /// The unit value, rendered as an empty value under its key.
    Unit,
    /// A unit variant of an enumerated type, rendered as its declared name.
    UnitVariant(String),
    /// A newtype wrapper: transparently rendered as the inner value.
    Newtype(Box<Value>),
    /// A newtype variant: transparently rendered as the inner value.
    NewtypeVariant(String, Box<Value>),
    /// An ordered sequence, comma-joined under one shared key.
    Sequence(Vec<Value>),
    /// A fixed-arity tuple, comma-joined under one shared key.
    Tuple(Vec<Value>),
    /// A record: ordered named fields, each an entry of its own.
    Record(Vec<Field>),
    /// A map: ordered key/value pairs, each key's canonical text becoming
    /// the entry key of its value.
    Dict(Vec<(Value, Value)>),
    /// A struct variant: ordered named fields, flattened like a record.
    StructVariant(String, Vec<Field>),
}

impl Value {
    /// Whether the value may stand at the top level of an encode call:
    /// only record-shaped values may.
    pub open spec fn is_record_shaped(self) -> bool {
        self is Record || self is StructVariant
    }

    /// The fields of a record-shaped value, in declaration order.
    pub open spec fn record_fields(self) -> Seq<Field>
        recommends
            self.is_record_shaped(),
    {
        match self {
            Value::Record(fields) => fields@,
            Value::StructVariant(_, fields) => fields@,
            _ => Seq::empty(),
        }
    }
}

} // verus!
