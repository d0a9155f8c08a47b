//! Table schemas as plain values: field name, data type and nullability.
//! The query engine builds its own schema objects from these.

use vstd::prelude::*;
use vstd::string::StringExecFns;

verus! {

/// The data types the benchmark schemas use.
#[derive(Clone, Copy, Debug, PartialEq, Eq, Structural)]
pub enum DataType {
    /// 32-bit signed integer.
    Int32,
    /// 64-bit signed integer.
    Int64,
    /// UTF-8 string.
    Utf8,
    /// Days since the epoch.
    Date32,
    /// Fixed-point decimal with the given precision and scale.
    Decimal128(u8, i8),
}

/// One field of a schema.
#[derive(Clone, Debug)]
pub struct Field {
    /// The field's name.
    pub name: String,
    /// The field's data type.
    pub data_type: DataType,
    /// Whether the field admits nulls.
    pub nullable: bool,
}

/// A field as the specs see it: name, type, nullability.
pub open spec fn field_model(f: Field) -> (Seq<char>, DataType, bool) {
    (f.name@, f.data_type, f.nullable)
}

impl Field {
    /// Assemble a field.
    pub fn new(name: &str, data_type: DataType, nullable: bool) -> (r: Self)
        ensures
            field_model(r) == (name@, data_type, nullable),
    {
        Field { name: name.to_owned(), data_type, nullable }
    }
}

/// An ordered list of fields.
#[derive(Clone, Debug)]
pub struct Schema {
    /// The schema's fields, in declaration order.
    pub fields: Vec<Field>,
}

/// A schema as the specs see it: the models of its fields, in order.
pub open spec fn schema_model(s: Schema) -> Seq<(Seq<char>, DataType, bool)> {
    Seq::new(s.fields@.len(), |i: int| field_model(s.fields@[i]))
}

impl Schema {
    /// Assemble a schema from its fields.
    pub fn new(fields: Vec<Field>) -> (r: Self)
        ensures
            r.fields == fields,
            schema_model(r) == Seq::new(fields@.len(), |i: int| field_model(fields@[i])),
    {
        Schema { fields }
    }
}

} // verus!
