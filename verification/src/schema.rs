//! The part of a JSON Schema document that the tree is compiled from.
use vstd::prelude::*;
use crate::json::Json;

verus! {

/// The JSON types that a schema can ask for.
#[derive(Clone, Copy, Debug, PartialEq, Eq, Structural)]
pub enum InstanceType {
    Null,
    Boolean,
    Object,
    Array,
    Number,
    String,
    Integer,
}

/// One type, or several to choose from.
#[derive(Debug)]
pub enum InstanceTypes {
    Single(InstanceType),
    Vec(Vec<InstanceType>),
}

/// One schema for every item, or one for each position.
#[derive(Debug)]
pub enum Items {
    Single(Box<Schema>),
    Vec(Vec<Schema>),
}

/// What a schema says about the value besides its shape.
#[derive(Debug)]
pub struct Metadata {
    pub title: Option<String>,
    pub description: Option<String>,
    pub default: Option<Json>,
}

/// Schemas that the value is held against together.
#[derive(Debug)]
pub struct SubschemaValidation {
    pub all_of: Option<Vec<Schema>>,
    pub any_of: Option<Vec<Schema>>,
    pub one_of: Option<Vec<Schema>>,
    pub not: Option<Box<Schema>>,
}

/// What a schema says about arrays.
#[derive(Debug)]
pub struct ArrayValidation {
    pub items: Option<Items>,
    pub max_items: Option<u32>,
    pub min_items: Option<u32>,
}

/// What a schema says about objects.
#[derive(Debug)]
pub struct ObjectValidation {
    /// The named properties, in the order of the document.
    pub properties: Vec<(String, Schema)>,
    pub additional_properties: Option<Box<Schema>>,
}

/// A schema written as an object.
#[derive(Debug)]
pub struct SchemaObject {
    pub metadata: Option<Box<Metadata>>,
    pub instance_type: Option<InstanceTypes>,
    pub format: Option<String>,
    pub enum_values: Option<Vec<Json>>,
    pub subschemas: Option<Box<SubschemaValidation>>,
    pub array: Option<Box<ArrayValidation>>,
    pub object: Option<Box<ObjectValidation>>,
    /// Where the schema is a reference, the place it refers to.
    pub reference: Option<String>,
}

/// A schema: `true` or `false`, which say nothing about the shape, or an
/// object.
#[derive(Debug)]
pub enum Schema {
    Bool(bool),
    Object(SchemaObject),
}

/// A schema document: the schema of the whole value, and the definitions
/// that references name.
#[derive(Debug)]
pub struct RootSchema {
    pub schema: SchemaObject,
    pub definitions: Vec<(String, Schema)>,
}

impl SchemaObject {
    /// A schema that says nothing.
    pub fn new() -> (r: Self)
        ensures
            r.metadata is None,
            r.instance_type is None,
            r.format is None,
            r.enum_values is None,
            r.subschemas is None,
            r.array is None,
            r.object is None,
            r.reference is None,
    {
        SchemaObject {
            metadata: None,
            instance_type: None,
            format: None,
            enum_values: None,
            subschemas: None,
            array: None,
            object: None,
            reference: None,
        }
    }
}

} // verus!
