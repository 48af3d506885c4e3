//! The declarations of a schema document, as far as their dependencies go.

use vstd::prelude::*;

verus! {

/// A type reference: a named type under any number of list and non-null wrappers.
#[derive(Debug)]
pub enum Type {
    /// A bare type name.
    NamedType(String),
    /// A list of the inner type.
    ListType(Box<Type>),
    /// The inner type, made non-null.
    NonNullType(Box<Type>),
}

/// A directive applied to some part of a declaration.
#[derive(Debug)]
pub struct Directive {
    /// Name of the directive, without the leading sigil.
    pub name: String,
}

/// An argument of a field or directive, or a field of an input object.
#[derive(Debug)]
pub struct InputValue {
    pub directives: Vec<Directive>,
    pub value_type: Type,
}

/// A field of an object or interface type.
#[derive(Debug)]
pub struct Field {
    pub arguments: Vec<InputValue>,
    pub directives: Vec<Directive>,
    pub field_type: Type,
}

/// One value of an enum type.
#[derive(Debug)]
pub struct EnumValue {
    pub directives: Vec<Directive>,
}

/// Body of a scalar definition or extension.
#[derive(Debug)]
pub struct ScalarType {
    pub name: String,
    pub directives: Vec<Directive>,
    pub raw: String,
}

/// Body of an object definition or extension.
#[derive(Debug)]
pub struct ObjectType {
    pub name: String,
    pub implements_interfaces: Vec<String>,
    pub directives: Vec<Directive>,
    pub fields: Vec<Field>,
    pub raw: String,
}

/// Body of an interface definition or extension.
#[derive(Debug)]
pub struct InterfaceType {
    pub name: String,
    pub directives: Vec<Directive>,
    pub fields: Vec<Field>,
    pub raw: String,
}

/// Body of a union definition or extension.
#[derive(Debug)]
pub struct UnionType {
    pub name: String,
    pub directives: Vec<Directive>,
    pub types: Vec<String>,
    pub raw: String,
}

/// Body of an enum definition or extension.
#[derive(Debug)]
pub struct EnumType {
    pub name: String,
    pub directives: Vec<Directive>,
    pub values: Vec<EnumValue>,
    pub raw: String,
}

/// Body of an input object definition or extension.
#[derive(Debug)]
pub struct InputObjectType {
    pub name: String,
    pub directives: Vec<Directive>,
    pub fields: Vec<InputValue>,
    pub raw: String,
}

/// Definition of a named type.
#[derive(Debug)]
pub enum TypeDefinition {
    Scalar(ScalarType),
    Object(ObjectType),
    Interface(InterfaceType),
    Union(UnionType),
    Enum(EnumType),
    InputObject(InputObjectType),
}

/// Extension of a named type that is defined elsewhere.
#[derive(Debug)]
pub enum TypeExtension {
    Scalar(ScalarType),
    Object(ObjectType),
    Interface(InterfaceType),
    Union(UnionType),
    Enum(EnumType),
    InputObject(InputObjectType),
}

/// The schema block, naming the root operation types.
#[derive(Debug)]
pub struct SchemaDefinition {
    pub query: Option<String>,
    pub mutation: Option<String>,
    pub subscription: Option<String>,
    pub raw: String,
}

/// Definition of a directive.
#[derive(Debug)]
pub struct DirectiveDefinition {
    pub name: String,
    pub arguments: Vec<InputValue>,
    pub raw: String,
}

/// A top-level declaration of a schema document.
#[derive(Debug)]
pub enum Definition {
    SchemaDefinition(SchemaDefinition),
    TypeDefinition(TypeDefinition),
    TypeExtension(TypeExtension),
    DirectiveDefinition(DirectiveDefinition),
}

/// The declarations of one file, in source order, with the file's path.
#[derive(Debug)]
pub struct Document {
    pub path: String,
    pub definitions: Vec<Definition>,
}

} // verus!
