//! What each kind of declaration refers to, and under which id and name it is known.

use vstd::prelude::*;
use crate::schema::{
    Directive, DirectiveDefinition, EnumValue, Field, InputValue, SchemaDefinition, Type,
    TypeDefinition, TypeExtension,
};
use crate::state::{clone_names, names_of, GraphQL, GraphQLType};

verus! {

/// The innermost named type under any list and non-null wrappers.
pub open spec fn named_type(t: Type) -> Seq<char>
    decreases t,
{
    match t {
        Type::NamedType(name) => name@,
        Type::ListType(inner) => named_type(*inner),
        Type::NonNullType(inner) => named_type(*inner),
    }
}

/// Names of the directives, in order.
pub open spec fn directive_names(directives: Seq<Directive>) -> Seq<Seq<char>> {
    directives.map_values(|d: Directive| d.name@)
}

/// Dependencies of an input value: its directives, then its unwrapped type name.
pub open spec fn input_value_dependencies(input_value: InputValue) -> Seq<Seq<char>> {
    directive_names(input_value.directives@).push(named_type(input_value.value_type))
}

/// Dependencies of a field: each argument's unwrapped type name, then the
/// field's directives, then the field's own unwrapped type name.
pub open spec fn field_dependencies(field: Field) -> Seq<Seq<char>> {
    (field.arguments@.map_values(|a: InputValue| named_type(a.value_type)) + directive_names(
        field.directives@,
    )).push(named_type(field.field_type))
}

/// Dependencies of the fields, one field after the other.
pub open spec fn fields_dependencies(fields: Seq<Field>) -> Seq<Seq<char>>
    decreases fields.len(),
{
    if fields.len() == 0 {
        Seq::empty()
    } else {
        fields_dependencies(fields.drop_last()) + field_dependencies(fields.last())
    }
}

/// Dependencies of the input values, one input value after the other.
pub open spec fn input_values_dependencies(input_values: Seq<InputValue>) -> Seq<Seq<char>>
    decreases input_values.len(),
{
    if input_values.len() == 0 {
        Seq::empty()
    } else {
        input_values_dependencies(input_values.drop_last()) + input_value_dependencies(
            input_values.last(),
        )
    }
}

/// Directives of the enum values, one value after the other.
pub open spec fn enum_values_dependencies(values: Seq<EnumValue>) -> Seq<Seq<char>>
    decreases values.len(),
{
    if values.len() == 0 {
        Seq::empty()
    } else {
        enum_values_dependencies(values.drop_last()) + directive_names(values.last().directives@)
    }
}

/// The name, if there is one, as a list of at most one element.
pub open spec fn optional_name(name: Option<String>) -> Seq<Seq<char>> {
    match name {
        Some(n) => seq![n@],
        None => Seq::empty(),
    }
}

/// Suffix that turns a type's name into the id of its extension. It cannot
/// end an ordinary name's id by accident: the id is always longer than the name.
pub open spec fn extension_suffix() -> Seq<char> {
    seq!['_', '_']
}

/// Id of the extension of the type named `name`.
pub open spec fn extended_id(name: Seq<char>) -> Seq<char> {
    name + extension_suffix()
}

/// Graph key of a declaration of `kind` named `name`: the name, or for an
/// extension the name with the extension suffix.
pub open spec fn node_id(kind: GraphQL, name: Seq<char>) -> Seq<char> {
    if kind.is_extension() {
        extended_id(name)
    } else {
        name
    }
}

/// Convert text to an owned String.
fn convert_text_to_string(text: &String) -> (r: String)
    ensures
        r@ == text@,
{
    text.clone()
}

/// Extend id for type extensions.
/// Only used to distinguish between a type and its extension.
pub fn get_extended_id(id: String) -> (r: String)
    ensures
        r@ == extended_id(id@),
{
    proof {
        reveal_strlit("__");
        assert("__"@ =~= extension_suffix());
    }
    id.concat("__")
}

/// Appends `more` to `out`.
fn append_names(out: &mut Vec<String>, more: Vec<String>)
    ensures
        names_of(final(out)@) == names_of(old(out)@) + names_of(more@),
{
    let ghost added = more@;
    let mut more = more;
    out.append(&mut more);
    assert(names_of(out@) =~= names_of(old(out)@) + names_of(added));
}

/// Extract dependencies from any entity's directives.
fn get_dependencies_from_directives(directives: &Vec<Directive>) -> (r: Vec<String>)
    ensures
        names_of(r@) == directive_names(directives@),
{
    let mut out: Vec<String> = Vec::new();
    let mut i: usize = 0;
    while i < directives.len()
        invariant
            i <= directives.len(),
            out.len() == i,
            forall|k: int| 0 <= k < i ==> out[k]@ == #[trigger] directives[k].name@,
        decreases directives.len() - i,
    {
        out.push(convert_text_to_string(&directives[i].name));
        i += 1;
    }
    assert(names_of(out@) =~= directive_names(directives@));
    out
}

/// Recursively walk a field type to get the inner String value.
fn walk_field_type(field_type: &Type) -> (r: String)
    ensures
        r@ == named_type(*field_type),
    decreases *field_type,
{
    match field_type {
        Type::NamedType(name) => convert_text_to_string(name),
        Type::ListType(inner) => walk_field_type(inner),
        Type::NonNullType(inner) => walk_field_type(inner),
    }
}

/// Walk a field to get the dependencies.
fn walk_field(field: &Field) -> (r: Vec<String>)
    ensures
        names_of(r@) == field_dependencies(*field),
{
    let mut out: Vec<String> = Vec::new();
    let mut i: usize = 0;
    while i < field.arguments.len()
        invariant
            i <= field.arguments.len(),
            out.len() == i,
            forall|k: int|
                0 <= k < i ==> out[k]@ == named_type((#[trigger] field.arguments[k]).value_type),
        decreases field.arguments.len() - i,
    {
        out.push(walk_field_type(&field.arguments[i].value_type));
        i += 1;
    }
    assert(names_of(out@) =~= field.arguments@.map_values(
        |a: InputValue| named_type(a.value_type),
    ));
    append_names(&mut out, get_dependencies_from_directives(&field.directives));
    let own = walk_field_type(&field.field_type);
    out.push(own);
    assert(names_of(out@) =~= field_dependencies(*field));
    out
}

/// Walk an input value to get the dependencies.
fn walk_input_value(input_value: &InputValue) -> (r: Vec<String>)
    ensures
        names_of(r@) == input_value_dependencies(*input_value),
{
    let mut out = get_dependencies_from_directives(&input_value.directives);
    let own = walk_field_type(&input_value.value_type);
    out.push(own);
    assert(names_of(out@) =~= input_value_dependencies(*input_value));
    out
}

/// Dependencies of every field, in field order.
fn walk_fields(fields: &Vec<Field>) -> (r: Vec<String>)
    ensures
        names_of(r@) == fields_dependencies(fields@),
{
    let mut out: Vec<String> = Vec::new();
    let mut i: usize = 0;
    assert(names_of(out@) =~= fields_dependencies(fields@.take(0)));
    while i < fields.len()
        invariant
            i <= fields.len(),
            names_of(out@) == fields_dependencies(fields@.take(i as int)),
        decreases fields.len() - i,
    {
        assert(fields@.take(i + 1).drop_last() =~= fields@.take(i as int));
        append_names(&mut out, walk_field(&fields[i]));
        i += 1;
    }
    assert(fields@.take(i as int) =~= fields@);
    out
}

/// Dependencies of every input value, in order.
fn walk_input_values(input_values: &Vec<InputValue>) -> (r: Vec<String>)
    ensures
        names_of(r@) == input_values_dependencies(input_values@),
{
    let mut out: Vec<String> = Vec::new();
    let mut i: usize = 0;
    assert(names_of(out@) =~= input_values_dependencies(input_values@.take(0)));
    while i < input_values.len()
        invariant
            i <= input_values.len(),
            names_of(out@) == input_values_dependencies(input_values@.take(i as int)),
        decreases input_values.len() - i,
    {
        assert(input_values@.take(i + 1).drop_last() =~= input_values@.take(i as int));
        append_names(&mut out, walk_input_value(&input_values[i]));
        i += 1;
    }
    assert(input_values@.take(i as int) =~= input_values@);
    out
}

/// Directives of every enum value, in value order.
fn walk_enum_values(values: &Vec<EnumValue>) -> (r: Vec<String>)
    ensures
        names_of(r@) == enum_values_dependencies(values@),
{
    let mut out: Vec<String> = Vec::new();
    let mut i: usize = 0;
    assert(names_of(out@) =~= enum_values_dependencies(values@.take(0)));
    while i < values.len()
        invariant
            i <= values.len(),
            names_of(out@) == enum_values_dependencies(values@.take(i as int)),
        decreases values.len() - i,
    {
        assert(values@.take(i + 1).drop_last() =~= values@.take(i as int));
        append_names(&mut out, get_dependencies_from_directives(&values[i].directives));
        i += 1;
    }
    assert(values@.take(i as int) =~= values@);
    out
}

/// What the dependency graph needs to know of a declaration.
pub trait ExtendType {
    /// The names the declaration refers to, in order, duplicates kept.
    spec fn dependency_names(&self) -> Seq<Seq<char>>;

    /// The declaration's display name.
    spec fn display_name(&self) -> Seq<char>;

    /// The declaration's kind.
    spec fn kind(&self) -> GraphQL;

    /// The declaration's canonical text.
    spec fn raw_text(&self) -> Seq<char>;

    /// The names the declaration refers to, in order, duplicates kept.
    fn get_dependencies(&self) -> (r: Vec<String>)
        ensures
            names_of(r@) == self.dependency_names(),
    ;

    /// A custom id, present exactly for extensions, and the display name.
    fn get_id_and_name(&self) -> (r: (Option<String>, String))
        ensures
            r.1@ == self.display_name(),
            self.kind().is_extension() ==> r.0 is Some && r.0->0@ == extended_id(
                self.display_name(),
            ),
            !self.kind().is_extension() ==> r.0 is None,
    ;

    /// The declaration's kind.
    fn get_mapped_type(&self) -> (r: GraphQL)
        ensures
            r == self.kind(),
    ;

    /// The declaration's canonical text.
    fn get_raw(&self) -> (r: String)
        ensures
            r@ == self.raw_text(),
    ;
}

impl TypeDefinition {
    /// The type's name.
    pub open spec fn name(&self) -> Seq<char> {
        match self {
            TypeDefinition::Scalar(t) => t.name@,
            TypeDefinition::Object(t) => t.name@,
            TypeDefinition::Interface(t) => t.name@,
            TypeDefinition::Union(t) => t.name@,
            TypeDefinition::Enum(t) => t.name@,
            TypeDefinition::InputObject(t) => t.name@,
        }
    }

    /// Which of the six types is defined.
    pub open spec fn graphql_type(&self) -> GraphQLType {
        match self {
            TypeDefinition::Scalar(_) => GraphQLType::Scalar,
            TypeDefinition::Object(_) => GraphQLType::Object,
            TypeDefinition::Interface(_) => GraphQLType::Interface,
            TypeDefinition::Union(_) => GraphQLType::Union,
            TypeDefinition::Enum(_) => GraphQLType::Enum,
            TypeDefinition::InputObject(_) => GraphQLType::InputObject,
        }
    }
}

impl ExtendType for TypeDefinition {
    open spec fn dependency_names(&self) -> Seq<Seq<char>> {
        match self {
            TypeDefinition::Enum(t) => directive_names(t.directives@) + enum_values_dependencies(
                t.values@,
            ),
            TypeDefinition::Scalar(t) => directive_names(t.directives@),
            TypeDefinition::Object(t) => fields_dependencies(t.fields@) + directive_names(
                t.directives@,
            ) + names_of(t.implements_interfaces@),
            TypeDefinition::Interface(t) => fields_dependencies(t.fields@) + directive_names(
                t.directives@,
            ),
            TypeDefinition::Union(t) => names_of(t.types@) + directive_names(t.directives@),
            TypeDefinition::InputObject(t) => input_values_dependencies(t.fields@)
                + directive_names(t.directives@),
        }
    }

    open spec fn display_name(&self) -> Seq<char> {
        self.name()
    }

    open spec fn kind(&self) -> GraphQL {
        GraphQL::TypeDefinition(self.graphql_type())
    }

    open spec fn raw_text(&self) -> Seq<char> {
        match self {
            TypeDefinition::Scalar(t) => t.raw@,
            TypeDefinition::Object(t) => t.raw@,
            TypeDefinition::Interface(t) => t.raw@,
            TypeDefinition::Union(t) => t.raw@,
            TypeDefinition::Enum(t) => t.raw@,
            TypeDefinition::InputObject(t) => t.raw@,
        }
    }

    fn get_dependencies(&self) -> (r: Vec<String>) {
        match self {
            TypeDefinition::Enum(enum_type) => {
                // Get root directives.
                let mut out = get_dependencies_from_directives(&enum_type.directives);
                // Get values' directives.
                append_names(&mut out, walk_enum_values(&enum_type.values));
                out
            },
            TypeDefinition::Scalar(scalar_type) => {
                // Get root directives.
                get_dependencies_from_directives(&scalar_type.directives)
            },
            TypeDefinition::Object(object_type) => {
                // Get fields' dependencies.
                let mut out = walk_fields(&object_type.fields);
                // Get root directives.
                append_names(&mut out, get_dependencies_from_directives(&object_type.directives));
                // Get interfaces as dependencies.
                append_names(
                    &mut out,
                    clone_names(&object_type.implements_interfaces),
                );
                out
            },
            TypeDefinition::Interface(interface_type) => {
                // Get fields' dependencies.
                let mut out = walk_fields(&interface_type.fields);
                // Get root directives.
                append_names(
                    &mut out,
                    get_dependencies_from_directives(&interface_type.directives),
                );
                out
            },
            TypeDefinition::Union(union_type) => {
                // Get types as dependencies.
                let mut out = clone_names(&union_type.types);
                // Get root directives.
                append_names(&mut out, get_dependencies_from_directives(&union_type.directives));
                out
            },
            TypeDefinition::InputObject(input_object_type) => {
                // Get fields' dependencies.
                let mut out = walk_input_values(&input_object_type.fields);
                // Get root directives.
                append_names(
                    &mut out,
                    get_dependencies_from_directives(&input_object_type.directives),
                );
                out
            },
        }
    }

    fn get_id_and_name(&self) -> (r: (Option<String>, String)) {
        (
            None,
            convert_text_to_string(
                match self {
                    TypeDefinition::Enum(enum_type) => &enum_type.name,
                    TypeDefinition::Scalar(scalar_type) => &scalar_type.name,
                    TypeDefinition::Object(object_type) => &object_type.name,
                    TypeDefinition::Interface(interface_type) => &interface_type.name,
                    TypeDefinition::Union(union_type) => &union_type.name,
                    TypeDefinition::InputObject(input_object_type) => &input_object_type.name,
                },
            ),
        )
    }

    fn get_mapped_type(&self) -> (r: GraphQL) {
        match self {
            TypeDefinition::Enum(_) => GraphQL::TypeDefinition(GraphQLType::Enum),
            TypeDefinition::Scalar(_) => GraphQL::TypeDefinition(GraphQLType::Scalar),
            TypeDefinition::Object(_) => GraphQL::TypeDefinition(GraphQLType::Object),
            TypeDefinition::Interface(_) => GraphQL::TypeDefinition(GraphQLType::Interface),
            TypeDefinition::Union(_) => GraphQL::TypeDefinition(GraphQLType::Union),
            TypeDefinition::InputObject(_) => GraphQL::TypeDefinition(GraphQLType::InputObject),
        }
    }

    fn get_raw(&self) -> (r: String) {
        match self {
            TypeDefinition::Enum(enum_type) => enum_type.raw.clone(),
            TypeDefinition::Scalar(scalar_type) => scalar_type.raw.clone(),
            TypeDefinition::Object(object_type) => object_type.raw.clone(),
            TypeDefinition::Interface(interface_type) => interface_type.raw.clone(),
            TypeDefinition::Union(union_type) => union_type.raw.clone(),
            TypeDefinition::InputObject(input_object_type) => input_object_type.raw.clone(),
        }
    }
}

impl TypeExtension {
    /// Name of the type that is extended.
    pub open spec fn name(&self) -> Seq<char> {
        match self {
            TypeExtension::Scalar(t) => t.name@,
            TypeExtension::Object(t) => t.name@,
            TypeExtension::Interface(t) => t.name@,
            TypeExtension::Union(t) => t.name@,
            TypeExtension::Enum(t) => t.name@,
            TypeExtension::InputObject(t) => t.name@,
        }
    }

    /// Which of the six types is extended.
    pub open spec fn graphql_type(&self) -> GraphQLType {
        match self {
            TypeExtension::Scalar(_) => GraphQLType::Scalar,
            TypeExtension::Object(_) => GraphQLType::Object,
            TypeExtension::Interface(_) => GraphQLType::Interface,
            TypeExtension::Union(_) => GraphQLType::Union,
            TypeExtension::Enum(_) => GraphQLType::Enum,
            TypeExtension::InputObject(_) => GraphQLType::InputObject,
        }
    }

    /// What the extension's own body refers to, before its base is added.
    pub open spec fn body_dependencies(&self) -> Seq<Seq<char>> {
        match self {
            TypeExtension::Enum(t) => directive_names(t.directives@) + enum_values_dependencies(
                t.values@,
            ),
            TypeExtension::Scalar(t) => directive_names(t.directives@),
            TypeExtension::Object(t) => fields_dependencies(t.fields@) + directive_names(
                t.directives@,
            ) + names_of(t.implements_interfaces@),
            TypeExtension::Interface(t) => fields_dependencies(t.fields@) + directive_names(
                t.directives@,
            ),
            TypeExtension::Union(t) => names_of(t.types@) + directive_names(t.directives@),
            TypeExtension::InputObject(t) => input_values_dependencies(t.fields@)
                + directive_names(t.directives@),
        }
    }
}

impl ExtendType for TypeExtension {
    open spec fn dependency_names(&self) -> Seq<Seq<char>> {
        self.body_dependencies().push(self.name())
    }

    open spec fn display_name(&self) -> Seq<char> {
        self.name()
    }

    open spec fn kind(&self) -> GraphQL {
        GraphQL::TypeExtension(self.graphql_type())
    }

    open spec fn raw_text(&self) -> Seq<char> {
        match self {
            TypeExtension::Scalar(t) => t.raw@,
            TypeExtension::Object(t) => t.raw@,
            TypeExtension::Interface(t) => t.raw@,
            TypeExtension::Union(t) => t.raw@,
            TypeExtension::Enum(t) => t.raw@,
            TypeExtension::InputObject(t) => t.raw@,
        }
    }

    fn get_dependencies(&self) -> (r: Vec<String>) {
        match self {
            TypeExtension::Enum(enum_type_extension) => {
                // Get root directives.
                let mut out = get_dependencies_from_directives(&enum_type_extension.directives);
                // Get values' directives.
                append_names(&mut out, walk_enum_values(&enum_type_extension.values));
                // Add extension's source.
                let ghost body = names_of(out@);
                out.push(convert_text_to_string(&enum_type_extension.name));
                assert(names_of(out@) =~= body.push(enum_type_extension.name@));
                out
            },
            TypeExtension::Scalar(scalar_type_extension) => {
                // Get root directives.
                let mut out = get_dependencies_from_directives(&scalar_type_extension.directives);
                // Add extension's source.
                let ghost body = names_of(out@);
                out.push(convert_text_to_string(&scalar_type_extension.name));
                assert(names_of(out@) =~= body.push(scalar_type_extension.name@));
                out
            },
            TypeExtension::Object(object_type_extension) => {
                // Get fields' dependencies.
                let mut out = walk_fields(&object_type_extension.fields);
                // Get root directives.
                append_names(
                    &mut out,
                    get_dependencies_from_directives(&object_type_extension.directives),
                );
                // Get interfaces as dependencies.
                append_names(
                    &mut out,
                    clone_names(&object_type_extension.implements_interfaces),
                );
                // Add extension's source.
                let ghost body = names_of(out@);
                out.push(convert_text_to_string(&object_type_extension.name));
                assert(names_of(out@) =~= body.push(object_type_extension.name@));
                out
            },
            TypeExtension::Interface(interface_type_extension) => {
                // Get fields' dependencies.
                let mut out = walk_fields(&interface_type_extension.fields);
                // Get root directives.
                append_names(
                    &mut out,
                    get_dependencies_from_directives(&interface_type_extension.directives),
                );
                // Add extension's source.
                let ghost body = names_of(out@);
                out.push(convert_text_to_string(&interface_type_extension.name));
                assert(names_of(out@) =~= body.push(interface_type_extension.name@));
                out
            },
            TypeExtension::Union(union_type_extension) => {
                // Get types as dependencies.
                let mut out = clone_names(&union_type_extension.types);
                // Get root directives.
                append_names(
                    &mut out,
                    get_dependencies_from_directives(&union_type_extension.directives),
                );
                // Add extension's source.
                let ghost body = names_of(out@);
                out.push(convert_text_to_string(&union_type_extension.name));
                assert(names_of(out@) =~= body.push(union_type_extension.name@));
                out
            },
            TypeExtension::InputObject(input_object_type_extension) => {
                // Get fields' dependencies.
                let mut out = walk_input_values(&input_object_type_extension.fields);
                // Get root directives.
                append_names(
                    &mut out,
                    get_dependencies_from_directives(&input_object_type_extension.directives),
                );
                // Add extension's source.
                let ghost body = names_of(out@);
                out.push(convert_text_to_string(&input_object_type_extension.name));
                assert(names_of(out@) =~= body.push(input_object_type_extension.name@));
                out
            },
        }
    }

    fn get_id_and_name(&self) -> (r: (Option<String>, String)) {
        let name = convert_text_to_string(
            match self {
                TypeExtension::Enum(enum_type_extension) => &enum_type_extension.name,
                TypeExtension::Scalar(scalar_type_extension) => &scalar_type_extension.name,
                TypeExtension::Object(object_type_extension) => &object_type_extension.name,
                TypeExtension::Interface(interface_type_extension) => {
                    &interface_type_extension.name
                },
                TypeExtension::Union(union_type_extension) => &union_type_extension.name,
                TypeExtension::InputObject(input_object_type) => &input_object_type.name,
            },
        );

        (Some(get_extended_id(name.clone())), name)
    }

    fn get_mapped_type(&self) -> (r: GraphQL) {
        match self {
            TypeExtension::Enum(_) => GraphQL::TypeExtension(GraphQLType::Enum),
            TypeExtension::Scalar(_) => GraphQL::TypeExtension(GraphQLType::Scalar),
            TypeExtension::Object(_) => GraphQL::TypeExtension(GraphQLType::Object),
            TypeExtension::Interface(_) => GraphQL::TypeExtension(GraphQLType::Interface),
            TypeExtension::Union(_) => GraphQL::TypeExtension(GraphQLType::Union),
            TypeExtension::InputObject(_) => GraphQL::TypeExtension(GraphQLType::InputObject),
        }
    }

    fn get_raw(&self) -> (r: String) {
        match self {
            TypeExtension::Enum(enum_type) => enum_type.raw.clone(),
            TypeExtension::Scalar(scalar_type) => scalar_type.raw.clone(),
            TypeExtension::Object(object_type) => object_type.raw.clone(),
            TypeExtension::Interface(interface_type) => interface_type.raw.clone(),
            TypeExtension::Union(union_type) => union_type.raw.clone(),
            TypeExtension::InputObject(input_object_type) => input_object_type.raw.clone(),
        }
    }
}

/// Display name given to the schema block, which has no name of its own.
pub open spec fn schema_name() -> Seq<char> {
    "schema"@
}

impl ExtendType for SchemaDefinition {
    open spec fn dependency_names(&self) -> Seq<Seq<char>> {
        optional_name(self.query) + optional_name(self.mutation) + optional_name(
            self.subscription,
        )
    }

    open spec fn display_name(&self) -> Seq<char> {
        schema_name()
    }

    open spec fn kind(&self) -> GraphQL {
        GraphQL::Schema
    }

    open spec fn raw_text(&self) -> Seq<char> {
        self.raw@
    }

    fn get_dependencies(&self) -> (r: Vec<String>) {
        // A schema can only have a query, a mutation and a subscription.
        let mut out: Vec<String> = Vec::new();
        if let Some(field) = &self.query {
            out.push(convert_text_to_string(field));
        }
        assert(names_of(out@) =~= optional_name(self.query));
        let ghost first = names_of(out@);
        if let Some(field) = &self.mutation {
            out.push(convert_text_to_string(field));
        }
        assert(names_of(out@) =~= first + optional_name(self.mutation));
        let ghost second = names_of(out@);
        if let Some(field) = &self.subscription {
            out.push(convert_text_to_string(field));
        }
        assert(names_of(out@) =~= second + optional_name(self.subscription));
        out
    }

    fn get_id_and_name(&self) -> (r: (Option<String>, String)) {
        // A Schema has no name, use a default one.
        (None, String::from_str("schema"))
    }

    fn get_mapped_type(&self) -> (r: GraphQL) {
        GraphQL::Schema
    }

    fn get_raw(&self) -> (r: String) {
        self.raw.clone()
    }
}

impl ExtendType for DirectiveDefinition {
    open spec fn dependency_names(&self) -> Seq<Seq<char>> {
        input_values_dependencies(self.arguments@)
    }

    open spec fn display_name(&self) -> Seq<char> {
        self.name@
    }

    open spec fn kind(&self) -> GraphQL {
        GraphQL::Directive
    }

    open spec fn raw_text(&self) -> Seq<char> {
        self.raw@
    }

    fn get_dependencies(&self) -> (r: Vec<String>) {
        walk_input_values(&self.arguments)
    }

    fn get_id_and_name(&self) -> (r: (Option<String>, String)) {
        let name = convert_text_to_string(&self.name);
        (None, name)
    }

    fn get_mapped_type(&self) -> (r: GraphQL) {
        GraphQL::Directive
    }

    fn get_raw(&self) -> (r: String) {
        self.raw.clone()
    }
}

} // verus!
