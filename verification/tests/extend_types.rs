use craftql::extend_types::{get_extended_id, ExtendType};
use craftql::order::sort_dependencies;
use craftql::schema::{
    Definition, Directive, DirectiveDefinition, EnumType, EnumValue, Field, InputObjectType,
    InputValue, InterfaceType, ObjectType, ScalarType, SchemaDefinition, Type, TypeDefinition,
    TypeExtension, UnionType,
};
use craftql::state::{GraphQL, GraphQLType};
use graphql_parser::parse_schema;
use graphql_parser::schema as ast;

fn directives_of(directives: &[ast::Directive<'_, String>]) -> Vec<Directive> {
    directives
        .iter()
        .map(|directive| Directive {
            name: directive.name.clone(),
        })
        .collect()
}

fn type_of(field_type: &ast::Type<'_, String>) -> Type {
    match field_type {
        ast::Type::NamedType(name) => Type::NamedType(name.clone()),
        ast::Type::ListType(inner) => Type::ListType(Box::new(type_of(inner))),
        ast::Type::NonNullType(inner) => Type::NonNullType(Box::new(type_of(inner))),
    }
}

fn input_values_of(input_values: &[ast::InputValue<'_, String>]) -> Vec<InputValue> {
    input_values
        .iter()
        .map(|input_value| InputValue {
            directives: directives_of(&input_value.directives),
            value_type: type_of(&input_value.value_type),
        })
        .collect()
}

fn fields_of(fields: &[ast::Field<'_, String>]) -> Vec<Field> {
    fields
        .iter()
        .map(|field| Field {
            arguments: input_values_of(&field.arguments),
            directives: directives_of(&field.directives),
            field_type: type_of(&field.field_type),
        })
        .collect()
}

fn enum_values_of(values: &[ast::EnumValue<'_, String>]) -> Vec<EnumValue> {
    values
        .iter()
        .map(|value| EnumValue {
            directives: directives_of(&value.directives),
        })
        .collect()
}

fn type_definition_of(definition: &ast::TypeDefinition<'_, String>) -> TypeDefinition {
    match definition {
        ast::TypeDefinition::Scalar(t) => TypeDefinition::Scalar(ScalarType {
            name: t.name.clone(),
            directives: directives_of(&t.directives),
            raw: t.to_string(),
        }),
        ast::TypeDefinition::Object(t) => TypeDefinition::Object(ObjectType {
            name: t.name.clone(),
            implements_interfaces: t.implements_interfaces.clone(),
            directives: directives_of(&t.directives),
            fields: fields_of(&t.fields),
            raw: t.to_string(),
        }),
        ast::TypeDefinition::Interface(t) => TypeDefinition::Interface(InterfaceType {
            name: t.name.clone(),
            directives: directives_of(&t.directives),
            fields: fields_of(&t.fields),
            raw: t.to_string(),
        }),
        ast::TypeDefinition::Union(t) => TypeDefinition::Union(UnionType {
            name: t.name.clone(),
            directives: directives_of(&t.directives),
            types: t.types.clone(),
            raw: t.to_string(),
        }),
        ast::TypeDefinition::Enum(t) => TypeDefinition::Enum(EnumType {
            name: t.name.clone(),
            directives: directives_of(&t.directives),
            values: enum_values_of(&t.values),
            raw: t.to_string(),
        }),
        ast::TypeDefinition::InputObject(t) => TypeDefinition::InputObject(InputObjectType {
            name: t.name.clone(),
            directives: directives_of(&t.directives),
            fields: input_values_of(&t.fields),
            raw: t.to_string(),
        }),
    }
}

fn type_extension_of(extension: &ast::TypeExtension<'_, String>) -> TypeExtension {
    match extension {
        ast::TypeExtension::Scalar(t) => TypeExtension::Scalar(ScalarType {
            name: t.name.clone(),
            directives: directives_of(&t.directives),
            raw: t.to_string(),
        }),
        ast::TypeExtension::Object(t) => TypeExtension::Object(ObjectType {
            name: t.name.clone(),
            implements_interfaces: t.implements_interfaces.clone(),
            directives: directives_of(&t.directives),
            fields: fields_of(&t.fields),
            raw: t.to_string(),
        }),
        ast::TypeExtension::Interface(t) => TypeExtension::Interface(InterfaceType {
            name: t.name.clone(),
            directives: directives_of(&t.directives),
            fields: fields_of(&t.fields),
            raw: t.to_string(),
        }),
        ast::TypeExtension::Union(t) => TypeExtension::Union(UnionType {
            name: t.name.clone(),
            directives: directives_of(&t.directives),
            types: t.types.clone(),
            raw: t.to_string(),
        }),
        ast::TypeExtension::Enum(t) => TypeExtension::Enum(EnumType {
            name: t.name.clone(),
            directives: directives_of(&t.directives),
            values: enum_values_of(&t.values),
            raw: t.to_string(),
        }),
        ast::TypeExtension::InputObject(t) => TypeExtension::InputObject(InputObjectType {
            name: t.name.clone(),
            directives: directives_of(&t.directives),
            fields: input_values_of(&t.fields),
            raw: t.to_string(),
        }),
    }
}

fn definition_of(definition: &ast::Definition<'_, String>) -> Definition {
    match definition {
        ast::Definition::SchemaDefinition(s) => Definition::SchemaDefinition(SchemaDefinition {
            query: s.query.clone(),
            mutation: s.mutation.clone(),
            subscription: s.subscription.clone(),
            raw: s.to_string(),
        }),
        ast::Definition::TypeDefinition(t) => Definition::TypeDefinition(type_definition_of(t)),
        ast::Definition::TypeExtension(t) => Definition::TypeExtension(type_extension_of(t)),
        ast::Definition::DirectiveDefinition(d) => {
            Definition::DirectiveDefinition(DirectiveDefinition {
                name: d.name.clone(),
                arguments: input_values_of(&d.arguments),
                raw: d.to_string(),
            })
        }
    }
}

fn names(values: Vec<&str>) -> Vec<String> {
    values.into_iter().map(String::from).collect()
}

/// Parses `contents`, takes its first declaration and checks what the
/// library extracts from it: the dependencies in extraction order and in
/// case-insensitive order, the id and name, the kind and the canonical text.
fn match_and_assert(
    contents: &str,
    extracted: Vec<&str>,
    dependencies: Vec<&str>,
    id_and_name: (Option<String>, String),
    mapped_type: GraphQL,
) {
    fn check(
        schema_type: &impl ExtendType,
        extracted: Vec<&str>,
        dependencies: Vec<&str>,
        id_and_name: (Option<String>, String),
        mapped_type: GraphQL,
        raw: String,
    ) {
        assert_eq!(schema_type.get_dependencies(), names(extracted));
        assert_eq!(
            sort_dependencies(schema_type.get_dependencies()),
            names(dependencies)
        );
        assert_eq!(schema_type.get_id_and_name(), id_and_name);
        assert_eq!(schema_type.get_mapped_type(), mapped_type);
        assert_eq!(schema_type.get_raw(), raw);
    }

    let document = parse_schema::<String>(contents).unwrap().to_owned();
    let raw = document.to_string();

    match definition_of(document.definitions.get(0).unwrap()) {
        Definition::TypeDefinition(type_definition) => check(
            &type_definition,
            extracted,
            dependencies,
            id_and_name,
            mapped_type,
            raw,
        ),
        Definition::TypeExtension(type_extension) => check(
            &type_extension,
            extracted,
            dependencies,
            id_and_name,
            mapped_type,
            raw,
        ),
        Definition::SchemaDefinition(schema_definition) => check(
            &schema_definition,
            extracted,
            dependencies,
            id_and_name,
            mapped_type,
            raw,
        ),
        Definition::DirectiveDefinition(directive_definition) => check(
            &directive_definition,
            extracted,
            dependencies,
            id_and_name,
            mapped_type,
            raw,
        ),
    };
}

#[test]
fn test_enum() {
    match_and_assert(
        "enum Foo @foo { A @bar B C}",
        vec!["foo", "bar"],
        vec!["bar", "foo"],
        (None, String::from("Foo")),
        GraphQL::TypeDefinition(GraphQLType::Enum),
    );
}

#[test]
fn test_extend_enum() {
    match_and_assert(
        "extend enum Foo @foo { D @bar }",
        vec!["foo", "bar", "Foo"],
        vec!["bar", "foo", "Foo"],
        (Some(String::from("Foo__")), String::from("Foo")),
        GraphQL::TypeExtension(GraphQLType::Enum),
    );
}

#[test]
fn test_input_object() {
    // A definition does not name itself: only an extension names its base.
    match_and_assert(
        "input Foo @test { bar: Int! @deprecated }",
        vec!["deprecated", "Int", "test"],
        vec!["deprecated", "Int", "test"],
        (None, String::from("Foo")),
        GraphQL::TypeDefinition(GraphQLType::InputObject),
    );
}

#[test]
fn test_extend_input_object() {
    match_and_assert(
        "extend input Foo @test { woot: Int! @deprecated }",
        vec!["deprecated", "Int", "test", "Foo"],
        vec!["deprecated", "Foo", "Int", "test"],
        (Some(String::from("Foo__")), String::from("Foo")),
        GraphQL::TypeExtension(GraphQLType::InputObject),
    );
}

#[test]
fn test_interface() {
    match_and_assert(
        "interface Foo @test { id: ID! @deprecated }",
        vec!["deprecated", "ID", "test"],
        vec!["deprecated", "ID", "test"],
        (None, String::from("Foo")),
        GraphQL::TypeDefinition(GraphQLType::Interface),
    );
}

#[test]
fn test_extend_inteface() {
    match_and_assert(
        "extend interface Foo @test { woot: String! @deprecated }",
        vec!["deprecated", "String", "test", "Foo"],
        vec!["deprecated", "Foo", "String", "test"],
        (Some(String::from("Foo__")), String::from("Foo")),
        GraphQL::TypeExtension(GraphQLType::Interface),
    );
}

#[test]
fn test_object() {
    match_and_assert(
        "type Foo implements Bar @test { id: ID! @skip }",
        vec!["skip", "ID", "test", "Bar"],
        vec!["Bar", "ID", "skip", "test"],
        (None, String::from("Foo")),
        GraphQL::TypeDefinition(GraphQLType::Object),
    );
}

#[test]
fn test_extend_object() {
    match_and_assert(
        "extend type Foo @test { name: String! @skip }",
        vec!["skip", "String", "test", "Foo"],
        vec!["Foo", "skip", "String", "test"],
        (Some(String::from("Foo__")), String::from("Foo")),
        GraphQL::TypeExtension(GraphQLType::Object),
    );
}

#[test]
fn test_scalar() {
    match_and_assert(
        "scalar Foo @test",
        vec!["test"],
        vec!["test"],
        (None, String::from("Foo")),
        GraphQL::TypeDefinition(GraphQLType::Scalar),
    );
}

#[test]
fn test_extend_scalar() {
    match_and_assert(
        "extend scalar Foo @test",
        vec!["test", "Foo"],
        vec!["Foo", "test"],
        (Some(String::from("Foo__")), String::from("Foo")),
        GraphQL::TypeExtension(GraphQLType::Scalar),
    );
}

#[test]
fn test_union() {
    match_and_assert(
        "union Foo @test = A | B | C",
        vec!["A", "B", "C", "test"],
        vec!["A", "B", "C", "test"],
        (None, String::from("Foo")),
        GraphQL::TypeDefinition(GraphQLType::Union),
    );
}

#[test]
fn test_extend_union() {
    match_and_assert(
        "extend union Foo @test = D",
        vec!["D", "test", "Foo"],
        vec!["D", "Foo", "test"],
        (Some(String::from("Foo__")), String::from("Foo")),
        GraphQL::TypeExtension(GraphQLType::Union),
    );
}

#[test]
fn test_directive() {
    // A directive is known under the name it is declared with.
    match_and_assert(
        r#"directive @foo( reason: String = "Woot!" ) on FIELD_DEFINITION | ENUM_VALUE"#,
        vec!["String"],
        vec!["String"],
        (None, String::from("foo")),
        GraphQL::Directive,
    );
}

#[test]
fn test_schema() {
    match_and_assert(
        "schema { query: Query mutation: Mutation subscription: Subscription }",
        vec!["Query", "Mutation", "Subscription"],
        vec!["Mutation", "Query", "Subscription"],
        (None, String::from("schema")),
        GraphQL::Schema,
    );
}

#[test]
fn field_arguments_come_before_directives_and_type() {
    match_and_assert(
        "type Foo { a(x: [Arg!]! @onarg, y: Other): [[Ret]!] @onfield }",
        vec!["Arg", "Other", "onfield", "Ret"],
        vec!["Arg", "onfield", "Other", "Ret"],
        (None, String::from("Foo")),
        GraphQL::TypeDefinition(GraphQLType::Object),
    );
}

#[test]
fn directive_arguments_give_directives_then_type() {
    match_and_assert(
        "directive @d(a: Int @x, b: [Thing]) on FIELD",
        vec!["x", "Int", "Thing"],
        vec!["Int", "Thing", "x"],
        (None, String::from("d")),
        GraphQL::Directive,
    );
}

#[test]
fn duplicates_are_kept() {
    match_and_assert(
        "type Foo { a: Int b: Int c: Int @same d: Int @same }",
        vec!["Int", "Int", "same", "Int", "same", "Int"],
        vec!["Int", "Int", "Int", "Int", "same", "same"],
        (None, String::from("Foo")),
        GraphQL::TypeDefinition(GraphQLType::Object),
    );
}

#[test]
fn schema_with_query_only() {
    match_and_assert(
        "schema { query: Root }",
        vec!["Root"],
        vec!["Root"],
        (None, String::from("schema")),
        GraphQL::Schema,
    );
}

#[test]
fn extended_id_appends_the_suffix() {
    assert_eq!(get_extended_id(String::from("Foo")), "Foo__");
    assert_eq!(get_extended_id(String::new()), "__");
    assert_ne!(get_extended_id(String::from("Foo")), "Foo");
}

#[test]
fn extension_written_by_hand() {
    // extend union Pet @shown = Cat | Dog
    let extension = TypeExtension::Union(UnionType {
        name: String::from("Pet"),
        directives: vec![Directive {
            name: String::from("shown"),
        }],
        types: vec![String::from("Cat"), String::from("Dog")],
        raw: String::from("extend union Pet @shown = Cat | Dog\n"),
    });
    assert_eq!(
        extension.get_dependencies(),
        names(vec!["Cat", "Dog", "shown", "Pet"])
    );
    assert_eq!(
        extension.get_id_and_name(),
        (Some(String::from("Pet__")), String::from("Pet"))
    );
    assert_eq!(
        extension.get_mapped_type(),
        GraphQL::TypeExtension(GraphQLType::Union)
    );
    assert_eq!(extension.get_raw(), "extend union Pet @shown = Cat | Dog\n");
}
