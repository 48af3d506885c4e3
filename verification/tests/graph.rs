use craftql::graph::Direction;
use craftql::order::sort_dependencies;
use craftql::schema::{
    Definition, Directive, DirectiveDefinition, Document, EnumType, EnumValue, Field,
    InputObjectType, InputValue, InterfaceType, ObjectType, ScalarType, SchemaDefinition, Type,
    TypeDefinition, TypeExtension, UnionType,
};
use craftql::state::{Data, GraphQL, GraphQLType, State};
use craftql::utils::{
    add_node_and_dependencies, find_missing_definitions, find_neighbors, find_node, find_orphans,
    is_builtin, is_selected, populate_graph_from_ast,
};
use graphql_parser::parse_schema;
use graphql_parser::schema as ast;
use petgraph::graph::NodeIndex;

fn directives_of(directives: &[ast::Directive<'_, String>]) -> Vec<Directive> {
    directives
        .iter()
        .map(|directive| Directive {
            name: directive.name.clone(),
        })
        .collect()
}

fn type_of(field_type: &ast::Type<'_, String>) -> Type {
    match field_type {
        ast::Type::NamedType(name) => Type::NamedType(name.clone()),
        ast::Type::ListType(inner) => Type::ListType(Box::new(type_of(inner))),
        ast::Type::NonNullType(inner) => Type::NonNullType(Box::new(type_of(inner))),
    }
}

fn input_values_of(input_values: &[ast::InputValue<'_, String>]) -> Vec<InputValue> {
    input_values
        .iter()
        .map(|input_value| InputValue {
            directives: directives_of(&input_value.directives),
            value_type: type_of(&input_value.value_type),
        })
        .collect()
}

fn fields_of(fields: &[ast::Field<'_, String>]) -> Vec<Field> {
    fields
        .iter()
        .map(|field| Field {
            arguments: input_values_of(&field.arguments),
            directives: directives_of(&field.directives),
            field_type: type_of(&field.field_type),
        })
        .collect()
}

fn enum_values_of(values: &[ast::EnumValue<'_, String>]) -> Vec<EnumValue> {
    values
        .iter()
        .map(|value| EnumValue {
            directives: directives_of(&value.directives),
        })
        .collect()
}

fn type_definition_of(definition: &ast::TypeDefinition<'_, String>) -> TypeDefinition {
    match definition {
        ast::TypeDefinition::Scalar(t) => TypeDefinition::Scalar(ScalarType {
            name: t.name.clone(),
            directives: directives_of(&t.directives),
            raw: t.to_string(),
        }),
        ast::TypeDefinition::Object(t) => TypeDefinition::Object(ObjectType {
            name: t.name.clone(),
            implements_interfaces: t.implements_interfaces.clone(),
            directives: directives_of(&t.directives),
            fields: fields_of(&t.fields),
            raw: t.to_string(),
        }),
        ast::TypeDefinition::Interface(t) => TypeDefinition::Interface(InterfaceType {
            name: t.name.clone(),
            directives: directives_of(&t.directives),
            fields: fields_of(&t.fields),
            raw: t.to_string(),
        }),
        ast::TypeDefinition::Union(t) => TypeDefinition::Union(UnionType {
            name: t.name.clone(),
            directives: directives_of(&t.directives),
            types: t.types.clone(),
            raw: t.to_string(),
        }),
        ast::TypeDefinition::Enum(t) => TypeDefinition::Enum(EnumType {
            name: t.name.clone(),
            directives: directives_of(&t.directives),
            values: enum_values_of(&t.values),
            raw: t.to_string(),
        }),
        ast::TypeDefinition::InputObject(t) => TypeDefinition::InputObject(InputObjectType {
            name: t.name.clone(),
            directives: directives_of(&t.directives),
            fields: input_values_of(&t.fields),
            raw: t.to_string(),
        }),
    }
}

fn type_extension_of(extension: &ast::TypeExtension<'_, String>) -> TypeExtension {
    match extension {
        ast::TypeExtension::Scalar(t) => TypeExtension::Scalar(ScalarType {
            name: t.name.clone(),
            directives: directives_of(&t.directives),
            raw: t.to_string(),
        }),
        ast::TypeExtension::Object(t) => TypeExtension::Object(ObjectType {
            name: t.name.clone(),
            implements_interfaces: t.implements_interfaces.clone(),
            directives: directives_of(&t.directives),
            fields: fields_of(&t.fields),
            raw: t.to_string(),
        }),
        ast::TypeExtension::Interface(t) => TypeExtension::Interface(InterfaceType {
            name: t.name.clone(),
            directives: directives_of(&t.directives),
            fields: fields_of(&t.fields),
            raw: t.to_string(),
        }),
        ast::TypeExtension::Union(t) => TypeExtension::Union(UnionType {
            name: t.name.clone(),
            directives: directives_of(&t.directives),
            types: t.types.clone(),
            raw: t.to_string(),
        }),
        ast::TypeExtension::Enum(t) => TypeExtension::Enum(EnumType {
            name: t.name.clone(),
            directives: directives_of(&t.directives),
            values: enum_values_of(&t.values),
            raw: t.to_string(),
        }),
        ast::TypeExtension::InputObject(t) => TypeExtension::InputObject(InputObjectType {
            name: t.name.clone(),
            directives: directives_of(&t.directives),
            fields: input_values_of(&t.fields),
            raw: t.to_string(),
        }),
    }
}

fn definition_of(definition: &ast::Definition<'_, String>) -> Definition {
    match definition {
        ast::Definition::SchemaDefinition(s) => Definition::SchemaDefinition(SchemaDefinition {
            query: s.query.clone(),
            mutation: s.mutation.clone(),
            subscription: s.subscription.clone(),
            raw: s.to_string(),
        }),
        ast::Definition::TypeDefinition(t) => Definition::TypeDefinition(type_definition_of(t)),
        ast::Definition::TypeExtension(t) => Definition::TypeExtension(type_extension_of(t)),
        ast::Definition::DirectiveDefinition(d) => {
            Definition::DirectiveDefinition(DirectiveDefinition {
                name: d.name.clone(),
                arguments: input_values_of(&d.arguments),
                raw: d.to_string(),
            })
        }
    }
}

fn names(values: Vec<&str>) -> Vec<String> {
    values.into_iter().map(String::from).collect()
}

fn document(path: &str, contents: &str) -> Document {
    let parsed = parse_schema::<String>(contents).unwrap();
    Document {
        path: String::from(path),
        definitions: parsed.definitions.iter().map(definition_of).collect(),
    }
}

fn scaffold(files: Vec<(&str, &str)>, filters: &[GraphQL]) -> Data {
    let documents: Vec<Document> = files
        .into_iter()
        .map(|(path, contents)| document(path, contents))
        .collect();
    populate_graph_from_ast(&documents, &filters.to_vec()).unwrap()
}

fn ids(data: &Data) -> Vec<String> {
    data.graph
        .node_indices()
        .map(|index| data.graph[index].id.clone())
        .collect()
}

/// The edges as (source id, target id), in order of id.
fn edge_ids(data: &Data) -> Vec<(String, String)> {
    let mut pairs: Vec<(String, String)> = data
        .graph
        .raw_edges()
        .iter()
        .map(|edge| {
            (
                data.graph[edge.source()].id.clone(),
                data.graph[edge.target()].id.clone(),
            )
        })
        .collect();
    pairs.sort();
    pairs
}

fn pair(source: &str, target: &str) -> (String, String) {
    (String::from(source), String::from(target))
}

fn entity_names(entities: &[craftql::state::Entity]) -> Vec<String> {
    entities.iter().map(|entity| entity.name.clone()).collect()
}

#[test]
fn check_dependencies_and_graph() {
    let house_contents = "type House { price: Int! rooms: Int! @test owner: Owner! }";
    let house_dependencies = names(vec!["Int", "test", "Int", "Owner"]);
    let house_name = "House";
    let house_path = "some_path/House.gql";

    let owner_contents = "type Owner { name: String! }";
    let owner_dependencies = names(vec!["String"]);
    let owner_name = "Owner";
    let owner_path = "some_path/Owner.graphql";

    let shared_data = scaffold(
        vec![(house_path, house_contents), (owner_path, owner_contents)],
        &[],
    );

    let dependencies = &shared_data.dependencies;

    assert_eq!(dependencies.len(), 2);

    // Nodes are numbered in the order of the files.
    let house_node_index = NodeIndex::new(0);
    let owner_node_index = NodeIndex::new(1);

    // List of dependencies should match.
    assert_eq!(dependencies[1], owner_dependencies);
    assert_eq!(dependencies[0], house_dependencies);
    assert_eq!(
        sort_dependencies(dependencies[0].clone()),
        names(vec!["Int", "Int", "Owner", "test"])
    );
    assert_eq!(
        dependencies[0].iter().filter(|name| *name == "Int").count(),
        2
    );
    assert!(dependencies[0].contains(&String::from("Owner")));
    assert!(dependencies[0].contains(&String::from("test")));

    // Graph should contains 2 nodes and 1 edge.
    let graph = &shared_data.graph;
    assert_eq!(graph.node_count(), 2);
    assert_eq!(graph.edge_count(), 1);

    // Check house.
    let house = graph.node_weight(house_node_index).unwrap();
    assert_eq!(house.id, String::from(house_name));
    assert_eq!(house.entity.dependencies, house_dependencies);
    assert_eq!(
        house.entity.graphql,
        GraphQL::TypeDefinition(GraphQLType::Object)
    );
    assert_eq!(house.entity.id, String::from(house_name));
    assert_eq!(house.entity.name, String::from(house_name));
    assert_eq!(house.entity.path, String::from(house_path));
    // We need to parse and format the AST in order to get the same output!
    assert_eq!(
        house.entity.raw.to_string(),
        format!(
            "{}",
            parse_schema::<String>(house_contents).unwrap().to_owned()
        )
    );

    // Check owner.
    let owner = graph.node_weight(owner_node_index).unwrap();
    assert_eq!(owner.id, String::from(owner_name));
    assert_eq!(owner.entity.dependencies, owner_dependencies);
    assert_eq!(
        owner.entity.graphql,
        GraphQL::TypeDefinition(GraphQLType::Object)
    );
    assert_eq!(owner.entity.id, String::from(owner_name));
    assert_eq!(owner.entity.name, String::from(owner_name));
    assert_eq!(owner.entity.path, String::from(owner_path));
    // We need to parse and format the AST in order to get the same output!
    assert_eq!(
        owner.entity.raw.to_string(),
        format!(
            "{}",
            parse_schema::<String>(owner_contents).unwrap().to_owned()
        )
    );

    // Check the edges. Owner should be directed to House, not the other
    // way around!
    assert!(graph.contains_edge(owner_node_index, house_node_index));
    assert!(!graph.contains_edge(house_node_index, owner_node_index));

    // The built-in scalars are not missing; the directive that nothing
    // declares is.
    assert_eq!(
        shared_data.missing_definitions,
        vec![names(vec!["test"]), names(vec![])]
    );
}

#[test]
fn check_orphans() {
    let shared_data = scaffold(vec![("some_path/Peer.gql", "type Peer { id: String! }")], &[]);

    assert_eq!(shared_data.graph.node_count(), 1);
    assert_eq!(shared_data.graph.edge_count(), 0);

    let orphans = find_orphans(&shared_data.graph);
    assert_eq!(orphans.len(), 1);
    assert_eq!(orphans[0].id, "Peer");
}

#[test]
fn check_orphans_with_schema() {
    let shared_data = scaffold(vec![("some_path/Schema.gql", "schema { query: Query }")], &[]);

    assert_eq!(shared_data.graph.node_count(), 1);
    assert_eq!(shared_data.graph.edge_count(), 0);

    assert_eq!(find_orphans(&shared_data.graph).len(), 0);

    let missing = find_missing_definitions(&shared_data.graph, &shared_data.missing_definitions);
    assert_eq!(missing.len(), 1);
    assert_eq!(missing[0].0.id, "schema");
    assert_eq!(missing[0].0.graphql, GraphQL::Schema);
    assert_eq!(missing[0].1, names(vec!["Query"]));
}

#[test]
fn check_orphans_without_schema_but_with_query_mutation_subscription() {
    let shared_data = scaffold(
        vec![
            (
                "some_path/Query.gql",
                "type Query { foo(bar: String): String }",
            ),
            (
                "some_path/Mutation.gql",
                "type Mutation { foo(bar: String): String }",
            ),
            (
                "some_path/Subscription.gql",
                "type Subscription { foo(bar: String): String }",
            ),
        ],
        &[],
    );

    assert_eq!(shared_data.graph.node_count(), 3);
    assert_eq!(shared_data.graph.edge_count(), 0);

    assert_eq!(find_orphans(&shared_data.graph).len(), 0);
}

#[test]
fn check_neighbors() {
    let shared_data = scaffold(
        vec![
            ("some_path/Foo.gql", "type Foo { field: Bar }"),
            ("some_path/Bar.gql", "interface Bar { id: ID!}"),
        ],
        &[],
    );

    assert_eq!(shared_data.graph.node_count(), 2);
    assert_eq!(shared_data.graph.edge_count(), 1);

    // Foo depends on Bar but is not a dependency.
    let incoming = find_neighbors("Foo", &shared_data.graph, Direction::Incoming);
    let outgoing = find_neighbors("Foo", &shared_data.graph, Direction::Outgoing);

    assert_eq!(incoming.len(), 1);
    assert_eq!(incoming.first().unwrap().name, "Bar");
    assert_eq!(outgoing.len(), 0);

    // Bar depends on nothing but is a dependency of Foo.
    let incoming = find_neighbors("Bar", &shared_data.graph, Direction::Incoming);
    let outgoing = find_neighbors("Bar", &shared_data.graph, Direction::Outgoing);

    assert_eq!(incoming.len(), 0);
    assert_eq!(outgoing.len(), 1);
    assert_eq!(outgoing.first().unwrap().name, "Foo");
}

#[test]
fn check_missing_definitions() {
    let shared_data = scaffold(
        vec![
            (
                "some_path/Foo.gql",
                "type Foo { field: Woot, otherField: Why }",
            ),
            ("some_path/Bar.gql", "interface Bar { id: What!}"),
        ],
        &[],
    );

    assert_eq!(shared_data.graph.node_count(), 2);
    assert_eq!(shared_data.graph.edge_count(), 0);

    let missing_definitions = &shared_data.missing_definitions;
    let foo_missing_dependencies = &missing_definitions[0];
    let bar_missing_dependencies = &missing_definitions[1];

    assert_eq!(
        *foo_missing_dependencies,
        vec![String::from("Woot"), String::from("Why")]
    );
    assert_eq!(
        sort_dependencies(foo_missing_dependencies.clone()),
        vec![String::from("Why"), String::from("Woot")]
    );
    assert_eq!(*bar_missing_dependencies, vec![String::from("What")]);

    let report = find_missing_definitions(&shared_data.graph, missing_definitions);
    assert_eq!(report.len(), 2);
    assert_eq!(report[0].0.id, "Foo");
    assert_eq!(report[0].1, names(vec!["Woot", "Why"]));
    assert_eq!(report[1].0.id, "Bar");
    assert_eq!(report[1].1, names(vec!["What"]));
}

#[test]
fn check_filtering() {
    let shared_data = scaffold(
        vec![
            ("some_path/Foo.gql", "type Foo { a: ID! }"),
            ("some_path/Bar.gql", "interface Bar { b: ID! }"),
            ("some_path/Cow.gql", "input Cow { c: ID! }"),
        ],
        &[
            GraphQL::TypeDefinition(GraphQLType::Object),
            GraphQL::TypeDefinition(GraphQLType::InputObject),
        ],
    );

    assert_eq!(shared_data.graph.node_count(), 2);
    assert_eq!(shared_data.graph.edge_count(), 0);

    let mut selected_entities = ids(&shared_data);
    // Sort the entities so that the assertion does not depend on their order.
    selected_entities.sort();
    assert_eq!(selected_entities, vec!["Cow", "Foo"]);

    assert!(find_node("Bar", &shared_data.graph).is_err());
    assert!(find_node("Foo", &shared_data.graph).is_ok());
    assert!(find_node("Cow", &shared_data.graph).is_ok());
}

#[test]
fn unrelated_declarations_give_nodes_without_edges() {
    let data = scaffold(
        vec![
            ("a.gql", "scalar Date scalar Time"),
            ("b.gql", "enum Color { RED GREEN }"),
            ("c.gql", "type Point { x: Int y: Int }"),
        ],
        &[],
    );
    assert_eq!(data.graph.node_count(), 4);
    assert_eq!(data.graph.edge_count(), 0);
    assert_eq!(ids(&data), names(vec!["Date", "Time", "Color", "Point"]));
    assert_eq!(data.dependencies.len(), 4);
    assert_eq!(data.missing_definitions.len(), 4);
}

#[test]
fn rebuilding_gives_the_same_graph() {
    let files = vec![
        ("a.gql", "type A implements I { b: B c(arg: In): C }"),
        ("b.gql", "type B { a: A } interface I { id: ID } extend type A { more: B }"),
        ("c.gql", "input In { x: Int } schema { query: A }"),
    ];
    let first = scaffold(files.clone(), &[]);
    let second = scaffold(files, &[]);
    assert_eq!(ids(&first), ids(&second));
    assert_eq!(edge_ids(&first), edge_ids(&second));
    assert_eq!(first.dependencies, second.dependencies);
    assert_eq!(first.missing_definitions, second.missing_definitions);
    assert_eq!(
        edge_ids(&first),
        vec![
            pair("A", "B"),
            pair("A", "schema"),
            pair("A__", "A"),
            pair("A__", "B"),
            pair("B", "A"),
            pair("I", "A"),
            pair("In", "A"),
        ]
    );
}

#[test]
fn extension_and_base_are_two_nodes() {
    let data = scaffold(
        vec![
            ("ext.gql", "extend type X { more: Int }"),
            ("base.gql", "type X { id: ID }"),
        ],
        &[],
    );
    assert_eq!(data.graph.node_count(), 2);
    assert_eq!(ids(&data), names(vec!["X__", "X"]));
    assert_eq!(data.graph[NodeIndex::new(0)].entity.name, "X");
    assert_eq!(data.graph[NodeIndex::new(1)].entity.name, "X");
    // The extension points at its base, never at itself.
    assert_eq!(edge_ids(&data), vec![pair("X__", "X")]);
    assert!(data.graph.contains_edge(NodeIndex::new(0), NodeIndex::new(1)));
    assert!(!data.graph.contains_edge(NodeIndex::new(0), NodeIndex::new(0)));
    assert!(!data.graph.contains_edge(NodeIndex::new(1), NodeIndex::new(0)));

    let extension = find_node("X__", &data.graph).unwrap();
    assert_eq!(extension.graphql, GraphQL::TypeExtension(GraphQLType::Object));
    let base = find_node("X", &data.graph).unwrap();
    assert_eq!(base.graphql, GraphQL::TypeDefinition(GraphQLType::Object));

    // The extension has an outgoing edge; the base has none and is the orphan.
    assert_eq!(entity_names(&find_orphans(&data.graph)), names(vec!["X"]));
    assert_eq!(find_orphans(&data.graph)[0].id, "X");
    let outgoing = find_neighbors("X__", &data.graph, Direction::Outgoing);
    assert_eq!(outgoing.len(), 1);
    assert_eq!(outgoing[0].id, "X");
    let incoming = find_neighbors("X", &data.graph, Direction::Incoming);
    assert_eq!(incoming.len(), 1);
    assert_eq!(incoming[0].id, "X__");
}

#[test]
fn extension_without_base_reports_it_missing() {
    let data = scaffold(vec![("ext.gql", "extend scalar Date @fmt")], &[]);
    assert_eq!(data.graph.node_count(), 1);
    assert_eq!(data.graph.edge_count(), 0);
    assert_eq!(data.missing_definitions, vec![names(vec!["fmt", "Date"])]);
    assert_eq!(entity_names(&find_orphans(&data.graph)), names(vec!["Date"]));
}

#[test]
fn extension_edges_run_from_the_extension() {
    let data = scaffold(
        vec![(
            "all.gql",
            "type Foo { id: ID } type Bar { id: ID } extend type Foo { bar: Bar }",
        )],
        &[],
    );
    assert_eq!(edge_ids(&data), vec![pair("Foo__", "Bar"), pair("Foo__", "Foo")]);
    let mut outgoing: Vec<String> = find_neighbors("Foo__", &data.graph, Direction::Outgoing)
        .iter()
        .map(|entity| entity.id.clone())
        .collect();
    outgoing.sort();
    assert_eq!(outgoing, names(vec!["Bar", "Foo"]));
    let mut orphans: Vec<String> = find_orphans(&data.graph)
        .iter()
        .map(|entity| entity.id.clone())
        .collect();
    orphans.sort();
    assert_eq!(orphans, names(vec!["Bar", "Foo"]));
}

#[test]
fn repeated_references_give_one_edge() {
    let data = scaffold(
        vec![("all.gql", "type A { x: B y: [B!]! z(arg: B): B } type B { id: ID }")],
        &[],
    );
    assert_eq!(data.graph.edge_count(), 1);
    assert_eq!(edge_ids(&data), vec![pair("B", "A")]);
    assert_eq!(data.dependencies[0], names(vec!["B", "B", "B", "B"]));
}

#[test]
fn references_resolve_across_files_in_any_order() {
    let forward = scaffold(
        vec![("a.gql", "type A { b: B }"), ("b.gql", "type B { id: ID }")],
        &[],
    );
    let backward = scaffold(
        vec![("b.gql", "type B { id: ID }"), ("a.gql", "type A { b: B }")],
        &[],
    );
    assert_eq!(edge_ids(&forward), vec![pair("B", "A")]);
    assert_eq!(edge_ids(&backward), vec![pair("B", "A")]);
    assert!(forward.graph.contains_edge(NodeIndex::new(1), NodeIndex::new(0)));
    assert!(backward.graph.contains_edge(NodeIndex::new(0), NodeIndex::new(1)));
}

#[test]
fn a_type_that_names_itself_is_no_orphan() {
    let data = scaffold(vec![("n.gql", "type Item { next: Item }")], &[]);
    assert_eq!(edge_ids(&data), vec![pair("Item", "Item")]);
    assert_eq!(find_orphans(&data.graph).len(), 0);
    assert_eq!(find_neighbors("Item", &data.graph, Direction::Outgoing).len(), 1);
    assert_eq!(find_neighbors("Item", &data.graph, Direction::Incoming).len(), 1);
}

#[test]
fn missing_names_keep_order_and_duplicates() {
    let data = scaffold(
        vec![(
            "foo.gql",
            "type Foo { a: Nope b: Boolean c: Nope d: Float e: ID f: Int g: String h: Other }",
        )],
        &[],
    );
    assert_eq!(
        data.missing_definitions,
        vec![names(vec!["Nope", "Nope", "Other"])]
    );
    let report = find_missing_definitions(&data.graph, &data.missing_definitions);
    assert_eq!(report.len(), 1);
    assert_eq!(report[0].0.name, "Foo");
    assert_eq!(report[0].1, names(vec!["Nope", "Nope", "Other"]));
}

#[test]
fn a_declared_name_is_not_missing_even_if_named_like_a_scalar() {
    let data = scaffold(
        vec![("s.gql", "scalar Int type Foo { a: Int b: Float }")],
        &[],
    );
    assert_eq!(edge_ids(&data), vec![pair("Int", "Foo")]);
    assert_eq!(data.missing_definitions, vec![names(vec![]), names(vec![])]);
    assert_eq!(
        find_missing_definitions(&data.graph, &data.missing_definitions).len(),
        0
    );
}

#[test]
fn filter_counts_the_declarations_it_lets_in() {
    let files = vec![
        ("a.gql", "type A { i: I } type B { id: ID } interface I { id: ID }"),
        ("b.gql", "enum E { X } extend type A { e: E } scalar S"),
    ];
    let all = scaffold(files.clone(), &[]);
    assert_eq!(all.graph.node_count(), 6);

    let objects = scaffold(files.clone(), &[GraphQL::TypeDefinition(GraphQLType::Object)]);
    assert_eq!(objects.graph.node_count(), 2);
    assert_eq!(ids(&objects), names(vec!["A", "B"]));
    for index in objects.graph.node_indices() {
        assert_eq!(
            objects.graph[index].entity.graphql,
            GraphQL::TypeDefinition(GraphQLType::Object)
        );
    }
    // What the filter leaves out cannot be resolved and is reported.
    assert_eq!(objects.graph.edge_count(), 0);
    assert_eq!(
        objects.missing_definitions,
        vec![names(vec!["I"]), names(vec![])]
    );

    let extensions = scaffold(
        files,
        &[
            GraphQL::TypeExtension(GraphQLType::Object),
            GraphQL::TypeDefinition(GraphQLType::Enum),
        ],
    );
    assert_eq!(ids(&extensions), names(vec!["E", "A__"]));
    assert_eq!(edge_ids(&extensions), vec![pair("A__", "E")]);
    assert_eq!(
        extensions.missing_definitions,
        vec![names(vec![]), names(vec!["A"])]
    );
}

#[test]
fn schema_block_is_never_an_orphan_and_makes_roots_ordinary() {
    let data = scaffold(
        vec![(
            "s.gql",
            "schema { query: Root } type Root { id: ID } type Query { id: ID } type Lone { id: ID }",
        )],
        &[],
    );
    assert_eq!(edge_ids(&data), vec![pair("Root", "schema")]);
    // With a schema block, an object named Query is an orphan like any other.
    assert_eq!(
        entity_names(&find_orphans(&data.graph)),
        names(vec!["Query", "Lone"])
    );
}

#[test]
fn only_objects_named_like_roots_are_excepted() {
    let data = scaffold(
        vec![(
            "s.gql",
            "interface Query { id: ID } type Mutation { id: ID } type query { id: ID }",
        )],
        &[],
    );
    let orphans = find_orphans(&data.graph);
    assert_eq!(entity_names(&orphans), names(vec!["Query", "query"]));
    assert_eq!(
        orphans[0].graphql,
        GraphQL::TypeDefinition(GraphQLType::Interface)
    );
}

#[test]
fn lookup_takes_the_first_node_of_an_id() {
    let data = scaffold(
        vec![
            ("one.gql", "type Twice { a: Int }"),
            ("two.gql", "type Twice { b: Int } type User { t: Twice }"),
        ],
        &[],
    );
    assert_eq!(data.graph.node_count(), 3);
    assert_eq!(find_node("Twice", &data.graph).unwrap().path, "one.gql");
    assert!(data.graph.contains_edge(NodeIndex::new(0), NodeIndex::new(2)));
    assert!(!data.graph.contains_edge(NodeIndex::new(1), NodeIndex::new(2)));
}

#[test]
fn find_node_reports_the_id_it_did_not_find() {
    let data = scaffold(vec![("a.gql", "type A { id: ID }")], &[]);
    let found = find_node("A", &data.graph).unwrap();
    assert_eq!(found.id, "A");
    assert_eq!(found.path, "a.gql");
    assert_eq!(found.dependencies, names(vec!["ID"]));
    let error = find_node("a", &data.graph).unwrap_err();
    assert_eq!(error.id, "a");
    assert!(find_node("", &data.graph).is_err());
}

#[test]
fn neighbors_of_an_absent_node_are_none() {
    let data = scaffold(vec![("a.gql", "type A { b: B } type B { id: ID }")], &[]);
    assert_eq!(find_neighbors("C", &data.graph, Direction::Incoming).len(), 0);
    assert_eq!(find_neighbors("C", &data.graph, Direction::Outgoing).len(), 0);
}

#[test]
fn neighbors_list_every_edge() {
    let data = scaffold(
        vec![(
            "a.gql",
            "type Hub { id: ID } type A { h: Hub } type B { h: Hub } type C { h: Hub a: A }",
        )],
        &[],
    );
    let mut users: Vec<String> = entity_names(&find_neighbors(
        "Hub",
        &data.graph,
        Direction::Outgoing,
    ));
    users.sort();
    assert_eq!(users, names(vec!["A", "B", "C"]));
    let mut used: Vec<String> =
        entity_names(&find_neighbors("C", &data.graph, Direction::Incoming));
    used.sort();
    assert_eq!(used, names(vec!["A", "Hub"]));
    assert_eq!(entity_names(&find_orphans(&data.graph)), names(vec!["B", "C"]));
}

#[test]
fn neighbors_come_with_the_edge_added_last_first() {
    let data = scaffold(
        vec![(
            "a.gql",
            "type Hub { id: ID } type A { h: Hub } type B { h: Hub } type C { h: Hub a: A }",
        )],
        &[],
    );
    assert_eq!(
        entity_names(&find_neighbors("Hub", &data.graph, Direction::Outgoing)),
        names(vec!["C", "B", "A"])
    );
    assert_eq!(
        entity_names(&find_neighbors("C", &data.graph, Direction::Incoming)),
        names(vec!["A", "Hub"])
    );
}

#[test]
fn edges_are_added_in_the_order_of_the_dependencies() {
    let data = scaffold(
        vec![(
            "a.gql",
            "type A { c: C b: B c2: C } type B { id: ID } type C { a: A } extend type B { c: C }",
        )],
        &[],
    );
    let edges: Vec<(usize, usize)> = data
        .graph
        .raw_edges()
        .iter()
        .map(|edge| (edge.source().index(), edge.target().index()))
        .collect();
    assert_eq!(edges, vec![(2, 0), (1, 0), (0, 2), (3, 2), (3, 1)]);
}

#[test]
fn a_missing_list_without_node_is_passed_over() {
    let data = scaffold(vec![("a.gql", "type A { b: B }")], &[]);
    let lists = vec![names(vec!["B"]), names(vec!["C"])];
    let report = find_missing_definitions(&data.graph, &lists);
    assert_eq!(report.len(), 1);
    assert_eq!(report[0].0.id, "A");
    assert_eq!(report[0].1, names(vec!["B"]));
    assert!(find_missing_definitions(&data.graph, &Vec::new()).is_empty());
}

#[test]
fn a_scalar_named_schema_is_no_schema_block() {
    let data = scaffold(
        vec![("s.gql", "scalar schema"), ("q.gql", "type Query { a: ID }")],
        &[],
    );
    assert_eq!(ids(&data), names(vec!["schema", "Query"]));
    assert_eq!(
        data.graph[NodeIndex::new(0)].entity.graphql,
        GraphQL::TypeDefinition(GraphQLType::Scalar)
    );
    // No node is a schema block, so the object Query stands for a root
    // operation and is no orphan; the scalar is one.
    let orphans = find_orphans(&data.graph);
    assert_eq!(orphans.len(), 1);
    assert_eq!(orphans[0].id, "schema");
    assert_eq!(
        orphans[0].graphql,
        GraphQL::TypeDefinition(GraphQLType::Scalar)
    );
}

#[test]
fn a_scalar_named_schema_written_by_hand_is_no_schema_block() {
    let documents = vec![Document {
        path: String::from("all.gql"),
        definitions: vec![
            Definition::TypeDefinition(TypeDefinition::Scalar(ScalarType {
                name: String::from("schema"),
                directives: vec![],
                raw: String::from("scalar schema"),
            })),
            Definition::TypeDefinition(TypeDefinition::Object(ObjectType {
                name: String::from("Mutation"),
                implements_interfaces: vec![],
                directives: vec![],
                fields: vec![],
                raw: String::from("type Mutation"),
            })),
        ],
    }];
    let data = populate_graph_from_ast(&documents, &Vec::new()).unwrap();
    assert_eq!(entity_names(&find_orphans(&data.graph)), names(vec!["schema"]));
}

#[test]
fn a_schema_block_counts_whatever_else_is_named_schema() {
    let data = scaffold(
        vec![(
            "all.gql",
            "scalar schema schema { query: Root } type Root { id: ID } type Query { id: ID }",
        )],
        &[],
    );
    assert_eq!(
        find_orphans(&data.graph)
            .iter()
            .map(|entity| (entity.id.clone(), entity.graphql))
            .collect::<Vec<_>>(),
        vec![
            (
                String::from("schema"),
                GraphQL::TypeDefinition(GraphQLType::Scalar)
            ),
            (
                String::from("Query"),
                GraphQL::TypeDefinition(GraphQLType::Object)
            ),
        ]
    );
}

#[test]
fn building_the_files_in_another_order_gives_the_same_ids() {
    let a = ("a.gql", "type A implements I { b: B c(arg: In): C }");
    let b = (
        "b.gql",
        "type B { a: A } interface I { id: ID } extend type A { more: B }",
    );
    let c = ("c.gql", "input In { x: Int } schema { query: A } type B { other: I }");
    let orders = vec![
        vec![a, b, c],
        vec![a, c, b],
        vec![b, a, c],
        vec![b, c, a],
        vec![c, a, b],
        vec![c, b, a],
    ];
    let first = scaffold(orders[0].clone(), &[]);
    let mut first_ids = ids(&first);
    first_ids.sort();
    first_ids.dedup();
    let mut first_pairs = edge_ids(&first);
    first_pairs.dedup();
    assert_eq!(
        first_ids,
        names(vec!["A", "A__", "B", "I", "In", "schema"])
    );
    for order in orders {
        let data = scaffold(order, &[]);
        let mut these_ids = ids(&data);
        these_ids.sort();
        these_ids.dedup();
        let mut these_pairs = edge_ids(&data);
        these_pairs.dedup();
        assert_eq!(these_ids, first_ids);
        assert_eq!(these_pairs, first_pairs);
    }
}

#[test]
fn a_declaration_that_the_filter_leaves_out_adds_nothing() {
    let mut state = State::new().shared;
    let declaration = TypeDefinition::Interface(InterfaceType {
        name: String::from("Bar"),
        directives: vec![],
        fields: vec![],
        raw: String::from("interface Bar"),
    });
    let filter = vec![GraphQL::TypeDefinition(GraphQLType::Object)];
    let added = add_node_and_dependencies(
        &declaration,
        &filter,
        &mut state.graph,
        &mut state.dependencies,
        &String::from("bar.gql"),
    );
    assert_eq!(added, Ok(()));
    assert_eq!(state.graph.node_count(), 0);
    assert_eq!(state.graph.edge_count(), 0);
    assert!(state.dependencies.is_empty());
}

#[test]
fn a_declaration_that_the_filter_lets_in_adds_its_node() {
    let mut state = State::new().shared;
    let base = TypeDefinition::Union(UnionType {
        name: String::from("X"),
        directives: vec![],
        types: vec![String::from("A")],
        raw: String::from("union X = A"),
    });
    let extension = TypeExtension::Union(UnionType {
        name: String::from("X"),
        directives: vec![],
        types: vec![String::from("B")],
        raw: String::from("extend union X = B"),
    });
    let path = String::from("x.gql");
    assert_eq!(
        add_node_and_dependencies(
            &base,
            &Vec::new(),
            &mut state.graph,
            &mut state.dependencies,
            &path
        ),
        Ok(())
    );
    assert_eq!(state.graph.node_count(), 1);
    assert_eq!(state.dependencies, vec![names(vec!["A"])]);
    let filter = vec![GraphQL::TypeExtension(GraphQLType::Union)];
    assert_eq!(
        add_node_and_dependencies(
            &extension,
            &filter,
            &mut state.graph,
            &mut state.dependencies,
            &path
        ),
        Ok(())
    );
    // The base is still there, unchanged, and the extension is a second node.
    assert_eq!(state.graph.node_count(), 2);
    assert_eq!(state.graph.edge_count(), 0);
    assert_eq!(state.graph[NodeIndex::new(0)].id, "X");
    assert_eq!(state.graph[NodeIndex::new(0)].entity.raw, "union X = A");
    assert_eq!(state.graph[NodeIndex::new(1)].id, "X__");
    assert_eq!(state.graph[NodeIndex::new(1)].entity.id, "X__");
    assert_eq!(state.graph[NodeIndex::new(1)].entity.name, "X");
    assert_eq!(state.graph[NodeIndex::new(1)].entity.path, "x.gql");
    assert_eq!(
        state.graph[NodeIndex::new(1)].entity.graphql,
        GraphQL::TypeExtension(GraphQLType::Union)
    );
    assert_eq!(
        state.dependencies,
        vec![names(vec!["A"]), names(vec!["B", "X"])]
    );
}

#[test]
fn an_empty_corpus_builds_an_empty_graph() {
    let data = populate_graph_from_ast(&Vec::new(), &Vec::new()).unwrap();
    assert_eq!(data.graph.node_count(), 0);
    assert_eq!(data.graph.edge_count(), 0);
    assert!(data.dependencies.is_empty());
    assert!(data.missing_definitions.is_empty());
    assert!(find_orphans(&data.graph).is_empty());
    assert!(find_missing_definitions(&data.graph, &data.missing_definitions).is_empty());
}

#[test]
fn a_new_state_is_empty() {
    let state = State::new();
    assert_eq!(state.shared.graph.node_count(), 0);
    assert_eq!(state.shared.graph.edge_count(), 0);
    assert!(state.shared.dependencies.is_empty());
    assert!(state.shared.missing_definitions.is_empty());
    let state = State::default();
    assert_eq!(state.shared.graph.node_count(), 0);
}

#[test]
fn an_empty_filter_selects_every_kind() {
    assert!(is_selected(&Vec::new(), GraphQL::Schema));
    assert!(is_selected(&vec![GraphQL::Schema], GraphQL::Schema));
    assert!(!is_selected(&vec![GraphQL::Schema], GraphQL::Directive));
    assert!(!is_selected(
        &vec![GraphQL::TypeDefinition(GraphQLType::Object)],
        GraphQL::TypeExtension(GraphQLType::Object)
    ));
}

#[test]
fn the_five_scalars_are_built_in() {
    for name in ["Boolean", "Float", "ID", "Int", "String"] {
        assert!(is_builtin(&String::from(name)));
    }
    for name in ["boolean", "Id", "Integer", "", "string", "Date"] {
        assert!(!is_builtin(&String::from(name)));
    }
}
