//! The words for kinds, and the text forms of entities.

use vstd::prelude::*;
use crate::state::{names_of, Entity, EntityView, GraphQL, GraphQLType};

verus! {

/// The name of a type kind, as it is shown.
pub open spec fn type_label(graphql_type: GraphQLType) -> Seq<char> {
    match graphql_type {
        GraphQLType::Enum => "Enum"@,
        GraphQLType::InputObject => "InputObject"@,
        GraphQLType::Interface => "Interface"@,
        GraphQLType::Object => "Object"@,
        GraphQLType::Scalar => "Scalar"@,
        GraphQLType::Union => "Union"@,
    }
}

/// The name of a declaration kind, as it is shown.
pub open spec fn kind_label(kind: GraphQL) -> Seq<char> {
    match kind {
        GraphQL::Directive => "Directive"@,
        GraphQL::Schema => "Schema"@,
        GraphQL::TypeDefinition(graphql_type) => type_label(graphql_type),
        GraphQL::TypeExtension(graphql_type) => type_label(graphql_type) + " extension"@,
    }
}

/// The kind that a filter word stands for.
pub open spec fn kind_named(word: Seq<char>) -> Option<GraphQL> {
    if word == "directive"@ {
        Some(GraphQL::Directive)
    } else if word == "enum"@ {
        Some(GraphQL::TypeDefinition(GraphQLType::Enum))
    } else if word == "enum_extension"@ {
        Some(GraphQL::TypeExtension(GraphQLType::Enum))
    } else if word == "input_object"@ {
        Some(GraphQL::TypeDefinition(GraphQLType::InputObject))
    } else if word == "input_object_extension"@ {
        Some(GraphQL::TypeExtension(GraphQLType::InputObject))
    } else if word == "interface"@ {
        Some(GraphQL::TypeDefinition(GraphQLType::Interface))
    } else if word == "interface_extension"@ {
        Some(GraphQL::TypeExtension(GraphQLType::Interface))
    } else if word == "object"@ {
        Some(GraphQL::TypeDefinition(GraphQLType::Object))
    } else if word == "object_extension"@ {
        Some(GraphQL::TypeExtension(GraphQLType::Object))
    } else if word == "scalar"@ {
        Some(GraphQL::TypeDefinition(GraphQLType::Scalar))
    } else if word == "scalar_extension"@ {
        Some(GraphQL::TypeExtension(GraphQLType::Scalar))
    } else if word == "schema"@ {
        Some(GraphQL::Schema)
    } else if word == "union"@ {
        Some(GraphQL::TypeDefinition(GraphQLType::Union))
    } else if word == "union_extension"@ {
        Some(GraphQL::TypeExtension(GraphQLType::Union))
    } else {
        None
    }
}

/// The complaint about a filter word that stands for no kind.
pub open spec fn unknown_kind_message(word: Seq<char>) -> Seq<char> {
    "Unknown GraphQL type provided \""@ + word + "\""@
}

/// The names, with `separator` between each two.
pub open spec fn joined(names: Seq<Seq<char>>, separator: Seq<char>) -> Seq<char>
    decreases names.len(),
{
    if names.len() == 0 {
        Seq::empty()
    } else if names.len() == 1 {
        names[0]
    } else {
        joined(names.drop_last(), separator) + separator + names.last()
    }
}

/// Short description of an entity: name and kind, then its dependencies if it has any.
pub open spec fn description(entity: EntityView) -> Seq<char> {
    let head = entity.name + " ("@ + kind_label(entity.graphql) + ")"@;
    if entity.dependencies.len() == 0 {
        head
    } else {
        head + "\n\n["@ + joined(entity.dependencies, ", "@) + "]"@
    }
}

/// Full text of an entity: a comment line with its path, then its canonical text.
pub open spec fn rendering(entity: EntityView) -> Seq<char> {
    "\n# "@ + entity.path + "\n"@ + entity.raw
}

/// The complaint about names that a node refers to and nothing defines.
pub open spec fn missing_message(definitions: Seq<Seq<char>>, entity: EntityView) -> Seq<char> {
    "\n# "@ + joined(definitions, ", "@) + " "@ + (if definitions.len() == 1 {
        "is"@
    } else {
        "are"@
    }) + " not defined in:"@ + rendering(entity)
}

/// Joins the names with `separator` between each two.
pub fn join(names: &Vec<String>, separator: &str) -> (r: String)
    ensures
        r@ == joined(names_of(names@), separator@),
{
    let mut out = String::new();
    let mut i: usize = 0;
    let ghost all = names_of(names@);
    assert(all.take(0) =~= Seq::<Seq<char>>::empty());
    while i < names.len()
        invariant
            i <= names.len(),
            all == names_of(names@),
            out@ == joined(all.take(i as int), separator@),
        decreases names.len() - i,
    {
        let ghost before = out@;
        assert(all.take(i + 1).drop_last() =~= all.take(i as int));
        assert(all.take(i + 1).last() == names@[i as int]@);
        if i > 0 {
            out.append(separator);
        }
        out.append(names[i].as_str());
        proof {
            if i == 0 {
                assert(out@ =~= names@[0]@);
                assert(all.take(1)[0] == names@[0]@);
            }
        }
        i += 1;
    }
    assert(all.take(i as int) =~= all);
    out
}

impl GraphQLType {
    /// The name of the type kind, as it is shown.
    pub fn label(&self) -> (r: String)
        ensures
            r@ == type_label(*self),
    {
        match self {
            GraphQLType::Enum => String::from_str("Enum"),
            GraphQLType::InputObject => String::from_str("InputObject"),
            GraphQLType::Interface => String::from_str("Interface"),
            GraphQLType::Object => String::from_str("Object"),
            GraphQLType::Scalar => String::from_str("Scalar"),
            GraphQLType::Union => String::from_str("Union"),
        }
    }
}

impl GraphQL {
    /// The name of the kind, as it is shown.
    pub fn label(&self) -> (r: String)
        ensures
            r@ == kind_label(*self),
    {
        match self {
            GraphQL::Directive => String::from_str("Directive"),
            GraphQL::Schema => String::from_str("Schema"),
            GraphQL::TypeDefinition(graphql_type) => graphql_type.label(),
            GraphQL::TypeExtension(graphql_type) => graphql_type.label().concat(" extension"),
        }
    }

    /// The kind that a filter word stands for, or a complaint that quotes the word.
    pub fn from_name(s: &str) -> (r: Result<GraphQL, String>)
        ensures
            match kind_named(s@) {
                Some(kind) => r == Ok::<GraphQL, String>(kind),
                None => r is Err && r->Err_0@ == unknown_kind_message(s@),
            },
    {
        let word = s.to_owned();
        if word == String::from_str("directive") {
            Ok(GraphQL::Directive)
        } else if word == String::from_str("enum") {
            Ok(GraphQL::TypeDefinition(GraphQLType::Enum))
        } else if word == String::from_str("enum_extension") {
            Ok(GraphQL::TypeExtension(GraphQLType::Enum))
        } else if word == String::from_str("input_object") {
            Ok(GraphQL::TypeDefinition(GraphQLType::InputObject))
        } else if word == String::from_str("input_object_extension") {
            Ok(GraphQL::TypeExtension(GraphQLType::InputObject))
        } else if word == String::from_str("interface") {
            Ok(GraphQL::TypeDefinition(GraphQLType::Interface))
        } else if word == String::from_str("interface_extension") {
            Ok(GraphQL::TypeExtension(GraphQLType::Interface))
        } else if word == String::from_str("object") {
            Ok(GraphQL::TypeDefinition(GraphQLType::Object))
        } else if word == String::from_str("object_extension") {
            Ok(GraphQL::TypeExtension(GraphQLType::Object))
        } else if word == String::from_str("scalar") {
            Ok(GraphQL::TypeDefinition(GraphQLType::Scalar))
        } else if word == String::from_str("scalar_extension") {
            Ok(GraphQL::TypeExtension(GraphQLType::Scalar))
        } else if word == String::from_str("schema") {
            Ok(GraphQL::Schema)
        } else if word == String::from_str("union") {
            Ok(GraphQL::TypeDefinition(GraphQLType::Union))
        } else if word == String::from_str("union_extension") {
            Ok(GraphQL::TypeExtension(GraphQLType::Union))
        } else {
            Err(String::from_str("Unknown GraphQL type provided \"").concat(s).concat("\""))
        }
    }
}

impl core::str::FromStr for GraphQL {
    type Err = String;

    /// The kind that a filter word stands for, or a complaint that quotes the word.
    fn from_str(s: &str) -> (r: Result<Self, String>)
        ensures
            match kind_named(s@) {
                Some(kind) => r == Ok::<GraphQL, String>(kind),
                None => r is Err && r->Err_0@ == unknown_kind_message(s@),
            },
    {
        GraphQL::from_name(s)
    }
}

impl Entity {
    /// Short description, as used for the nodes of a rendered graph.
    pub fn describe(&self) -> (r: String)
        ensures
            r@ == description(self@),
    {
        let mut out = self.name.clone();
        out.append(" (");
        out.append(self.graphql.label().as_str());
        out.append(")");
        if self.dependencies.len() > 0 {
            out.append("\n\n[");
            out.append(join(&self.dependencies, ", ").as_str());
            out.append("]");
        }
        out
    }

    /// Full text, as used when a query shows an entity.
    pub fn render(&self) -> (r: String)
        ensures
            r@ == rendering(self@),
    {
        let mut out = String::from_str("\n# ");
        out.append(self.path.as_str());
        out.append("\n");
        out.append(self.raw.as_str());
        out
    }
}

/// The line that reports the names that `entity` refers to and nothing defines.
pub fn describe_missing(definitions: &Vec<String>, entity: &Entity) -> (r: String)
    ensures
        r@ == missing_message(names_of(definitions@), entity@),
{
    let mut out = String::from_str("\n# ");
    out.append(join(definitions, ", ").as_str());
    out.append(" ");
    if definitions.len() == 1 {
        out.append("is");
    } else {
        out.append("are");
    }
    out.append(" not defined in:");
    out.append(entity.render().as_str());
    out
}

} // verus!
