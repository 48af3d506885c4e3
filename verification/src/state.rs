//! The kinds of declarations, the entities and nodes made of them, and what a build produces.

use vstd::prelude::*;
use crate::graph::{graph_edges, graph_nodes, new_graph, DependencyGraph};

verus! {

/// Core GraphQL types used for definitions and extensions.
#[derive(Debug, Copy, Clone, PartialEq, Eq, Structural)]
pub enum GraphQLType {
    /// Enum type.
    Enum,
    /// InputObject type.
    InputObject,
    /// Interface type.
    Interface,
    /// Object type.
    Object,
    /// Scalar type.
    Scalar,
    /// Union type.
    Union,
}

/// Kind of a top-level declaration; also the vocabulary of the kind filter.
#[derive(Debug, Copy, Clone, PartialEq, Eq, Structural)]
pub enum GraphQL {
    /// Directive definition.
    Directive,
    /// Schema block.
    Schema,
    /// Definition of a type.
    TypeDefinition(GraphQLType),
    /// Extension of a type.
    TypeExtension(GraphQLType),
}

impl GraphQL {
    /// Whether this kind is one of the six extension kinds.
    pub open spec fn is_extension(self) -> bool {
        self is TypeExtension
    }

    /// Executable form of `is_extension`.
    pub fn extends(&self) -> (r: bool)
        ensures
            r == self.is_extension(),
    {
        match self {
            GraphQL::TypeExtension(_) => true,
            _ => false,
        }
    }
}

/// Mathematical value of an `Entity`: every text as a sequence of characters.
pub ghost struct EntityView {
    pub dependencies: Seq<Seq<char>>,
    pub graphql: GraphQL,
    pub id: Seq<char>,
    pub name: Seq<char>,
    pub path: Seq<char>,
    pub raw: Seq<char>,
}

/// The character sequences of a list of strings, in order.
pub open spec fn names_of(v: Seq<String>) -> Seq<Seq<char>> {
    v.map_values(|s: String| s@)
}

/// Copies a list of names.
pub fn clone_names(v: &Vec<String>) -> (r: Vec<String>)
    ensures
        names_of(r@) == names_of(v@),
{
    let mut out: Vec<String> = Vec::new();
    let mut i: usize = 0;
    while i < v.len()
        invariant
            i <= v.len(),
            out.len() == i,
            forall|k: int| 0 <= k < i ==> out[k]@ == #[trigger] v[k]@,
        decreases v.len() - i,
    {
        out.push(v[i].clone());
        i += 1;
    }
    assert(names_of(out@) =~= names_of(v@));
    out
}

/// Represents a GraphQL entity: one parsed declaration.
#[derive(Debug)]
pub struct Entity {
    /// Dependencies of an entity, in extraction order, duplicates kept.
    pub dependencies: Vec<String>,
    /// GraphQL type of the entity.
    pub graphql: GraphQL,
    /// Id of the entity.
    pub id: String,
    /// Name of the entity.
    pub name: String,
    /// Path of the file that declares the entity.
    pub path: String,
    /// Raw representation of the entity.
    pub raw: String,
}

impl View for Entity {
    type V = EntityView;

    open spec fn view(&self) -> EntityView {
        EntityView {
            dependencies: names_of(self.dependencies@),
            graphql: self.graphql,
            id: self.id@,
            name: self.name@,
            path: self.path@,
            raw: self.raw@,
        }
    }
}

impl Entity {
    /// Method to create a new Entity. Without a custom id the name is the id.
    pub fn new(
        dependencies: Vec<String>,
        graphql: GraphQL,
        id: Option<String>,
        name: String,
        path: String,
        raw: String,
    ) -> (r: Self)
        ensures
            r@ == (EntityView {
                dependencies: names_of(dependencies@),
                graphql,
                id: match id {
                    Some(custom) => custom@,
                    None => name@,
                },
                name: name@,
                path: path@,
                raw: raw@,
            }),
    {
        let id = match id {
            Some(id) => id,
            None => name.clone(),
        };
        Entity { dependencies, graphql, id, name, path, raw }
    }
}

impl Clone for Entity {
    fn clone(&self) -> (r: Self)
        ensures
            r@ == self@,
    {
        Entity {
            dependencies: clone_names(&self.dependencies),
            graphql: self.graphql,
            id: self.id.clone(),
            name: self.name.clone(),
            path: self.path.clone(),
            raw: self.raw.clone(),
        }
    }
}

/// Mathematical value of a `Node`.
pub ghost struct NodeView {
    pub id: Seq<char>,
    pub entity: EntityView,
}

/// A Node containing an Entity and a unique id.
#[derive(Debug)]
pub struct Node {
    /// Node's entity.
    pub entity: Entity,
    /// Graph key of the node; the entity's id.
    pub id: String,
}

impl View for Node {
    type V = NodeView;

    open spec fn view(&self) -> NodeView {
        NodeView { id: self.id@, entity: self.entity@ }
    }
}

impl Node {
    /// Method to create a new Node.
    pub fn new(entity: Entity, id: String) -> (r: Self)
        ensures
            r.entity == entity,
            r.id == id,
    {
        Node { entity, id }
    }
}

/// The character sequences of each list of names.
pub open spec fn dependency_lists(lists: Seq<Vec<String>>) -> Seq<Seq<Seq<char>>> {
    lists.map_values(|v: Vec<String>| names_of(v@))
}

/// What a build produces: the graph and the two indices by node.
#[derive(Debug)]
pub struct Data {
    /// For each node, by node index, the names it refers to.
    pub dependencies: Vec<Vec<String>>,
    /// The dependency graph.
    pub graph: DependencyGraph,
    /// For each node, by node index, the names it refers to that no node
    /// defines and that are no built-in scalars; empty where there is none.
    pub missing_definitions: Vec<Vec<String>>,
}

/// Global state.
#[derive(Debug)]
pub struct State {
    /// Shared part of the state.
    pub shared: Data,
}

impl State {
    /// Method to create a new State: an empty graph and empty indices.
    pub fn new() -> (r: Self)
        ensures
            r.shared.dependencies@.len() == 0,
            r.shared.missing_definitions@.len() == 0,
            graph_nodes(r.shared.graph).len() == 0,
            graph_edges(r.shared.graph).len() == 0,
    {
        State {
            shared: Data {
                dependencies: Vec::new(),
                graph: new_graph(),
                missing_definitions: Vec::new(),
            },
        }
    }
}

impl Default for State {
    fn default() -> (r: Self)
        ensures
            r.shared.dependencies@.len() == 0,
            r.shared.missing_definitions@.len() == 0,
            graph_nodes(r.shared.graph).len() == 0,
            graph_edges(r.shared.graph).len() == 0,
    {
        State::new()
    }
}

} // verus!
