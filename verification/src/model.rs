//! What a build is, stated over the values of the nodes.

use vstd::prelude::*;
use crate::extend_types::{node_id, ExtendType};
use crate::graph::{capacity, graph_edges, graph_nodes, node_views};
use crate::schema::{Definition, Document};
use crate::state::{dependency_lists, Data, EntityView, GraphQL, NodeView};

verus! {

/// The entity that a declaration found in the file at `path` becomes.
pub open spec fn declared_entity<T: ExtendType>(declaration: &T, path: Seq<char>) -> EntityView {
    EntityView {
        dependencies: declaration.dependency_names(),
        graphql: declaration.kind(),
        id: node_id(declaration.kind(), declaration.display_name()),
        name: declaration.display_name(),
        path,
        raw: declaration.raw_text(),
    }
}

/// The node that carries `entity`, keyed by the entity's id.
pub open spec fn node_of(entity: EntityView) -> NodeView {
    NodeView { id: entity.id, entity }
}

impl Definition {
    /// The declaration's kind.
    pub open spec fn kind(&self) -> GraphQL {
        match self {
            Definition::SchemaDefinition(d) => d.kind(),
            Definition::TypeDefinition(d) => d.kind(),
            Definition::TypeExtension(d) => d.kind(),
            Definition::DirectiveDefinition(d) => d.kind(),
        }
    }

    /// The entity that the declaration becomes.
    pub open spec fn entity(&self, path: Seq<char>) -> EntityView {
        match self {
            Definition::SchemaDefinition(d) => declared_entity(d, path),
            Definition::TypeDefinition(d) => declared_entity(d, path),
            Definition::TypeExtension(d) => declared_entity(d, path),
            Definition::DirectiveDefinition(d) => declared_entity(d, path),
        }
    }
}

/// Whether the filter lets a declaration of `kind` in: an empty filter lets
/// every kind in, another one the kinds it lists.
pub open spec fn selected(filter: Seq<GraphQL>, kind: GraphQL) -> bool {
    filter.len() == 0 || filter.contains(kind)
}

/// The nodes of one file's declarations, in source order.
pub open spec fn document_nodes(
    definitions: Seq<Definition>,
    path: Seq<char>,
    filter: Seq<GraphQL>,
) -> Seq<NodeView>
    decreases definitions.len(),
{
    if definitions.len() == 0 {
        Seq::empty()
    } else {
        let rest = document_nodes(definitions.drop_last(), path, filter);
        let last = definitions.last();
        if selected(filter, last.kind()) {
            rest.push(node_of(last.entity(path)))
        } else {
            rest
        }
    }
}

/// The nodes of all files, file after file.
pub open spec fn corpus_nodes(files: Seq<Document>, filter: Seq<GraphQL>) -> Seq<NodeView>
    decreases files.len(),
{
    if files.len() == 0 {
        Seq::empty()
    } else {
        corpus_nodes(files.drop_last(), filter) + document_nodes(
            files.last().definitions@,
            files.last().path@,
            filter,
        )
    }
}

/// Sum of the numbers.
pub open spec fn sum(s: Seq<nat>) -> nat
    decreases s.len(),
{
    if s.len() == 0 {
        0
    } else {
        sum(s.drop_last()) + s.last()
    }
}

/// Number of declarations in all files, whatever their kind.
pub open spec fn declaration_count(files: Seq<Document>) -> nat {
    sum(files.map_values(|f: Document| f.definitions@.len()))
}

/// Each node's list of dependency names.
pub open spec fn dependencies_of(nodes: Seq<NodeView>) -> Seq<Seq<Seq<char>>> {
    nodes.map_values(|n: NodeView| n.entity.dependencies)
}

/// Whether `t` is the first node whose id is `name`: the node that `name` resolves to.
pub open spec fn first_match(nodes: Seq<NodeView>, name: Seq<char>, t: int) -> bool {
    &&& 0 <= t < nodes.len()
    &&& nodes[t].id == name
    &&& forall|u: int| 0 <= u < t ==> (#[trigger] nodes[u]).id != name
}

/// Whether some node's id is `name`.
pub open spec fn resolves(nodes: Seq<NodeView>, name: Seq<char>) -> bool {
    exists|t: int| 0 <= t < nodes.len() && (#[trigger] nodes[t]).id == name
}

/// The node that `name` resolves to, if any.
pub open spec fn lookup(nodes: Seq<NodeView>, name: Seq<char>) -> Option<int> {
    if exists|t: int| first_match(nodes, name, t) {
        Some(choose|t: int| first_match(nodes, name, t))
    } else {
        None
    }
}

/// One of the five scalars that GraphQL predefines.
pub open spec fn is_builtin_scalar(name: Seq<char>) -> bool {
    name == "Boolean"@ || name == "Float"@ || name == "ID"@ || name == "Int"@ || name
        == "String"@
}

/// The edge between node `p` and the node `target` that one of its
/// dependencies resolves to: from an extension to what it names, and from
/// what is named to any other node that names it.
pub open spec fn edge_for(nodes: Seq<NodeView>, p: int, target: int) -> (usize, usize) {
    if nodes[p].entity.graphql.is_extension() {
        (p as usize, target as usize)
    } else {
        (target as usize, p as usize)
    }
}

/// Whether the dependency at position `q` of node `p` resolves and gives the edge `e`.
pub open spec fn gives_edge(nodes: Seq<NodeView>, p: int, q: int, e: (usize, usize)) -> bool {
    &&& 0 <= p < nodes.len()
    &&& 0 <= q < nodes[p].entity.dependencies.len()
    &&& exists|t: int| #[trigger]
        first_match(nodes, nodes[p].entity.dependencies[q], t) && e == edge_for(nodes, p, t)
}

/// Whether some dependency of some node gives the edge `e`.
pub open spec fn is_dependency_edge(nodes: Seq<NodeView>, e: (usize, usize)) -> bool {
    exists|p: int, q: int| gives_edge(nodes, p, q, e)
}

/// The edges with `e` added behind them, unless it is among them already.
pub open spec fn with_edge(edges: Seq<(usize, usize)>, e: (usize, usize)) -> Seq<(usize, usize)> {
    if edges.contains(e) {
        edges
    } else {
        edges.push(e)
    }
}

/// The edges once the first `count` dependencies of node `p` have been
/// resolved, one after the other, starting from `edges`.
pub open spec fn edges_after(
    nodes: Seq<NodeView>,
    edges: Seq<(usize, usize)>,
    p: int,
    count: nat,
) -> Seq<(usize, usize)>
    decreases count,
{
    if count == 0 {
        edges
    } else {
        let before = edges_after(nodes, edges, p, (count - 1) as nat);
        match lookup(nodes, nodes[p].entity.dependencies[count - 1]) {
            Some(target) => with_edge(before, edge_for(nodes, p, target)),
            None => before,
        }
    }
}

/// The edges once the dependencies of the first `count` nodes have been resolved.
pub open spec fn edges_of_first(nodes: Seq<NodeView>, count: nat) -> Seq<(usize, usize)>
    decreases count,
{
    if count == 0 {
        Seq::empty()
    } else {
        edges_after(
            nodes,
            edges_of_first(nodes, (count - 1) as nat),
            count - 1,
            nodes[count - 1].entity.dependencies.len(),
        )
    }
}

/// The edges of the graph, in the order of their addition: node after node,
/// dependency after dependency, each edge once.
pub open spec fn dependency_edges(nodes: Seq<NodeView>) -> Seq<(usize, usize)> {
    edges_of_first(nodes, nodes.len())
}

/// Whether `name` is reported as missing: no node has it as id and it is no built-in scalar.
pub open spec fn is_missing(nodes: Seq<NodeView>, name: Seq<char>) -> bool {
    !resolves(nodes, name) && !is_builtin_scalar(name)
}

/// The names among `dependencies` that are missing, in order, duplicates kept.
pub open spec fn missing_names(nodes: Seq<NodeView>, dependencies: Seq<Seq<char>>) -> Seq<
    Seq<char>,
>
    decreases dependencies.len(),
{
    if dependencies.len() == 0 {
        Seq::empty()
    } else {
        let rest = missing_names(nodes, dependencies.drop_last());
        if is_missing(nodes, dependencies.last()) {
            rest.push(dependencies.last())
        } else {
            rest
        }
    }
}

/// Each node's list of missing names.
pub open spec fn missing_of(nodes: Seq<NodeView>) -> Seq<Seq<Seq<char>>> {
    nodes.map_values(|n: NodeView| missing_names(nodes, n.entity.dependencies))
}

/// Whether `data` is the result of building `files` under `filter`: the
/// nodes are the selected declarations in order, the edges are those that
/// the nodes' dependencies give, in the order of the dependencies, which is
/// to say exactly those that some dependency gives, each once, and the two
/// indices hold each node's dependencies and missing names.
pub open spec fn is_build_of(data: Data, files: Seq<Document>, filter: Seq<GraphQL>) -> bool {
    let nodes = corpus_nodes(files, filter);
    &&& node_views(graph_nodes(data.graph)) == nodes
    &&& nodes.len() <= capacity()
    &&& graph_edges(data.graph) == dependency_edges(nodes)
    &&& graph_edges(data.graph).no_duplicates()
    &&& forall|e: (usize, usize)| #[trigger]
        graph_edges(data.graph).contains(e) <==> is_dependency_edge(nodes, e)
    &&& dependency_lists(data.dependencies@) == dependencies_of(nodes)
    &&& dependency_lists(data.missing_definitions@) == missing_of(nodes)
}

/// Whether the graph can index the nodes and the edges that the corpus gives.
pub open spec fn fits(files: Seq<Document>, filter: Seq<GraphQL>) -> bool {
    corpus_nodes(files, filter).len() <= capacity() && dependency_edges(
        corpus_nodes(files, filter),
    ).len() <= capacity()
}

/// A name resolves to at most one node, and to one exactly when some node has it as id.
pub proof fn lemma_first_match(nodes: Seq<NodeView>, name: Seq<char>)
    ensures
        forall|t: int, u: int|
            first_match(nodes, name, t) && first_match(nodes, name, u) ==> t == u,
        resolves(nodes, name) <==> exists|t: int| first_match(nodes, name, t),
        resolves(nodes, name) <==> lookup(nodes, name) is Some,
        lookup(nodes, name) is Some ==> first_match(nodes, name, lookup(nodes, name)->0),
{
    if resolves(nodes, name) {
        let t = choose|t: int| 0 <= t < nodes.len() && (#[trigger] nodes[t]).id == name;
        lemma_least_match(nodes, name, t);
    }
    if exists|t: int| first_match(nodes, name, t) {
        let t = choose|t: int| first_match(nodes, name, t);
        assert(nodes[t].id == name);
    }
}

/// Below any node with the id there is a first one.
proof fn lemma_least_match(nodes: Seq<NodeView>, name: Seq<char>, t: int)
    requires
        0 <= t < nodes.len(),
        nodes[t].id == name,
    ensures
        exists|u: int| first_match(nodes, name, u),
    decreases t,
{
    if exists|u: int| 0 <= u < t && (#[trigger] nodes[u]).id == name {
        let u = choose|u: int| 0 <= u < t && (#[trigger] nodes[u]).id == name;
        lemma_least_match(nodes, name, u);
    } else {
        assert(first_match(nodes, name, t));
    }
}

} // verus!
