//! Building the graph and answering queries about it.

use vstd::prelude::*;
use crate::extend_types::ExtendType;
use crate::graph::{
    add_node, capacity, contains_edge, edge_count, externals, externals_below, graph_edges,
    graph_nodes, has_edge, lemma_externals_below, neighbors, neighbors_directed, new_graph,
    node_count, node_views, node_weight, update_edge, DependencyGraph, Direction, CAPACITY,
};
use crate::model::{
    corpus_nodes, declared_entity, dependencies_of, dependency_edges, document_nodes, edge_for,
    edges_after, edges_of_first, first_match, fits, gives_edge, is_build_of, is_builtin_scalar,
    is_dependency_edge, lemma_first_match, lookup, missing_names, missing_of, node_of, resolves,
    selected,
};
use crate::schema::{Definition, Document};
use crate::state::{
    clone_names, dependency_lists, names_of, Data, Entity, EntityView, GraphQL, GraphQLType, Node,
    NodeView,
};

verus! {

/// Why a corpus cannot be built into a graph.
#[derive(Debug, Copy, Clone, PartialEq, Eq, Structural)]
pub enum BuildError {
    /// The declarations give more nodes than the graph can index.
    TooManyNodes,
    /// The dependencies give more edges than the graph can index.
    TooManyEdges,
}

/// Whether the filter lists `kind`.
fn filter_contains(filter: &Vec<GraphQL>, kind: GraphQL) -> (r: bool)
    ensures
        r == filter@.contains(kind),
{
    let mut i: usize = 0;
    while i < filter.len()
        invariant
            i <= filter.len(),
            forall|k: int| 0 <= k < i ==> filter@[k] != kind,
        decreases filter.len() - i,
    {
        if filter[i] == kind {
            return true;
        }
        i += 1;
    }
    false
}

/// Whether the filter lets a declaration of `kind` in.
pub fn is_selected(filter: &Vec<GraphQL>, kind: GraphQL) -> (r: bool)
    ensures
        r == selected(filter@, kind),
{
    filter.len() == 0 || filter_contains(filter, kind)
}

/// Check if a file extension is allowed: whether the list holds it.
pub fn is_extension_allowed(extension: &str, allowed: &Vec<String>) -> (r: bool)
    ensures
        r == names_of(allowed@).contains(extension@),
{
    let wanted = extension.to_owned();
    let mut i: usize = 0;
    while i < allowed.len()
        invariant
            i <= allowed.len(),
            wanted@ == extension@,
            forall|k: int| 0 <= k < i ==> names_of(allowed@)[k] != extension@,
        decreases allowed.len() - i,
    {
        if allowed[i] == wanted {
            assert(names_of(allowed@)[i as int] == extension@);
            return true;
        }
        i += 1;
    }
    false
}

/// Whether `name` is one of the built-in scalars.
pub fn is_builtin(name: &String) -> (r: bool)
    ensures
        r == is_builtin_scalar(name@),
{
    *name == String::from_str("Boolean") || *name == String::from_str("Float") || *name
        == String::from_str("ID") || *name == String::from_str("Int") || *name
        == String::from_str("String")
}

/// Index of the first node whose id is `id`.
fn find_index(graph: &DependencyGraph, id: &String) -> (r: Option<usize>)
    ensures
        r is Some <==> resolves(node_views(graph_nodes(*graph)), id@),
        r is Some ==> first_match(node_views(graph_nodes(*graph)), id@, r->0 as int),
        r is Some ==> r->0 < capacity(),
{
    let n = node_count(graph);
    let mut i: usize = 0;
    while i < n
        invariant
            i <= n,
            n == graph_nodes(*graph).len(),
            n <= capacity(),
            forall|u: int| 0 <= u < i ==> (#[trigger] node_views(graph_nodes(*graph))[u]).id != id@,
        decreases n - i,
    {
        if let Some(node) = node_weight(graph, i) {
            if node.id == *id {
                assert(node_views(graph_nodes(*graph))[i as int].id == id@);
                return Some(i);
            }
        }
        i += 1;
    }
    None
}

/// Adds the declaration as a node, with its dependency list, unless the
/// filter leaves its kind out. A graph that is full takes no node.
pub fn add_node_and_dependencies<T: ExtendType>(
    entity: &T,
    filter: &Vec<GraphQL>,
    graph: &mut DependencyGraph,
    dependencies: &mut Vec<Vec<String>>,
    path: &String,
) -> (r: Result<(), BuildError>)
    ensures
        graph_edges(*final(graph)) == graph_edges(*old(graph)),
        r is Err <==> selected(filter@, entity.kind()) && graph_nodes(*old(graph)).len()
            >= capacity(),
        r is Err ==> r == Err::<(), BuildError>(BuildError::TooManyNodes),
        r is Ok && selected(filter@, entity.kind()) ==> {
            &&& node_views(graph_nodes(*final(graph))) == node_views(
                graph_nodes(*old(graph)),
            ).push(node_of(declared_entity(entity, path@)))
            &&& dependency_lists(final(dependencies)@) == dependency_lists(
                old(dependencies)@,
            ).push(entity.dependency_names())
        },
        !selected(filter@, entity.kind()) ==> {
            &&& graph_nodes(*final(graph)) == graph_nodes(*old(graph))
            &&& final(dependencies)@ == old(dependencies)@
        },
{
    // If a filter is provided and the mapped type of the entity is not part of
    // this filter, skip it.
    if !is_selected(filter, entity.get_mapped_type()) {
        return Ok(());
    }
    if node_count(graph) >= CAPACITY {
        return Err(BuildError::TooManyNodes);
    }
    let entity_dependencies = entity.get_dependencies();
    let (id, name) = entity.get_id_and_name();
    let new_entity = Entity::new(
        clone_names(&entity_dependencies),
        entity.get_mapped_type(),
        id,
        name,
        path.clone(),
        entity.get_raw(),
    );
    let node_id = new_entity.id.clone();
    let ghost node = node_of(declared_entity(entity, path@));
    assert(new_entity@ == node.entity);
    add_node(graph, Node::new(new_entity, node_id));
    assert(node_views(graph_nodes(*graph)) =~= node_views(graph_nodes(*old(graph))).push(node));

    // Update dependencies.
    dependencies.push(entity_dependencies);
    assert(dependency_lists(dependencies@) =~= dependency_lists(old(dependencies)@).push(
        entity.dependency_names(),
    ));
    Ok(())
}

/// The nodes of the declarations before position `d` of file `f` are among
/// the nodes of the corpus.
proof fn lemma_nodes_so_far(files: Seq<Document>, filter: Seq<GraphQL>, f: int, d: int)
    requires
        0 <= f < files.len(),
        0 <= d <= files[f].definitions@.len(),
    ensures
        corpus_nodes(files.take(f), filter).len() + document_nodes(
            files[f].definitions@.take(d),
            files[f].path@,
            filter,
        ).len() <= corpus_nodes(files, filter).len(),
{
    lemma_document_prefix(files[f].definitions@, files[f].path@, filter, d);
    lemma_corpus_prefix(files, filter, f + 1);
    assert(files.take(f + 1).drop_last() =~= files.take(f));
}

/// The first declarations of a file give no more nodes than all of them.
proof fn lemma_document_prefix(
    definitions: Seq<Definition>,
    path: Seq<char>,
    filter: Seq<GraphQL>,
    d: int,
)
    requires
        0 <= d <= definitions.len(),
    ensures
        document_nodes(definitions.take(d), path, filter).len() <= document_nodes(
            definitions,
            path,
            filter,
        ).len(),
    decreases definitions.len() - d,
{
    if d < definitions.len() {
        assert(definitions.take(d + 1).drop_last() =~= definitions.take(d));
        lemma_document_prefix(definitions, path, filter, d + 1);
    } else {
        assert(definitions.take(d) =~= definitions);
    }
}

/// The first files of a corpus give no more nodes than all of them.
proof fn lemma_corpus_prefix(files: Seq<Document>, filter: Seq<GraphQL>, f: int)
    requires
        0 <= f <= files.len(),
    ensures
        corpus_nodes(files.take(f), filter).len() <= corpus_nodes(files, filter).len(),
    decreases files.len() - f,
{
    if f < files.len() {
        assert(files.take(f + 1).drop_last() =~= files.take(f));
        lemma_corpus_prefix(files, filter, f + 1);
    } else {
        assert(files.take(f) =~= files);
    }
}

/// First phase: a node for every selected declaration, file after file.
fn populate_nodes(
    files: &Vec<Document>,
    filter: &Vec<GraphQL>,
    graph: &mut DependencyGraph,
    dependencies: &mut Vec<Vec<String>>,
) -> (r: Result<(), BuildError>)
    requires
        graph_nodes(*old(graph)).len() == 0,
        old(dependencies)@.len() == 0,
    ensures
        r is Ok <==> corpus_nodes(files@, filter@).len() <= capacity(),
        r is Err ==> r == Err::<(), BuildError>(BuildError::TooManyNodes),
        r is Ok ==> {
            &&& node_views(graph_nodes(*final(graph))) == corpus_nodes(files@, filter@)
            &&& graph_edges(*final(graph)) == graph_edges(*old(graph))
            &&& dependency_lists(final(dependencies)@) == dependencies_of(
                corpus_nodes(files@, filter@),
            )
        },
{
    let mut f: usize = 0;
    assert(files@.take(0) =~= Seq::<Document>::empty());
    assert(node_views(graph_nodes(*graph)) =~= corpus_nodes(files@.take(0), filter@));
    assert(dependency_lists(dependencies@) =~= dependencies_of(node_views(graph_nodes(*graph))));
    while f < files.len()
        invariant
            f <= files.len(),
            node_views(graph_nodes(*graph)) == corpus_nodes(files@.take(f as int), filter@),
            graph_nodes(*graph).len() <= capacity(),
            graph_edges(*graph) == graph_edges(*old(graph)),
            dependency_lists(dependencies@) == dependencies_of(node_views(graph_nodes(*graph))),
        decreases files.len() - f,
    {
        let file = &files[f];
        let ghost before = corpus_nodes(files@.take(f as int), filter@);
        let mut d: usize = 0;
        proof {
            assert(file.definitions@.take(0) =~= Seq::<Definition>::empty());
            assert(node_views(graph_nodes(*graph)) =~= before + document_nodes(
                file.definitions@.take(0),
                file.path@,
                filter@,
            ));
        }
        while d < file.definitions.len()
            invariant
                d <= file.definitions.len(),
                f < files.len(),
                file == &files[f as int],
                before == corpus_nodes(files@.take(f as int), filter@),
                node_views(graph_nodes(*graph)) == before + document_nodes(
                    file.definitions@.take(d as int),
                    file.path@,
                    filter@,
                ),
                graph_nodes(*graph).len() <= capacity(),
                graph_edges(*graph) == graph_edges(*old(graph)),
                dependency_lists(dependencies@) == dependencies_of(
                    node_views(graph_nodes(*graph)),
                ),
            decreases file.definitions.len() - d,
        {
            let ghost nodes_before = node_views(graph_nodes(*graph));
            let ghost here = document_nodes(file.definitions@.take(d as int), file.path@, filter@);
            assert(file.definitions@.take(d + 1).drop_last() =~= file.definitions@.take(d as int));
            let added = match &file.definitions[d] {
                Definition::TypeDefinition(type_definition) => {
                    add_node_and_dependencies(
                        type_definition,
                        filter,
                        graph,
                        dependencies,
                        &file.path,
                    )
                },
                Definition::TypeExtension(type_extension) => {
                    add_node_and_dependencies(
                        type_extension,
                        filter,
                        graph,
                        dependencies,
                        &file.path,
                    )
                },
                Definition::SchemaDefinition(schema_definition) => {
                    add_node_and_dependencies(
                        schema_definition,
                        filter,
                        graph,
                        dependencies,
                        &file.path,
                    )
                },
                Definition::DirectiveDefinition(directive_definition) => {
                    add_node_and_dependencies(
                        directive_definition,
                        filter,
                        graph,
                        dependencies,
                        &file.path,
                    )
                },
            };
            proof {
                let definition = file.definitions@[d as int];
                let after = document_nodes(file.definitions@.take(d + 1), file.path@, filter@);
                if selected(filter@, definition.kind()) {
                    let node = node_of(definition.entity(file.path@));
                    assert(after == here.push(node));
                    if added is Ok {
                        assert(node_views(graph_nodes(*graph)) == nodes_before.push(node));
                        assert(nodes_before.push(node) =~= before + after);
                        assert(dependency_lists(dependencies@) =~= dependencies_of(
                            node_views(graph_nodes(*graph)),
                        ));
                    } else {
                        lemma_nodes_so_far(files@, filter@, f as int, d + 1);
                    }
                } else {
                    assert(after == here);
                }
            }
            if added.is_err() {
                return added;
            }
            d += 1;
        }
        proof {
            assert(file.definitions@.take(d as int) =~= file.definitions@);
            assert(files@.take(f + 1).drop_last() =~= files@.take(f as int));
        }
        f += 1;
    }
    assert(files@.take(f as int) =~= files@);
    Ok(())
}

/// Whether the dependency at `(p, q)` comes before position `j` of node `i`.
pub open spec fn gives_edge_before(
    nodes: Seq<NodeView>,
    p: int,
    q: int,
    e: (usize, usize),
    i: int,
    j: int,
) -> bool {
    (p < i || (p == i && q < j)) && gives_edge(nodes, p, q, e)
}

/// Whether some dependency before position `j` of node `i` gives the edge `e`.
pub open spec fn is_edge_before(nodes: Seq<NodeView>, e: (usize, usize), i: int, j: int) -> bool {
    exists|p: int, q: int| gives_edge_before(nodes, p, q, e, i, j)
}

proof fn lemma_edge_step(nodes: Seq<NodeView>, i: int, j: int, e: (usize, usize))
    requires
        0 <= i < nodes.len(),
        0 <= j < nodes[i].entity.dependencies.len(),
    ensures
        is_edge_before(nodes, e, i, j + 1) <==> (is_edge_before(nodes, e, i, j) || gives_edge(
            nodes,
            i,
            j,
            e,
        )),
{
    let next = j + 1;
    if is_edge_before(nodes, e, i, next) {
        let (p, q) = choose|p: int, q: int| gives_edge_before(nodes, p, q, e, i, next);
        if !(p == i && q == j) {
            assert(gives_edge_before(nodes, p, q, e, i, j));
        }
    }
    if is_edge_before(nodes, e, i, j) {
        let (p, q) = choose|p: int, q: int| gives_edge_before(nodes, p, q, e, i, j);
        assert(gives_edge_before(nodes, p, q, e, i, next));
    }
    if gives_edge(nodes, i, j, e) {
        assert(gives_edge_before(nodes, i, j, e, i, next));
    }
}

proof fn lemma_edge_next_node(nodes: Seq<NodeView>, i: int, e: (usize, usize))
    requires
        0 <= i < nodes.len(),
    ensures
        is_edge_before(nodes, e, i + 1, 0) <==> is_edge_before(
            nodes,
            e,
            i,
            nodes[i].entity.dependencies.len() as int,
        ),
{
    let m = nodes[i].entity.dependencies.len() as int;
    let next = i + 1;
    if is_edge_before(nodes, e, next, 0) {
        let (p, q) = choose|p: int, q: int| gives_edge_before(nodes, p, q, e, next, 0);
        assert(gives_edge_before(nodes, p, q, e, i, m));
    }
    if is_edge_before(nodes, e, i, m) {
        let (p, q) = choose|p: int, q: int| gives_edge_before(nodes, p, q, e, i, m);
        assert(gives_edge_before(nodes, p, q, e, next, 0));
    }
}

proof fn lemma_edge_all(nodes: Seq<NodeView>, e: (usize, usize))
    ensures
        is_edge_before(nodes, e, nodes.len() as int, 0) <==> is_dependency_edge(nodes, e),
        !is_edge_before(nodes, e, 0, 0),
{
    let n = nodes.len() as int;
    if is_edge_before(nodes, e, n, 0) {
        let (p, q) = choose|p: int, q: int| gives_edge_before(nodes, p, q, e, n, 0);
        assert(gives_edge(nodes, p, q, e));
    }
    if is_dependency_edge(nodes, e) {
        let (p, q) = choose|p: int, q: int| gives_edge(nodes, p, q, e);
        assert(gives_edge_before(nodes, p, q, e, n, 0));
    }
    if is_edge_before(nodes, e, 0, 0) {
        let (p, q) = choose|p: int, q: int| gives_edge_before(nodes, p, q, e, 0, 0);
        assert(false);
    }
}

/// Resolving more dependencies of a node never takes an edge away.
proof fn lemma_edges_after_grow(
    nodes: Seq<NodeView>,
    edges: Seq<(usize, usize)>,
    p: int,
    fewer: nat,
    more: nat,
)
    requires
        fewer <= more,
    ensures
        edges_after(nodes, edges, p, fewer).len() <= edges_after(nodes, edges, p, more).len(),
    decreases more,
{
    if fewer < more {
        lemma_edges_after_grow(nodes, edges, p, fewer, (more - 1) as nat);
    }
}

/// Resolving the dependencies of more nodes never takes an edge away.
proof fn lemma_edges_of_first_grow(nodes: Seq<NodeView>, fewer: nat, more: nat)
    requires
        fewer <= more,
    ensures
        edges_of_first(nodes, fewer).len() <= edges_of_first(nodes, more).len(),
    decreases more,
{
    if fewer < more {
        lemma_edges_of_first_grow(nodes, fewer, (more - 1) as nat);
        lemma_edges_after_grow(
            nodes,
            edges_of_first(nodes, (more - 1) as nat),
            more - 1,
            0,
            nodes[more - 1].entity.dependencies.len(),
        );
    }
}

/// The edges at any moment of the second phase are no more than in the end.
proof fn lemma_edges_so_far(nodes: Seq<NodeView>, i: nat, j: nat)
    requires
        i < nodes.len(),
        j <= nodes[i as int].entity.dependencies.len(),
    ensures
        edges_after(nodes, edges_of_first(nodes, i), i as int, j).len() <= dependency_edges(
            nodes,
        ).len(),
{
    lemma_edges_after_grow(
        nodes,
        edges_of_first(nodes, i),
        i as int,
        j,
        nodes[i as int].entity.dependencies.len(),
    );
    lemma_edges_of_first_grow(nodes, i + 1, nodes.len());
}

/// Second phase: an edge for every dependency that resolves, and for every
/// node the list of its names that are missing. A graph that is full takes
/// no edge that it does not have yet.
fn populate_edges(graph: &mut DependencyGraph, dependencies: &Vec<Vec<String>>) -> (r: Result<
    Vec<Vec<String>>,
    BuildError,
>)
    requires
        dependency_lists(dependencies@) == dependencies_of(node_views(graph_nodes(*old(graph)))),
        graph_edges(*old(graph)).len() == 0,
    ensures
        r is Ok <==> dependency_edges(node_views(graph_nodes(*old(graph)))).len() <= capacity(),
        r is Err ==> r == Err::<Vec<Vec<String>>, BuildError>(BuildError::TooManyEdges),
        r is Ok ==> {
            &&& graph_nodes(*final(graph)) == graph_nodes(*old(graph))
            &&& graph_nodes(*final(graph)).len() <= capacity()
            &&& graph_edges(*final(graph)) == dependency_edges(
                node_views(graph_nodes(*old(graph))),
            )
            &&& graph_edges(*final(graph)).no_duplicates()
            &&& forall|e: (usize, usize)| #[trigger]
                graph_edges(*final(graph)).contains(e) <==> is_dependency_edge(
                    node_views(graph_nodes(*old(graph))),
                    e,
                )
            &&& dependency_lists(r->Ok_0@) == missing_of(node_views(graph_nodes(*old(graph))))
        },
{
    let ghost nodes = node_views(graph_nodes(*graph));
    let n = node_count(graph);
    let mut missing: Vec<Vec<String>> = Vec::new();
    let mut i: usize = 0;
    proof {
        assert(dependency_lists(dependencies@).len() == nodes.len());
        assert forall|e: (usize, usize)| #[trigger]
            graph_edges(*graph).contains(e) <==> is_edge_before(nodes, e, 0, 0) by {
            lemma_edge_all(nodes, e);
        }
        assert(graph_edges(*graph) =~= edges_of_first(nodes, 0));
    }
    while i < n
        invariant
            i <= n,
            n == nodes.len(),
            n == dependencies@.len(),
            n <= capacity(),
            nodes == node_views(graph_nodes(*old(graph))),
            dependency_lists(dependencies@) == dependencies_of(nodes),
            graph_nodes(*graph) == graph_nodes(*old(graph)),
            graph_edges(*graph) == edges_of_first(nodes, i as nat),
            graph_edges(*graph).len() <= capacity(),
            graph_edges(*graph).no_duplicates(),
            forall|e: (usize, usize)| #[trigger]
                graph_edges(*graph).contains(e) <==> is_edge_before(nodes, e, i as int, 0),
            missing@.len() == i,
            forall|k: int|
                0 <= k < i ==> names_of((#[trigger] missing@[k])@) == missing_names(
                    nodes,
                    nodes[k].entity.dependencies,
                ),
        decreases n - i,
    {
        let inner_dependencies = &dependencies[i];
        let ghost names = nodes[i as int].entity.dependencies;
        let is_extension = match node_weight(graph, i) {
            Some(node) => node.entity.graphql.extends(),
            None => false,
        };
        let mut node_missing_definitions: Vec<String> = Vec::new();
        let mut j: usize = 0;
        proof {
            assert(dependency_lists(dependencies@)[i as int] == names);
            assert(names_of(inner_dependencies@) == names);
            assert(names.take(0) =~= Seq::<Seq<char>>::empty());
            assert(names_of(node_missing_definitions@) =~= missing_names(nodes, names.take(0)));
        }
        while j < inner_dependencies.len()
            invariant
                i < n,
                j <= inner_dependencies.len(),
                n == nodes.len(),
                n <= capacity(),
                nodes == node_views(graph_nodes(*old(graph))),
                names == nodes[i as int].entity.dependencies,
                names_of(inner_dependencies@) == names,
                is_extension == nodes[i as int].entity.graphql.is_extension(),
                graph_nodes(*graph) == graph_nodes(*old(graph)),
                graph_edges(*graph) == edges_after(
                    nodes,
                    edges_of_first(nodes, i as nat),
                    i as int,
                    j as nat,
                ),
                graph_edges(*graph).len() <= capacity(),
                graph_edges(*graph).no_duplicates(),
                forall|e: (usize, usize)| #[trigger]
                    graph_edges(*graph).contains(e) <==> is_edge_before(
                        nodes,
                        e,
                        i as int,
                        j as int,
                    ),
                names_of(node_missing_definitions@) == missing_names(nodes, names.take(j as int)),
            decreases inner_dependencies.len() - j,
        {
            let dependency = &inner_dependencies[j];
            let ghost edges_before = graph_edges(*graph);
            let ghost missing_before = names_of(node_missing_definitions@);
            proof {
                assert(names[j as int] == dependency@);
                assert(names.take(j + 1).drop_last() =~= names.take(j as int));
                lemma_first_match(nodes, dependency@);
            }
            match find_index(graph, dependency) {
                Some(index) => {
                    // Reverse edge for extension types.
                    let (from, to) = if is_extension {
                        (i, index)
                    } else {
                        (index, i)
                    };
                    assert((from, to) == edge_for(nodes, i as int, index as int));
                    if !contains_edge(graph, from, to) {
                        if edge_count(graph) >= CAPACITY {
                            proof {
                                lemma_edges_so_far(nodes, i as nat, (j + 1) as nat);
                            }
                            return Err(BuildError::TooManyEdges);
                        }
                        update_edge(graph, from, to);
                    }
                    proof {
                        let added = edge_for(nodes, i as int, index as int);
                        assert(gives_edge(nodes, i as int, j as int, added));
                        assert forall|e: (usize, usize)| #[trigger]
                            graph_edges(*graph).contains(e) <==> is_edge_before(
                                nodes,
                                e,
                                i as int,
                                j + 1,
                            ) by {
                            lemma_edge_step(nodes, i as int, j as int, e);
                            assert(gives_edge(nodes, i as int, j as int, e) <==> e == added);
                            if edges_before.contains(added) {
                            } else {
                                lemma_push_contains(edges_before, added, e);
                            }
                        }
                        if !edges_before.contains(added) {
                            lemma_push_no_duplicates(edges_before, added);
                        }
                    }
                },
                None => {
                    // Built-in scalars are skipped; any other name should
                    // have been resolved at this point.
                    if !is_builtin(dependency) {
                        node_missing_definitions.push(dependency.clone());
                        assert(names_of(node_missing_definitions@) =~= missing_before.push(
                            dependency@,
                        ));
                    }
                    proof {
                        assert forall|e: (usize, usize)| #[trigger]
                            graph_edges(*graph).contains(e) <==> is_edge_before(
                                nodes,
                                e,
                                i as int,
                                j + 1,
                            ) by {
                            lemma_edge_step(nodes, i as int, j as int, e);
                            assert(!gives_edge(nodes, i as int, j as int, e));
                        }
                    }
                },
            }
            j += 1;
        }
        proof {
            assert(names.take(j as int) =~= names);
            assert forall|e: (usize, usize)| #[trigger]
                graph_edges(*graph).contains(e) <==> is_edge_before(nodes, e, i + 1, 0) by {
                lemma_edge_next_node(nodes, i as int, e);
            }
        }
        missing.push(node_missing_definitions);
        i += 1;
    }
    proof {
        assert forall|e: (usize, usize)| #[trigger]
            graph_edges(*graph).contains(e) <==> is_dependency_edge(nodes, e) by {
            lemma_edge_all(nodes, e);
        }
        assert(dependency_lists(missing@) =~= missing_of(nodes));
    }
    Ok(missing)
}

/// A pushed element is the only new one.
proof fn lemma_push_contains(s: Seq<(usize, usize)>, x: (usize, usize), e: (usize, usize))
    ensures
        s.push(x).contains(e) <==> (s.contains(e) || e == x),
{
    if s.push(x).contains(e) {
        let k = choose|k: int| 0 <= k < s.push(x).len() && s.push(x)[k] == e;
        if k < s.len() {
            assert(s[k] == e);
        }
    }
    if s.contains(e) {
        let k = choose|k: int| 0 <= k < s.len() && s[k] == e;
        assert(s.push(x)[k] == e);
    }
    if e == x {
        assert(s.push(x)[s.len() as int] == e);
    }
}

/// Pushing an element that is not there keeps the sequence free of duplicates.
proof fn lemma_push_no_duplicates(s: Seq<(usize, usize)>, x: (usize, usize))
    requires
        s.no_duplicates(),
        !s.contains(x),
    ensures
        s.push(x).no_duplicates(),
{
    assert forall|a: int, b: int|
        0 <= a < s.push(x).len() && 0 <= b < s.push(x).len() && a != b implies s.push(x)[a]
        != s.push(x)[b] by {
        if a < s.len() && b < s.len() {
        } else if a < s.len() {
            assert(s[a] != x);
        } else {
            assert(s[b] != x);
        }
    }
}

/// Parse results in hand, walk the declarations to populate the graph:
/// first every node, then every edge, since a name may refer to a
/// declaration that comes later or in another file. The build fails, as a
/// whole, only where the graph cannot index that many nodes or edges.
pub fn populate_graph_from_ast(files: &Vec<Document>, filter: &Vec<GraphQL>) -> (r: Result<
    Data,
    BuildError,
>)
    ensures
        match r {
            Ok(data) => fits(files@, filter@) && is_build_of(data, files@, filter@),
            Err(BuildError::TooManyNodes) => corpus_nodes(files@, filter@).len() > capacity(),
            Err(BuildError::TooManyEdges) => corpus_nodes(files@, filter@).len() <= capacity()
                && dependency_edges(corpus_nodes(files@, filter@)).len() > capacity(),
        },
{
    let mut graph = new_graph();
    let mut dependencies: Vec<Vec<String>> = Vec::new();

    // Populate the nodes first.
    if populate_nodes(files, filter, &mut graph, &mut dependencies).is_err() {
        return Err(BuildError::TooManyNodes);
    }
    // Populate the edges.
    match populate_edges(&mut graph, &dependencies) {
        Ok(missing_definitions) => Ok(Data { dependencies, graph, missing_definitions }),
        Err(error) => Err(error),
    }
}

/// A query named a node that the graph does not hold.
#[derive(Debug)]
pub struct NodeNotFound {
    /// The id that was asked for.
    pub id: String,
}

/// The values of the entities, in order.
pub open spec fn entity_views(entities: Seq<Entity>) -> Seq<EntityView> {
    entities.map_values(|e: Entity| e@)
}

/// Find a node by id: the entity of the first node with exactly that id.
pub fn find_node(node: &str, graph: &DependencyGraph) -> (r: Result<Entity, NodeNotFound>)
    ensures
        match r {
            Ok(entity) => {
                let found = lookup(node_views(graph_nodes(*graph)), node@);
                found is Some && entity@ == node_views(graph_nodes(*graph))[found->0].entity
            },
            Err(error) => lookup(node_views(graph_nodes(*graph)), node@) is None && error.id@
                == node@,
        },
{
    let wanted = node.to_owned();
    proof {
        lemma_first_match(node_views(graph_nodes(*graph)), node@);
    }
    if let Some(index) = find_index(graph, &wanted) {
        if let Some(found) = node_weight(graph, index) {
            return Ok(found.entity.clone());
        }
    }
    Err(NodeNotFound { id: wanted })
}

/// The entities of the nodes across the edges of node `a` in `direction`,
/// one for each such edge, the edge added last first.
pub open spec fn neighbor_entities(
    nodes: Seq<NodeView>,
    edges: Seq<(usize, usize)>,
    a: usize,
    direction: Direction,
) -> Seq<EntityView> {
    neighbors(edges, a, direction).map_values(|index: usize| nodes[index as int].entity)
}

/// Find and return neighbors of a node: the entities across every edge that
/// touches the node in the given direction; none where no node has the id.
pub fn find_neighbors(node: &str, graph: &DependencyGraph, direction: Direction) -> (r: Vec<
    Entity,
>)
    ensures
        entity_views(r@) == match lookup(node_views(graph_nodes(*graph)), node@) {
            Some(a) => neighbor_entities(
                node_views(graph_nodes(*graph)),
                graph_edges(*graph),
                a as usize,
                direction,
            ),
            None => Seq::empty(),
        },
{
    let wanted = node.to_owned();
    let mut out: Vec<Entity> = Vec::new();
    proof {
        lemma_first_match(node_views(graph_nodes(*graph)), node@);
    }
    if let Some(index) = find_index(graph, &wanted) {
        let found = neighbors_directed(graph, index, direction);
        let n = node_count(graph);
        let mut k: usize = 0;
        while k < found.len()
            invariant
                k <= found.len(),
                n == graph_nodes(*graph).len(),
                n <= capacity(),
                forall|m: int| 0 <= m < found@.len() ==> #[trigger] found@[m] < n,
                out@.len() == k,
                forall|m: int|
                    0 <= m < k ==> (#[trigger] out@[m])@ == node_views(
                        graph_nodes(*graph),
                    )[found@[m] as int].entity,
            decreases found.len() - k,
        {
            assert(found@[k as int] < n);
            if let Some(neighbor) = node_weight(graph, found[k]) {
                out.push(neighbor.entity.clone());
            }
            k += 1;
        }
        assert(entity_views(out@) =~= neighbor_entities(
            node_views(graph_nodes(*graph)),
            graph_edges(*graph),
            index,
            direction,
        ));
    } else {
        assert(entity_views(out@) =~= Seq::<EntityView>::empty());
    }
    out
}

/// One of the three names that stand for a root operation type where no
/// schema block names another.
pub open spec fn is_root_operation(name: Seq<char>) -> bool {
    name == "Mutation"@ || name == "Query"@ || name == "Subscription"@
}

/// Whether a node without outgoing edges counts as an orphan. The schema
/// block never does; an object named like a root operation does only where
/// some node is a schema block.
pub open spec fn is_reported_orphan(node: NodeView, has_root_schema: bool) -> bool {
    match node.entity.graphql {
        GraphQL::Schema => false,
        GraphQL::TypeDefinition(GraphQLType::Object) => has_root_schema || !is_root_operation(
            node.entity.name,
        ),
        _ => true,
    }
}

/// Whether some node is a schema block, whatever the nodes are called.
pub open spec fn has_schema_node(nodes: Seq<NodeView>) -> bool {
    exists|t: int| 0 <= t < nodes.len() && (#[trigger] nodes[t]).entity.graphql == GraphQL::Schema
}

/// Those among `candidates` that are nodes and count as orphans, in order.
pub open spec fn reported_indices(
    nodes: Seq<NodeView>,
    candidates: Seq<usize>,
    has_root_schema: bool,
) -> Seq<usize>
    decreases candidates.len(),
{
    if candidates.len() == 0 {
        Seq::empty()
    } else {
        let rest = reported_indices(nodes, candidates.drop_last(), has_root_schema);
        let last = candidates.last();
        if last < nodes.len() && is_reported_orphan(nodes[last as int], has_root_schema) {
            rest.push(last)
        } else {
            rest
        }
    }
}

/// The nodes that are orphans: those without outgoing edges, in order of
/// index, but for the schema block and, where no node is a schema block, the
/// objects named like a root operation.
pub open spec fn orphan_indices(nodes: Seq<NodeView>, edges: Seq<(usize, usize)>) -> Seq<usize> {
    reported_indices(
        nodes,
        externals_below(edges, nodes.len(), Direction::Outgoing),
        has_schema_node(nodes),
    )
}

/// The entities of the nodes at `indices`, in order.
pub open spec fn entities_at(nodes: Seq<NodeView>, indices: Seq<usize>) -> Seq<EntityView> {
    indices.map_values(|index: usize| nodes[index as int].entity)
}

/// The orphans of a graph: the entities of its orphan nodes, in order of index.
pub open spec fn orphans(nodes: Seq<NodeView>, edges: Seq<(usize, usize)>) -> Seq<EntityView> {
    entities_at(nodes, orphan_indices(nodes, edges))
}

/// A candidate is reported exactly when it is a node that counts as an orphan.
pub proof fn lemma_reported_indices(
    nodes: Seq<NodeView>,
    candidates: Seq<usize>,
    has_root_schema: bool,
    i: usize,
)
    ensures
        reported_indices(nodes, candidates, has_root_schema).contains(i) <==> candidates.contains(
            i,
        ) && i < nodes.len() && is_reported_orphan(nodes[i as int], has_root_schema),
    decreases candidates.len(),
{
    if candidates.len() > 0 {
        let fewer = candidates.drop_last();
        let last = candidates.last();
        let rest = reported_indices(nodes, fewer, has_root_schema);
        let all = reported_indices(nodes, candidates, has_root_schema);
        lemma_reported_indices(nodes, fewer, has_root_schema, i);
        if candidates.contains(i) {
            let k = choose|k: int| 0 <= k < candidates.len() && candidates[k] == i;
            if k < fewer.len() {
                assert(fewer[k] == i);
            }
        }
        if fewer.contains(i) {
            let k = choose|k: int| 0 <= k < fewer.len() && fewer[k] == i;
            assert(candidates[k] == i);
        }
        assert(candidates[candidates.len() - 1] == last);
        if last < nodes.len() && is_reported_orphan(nodes[last as int], has_root_schema) {
            if all.contains(i) {
                let k = choose|k: int| 0 <= k < all.len() && all[k] == i;
                if k < rest.len() {
                    assert(rest[k] == i);
                }
            }
            if rest.contains(i) {
                let k = choose|k: int| 0 <= k < rest.len() && rest[k] == i;
                assert(all[k] == i);
            }
            assert(all[rest.len() as int] == last);
        }
    }
}

/// A node is among the orphans exactly when it has no outgoing edge and
/// counts as an orphan.
pub proof fn lemma_orphan_indices(nodes: Seq<NodeView>, edges: Seq<(usize, usize)>, i: usize)
    requires
        nodes.len() <= capacity(),
    ensures
        orphan_indices(nodes, edges).contains(i) <==> i < nodes.len() && !has_edge(
            edges,
            i,
            Direction::Outgoing,
        ) && is_reported_orphan(nodes[i as int], has_schema_node(nodes)),
{
    let candidates = externals_below(edges, nodes.len(), Direction::Outgoing);
    lemma_externals_below(edges, nodes.len(), Direction::Outgoing);
    lemma_reported_indices(nodes, candidates, has_schema_node(nodes), i);
    assert(candidates.contains(i) <==> i < nodes.len() && !has_edge(
        edges,
        i,
        Direction::Outgoing,
    ));
}

/// Candidates in ascending order are reported in ascending order.
proof fn lemma_reported_ascend(
    nodes: Seq<NodeView>,
    candidates: Seq<usize>,
    has_root_schema: bool,
)
    requires
        forall|j: int, k: int| 0 <= j < k < candidates.len() ==> candidates[j] < candidates[k],
    ensures
        forall|j: int, k: int|
            0 <= j < k < reported_indices(nodes, candidates, has_root_schema).len()
                ==> reported_indices(nodes, candidates, has_root_schema)[j] < reported_indices(
                nodes,
                candidates,
                has_root_schema,
            )[k],
    decreases candidates.len(),
{
    if candidates.len() > 0 {
        let fewer = candidates.drop_last();
        let last = candidates.last();
        let rest = reported_indices(nodes, fewer, has_root_schema);
        let all = reported_indices(nodes, candidates, has_root_schema);
        assert forall|j: int, k: int| 0 <= j < k < fewer.len() implies fewer[j] < fewer[k] by {
            assert(candidates[j] < candidates[k]);
        }
        lemma_reported_ascend(nodes, fewer, has_root_schema);
        assert forall|j: int, k: int| 0 <= j < k < all.len() implies all[j] < all[k] by {
            if k == rest.len() {
                let x = rest[j];
                assert(rest.contains(x));
                lemma_reported_indices(nodes, fewer, has_root_schema, x);
                let m = choose|m: int| 0 <= m < fewer.len() && fewer[m] == x;
                assert(candidates[m] < candidates[candidates.len() - 1]);
            } else {
                assert(rest[j] < rest[k]);
            }
        }
    }
}

/// The orphans are listed in ascending order of index, so each node once at most.
pub proof fn lemma_orphan_indices_ascend(nodes: Seq<NodeView>, edges: Seq<(usize, usize)>)
    requires
        nodes.len() <= capacity(),
    ensures
        forall|j: int, k: int|
            0 <= j < k < orphan_indices(nodes, edges).len() ==> orphan_indices(nodes, edges)[j]
                < orphan_indices(nodes, edges)[k],
{
    lemma_externals_below(edges, nodes.len(), Direction::Outgoing);
    lemma_reported_ascend(
        nodes,
        externals_below(edges, nodes.len(), Direction::Outgoing),
        has_schema_node(nodes),
    );
}

/// Whether some node of the graph is a schema block.
fn has_schema(graph: &DependencyGraph) -> (r: bool)
    ensures
        r == has_schema_node(node_views(graph_nodes(*graph))),
{
    let n = node_count(graph);
    let mut i: usize = 0;
    while i < n
        invariant
            i <= n,
            n == graph_nodes(*graph).len(),
            n <= capacity(),
            forall|t: int|
                0 <= t < i ==> (#[trigger] node_views(graph_nodes(*graph))[t]).entity.graphql
                    != GraphQL::Schema,
        decreases n - i,
    {
        if let Some(node) = node_weight(graph, i) {
            if node.entity.graphql == GraphQL::Schema {
                assert(node_views(graph_nodes(*graph))[i as int].entity.graphql
                    == GraphQL::Schema);
                return true;
            }
        }
        i += 1;
    }
    false
}

/// Whether the node is an object named like a root operation.
fn is_root_operation_object(entity: &Entity) -> (r: bool)
    ensures
        r == (entity.graphql == GraphQL::TypeDefinition(GraphQLType::Object) && is_root_operation(
            entity.name@,
        )),
{
    entity.graphql == GraphQL::TypeDefinition(GraphQLType::Object) && (entity.name
        == String::from_str("Mutation") || entity.name == String::from_str("Query") || entity.name
        == String::from_str("Subscription"))
}

/// Find and return orphan nodes.
pub fn find_orphans(graph: &DependencyGraph) -> (r: Vec<Entity>)
    ensures
        entity_views(r@) == orphans(node_views(graph_nodes(*graph)), graph_edges(*graph)),
{
    let candidates = externals(graph, Direction::Outgoing);
    let has_root_schema = has_schema(graph);
    let n = node_count(graph);
    let ghost nodes = node_views(graph_nodes(*graph));
    let mut out: Vec<Entity> = Vec::new();
    let mut k: usize = 0;
    assert(candidates@.take(0) =~= Seq::<usize>::empty());
    assert(entity_views(out@) =~= entities_at(
        nodes,
        reported_indices(nodes, candidates@.take(0), has_root_schema),
    ));
    while k < candidates.len()
        invariant
            k <= candidates.len(),
            n == graph_nodes(*graph).len(),
            n <= capacity(),
            nodes == node_views(graph_nodes(*graph)),
            entity_views(out@) == entities_at(
                nodes,
                reported_indices(nodes, candidates@.take(k as int), has_root_schema),
            ),
        decreases candidates.len() - k,
    {
        let index = candidates[k];
        let ghost before = reported_indices(nodes, candidates@.take(k as int), has_root_schema);
        let ghost shown = entity_views(out@);
        assert(candidates@.take(k + 1).drop_last() =~= candidates@.take(k as int));
        if index < n {
            if let Some(node) = node_weight(graph, index) {
                let skipped = match node.entity.graphql {
                    // Skip root schema as it can't have outgoing edges.
                    GraphQL::Schema => true,
                    // Skip Mutation, Query and Subscription if no root schema is
                    // defined as those nodes can't have outgoing edges.
                    _ => !has_root_schema && is_root_operation_object(&node.entity),
                };
                if !skipped {
                    out.push(node.entity.clone());
                    assert(entity_views(out@) =~= shown.push(nodes[index as int].entity));
                    assert(entities_at(nodes, before.push(index)) =~= entities_at(
                        nodes,
                        before,
                    ).push(nodes[index as int].entity));
                }
            }
        }
        k += 1;
    }
    assert(candidates@.take(k as int) =~= candidates@);
    out
}

/// The values of the pairs of a report, in order.
pub open spec fn report_views(report: Seq<(Entity, Vec<String>)>) -> Seq<
    (EntityView, Seq<Seq<char>>),
> {
    report.map_values(|pair: (Entity, Vec<String>)| (pair.0@, names_of(pair.1@)))
}

/// Every node with a list of missing names that is not empty, and that
/// list, in order of node index.
pub open spec fn missing_report(nodes: Seq<NodeView>, missing: Seq<Seq<Seq<char>>>) -> Seq<
    (EntityView, Seq<Seq<char>>),
>
    decreases missing.len(),
{
    if missing.len() == 0 {
        Seq::empty()
    } else {
        let rest = missing_report(nodes, missing.drop_last());
        let k = missing.len() - 1;
        if missing.last().len() > 0 && k < nodes.len() {
            rest.push((nodes[k].entity, missing.last()))
        } else {
            rest
        }
    }
}

/// Find and return the missing definitions: every node that refers to names
/// that nothing defines, with those names.
pub fn find_missing_definitions(graph: &DependencyGraph, missing_definitions: &Vec<Vec<String>>) -> (r:
    Vec<(Entity, Vec<String>)>)
    ensures
        report_views(r@) == missing_report(
            node_views(graph_nodes(*graph)),
            dependency_lists(missing_definitions@),
        ),
{
    let n = node_count(graph);
    let ghost nodes = node_views(graph_nodes(*graph));
    let ghost lists = dependency_lists(missing_definitions@);
    let mut out: Vec<(Entity, Vec<String>)> = Vec::new();
    let mut k: usize = 0;
    assert(lists.take(0) =~= Seq::<Seq<Seq<char>>>::empty());
    assert(report_views(out@) =~= missing_report(nodes, lists.take(0)));
    while k < missing_definitions.len()
        invariant
            k <= missing_definitions.len(),
            n == graph_nodes(*graph).len(),
            n <= capacity(),
            nodes == node_views(graph_nodes(*graph)),
            lists == dependency_lists(missing_definitions@),
            report_views(out@) == missing_report(nodes, lists.take(k as int)),
        decreases missing_definitions.len() - k,
    {
        let definitions = &missing_definitions[k];
        let ghost before = report_views(out@);
        assert(lists.take(k + 1).drop_last() =~= lists.take(k as int));
        assert(lists[k as int] == names_of(definitions@));
        if definitions.len() > 0 && k < n {
            if let Some(node) = node_weight(graph, k) {
                out.push((node.entity.clone(), clone_names(definitions)));
                assert(report_views(out@) =~= before.push(
                    (nodes[k as int].entity, names_of(definitions@)),
                ));
            }
        }
        k += 1;
    }
    assert(lists.take(k as int) =~= lists);
    out
}

} // verus!
