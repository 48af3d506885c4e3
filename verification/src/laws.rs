//! What holds of every build.

use vstd::prelude::*;
use crate::extend_types::{extended_id, node_id, ExtendType};
use crate::graph::{capacity, graph_edges, graph_nodes, has_edge, node_views, Direction};
use crate::model::{
    corpus_nodes, declaration_count, declared_entity, dependency_edges, document_nodes, edge_for,
    edges_after, edges_of_first, first_match, fits, gives_edge, is_build_of, is_builtin_scalar,
    is_dependency_edge, is_missing, lemma_first_match, lookup, missing_names, missing_of,
    node_of, resolves, selected, sum,
};
use crate::schema::{Definition, Document, TypeExtension};
use crate::state::{dependency_lists, names_of, Data, GraphQL, NodeView};
use crate::utils::{has_schema_node, is_reported_orphan, lemma_orphan_indices, orphan_indices};

verus! {

/// Whether the dependency at position `q` of node `p` resolves to node `t`.
pub open spec fn names_at(nodes: Seq<NodeView>, p: int, q: int, t: int) -> bool {
    &&& 0 <= p < nodes.len()
    &&& 0 <= q < nodes[p].entity.dependencies.len()
    &&& first_match(nodes, nodes[p].entity.dependencies[q], t)
}

/// Whether node `p` names node `t`: one of its dependencies resolves to `t`.
pub open spec fn names_node(nodes: Seq<NodeView>, p: int, t: int) -> bool {
    exists|q: int| names_at(nodes, p, q, t)
}

/// Whether node `p` is an extension.
pub open spec fn is_extension_node(nodes: Seq<NodeView>, p: int) -> bool {
    nodes[p].entity.graphql.is_extension()
}

/// What every node made from a declaration satisfies: it is keyed by its
/// entity's id, the id is the one its kind and name give, and an extension
/// names last the type it extends.
pub open spec fn valid_node(node: NodeView) -> bool {
    &&& node.id == node.entity.id
    &&& node.entity.id == node_id(node.entity.graphql, node.entity.name)
    &&& node.entity.graphql.is_extension() ==> node.entity.dependencies.len() > 0
        && node.entity.dependencies.last() == node.entity.name
}

/// The test that the filter puts to a declaration.
pub open spec fn selects(filter: Seq<GraphQL>) -> spec_fn(Definition) -> bool {
    |d: Definition| selected(filter, d.kind())
}

/// Number of declarations in all files whose kind the filter lets in.
pub open spec fn selected_count(files: Seq<Document>, filter: Seq<GraphQL>) -> nat {
    sum(files.map_values(|f: Document| f.definitions@.filter(selects(filter)).len()))
}

/// Set of the (source id, target id) pairs of the edges.
pub open spec fn edge_id_pairs(nodes: Seq<NodeView>, edges: Seq<(usize, usize)>) -> Set<
    (Seq<char>, Seq<char>),
> {
    Set::new(
        |pair: (Seq<char>, Seq<char>)|
            exists|e: (usize, usize)|
                #[trigger] edges.contains(e) && pair == (nodes[e.0 as int].id, nodes[e.1 as int].id),
    )
}

/// The nodes of one file are valid, pass the filter, and are as many as the
/// declarations that pass it.
pub proof fn lemma_document_nodes(
    definitions: Seq<Definition>,
    path: Seq<char>,
    filter: Seq<GraphQL>,
)
    ensures
        forall|i: int|
            0 <= i < document_nodes(definitions, path, filter).len() ==> valid_node(
                #[trigger] document_nodes(definitions, path, filter)[i],
            ) && selected(filter, document_nodes(definitions, path, filter)[i].entity.graphql),
        document_nodes(definitions, path, filter).len() == definitions.filter(
            selects(filter),
        ).len(),
        filter.len() == 0 ==> document_nodes(definitions, path, filter).len()
            == definitions.len(),
    decreases definitions.len(),
{
    reveal(Seq::filter);
    if definitions.len() > 0 {
        lemma_document_nodes(definitions.drop_last(), path, filter);
        let last = definitions.last();
        match last {
            Definition::SchemaDefinition(d) => {
                assert(valid_node(node_of(declared_entity(&d, path))));
            },
            Definition::TypeDefinition(d) => {
                assert(valid_node(node_of(declared_entity(&d, path))));
            },
            Definition::TypeExtension(d) => {
                assert(valid_node(node_of(declared_entity(&d, path))));
            },
            Definition::DirectiveDefinition(d) => {
                assert(valid_node(node_of(declared_entity(&d, path))));
            },
        }
    }
}

/// The nodes of a corpus are valid, pass the filter, and are as many as the
/// declarations that pass it.
pub proof fn lemma_corpus_nodes(files: Seq<Document>, filter: Seq<GraphQL>)
    ensures
        forall|i: int|
            0 <= i < corpus_nodes(files, filter).len() ==> valid_node(
                #[trigger] corpus_nodes(files, filter)[i],
            ) && selected(filter, corpus_nodes(files, filter)[i].entity.graphql),
        corpus_nodes(files, filter).len() == selected_count(files, filter),
        filter.len() == 0 ==> corpus_nodes(files, filter).len() == declaration_count(files),
    decreases files.len(),
{
    if files.len() > 0 {
        let last = files.last();
        lemma_corpus_nodes(files.drop_last(), filter);
        lemma_document_nodes(last.definitions@, last.path@, filter);
        assert(files.map_values(
            |f: Document| f.definitions@.filter(selects(filter)).len(),
        ).drop_last() =~= files.drop_last().map_values(
            |f: Document| f.definitions@.filter(selects(filter)).len(),
        ));
        assert(files.map_values(|f: Document| f.definitions@.len()).drop_last()
            =~= files.drop_last().map_values(|f: Document| f.definitions@.len()));
    }
}

/// A name is among the missing names exactly when it is among the
/// dependencies and is missing.
pub proof fn lemma_missing_names(
    nodes: Seq<NodeView>,
    dependencies: Seq<Seq<char>>,
    name: Seq<char>,
)
    ensures
        missing_names(nodes, dependencies).contains(name) <==> dependencies.contains(name)
            && is_missing(nodes, name),
    decreases dependencies.len(),
{
    if dependencies.len() > 0 {
        let rest = dependencies.drop_last();
        let last = dependencies.last();
        lemma_missing_names(nodes, rest, name);
        let found = missing_names(nodes, rest);
        if dependencies.contains(name) {
            let k = choose|k: int| 0 <= k < dependencies.len() && dependencies[k] == name;
            if k < rest.len() {
                assert(rest[k] == name);
            }
        }
        if rest.contains(name) {
            let k = choose|k: int| 0 <= k < rest.len() && rest[k] == name;
            assert(dependencies[k] == name);
        }
        assert(dependencies[dependencies.len() - 1] == last);
        if is_missing(nodes, last) {
            let all = found.push(last);
            if all.contains(name) {
                let k = choose|k: int| 0 <= k < all.len() && all[k] == name;
                if k < found.len() {
                    assert(found[k] == name);
                }
            }
            if found.contains(name) {
                let k = choose|k: int| 0 <= k < found.len() && found[k] == name;
                assert(all[k] == name);
            }
            assert(all[found.len() as int] == last);
        }
    }
}

/// An edge runs from `a` to `b` exactly when `b`, no extension, names `a`,
/// or `a`, an extension, names `b`.
pub proof fn lemma_edges(nodes: Seq<NodeView>, a: usize, b: usize)
    requires
        nodes.len() <= capacity(),
    ensures
        is_dependency_edge(nodes, (a, b)) <==> (names_node(nodes, b as int, a as int)
            && !is_extension_node(nodes, b as int)) || (names_node(nodes, a as int, b as int)
            && is_extension_node(nodes, a as int)),
{
    let e = (a, b);
    if is_dependency_edge(nodes, e) {
        let (p, q) = choose|p: int, q: int| gives_edge(nodes, p, q, e);
        let t = choose|t: int| #[trigger]
            first_match(nodes, nodes[p].entity.dependencies[q], t) && e == edge_for(nodes, p, t);
        if is_extension_node(nodes, p) {
            assert(names_at(nodes, a as int, q, b as int));
        } else {
            assert(names_at(nodes, b as int, q, a as int));
        }
    }
    if names_node(nodes, b as int, a as int) && !is_extension_node(nodes, b as int) {
        let q = choose|q: int| names_at(nodes, b as int, q, a as int);
        assert(first_match(nodes, nodes[b as int].entity.dependencies[q], a as int));
        assert(gives_edge(nodes, b as int, q, e));
    }
    if names_node(nodes, a as int, b as int) && is_extension_node(nodes, a as int) {
        let q = choose|q: int| names_at(nodes, a as int, q, b as int);
        assert(first_match(nodes, nodes[a as int].entity.dependencies[q], b as int));
        assert(gives_edge(nodes, a as int, q, e));
    }
}

/// Whether no dependency of any node is the id of a node.
pub open spec fn nothing_resolves(nodes: Seq<NodeView>) -> bool {
    forall|p: int, q: int|
        0 <= p < nodes.len() && 0 <= q < nodes[p].entity.dependencies.len() ==> !resolves(
            nodes,
            #[trigger] nodes[p].entity.dependencies[q],
        )
}

/// Declarations of which none names the id of any: the graph has a node for
/// each declaration and no edge.
pub proof fn law_unrelated_declarations(data: Data, files: Seq<Document>)
    requires
        is_build_of(data, files, Seq::empty()),
        nothing_resolves(corpus_nodes(files, Seq::empty())),
    ensures
        graph_nodes(data.graph).len() == declaration_count(files),
        graph_edges(data.graph).len() == 0,
{
    let nodes = corpus_nodes(files, Seq::empty());
    lemma_corpus_nodes(files, Seq::empty());
    let edges = graph_edges(data.graph);
    if edges.len() > 0 {
        let e = edges[0];
        assert(edges.contains(e));
        let (p, q) = choose|p: int, q: int| gives_edge(nodes, p, q, e);
        lemma_first_match(nodes, nodes[p].entity.dependencies[q]);
        assert(false);
    }
}

/// Building the same input twice gives the same nodes in the same order,
/// hence the same set of node ids; the same edges in the same order, hence
/// the same set of edges and of edge endpoint ids; and the same two indices.
pub proof fn law_rebuild(first: Data, second: Data, files: Seq<Document>, filter: Seq<GraphQL>)
    requires
        is_build_of(first, files, filter),
        is_build_of(second, files, filter),
    ensures
        node_views(graph_nodes(first.graph)) == node_views(graph_nodes(second.graph)),
        graph_edges(first.graph) == graph_edges(second.graph),
        graph_edges(first.graph).to_set() == graph_edges(second.graph).to_set(),
        edge_id_pairs(node_views(graph_nodes(first.graph)), graph_edges(first.graph))
            == edge_id_pairs(node_views(graph_nodes(second.graph)), graph_edges(second.graph)),
        dependency_lists(first.dependencies@) == dependency_lists(second.dependencies@),
        dependency_lists(first.missing_definitions@) == dependency_lists(
            second.missing_definitions@,
        ),
{
    let nodes = corpus_nodes(files, filter);
    let first_edges = graph_edges(first.graph);
    let second_edges = graph_edges(second.graph);
    assert(first_edges.to_set() =~= second_edges.to_set());
    assert forall|pair: (Seq<char>, Seq<char>)|
        edge_id_pairs(nodes, first_edges).contains(pair) <==> edge_id_pairs(
            nodes,
            second_edges,
        ).contains(pair) by {
        if edge_id_pairs(nodes, first_edges).contains(pair) {
            let e = choose|e: (usize, usize)| #[trigger]
                first_edges.contains(e) && pair == (nodes[e.0 as int].id, nodes[e.1 as int].id);
            assert(second_edges.contains(e));
        }
        if edge_id_pairs(nodes, second_edges).contains(pair) {
            let e = choose|e: (usize, usize)| #[trigger]
                second_edges.contains(e) && pair == (nodes[e.0 as int].id, nodes[e.1 as int].id);
            assert(first_edges.contains(e));
        }
    }
    assert(edge_id_pairs(nodes, first_edges) =~= edge_id_pairs(nodes, second_edges));
}

/// An extension and a declaration of the same name that is no extension
/// have the same display name and different ids, so they are two nodes that
/// no lookup by id confuses; and the id of an extension is never its name.
pub proof fn law_extension_identity<T: ExtendType>(
    extension: TypeExtension,
    base: T,
    extension_path: Seq<char>,
    base_path: Seq<char>,
)
    requires
        !base.kind().is_extension(),
        base.display_name() == extension.display_name(),
    ensures
        declared_entity(&extension, extension_path).name == declared_entity(
            &base,
            base_path,
        ).name,
        declared_entity(&extension, extension_path).id != declared_entity(&base, base_path).id,
        declared_entity(&extension, extension_path).id != extension.display_name(),
{
    let name = extension.display_name();
    assert(extended_id(name).len() == name.len() + 2);
}

/// A declaration of one file that the filter lets in has its node among the file's nodes.
proof fn lemma_document_node(
    definitions: Seq<Definition>,
    path: Seq<char>,
    filter: Seq<GraphQL>,
    d: int,
) -> (j: int)
    requires
        0 <= d < definitions.len(),
        selected(filter, definitions[d].kind()),
    ensures
        0 <= j < document_nodes(definitions, path, filter).len(),
        document_nodes(definitions, path, filter)[j] == node_of(
            definitions[d].entity(path),
        ),
    decreases definitions.len(),
{
    let rest = document_nodes(definitions.drop_last(), path, filter);
    if d == definitions.len() - 1 {
        rest.len() as int
    } else {
        lemma_document_node(definitions.drop_last(), path, filter, d)
    }
}

/// A declaration that the filter lets in has its node among the nodes of the corpus.
pub proof fn lemma_declaration_has_node(
    files: Seq<Document>,
    filter: Seq<GraphQL>,
    f: int,
    d: int,
) -> (i: int)
    requires
        0 <= f < files.len(),
        0 <= d < files[f].definitions@.len(),
        selected(filter, files[f].definitions@[d].kind()),
    ensures
        0 <= i < corpus_nodes(files, filter).len(),
        corpus_nodes(files, filter)[i] == node_of(
            files[f].definitions@[d].entity(files[f].path@),
        ),
    decreases files.len(),
{
    let before = corpus_nodes(files.drop_last(), filter);
    if f == files.len() - 1 {
        let j = lemma_document_node(files[f].definitions@, files[f].path@, filter, d);
        before.len() + j
    } else {
        lemma_declaration_has_node(files.drop_last(), filter, f, d)
    }
}

/// An extension and a declaration of the same name that is no extension,
/// both let in by the filter, are two nodes of the build, with one display
/// name and two ids.
pub proof fn law_extension_is_a_second_node(
    data: Data,
    files: Seq<Document>,
    filter: Seq<GraphQL>,
    extension: (int, int),
    base: (int, int),
)
    requires
        is_build_of(data, files, filter),
        0 <= extension.0 < files.len(),
        0 <= extension.1 < files[extension.0].definitions@.len(),
        0 <= base.0 < files.len(),
        0 <= base.1 < files[base.0].definitions@.len(),
        files[extension.0].definitions@[extension.1].kind().is_extension(),
        !files[base.0].definitions@[base.1].kind().is_extension(),
        selected(filter, files[extension.0].definitions@[extension.1].kind()),
        selected(filter, files[base.0].definitions@[base.1].kind()),
        files[extension.0].definitions@[extension.1].entity(files[extension.0].path@).name
            == files[base.0].definitions@[base.1].entity(files[base.0].path@).name,
    ensures
        exists|a: int, b: int|
            {
                &&& 0 <= a < graph_nodes(data.graph).len()
                &&& 0 <= b < graph_nodes(data.graph).len()
                &&& a != b
                &&& #[trigger] node_views(graph_nodes(data.graph))[a] == node_of(
                    files[extension.0].definitions@[extension.1].entity(files[extension.0].path@),
                )
                &&& #[trigger] node_views(graph_nodes(data.graph))[b] == node_of(
                    files[base.0].definitions@[base.1].entity(files[base.0].path@),
                )
                &&& node_views(graph_nodes(data.graph))[a].id != node_views(
                    graph_nodes(data.graph),
                )[b].id
                &&& node_views(graph_nodes(data.graph))[a].entity.name == node_views(
                    graph_nodes(data.graph),
                )[b].entity.name
            },
{
    let nodes = corpus_nodes(files, filter);
    let a = lemma_declaration_has_node(files, filter, extension.0, extension.1);
    let b = lemma_declaration_has_node(files, filter, base.0, base.1);
    lemma_corpus_nodes(files, filter);
    assert(valid_node(nodes[a]));
    assert(valid_node(nodes[b]));
    let first = files[extension.0].definitions@[extension.1];
    let second = files[base.0].definitions@[base.1];
    assert(nodes[a].entity.graphql == first.kind());
    assert(nodes[b].entity.graphql == second.kind());
    let name = nodes[a].entity.name;
    assert(extended_id(name).len() == name.len() + 2);
    assert(node_views(graph_nodes(data.graph))[a] == nodes[a]);
    assert(node_views(graph_nodes(data.graph))[b] == nodes[b]);
}

/// In a build, the own name of an extension never resolves to the extension itself.
pub proof fn law_extension_resolves_to_base(
    data: Data,
    files: Seq<Document>,
    filter: Seq<GraphQL>,
    x: int,
)
    requires
        is_build_of(data, files, filter),
        0 <= x < corpus_nodes(files, filter).len(),
        is_extension_node(corpus_nodes(files, filter), x),
    ensures
        corpus_nodes(files, filter)[x].id != corpus_nodes(files, filter)[x].entity.name,
        !first_match(corpus_nodes(files, filter), corpus_nodes(files, filter)[x].entity.name, x),
{
    let nodes = corpus_nodes(files, filter);
    lemma_corpus_nodes(files, filter);
    assert(valid_node(nodes[x]));
    let name = nodes[x].entity.name;
    assert(extended_id(name).len() == name.len() + 2);
}

/// Direction of the edges of a build: an edge runs from `a` to `b` exactly
/// when `b` is no extension and names `a` ("a is used by b"), or `a` is an
/// extension and names `b`. Where the extension `a` names `b` and its own
/// name is the only one of its names that resolves, `b` is the base of `a`.
pub proof fn law_direction(
    data: Data,
    files: Seq<Document>,
    filter: Seq<GraphQL>,
    a: usize,
    b: usize,
)
    requires
        is_build_of(data, files, filter),
    ensures
        graph_edges(data.graph).contains((a, b)) <==> (names_node(
            corpus_nodes(files, filter),
            b as int,
            a as int,
        ) && !is_extension_node(corpus_nodes(files, filter), b as int)) || (names_node(
            corpus_nodes(files, filter),
            a as int,
            b as int,
        ) && is_extension_node(corpus_nodes(files, filter), a as int)),
        graph_edges(data.graph).contains((a, b)) ==> a < corpus_nodes(files, filter).len() && b
            < corpus_nodes(files, filter).len(),
        names_node(corpus_nodes(files, filter), a as int, b as int) && is_extension_node(
            corpus_nodes(files, filter),
            a as int,
        ) && names_only_its_base(corpus_nodes(files, filter), a as int) ==> corpus_nodes(
            files,
            filter,
        )[b as int].id == corpus_nodes(files, filter)[a as int].entity.name,
{
    let nodes = corpus_nodes(files, filter);
    lemma_edges(nodes, a, b);
    if names_node(nodes, b as int, a as int) {
        let q = choose|q: int| names_at(nodes, b as int, q, a as int);
    }
    if names_node(nodes, a as int, b as int) {
        let q = choose|q: int| names_at(nodes, a as int, q, b as int);
        if is_extension_node(nodes, a as int) && names_only_its_base(nodes, a as int) {
            let name = nodes[a as int].entity.dependencies[q];
            assert(nodes[b as int].id == name);
            assert(resolves(nodes, name));
        }
    }
}

/// Whether every dependency of node `x` that resolves is the node's own name.
pub open spec fn names_only_its_base(nodes: Seq<NodeView>, x: int) -> bool {
    forall|q: int|
        0 <= q < nodes[x].entity.dependencies.len() && resolves(
            nodes,
            #[trigger] nodes[x].entity.dependencies[q],
        ) ==> nodes[x].entity.dependencies[q] == nodes[x].entity.name
}

/// Outgoing edges of a build: node `i` has none exactly when no node other
/// than an extension names it and, if it is an extension, it names no node.
pub proof fn law_outgoing_edges(data: Data, files: Seq<Document>, filter: Seq<GraphQL>, i: usize)
    requires
        is_build_of(data, files, filter),
        i < corpus_nodes(files, filter).len(),
    ensures
        !has_edge(graph_edges(data.graph), i, Direction::Outgoing) <==> (forall|b: int|
            !is_extension_node(corpus_nodes(files, filter), b) ==> !#[trigger] names_node(
                corpus_nodes(files, filter),
                b,
                i as int,
            )) && (is_extension_node(corpus_nodes(files, filter), i as int) ==> forall|t: int|
            !#[trigger] names_node(corpus_nodes(files, filter), i as int, t)),
{
    let nodes = corpus_nodes(files, filter);
    let edges = graph_edges(data.graph);
    if has_edge(edges, i, Direction::Outgoing) {
        let k = choose|k: int| 0 <= k < edges.len() && (#[trigger] edges[k]).0 == i;
        let b = edges[k].1;
        assert(edges.contains((i, b)));
        lemma_edges(nodes, i, b);
    }
    if exists|b: int|
        !is_extension_node(nodes, b) && #[trigger] names_node(nodes, b, i as int) {
        let b = choose|b: int|
            !is_extension_node(nodes, b) && #[trigger] names_node(nodes, b, i as int);
        let q = choose|q: int| names_at(nodes, b, q, i as int);
        lemma_edges(nodes, i, b as usize);
        assert(edges.contains((i, b as usize)));
    }
    if is_extension_node(nodes, i as int) && exists|t: int| #[trigger]
        names_node(nodes, i as int, t) {
        let t = choose|t: int| #[trigger] names_node(nodes, i as int, t);
        let q = choose|q: int| names_at(nodes, i as int, q, t);
        lemma_edges(nodes, i, t as usize);
        assert(edges.contains((i, t as usize)));
    }
}

/// Orphans of a build: where no extension names node `i`, and `i`, if an
/// extension, names nothing that is defined but the type it extends, node
/// `i` has no outgoing edge exactly when no node names it and it is not an
/// extension of a type that is defined.
pub proof fn law_orphan(data: Data, files: Seq<Document>, filter: Seq<GraphQL>, i: usize)
    requires
        is_build_of(data, files, filter),
        i < corpus_nodes(files, filter).len(),
        forall|b: int|
            is_extension_node(corpus_nodes(files, filter), b) ==> !#[trigger] names_node(
                corpus_nodes(files, filter),
                b,
                i as int,
            ),
        is_extension_node(corpus_nodes(files, filter), i as int) ==> names_only_its_base(
            corpus_nodes(files, filter),
            i as int,
        ),
    ensures
        !has_edge(graph_edges(data.graph), i, Direction::Outgoing) <==> (forall|b: int|
            !#[trigger] names_node(corpus_nodes(files, filter), b, i as int))
            && !(is_extension_node(corpus_nodes(files, filter), i as int) && resolves(
            corpus_nodes(files, filter),
            corpus_nodes(files, filter)[i as int].entity.name,
        )),
{
    let nodes = corpus_nodes(files, filter);
    let name = nodes[i as int].entity.name;
    law_outgoing_edges(data, files, filter, i);
    lemma_corpus_nodes(files, filter);
    assert(valid_node(nodes[i as int]));
    lemma_first_match(nodes, name);
    if is_extension_node(nodes, i as int) {
        let names = nodes[i as int].entity.dependencies;
        if resolves(nodes, name) {
            let t = choose|t: int| first_match(nodes, name, t);
            assert(names_at(nodes, i as int, names.len() - 1, t));
            assert(names_node(nodes, i as int, t));
        }
        if exists|t: int| #[trigger] names_node(nodes, i as int, t) {
            let t = choose|t: int| #[trigger] names_node(nodes, i as int, t);
            let q = choose|q: int| names_at(nodes, i as int, q, t);
            lemma_first_match(nodes, names[q]);
            assert(resolves(nodes, names[q]));
            assert(names[q] == name);
        }
    }
}

/// Missing definitions of a build: a name is in the missing list of node
/// `i` exactly when the node refers to it, no node has it as id, and it is
/// no built-in scalar.
pub proof fn law_missing_definitions(
    data: Data,
    files: Seq<Document>,
    filter: Seq<GraphQL>,
    i: int,
    name: Seq<char>,
)
    requires
        is_build_of(data, files, filter),
        0 <= i < corpus_nodes(files, filter).len(),
    ensures
        data.missing_definitions@.len() == corpus_nodes(files, filter).len(),
        names_of(data.missing_definitions@[i]@).contains(name) <==> corpus_nodes(
            files,
            filter,
        )[i].entity.dependencies.contains(name) && !resolves(corpus_nodes(files, filter), name)
            && !is_builtin_scalar(name),
{
    let nodes = corpus_nodes(files, filter);
    assert(dependency_lists(data.missing_definitions@).len() == missing_of(nodes).len());
    assert(dependency_lists(data.missing_definitions@)[i] == missing_of(nodes)[i]);
    lemma_missing_names(nodes, nodes[i].entity.dependencies, name);
}

/// Filtering: every node of a build is of a kind that the filter lets in,
/// so a filter that lists some kinds and not `kind` leaves no node of
/// `kind`; and there are as many nodes as declarations of a kind let in.
pub proof fn law_filter(data: Data, files: Seq<Document>, filter: Seq<GraphQL>, kind: GraphQL)
    requires
        is_build_of(data, files, filter),
    ensures
        forall|i: int|
            0 <= i < graph_nodes(data.graph).len() ==> selected(
                filter,
                (#[trigger] graph_nodes(data.graph)[i]).entity.graphql,
            ),
        filter.len() > 0 && !filter.contains(kind) ==> forall|i: int|
            0 <= i < graph_nodes(data.graph).len() ==> (#[trigger] graph_nodes(
                data.graph,
            )[i]).entity.graphql != kind,
        graph_nodes(data.graph).len() == selected_count(files, filter),
{
    let nodes = corpus_nodes(files, filter);
    lemma_corpus_nodes(files, filter);
    assert forall|i: int| 0 <= i < graph_nodes(data.graph).len() implies selected(
        filter,
        (#[trigger] graph_nodes(data.graph)[i]).entity.graphql,
    ) by {
        assert(node_views(graph_nodes(data.graph))[i] == nodes[i]);
    }
}

/// Orphans of a build, as the query reports them: node `i` is among the
/// orphans exactly when no node other than an extension names it, it is not
/// an extension that names a node, and it is neither the schema block nor,
/// where no node is a schema block, an object named like a root operation.
pub proof fn law_orphans_of_build(data: Data, files: Seq<Document>, filter: Seq<GraphQL>, i: usize)
    requires
        is_build_of(data, files, filter),
        i < corpus_nodes(files, filter).len(),
    ensures
        orphan_indices(corpus_nodes(files, filter), graph_edges(data.graph)).contains(i) <==> {
            &&& is_reported_orphan(
                corpus_nodes(files, filter)[i as int],
                has_schema_node(corpus_nodes(files, filter)),
            )
            &&& forall|b: int|
                !is_extension_node(corpus_nodes(files, filter), b) ==> !#[trigger] names_node(
                    corpus_nodes(files, filter),
                    b,
                    i as int,
                )
            &&& is_extension_node(corpus_nodes(files, filter), i as int) ==> forall|t: int|
                !#[trigger] names_node(corpus_nodes(files, filter), i as int, t)
        },
{
    law_outgoing_edges(data, files, filter, i);
    lemma_orphan_indices(corpus_nodes(files, filter), graph_edges(data.graph), i);
}

/// Where no two nodes have one id, a node names another exactly when the
/// other's id is among its dependencies.
pub proof fn lemma_names_by_id(nodes: Seq<NodeView>, b: int, i: int)
    requires
        0 <= b < nodes.len(),
        0 <= i < nodes.len(),
        forall|t: int, u: int|
            0 <= t < u < nodes.len() ==> (#[trigger] nodes[t]).id != (#[trigger] nodes[u]).id,
    ensures
        names_node(nodes, b, i) <==> nodes[b].entity.dependencies.contains(nodes[i].id),
{
    let names = nodes[b].entity.dependencies;
    if names_node(nodes, b, i) {
        let q = choose|q: int| names_at(nodes, b, q, i);
        assert(names[q] == nodes[i].id);
    }
    if names.contains(nodes[i].id) {
        let q = choose|q: int| 0 <= q < names.len() && names[q] == nodes[i].id;
        assert(first_match(nodes, names[q], i));
        assert(names_at(nodes, b, q, i));
    }
}

/// Orphans of a build, as the query reports them: under the conditions of
/// `law_orphan`, node `i` is among the orphans exactly when no node names
/// it, it is not an extension of a type that is defined, and it is neither
/// the schema block nor, where no node is a schema block, an object named
/// like a root operation.
pub proof fn law_reported_orphan(data: Data, files: Seq<Document>, filter: Seq<GraphQL>, i: usize)
    requires
        is_build_of(data, files, filter),
        i < corpus_nodes(files, filter).len(),
        forall|b: int|
            is_extension_node(corpus_nodes(files, filter), b) ==> !#[trigger] names_node(
                corpus_nodes(files, filter),
                b,
                i as int,
            ),
        is_extension_node(corpus_nodes(files, filter), i as int) ==> names_only_its_base(
            corpus_nodes(files, filter),
            i as int,
        ),
    ensures
        orphan_indices(corpus_nodes(files, filter), graph_edges(data.graph)).contains(i) <==> {
            &&& is_reported_orphan(
                corpus_nodes(files, filter)[i as int],
                has_schema_node(corpus_nodes(files, filter)),
            )
            &&& forall|b: int| !#[trigger] names_node(corpus_nodes(files, filter), b, i as int)
            &&& !(is_extension_node(corpus_nodes(files, filter), i as int) && resolves(
                corpus_nodes(files, filter),
                corpus_nodes(files, filter)[i as int].entity.name,
            ))
        },
{
    law_orphan(data, files, filter, i);
    lemma_orphan_indices(corpus_nodes(files, filter), graph_edges(data.graph), i);
}

/// Where nothing resolves, resolving the dependencies of a node adds no edge.
proof fn lemma_no_edges_after(
    nodes: Seq<NodeView>,
    edges: Seq<(usize, usize)>,
    p: int,
    count: nat,
)
    requires
        nothing_resolves(nodes),
        0 <= p < nodes.len(),
        count <= nodes[p].entity.dependencies.len(),
    ensures
        edges_after(nodes, edges, p, count) == edges,
    decreases count,
{
    if count > 0 {
        lemma_no_edges_after(nodes, edges, p, (count - 1) as nat);
        let name = nodes[p].entity.dependencies[count - 1];
        lemma_first_match(nodes, name);
        assert(!resolves(nodes, name));
    }
}

/// Where nothing resolves, there is no edge.
proof fn lemma_no_edges(nodes: Seq<NodeView>, count: nat)
    requires
        nothing_resolves(nodes),
        count <= nodes.len(),
    ensures
        edges_of_first(nodes, count) == Seq::<(usize, usize)>::empty(),
    decreases count,
{
    if count > 0 {
        lemma_no_edges(nodes, (count - 1) as nat);
        lemma_no_edges_after(
            nodes,
            edges_of_first(nodes, (count - 1) as nat),
            count - 1,
            nodes[count - 1].entity.dependencies.len(),
        );
    }
}

/// Declarations of which none names the id of any, and no more of them than
/// a graph can index, fit a graph: their build succeeds, and then has a node
/// for each declaration and no edge.
pub proof fn law_unrelated_declarations_fit(files: Seq<Document>)
    requires
        nothing_resolves(corpus_nodes(files, Seq::empty())),
        declaration_count(files) <= capacity(),
    ensures
        fits(files, Seq::empty()),
        corpus_nodes(files, Seq::empty()).len() == declaration_count(files),
        dependency_edges(corpus_nodes(files, Seq::empty())).len() == 0,
{
    let nodes = corpus_nodes(files, Seq::empty());
    lemma_corpus_nodes(files, Seq::empty());
    lemma_no_edges(nodes, nodes.len());
}

/// Set of the ids of the nodes.
pub open spec fn node_ids(nodes: Seq<NodeView>) -> Set<Seq<char>> {
    Set::new(|id: Seq<char>| resolves(nodes, id))
}

/// The (source id, target id) pair of the edge between `node` and the node
/// that its dependency `name` resolves to.
pub open spec fn id_pair(node: NodeView, name: Seq<char>) -> (Seq<char>, Seq<char>) {
    if node.entity.graphql.is_extension() {
        (node.id, name)
    } else {
        (name, node.id)
    }
}

/// Whether the dependency at position `q` of `node` resolves among `nodes`
/// and gives an edge with the ids `pair`.
pub open spec fn gives_pair_at(
    node: NodeView,
    q: int,
    nodes: Seq<NodeView>,
    pair: (Seq<char>, Seq<char>),
) -> bool {
    &&& 0 <= q < node.entity.dependencies.len()
    &&& resolves(nodes, node.entity.dependencies[q])
    &&& pair == id_pair(node, node.entity.dependencies[q])
}

/// Whether some dependency of `node` gives an edge with the ids `pair`.
pub open spec fn gives_pair(node: NodeView, nodes: Seq<NodeView>, pair: (Seq<char>, Seq<char>)) -> bool {
    exists|q: int| gives_pair_at(node, q, nodes, pair)
}

/// The id pairs of the edges of a build are those that the dependencies of
/// its nodes give.
proof fn lemma_edge_id_pairs(
    nodes: Seq<NodeView>,
    edges: Seq<(usize, usize)>,
    pair: (Seq<char>, Seq<char>),
)
    requires
        nodes.len() <= capacity(),
        forall|e: (usize, usize)| #[trigger] edges.contains(e) <==> is_dependency_edge(nodes, e),
    ensures
        edge_id_pairs(nodes, edges).contains(pair) <==> exists|p: int|
            0 <= p < nodes.len() && gives_pair(#[trigger] nodes[p], nodes, pair),
{
    if edge_id_pairs(nodes, edges).contains(pair) {
        let e = choose|e: (usize, usize)| #[trigger]
            edges.contains(e) && pair == (nodes[e.0 as int].id, nodes[e.1 as int].id);
        assert(is_dependency_edge(nodes, e));
        let (p, q) = choose|p: int, q: int| gives_edge(nodes, p, q, e);
        let name = nodes[p].entity.dependencies[q];
        let t = choose|t: int| #[trigger] first_match(nodes, name, t) && e == edge_for(nodes, p, t);
        assert(resolves(nodes, name));
        assert(gives_pair_at(nodes[p], q, nodes, pair));
        assert(gives_pair(nodes[p], nodes, pair));
    }
    if exists|p: int| 0 <= p < nodes.len() && gives_pair(#[trigger] nodes[p], nodes, pair) {
        let p = choose|p: int| 0 <= p < nodes.len() && gives_pair(#[trigger] nodes[p], nodes, pair);
        let q = choose|q: int| gives_pair_at(nodes[p], q, nodes, pair);
        let name = nodes[p].entity.dependencies[q];
        lemma_first_match(nodes, name);
        let t = choose|t: int| first_match(nodes, name, t);
        let e = edge_for(nodes, p, t);
        assert(first_match(nodes, name, t) && e == edge_for(nodes, p, t));
        assert(gives_edge(nodes, p, q, e));
        assert(is_dependency_edge(nodes, e));
        assert(edges.contains(e) && pair == (nodes[e.0 as int].id, nodes[e.1 as int].id));
    }
}

/// Whether the file gives the node.
pub open spec fn file_gives(file: Document, filter: Seq<GraphQL>, node: NodeView) -> bool {
    document_nodes(file.definitions@, file.path@, filter).contains(node)
}

/// What is in one of two sequences is in the two put together, and nothing else is.
proof fn lemma_concat_contains(a: Seq<NodeView>, b: Seq<NodeView>, x: NodeView)
    ensures
        (a + b).contains(x) <==> a.contains(x) || b.contains(x),
{
    let both = a + b;
    if both.contains(x) {
        let k = choose|k: int| 0 <= k < both.len() && both[k] == x;
        if k < a.len() {
            assert(a[k] == x);
        } else {
            assert(b[k - a.len()] == x);
        }
    }
    if a.contains(x) {
        let k = choose|k: int| 0 <= k < a.len() && a[k] == x;
        assert(both[k] == x);
    }
    if b.contains(x) {
        let k = choose|k: int| 0 <= k < b.len() && b[k] == x;
        assert(both[a.len() + k] == x);
    }
}

/// The nodes of a corpus are those that one of its files gives.
proof fn lemma_corpus_contains(files: Seq<Document>, filter: Seq<GraphQL>, node: NodeView)
    ensures
        corpus_nodes(files, filter).contains(node) <==> exists|k: int|
            0 <= k < files.len() && file_gives(#[trigger] files[k], filter, node),
    decreases files.len(),
{
    if files.len() > 0 {
        let fewer = files.drop_last();
        let last = files.last();
        lemma_corpus_contains(fewer, filter, node);
        lemma_concat_contains(
            corpus_nodes(fewer, filter),
            document_nodes(last.definitions@, last.path@, filter),
            node,
        );
        if corpus_nodes(files, filter).contains(node) {
            if corpus_nodes(fewer, filter).contains(node) {
                let k = choose|k: int|
                    0 <= k < fewer.len() && file_gives(#[trigger] fewer[k], filter, node);
                assert(file_gives(files[k], filter, node));
            } else {
                assert(file_gives(files[files.len() - 1], filter, node));
            }
        }
        if exists|k: int| 0 <= k < files.len() && file_gives(#[trigger] files[k], filter, node) {
            let k = choose|k: int|
                0 <= k < files.len() && file_gives(#[trigger] files[k], filter, node);
            if k < fewer.len() {
                assert(file_gives(fewer[k], filter, node));
            }
        }
    }
}

/// The same files in another order give the same nodes.
proof fn lemma_same_nodes(
    first: Seq<Document>,
    second: Seq<Document>,
    filter: Seq<GraphQL>,
    node: NodeView,
)
    requires
        first.to_multiset() == second.to_multiset(),
        corpus_nodes(first, filter).contains(node),
    ensures
        corpus_nodes(second, filter).contains(node),
{
    lemma_corpus_contains(first, filter, node);
    lemma_corpus_contains(second, filter, node);
    let k = choose|k: int| 0 <= k < first.len() && file_gives(#[trigger] first[k], filter, node);
    let file = first[k];
    assert(first.contains(file));
    vstd::seq_lib::to_multiset_contains(first, file);
    vstd::seq_lib::to_multiset_contains(second, file);
    let m = choose|m: int| 0 <= m < second.len() && second[m] == file;
    assert(file_gives(second[m], filter, node));
}

/// The same files in another order give nodes with the same ids.
proof fn lemma_same_ids(
    first: Seq<Document>,
    second: Seq<Document>,
    filter: Seq<GraphQL>,
    id: Seq<char>,
)
    requires
        first.to_multiset() == second.to_multiset(),
        resolves(corpus_nodes(first, filter), id),
    ensures
        resolves(corpus_nodes(second, filter), id),
{
    let nodes = corpus_nodes(first, filter);
    let others = corpus_nodes(second, filter);
    let t = choose|t: int| 0 <= t < nodes.len() && (#[trigger] nodes[t]).id == id;
    assert(nodes.contains(nodes[t]));
    lemma_same_nodes(first, second, filter, nodes[t]);
    let u = choose|u: int| 0 <= u < others.len() && others[u] == nodes[t];
    assert(others[u].id == id);
}

/// The same files in another order give edges with the same ids.
proof fn lemma_same_pairs(
    first: Seq<Document>,
    second: Seq<Document>,
    filter: Seq<GraphQL>,
    pair: (Seq<char>, Seq<char>),
)
    requires
        first.to_multiset() == second.to_multiset(),
        exists|p: int|
            0 <= p < corpus_nodes(first, filter).len() && gives_pair(
                #[trigger] corpus_nodes(first, filter)[p],
                corpus_nodes(first, filter),
                pair,
            ),
    ensures
        exists|p: int|
            0 <= p < corpus_nodes(second, filter).len() && gives_pair(
                #[trigger] corpus_nodes(second, filter)[p],
                corpus_nodes(second, filter),
                pair,
            ),
{
    let nodes = corpus_nodes(first, filter);
    let others = corpus_nodes(second, filter);
    let p = choose|p: int| 0 <= p < nodes.len() && gives_pair(#[trigger] nodes[p], nodes, pair);
    let q = choose|q: int| gives_pair_at(nodes[p], q, nodes, pair);
    assert(nodes.contains(nodes[p]));
    lemma_same_nodes(first, second, filter, nodes[p]);
    let u = choose|u: int| 0 <= u < others.len() && others[u] == nodes[p];
    lemma_same_ids(first, second, filter, nodes[p].entity.dependencies[q]);
    assert(gives_pair_at(others[u], q, others, pair));
    assert(gives_pair(others[u], others, pair));
}

/// Building the same files in another order gives the same set of node ids
/// and the same set of edge endpoint ids.
pub proof fn law_rebuild_in_any_order(
    first: Data,
    second: Data,
    first_files: Seq<Document>,
    second_files: Seq<Document>,
    filter: Seq<GraphQL>,
)
    requires
        is_build_of(first, first_files, filter),
        is_build_of(second, second_files, filter),
        first_files.to_multiset() == second_files.to_multiset(),
    ensures
        node_ids(node_views(graph_nodes(first.graph))) == node_ids(
            node_views(graph_nodes(second.graph)),
        ),
        edge_id_pairs(node_views(graph_nodes(first.graph)), graph_edges(first.graph))
            == edge_id_pairs(node_views(graph_nodes(second.graph)), graph_edges(second.graph)),
{
    let nodes = corpus_nodes(first_files, filter);
    let others = corpus_nodes(second_files, filter);
    assert forall|id: Seq<char>| node_ids(nodes).contains(id) <==> node_ids(others).contains(
        id,
    ) by {
        if resolves(nodes, id) {
            lemma_same_ids(first_files, second_files, filter, id);
        }
        if resolves(others, id) {
            lemma_same_ids(second_files, first_files, filter, id);
        }
    }
    assert(node_ids(nodes) =~= node_ids(others));
    let edges = graph_edges(first.graph);
    let other_edges = graph_edges(second.graph);
    assert forall|pair: (Seq<char>, Seq<char>)|
        edge_id_pairs(nodes, edges).contains(pair) <==> edge_id_pairs(
            others,
            other_edges,
        ).contains(pair) by {
        lemma_edge_id_pairs(nodes, edges, pair);
        lemma_edge_id_pairs(others, other_edges, pair);
        if edge_id_pairs(nodes, edges).contains(pair) {
            lemma_same_pairs(first_files, second_files, filter, pair);
        }
        if edge_id_pairs(others, other_edges).contains(pair) {
            lemma_same_pairs(second_files, first_files, filter, pair);
        }
    }
    assert(edge_id_pairs(nodes, edges) =~= edge_id_pairs(others, other_edges));
}

} // verus!
