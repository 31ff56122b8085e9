//! The declarations as a graph: a root, below it one node for each
//! declaration, and below each declaration one node for each reference.
//!
//! The graph writes out what the registry holds and nothing more. It has no
//! node for a scope: the scope of a declaration or of a reference is an
//! attribute of its node, and an edge says which declaration a node
//! belongs to, not which scope it stands in.

use vstd::prelude::*;
use vstd::string::*;

use crate::registry::Declaration;
use crate::registry::DeclarationView;
use crate::registry::ReferenceView;
use crate::registry::Registry;
use crate::location::Location;
use crate::text::decimal;
use crate::text::decimal_spec;

verus! {

/// `tree_sitter_graph::graph::Graph`. What it holds is known through
/// [`graph_attributes`] and [`graph_edges`] alone.
#[verifier::external_type_specification]
#[verifier::external_body]
pub struct ExGraph<'tree>(tree_sitter_graph::graph::Graph<'tree>);

/// The attributes of one graph node that hold a string, by name.
pub type Attributes = Map<Seq<char>, Seq<char>>;

/// For each node of the graph, in the order in which the nodes were added,
/// the attributes of the node that hold a string.
pub uninterp spec fn graph_attributes(graph: tree_sitter_graph::graph::Graph) -> Seq<Attributes>;

/// For each node of the graph, the indices of the nodes that it has an edge
/// to.
pub uninterp spec fn graph_edges(graph: tree_sitter_graph::graph::Graph) -> Seq<Set<int>>;

/// The most nodes that a graph can number.
pub open spec fn node_limit() -> int {
    0xffff_ffff
}

/// `attributes` with `value` under `name` at node `node`.
pub open spec fn with_attribute(
    attributes: Seq<Attributes>,
    node: int,
    name: Seq<char>,
    value: Seq<char>,
) -> Seq<Attributes> {
    attributes.update(node, attributes[node].insert(name, value))
}

/// `edges` with an edge from `source` to `sink`.
pub open spec fn with_edge(edges: Seq<Set<int>>, source: int, sink: int) -> Seq<Set<int>> {
    edges.update(source, edges[source].insert(sink))
}

/// `tree_sitter_graph::graph::Graph::new` makes a graph without nodes.
#[verifier::external_body]
fn new_graph() -> (graph: tree_sitter_graph::graph::Graph<'static>)
    ensures
        graph_attributes(graph).len() == 0,
        graph_edges(graph).len() == 0,
{
    tree_sitter_graph::graph::Graph::new()
}

/// `tree_sitter_graph::graph::Graph::add_graph_node` adds a node that has
/// no attribute and no edge, and numbers it by the count of the nodes
/// before it. The number is kept in 32 bits, so the graph must be below
/// that count.
#[verifier::external_body]
fn add_graph_node(graph: &mut tree_sitter_graph::graph::Graph<'static>) -> (index: usize)
    requires
        graph_attributes(*old(graph)).len() < node_limit(),
    ensures
        index == graph_attributes(*old(graph)).len(),
        graph_attributes(*final(graph)) == graph_attributes(*old(graph)).push(Map::empty()),
        graph_edges(*final(graph)) == graph_edges(*old(graph)).push(Set::empty()),
{
    graph.add_graph_node().index()
}

/// `tree_sitter_graph::graph::Attributes::add` on the attributes of one
/// node, reached through `Graph::iter_nodes` and the graph's index
/// operator: afterwards the node holds the string under the name, whether
/// or not it held a value there before. Nothing else changes.
#[verifier::external_body]
fn set_attribute(
    graph: &mut tree_sitter_graph::graph::Graph<'static>,
    node: usize,
    name: &str,
    value: &str,
)
    requires
        node < graph_attributes(*old(graph)).len() <= node_limit(),
    ensures
        graph_attributes(*final(graph)) == with_attribute(
            graph_attributes(*old(graph)),
            node as int,
            name@,
            value@,
        ),
        graph_edges(*final(graph)) == graph_edges(*old(graph)),
{
    let target = graph.iter_nodes().nth(node).unwrap();
    let key = tree_sitter_graph::Identifier::from(name);
    graph[target].attributes.add(key, tree_sitter_graph::graph::Value::from(value)).ok();
}

/// `tree_sitter_graph::graph::GraphNode::add_edge` on one node, reached
/// through `Graph::iter_nodes` and the graph's index operator: afterwards
/// the node has an edge to the sink, whether or not it had one before.
/// Nothing else changes.
#[verifier::external_body]
fn add_edge(graph: &mut tree_sitter_graph::graph::Graph<'static>, source: usize, sink: usize)
    requires
        source < graph_attributes(*old(graph)).len() <= node_limit(),
        sink < graph_attributes(*old(graph)).len(),
    ensures
        graph_edges(*final(graph)) == with_edge(
            graph_edges(*old(graph)),
            source as int,
            sink as int,
        ),
        graph_attributes(*final(graph)) == graph_attributes(*old(graph)),
{
    let from = graph.iter_nodes().nth(source).unwrap();
    let to = graph.iter_nodes().nth(sink).unwrap();
    graph[from].add_edge(to).ok();
}

/// The attributes of the root node.
pub open spec fn root_attributes() -> Attributes {
    Map::<Seq<char>, Seq<char>>::empty().insert("type"@, "root"@)
}

/// A location as an attribute: line and column with a comma between them.
pub open spec fn position_text(location: Location) -> Seq<char> {
    decimal_spec(location.line as nat) + ","@ + decimal_spec(location.column as nat)
}

/// The attributes of a node that stands for a declaration or a reference.
pub open spec fn entry_attributes(
    kind: Seq<char>,
    name: Seq<char>,
    scope: Seq<char>,
    location: Location,
) -> Attributes {
    Map::<Seq<char>, Seq<char>>::empty().insert("type"@, kind).insert("name"@, name).insert(
        "scope"@,
        scope,
    ).insert("position"@, position_text(location))
}

/// The attributes of the node of a declaration.
pub open spec fn declaration_attributes(d: DeclarationView) -> Attributes {
    entry_attributes("declaration"@, d.name, d.scope, d.location)
}

/// The attributes of the node of a reference to `name`.
pub open spec fn reference_attributes(name: Seq<char>, r: ReferenceView) -> Attributes {
    entry_attributes("reference"@, name, r.context, r.location)
}

/// The nodes that one declaration adds: its own, then one for each of its
/// references.
pub open spec fn declaration_nodes(d: DeclarationView) -> Seq<Attributes> {
    seq![declaration_attributes(d)] + d.references.map_values(
        |r: ReferenceView| reference_attributes(d.name, r),
    )
}

/// The nodes of the graph of `decls`: the root, then the nodes of each
/// declaration in turn.
pub open spec fn graph_nodes(decls: Seq<DeclarationView>) -> Seq<Attributes>
    decreases decls.len(),
{
    if decls.len() == 0 {
        seq![root_attributes()]
    } else {
        graph_nodes(decls.drop_last()) + declaration_nodes(decls.last())
    }
}

/// The edges that leave the nodes of one declaration whose own node has
/// the index `base`: from the declaration to the first `count` nodes behind
/// it, and none from those.
pub open spec fn declaration_links(base: int, count: int) -> Seq<Set<int>> {
    seq![Set::new(|k: int| base < k <= base + count)] + Seq::new(
        count as nat,
        |i: int| Set::<int>::empty(),
    )
}

/// The edges of the graph of `decls`: from the root to each declaration,
/// and from each declaration to its references.
pub open spec fn graph_links(decls: Seq<DeclarationView>) -> Seq<Set<int>>
    decreases decls.len(),
{
    if decls.len() == 0 {
        seq![Set::<int>::empty()]
    } else {
        let before = graph_links(decls.drop_last());
        with_edge(before, 0, before.len() as int) + declaration_links(
            before.len() as int,
            decls.last().references.len() as int,
        )
    }
}

/// The graph of `decls` has as many edge sets as nodes, and at least the
/// root.
pub proof fn lemma_graph_sizes(decls: Seq<DeclarationView>)
    ensures
        graph_nodes(decls).len() == graph_links(decls).len(),
        graph_nodes(decls).len() >= 1,
    decreases decls.len(),
{
    if decls.len() > 0 {
        lemma_graph_sizes(decls.drop_last());
    }
}

/// The graph of the first declarations is no larger than the graph of all.
pub proof fn lemma_graph_grows(decls: Seq<DeclarationView>, i: int)
    requires
        0 <= i <= decls.len(),
    ensures
        graph_nodes(decls.take(i)).len() <= graph_nodes(decls).len(),
        i < decls.len() ==> graph_nodes(decls.take(i)).len() + declaration_nodes(decls[i]).len()
            <= graph_nodes(decls).len(),
    decreases decls.len() - i,
{
    if i == decls.len() {
        assert(decls.take(i) =~= decls);
    } else {
        lemma_graph_grows(decls, i + 1);
        let upto = decls.take(i + 1);
        assert(upto.drop_last() =~= decls.take(i));
        assert(upto.last() == decls[i]);
    }
}

/// Writes a location as an attribute.
fn position_attribute(location: Location) -> (text: String)
    ensures
        text@ == position_text(location),
{
    let mut text = decimal(location.line);
    text.append(",");
    text.append(decimal(location.column).as_str());
    text
}

/// Adds the node of a declaration or a reference.
fn add_entry(
    graph: &mut tree_sitter_graph::graph::Graph<'static>,
    kind: &str,
    name: &str,
    scope: &str,
    location: Location,
) -> (index: usize)
    requires
        graph_attributes(*old(graph)).len() < node_limit(),
    ensures
        index == graph_attributes(*old(graph)).len(),
        graph_attributes(*final(graph)) == graph_attributes(*old(graph)).push(
            entry_attributes(kind@, name@, scope@, location),
        ),
        graph_edges(*final(graph)) == graph_edges(*old(graph)).push(Set::<int>::empty()),
{
    let index = add_graph_node(graph);
    set_attribute(graph, index, "type", kind);
    set_attribute(graph, index, "name", name);
    set_attribute(graph, index, "scope", scope);
    let position = position_attribute(location);
    set_attribute(graph, index, "position", position.as_str());
    proof {
        assert(graph_attributes(*graph) =~= graph_attributes(*old(graph)).push(
            entry_attributes(kind@, name@, scope@, location),
        ));
    }
    index
}

/// Builds the graph of the declarations of `registry`, or nothing where
/// the graph would need more nodes than it can number.
pub fn build_graph(registry: &Registry) -> (built: Option<tree_sitter_graph::graph::Graph<'static>>)
    ensures
        match built {
            Some(graph) => {
                &&& graph_attributes(graph) == graph_nodes(registry@)
                &&& graph_edges(graph) == graph_links(registry@)
            },
            None => graph_nodes(registry@).len() > node_limit(),
        },
{
    let all = registry.enumerate_all();
    let ghost decls = registry@;
    let mut graph = new_graph();
    let root = add_graph_node(&mut graph);
    set_attribute(&mut graph, root, "type", "root");
    let mut size: usize = 1;
    proof {
        assert(decls.take(0) =~= Seq::<DeclarationView>::empty());
        assert(graph_attributes(graph) =~= graph_nodes(decls.take(0)));
        assert(graph_edges(graph) =~~= graph_links(decls.take(0)));
    }
    let mut i: usize = 0;
    while i < all.len()
        invariant
            i <= all.len(),
            decls == registry@,
            decls == all@.map_values(|d: Declaration| d@),
            graph_attributes(graph) == graph_nodes(decls.take(i as int)),
            graph_edges(graph) == graph_links(decls.take(i as int)),
            size == graph_attributes(graph).len() <= node_limit(),
        decreases all.len() - i,
    {
        let declaration = &all[i];
        let ghost d = declaration@;
        let ghost nodes_before = graph_attributes(graph);
        let ghost links_before = graph_edges(graph);
        let ghost told = d.references.map_values(|r: ReferenceView| reference_attributes(d.name, r));
        proof {
            assert(decls[i as int] == d);
            lemma_graph_sizes(decls.take(i as int));
            lemma_graph_grows(decls, i as int);
            assert(declaration_nodes(d).len() == 1 + d.references.len());
        }
        if size >= 0xffff_ffff {
            return None;
        }
        let base = add_entry(
            &mut graph,
            "declaration",
            declaration.name.as_str(),
            declaration.scope.as_str(),
            declaration.location,
        );
        add_edge(&mut graph, 0, base);
        size += 1;
        proof {
            assert(graph_attributes(graph) =~= nodes_before + (seq![declaration_attributes(d)]
                + told.take(0)));
            assert(graph_edges(graph) =~~= with_edge(links_before, 0, base as int)
                + declaration_links(base as int, 0));
        }
        let mut k: usize = 0;
        while k < declaration.references.len()
            invariant
                k <= declaration.references.len(),
                decls == registry@,
                d == declaration@,
                told == d.references.map_values(|r: ReferenceView| reference_attributes(d.name, r)),
                base == nodes_before.len() == links_before.len(),
                base >= 1,
                graph_attributes(graph) == nodes_before + (seq![declaration_attributes(d)]
                    + told.take(k as int)),
                graph_edges(graph) == with_edge(links_before, 0, base as int) + declaration_links(
                    base as int,
                    k as int,
                ),
                size == base + 1 + k,
                size <= node_limit(),
                nodes_before.len() + declaration_nodes(d).len() <= graph_nodes(decls).len(),
                declaration_nodes(d).len() == 1 + d.references.len(),
                d.references.len() == declaration.references.len(),
            decreases declaration.references.len() - k,
        {
            let reference = &declaration.references[k];
            let ghost nodes_now = graph_attributes(graph);
            let ghost links_now = graph_edges(graph);
            proof {
                assert(d.references[k as int] == reference@);
            }
            if size >= 0xffff_ffff {
                return None;
            }
            let index = add_entry(
                &mut graph,
                "reference",
                declaration.name.as_str(),
                reference.context.as_str(),
                reference.location,
            );
            add_edge(&mut graph, base, index);
            size += 1;
            proof {
                assert(told[k as int] == reference_attributes(d.name, reference@));
                assert(told.take(k + 1) =~= told.take(k as int).push(told[k as int]));
                assert(graph_attributes(graph) =~= nodes_before + (seq![declaration_attributes(d)]
                    + told.take(k + 1)));
                assert(graph_edges(graph) =~~= with_edge(links_before, 0, base as int)
                    + declaration_links(base as int, k + 1));
            }
            k += 1;
        }
        proof {
            assert(told.take(k as int) =~= told);
            let upto = decls.take(i + 1);
            assert(upto.drop_last() =~= decls.take(i as int));
            assert(upto.last() == d);
        }
        i += 1;
    }
    proof {
        assert(decls.take(i as int) =~= decls);
    }
    Some(graph)
}

} // verus!
