//! The tracker: analyzes one source text and answers queries about the
//! variables it declares.

use vstd::prelude::*;

use crate::graph::build_graph;
use crate::graph::graph_attributes;
use crate::graph::graph_edges;
use crate::graph::graph_links;
use crate::graph::graph_nodes;
use crate::graph::node_limit;
use crate::lineage::full_lineage;
use crate::lineage::lineage_spec;
use crate::lineage::report_lines;
use crate::lineage::report_spec;
use crate::parse::parse_outcome;
use crate::parse::parse_source;
use crate::parse::ParseError;
use crate::registry::unique_names;
use crate::registry::DeclarationView;
use crate::registry::Registry;
use crate::tree::SyntaxTree;
use crate::walker::walk;
use crate::walker::walk_spec;

verus! {

/// What the analysis of a text comes to: the walk over the tree of the
/// text, or the error that parsing ends in.
pub open spec fn analysis_outcome(source: Seq<char>) -> Result<Seq<DeclarationView>, ParseError> {
    match parse_outcome(source) {
        Ok(tree) => Ok(walk_spec(tree)),
        Err(error) => Err(error),
    }
}

/// An analysis of `source` that started from the declarations `before`
/// ended in `done` and left the declarations `after`.
pub open spec fn analyzed(
    source: Seq<char>,
    before: Seq<DeclarationView>,
    after: Seq<DeclarationView>,
    done: Result<(), ParseError>,
) -> bool {
    match analysis_outcome(source) {
        Ok(found) => done is Ok && after == found,
        Err(error) => done == Err::<(), ParseError>(error) && after == before,
    }
}

/// Tracks the variables of one source text: where each is declared and
/// where it is mentioned.
pub struct DataLineageTracker {
    registry: Registry,
}

impl View for DataLineageTracker {
    type V = Seq<DeclarationView>;

    closed spec fn view(&self) -> Seq<DeclarationView> {
        self.registry@
    }
}

impl DataLineageTracker {
    /// No two of the tracked declarations share a name.
    pub open spec fn wf(&self) -> bool {
        unique_names(self@)
    }

    /// A tracker that has analyzed nothing yet.
    pub fn new() -> (tracker: DataLineageTracker)
        ensures
            tracker.wf(),
            tracker@.len() == 0,
    {
        DataLineageTracker { registry: Registry::new() }
    }

    /// Analyzes a syntax tree. What an earlier analysis found is forgotten.
    pub fn analyze_tree(&mut self, tree: &SyntaxTree)
        requires
            tree.wf(),
        ensures
            final(self).wf(),
            final(self)@ == walk_spec(tree@),
    {
        self.registry = walk(tree);
    }

    /// Parses `source` as JavaScript and analyzes the tree.
    ///
    /// Where the text parses, what an earlier analysis found is forgotten
    /// and the walk over the tree of the text takes its place. Where it
    /// does not, the error says why and the tracker keeps what it had.
    pub fn analyze_source(&mut self, source: &str) -> (done: Result<(), ParseError>)
        ensures
            analyzed(source@, old(self)@, final(self)@, done),
            done is Ok ==> final(self).wf(),
    {
        match parse_source(source) {
            Ok(tree) => {
                self.analyze_tree(&tree);
                Ok(())
            },
            Err(error) => Err(error),
        }
    }

    /// The declarations that the last analysis found.
    pub fn registry(&self) -> (registry: &Registry)
        ensures
            registry@ == self@,
    {
        &self.registry
    }

    /// The lineage of a variable: the line `Declared in scope: ..`, then a
    /// line `Referenced in scope: ..` for each recorded reference, in their
    /// order. A name that is not declared gives no line.
    pub fn get_full_lineage(&self, variable_name: &str) -> (lines: Vec<String>)
        ensures
            lines.deep_view() == lineage_spec(self@, variable_name@),
    {
        full_lineage(&self.registry, variable_name)
    }

    /// The declarations as a graph, or nothing where the graph would need
    /// more nodes than it can number.
    pub fn to_graph(&self) -> (built: Option<tree_sitter_graph::graph::Graph<'static>>)
        ensures
            match built {
                Some(graph) => {
                    &&& graph_attributes(graph) == graph_nodes(self@)
                    &&& graph_edges(graph) == graph_links(self@)
                },
                None => graph_nodes(self@).len() > node_limit(),
            },
    {
        build_graph(&self.registry)
    }

    /// The lines of the report over all declarations.
    pub fn lineage_report(&self) -> (lines: Vec<String>)
        ensures
            lines.deep_view() == report_spec(self@),
    {
        report_lines(&self.registry)
    }
}

} // verus!
