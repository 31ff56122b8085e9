//! The syntax tree that the analysis reads: an arena of nodes over the text
//! they were parsed from.

use vstd::prelude::*;
use vstd::string::*;

use crate::text::slice_text;
use crate::text::text_between;

verus! {

/// Where a node lies in the text: its byte range, and the zero-based row and
/// column of its first byte.
#[derive(Clone, Copy, Debug, PartialEq, Eq, Structural)]
pub struct Span {
    pub start_byte: usize,
    pub end_byte: usize,
    pub row: usize,
    pub column: usize,
}

impl Span {
    /// The range does not run backwards, and row and column leave room for
    /// the step to one-based counting.
    pub open spec fn valid(self) -> bool {
        &&& self.start_byte <= self.end_byte
        &&& self.row < usize::MAX
        &&& self.column < usize::MAX
    }

    /// Whether the span is [`valid`](Span::valid).
    pub fn is_valid(&self) -> (ok: bool)
        ensures
            ok == self.valid(),
    {
        self.start_byte <= self.end_byte && self.row < usize::MAX && self.column < usize::MAX
    }
}

/// One node of a syntax tree.
pub struct SyntaxNode {
    /// The tag that says what construct the node is.
    pub kind: String,
    /// Where the node lies in the text.
    pub span: Span,
    /// The node above, `None` for the root.
    pub parent: Option<usize>,
    /// The nodes directly below, in the order of the text.
    pub children: Vec<usize>,
    /// The child that stands in the node's `name` field.
    pub name_child: Option<usize>,
}

/// What a [`SyntaxNode`] holds, as mathematics.
pub struct NodeView {
    pub kind: Seq<char>,
    pub span: Span,
    pub parent: Option<usize>,
    pub children: Seq<usize>,
    pub name_child: Option<usize>,
}

impl View for SyntaxNode {
    type V = NodeView;

    open spec fn view(&self) -> NodeView {
        NodeView {
            kind: self.kind@,
            span: self.span,
            parent: self.parent,
            children: self.children@,
            name_child: self.name_child,
        }
    }
}

/// What a [`SyntaxTree`] holds, as mathematics: the text and the nodes, each
/// node known by its index.
pub struct TreeView {
    pub source: Seq<char>,
    pub nodes: Seq<NodeView>,
}

impl TreeView {
    /// Node `i` is sound in itself and agrees with its neighbours.
    pub open spec fn node_wf(self, i: int) -> bool {
        let node = self.nodes[i];
        &&& node.span.valid()
        &&& (i == 0 <==> node.parent is None)
        &&& (node.parent matches Some(p) ==> p < i && self.nodes[p as int].children.contains(
            i as usize,
        ))
        &&& (forall|k: int|
            0 <= k < node.children.len() ==> i < #[trigger] node.children[k] < self.nodes.len()
                && self.nodes[node.children[k] as int].parent == Some(i as usize))
        &&& (forall|j: int, k: int|
            0 <= j < k < node.children.len() ==> node.children[j] < node.children[k])
        &&& (node.name_child matches Some(c) ==> node.children.contains(c))
    }

    /// The nodes form one tree rooted at index 0: every other node has a
    /// parent at a smaller index, parents and children agree, and the
    /// children of a node stand in rising order. Every index fits the
    /// machine's word.
    pub open spec fn wf(self) -> bool {
        &&& self.nodes.len() <= usize::MAX
        &&& forall|i: int| 0 <= i < self.nodes.len() ==> #[trigger] self.node_wf(i)
    }

    /// The text that node `i` covers, where its byte range spells one.
    pub open spec fn text(self, i: int) -> Option<Seq<char>> {
        let span = self.nodes[i].span;
        text_between(self.source, span.start_byte as int, span.end_byte as int)
    }

    /// Whether a node with this parent and span can join the tree: the span
    /// is valid, the parent exists (the first node alone has none), and the
    /// new index still fits.
    pub open spec fn accepts(self, parent: Option<usize>, span: Span) -> bool {
        &&& span.valid()
        &&& self.nodes.len() < usize::MAX
        &&& match parent {
            None => self.nodes.len() == 0,
            Some(p) => p < self.nodes.len(),
        }
    }

    /// The tree with one more node at the next index, hung below `parent`
    /// as its last child. Where `is_name` is set and the parent has no name
    /// child yet, the new node becomes it.
    pub open spec fn with_node(
        self,
        parent: Option<usize>,
        kind: Seq<char>,
        span: Span,
        is_name: bool,
    ) -> TreeView {
        let index = self.nodes.len() as usize;
        let node = NodeView {
            kind,
            span,
            parent,
            children: Seq::<usize>::empty(),
            name_child: None,
        };
        let below = match parent {
            None => self.nodes,
            Some(p) => {
                let above = self.nodes[p as int];
                self.nodes.update(
                    p as int,
                    NodeView {
                        children: above.children.push(index),
                        name_child: if is_name && above.name_child is None {
                            Some(index)
                        } else {
                            above.name_child
                        },
                        ..above
                    },
                )
            },
        };
        TreeView { source: self.source, nodes: below.push(node) }
    }
}

/// A syntax tree: the text, and an arena of nodes over it.
///
/// Node 0 is the root. A node is added below one that is already there, so
/// a parent always has a smaller index than its children.
pub struct SyntaxTree {
    source: String,
    nodes: Vec<SyntaxNode>,
}

impl View for SyntaxTree {
    type V = TreeView;

    closed spec fn view(&self) -> TreeView {
        TreeView { source: self.source@, nodes: self.nodes@.map_values(|n: SyntaxNode| n@) }
    }
}

impl SyntaxTree {
    /// The tree is well formed, see [`TreeView::wf`].
    pub open spec fn wf(&self) -> bool {
        self@.wf()
    }

    /// A tree over `source` that has no node yet.
    pub fn new(source: &str) -> (tree: SyntaxTree)
        ensures
            tree.wf(),
            tree@.source == source@,
            tree@.nodes.len() == 0,
    {
        SyntaxTree { source: String::from_str(source), nodes: Vec::new() }
    }

    /// The number of nodes.
    pub fn len(&self) -> (n: usize)
        ensures
            n == self@.nodes.len(),
    {
        self.nodes.len()
    }

    /// The text that the tree was parsed from.
    pub fn source(&self) -> (source: &str)
        ensures
            source@ == self@.source,
    {
        self.source.as_str()
    }

    /// Node `i`.
    pub fn node(&self, i: usize) -> (node: &SyntaxNode)
        requires
            i < self@.nodes.len(),
        ensures
            node@ == self@.nodes[i as int],
    {
        &self.nodes[i]
    }

    /// The text that node `i` covers, where its byte range spells one.
    pub fn text(&self, i: usize) -> (text: Option<&str>)
        requires
            i < self@.nodes.len(),
        ensures
            match text {
                Some(t) => self@.text(i as int) == Some(t@),
                None => self@.text(i as int) is None,
            },
    {
        let span = self.nodes[i].span;
        slice_text(self.source.as_str(), span.start_byte, span.end_byte)
    }

    /// Adds a node below `parent` as its last child and returns its index.
    ///
    /// The first node of a tree is its root and has no parent; every other
    /// node names a parent that is already in the tree. A node that the tree
    /// does not [accept](TreeView::accepts) is left out and `None` is
    /// returned.
    pub fn add_node(&mut self, parent: Option<usize>, kind: &str, span: Span, is_name: bool) -> (added:
        Option<usize>)
        requires
            old(self).wf(),
        ensures
            final(self).wf(),
            match added {
                Some(index) => {
                    &&& old(self)@.accepts(parent, span)
                    &&& index == old(self)@.nodes.len()
                    &&& final(self)@ == old(self)@.with_node(parent, kind@, span, is_name)
                },
                None => !old(self)@.accepts(parent, span) && final(self)@ == old(self)@,
            },
    {
        if !span.is_valid() || self.nodes.len() == usize::MAX {
            return None;
        }
        let index: usize = self.nodes.len();
        match parent {
            None => {
                if index != 0 {
                    return None;
                }
            },
            Some(p) => {
                if p >= index {
                    return None;
                }
                self.nodes[p].children.push(index);
                if is_name && self.nodes[p].name_child.is_none() {
                    self.nodes[p].name_child = Some(index);
                }
            },
        }
        self.nodes.push(
            SyntaxNode {
                kind: String::from_str(kind),
                span,
                parent,
                children: Vec::new(),
                name_child: None,
            },
        );
        proof {
            let before = old(self)@;
            let after = self@;
            let expected = before.with_node(parent, kind@, span, is_name);
            assert(after.nodes =~= expected.nodes);
            lemma_with_node_wf(before, parent, kind@, span, is_name);
        }
        Some(index)
    }
}

/// Adding an accepted node keeps a tree well formed.
pub proof fn lemma_with_node_wf(
    tree: TreeView,
    parent: Option<usize>,
    kind: Seq<char>,
    span: Span,
    is_name: bool,
)
    requires
        tree.wf(),
        tree.accepts(parent, span),
    ensures
        tree.with_node(parent, kind, span, is_name).wf(),
{
    let grown = tree.with_node(parent, kind, span, is_name);
    let index = tree.nodes.len() as usize;
    assert forall|i: int| 0 <= i < grown.nodes.len() implies #[trigger] grown.node_wf(i) by {
        let node = grown.nodes[i];
        if i < index {
            assert(tree.node_wf(i));
            let was = tree.nodes[i];
            assert forall|k: int| 0 <= k < node.children.len() implies i
                < #[trigger] node.children[k] < grown.nodes.len() && grown.nodes[node.children[k] as int].parent
                == Some(i as usize) by {
                if k < was.children.len() {
                    assert(node.children[k] == was.children[k]);
                }
            }
            if let Some(q) = node.parent {
                let at: int = choose|at: int|
                    0 <= at < tree.nodes[q as int].children.len() && tree.nodes[q as int].children[at]
                        == i as usize;
                assert(grown.nodes[q as int].children[at] == i as usize);
            }
            if let Some(c) = node.name_child {
                if was.name_child == Some(c) {
                    let at: int = choose|at: int|
                        0 <= at < was.children.len() && was.children[at] == c;
                    assert(node.children[at] == c);
                } else {
                    assert(node.children[node.children.len() - 1] == c);
                }
            }
        } else {
            if let Some(p) = parent {
                let above = grown.nodes[p as int];
                assert(above.children[above.children.len() - 1] == index);
            }
        }
    }
}

} // verus!
