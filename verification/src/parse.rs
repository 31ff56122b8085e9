//! The JavaScript front end: tree-sitter parses the text, and the tree it
//! returns is copied node by node into a [`SyntaxTree`].

use vstd::prelude::*;

use crate::tree::lemma_with_node_wf;
use crate::tree::Span;
use crate::tree::SyntaxTree;
use crate::tree::TreeView;

verus! {

/// `tree_sitter::Parser`, carried through as it is.
#[verifier::external_type_specification]
#[verifier::external_body]
pub struct ExParser(tree_sitter::Parser);

/// `tree_sitter::Language`, carried through as it is.
#[verifier::external_type_specification]
#[verifier::external_body]
pub struct ExLanguage(tree_sitter::Language);

/// `tree_sitter::LanguageError`, carried through as it is.
#[verifier::external_type_specification]
#[verifier::external_body]
pub struct ExLanguageError(tree_sitter::LanguageError);

/// `tree_sitter::Tree`, carried through as it is.
#[verifier::external_type_specification]
#[verifier::external_body]
pub struct ExTree(tree_sitter::Tree);

/// `tree_sitter::Node`, carried through as it is.
#[verifier::external_type_specification]
#[verifier::external_body]
pub struct ExNode<'tree>(tree_sitter::Node<'tree>);

/// What the parser says of one node and of everything below it.
pub struct ShapeView {
    /// The node's tag.
    pub kind: Seq<char>,
    /// The node's byte range, and the row and column of its first byte.
    pub span: Span,
    /// Whether the node is a syntax error or holds one.
    pub has_error: bool,
    /// The span of the child in the node's `name` field.
    pub name: Option<Span>,
    /// The children, in the order of the text.
    pub children: Seq<ShapeView>,
}

/// The tree that a parser which reads JavaScript, and has neither a limit
/// set nor an earlier tree to reuse, gives for a text; nothing where it
/// gives none.
pub uninterp spec fn javascript_shape(source: Seq<char>) -> Option<ShapeView>;

/// The root of a parsed tree with everything below it.
pub uninterp spec fn tree_shape(tree: tree_sitter::Tree) -> ShapeView;

/// A node of a parsed tree with everything below it.
pub uninterp spec fn node_shape(node: tree_sitter::Node) -> ShapeView;

/// The version of the parser generator that a grammar was made with.
pub uninterp spec fn language_version(language: tree_sitter::Language) -> int;

/// Whether a grammar is the JavaScript grammar.
pub uninterp spec fn is_javascript(language: tree_sitter::Language) -> bool;

/// Whether a parser is as `tree_sitter::Parser::new` makes it: without a
/// grammar, a timeout, a cancellation flag or ranges to keep to.
pub uninterp spec fn parser_is_fresh(parser: tree_sitter::Parser) -> bool;

/// Whether a parser holds the JavaScript grammar and is otherwise as
/// `tree_sitter::Parser::new` makes it.
pub uninterp spec fn parser_reads_javascript(parser: tree_sitter::Parser) -> bool;

/// `tree_sitter::Parser::new` makes a parser that has no grammar and no
/// limit yet.
pub assume_specification[ tree_sitter::Parser::new ]() -> (parser: tree_sitter::Parser)
    ensures
        parser_is_fresh(parser),
;

/// `tree_sitter_javascript::language` hands out the JavaScript grammar,
/// which was made with version 14 of the parser generator.
pub assume_specification[ tree_sitter_javascript::language ]() -> (language: tree_sitter::Language)
    ensures
        is_javascript(language),
        language_version(language) == 14,
;

/// `tree_sitter::Parser::set_language` takes a grammar of version 13 or 14
/// and refuses every other. A fresh parser that took the JavaScript
/// grammar reads JavaScript.
pub assume_specification[ tree_sitter::Parser::set_language ](
    parser: &mut tree_sitter::Parser,
    language: tree_sitter::Language,
) -> (set: Result<(), tree_sitter::LanguageError>)
    ensures
        set is Ok <==> 13 <= language_version(language) <= 14,
        set is Ok && parser_is_fresh(*old(parser)) && is_javascript(language)
            ==> parser_reads_javascript(*final(parser)),
;

/// `tree_sitter::Tree::root_node` is the root of a parsed tree.
pub assume_specification<'a>[ tree_sitter::Tree::root_node ](tree: &'a tree_sitter::Tree) -> (root:
    tree_sitter::Node<'a>)
    ensures
        node_shape(root) == tree_shape(*tree),
;

/// `tree_sitter::Node::kind` is the node's tag.
pub assume_specification<'tree>[ tree_sitter::Node::<'tree>::kind ](
    node: &tree_sitter::Node<'tree>,
) -> (kind: &'static str)
    ensures
        kind@ == node_shape(*node).kind,
;

/// `tree_sitter::Node::has_error` says whether the node is a syntax error
/// or holds one.
pub assume_specification<'tree>[ tree_sitter::Node::<'tree>::has_error ](
    node: &tree_sitter::Node<'tree>,
) -> (broken: bool)
    ensures
        broken == node_shape(*node).has_error,
;

/// `tree_sitter::Node::start_byte` is the offset of the node's first byte.
pub assume_specification<'tree>[ tree_sitter::Node::<'tree>::start_byte ](
    node: &tree_sitter::Node<'tree>,
) -> (offset: usize)
    ensures
        offset == node_shape(*node).span.start_byte,
;

/// `tree_sitter::Node::end_byte` is the offset behind the node's last byte.
pub assume_specification<'tree>[ tree_sitter::Node::<'tree>::end_byte ](
    node: &tree_sitter::Node<'tree>,
) -> (offset: usize)
    ensures
        offset == node_shape(*node).span.end_byte,
;

/// `tree_sitter::Parser::parse` on a whole text, with no earlier tree to
/// reuse. A parser that reads JavaScript gives the tree of the text, or
/// nothing where the text has none.
#[verifier::external_body]
fn parse_text(parser: &mut tree_sitter::Parser, text: &str) -> (parsed: Option<tree_sitter::Tree>)
    ensures
        parser_reads_javascript(*old(parser)) && parsed is None ==> javascript_shape(text@) is None,
        parser_reads_javascript(*old(parser)) && parsed is Some ==> javascript_shape(text@) == Some(
            tree_shape(parsed->0),
        ),
{
    parser.parse(text, None)
}

/// `tree_sitter::Node::start_position`, as row and column, both counted
/// from zero.
#[verifier::external_body]
fn node_start<'tree>(node: &tree_sitter::Node<'tree>) -> (start: (usize, usize))
    ensures
        start.0 == node_shape(*node).span.row,
        start.1 == node_shape(*node).span.column,
{
    let point = node.start_position();
    (point.row, point.column)
}

/// `tree_sitter::Node::children`, collected in their order, over a cursor
/// from `tree_sitter::Node::walk`.
#[verifier::external_body]
fn node_children<'tree>(node: &tree_sitter::Node<'tree>) -> (children: Vec<tree_sitter::Node<'tree>>)
    ensures
        children@.len() == node_shape(*node).children.len(),
        forall|k: int|
            0 <= k < children@.len() ==> node_shape(#[trigger] children@[k]) == node_shape(
                *node,
            ).children[k],
{
    let mut cursor = node.walk();
    node.children(&mut cursor).collect()
}

/// `tree_sitter::Node::child_by_field_name`: the first child that stands in
/// the given field, if there is one. For the field `name` that is the child
/// whose span the node's shape holds as its name.
#[verifier::external_body]
fn node_field<'tree>(node: &tree_sitter::Node<'tree>, field: &str) -> (child: Option<
    tree_sitter::Node<'tree>,
>)
    ensures
        field@ == "name"@ && child is None ==> node_shape(*node).name is None,
        field@ == "name"@ && child is Some ==> node_shape(*node).name == Some(
            node_shape(child->0).span,
        ),
{
    node.child_by_field_name(field)
}

/// Why a text could not be turned into a syntax tree.
#[derive(Clone, Copy, Debug, PartialEq, Eq, Structural)]
pub enum ParseError {
    /// The parser refused the grammar.
    IncompatibleGrammar,
    /// The parser returned no tree.
    ParseFailed,
    /// The parser's tree held a node that a [`SyntaxTree`] does not accept.
    MalformedTree,
}

impl ParseError {
    /// What went wrong, in words.
    pub open spec fn message_spec(self) -> Seq<char> {
        match self {
            ParseError::IncompatibleGrammar => "Incompatible language version"@,
            ParseError::ParseFailed => "Failed to parse source code"@,
            ParseError::MalformedTree => "Malformed syntax tree"@,
        }
    }

    /// Says what went wrong.
    pub fn message(&self) -> (text: &'static str)
        ensures
            text@ == self.message_spec(),
    {
        match self {
            ParseError::IncompatibleGrammar => "Incompatible language version",
            ParseError::ParseFailed => "Failed to parse source code",
            ParseError::MalformedTree => "Malformed syntax tree",
        }
    }
}

/// The span of a node that covers the bytes from `start_byte` to `end_byte`
/// and starts at the row and column of `start`.
fn span_of(start_byte: usize, end_byte: usize, start: (usize, usize)) -> (span: Span)
    ensures
        span == (Span { start_byte, end_byte, row: start.0, column: start.1 }),
{
    Span { start_byte, end_byte, row: start.0, column: start.1 }
}

/// `tree` after the node of `shape` and everything below it is added below
/// `parent`, each node before its children and the children in their
/// order; nothing where the tree does not accept one of the nodes.
pub open spec fn grown(
    tree: TreeView,
    parent: Option<usize>,
    shape: ShapeView,
    is_name: bool,
) -> Option<TreeView>
    decreases shape, 0nat,
{
    if tree.accepts(parent, shape.span) {
        grown_children(
            tree.with_node(parent, shape.kind, shape.span, is_name),
            tree.nodes.len() as usize,
            shape.name,
            shape.children,
            0,
        )
    } else {
        None
    }
}

/// `tree` after `children` from the `k`-th on are added below `parent`, one
/// after the other. A child whose span is `name` is added as a name child.
pub open spec fn grown_children(
    tree: TreeView,
    parent: usize,
    name: Option<Span>,
    children: Seq<ShapeView>,
    k: int,
) -> Option<TreeView>
    decreases children, children.len() - k,
{
    if 0 <= k < children.len() {
        match grown(tree, Some(parent), children[k], name == Some(children[k].span)) {
            Some(next) => grown_children(next, parent, name, children, k + 1),
            None => None,
        }
    } else {
        Some(tree)
    }
}

/// The syntax tree over `source` that holds the nodes of `shape`, each
/// node before its children; nothing where a node has a span that is not
/// valid, or the nodes are more than can be numbered.
pub open spec fn flattened(source: Seq<char>, shape: ShapeView) -> Option<TreeView> {
    grown(TreeView { source, nodes: Seq::<crate::tree::NodeView>::empty() }, None, shape, false)
}

/// What parsing a text comes to. A text for which the parser gives no
/// tree, or a tree with a syntax error in it, fails to parse. A tree that
/// does not fit a [`SyntaxTree`] is malformed. Every other text gives the
/// flattened tree.
pub open spec fn parse_outcome(source: Seq<char>) -> Result<TreeView, ParseError> {
    match javascript_shape(source) {
        None => Err(ParseError::ParseFailed),
        Some(shape) => if shape.has_error {
            Err(ParseError::ParseFailed)
        } else {
            match flattened(source, shape) {
                Some(tree) => Ok(tree),
                None => Err(ParseError::MalformedTree),
            }
        },
    }
}

/// Growing a well-formed tree leaves it well formed, over the same text,
/// and larger.
pub proof fn lemma_grown_is_well_formed(
    tree: TreeView,
    parent: Option<usize>,
    shape: ShapeView,
    is_name: bool,
)
    requires
        tree.wf(),
    ensures
        grown(tree, parent, shape, is_name) matches Some(after) ==> after.wf() && after.source
            == tree.source && after.nodes.len() > tree.nodes.len(),
    decreases shape, 0nat,
{
    if tree.accepts(parent, shape.span) {
        lemma_with_node_wf(tree, parent, shape.kind, shape.span, is_name);
        lemma_grown_children_is_well_formed(
            tree.with_node(parent, shape.kind, shape.span, is_name),
            tree.nodes.len() as usize,
            shape.name,
            shape.children,
            0,
        );
    }
}

/// Growing a well-formed tree by children leaves it well formed, over the
/// same text, and no smaller.
pub proof fn lemma_grown_children_is_well_formed(
    tree: TreeView,
    parent: usize,
    name: Option<Span>,
    children: Seq<ShapeView>,
    k: int,
)
    requires
        tree.wf(),
    ensures
        grown_children(tree, parent, name, children, k) matches Some(after) ==> after.wf()
            && after.source == tree.source && after.nodes.len() >= tree.nodes.len(),
    decreases children, children.len() - k,
{
    if 0 <= k < children.len() {
        let is_name = name == Some(children[k].span);
        lemma_grown_is_well_formed(tree, Some(parent), children[k], is_name);
        match grown(tree, Some(parent), children[k], is_name) {
            Some(next) => {
                lemma_grown_children_is_well_formed(next, parent, name, children, k + 1);
            },
            None => {},
        }
    }
}

/// Every tree that parsing gives is well formed, lies over the text and
/// has a root.
pub proof fn law_parsed_tree_is_well_formed(source: Seq<char>)
    ensures
        parse_outcome(source) matches Ok(tree) ==> tree.wf() && tree.source == source
            && tree.nodes.len() > 0,
{
    if let Some(shape) = javascript_shape(source) {
        let empty = TreeView { source, nodes: Seq::<crate::tree::NodeView>::empty() };
        lemma_grown_is_well_formed(empty, None, shape, false);
    }
}

/// Copies `node` and everything below it into `tree`, below `parent`, and
/// says whether the tree accepted every node.
fn copy_node<'tree>(
    tree: &mut SyntaxTree,
    node: &tree_sitter::Node<'tree>,
    parent: Option<usize>,
    is_name: bool,
) -> (copied: bool)
    requires
        old(tree).wf(),
    ensures
        final(tree).wf(),
        final(tree)@.source == old(tree)@.source,
        match grown(old(tree)@, parent, node_shape(*node), is_name) {
            Some(after) => copied && final(tree)@ == after,
            None => !copied,
        },
    decreases node_shape(*node),
{
    let ghost shape = node_shape(*node);
    let ghost before = tree@;
    let span = span_of(node.start_byte(), node.end_byte(), node_start(node));
    let index: usize = match tree.add_node(parent, node.kind(), span, is_name) {
        Some(index) => index,
        None => {
            return false;
        },
    };
    let name: Option<Span> = match node_field(node, "name") {
        Some(named) => Some(span_of(named.start_byte(), named.end_byte(), node_start(&named))),
        None => None,
    };
    let children = node_children(node);
    let ghost started = tree@;
    let mut k: usize = 0;
    while k < children.len()
        invariant
            k <= children.len(),
            tree.wf(),
            before == old(tree)@,
            tree@.source == before.source,
            shape == node_shape(*node),
            grown(before, parent, shape, is_name) == grown_children(
                started,
                index,
                name,
                shape.children,
                0,
            ),
            name == shape.name,
            children@.len() == shape.children.len(),
            forall|j: int|
                0 <= j < children@.len() ==> node_shape(#[trigger] children@[j])
                    == shape.children[j],
            grown_children(started, index, name, shape.children, 0) == grown_children(
                tree@,
                index,
                name,
                shape.children,
                k as int,
            ),
        decreases children.len() - k,
    {
        let child = &children[k];
        let child_span = span_of(child.start_byte(), child.end_byte(), node_start(child));
        let child_is_name = match name {
            Some(named) => named == child_span,
            None => false,
        };
        proof {
            assert(node_shape(*child) == shape.children[k as int]);
        }
        if !copy_node(tree, child, Some(index), child_is_name) {
            return false;
        }
        k += 1;
    }
    true
}

/// Copies a parsed tree into a syntax tree over `source`.
pub fn copy_tree(source: &str, parsed: &tree_sitter::Tree) -> (copied: Result<
    SyntaxTree,
    ParseError,
>)
    ensures
        match flattened(source@, tree_shape(*parsed)) {
            Some(flat) => copied matches Ok(tree) && tree.wf() && tree@ == flat,
            None => copied matches Err(e) && e == ParseError::MalformedTree,
        },
{
    let mut tree = SyntaxTree::new(source);
    let root = parsed.root_node();
    proof {
        assert(tree@.nodes =~= Seq::<crate::tree::NodeView>::empty());
    }
    if copy_node(&mut tree, &root, None, false) {
        Ok(tree)
    } else {
        Err(ParseError::MalformedTree)
    }
}

/// Parses `source` as JavaScript and copies the parser's tree, each node
/// before its children and the children in the order of the text.
///
/// A text that is not valid JavaScript fails to parse: a tree with a
/// syntax error in it is not used.
pub fn parse_source(source: &str) -> (parsed: Result<SyntaxTree, ParseError>)
    ensures
        match parse_outcome(source@) {
            Ok(flat) => parsed matches Ok(tree) && tree.wf() && tree@ == flat,
            Err(error) => parsed matches Err(e) && e == error,
        },
{
    let mut parser = tree_sitter::Parser::new();
    if parser.set_language(tree_sitter_javascript::language()).is_err() {
        return Err(ParseError::IncompatibleGrammar);
    }
    let parsed = match parse_text(&mut parser, source) {
        Some(parsed) => parsed,
        None => {
            return Err(ParseError::ParseFailed);
        },
    };
    if parsed.root_node().has_error() {
        return Err(ParseError::ParseFailed);
    }
    copy_tree(source, &parsed)
}

} // verus!
