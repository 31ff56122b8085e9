//! The scope resolver: the path of named functions, methods and classes that
//! enclose a node.

use vstd::prelude::*;
use vstd::string::*;

use crate::text::join;
use crate::text::join_spec;
use crate::text::reversed;
use crate::text::str_eq;
use crate::tree::SyntaxTree;
use crate::tree::TreeView;

verus! {

/// Whether nodes of this kind open a scope: function declarations, method
/// definitions and class declarations do.
pub open spec fn introduces_scope(kind: Seq<char>) -> bool {
    kind == "function_declaration"@ || kind == "method_definition"@ || kind
        == "class_declaration"@
}

/// The name under which node `i` encloses the nodes below it: the text of
/// its name child, where the node opens a scope, has such a child and the
/// child's text can be read.
pub open spec fn scope_name(tree: TreeView, i: int) -> Option<Seq<char>> {
    let node = tree.nodes[i];
    if introduces_scope(node.kind) {
        match node.name_child {
            Some(c) => tree.text(c as int),
            None => None,
        }
    } else {
        None
    }
}

/// The names of the scopes that enclose node `i`, outermost first. The node
/// itself does not count, and an enclosing scope without a readable name
/// adds nothing.
pub open spec fn scope_names(tree: TreeView, i: int) -> Seq<Seq<char>>
    decreases i,
{
    if 0 <= i < tree.nodes.len() {
        match tree.nodes[i].parent {
            Some(p) => {
                if p < i {
                    match scope_name(tree, p as int) {
                        Some(name) => scope_names(tree, p as int).push(name),
                        None => scope_names(tree, p as int),
                    }
                } else {
                    Seq::<Seq<char>>::empty()
                }
            },
            None => Seq::<Seq<char>>::empty(),
        }
    } else {
        Seq::<Seq<char>>::empty()
    }
}

/// The scope path of node `i`: the enclosing names joined by `::`, or
/// `global` where there is none.
pub open spec fn scope_path(tree: TreeView, i: int) -> Seq<char> {
    let names = scope_names(tree, i);
    if names.len() == 0 {
        "global"@
    } else {
        join_spec(names, "::"@)
    }
}

/// Whether nodes of this kind open a scope.
pub fn is_scope_kind(kind: &str) -> (opens: bool)
    ensures
        opens == introduces_scope(kind@),
{
    str_eq(kind, "function_declaration") || str_eq(kind, "method_definition") || str_eq(
        kind,
        "class_declaration",
    )
}

/// Computes the scope path of node `i` by walking up through its ancestors.
/// An index that is no node of the tree has no ancestors, so its path is
/// `global`.
pub fn resolve_scope(tree: &SyntaxTree, i: usize) -> (scope: String)
    requires
        tree.wf(),
    ensures
        scope@ == scope_path(tree@, i as int),
{
    if i >= tree.len() {
        return String::from_str("global");
    }
    let mut inner_first: Vec<String> = Vec::new();
    let mut below: usize = i;
    let mut current: Option<usize> = tree.node(i).parent;
    while current.is_some()
        invariant
            tree.wf(),
            below < tree@.nodes.len(),
            current == tree@.nodes[below as int].parent,
            scope_names(tree@, i as int) == scope_names(tree@, below as int)
                + inner_first.deep_view().reverse(),
        decreases below,
    {
        let p: usize = current.unwrap();
        let ghost collected = inner_first.deep_view();
        proof {
            assert(tree@.node_wf(below as int));
            assert(tree@.node_wf(p as int));
        }
        let above = tree.node(p);
        if is_scope_kind(above.kind.as_str()) {
            if let Some(c) = above.name_child {
                proof {
                    let at: int = choose|at: int|
                        0 <= at < above@.children.len() && above@.children[at] == c;
                    assert(above@.children[at] < tree@.nodes.len());
                }
                if let Some(name) = tree.text(c) {
                    inner_first.push(String::from_str(name));
                    proof {
                        assert(inner_first.deep_view() =~= collected.push(name@));
                        assert(seq![name@] + collected.reverse() =~= collected.push(
                            name@,
                        ).reverse());
                        assert(scope_names(tree@, p as int).push(name@) + collected.reverse()
                            =~= scope_names(tree@, p as int) + (seq![name@]
                            + collected.reverse()));
                    }
                }
            }
        }
        below = p;
        current = above.parent;
    }
    let outer_first = reversed(inner_first);
    proof {
        assert(scope_names(tree@, below as int) =~= Seq::<Seq<char>>::empty());
        assert(scope_names(tree@, i as int) =~= outer_first.deep_view());
    }
    if outer_first.len() == 0 {
        String::from_str("global")
    } else {
        join(&outer_first, "::")
    }
}

} // verus!
