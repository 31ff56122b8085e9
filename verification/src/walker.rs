//! The tree walker: one pass over the tree, parents before children and
//! children in the order of the text, that fills the registry.

use vstd::prelude::*;
use vstd::string::*;

use crate::location::Location;
use crate::registry::with_declaration;
use crate::registry::with_reference;
use crate::registry::DeclarationView;
use crate::registry::ReferenceView;
use crate::registry::Registry;
use crate::scope::resolve_scope;
use crate::scope::scope_path;
use crate::text::str_eq;
use crate::tree::SyntaxTree;
use crate::tree::TreeView;

verus! {

/// Whether nodes of this kind declare a variable.
pub open spec fn is_declarator(kind: Seq<char>) -> bool {
    kind == "variable_declarator"@
}

/// Whether nodes of this kind mention a name.
pub open spec fn is_identifier(kind: Seq<char>) -> bool {
    kind == "identifier"@
}

/// The declarations after node `i` alone is visited.
///
/// A declarator whose name child has readable text declares that text, at
/// the location of the name child and in the scope of the declarator. An
/// identifier with readable text is recorded against the declaration of that
/// text, if there is one by then. Every other node leaves the declarations
/// as they are.
pub open spec fn visit_spec(tree: TreeView, i: int, decls: Seq<DeclarationView>) -> Seq<
    DeclarationView,
> {
    let node = tree.nodes[i];
    if is_declarator(node.kind) {
        match node.name_child {
            Some(c) => match tree.text(c as int) {
                Some(name) => with_declaration(
                    decls,
                    name,
                    Location::at(tree.nodes[c as int].span),
                    scope_path(tree, i),
                ),
                None => decls,
            },
            None => decls,
        }
    } else if is_identifier(node.kind) {
        match tree.text(i) {
            Some(name) => with_reference(
                decls,
                name,
                ReferenceView { location: Location::at(node.span), context: scope_path(tree, i) },
            ),
            None => decls,
        }
    } else {
        decls
    }
}

/// The declarations after the subtrees of the children of node `i` from
/// the `k`-th on are walked, one after the other.
pub open spec fn walk_children_spec(
    tree: TreeView,
    i: int,
    k: int,
    decls: Seq<DeclarationView>,
) -> Seq<DeclarationView>
    decreases tree.nodes.len() - i, tree.nodes[i].children.len() - k,
{
    if 0 <= i < tree.nodes.len() && 0 <= k < tree.nodes[i].children.len() {
        let c = tree.nodes[i].children[k] as int;
        if i < c < tree.nodes.len() {
            walk_children_spec(tree, i, k + 1, walk_node_spec(tree, c, decls))
        } else {
            decls
        }
    } else {
        decls
    }
}

/// The declarations after the subtree of node `i` is walked: the node is
/// visited first, then the subtrees of its children in their order.
pub open spec fn walk_node_spec(tree: TreeView, i: int, decls: Seq<DeclarationView>) -> Seq<
    DeclarationView,
>
    decreases tree.nodes.len() - i, tree.nodes[i].children.len() + 1,
{
    if 0 <= i < tree.nodes.len() {
        walk_children_spec(tree, i, 0, visit_spec(tree, i, decls))
    } else {
        decls
    }
}

/// The declarations that one walk over the whole tree leaves, starting from
/// none.
pub open spec fn walk_spec(tree: TreeView) -> Seq<DeclarationView> {
    walk_node_spec(tree, 0, Seq::<DeclarationView>::empty())
}

/// The nodes below node `i` in the order in which a walk meets them,
/// starting with the subtree of the `k`-th child.
pub open spec fn visit_order_children(tree: TreeView, i: int, k: int) -> Seq<int>
    decreases tree.nodes.len() - i, tree.nodes[i].children.len() - k,
{
    if 0 <= i < tree.nodes.len() && 0 <= k < tree.nodes[i].children.len() {
        let c = tree.nodes[i].children[k] as int;
        if i < c < tree.nodes.len() {
            visit_order(tree, c) + visit_order_children(tree, i, k + 1)
        } else {
            Seq::<int>::empty()
        }
    } else {
        Seq::<int>::empty()
    }
}

/// The nodes of the subtree of node `i` in the order in which a walk meets
/// them: the node itself, then the subtrees of its children in turn.
pub open spec fn visit_order(tree: TreeView, i: int) -> Seq<int>
    decreases tree.nodes.len() - i, tree.nodes[i].children.len() + 1,
{
    if 0 <= i < tree.nodes.len() {
        seq![i] + visit_order_children(tree, i, 0)
    } else {
        Seq::<int>::empty()
    }
}

/// The declarations after the nodes of `order` are visited one after the
/// other.
pub open spec fn visit_all(tree: TreeView, order: Seq<int>, decls: Seq<DeclarationView>) -> Seq<
    DeclarationView,
>
    decreases order.len(),
{
    if order.len() == 0 {
        decls
    } else {
        visit_all(tree, order.drop_first(), visit_spec(tree, order[0], decls))
    }
}

/// Visits node `i` alone.
pub fn visit(tree: &SyntaxTree, i: usize, registry: &mut Registry)
    requires
        tree.wf(),
        i < tree@.nodes.len(),
        old(registry).wf(),
    ensures
        final(registry).wf(),
        final(registry)@ == visit_spec(tree@, i as int, old(registry)@),
{
    let node = tree.node(i);
    proof {
        assert(tree@.node_wf(i as int));
    }
    if str_eq(node.kind.as_str(), "variable_declarator") {
        if let Some(c) = node.name_child {
            proof {
                let at: int = choose|at: int|
                    0 <= at < node@.children.len() && node@.children[at] == c;
                assert(node@.children[at] < tree@.nodes.len());
                assert(tree@.node_wf(c as int));
            }
            if let Some(name) = tree.text(c) {
                let scope = resolve_scope(tree, i);
                let location = Location::of(tree.node(c).span);
                registry.insert_declaration(String::from_str(name), location, scope);
            }
        }
    } else if str_eq(node.kind.as_str(), "identifier") {
        if let Some(name) = tree.text(i) {
            if registry.contains(name) {
                let scope = resolve_scope(tree, i);
                registry.append_reference(name, Location::of(node.span), scope);
            }
        }
    }
}

/// Walks the subtree of node `i`.
pub fn walk_node(tree: &SyntaxTree, i: usize, registry: &mut Registry)
    requires
        tree.wf(),
        i < tree@.nodes.len(),
        old(registry).wf(),
    ensures
        final(registry).wf(),
        final(registry)@ == walk_node_spec(tree@, i as int, old(registry)@),
    decreases tree@.nodes.len() - i,
{
    visit(tree, i, registry);
    let ghost visited = registry@;
    let children = &tree.node(i).children;
    let mut k: usize = 0;
    while k < children.len()
        invariant
            tree.wf(),
            i < tree@.nodes.len(),
            children@ == tree@.nodes[i as int].children,
            k <= children.len(),
            registry.wf(),
            walk_children_spec(tree@, i as int, 0, visited) == walk_children_spec(
                tree@,
                i as int,
                k as int,
                registry@,
            ),
        decreases children.len() - k,
    {
        let c: usize = children[k];
        proof {
            assert(tree@.node_wf(i as int));
            assert(i < tree@.nodes[i as int].children[k as int] < tree@.nodes.len());
        }
        walk_node(tree, c, registry);
        k += 1;
    }
}

/// Walks the whole tree, starting from an empty registry.
pub fn walk(tree: &SyntaxTree) -> (registry: Registry)
    requires
        tree.wf(),
    ensures
        registry.wf(),
        registry@ == walk_spec(tree@),
{
    let mut registry = Registry::new();
    proof {
        assert(registry@ =~= Seq::<DeclarationView>::empty());
    }
    if tree.len() > 0 {
        walk_node(tree, 0, &mut registry);
    }
    registry
}

} // verus!
