//! The order of a walk: every node of a tree is visited, and visited once.

use vstd::prelude::*;
use vstd::seq_lib::lemma_no_dup_in_concat;
use vstd::set_lib::lemma_int_range;
use vstd::set_lib::set_int_range;

use crate::laws::is_ancestor;
use crate::registry::DeclarationView;
use crate::tree::TreeView;
use crate::walker::visit_all;
use crate::walker::visit_order;
use crate::walker::visit_order_children;
use crate::walker::visit_spec;
use crate::walker::walk_children_spec;
use crate::walker::walk_node_spec;
use crate::walker::walk_spec;

verus! {

/// Node `x` is node `i` or lies below it.
pub open spec fn within(tree: TreeView, i: int, x: int) -> bool {
    x == i || is_ancestor(tree, i, x)
}

/// Visiting one run of nodes and then another is visiting the two runs
/// joined.
pub proof fn lemma_visit_all_concat(
    tree: TreeView,
    first: Seq<int>,
    second: Seq<int>,
    decls: Seq<DeclarationView>,
)
    ensures
        visit_all(tree, first + second, decls) == visit_all(
            tree,
            second,
            visit_all(tree, first, decls),
        ),
    decreases first.len(),
{
    if first.len() == 0 {
        assert(first + second =~= second);
    } else {
        assert((first + second).drop_first() =~= first.drop_first() + second);
        lemma_visit_all_concat(
            tree,
            first.drop_first(),
            second,
            visit_spec(tree, first[0], decls),
        );
    }
}

/// Walking the children of a node visits the nodes below it in their
/// order.
pub proof fn lemma_walk_children_follows_order(
    tree: TreeView,
    i: int,
    k: int,
    decls: Seq<DeclarationView>,
)
    ensures
        walk_children_spec(tree, i, k, decls) == visit_all(
            tree,
            visit_order_children(tree, i, k),
            decls,
        ),
    decreases tree.nodes.len() - i, tree.nodes[i].children.len() - k,
{
    if 0 <= i < tree.nodes.len() && 0 <= k < tree.nodes[i].children.len() {
        let c = tree.nodes[i].children[k] as int;
        if i < c < tree.nodes.len() {
            lemma_walk_node_follows_order(tree, c, decls);
            lemma_walk_children_follows_order(tree, i, k + 1, walk_node_spec(tree, c, decls));
            lemma_visit_all_concat(
                tree,
                visit_order(tree, c),
                visit_order_children(tree, i, k + 1),
                decls,
            );
        }
    }
}

/// Walking a subtree visits its nodes in their order.
pub proof fn lemma_walk_node_follows_order(tree: TreeView, i: int, decls: Seq<DeclarationView>)
    ensures
        walk_node_spec(tree, i, decls) == visit_all(tree, visit_order(tree, i), decls),
    decreases tree.nodes.len() - i, tree.nodes[i].children.len() + 1,
{
    if 0 <= i < tree.nodes.len() {
        let below = visit_order_children(tree, i, 0);
        lemma_walk_children_follows_order(tree, i, 0, visit_spec(tree, i, decls));
        lemma_visit_all_concat(tree, seq![i], below, decls);
        assert(seq![i].drop_first() =~= Seq::<int>::empty());
        assert(visit_all(tree, seq![i], decls) == visit_spec(tree, i, decls)) by {
            reveal_with_fuel(visit_all, 2);
        }
    }
}

/// A node lies above only nodes of a greater index.
pub proof fn lemma_ancestor_is_smaller(tree: TreeView, a: int, x: int)
    requires
        is_ancestor(tree, a, x),
    ensures
        0 <= a < x < tree.nodes.len(),
    decreases x,
{
    let p = tree.nodes[x].parent->0 as int;
    if p != a {
        lemma_ancestor_is_smaller(tree, a, p);
    }
}

/// What lies below a node lies below everything above that node.
pub proof fn lemma_ancestor_is_transitive(tree: TreeView, a: int, b: int, x: int)
    requires
        is_ancestor(tree, a, b),
        is_ancestor(tree, b, x),
    ensures
        is_ancestor(tree, a, x),
    decreases x,
{
    let p = tree.nodes[x].parent->0 as int;
    if p != b {
        lemma_ancestor_is_transitive(tree, a, b, p);
    }
}

/// The nodes above a node form one line: of two nodes that hold a third,
/// the smaller lies above the greater.
pub proof fn lemma_ancestors_form_a_line(tree: TreeView, a: int, b: int, x: int)
    requires
        within(tree, a, x),
        within(tree, b, x),
        a < b,
    ensures
        is_ancestor(tree, a, b),
    decreases x,
{
    if x != b {
        lemma_ancestor_is_smaller(tree, b, x);
        let p = tree.nodes[x].parent->0 as int;
        lemma_ancestors_form_a_line(tree, a, b, p);
    }
}

/// A node below `i` lies in the subtree of one child of `i`.
pub proof fn lemma_below_is_within_a_child(tree: TreeView, i: int, x: int) -> (k: int)
    requires
        tree.wf(),
        is_ancestor(tree, i, x),
    ensures
        0 <= k < tree.nodes[i].children.len(),
        within(tree, tree.nodes[i].children[k] as int, x),
    decreases x,
{
    lemma_ancestor_is_smaller(tree, i, x);
    let p = tree.nodes[x].parent->0 as int;
    if p == i {
        assert(tree.node_wf(x));
        let k = choose|k: int|
            0 <= k < tree.nodes[i].children.len() && tree.nodes[i].children[k] == x as usize;
        k
    } else {
        let k = lemma_below_is_within_a_child(tree, i, p);
        k
    }
}

/// Every node of a well-formed tree is the root or lies below it.
pub proof fn lemma_root_holds_every_node(tree: TreeView, x: int)
    requires
        tree.wf(),
        0 <= x < tree.nodes.len(),
    ensures
        within(tree, 0, x),
    decreases x,
{
    assert(tree.node_wf(x));
    if x != 0 {
        let p = tree.nodes[x].parent->0 as int;
        lemma_root_holds_every_node(tree, p);
    }
}

/// What a walk meets below node `i` from the `k`-th child on lies in the
/// subtree of one of those children.
pub proof fn lemma_children_order_is_within(tree: TreeView, i: int, k: int, x: int) -> (j: int)
    requires
        tree.wf(),
        visit_order_children(tree, i, k).contains(x),
    ensures
        0 <= i < tree.nodes.len(),
        0 <= k <= j < tree.nodes[i].children.len(),
        within(tree, tree.nodes[i].children[j] as int, x),
        is_ancestor(tree, i, x),
    decreases tree.nodes.len() - i, tree.nodes[i].children.len() - k,
{
    assert(tree.node_wf(i));
    let c = tree.nodes[i].children[k] as int;
    let first = visit_order(tree, c);
    let rest = visit_order_children(tree, i, k + 1);
    let at = choose|at: int| 0 <= at < (first + rest).len() && (first + rest)[at] == x;
    if at < first.len() {
        assert(first[at] == x);
        lemma_order_is_within(tree, c, x);
        assert(is_ancestor(tree, i, c));
        if x != c {
            lemma_ancestor_is_transitive(tree, i, c, x);
        }
        k
    } else {
        assert(rest[at - first.len()] == x);
        lemma_children_order_is_within(tree, i, k + 1, x)
    }
}

/// What a walk over the subtree of node `i` meets is node `i` or lies
/// below it.
pub proof fn lemma_order_is_within(tree: TreeView, i: int, x: int)
    requires
        tree.wf(),
        visit_order(tree, i).contains(x),
    ensures
        0 <= i < tree.nodes.len(),
        within(tree, i, x),
    decreases tree.nodes.len() - i, tree.nodes[i].children.len() + 1,
{
    let below = visit_order_children(tree, i, 0);
    let at = choose|at: int| 0 <= at < (seq![i] + below).len() && (seq![i] + below)[at] == x;
    if at >= 1 {
        assert(below[at - 1] == x);
        lemma_children_order_is_within(tree, i, 0, x);
    }
}

/// What the subtree of the `j`-th child holds, a walk meets below the node
/// from every earlier child on.
pub proof fn lemma_children_order_is_complete(tree: TreeView, i: int, k: int, j: int, x: int)
    requires
        tree.wf(),
        0 <= i < tree.nodes.len(),
        0 <= k <= j < tree.nodes[i].children.len(),
        within(tree, tree.nodes[i].children[j] as int, x),
    ensures
        visit_order_children(tree, i, k).contains(x),
    decreases tree.nodes.len() - i, tree.nodes[i].children.len() - k,
{
    assert(tree.node_wf(i));
    let c = tree.nodes[i].children[k] as int;
    let first = visit_order(tree, c);
    let rest = visit_order_children(tree, i, k + 1);
    if k == j {
        lemma_order_is_complete(tree, c, x);
        let at = choose|at: int| 0 <= at < first.len() && first[at] == x;
        assert((first + rest)[at] == x);
    } else {
        lemma_children_order_is_complete(tree, i, k + 1, j, x);
        let at = choose|at: int| 0 <= at < rest.len() && rest[at] == x;
        assert((first + rest)[first.len() + at] == x);
    }
}

/// A walk over the subtree of node `i` meets the node and everything below
/// it.
pub proof fn lemma_order_is_complete(tree: TreeView, i: int, x: int)
    requires
        tree.wf(),
        0 <= i < tree.nodes.len(),
        within(tree, i, x),
    ensures
        visit_order(tree, i).contains(x),
    decreases tree.nodes.len() - i, tree.nodes[i].children.len() + 1,
{
    let below = visit_order_children(tree, i, 0);
    if x == i {
        assert((seq![i] + below)[0] == x);
    } else {
        let j = lemma_below_is_within_a_child(tree, i, x);
        lemma_children_order_is_complete(tree, i, 0, j, x);
        let at = choose|at: int| 0 <= at < below.len() && below[at] == x;
        assert((seq![i] + below)[1 + at] == x);
    }
}

/// A walk meets no node twice below node `i`.
pub proof fn lemma_children_order_has_no_duplicates(tree: TreeView, i: int, k: int)
    requires
        tree.wf(),
        0 <= i < tree.nodes.len(),
    ensures
        visit_order_children(tree, i, k).no_duplicates(),
    decreases tree.nodes.len() - i, tree.nodes[i].children.len() - k,
{
    if 0 <= k < tree.nodes[i].children.len() {
        assert(tree.node_wf(i));
        let c = tree.nodes[i].children[k] as int;
        let first = visit_order(tree, c);
        let rest = visit_order_children(tree, i, k + 1);
        lemma_order_has_no_duplicates(tree, c);
        lemma_children_order_has_no_duplicates(tree, i, k + 1);
        assert forall|a: int, b: int| 0 <= a < first.len() && 0 <= b < rest.len() implies first[a]
            != rest[b] by {
            let x = first[a];
            if x == rest[b] {
                assert(first.contains(x));
                assert(rest.contains(x));
                lemma_order_is_within(tree, c, x);
                let j = lemma_children_order_is_within(tree, i, k + 1, x);
                let other = tree.nodes[i].children[j] as int;
                lemma_ancestors_form_a_line(tree, c, other, x);
                if tree.nodes[other].parent->0 as int != c {
                    lemma_ancestor_is_smaller(tree, c, i);
                }
            }
        }
        lemma_no_dup_in_concat(first, rest);
    }
}

/// A walk over the subtree of node `i` meets no node twice.
pub proof fn lemma_order_has_no_duplicates(tree: TreeView, i: int)
    requires
        tree.wf(),
        0 <= i < tree.nodes.len(),
    ensures
        visit_order(tree, i).no_duplicates(),
    decreases tree.nodes.len() - i, tree.nodes[i].children.len() + 1,
{
    let below = visit_order_children(tree, i, 0);
    lemma_children_order_has_no_duplicates(tree, i, 0);
    assert forall|a: int, b: int| 0 <= a < seq![i].len() && 0 <= b < below.len() implies seq![i][a]
        != below[b] by {
        assert(below.contains(below[b]));
        lemma_children_order_is_within(tree, i, 0, below[b]);
        lemma_ancestor_is_smaller(tree, i, below[b]);
    }
    lemma_no_dup_in_concat(seq![i], below);
}

/// The walk follows the visiting order: what a walk over the whole tree
/// leaves is what visiting the nodes one by one in that order leaves.
pub proof fn law_walk_follows_the_visiting_order(tree: TreeView)
    ensures
        walk_spec(tree) == visit_all(
            tree,
            visit_order(tree, 0),
            Seq::<DeclarationView>::empty(),
        ),
{
    lemma_walk_node_follows_order(tree, 0, Seq::<DeclarationView>::empty());
}

/// Every node is visited exactly once: the visiting order of a well-formed
/// tree holds each of its nodes, the root included, holds none twice, and
/// holds nothing else.
pub proof fn law_every_node_is_visited_once(tree: TreeView)
    requires
        tree.wf(),
    ensures
        visit_order(tree, 0).len() == tree.nodes.len(),
        visit_order(tree, 0).no_duplicates(),
        forall|x: int| 0 <= x < tree.nodes.len() <==> visit_order(tree, 0).contains(x),
{
    let order = visit_order(tree, 0);
    let n = tree.nodes.len() as int;
    if n > 0 {
        lemma_order_has_no_duplicates(tree, 0);
        assert forall|x: int| 0 <= x < n <==> order.contains(x) by {
            if 0 <= x < n {
                lemma_root_holds_every_node(tree, x);
                lemma_order_is_complete(tree, 0, x);
            }
            if order.contains(x) {
                lemma_order_is_within(tree, 0, x);
                if x != 0 {
                    lemma_ancestor_is_smaller(tree, 0, x);
                }
            }
        }
        order.unique_seq_to_set();
        lemma_int_range(0, n);
        assert(order.to_set() =~= set_int_range(0, n));
    }
}

} // verus!
