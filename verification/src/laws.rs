//! What holds of every analysis, stated over the models that the contracts
//! of the library use.

use vstd::prelude::*;

use crate::lineage::lineage_spec;
use crate::location::Location;
use crate::parse::flattened;
use crate::parse::javascript_shape;
use crate::parse::parse_outcome;
use crate::parse::ParseError;
use crate::registry::fresh;
use crate::registry::lemma_position;
use crate::registry::lemma_with_declaration_unique;
use crate::registry::lemma_with_reference_unique;
use crate::registry::lookup;
use crate::registry::position;
use crate::registry::unique_names;
use crate::registry::with_declaration;
use crate::registry::with_reference;
use crate::registry::DeclarationView;
use crate::registry::ReferenceView;
use crate::scope::introduces_scope;
use crate::scope::scope_names;
use crate::scope::scope_path;
use crate::tracker::analyzed;
use crate::tree::TreeView;
use crate::walker::is_declarator;
use crate::walker::is_identifier;
use crate::walker::visit_spec;
use crate::walker::walk_children_spec;
use crate::walker::walk_node_spec;
use crate::walker::walk_spec;

verus! {

/// Node `a` lies on the way from node `i` up to the root, `i` itself not
/// counted.
pub open spec fn is_ancestor(tree: TreeView, a: int, i: int) -> bool
    decreases i,
{
    if 0 <= i < tree.nodes.len() {
        match tree.nodes[i].parent {
            Some(p) => p < i && (p == a || is_ancestor(tree, a, p as int)),
            None => false,
        }
    } else {
        false
    }
}

/// Determinism: two analyses of one text end alike, whatever each tracker
/// held before. Both succeed or both fail with the same error, and where
/// they succeed they leave the same declarations, with the same
/// references and scope strings, and answer every lineage query alike.
pub proof fn law_analysis_is_deterministic(
    source: Seq<char>,
    first_before: Seq<DeclarationView>,
    first_after: Seq<DeclarationView>,
    first_done: Result<(), ParseError>,
    second_before: Seq<DeclarationView>,
    second_after: Seq<DeclarationView>,
    second_done: Result<(), ParseError>,
)
    requires
        analyzed(source, first_before, first_after, first_done),
        analyzed(source, second_before, second_after, second_done),
    ensures
        first_done == second_done,
        first_done is Ok ==> first_after == second_after,
        first_done is Ok ==> forall|name: Seq<char>|
            lineage_spec(first_after, name) == lineage_spec(second_after, name),
{
    match (first_done, second_done) {
        (Ok(first), Ok(second)) => {
            assert(first == second);
        },
        _ => {},
    }
}

/// A failed analysis changes nothing: the tracker holds what it held
/// before, and no tree was walked.
pub proof fn law_failed_analysis_keeps_the_registry(
    source: Seq<char>,
    before: Seq<DeclarationView>,
    after: Seq<DeclarationView>,
    done: Result<(), ParseError>,
)
    requires
        analyzed(source, before, after, done),
        done is Err,
    ensures
        after == before,
        parse_outcome(source) is Err,
{
}

/// A text for which the parser gives no tree, or a tree with a syntax
/// error in it, fails to parse, with the words `Failed to parse source
/// code`.
pub proof fn law_text_without_a_sound_tree_fails(
    source: Seq<char>,
    before: Seq<DeclarationView>,
    after: Seq<DeclarationView>,
    done: Result<(), ParseError>,
)
    requires
        analyzed(source, before, after, done),
        javascript_shape(source) matches Some(shape) ==> shape.has_error,
    ensures
        done == Err::<(), ParseError>(ParseError::ParseFailed),
        after == before,
        ParseError::ParseFailed.message_spec() == "Failed to parse source code"@,
{
}

/// An analysis succeeds exactly when the parser gives a tree that holds no
/// syntax error and fits a syntax tree.
pub proof fn law_analysis_succeeds_on_sound_trees(
    source: Seq<char>,
    before: Seq<DeclarationView>,
    after: Seq<DeclarationView>,
    done: Result<(), ParseError>,
)
    requires
        analyzed(source, before, after, done),
    ensures
        done is Ok <==> (javascript_shape(source) matches Some(shape) && !shape.has_error
            && flattened(source, shape) is Some),
{
}

/// The global sentinel: a node that no function, method or class encloses
/// has the scope path `global`.
pub proof fn law_top_level_scope_is_global(tree: TreeView, i: int)
    requires
        tree.wf(),
        0 <= i < tree.nodes.len(),
        forall|a: int| is_ancestor(tree, a, i) ==> !introduces_scope(tree.nodes[a].kind),
    ensures
        scope_names(tree, i).len() == 0,
        scope_path(tree, i) == "global"@,
    decreases i,
{
    match tree.nodes[i].parent {
        Some(p) => {
            assert(tree.node_wf(i));
            assert(is_ancestor(tree, p as int, i));
            assert forall|a: int| is_ancestor(tree, a, p as int) implies !introduces_scope(
                tree.nodes[a].kind,
            ) by {
                assert(is_ancestor(tree, a, i));
            }
            law_top_level_scope_is_global(tree, p as int);
        },
        None => {},
    }
}

/// Overwrite on redeclaration: after a name is declared, the registry holds
/// exactly one declaration of it, the new one, and no reference is recorded
/// against it, whatever was declared and recorded before.
pub proof fn law_redeclaration_overwrites(
    decls: Seq<DeclarationView>,
    name: Seq<char>,
    location: Location,
    scope: Seq<char>,
)
    requires
        unique_names(decls),
    ensures
        ({
            let after = with_declaration(decls, name, location, scope);
            &&& unique_names(after)
            &&& lookup(after, name) == Some(fresh(name, location, scope))
            &&& lookup(after, name)->0.references.len() == 0
            &&& forall|i: int|
                0 <= i < after.len() && after[i].name == name ==> i == after.len() - 1
        }),
{
    lemma_position(decls, name);
    lemma_with_declaration_unique(decls, name, location, scope);
    let after = with_declaration(decls, name, location, scope);
    assert(after.last() == fresh(name, location, scope));
    assert(position(after, name) == Some(after.len() - 1));
}

/// Overwrite on redeclaration, as the walk meets it: a declarator with a
/// readable name leaves that name declared at the declarator, with no
/// reference, whatever an earlier declarator of the name had gathered.
pub proof fn law_declarator_overwrites(
    tree: TreeView,
    i: int,
    decls: Seq<DeclarationView>,
    name: Seq<char>,
)
    requires
        0 <= i < tree.nodes.len(),
        unique_names(decls),
        is_declarator(tree.nodes[i].kind),
        tree.nodes[i].name_child matches Some(c) && tree.text(c as int) == Some(name),
    ensures
        lookup(visit_spec(tree, i, decls), name) == Some(
            fresh(
                name,
                Location::at(tree.nodes[tree.nodes[i].name_child->0 as int].span),
                scope_path(tree, i),
            ),
        ),
{
    let c = tree.nodes[i].name_child->0;
    law_redeclaration_overwrites(
        decls,
        name,
        Location::at(tree.nodes[c as int].span),
        scope_path(tree, i),
    );
}

/// Forward-reference loss: a mention of a name that is not declared yet
/// changes nothing, so the declaration that follows starts with no
/// reference.
pub proof fn law_forward_reference_is_dropped(
    decls: Seq<DeclarationView>,
    name: Seq<char>,
    reference: ReferenceView,
    location: Location,
    scope: Seq<char>,
)
    requires
        unique_names(decls),
        lookup(decls, name) is None,
    ensures
        with_reference(decls, name, reference) == decls,
        lookup(
            with_declaration(with_reference(decls, name, reference), name, location, scope),
            name,
        ) == Some(fresh(name, location, scope)),
{
    law_redeclaration_overwrites(decls, name, location, scope);
}

/// Forward-reference loss, as the walk meets it: an identifier whose text
/// is not declared by then leaves the declarations as they are.
pub proof fn law_identifier_before_declaration_is_dropped(
    tree: TreeView,
    i: int,
    decls: Seq<DeclarationView>,
)
    requires
        0 <= i < tree.nodes.len(),
        !is_declarator(tree.nodes[i].kind),
        is_identifier(tree.nodes[i].kind),
        tree.text(i) matches Some(name) ==> lookup(decls, name) is None,
    ensures
        visit_spec(tree, i, decls) == decls,
{
}

/// A name that is not declared has an empty lineage.
pub proof fn law_unknown_name_has_no_lineage(decls: Seq<DeclarationView>, name: Seq<char>)
    requires
        lookup(decls, name) is None,
    ensures
        lineage_spec(decls, name).len() == 0,
{
}

/// A declared name has a lineage that starts with its declaration and has
/// one more line for each reference.
pub proof fn law_lineage_length(decls: Seq<DeclarationView>, name: Seq<char>)
    requires
        lookup(decls, name) is Some,
    ensures
        lineage_spec(decls, name).len() == 1 + lookup(decls, name)->0.references.len(),
{
}

/// Visiting a node keeps the names unique.
pub proof fn law_visit_keeps_names_unique(tree: TreeView, i: int, decls: Seq<DeclarationView>)
    requires
        unique_names(decls),
    ensures
        unique_names(visit_spec(tree, i, decls)),
{
    let node = tree.nodes[i];
    if is_declarator(node.kind) {
        if let Some(c) = node.name_child {
            if let Some(name) = tree.text(c as int) {
                lemma_with_declaration_unique(
                    decls,
                    name,
                    Location::at(tree.nodes[c as int].span),
                    scope_path(tree, i),
                );
            }
        }
    } else if is_identifier(node.kind) {
        if let Some(name) = tree.text(i) {
            lemma_with_reference_unique(
                decls,
                name,
                ReferenceView { location: Location::at(node.span), context: scope_path(tree, i) },
            );
        }
    }
}

/// Walking the children of a node keeps the names unique.
pub proof fn law_walk_children_keeps_names_unique(
    tree: TreeView,
    i: int,
    k: int,
    decls: Seq<DeclarationView>,
)
    requires
        unique_names(decls),
    ensures
        unique_names(walk_children_spec(tree, i, k, decls)),
    decreases tree.nodes.len() - i, tree.nodes[i].children.len() - k,
{
    if 0 <= i < tree.nodes.len() && 0 <= k < tree.nodes[i].children.len() {
        let c = tree.nodes[i].children[k] as int;
        if i < c < tree.nodes.len() {
            law_walk_node_keeps_names_unique(tree, c, decls);
            law_walk_children_keeps_names_unique(tree, i, k + 1, walk_node_spec(tree, c, decls));
        }
    }
}

/// Walking a subtree keeps the names unique.
pub proof fn law_walk_node_keeps_names_unique(tree: TreeView, i: int, decls: Seq<DeclarationView>)
    requires
        unique_names(decls),
    ensures
        unique_names(walk_node_spec(tree, i, decls)),
    decreases tree.nodes.len() - i, tree.nodes[i].children.len() + 1,
{
    if 0 <= i < tree.nodes.len() {
        law_visit_keeps_names_unique(tree, i, decls);
        law_walk_children_keeps_names_unique(tree, i, 0, visit_spec(tree, i, decls));
    }
}

/// One live declaration per name: no two declarations that an analysis
/// leaves share a name.
pub proof fn law_one_declaration_per_name(tree: TreeView)
    ensures
        unique_names(walk_spec(tree)),
{
    law_walk_node_keeps_names_unique(tree, 0, Seq::<DeclarationView>::empty());
}

} // verus!
