//! The registry of declarations: one live declaration per name, each with
//! the references recorded against it.

use vstd::prelude::*;
use vstd::string::*;

use crate::location::Location;
use crate::text::str_eq;

verus! {

/// One mention of a declared name.
pub struct Reference {
    /// Where the mention stands.
    pub location: Location,
    /// The scope path at the mention.
    pub context: String,
}

/// What a [`Reference`] holds, as mathematics.
pub struct ReferenceView {
    pub location: Location,
    pub context: Seq<char>,
}

impl View for Reference {
    type V = ReferenceView;

    open spec fn view(&self) -> ReferenceView {
        ReferenceView { location: self.location, context: self.context@ }
    }
}

/// A declared variable and the references recorded against it.
pub struct Declaration {
    /// The declared identifier.
    pub name: String,
    /// Where the identifier stands in the declaration.
    pub location: Location,
    /// The scope path of the declaration.
    pub scope: String,
    /// The mentions of the name, in the order in which they were met.
    pub references: Vec<Reference>,
}

/// What a [`Declaration`] holds, as mathematics.
pub struct DeclarationView {
    pub name: Seq<char>,
    pub location: Location,
    pub scope: Seq<char>,
    pub references: Seq<ReferenceView>,
}

impl View for Declaration {
    type V = DeclarationView;

    open spec fn view(&self) -> DeclarationView {
        DeclarationView {
            name: self.name@,
            location: self.location,
            scope: self.scope@,
            references: self.references@.map_values(|r: Reference| r@),
        }
    }
}

/// The index of the last declaration of `name` in `decls`.
pub open spec fn position(decls: Seq<DeclarationView>, name: Seq<char>) -> Option<int>
    decreases decls.len(),
{
    if decls.len() == 0 {
        None
    } else if decls.last().name == name {
        Some(decls.len() - 1)
    } else {
        position(decls.drop_last(), name)
    }
}

/// The declaration of `name` in `decls`, if there is one.
pub open spec fn lookup(decls: Seq<DeclarationView>, name: Seq<char>) -> Option<DeclarationView> {
    match position(decls, name) {
        Some(i) => Some(decls[i]),
        None => None,
    }
}

/// No two declarations of `decls` share a name.
pub open spec fn unique_names(decls: Seq<DeclarationView>) -> bool {
    forall|i: int, j: int| 0 <= i < j < decls.len() ==> decls[i].name != decls[j].name
}

/// A declaration that no reference has been recorded against.
pub open spec fn fresh(name: Seq<char>, location: Location, scope: Seq<char>) -> DeclarationView {
    DeclarationView { name, location, scope, references: Seq::<ReferenceView>::empty() }
}

/// `decls` after `name` is declared: an earlier declaration of the name
/// leaves with all its references, and the fresh one goes to the end.
pub open spec fn with_declaration(
    decls: Seq<DeclarationView>,
    name: Seq<char>,
    location: Location,
    scope: Seq<char>,
) -> Seq<DeclarationView> {
    match position(decls, name) {
        Some(i) => decls.remove(i).push(fresh(name, location, scope)),
        None => decls.push(fresh(name, location, scope)),
    }
}

/// `decls` after a mention of `name` is met: it goes to the end of the
/// references of the name's declaration. Where the name is not declared,
/// nothing changes.
pub open spec fn with_reference(
    decls: Seq<DeclarationView>,
    name: Seq<char>,
    reference: ReferenceView,
) -> Seq<DeclarationView> {
    match position(decls, name) {
        Some(i) => decls.update(
            i,
            DeclarationView { references: decls[i].references.push(reference), ..decls[i] },
        ),
        None => decls,
    }
}

/// What [`position`] finds: the last index that carries the name, or that
/// no index does.
pub proof fn lemma_position(decls: Seq<DeclarationView>, name: Seq<char>)
    ensures
        match position(decls, name) {
            Some(i) => {
                &&& 0 <= i < decls.len()
                &&& decls[i].name == name
                &&& forall|j: int| i < j < decls.len() ==> decls[j].name != name
            },
            None => forall|j: int| 0 <= j < decls.len() ==> decls[j].name != name,
        },
    decreases decls.len(),
{
    if decls.len() > 0 && decls.last().name != name {
        let earlier = decls.drop_last();
        lemma_position(earlier, name);
        assert forall|j: int| 0 <= j < earlier.len() implies earlier[j] == decls[j] by {}
        match position(earlier, name) {
            Some(i) => {
                assert forall|j: int| i < j < decls.len() implies decls[j].name != name by {
                    if j < earlier.len() {
                        assert(earlier[j].name != name);
                    }
                }
            },
            None => {
                assert forall|j: int| 0 <= j < decls.len() implies decls[j].name != name by {
                    if j < earlier.len() {
                        assert(earlier[j].name != name);
                    }
                }
            },
        }
    }
}

/// Declaring a name keeps the names unique.
pub proof fn lemma_with_declaration_unique(
    decls: Seq<DeclarationView>,
    name: Seq<char>,
    location: Location,
    scope: Seq<char>,
)
    requires
        unique_names(decls),
    ensures
        unique_names(with_declaration(decls, name, location, scope)),
{
    lemma_position(decls, name);
    let after = with_declaration(decls, name, location, scope);
    match position(decls, name) {
        Some(i) => {
            let kept = decls.remove(i);
            assert forall|a: int, b: int| 0 <= a < b < after.len() implies after[a].name
                != after[b].name by {
                let from_a = if a < i {
                    a
                } else {
                    a + 1
                };
                assert(kept[a] == decls[from_a]);
                if b < kept.len() {
                    let from_b = if b < i {
                        b
                    } else {
                        b + 1
                    };
                    assert(kept[b] == decls[from_b]);
                }
            }
        },
        None => {},
    }
}

/// Recording a reference keeps the names unique.
pub proof fn lemma_with_reference_unique(
    decls: Seq<DeclarationView>,
    name: Seq<char>,
    reference: ReferenceView,
)
    requires
        unique_names(decls),
    ensures
        unique_names(with_reference(decls, name, reference)),
{
    lemma_position(decls, name);
}

/// The registry: the declarations that are live, in the order in which
/// they were declared.
pub struct Registry {
    declarations: Vec<Declaration>,
}

impl View for Registry {
    type V = Seq<DeclarationView>;

    closed spec fn view(&self) -> Seq<DeclarationView> {
        self.declarations@.map_values(|d: Declaration| d@)
    }
}

impl Registry {
    /// No two declarations share a name.
    pub open spec fn wf(&self) -> bool {
        unique_names(self@)
    }

    /// An empty registry.
    pub fn new() -> (registry: Registry)
        ensures
            registry.wf(),
            registry@.len() == 0,
    {
        Registry { declarations: Vec::new() }
    }

    /// The number of live declarations.
    pub fn len(&self) -> (n: usize)
        ensures
            n == self@.len(),
    {
        self.declarations.len()
    }

    /// The live declarations, in the order in which they were declared.
    pub fn enumerate_all(&self) -> (all: &Vec<Declaration>)
        ensures
            all@.map_values(|d: Declaration| d@) == self@,
    {
        &self.declarations
    }

    /// The index of the declaration of `name`.
    pub fn find(&self, name: &str) -> (found: Option<usize>)
        ensures
            match found {
                Some(i) => position(self@, name@) == Some(i as int),
                None => position(self@, name@) is None,
            },
    {
        let mut i: usize = self.declarations.len();
        proof {
            assert(self@.take(i as int) =~= self@);
        }
        while i > 0
            invariant
                i <= self.declarations.len(),
                position(self@, name@) == position(self@.take(i as int), name@),
            decreases i,
        {
            i -= 1;
            proof {
                let upto = self@.take(i + 1);
                assert(upto.last() == self.declarations[i as int]@);
                assert(upto.drop_last() =~= self@.take(i as int));
            }
            if str_eq(self.declarations[i].name.as_str(), name) {
                return Some(i);
            }
        }
        None
    }

    /// Whether `name` is declared.
    pub fn contains(&self, name: &str) -> (declared: bool)
        ensures
            declared == (lookup(self@, name@) is Some),
    {
        self.find(name).is_some()
    }

    /// The declaration of `name`, if there is one.
    pub fn get(&self, name: &str) -> (found: Option<&Declaration>)
        ensures
            match found {
                Some(d) => lookup(self@, name@) == Some(d@),
                None => lookup(self@, name@) is None,
            },
    {
        match self.find(name) {
            Some(i) => {
                proof {
                    lemma_position(self@, name@);
                }
                Some(&self.declarations[i])
            },
            None => None,
        }
    }

    /// Declares `name`. A declaration that the name already has is
    /// overwritten: it leaves the registry together with its references.
    pub fn insert_declaration(&mut self, name: String, location: Location, scope: String)
        requires
            old(self).wf(),
        ensures
            final(self).wf(),
            final(self)@ == with_declaration(old(self)@, name@, location, scope@),
    {
        proof {
            lemma_position(self@, name@);
            lemma_with_declaration_unique(self@, name@, location, scope@);
        }
        let ghost before = self@;
        let ghost mut kept = before;
        if let Some(i) = self.find(name.as_str()) {
            self.declarations.remove(i);
            proof {
                kept = before.remove(i as int);
                assert(self@ =~= kept);
            }
        }
        let declaration = Declaration { name, location, scope, references: Vec::new() };
        proof {
            assert(declaration@.references =~= Seq::<ReferenceView>::empty());
        }
        self.declarations.push(declaration);
        proof {
            assert(self@ =~= kept.push(fresh(name@, location, scope@)));
        }
    }

    /// Records a mention of `name` against its declaration and says whether
    /// there was one. A mention of a name that is not declared is dropped.
    pub fn append_reference(&mut self, name: &str, location: Location, context: String) -> (recorded:
        bool)
        requires
            old(self).wf(),
        ensures
            final(self).wf(),
            recorded == (lookup(old(self)@, name@) is Some),
            final(self)@ == with_reference(
                old(self)@,
                name@,
                ReferenceView { location, context: context@ },
            ),
    {
        proof {
            lemma_position(self@, name@);
            lemma_with_reference_unique(
                self@,
                name@,
                ReferenceView { location, context: context@ },
            );
        }
        let ghost before = self@;
        match self.find(name) {
            Some(i) => {
                let ghost earlier = self.declarations[i as int]@.references;
                let reference = Reference { location, context };
                self.declarations[i].references.push(reference);
                proof {
                    assert(self.declarations[i as int]@.references =~= earlier.push(reference@));
                    assert(self@ =~= before.update(
                        i as int,
                        DeclarationView {
                            references: before[i as int].references.push(reference@),
                            ..before[i as int]
                        },
                    ));
                }
                true
            },
            None => false,
        }
    }
}

} // verus!
