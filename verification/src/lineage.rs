//! The lineage queries: what is known of one variable, and the report over
//! all of them.

use vstd::prelude::*;
use vstd::string::*;

use crate::registry::lookup;
use crate::registry::Declaration;
use crate::registry::DeclarationView;
use crate::registry::Reference;
use crate::registry::ReferenceView;
use crate::registry::Registry;
use crate::text::decimal;
use crate::text::decimal_spec;

verus! {

/// The line that tells where a variable is declared.
pub open spec fn declared_line(scope: Seq<char>) -> Seq<char> {
    "Declared in scope: "@ + scope
}

/// The line that tells where a variable is mentioned.
pub open spec fn referenced_line(reference: ReferenceView) -> Seq<char> {
    "Referenced in scope: "@ + reference.context
}

/// The lineage of `name`: the line of its declaration, then one line for
/// each reference in the order in which they were recorded. A name that is
/// not declared has no lineage.
pub open spec fn lineage_spec(decls: Seq<DeclarationView>, name: Seq<char>) -> Seq<Seq<char>> {
    match lookup(decls, name) {
        Some(d) => seq![declared_line(d.scope)] + d.references.map_values(
            |r: ReferenceView| referenced_line(r),
        ),
        None => Seq::<Seq<char>>::empty(),
    }
}

/// The line of the report that tells of one reference.
pub open spec fn reference_entry(reference: ReferenceView) -> Seq<char> {
    " - At line "@ + decimal_spec(reference.location.line as nat) + ", column "@ + decimal_spec(
        reference.location.column as nat,
    ) + " (in scope: "@ + reference.context + ")"@
}

/// The lines of the report that come before the references of a
/// declaration: an empty line, the name, the scope, and whether references
/// follow.
pub open spec fn declaration_heading(d: DeclarationView) -> Seq<Seq<char>> {
    seq![
        Seq::<char>::empty(),
        "Variable: "@ + d.name,
        " Declared in scope: "@ + d.scope,
        if d.references.len() == 0 {
            " No references found"@
        } else {
            " References:"@
        },
    ]
}

/// The lines of the report that tell of one declaration.
pub open spec fn declaration_entry(d: DeclarationView) -> Seq<Seq<char>> {
    declaration_heading(d) + d.references.map_values(|r: ReferenceView| reference_entry(r))
}

/// The lines of the report that tell of `decls`, one declaration after the
/// other.
pub open spec fn report_body(decls: Seq<DeclarationView>) -> Seq<Seq<char>>
    decreases decls.len(),
{
    if decls.len() == 0 {
        Seq::<Seq<char>>::empty()
    } else {
        report_body(decls.drop_last()) + declaration_entry(decls.last())
    }
}

/// The two lines that open the report.
pub open spec fn report_heading() -> Seq<Seq<char>> {
    seq!["Variable Declarations and References:"@, "==================================="@]
}

/// The whole report.
pub open spec fn report_spec(decls: Seq<DeclarationView>) -> Seq<Seq<char>> {
    report_heading() + report_body(decls)
}

/// `head` followed by `tail`.
fn prefixed(head: &str, tail: &str) -> (line: String)
    ensures
        line@ == head@ + tail@,
{
    let mut line = String::from_str(head);
    line.append(tail);
    line
}

/// Lists the lineage of `name`.
pub fn full_lineage(registry: &Registry, name: &str) -> (lines: Vec<String>)
    ensures
        lines.deep_view() == lineage_spec(registry@, name@),
{
    let mut lines: Vec<String> = Vec::new();
    match registry.get(name) {
        None => {
            assert(lines.deep_view() =~= Seq::<Seq<char>>::empty());
        },
        Some(declaration) => {
            let ghost d = declaration@;
            let ghost told = d.references.map_values(|r: ReferenceView| referenced_line(r));
            lines.push(prefixed("Declared in scope: ", declaration.scope.as_str()));
            assert(lines.deep_view() =~= seq![declared_line(d.scope)] + told.take(0));
            let mut k: usize = 0;
            while k < declaration.references.len()
                invariant
                    k <= declaration.references.len(),
                    d == declaration@,
                    told == d.references.map_values(|r: ReferenceView| referenced_line(r)),
                    lines.deep_view() == seq![declared_line(d.scope)] + told.take(k as int),
                decreases declaration.references.len() - k,
            {
                let ghost before = lines.deep_view();
                let reference = &declaration.references[k];
                let line = prefixed("Referenced in scope: ", reference.context.as_str());
                proof {
                    assert(d.references[k as int] == reference@);
                    assert(line@ == told[k as int]);
                }
                lines.push(line);
                proof {
                    assert(lines.deep_view() =~= before.push(told[k as int]));
                    assert(told.take(k + 1) =~= told.take(k as int).push(told[k as int]));
                }
                k += 1;
            }
            assert(told.take(k as int) =~= told);
        },
    }
    lines
}

/// Writes the line of the report that tells of one reference.
fn reference_line(reference: &Reference) -> (line: String)
    ensures
        line@ == reference_entry(reference@),
{
    let mut line = String::from_str(" - At line ");
    line.append(decimal(reference.location.line).as_str());
    line.append(", column ");
    line.append(decimal(reference.location.column).as_str());
    line.append(" (in scope: ");
    line.append(reference.context.as_str());
    line.append(")");
    line
}

/// Appends the lines of the report that tell of one declaration.
fn push_declaration(lines: &mut Vec<String>, declaration: &Declaration)
    ensures
        final(lines).deep_view() == old(lines).deep_view() + declaration_entry(declaration@),
{
    let ghost start = lines.deep_view();
    let ghost d = declaration@;
    let ghost heading = declaration_heading(d);
    let ghost entries = d.references.map_values(|r: ReferenceView| reference_entry(r));
    lines.push(String::new());
    lines.push(prefixed("Variable: ", declaration.name.as_str()));
    lines.push(prefixed(" Declared in scope: ", declaration.scope.as_str()));
    if declaration.references.len() == 0 {
        lines.push(String::from_str(" No references found"));
    } else {
        lines.push(String::from_str(" References:"));
    }
    assert(lines.deep_view() =~= start + heading + entries.take(0));
    let mut k: usize = 0;
    while k < declaration.references.len()
        invariant
            k <= declaration.references.len(),
            d == declaration@,
            entries == d.references.map_values(|r: ReferenceView| reference_entry(r)),
            lines.deep_view() == start + heading + entries.take(k as int),
        decreases declaration.references.len() - k,
    {
        let ghost before = lines.deep_view();
        let line = reference_line(&declaration.references[k]);
        proof {
            assert(d.references[k as int] == declaration.references[k as int]@);
            assert(line@ == entries[k as int]);
        }
        lines.push(line);
        proof {
            assert(lines.deep_view() =~= before.push(entries[k as int]));
            assert(entries.take(k + 1) =~= entries.take(k as int).push(entries[k as int]));
        }
        k += 1;
    }
    proof {
        assert(entries.take(k as int) =~= entries);
        assert(start + heading + entries =~= start + declaration_entry(d));
    }
}

/// Writes the report: the heading, then each declaration with its scope and
/// its references, or the note that it has none.
pub fn report_lines(registry: &Registry) -> (lines: Vec<String>)
    ensures
        lines.deep_view() == report_spec(registry@),
{
    let all = registry.enumerate_all();
    let ghost decls = registry@;
    let mut lines: Vec<String> = Vec::new();
    lines.push(String::from_str("Variable Declarations and References:"));
    lines.push(String::from_str("==================================="));
    assert(lines.deep_view() =~= report_heading() + report_body(decls.take(0)));
    let mut i: usize = 0;
    while i < all.len()
        invariant
            i <= all.len(),
            decls == all@.map_values(|d: Declaration| d@),
            lines.deep_view() == report_heading() + report_body(decls.take(i as int)),
        decreases all.len() - i,
    {
        push_declaration(&mut lines, &all[i]);
        proof {
            let upto = decls.take(i + 1);
            assert(upto.drop_last() =~= decls.take(i as int));
            assert(upto.last() == all[i as int]@);
            assert(report_heading() + report_body(decls.take(i as int)) + declaration_entry(
                all[i as int]@,
            ) =~= report_heading() + report_body(upto));
        }
        i += 1;
    }
    assert(decls.take(i as int) =~= decls);
    lines
}

} // verus!
