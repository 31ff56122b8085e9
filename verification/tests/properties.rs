use data_lineage_tracker::location::Location;
use data_lineage_tracker::parse::ParseError;
use data_lineage_tracker::DataLineageTracker;

fn analyzed(source: &str) -> DataLineageTracker {
    let mut tracker = DataLineageTracker::new();
    tracker.analyze_source(source).unwrap();
    tracker
}

fn lines(items: &[&str]) -> Vec<String> {
    items.iter().map(|s| s.to_string()).collect()
}

#[test]
fn analysis_is_deterministic() {
    let source = "const a = 1;\nfunction f() { let b = a; return b + a; }\n";
    let first = analyzed(source);
    let second = analyzed(source);
    let one = first.registry().enumerate_all();
    let two = second.registry().enumerate_all();
    assert_eq!(one.len(), 2);
    assert_eq!(one.len(), two.len());
    for i in 0..one.len() {
        assert_eq!(one[i].name, two[i].name);
        assert_eq!(one[i].scope, two[i].scope);
        assert_eq!(one[i].location, two[i].location);
        assert_eq!(one[i].references.len(), two[i].references.len());
        for k in 0..one[i].references.len() {
            assert_eq!(one[i].references[k].context, two[i].references[k].context);
            assert_eq!(one[i].references[k].location, two[i].references[k].location);
        }
    }
    assert_eq!(first.lineage_report(), second.lineage_report());
}

#[test]
fn reanalysis_forgets_the_earlier_text() {
    let mut tracker = DataLineageTracker::new();
    tracker.analyze_source("let first = 1;").unwrap();
    tracker.analyze_source("let second = 2;").unwrap();
    assert!(tracker.get_full_lineage("first").is_empty());
    assert_eq!(tracker.registry().len(), 1);
    assert_eq!(tracker.registry().enumerate_all()[0].name, "second");
}

#[test]
fn nested_functions_give_a_nested_scope() {
    let tracker = analyzed("function outer() { function inner() { let x = 1; } }");
    let x = tracker.registry().get("x").unwrap();
    assert_eq!(x.scope, "outer::inner");
    assert_eq!(x.location, Location { line: 1, column: 43, length: 1 });
}

#[test]
fn top_level_declaration_is_global() {
    let tracker = analyzed("var top = 0;");
    assert_eq!(tracker.registry().get("top").unwrap().scope, "global");
    assert_eq!(
        tracker.get_full_lineage("top"),
        lines(&["Declared in scope: global", "Referenced in scope: global"])
    );
}

#[test]
fn later_declaration_overwrites_the_earlier_one() {
    let source = "function a() { let x = 1; return x + x; }\nfunction b() { let x = 2; }\n";
    let tracker = analyzed(source);
    assert_eq!(tracker.registry().len(), 1);
    let x = tracker.registry().get("x").unwrap();
    assert_eq!(x.scope, "b");
    assert_eq!(x.location, Location { line: 2, column: 20, length: 1 });
    // Only the declarator's own name is met after the second declaration.
    assert_eq!(x.references.len(), 1);
    assert_eq!(x.references[0].context, "b");
    assert_eq!(x.references[0].location, Location { line: 2, column: 20, length: 1 });
    assert_eq!(
        tracker.get_full_lineage("x"),
        lines(&["Declared in scope: b", "Referenced in scope: b"])
    );
}

#[test]
fn mention_before_the_declaration_is_lost() {
    let source = "function early() { return late; }\nvar late = 3;\nlate;\n";
    let tracker = analyzed(source);
    let late = tracker.registry().get("late").unwrap();
    assert_eq!(late.scope, "global");
    let lines_of: Vec<usize> = late.references.iter().map(|r| r.location.line).collect();
    assert_eq!(lines_of, vec![2, 3]);
    assert!(late.references.iter().all(|r| r.context == "global"));
}

#[test]
fn unknown_name_has_no_lineage() {
    let tracker = analyzed("const known = 1;");
    assert_eq!(tracker.get_full_lineage("doesNotExist"), Vec::<String>::new());
    assert!(DataLineageTracker::new().get_full_lineage("doesNotExist").is_empty());
}

#[test]
fn end_to_end_scenario() {
    let source = "const globalVar = 42;\nfunction outer() {\n  let outerVar = globalVar + 1;\n  function inner() {\n    const innerVar = outerVar * 2;\n    return innerVar;\n  }\n  return inner() + outerVar;\n}\n";
    let tracker = analyzed(source);
    let lineage = tracker.get_full_lineage("globalVar");
    assert!(lineage.contains(&"Declared in scope: global".to_string()));
    assert!(lineage.contains(&"Referenced in scope: outer".to_string()));
    assert_eq!(
        lineage,
        lines(&[
            "Declared in scope: global",
            "Referenced in scope: global",
            "Referenced in scope: outer",
        ])
    );
    assert_eq!(
        tracker.get_full_lineage("outerVar"),
        lines(&[
            "Declared in scope: outer",
            "Referenced in scope: outer",
            "Referenced in scope: outer::inner",
            "Referenced in scope: outer",
        ])
    );
    let names: Vec<&str> =
        tracker.registry().enumerate_all().iter().map(|d| d.name.as_str()).collect();
    assert_eq!(names, vec!["globalVar", "outerVar", "innerVar"]);
}

#[test]
fn anonymous_function_adds_nothing_to_the_scope() {
    let source = "function named() { const f = function () { let hidden = 1; }; }";
    let tracker = analyzed(source);
    assert_eq!(tracker.registry().get("hidden").unwrap().scope, "named");
    assert_eq!(tracker.registry().get("f").unwrap().scope, "named");
}

#[test]
fn method_and_class_names_enter_the_scope() {
    let source = "class Box { open() { let lid = 1; return lid; } }";
    let tracker = analyzed(source);
    assert_eq!(
        tracker.get_full_lineage("lid"),
        lines(&[
            "Declared in scope: Box::open",
            "Referenced in scope: Box::open",
            "Referenced in scope: Box::open",
        ])
    );
}

#[test]
fn names_beyond_ascii_are_read() {
    let tracker = analyzed("let caf\u{e9} = 1;\ncaf\u{e9};\n");
    let d = tracker.registry().get("caf\u{e9}").unwrap();
    assert_eq!(d.location, Location { line: 1, column: 5, length: 5 });
    assert_eq!(d.references.len(), 2);
}

#[test]
fn report_lists_every_declaration() {
    let tracker = analyzed("let a = 1;\nfunction f() { return a; }\n");
    assert_eq!(
        tracker.lineage_report(),
        lines(&[
            "Variable Declarations and References:",
            "===================================",
            "",
            "Variable: a",
            " Declared in scope: global",
            " References:",
            " - At line 1, column 5 (in scope: global)",
            " - At line 2, column 23 (in scope: f)",
        ])
    );
    assert_eq!(
        DataLineageTracker::new().lineage_report(),
        lines(&["Variable Declarations and References:", "==================================="])
    );
}

#[test]
fn invalid_syntax_is_a_parse_failure() {
    let mut tracker = DataLineageTracker::new();
    let failed = tracker.analyze_source("function ( {");
    assert_eq!(failed, Err(ParseError::ParseFailed));
    assert_eq!(failed.unwrap_err().message(), "Failed to parse source code");
    assert_eq!(tracker.registry().len(), 0);
}

#[test]
fn failed_analysis_keeps_what_was_found() {
    let mut tracker = analyzed("let kept = 1; kept;");
    let before = tracker.lineage_report();
    assert!(tracker.analyze_source("let = = ;").is_err());
    assert_eq!(tracker.lineage_report(), before);
    assert_eq!(tracker.registry().get("kept").unwrap().references.len(), 2);
}

#[test]
fn empty_text_declares_nothing() {
    let mut tracker = DataLineageTracker::new();
    assert_eq!(tracker.analyze_source(""), Ok(()));
    assert_eq!(tracker.registry().len(), 0);
    let mut used = analyzed("let gone = 1;");
    assert_eq!(used.analyze_source(""), Ok(()));
    assert_eq!(used.registry().len(), 0);
}

#[test]
fn same_sized_neighbours_do_not_confuse_the_name() {
    // The declarator's name and its value are distinct children.
    let tracker = analyzed("let a = b;\nlet b = a;\n");
    assert_eq!(tracker.registry().get("a").unwrap().location, Location { line: 1, column: 5, length: 1 });
    assert_eq!(tracker.registry().get("b").unwrap().location, Location { line: 2, column: 5, length: 1 });
    assert_eq!(tracker.registry().get("a").unwrap().references.len(), 2);
}
