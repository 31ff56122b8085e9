use data_lineage_tracker::location::Location;
use data_lineage_tracker::parse::parse_source;
use data_lineage_tracker::parse::ParseError;
use data_lineage_tracker::registry::Registry;
use data_lineage_tracker::scope::is_scope_kind;
use data_lineage_tracker::scope::resolve_scope;
use data_lineage_tracker::text::decimal;
use data_lineage_tracker::text::join;
use data_lineage_tracker::text::reversed;
use data_lineage_tracker::text::slice_text;
use data_lineage_tracker::text::str_eq;
use data_lineage_tracker::tree::Span;
use data_lineage_tracker::tree::SyntaxTree;
use data_lineage_tracker::walker::visit;
use data_lineage_tracker::walker::walk;
use data_lineage_tracker::walker::walk_node;
use data_lineage_tracker::DataLineageTracker;

fn span(start_byte: usize, end_byte: usize, column: usize) -> Span {
    Span { start_byte, end_byte, row: 0, column }
}

/// `function f() { var v; v }` written out by hand.
fn small_tree() -> SyntaxTree {
    let source = "function f() { var v; v }";
    let mut tree = SyntaxTree::new(source);
    assert_eq!(tree.add_node(None, "program", span(0, 25, 0), false), Some(0));
    assert_eq!(tree.add_node(Some(0), "function_declaration", span(0, 25, 0), false), Some(1));
    assert_eq!(tree.add_node(Some(1), "identifier", span(9, 10, 9), true), Some(2));
    assert_eq!(tree.add_node(Some(1), "statement_block", span(13, 25, 13), false), Some(3));
    assert_eq!(tree.add_node(Some(3), "variable_declarator", span(19, 20, 19), false), Some(4));
    assert_eq!(tree.add_node(Some(4), "identifier", span(19, 20, 19), true), Some(5));
    assert_eq!(tree.add_node(Some(3), "identifier", span(22, 23, 22), false), Some(6));
    tree
}

#[test]
fn tree_keeps_what_it_is_given() {
    let tree = small_tree();
    assert_eq!(tree.len(), 7);
    assert_eq!(tree.source(), "function f() { var v; v }");
    assert_eq!(tree.node(0).parent, None);
    assert_eq!(tree.node(0).children, vec![1]);
    assert_eq!(tree.node(1).children, vec![2, 3]);
    assert_eq!(tree.node(1).name_child, Some(2));
    assert_eq!(tree.node(3).children, vec![4, 6]);
    assert_eq!(tree.node(3).name_child, None);
    assert_eq!(tree.node(4).parent, Some(3));
    assert_eq!(tree.node(4).kind, "variable_declarator");
    assert_eq!(tree.node(6).span, span(22, 23, 22));
    assert_eq!(tree.text(2), Some("f"));
    assert_eq!(tree.text(3), Some("{ var v; v }"));
}

#[test]
fn tree_refuses_what_does_not_fit() {
    let mut tree = SyntaxTree::new("ab");
    assert_eq!(tree.add_node(Some(0), "x", span(0, 1, 0), false), None);
    assert_eq!(tree.add_node(None, "x", span(1, 0, 0), false), None);
    let wide = Span { start_byte: 0, end_byte: 1, row: usize::MAX, column: 0 };
    assert_eq!(tree.add_node(None, "x", wide, false), None);
    let far = Span { start_byte: 0, end_byte: 1, row: 0, column: usize::MAX };
    assert_eq!(tree.add_node(None, "x", far, false), None);
    assert_eq!(tree.len(), 0);
    assert_eq!(tree.add_node(None, "root", span(0, 2, 0), false), Some(0));
    assert_eq!(tree.add_node(None, "again", span(0, 2, 0), false), None);
    assert_eq!(tree.add_node(Some(1), "x", span(0, 1, 0), false), None);
    assert_eq!(tree.len(), 1);
}

#[test]
fn first_name_child_stays() {
    let mut tree = SyntaxTree::new("ab");
    tree.add_node(None, "root", span(0, 2, 0), false);
    tree.add_node(Some(0), "a", span(0, 1, 0), true);
    tree.add_node(Some(0), "b", span(1, 2, 1), true);
    assert_eq!(tree.node(0).name_child, Some(1));
}

#[test]
fn walk_over_a_hand_built_tree() {
    let tree = small_tree();
    let registry = walk(&tree);
    assert_eq!(registry.len(), 1);
    let v = registry.get("v").unwrap();
    assert_eq!(v.scope, "f");
    assert_eq!(v.location, Location { line: 1, column: 20, length: 1 });
    assert_eq!(v.references.len(), 2);
    assert_eq!(v.references[0].location, Location { line: 1, column: 20, length: 1 });
    assert_eq!(v.references[1].location, Location { line: 1, column: 23, length: 1 });
    assert_eq!(v.references[1].context, "f");
    // The function's own name is an identifier too, but nothing declares it.
    assert!(registry.get("f").is_none());

    let mut tracker = DataLineageTracker::new();
    tracker.analyze_tree(&tree);
    assert_eq!(
        tracker.get_full_lineage("v"),
        vec![
            "Declared in scope: f".to_string(),
            "Referenced in scope: f".to_string(),
            "Referenced in scope: f".to_string(),
        ]
    );
}

#[test]
fn visit_and_walk_node_work_on_parts() {
    let tree = small_tree();
    let mut registry = Registry::new();
    visit(&tree, 6, &mut registry);
    assert_eq!(registry.len(), 0);
    visit(&tree, 4, &mut registry);
    assert_eq!(registry.get("v").unwrap().references.len(), 0);
    visit(&tree, 6, &mut registry);
    assert_eq!(registry.get("v").unwrap().references.len(), 1);
    visit(&tree, 3, &mut registry);
    assert_eq!(registry.get("v").unwrap().references.len(), 1);

    let mut below = Registry::new();
    walk_node(&tree, 4, &mut below);
    assert_eq!(below.get("v").unwrap().references.len(), 1);
    assert_eq!(walk(&SyntaxTree::new("")).len(), 0);
}

#[test]
fn scope_of_hand_built_nodes() {
    let tree = small_tree();
    assert_eq!(resolve_scope(&tree, 0), "global");
    assert_eq!(resolve_scope(&tree, 1), "global");
    assert_eq!(resolve_scope(&tree, 2), "f");
    assert_eq!(resolve_scope(&tree, 6), "f");
    assert_eq!(resolve_scope(&tree, 99), "global");
    assert!(is_scope_kind("function_declaration"));
    assert!(is_scope_kind("method_definition"));
    assert!(is_scope_kind("class_declaration"));
    assert!(!is_scope_kind("function"));
    assert!(!is_scope_kind("identifier"));
}

#[test]
fn unreadable_names_are_skipped() {
    // The name of the function and the name of the declarator lie outside
    // the text; the empty name of the class does not.
    let mut tree = SyntaxTree::new("class {v}");
    tree.add_node(None, "program", span(0, 9, 0), false);
    tree.add_node(Some(0), "class_declaration", span(0, 9, 0), false);
    tree.add_node(Some(1), "identifier", span(5, 5, 5), true);
    tree.add_node(Some(1), "function_declaration", span(6, 9, 6), false);
    tree.add_node(Some(3), "identifier", span(40, 41, 6), true);
    tree.add_node(Some(3), "variable_declarator", span(7, 8, 7), false);
    tree.add_node(Some(5), "identifier", span(50, 51, 7), true);
    tree.add_node(Some(3), "variable_declarator", span(7, 8, 7), false);
    tree.add_node(Some(7), "identifier", span(7, 8, 7), true);
    assert_eq!(tree.text(4), None);
    assert_eq!(tree.text(2), Some(""));
    let registry = walk(&tree);
    assert_eq!(registry.len(), 1);
    // One enclosing name, the empty one: the path is empty, not `global`.
    assert_eq!(registry.get("v").unwrap().scope, "");
    assert_eq!(resolve_scope(&tree, 1), "global");
}

#[test]
fn registry_overwrites_and_appends() {
    let mut registry = Registry::new();
    let at = |line| Location { line, column: 1, length: 1 };
    assert!(!registry.append_reference("a", at(1), "global".to_string()));
    assert_eq!(registry.len(), 0);
    registry.insert_declaration("a".to_string(), at(2), "global".to_string());
    registry.insert_declaration("b".to_string(), at(3), "f".to_string());
    assert!(registry.append_reference("a", at(4), "f".to_string()));
    assert!(registry.append_reference("a", at(5), "g".to_string()));
    assert!(registry.contains("a"));
    assert!(!registry.contains("c"));
    assert_eq!(registry.find("a"), Some(0));
    assert_eq!(registry.find("b"), Some(1));
    assert_eq!(registry.find("c"), None);
    assert_eq!(registry.get("a").unwrap().references.len(), 2);
    assert_eq!(registry.get("a").unwrap().references[1].context, "g");
    registry.insert_declaration("a".to_string(), at(6), "h".to_string());
    assert_eq!(registry.len(), 2);
    assert_eq!(registry.find("a"), Some(1));
    assert_eq!(registry.find("b"), Some(0));
    let a = registry.get("a").unwrap();
    assert_eq!(a.location, at(6));
    assert_eq!(a.scope, "h");
    assert!(a.references.is_empty());
    let names: Vec<&str> = registry.enumerate_all().iter().map(|d| d.name.as_str()).collect();
    assert_eq!(names, vec!["b", "a"]);
}

#[test]
fn text_primitives() {
    assert!(str_eq("", ""));
    assert!(str_eq("abc", "abc"));
    assert!(!str_eq("abc", "abd"));
    assert!(!str_eq("abc", "ab"));
    assert!(str_eq("\u{e9}", "\u{e9}"));

    let source = "a\u{e9}b";
    assert_eq!(slice_text(source, 0, 4), Some(source));
    assert_eq!(slice_text(source, 1, 3), Some("\u{e9}"));
    assert_eq!(slice_text(source, 3, 4), Some("b"));
    assert_eq!(slice_text(source, 1, 2), None);
    assert_eq!(slice_text(source, 2, 3), None);
    assert_eq!(slice_text(source, 2, 2), Some(""));
    assert_eq!(slice_text(source, 4, 4), Some(""));
    assert_eq!(slice_text(source, 3, 1), None);
    assert_eq!(slice_text(source, 0, 5), None);
    assert_eq!(slice_text(source, 5, 5), None);

    let parts = vec!["a".to_string(), "".to_string(), "bc".to_string()];
    assert_eq!(join(&parts, "::"), "a::::bc");
    assert_eq!(join(&vec!["one".to_string()], "::"), "one");
    assert_eq!(join(&Vec::new(), "::"), "");
    assert_eq!(reversed(parts), vec!["bc".to_string(), "".to_string(), "a".to_string()]);
    assert_eq!(reversed(Vec::new()), Vec::<String>::new());

    assert_eq!(decimal(0), "0");
    assert_eq!(decimal(7), "7");
    assert_eq!(decimal(10), "10");
    assert_eq!(decimal(1234567890), "1234567890");
    assert_eq!(decimal(usize::MAX), usize::MAX.to_string());
}

#[test]
fn location_counts_from_one() {
    let location = Location::of(Span { start_byte: 10, end_byte: 14, row: 0, column: 7 });
    assert_eq!(location, Location { line: 1, column: 8, length: 4 });
    assert!(Span { start_byte: 2, end_byte: 2, row: 0, column: 0 }.is_valid());
    assert!(!Span { start_byte: 3, end_byte: 2, row: 0, column: 0 }.is_valid());
}

#[test]
fn parsing_copies_the_tree_in_walking_order() {
    let tree = parse_source("let a = 1;").unwrap();
    assert_eq!(tree.source(), "let a = 1;");
    let kinds: Vec<&str> = (0..tree.len()).map(|i| tree.node(i).kind.as_str()).collect();
    assert_eq!(
        kinds,
        vec![
            "program",
            "lexical_declaration",
            "let",
            "variable_declarator",
            "identifier",
            "=",
            "number",
            ";",
        ]
    );
    assert_eq!(tree.node(3).name_child, Some(4));
    assert_eq!(tree.node(3).children, vec![4, 5, 6]);
    assert_eq!(tree.node(4).span, Span { start_byte: 4, end_byte: 5, row: 0, column: 4 });
    assert_eq!(tree.text(6), Some("1"));
    assert_eq!(tree.node(1).parent, Some(0));
    // Text that is no JavaScript fails to parse; the empty text is a program.
    assert_eq!(parse_source("let = = ;").err(), Some(ParseError::ParseFailed));
    assert_eq!(parse_source("function ( {").err(), Some(ParseError::ParseFailed));
    let empty = parse_source("").unwrap();
    assert_eq!(empty.len(), 1);
    assert_eq!(empty.node(0).kind, "program");
    assert_eq!(empty.node(0).children, Vec::<usize>::new());
}

#[test]
fn errors_have_messages() {
    assert_eq!(ParseError::ParseFailed.message(), "Failed to parse source code");
    assert_eq!(ParseError::IncompatibleGrammar.message(), "Incompatible language version");
    assert_eq!(ParseError::MalformedTree.message(), "Malformed syntax tree");
}
