use data_lineage_tracker::DataLineageTracker;

const SAMPLE: &str = r#"
        const globalVar = 42;
        function outer() {
            let outerVar = globalVar + 1;
            function inner() {
                const innerVar = outerVar * 2;
                return innerVar;
            }
            return inner() + outerVar;
        }
        class Example {
            constructor() {
                this.classVar = globalVar;
            }
            method() {
                return this.classVar + globalVar;
            }
        }
        "#;

#[test]
fn test_variable_tracking() {
    let mut tracker = DataLineageTracker::new();
    tracker.analyze_source(SAMPLE).unwrap();

    let lineage = tracker.get_full_lineage("globalVar");
    assert!(lineage.contains(&"Declared in scope: global".to_string()));
}

#[test]
fn sample_lineage_is_exact() {
    let mut tracker = DataLineageTracker::new();
    tracker.analyze_source(SAMPLE).unwrap();
    assert_eq!(
        tracker.get_full_lineage("globalVar"),
        vec![
            "Declared in scope: global".to_string(),
            "Referenced in scope: global".to_string(),
            "Referenced in scope: outer".to_string(),
            "Referenced in scope: Example::constructor".to_string(),
            "Referenced in scope: Example::method".to_string(),
        ]
    );
    assert_eq!(
        tracker.get_full_lineage("innerVar"),
        vec![
            "Declared in scope: outer::inner".to_string(),
            "Referenced in scope: outer::inner".to_string(),
            "Referenced in scope: outer::inner".to_string(),
        ]
    );
}
