use code_graph::{fetch_project_calls, LanguageQuery, SourceUnit};

#[test]
fn source_unit_infers_its_language_from_the_extension() {
    let unit = SourceUnit::new("/p/a.rs", "rs", "fn f() {}");
    assert_eq!(unit.path, "/p/a.rs");
    assert_eq!(unit.code, "fn f() {}");
    assert_eq!(unit.language, Some(LanguageQuery::Rust));
    assert_eq!(SourceUnit::new("a.h", "h", "").language, Some(LanguageQuery::C));
    assert_eq!(SourceUnit::new("a.py", "py", "f()").language, None);
    assert_eq!(SourceUnit::new("Makefile", "", "all:").language, None);
}

#[test]
fn project_calls_follow_file_order_and_discovery_order() {
    let units = vec![
        SourceUnit::new("b.js", "js", "second(first(1)); third();"),
        SourceUnit::new("notes.py", "py", "skipped()"),
        SourceUnit::new("a.rs", "rs", "fn f() { x.one(); two(); }"),
        SourceUnit::new("empty.c", "c", ""),
        SourceUnit::new("M.java", "java", "class M { void f() { go(); } }"),
    ];
    let calls = fetch_project_calls(&units).unwrap();
    let found: Vec<(&str, &str)> =
        calls.iter().map(|c| (c.file_path.as_str(), c.label.as_str())).collect();
    assert_eq!(
        found,
        vec![
            ("b.js", "second"),
            ("b.js", "first"),
            ("b.js", "third"),
            ("a.rs", "one"),
            ("a.rs", "two"),
            ("M.java", "go"),
        ]
    );
}

#[test]
fn project_without_supported_files_has_no_calls() {
    assert!(fetch_project_calls(&Vec::new()).unwrap().is_empty());
    let units = vec![SourceUnit::new("a.py", "py", "f()"), SourceUnit::new("b.txt", "txt", "g()")];
    assert!(fetch_project_calls(&units).unwrap().is_empty());
}

fn some_call(id: &str, label: &str) -> code_graph::CodeNode {
    code_graph::CodeNode::new(id, label, "", 1, code_graph::CodeBlockType::CALL, 0)
}

fn ids_of(calls: &[code_graph::CodeNode]) -> Vec<&str> {
    calls.iter().map(|call| call.id.as_str()).collect()
}

#[test]
fn collection_lays_the_lists_end_to_end() {
    let outcomes = vec![
        Some(Ok(vec![some_call("1", "a"), some_call("2", "b")])),
        None,
        Some(Ok(Vec::new())),
        Some(Ok(vec![some_call("3", "c")])),
        None,
    ];
    let calls = code_graph::project::collect_calls(outcomes).unwrap();
    assert_eq!(ids_of(&calls), vec!["1", "2", "3"]);
    assert_eq!(calls[2].label, "c");
}

#[test]
fn collection_of_nothing_is_empty() {
    assert!(code_graph::project::collect_calls(Vec::new()).unwrap().is_empty());
    assert!(code_graph::project::collect_calls(vec![None, None]).unwrap().is_empty());
}

#[test]
fn collection_fails_with_the_first_failure() {
    use_first_failure();
}

fn use_first_failure() {
    let outcomes = vec![
        Some(Ok(vec![some_call("1", "a")])),
        None,
        Some(Err(code_graph::ExtractError::TooDeep)),
        Some(Ok(vec![some_call("2", "b")])),
        Some(Err(code_graph::ExtractError::Grammar)),
    ];
    assert_eq!(
        code_graph::project::collect_calls(outcomes).err(),
        Some(code_graph::ExtractError::TooDeep)
    );
    assert_eq!(
        code_graph::project::collect_calls(vec![Some(Err(code_graph::ExtractError::Parse))]).err(),
        Some(code_graph::ExtractError::Parse)
    );
    assert_eq!(
        code_graph::project::collect_calls(vec![None, Some(Err(code_graph::ExtractError::Span))])
            .err(),
        Some(code_graph::ExtractError::Span)
    );
}

#[test]
fn project_calls_have_identifiers_of_the_library() {
    let units = vec![
        SourceUnit::new("b.js", "js", "second(first(1)); third();"),
        SourceUnit::new("a.rs", "rs", "fn f() { x.one(); two(); }"),
    ];
    for call in fetch_project_calls(&units).unwrap() {
        assert_eq!(call.id.len(), 36);
    }
}
