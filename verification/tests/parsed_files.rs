use code_graph::{
    fetch_calls, fetch_symbols, get_symbol_query, valid_file_extention, CodeBlockType, CodeNode,
    Graph, LanguageQuery, SymbolQuery,
};

fn outline(path: &str, code: &str, query: LanguageQuery) -> Vec<CodeNode> {
    let mut graph = Graph::new();
    fetch_symbols(path, code, query, &mut graph).unwrap();
    graph.nodes().clone()
}

#[test]
fn c_function_is_labelled_up_to_the_parenthesis() {
    let nodes = outline("add.c", "int add(int a,int b){return a+b;}", LanguageQuery::C);
    assert_eq!(nodes.len(), 2);
    assert_eq!(nodes[1].label, "int add");
    assert_eq!(nodes[1].block_type, CodeBlockType::FUNCTION);
    assert_eq!(nodes[1].block, "int add(int a,int b){return a+b;}");
    assert_eq!(nodes[1].file_location, 1);
    assert_eq!(nodes[1].file_path, "add.c");
    assert_eq!(nodes[1].level, 1);
}

#[test]
fn rust_function_is_labelled_up_to_the_parameters() {
    let nodes = outline("foo.rs", "fn foo(x: i32) -> i32 { x }", LanguageQuery::Rust);
    assert_eq!(nodes.len(), 2);
    assert_eq!(nodes[1].label, "fn foo");
    assert_eq!(nodes[1].block_type, CodeBlockType::FUNCTION);
}

#[test]
fn js_top_level_binding_is_one_const() {
    let nodes = outline("a.js", "const a = 1, b = 2;", LanguageQuery::JavaScript);
    assert_eq!(nodes.len(), 2);
    assert_eq!(nodes[1].label, "const a b");
    assert_eq!(nodes[1].block_type, CodeBlockType::CONST);
}

#[test]
fn member_call_is_named_after_the_member() {
    let calls = fetch_calls("a.js", "obj.method(1,2)", LanguageQuery::JavaScript).unwrap();
    assert_eq!(calls.len(), 1);
    assert_eq!(calls[0].label, "method");
    assert_eq!(calls[0].block_type, CodeBlockType::CALL);
    assert_eq!(calls[0].block, "obj.method(1,2)");
}

#[test]
fn plain_call_is_named_after_the_callee() {
    let calls = fetch_calls("a.js", "foo(1,2)", LanguageQuery::JavaScript).unwrap();
    assert_eq!(calls.len(), 1);
    assert_eq!(calls[0].label, "foo");
}

#[test]
fn unsupported_extension_has_no_adapter() {
    assert!(!valid_file_extention("py"));
    assert!(get_symbol_query("py").is_none());
    assert_eq!(get_symbol_query("rs"), Some(LanguageQuery::Rust));
}

fn labels(nodes: &[CodeNode]) -> Vec<&str> {
    nodes.iter().map(|node| node.label.as_str()).collect()
}

fn edges_of(path: &str, code: &str, query: LanguageQuery) -> Vec<(usize, usize)> {
    let mut graph = Graph::new();
    fetch_symbols(path, code, query, &mut graph).unwrap();
    graph.edges().iter().map(|edge| (edge.from, edge.to)).collect()
}

const RUST_FILE: &str = "struct S { a: i32 }\nimpl S {\n  fn new() -> S { S { a: helper(1) } }\n  fn go(&self) { self.run(); x.y.z(); }\n}\ntrait T { fn t(&self); }\n";

const JAVA_FILE: &str =
    "class A { void f(int x) { g(x); this.h(); a.b.c(1); } }\ninterface I { int m(); }";

const JS_FILE: &str = "function f(a) { return g(a); }\nclass K { m(x) { const q = 1; return x.y(z(1)); } }\nlet u = 1;\n";

const C_FILE: &str =
    "#include <x.h>\nstatic int f(void) { return s->g(1) + h(2); }\nint (*fp)(int);\nvoid é(void) {}\n";

#[test]
fn rust_outline_of_a_file() {
    let nodes = outline("s.rs", RUST_FILE, LanguageQuery::Rust);
    assert_eq!(
        labels(&nodes),
        vec!["s.rs", "struct S", "impl S", "fn new", "fn go", "trait T", "fn t"]
    );
    let kinds: Vec<CodeBlockType> = nodes.iter().map(|n| n.block_type).collect();
    assert_eq!(
        kinds,
        vec![
            CodeBlockType::NORMAL,
            CodeBlockType::STRUCT,
            CodeBlockType::CLASS,
            CodeBlockType::FUNCTION,
            CodeBlockType::FUNCTION,
            CodeBlockType::CLASS,
            CodeBlockType::FUNCTION,
        ]
    );
    let levels: Vec<usize> = nodes.iter().map(|n| n.level).collect();
    assert_eq!(levels, vec![0, 1, 1, 2, 2, 1, 2]);
    let lines: Vec<usize> = nodes.iter().map(|n| n.file_location).collect();
    assert_eq!(lines, vec![0, 1, 2, 3, 4, 6, 6]);
    assert_eq!(
        edges_of("s.rs", RUST_FILE, LanguageQuery::Rust),
        vec![(0, 1), (0, 2), (2, 3), (2, 4), (0, 5), (5, 6)]
    );
    assert_eq!(nodes[3].block, "fn new() -> S { S { a: helper(1) } }");
}

#[test]
fn java_outline_of_a_file() {
    let nodes = outline("A.java", JAVA_FILE, LanguageQuery::Java);
    assert_eq!(labels(&nodes), vec!["A.java", "class A", "void f", "interface I", "int m"]);
    let levels: Vec<usize> = nodes.iter().map(|n| n.level).collect();
    assert_eq!(levels, vec![0, 1, 2, 1, 2]);
    assert_eq!(
        edges_of("A.java", JAVA_FILE, LanguageQuery::Java),
        vec![(0, 1), (1, 2), (0, 3), (3, 4)]
    );
    assert_eq!(nodes[1].block_type, CodeBlockType::CLASS);
    assert_eq!(nodes[2].block_type, CodeBlockType::FUNCTION);
    assert_eq!(nodes[3].block_type, CodeBlockType::CLASS);
}

#[test]
fn js_outline_of_a_file() {
    let nodes = outline("k.js", JS_FILE, LanguageQuery::JavaScript);
    assert_eq!(labels(&nodes), vec!["k.js", "function f", "class K", "m", "let u"]);
    let levels: Vec<usize> = nodes.iter().map(|n| n.level).collect();
    assert_eq!(levels, vec![0, 1, 1, 2, 1]);
    assert_eq!(nodes[4].block_type, CodeBlockType::CONST);
    assert_eq!(nodes[4].file_location, 3);
}

#[test]
fn js_binding_inside_a_function_is_no_definition() {
    let nodes = outline("k.js", "function f() { const q = 1; }", LanguageQuery::JavaScript);
    assert_eq!(labels(&nodes), vec!["k.js", "function f"]);
}

#[test]
fn c_outline_of_a_file() {
    let nodes = outline("k.c", C_FILE, LanguageQuery::C);
    assert_eq!(labels(&nodes), vec!["k.c", "static int f", "void é"]);
    assert_eq!(nodes[1].file_location, 2);
    assert_eq!(nodes[2].file_location, 4);
    assert_eq!(nodes[2].block, "void é(void) {}");
}

#[test]
fn calls_of_each_language_in_discovery_order() {
    let rust = fetch_calls("s.rs", RUST_FILE, LanguageQuery::Rust).unwrap();
    assert_eq!(labels(&rust), vec!["helper", "run", "z"]);
    let lines: Vec<usize> = rust.iter().map(|c| c.file_location).collect();
    assert_eq!(lines, vec![3, 4, 4]);
    let java = fetch_calls("A.java", JAVA_FILE, LanguageQuery::Java).unwrap();
    assert_eq!(labels(&java), vec!["g", "h", "c"]);
    let js = fetch_calls("k.js", JS_FILE, LanguageQuery::JavaScript).unwrap();
    assert_eq!(labels(&js), vec!["g", "y", "z"]);
    let c = fetch_calls("k.c", C_FILE, LanguageQuery::C).unwrap();
    assert_eq!(labels(&c), vec!["g", "h"]);
    for call in rust.iter().chain(&java).chain(&js).chain(&c) {
        assert_eq!(call.block_type, CodeBlockType::CALL);
        assert_eq!(call.level, 0);
    }
    assert_eq!(rust[0].file_path, "s.rs");
    assert_eq!(c[0].block, "s->g(1)");
}

#[test]
fn call_line_is_that_of_the_name() {
    let calls = fetch_calls("m.rs", "fn f() {\n  a\n    .b();\n}", LanguageQuery::Rust).unwrap();
    assert_eq!(calls.len(), 1);
    assert_eq!(calls[0].label, "b");
    assert_eq!(calls[0].file_location, 3);
    assert_eq!(calls[0].block, "a\n    .b()");
}

#[test]
fn root_is_record_zero_at_depth_zero_for_every_language() {
    let files = [
        ("s.rs", RUST_FILE, LanguageQuery::Rust),
        ("A.java", JAVA_FILE, LanguageQuery::Java),
        ("k.js", JS_FILE, LanguageQuery::JavaScript),
        ("k.c", C_FILE, LanguageQuery::C),
    ];
    for (path, code, query) in files {
        let nodes = outline(path, code, query);
        assert_eq!(nodes[0].label, path);
        assert_eq!(nodes[0].block, code);
        assert_eq!(nodes[0].level, 0);
        assert_eq!(nodes[0].file_location, 0);
        assert_eq!(nodes[0].block_type, CodeBlockType::NORMAL);
    }
}

#[test]
fn every_record_but_the_root_is_one_level_below_its_one_parent() {
    let files = [
        ("s.rs", RUST_FILE, LanguageQuery::Rust),
        ("A.java", JAVA_FILE, LanguageQuery::Java),
        ("k.js", JS_FILE, LanguageQuery::JavaScript),
        ("k.c", C_FILE, LanguageQuery::C),
    ];
    for (path, code, query) in files {
        let mut graph = Graph::new();
        fetch_symbols(path, code, query, &mut graph).unwrap();
        assert!(graph.is_tree());
        let nodes = graph.nodes();
        let edges = graph.edges();
        for record in 0..nodes.len() {
            let incoming: Vec<usize> =
                edges.iter().filter(|e| e.to == record).map(|e| e.from).collect();
            if record == 0 {
                assert!(incoming.is_empty());
            } else {
                assert_eq!(incoming.len(), 1);
                assert!(incoming[0] < record);
                assert_eq!(nodes[record].level, nodes[incoming[0]].level + 1);
            }
        }
    }
}

#[test]
fn fetching_calls_again_gives_the_same_labels_under_other_identifiers() {
    let first = fetch_calls("s.rs", RUST_FILE, LanguageQuery::Rust).unwrap();
    let second = fetch_calls("s.rs", RUST_FILE, LanguageQuery::Rust).unwrap();
    assert_eq!(first.len(), second.len());
    assert_eq!(labels(&first), labels(&second));
    for (a, b) in first.iter().zip(second.iter()) {
        assert_ne!(a.id, b.id);
    }
}

#[test]
fn fetching_symbols_again_gives_the_same_outline() {
    let first = outline("s.rs", RUST_FILE, LanguageQuery::Rust);
    let second = outline("s.rs", RUST_FILE, LanguageQuery::Rust);
    assert_eq!(labels(&first), labels(&second));
    for (a, b) in first.iter().zip(second.iter()) {
        assert_eq!(a.level, b.level);
        assert_eq!(a.block_type, b.block_type);
        assert_eq!(a.block, b.block);
    }
}

#[test]
fn identifiers_are_hyphenated_and_differ() {
    let nodes = outline("s.rs", RUST_FILE, LanguageQuery::Rust);
    for node in &nodes {
        assert_eq!(node.id.len(), 36);
        let hyphens: Vec<usize> =
            node.id.char_indices().filter(|(_, c)| *c == '-').map(|(i, _)| i).collect();
        assert_eq!(hyphens, vec![8, 13, 18, 23]);
        assert!(node.id.chars().all(|c| c == '-' || c.is_ascii_hexdigit()));
    }
    for (i, a) in nodes.iter().enumerate() {
        for b in &nodes[i + 1..] {
            assert_ne!(a.id, b.id);
        }
    }
}

#[test]
fn empty_and_blank_files_give_the_root_alone() {
    for code in ["", "   \n\t\n"] {
        for (path, query) in [
            ("e.rs", LanguageQuery::Rust),
            ("e.java", LanguageQuery::Java),
            ("e.js", LanguageQuery::JavaScript),
            ("e.c", LanguageQuery::C),
        ] {
            let mut graph = Graph::new();
            assert!(fetch_symbols(path, code, query, &mut graph).is_ok());
            assert_eq!(graph.nodes().len(), 1);
            assert_eq!(graph.nodes()[0].label, path);
            assert!(graph.edges().is_empty());
            assert!(fetch_calls(path, code, query).unwrap().is_empty());
        }
    }
}

#[test]
fn malformed_text_is_walked_without_failing() {
    let code = "fn ok() {}\nfn broken( { ]] struct\nimpl X { fn inner() { call( } }";
    let mut graph = Graph::new();
    assert!(fetch_symbols("bad.rs", code, LanguageQuery::Rust, &mut graph).is_ok());
    assert!(graph.is_tree());
    assert_eq!(graph.nodes()[0].label, "bad.rs");
    assert!(graph.nodes().iter().any(|n| n.label == "fn ok"));
    assert!(fetch_calls("bad.rs", code, LanguageQuery::Rust).is_ok());
    assert!(fetch_calls("bad.c", "int f( { ) ] g(1", LanguageQuery::C).is_ok());
    assert!(fetch_calls("bad.js", "function ( { x.y( ", LanguageQuery::JavaScript).is_ok());
    assert!(fetch_calls("bad.java", "class { void ( a.b( }", LanguageQuery::Java).is_ok());
}

#[test]
fn text_beyond_ascii_is_cut_between_characters() {
    let code = "// überschrift →\nfn größe(x: i32) { zähle(x); }\n";
    let nodes = outline("u.rs", code, LanguageQuery::Rust);
    assert_eq!(labels(&nodes), vec!["u.rs", "fn größe"]);
    assert_eq!(nodes[1].file_location, 2);
    let calls = fetch_calls("u.rs", code, LanguageQuery::Rust).unwrap();
    assert_eq!(labels(&calls), vec!["zähle"]);
    assert_eq!(calls[0].block, "zähle(x)");
}

#[test]
fn fetch_symbols_replaces_the_graph() {
    let mut graph = Graph::new();
    fetch_symbols("s.rs", RUST_FILE, LanguageQuery::Rust, &mut graph).unwrap();
    graph.set_focus(code_graph::CodeNodeIndex(3));
    fetch_symbols("k.c", C_FILE, LanguageQuery::C, &mut graph).unwrap();
    assert_eq!(labels(graph.nodes()), vec!["k.c", "static int f", "void é"]);
    assert_eq!(graph.edges().len(), 2);
    assert!(graph.get_focus_idx().is_none());
}

#[test]
fn adapters_are_told_by_extension() {
    assert_eq!(get_symbol_query("rs"), Some(LanguageQuery::Rust));
    assert_eq!(get_symbol_query("java"), Some(LanguageQuery::Java));
    assert_eq!(get_symbol_query("c"), Some(LanguageQuery::C));
    assert_eq!(get_symbol_query("h"), Some(LanguageQuery::C));
    assert_eq!(get_symbol_query("js"), Some(LanguageQuery::JavaScript));
    assert_eq!(get_symbol_query("jsx"), Some(LanguageQuery::JavaScript));
    for known in ["rs", "c", "h", "java", "js", "jsx"] {
        assert!(valid_file_extention(known));
    }
    for unknown in ["py", "", "RS", "rsx", "ts", ".rs", "jav"] {
        assert!(!valid_file_extention(unknown));
        assert!(get_symbol_query(unknown).is_none());
    }
}

#[test]
fn single_adapters_and_the_closed_one_agree() {
    let one = fetch_calls("s.rs", RUST_FILE, code_graph::RustQuery).unwrap();
    let any = fetch_calls("s.rs", RUST_FILE, LanguageQuery::Rust).unwrap();
    assert_eq!(labels(&one), labels(&any));
    let one = fetch_calls("A.java", JAVA_FILE, code_graph::JavaQuery).unwrap();
    assert_eq!(labels(&one), vec!["g", "h", "c"]);
    let one = fetch_calls("k.js", JS_FILE, code_graph::JsQuery).unwrap();
    assert_eq!(labels(&one), vec!["g", "y", "z"]);
    let one = fetch_calls("k.c", C_FILE, code_graph::CQuery).unwrap();
    assert_eq!(labels(&one), vec!["g", "h"]);
}

#[test]
fn parse_source_gives_a_tree_that_fits_the_text() {
    let root = code_graph::parse_source(&LanguageQuery::Rust.get_lang(), RUST_FILE).unwrap();
    assert_eq!(root.kind, "source_file");
    assert_eq!(root.start_byte, 0);
    assert_eq!(root.end_byte, RUST_FILE.len());
    assert_eq!(root.start_line, 1);
    assert_eq!(root.field, None);
    assert!(root.fits_source(RUST_FILE));
    let kinds: Vec<&str> = root.children.iter().map(|c| c.kind.as_str()).collect();
    assert_eq!(kinds, vec!["struct_item", "impl_item", "trait_item"]);
    assert_eq!(root.children[1].start_line, 2);
    let name = root.children[0].child_by_field_name("name").unwrap();
    assert_eq!(name.text(RUST_FILE), "S");
    let program = code_graph::parse_source(&LanguageQuery::JavaScript.get_lang(), "").unwrap();
    assert_eq!(program.kind, "program");
    assert!(program.children.is_empty());
}

#[test]
fn a_tree_deeper_than_the_limit_is_refused() {
    let code = "fn f() { { { { g(); } } } }";
    let language = LanguageQuery::Rust.get_lang();
    assert!(code_graph::parse_source_within(&language, code, 64).is_ok());
    for depth in [0, 1, 2, 3] {
        assert_eq!(
            code_graph::parse_source_within(&language, code, depth).err(),
            Some(code_graph::ExtractError::TooDeep)
        );
    }
    let leaf = code_graph::parse_source_within(&language, "", 0).unwrap();
    assert!(leaf.children.is_empty());
}

#[test]
fn every_record_of_a_parsed_file_lies_in_its_text() {
    let files = [
        ("s.rs", RUST_FILE, LanguageQuery::Rust),
        ("A.java", JAVA_FILE, LanguageQuery::Java),
        ("k.js", JS_FILE, LanguageQuery::JavaScript),
        ("k.c", C_FILE, LanguageQuery::C),
        ("bad.rs", "fn ok() {}\nfn broken( { ]] struct\nimpl X { fn inner() { call( } }", LanguageQuery::Rust),
    ];
    for (path, code, query) in files {
        let lines = 1 + code.matches('\n').count();
        for call in fetch_calls(path, code, query).unwrap() {
            assert!(code.contains(&call.block));
            assert!(call.block.contains(&call.label));
            assert!(1 <= call.file_location && call.file_location <= lines);
            assert_eq!(call.file_path, path);
        }
        for node in outline(path, code, query).iter().skip(1) {
            assert!(code.contains(&node.block));
            assert!(1 <= node.file_location && node.file_location <= lines);
            assert_eq!(node.file_path, path);
        }
    }
}
