use workspace_context::symbols::{
    extract_symbols, format_capture, get_javascript_query, get_python_query, get_rust_query,
    get_typescript_query, grammar_for_extension, kind_prefix, query_for, symbols_from_captures,
    Grammar,
};

fn pairs(v: &[(&str, &str)]) -> Vec<(String, String)> {
    v.iter().map(|(a, b)| (a.to_string(), b.to_string())).collect()
}

#[test]
fn grammar_by_extension() {
    assert_eq!(grammar_for_extension("rs"), Some(Grammar::Rust));
    assert_eq!(grammar_for_extension("js"), Some(Grammar::JavaScript));
    assert_eq!(grammar_for_extension("jsx"), Some(Grammar::JavaScript));
    assert_eq!(grammar_for_extension("ts"), Some(Grammar::TypeScript));
    assert_eq!(grammar_for_extension("tsx"), Some(Grammar::TypeScript));
    assert_eq!(grammar_for_extension("py"), Some(Grammar::Python));
    assert_eq!(grammar_for_extension("RS"), None);
    assert_eq!(grammar_for_extension("md"), None);
    assert_eq!(grammar_for_extension(""), None);
}

#[test]
fn queries_per_grammar() {
    assert!(get_rust_query().contains("@function.name"));
    assert!(get_rust_query().contains("@static.name"));
    assert!(get_javascript_query().contains("@method.name"));
    assert!(get_typescript_query().contains("@interface.name"));
    assert!(get_python_query().contains("@import.name"));
    assert_eq!(query_for(Grammar::Python), get_python_query());
    assert_eq!(query_for(Grammar::Rust), get_rust_query());
}

#[test]
fn capture_prefix_first_match_wins() {
    assert_eq!(kind_prefix("function.name"), "fn ");
    assert_eq!(kind_prefix("struct.name"), "struct ");
    assert_eq!(kind_prefix("class.name"), "class ");
    assert_eq!(kind_prefix("type.name"), "type ");
    assert_eq!(kind_prefix("mod.name"), "mod ");
    assert_eq!(kind_prefix("variable.name"), "var ");
    assert_eq!(kind_prefix("import.name"), "import ");
    assert_eq!(kind_prefix("struct.function"), "fn ");
    assert_eq!(kind_prefix("interface.type"), "interface ");
    assert_eq!(kind_prefix("name"), "");
    assert_eq!(format_capture("enum.name", "Color"), "enum Color");
    assert_eq!(format_capture("other", "x"), "x");
}

#[test]
fn records_are_sorted_and_unique() {
    let caps = pairs(&[
        ("function.name", "zeta"),
        ("struct.name", "Alpha"),
        ("function.name", "zeta"),
        ("function.name", "beta"),
    ]);
    assert_eq!(
        symbols_from_captures(&caps),
        vec!["fn beta".to_string(), "fn zeta".to_string(), "struct Alpha".to_string()]
    );
    assert!(symbols_from_captures(&Vec::new()).is_empty());
}

#[test]
fn rust_declarations_extracted() {
    let src = "fn foo() {}\nfoo();\nfoo();\nstruct Bar;\nenum E { A }\nconst K: u8 = 1;\nmod m {}\n";
    let syms = extract_symbols("rs", src);
    assert_eq!(syms, vec!["const K", "enum E", "fn foo", "mod m", "struct Bar"]);
}

#[test]
fn duplicate_declarations_collapse() {
    let syms = extract_symbols("rs", "fn foo() {}\nfn foo() {}\n");
    assert_eq!(syms, vec!["fn foo"]);
}

#[test]
fn python_and_script_declarations() {
    let py = extract_symbols("py", "import os\nclass Bar:\n    pass\nx = 1\n");
    assert_eq!(py, vec!["class Bar", "import os", "var x"]);
    let js = extract_symbols("js", "function f() {}\nclass C { m() {} }\n");
    assert_eq!(js, vec!["class C", "fn f", "method m"]);
    let ts = extract_symbols("ts", "interface I {}\ntype T = number;\n");
    assert_eq!(ts, vec!["interface I", "type T"]);
}

#[test]
fn empty_or_unsupported_gives_nothing() {
    assert!(extract_symbols("rs", "").is_empty());
    assert!(extract_symbols("py", "").is_empty());
    assert!(extract_symbols("md", "# title\nfn foo() {}\n").is_empty());
    assert!(extract_symbols("", "fn foo() {}").is_empty());
    assert!(extract_symbols("RS", "fn foo() {}").is_empty());
}
