use workspace_context::analysis::{
    analyze_file, check_workspace, has_grammar, render_workspace, resolve_workspace_path, Limits,
};
use workspace_context::render::{
    extension_counts, file_name_of, format_symbol, format_workspace_summary, lower_ext_of,
    symbol_statistics, FileReport,
};
use workspace_context::text::push_decimal;
use workspace_context::tree::{build_tree, format_workspace_tree_with_limits};

fn report(path: &str, symbols: Option<&[&str]>) -> FileReport {
    FileReport {
        path: path.to_string(),
        symbols: symbols.map(|v| v.iter().map(|s| s.to_string()).collect()),
    }
}

const HEADER: &str = "📁 Workspace Analysis\n══════════════════════════════════\n\n";

fn footer(n: usize, with: usize, total: usize, max: usize, root: &str) -> String {
    format!(
        "\n📊 Summary:\n• {} files analyzed (limited for performance)\n• {} files contain symbols\n• {} total symbols found\n• Max {} symbols shown per file\n• Root: {}\n",
        n, with, total, max, root
    )
}

#[test]
fn decimal_notation() {
    for n in [0usize, 7, 10, 42, 1000, 98765] {
        let mut s = String::from("x");
        push_decimal(&mut s, n);
        assert_eq!(s, format!("x{}", n));
    }
}

#[test]
fn symbol_icons() {
    assert_eq!(format_symbol("fn foo"), "🔧 fn foo");
    assert_eq!(format_symbol("struct S"), "🏗️  struct S");
    assert_eq!(format_symbol("class C"), "🏗️  class C");
    assert_eq!(format_symbol("enum E"), "🔢 enum E");
    assert_eq!(format_symbol("interface I"), "🎭 interface I");
    assert_eq!(format_symbol("impl T"), "⚙️  impl T");
    assert_eq!(format_symbol("mod m"), "📦 mod m");
    assert_eq!(format_symbol("static X"), "📌 static X");
    assert_eq!(format_symbol("var x"), "📊 var x");
    assert_eq!(format_symbol("method myfunction"), "🔧 method myfunction");
    assert_eq!(format_symbol("import os"), "🔍 import os");
}

#[test]
fn file_names_and_extensions() {
    assert_eq!(file_name_of("src/a/b.RS"), "b.RS");
    assert_eq!(file_name_of("top.py"), "top.py");
    assert_eq!(lower_ext_of("src/a/b.RS").as_deref(), Some("rs"));
    assert_eq!(lower_ext_of("dir.d/Makefile"), None);
}

#[test]
fn statistics_count_files_and_symbols() {
    let files = vec![
        report("a.rs", Some(&["fn a", "fn b"])),
        report("b.rs", Some(&[])),
        report("c.rs", None),
        report("d.py", Some(&["class D"])),
    ];
    assert_eq!(symbol_statistics(&files), (2, 3));
}

#[test]
fn extension_histogram_counts() {
    let files = vec![
        report("a.rs", None),
        report("src/B.RS", None),
        report("x.md", None),
        report("Makefile", None),
        report("y.Md", None),
        report("z.rs", None),
    ];
    let h = extension_counts(&files);
    assert_eq!(h, vec![("md".to_string(), 2), ("rs".to_string(), 3)]);
}

#[test]
fn summary_text() {
    let files = vec![
        report("src/a.rs", Some(&["fn foo"])),
        report("README.md", Some(&[])),
        report("src/b.RS", Some(&["fn x", "fn y"])),
    ];
    let text = format_workspace_summary("/ws", &files, 4);
    assert_eq!(
        text,
        "📁 Workspace Summary\n═══════════════════\n\n📂 File Types:\n  • .md: 1 files\n  • .rs: 2 files\n\n📊 Statistics:\n• 3 total files\n• 2 files with symbols\n• 3 total symbols\n• Max 4 symbols shown per file\n• Root: /ws\n"
    );
}

#[test]
fn scenario_two_files_tree() {
    let a = analyze_file("src/a.rs".to_string(), Some("fn foo() {}\nfoo();\nfoo();\n"));
    let b = analyze_file("src/b.py".to_string(), Some("class Bar:\n    pass\n"));
    let text = format_workspace_tree_with_limits("/ws", vec![a, b], 10);
    let expected = format!(
        "{}📁 src/\n├── a.rs\n│     └─ 🔧 fn foo\n└── b.py\n      └─ 🏗️  class Bar\n{}",
        HEADER,
        footer(2, 2, 2, 10, "/ws")
    );
    assert_eq!(text, expected);
}

#[test]
fn scenario_symbol_cap_of_one() {
    let f = analyze_file("lib.rs".to_string(), Some("fn a() {}\nfn b() {}\nfn c() {}\n"));
    let text = format_workspace_tree_with_limits("/r", vec![f], 1);
    let expected = format!(
        "{}lib.rs\n  └─ 🔧 fn a\n  └─ ... (2 more symbols)\n{}",
        HEADER,
        footer(1, 1, 3, 1, "/r")
    );
    assert_eq!(text, expected);
}

#[test]
fn failed_and_empty_files() {
    let files = vec![report("b/x.rs", None), report("b/y.md", Some(&[]))];
    let text = format_workspace_tree_with_limits("/r", files, 10);
    let expected = format!(
        "{}📁 b/\n├── x.rs\n│     └─ ⚠️  (parsing error)\n└── y.md\n{}",
        HEADER,
        footer(2, 0, 0, 10, "/r")
    );
    assert_eq!(text, expected);
}

#[test]
fn nested_connectors() {
    let files = vec![
        report("a/b/c.rs", Some(&["fn c", "fn d"])),
        report("a/e.rs", Some(&[])),
        report("f.rs", Some(&[])),
    ];
    let text = format_workspace_tree_with_limits("/r", files, 10);
    let expected = format!(
        "{}📁 a/\n├── 📁 b/\n│   └── c.rs\n│         ├─ 🔧 fn c\n│         └─ 🔧 fn d\n└── e.rs\nf.rs\n{}",
        HEADER,
        footer(3, 1, 2, 10, "/r")
    );
    assert_eq!(text, expected);
}

#[test]
fn level_cap_counts_hidden_entries() {
    let files: Vec<FileReport> = (0..53).map(|i| report(&format!("d/f{:02}.md", i), Some(&[]))).collect();
    let text = format_workspace_tree_with_limits("/r", files, 10);
    assert!(text.contains("├── f48.md\n└── f49.md\n... (3 more items not shown)\n"));
    assert!(!text.contains("f50.md"));
}

#[test]
fn tree_order_and_last_write_wins() {
    let files = vec![
        report("b.rs", Some(&["fn old"])),
        report("a.rs", None),
        report("b.rs", Some(&["fn new"])),
    ];
    let t = build_tree(files);
    assert_eq!(t.len(), 2);
    assert_eq!(t[0].path, "a.rs");
    assert_eq!(t[1].path, "b.rs");
    assert_eq!(t[1].symbols, Some(vec!["fn new".to_string()]));
}

#[test]
fn rendering_is_deterministic() {
    let make = || {
        vec![
            report("src/z.rs", Some(&["fn z"])),
            report("src/a.rs", Some(&["fn a"])),
            report("docs/x.md", Some(&[])),
        ]
    };
    let limits = Limits::from_args(None, None, None, None);
    assert_eq!(render_workspace("/r", make(), limits), render_workspace("/r", make(), limits));
    let summary = Limits::from_args(None, None, None, Some(true));
    assert_eq!(render_workspace("/r", make(), summary), render_workspace("/r", make(), summary));
    assert!(render_workspace("/r", make(), summary).starts_with("📁 Workspace Summary"));
}

#[test]
fn limits_defaults() {
    let d = Limits::from_args(None, None, None, None);
    assert_eq!((d.max_files, d.max_symbols_per_file, d.max_depth, d.summary_only), (200, 10, 8, false));
    let c = Limits::from_args(Some(5), Some(1), Some(2), Some(true));
    assert_eq!((c.max_files, c.max_symbols_per_file, c.max_depth, c.summary_only), (5, 1, 2, true));
}

#[test]
fn workspace_path_resolution() {
    let s = |v: &str| v.to_string();
    assert_eq!(resolve_workspace_path(Some(s("/x")), Some(s("/e")), s("/c"), None), "/x");
    assert_eq!(resolve_workspace_path(None, Some(s("/e")), s("/c"), None), "/e");
    assert_eq!(resolve_workspace_path(None, None, s("/c"), Some(s("/"))), "/c");
    assert_eq!(
        resolve_workspace_path(None, None, s("/p/workspace-context"), Some(s("/p"))),
        "/p"
    );
}

#[test]
fn unreadable_and_unsupported_files() {
    let r = analyze_file("a.rs".to_string(), None);
    assert!(r.symbols.is_none());
    let r = analyze_file("notes.md".to_string(), Some("fn x() {}"));
    assert_eq!(r.symbols, Some(Vec::new()));
    let r = analyze_file("empty.py".to_string(), Some(""));
    assert_eq!(r.symbols, Some(Vec::new()));
    let r = analyze_file("docs/unreadable.md".to_string(), None);
    assert_eq!(r.symbols, Some(Vec::new()));
    let r = analyze_file("Makefile".to_string(), None);
    assert_eq!(r.symbols, Some(Vec::new()));
    let r = analyze_file("src/b.py".to_string(), Some("def g():\n    pass\n"));
    assert_eq!(r.symbols, Some(vec!["fn g".to_string()]));
}

#[test]
fn grammar_by_path() {
    assert!(has_grammar("src/a.rs"));
    assert!(has_grammar("web/app.tsx"));
    assert!(!has_grammar("README.md"));
    assert!(!has_grammar("Makefile"));
    assert!(!has_grammar("src/A.RS"));
}

#[test]
fn missing_workspace_is_an_invocation_error() {
    assert_eq!(
        check_workspace("/no/such/dir", false),
        Err("Workspace directory does not exist: /no/such/dir".to_string())
    );
    assert_eq!(check_workspace("/tmp", true), Ok(()));
}
