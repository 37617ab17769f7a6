use workspace_context::collect::{
    classify_file, extension_of, is_ignored_dir, should_descend, tier_of_lowered, FileCollector,
    Tier,
};

fn dirs(v: &[&str]) -> Vec<String> {
    v.iter().map(|s| s.to_string()).collect()
}

#[test]
fn ignored_directory_names() {
    for d in [".git", "target", "node_modules", "__pycache__", ".DS_Store", "tmp"] {
        assert!(is_ignored_dir(d), "{}", d);
        assert!(!should_descend(d));
    }
    for d in ["src", "Target", "lib", "targets"] {
        assert!(!is_ignored_dir(d), "{}", d);
        assert!(should_descend(d));
    }
}

#[test]
fn extensions_of_names() {
    assert_eq!(extension_of("main.rs").as_deref(), Some("rs"));
    assert_eq!(extension_of("a.tar.gz").as_deref(), Some("gz"));
    assert_eq!(extension_of("Makefile"), None);
    assert_eq!(extension_of(".gitignore"), None);
    assert_eq!(extension_of("odd.").as_deref(), Some(""));
}

#[test]
fn tiers_of_files() {
    assert_eq!(classify_file("main.rs"), Tier::Priority);
    assert_eq!(classify_file("App.TSX"), Tier::Priority);
    assert_eq!(classify_file("README.md"), Tier::Secondary);
    assert_eq!(classify_file("Makefile"), Tier::Secondary);
    assert_eq!(classify_file("Dockerfile"), Tier::Secondary);
    assert_eq!(classify_file("Rakefile"), Tier::Secondary);
    assert_eq!(classify_file("LICENSE"), Tier::Skipped);
    assert_eq!(classify_file("image.png"), Tier::Skipped);
    assert_eq!(classify_file("Cargo.lock"), Tier::Skipped);
    assert_eq!(classify_file("app.min.js"), Tier::Skipped);
    assert_eq!(classify_file("package-lock.json"), Tier::Skipped);
    assert_eq!(classify_file("server.log.rs"), Tier::Skipped);
    assert_eq!(tier_of_lowered("a.py", Some("py")), Tier::Priority);
    assert_eq!(tier_of_lowered("makefile", None), Tier::Secondary);
}

#[test]
fn priority_files_come_first_sorted() {
    let mut c = FileCollector::new(10, 8);
    c.offer(&dirs(&["src"]), "z.rs");
    c.offer(&dirs(&[]), "README.md");
    c.offer(&dirs(&["src"]), "a.py");
    c.offer(&dirs(&[]), "Cargo.toml");
    c.offer(&dirs(&[]), "notes.txt");
    assert_eq!(c.finish(), vec!["src/a.py", "src/z.rs", "Cargo.toml", "README.md"]);
}

#[test]
fn cap_keeps_only_priority_when_they_fill_it() {
    let mut c = FileCollector::new(2, 8);
    c.offer(&dirs(&[]), "b.rs");
    c.offer(&dirs(&[]), "a.md");
    c.offer(&dirs(&[]), "a.rs");
    assert!(c.is_full());
    c.offer(&dirs(&[]), "c.rs");
    let out = c.finish();
    assert_eq!(out, vec!["b.rs", "a.md"]);
    let mut d = FileCollector::new(1, 8);
    d.offer(&dirs(&[]), "b.rs");
    d.offer(&dirs(&[]), "a.rs");
    assert_eq!(d.finish(), vec!["b.rs"]);
}

#[test]
fn zero_cap_admits_nothing() {
    let mut c = FileCollector::new(0, 8);
    assert!(c.is_full());
    c.offer(&dirs(&[]), "a.rs");
    assert!(c.finish().is_empty());
}

#[test]
fn ignored_directories_contribute_nothing() {
    let mut c = FileCollector::new(10, 20);
    c.offer(&dirs(&["node_modules"]), "index.js");
    c.offer(&dirs(&["src", "a", "b", "target", "c"]), "deep.rs");
    c.offer(&dirs(&["src", ".git"]), "config.toml");
    c.offer(&dirs(&["src"]), "lib.rs");
    assert_eq!(c.finish(), vec!["src/lib.rs"]);
}

#[test]
fn depth_bound_is_kept() {
    let mut c = FileCollector::new(10, 2);
    c.offer(&dirs(&[]), "top.rs");
    c.offer(&dirs(&["a"]), "one.rs");
    c.offer(&dirs(&["a", "b"]), "two.rs");
    assert_eq!(c.finish(), vec!["a/one.rs", "top.rs"]);
}

#[test]
fn paths_sort_segment_by_segment() {
    let mut c = FileCollector::new(10, 8);
    c.offer(&dirs(&["src.old"]), "x.rs");
    c.offer(&dirs(&["src"]), "y.rs");
    c.offer(&dirs(&["src-a"]), "z.rs");
    assert_eq!(c.finish(), vec!["src/y.rs", "src-a/z.rs", "src.old/x.rs"]);
}
