use vstd::prelude::*;
use vstd::string::*;
use crate::text::{
    seq_contains, sort_unique, sorted_strict, str_contains, str_eq, views,
};

verus! {

/// The grammars that symbols can be extracted with.
#[derive(Debug, Clone, Copy, PartialEq, Eq)]
pub enum Grammar {
    Rust,
    JavaScript,
    TypeScript,
    Python,
}

/// The grammar used for files with extension `ext` (compared exactly).
pub open spec fn spec_grammar_for(ext: Seq<char>) -> Option<Grammar> {
    if ext == "rs"@ {
        Some(Grammar::Rust)
    } else if ext == "js"@ || ext == "jsx"@ {
        Some(Grammar::JavaScript)
    } else if ext == "ts"@ || ext == "tsx"@ {
        Some(Grammar::TypeScript)
    } else if ext == "py"@ {
        Some(Grammar::Python)
    } else {
        None
    }
}

/// Picks the grammar for a file extension, if one is supported.
pub fn grammar_for_extension(ext: &str) -> (r: Option<Grammar>)
    ensures
        r == spec_grammar_for(ext@),
{
    if str_eq(ext, "rs") {
        Some(Grammar::Rust)
    } else if str_eq(ext, "js") || str_eq(ext, "jsx") {
        Some(Grammar::JavaScript)
    } else if str_eq(ext, "ts") || str_eq(ext, "tsx") {
        Some(Grammar::TypeScript)
    } else if str_eq(ext, "py") {
        Some(Grammar::Python)
    } else {
        None
    }
}

/// Capture patterns for Rust declarations.
pub const RUST_QUERY: &'static str = "
    (function_item
      name: (identifier) @function.name)

    (struct_item
      name: (type_identifier) @struct.name)

    (enum_item
      name: (type_identifier) @enum.name)

    (trait_item
      name: (type_identifier) @trait.name)

    (impl_item
      type: (type_identifier) @impl.name)

    (mod_item
      name: (identifier) @mod.name)

    (const_item
      name: (identifier) @const.name)

    (static_item
      name: (identifier) @static.name)
    ";

/// Capture patterns for JavaScript declarations.
pub const JAVASCRIPT_QUERY: &'static str = "
    (function_declaration
      name: (identifier) @function.name)

    (class_declaration
      name: (identifier) @class.name)

    (method_definition
      name: (property_identifier) @method.name)

    (variable_declarator
      name: (identifier) @variable.name)
    ";

/// Capture patterns for TypeScript declarations.
pub const TYPESCRIPT_QUERY: &'static str = "
    (function_declaration
      name: (identifier) @function.name)

    (class_declaration
      name: (type_identifier) @class.name)

    (interface_declaration
      name: (type_identifier) @interface.name)

    (type_alias_declaration
      name: (type_identifier) @type.name)

    (enum_declaration
      name: (identifier) @enum.name)

    (method_definition
      name: (property_identifier) @method.name)

    (variable_declarator
      name: (identifier) @variable.name)
    ";

/// Capture patterns for Python declarations.
pub const PYTHON_QUERY: &'static str = "
    (function_definition
      name: (identifier) @function.name)

    (class_definition
      name: (identifier) @class.name)

    (assignment
      left: (identifier) @variable.name)

    (import_statement
      name: (dotted_name
        (identifier) @import.name))

    (import_from_statement
      name: (dotted_name
        (identifier) @import.name))
    ";

/// The capture patterns of a grammar.
pub open spec fn spec_query_for(g: Grammar) -> Seq<char> {
    match g {
        Grammar::Rust => RUST_QUERY@,
        Grammar::JavaScript => JAVASCRIPT_QUERY@,
        Grammar::TypeScript => TYPESCRIPT_QUERY@,
        Grammar::Python => PYTHON_QUERY@,
    }
}

/// The capture patterns for Rust.
pub fn get_rust_query() -> (r: String)
    ensures
        r@ == RUST_QUERY@,
{
    String::from_str(RUST_QUERY)
}

/// The capture patterns for JavaScript.
pub fn get_javascript_query() -> (r: String)
    ensures
        r@ == JAVASCRIPT_QUERY@,
{
    String::from_str(JAVASCRIPT_QUERY)
}

/// The capture patterns for TypeScript.
pub fn get_typescript_query() -> (r: String)
    ensures
        r@ == TYPESCRIPT_QUERY@,
{
    String::from_str(TYPESCRIPT_QUERY)
}

/// The capture patterns for Python.
pub fn get_python_query() -> (r: String)
    ensures
        r@ == PYTHON_QUERY@,
{
    String::from_str(PYTHON_QUERY)
}

/// The capture patterns of a grammar.
pub fn query_for(g: Grammar) -> (r: String)
    ensures
        r@ == spec_query_for(g),
{
    match g {
        Grammar::Rust => get_rust_query(),
        Grammar::JavaScript => get_javascript_query(),
        Grammar::TypeScript => get_typescript_query(),
        Grammar::Python => get_python_query(),
    }
}

/// The keyword (with its trailing space) put before a captured name, chosen by
/// the first kind word that the capture name contains; empty when none does.
pub open spec fn spec_kind_prefix(name: Seq<char>) -> Seq<char> {
    if seq_contains(name, "function"@) {
        "fn "@
    } else if seq_contains(name, "struct"@) {
        "struct "@
    } else if seq_contains(name, "class"@) {
        "class "@
    } else if seq_contains(name, "enum"@) {
        "enum "@
    } else if seq_contains(name, "trait"@) {
        "trait "@
    } else if seq_contains(name, "interface"@) {
        "interface "@
    } else if seq_contains(name, "type"@) {
        "type "@
    } else if seq_contains(name, "impl"@) {
        "impl "@
    } else if seq_contains(name, "mod"@) {
        "mod "@
    } else if seq_contains(name, "const"@) {
        "const "@
    } else if seq_contains(name, "static"@) {
        "static "@
    } else if seq_contains(name, "method"@) {
        "method "@
    } else if seq_contains(name, "variable"@) {
        "var "@
    } else if seq_contains(name, "import"@) {
        "import "@
    } else {
        Seq::empty()
    }
}

/// The record for a captured identifier `text` bound to capture `name`.
pub open spec fn spec_format_capture(name: Seq<char>, text: Seq<char>) -> Seq<char> {
    spec_kind_prefix(name) + text
}

/// The keyword prefix for a capture name.
pub fn kind_prefix(name: &str) -> (r: &'static str)
    ensures
        r@ == spec_kind_prefix(name@),
{
    if str_contains(name, "function") {
        "fn "
    } else if str_contains(name, "struct") {
        "struct "
    } else if str_contains(name, "class") {
        "class "
    } else if str_contains(name, "enum") {
        "enum "
    } else if str_contains(name, "trait") {
        "trait "
    } else if str_contains(name, "interface") {
        "interface "
    } else if str_contains(name, "type") {
        "type "
    } else if str_contains(name, "impl") {
        "impl "
    } else if str_contains(name, "mod") {
        "mod "
    } else if str_contains(name, "const") {
        "const "
    } else if str_contains(name, "static") {
        "static "
    } else if str_contains(name, "method") {
        "method "
    } else if str_contains(name, "variable") {
        "var "
    } else if str_contains(name, "import") {
        "import "
    } else {
        proof {
            reveal_strlit("");
        }
        ""
    }
}

/// Formats one capture as a symbol record.
pub fn format_capture(name: &str, text: &str) -> (r: String)
    ensures
        r@ == spec_format_capture(name@, text@),
{
    String::from_str(kind_prefix(name)).concat(text)
}

/// The captures of a list of (capture name, identifier text) pairs, as
/// character sequences.
pub open spec fn capture_views(captures: Seq<(String, String)>) -> Seq<(Seq<char>, Seq<char>)> {
    captures.map_values(|c: (String, String)| (c.0@, c.1@))
}

/// The records formed from a list of (capture name, identifier text) pairs.
pub open spec fn capture_records(captures: Seq<(Seq<char>, Seq<char>)>) -> Set<Seq<char>> {
    Set::new(|t: Seq<char>| exists|i: int| 0 <= i < captures.len() && t == spec_format_capture(
        #[trigger] captures[i].0, captures[i].1))
}

/// Turns captures into symbol records, without repeats and sorted.
pub fn symbols_from_captures(captures: &Vec<(String, String)>) -> (r: Vec<String>)
    ensures
        sorted_strict(views(r@), false),
        forall|t: Seq<char>| views(r@).contains(t) <==> capture_records(capture_views(captures@)).contains(t),
{
    let mut records: Vec<String> = Vec::new();
    let mut k: usize = 0;
    while k < captures.len()
        invariant
            k <= captures.len(),
            records@.len() == k,
            forall|i: int| 0 <= i < k ==> #[trigger] records@[i]@ == spec_format_capture(
                captures@[i].0@, captures@[i].1@),
        decreases captures.len() - k,
    {
        let (name, text) = (&captures[k].0, &captures[k].1);
        records.push(format_capture(name.as_str(), text.as_str()));
        k = k + 1;
    }
    let r = sort_unique(&records, false);
    let ghost cv = capture_views(captures@);
    assert forall|t: Seq<char>| views(r@).contains(t) <==> capture_records(cv).contains(t) by {
        if views(records@).contains(t) {
            let i = choose|i: int| 0 <= i < records@.len() && views(records@)[i] == t;
            assert(records@[i]@ == t);
            assert(cv[i] == (captures@[i].0@, captures@[i].1@));
            assert(t == spec_format_capture(cv[i].0, cv[i].1));
            assert(capture_records(cv).contains(t));
        }
        if capture_records(cv).contains(t) {
            let i = choose|i: int| 0 <= i < cv.len() && t == spec_format_capture(
                #[trigger] cv[i].0, cv[i].1);
            assert(cv[i] == (captures@[i].0@, captures@[i].1@));
            assert(views(records@)[i] == t);
            assert(views(records@).contains(t));
        }
    }
    r
}

/// What the grammar's capture patterns capture in a text: each capture of each
/// match, as its capture name and the text it spans.
pub uninterp spec fn captures_of(g: Grammar, content: Seq<char>) -> Seq<(Seq<char>, Seq<char>)>;

/// tree_sitter::Language, a compiled grammar, carried through opaquely.
#[verifier::external_type_specification]
#[verifier::external_body]
pub struct ExLanguage(tree_sitter::Language);

/// tree_sitter::Tree, a syntax tree, carried through opaquely.
#[verifier::external_type_specification]
#[verifier::external_body]
pub struct ExTree(tree_sitter::Tree);

/// A syntax tree together with the grammar it was parsed with and the text it
/// was parsed from; only `parse_source` builds one.
struct SourceTree {
    grammar: Grammar,
    language: tree_sitter::Language,
    tree: tree_sitter::Tree,
    text: String,
}

/// Relies on the grammar crates' `language` functions (TypeScript's dialect for
/// both TypeScript extensions), tree_sitter::Parser::set_language and
/// Parser::parse. Every grammar here is of version 14, which set_language
/// accepts, and parse gives up only without a language, on a timeout or on a
/// cancellation flag, none of which applies, so a tree always comes back.
#[verifier::external_body]
fn parse_source(g: Grammar, content: &str) -> (r: Option<SourceTree>)
    ensures
        r is Some,
        r.unwrap().grammar == g,
        r.unwrap().text@ == content@,
{
    let language = match g {
        Grammar::Rust => tree_sitter_rust::language(),
        Grammar::JavaScript => tree_sitter_javascript::language(),
        Grammar::TypeScript => tree_sitter_typescript::language_typescript(),
        Grammar::Python => tree_sitter_python::language(),
    };
    let mut parser = tree_sitter::Parser::new();
    parser.set_language(language).ok()?;
    let tree = parser.parse(content, None)?;
    Some(SourceTree { grammar: g, language, tree, text: content.to_string() })
}

/// Relies on tree_sitter::Query::new, QueryCursor::matches,
/// Query::capture_names and Node::utf8_text: every capture of every match of
/// the grammar's patterns in the tree, read from the text the tree was parsed
/// from, as its capture name and the text it spans. The patterns are the
/// grammar's own, which Query::new compiles.
#[verifier::external_body]
fn source_captures(t: &SourceTree, query: &str) -> (r: Vec<(String, String)>)
    requires
        query@ == spec_query_for(t.grammar),
    ensures
        capture_views(r@) == captures_of(t.grammar, t.text@),
{
    let Ok(q) = tree_sitter::Query::new(t.language, query) else { return Vec::new() };
    let mut cursor = tree_sitter::QueryCursor::new();
    let mut out = Vec::new();
    for m in cursor.matches(&q, t.tree.root_node(), t.text.as_bytes()) {
        for c in m.captures {
            if let Ok(text) = c.node.utf8_text(t.text.as_bytes()) {
                out.push((q.capture_names()[c.index as usize].clone(), text.to_string()));
            }
        }
    }
    out
}

/// Extracts the declared symbols of a file with extension `ext` and text
/// `content`. An unsupported extension or an empty text gives no symbols;
/// otherwise the records are those of the grammar's captures in the text,
/// without repeats and sorted.
pub fn extract_symbols(ext: &str, content: &str) -> (r: Vec<String>)
    ensures
        sorted_strict(views(r@), false),
        (spec_grammar_for(ext@) is None || content@.len() == 0) ==> r@.len() == 0,
        spec_grammar_for(ext@) is Some && content@.len() > 0 ==> forall|t: Seq<char>|
            views(r@).contains(t) <==> capture_records(
                captures_of(spec_grammar_for(ext@).unwrap(), content@),
            ).contains(t),
{
    let grammar = match grammar_for_extension(ext) {
        Some(g) => g,
        None => return Vec::new(),
    };
    if content.unicode_len() == 0 {
        return Vec::new();
    }
    let tree = match parse_source(grammar, content) {
        Some(t) => t,
        None => return Vec::new(),
    };
    let source = query_for(grammar);
    let captures = source_captures(&tree, source.as_str());
    symbols_from_captures(&captures)
}

} // verus!
