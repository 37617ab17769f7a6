use vstd::prelude::*;
use vstd::string::*;
use crate::collect::extension_of;
use crate::render::{
    file_name_of, format_workspace_summary, spec_file_name, spec_summary_text, spec_total_symbols,
    spec_exts, is_histogram, FileReport,
};
use crate::collect::spec_extension;
use crate::symbols::{
    capture_records, captures_of, extract_symbols, grammar_for_extension, spec_grammar_for, Grammar,
};
use crate::text::{sorted_strict, str_eq, views};
use crate::tree::{format_workspace_tree_with_limits, is_tree_of, spec_tree_text};

verus! {

/// Files analysed when no cap is given.
pub const DEFAULT_MAX_FILES: usize = 200;

/// Symbols shown per file when no cap is given.
pub const DEFAULT_MAX_SYMBOLS_PER_FILE: usize = 10;

/// Directory depth walked when no bound is given.
pub const DEFAULT_MAX_DEPTH: usize = 8;

/// The bounds of one analysis.
#[derive(Debug, Clone, Copy, PartialEq, Eq)]
pub struct Limits {
    pub max_files: usize,
    pub max_symbols_per_file: usize,
    pub max_depth: usize,
    pub summary_only: bool,
}

impl Limits {
    /// The limits asked for, with the defaults (200 files, 10 symbols per file,
    /// depth 8, full tree) in place of those not given.
    pub fn from_args(
        max_files: Option<usize>,
        max_symbols_per_file: Option<usize>,
        max_depth: Option<usize>,
        summary_only: Option<bool>,
    ) -> (r: Self)
        ensures
            r.max_files == match max_files { Some(v) => v, None => DEFAULT_MAX_FILES },
            r.max_symbols_per_file == match max_symbols_per_file { Some(v) => v, None => DEFAULT_MAX_SYMBOLS_PER_FILE },
            r.max_depth == match max_depth { Some(v) => v, None => DEFAULT_MAX_DEPTH },
            r.summary_only == match summary_only { Some(v) => v, None => false },
    {
        Limits {
            max_files: match max_files {
                Some(v) => v,
                None => DEFAULT_MAX_FILES,
            },
            max_symbols_per_file: match max_symbols_per_file {
                Some(v) => v,
                None => DEFAULT_MAX_SYMBOLS_PER_FILE,
            },
            max_depth: match max_depth {
                Some(v) => v,
                None => DEFAULT_MAX_DEPTH,
            },
            summary_only: match summary_only {
                Some(v) => v,
                None => false,
            },
        }
    }
}

/// The workspace to analyse: the explicit path if given, else the path from
/// the environment, else the current directory, or its parent when the current
/// directory is the server's own `workspace-context` directory.
pub open spec fn spec_workspace_path(
    explicit: Option<Seq<char>>,
    from_env: Option<Seq<char>>,
    current: Seq<char>,
    parent: Option<Seq<char>>,
) -> Seq<char> {
    match explicit {
        Some(p) => p,
        None => match from_env {
            Some(p) => p,
            None => if spec_file_name(current) == "workspace-context"@ {
                match parent {
                    Some(p) => p,
                    None => current,
                }
            } else {
                current
            },
        },
    }
}

/// Picks the workspace to analyse.
pub fn resolve_workspace_path(
    explicit: Option<String>,
    from_env: Option<String>,
    current: String,
    parent: Option<String>,
) -> (r: String)
    ensures
        r@ == spec_workspace_path(
            match explicit { Some(p) => Some(p@), None => None },
            match from_env { Some(p) => Some(p@), None => None },
            current@,
            match parent { Some(p) => Some(p@), None => None },
        ),
{
    match explicit {
        Some(p) => p,
        None => match from_env {
            Some(p) => p,
            None => {
                if str_eq(file_name_of(current.as_str()), "workspace-context") {
                    match parent {
                        Some(p) => p,
                        None => current,
                    }
                } else {
                    current
                }
            },
        },
    }
}

/// The extension, as written, of a path's file name.
pub open spec fn spec_path_ext(path: Seq<char>) -> Option<Seq<char>> {
    spec_extension(spec_file_name(path))
}

/// The grammar a path is parsed with, chosen by the extension of its file name.
pub open spec fn spec_path_grammar(path: Seq<char>) -> Option<Grammar> {
    match spec_path_ext(path) {
        Some(e) => spec_grammar_for(e),
        None => None,
    }
}

/// The grammar a path is parsed with, if any.
pub fn grammar_of_path(path: &str) -> (r: Option<Grammar>)
    ensures
        r == spec_path_grammar(path@),
{
    match extension_of(file_name_of(path)) {
        Some(e) => grammar_for_extension(e.as_str()),
        None => None,
    }
}

/// Whether the file at `path` is parsed, so that its text has to be read.
pub fn has_grammar(path: &str) -> (r: bool)
    ensures
        r == spec_path_grammar(path@) is Some,
{
    match grammar_of_path(path) {
        Some(_) => true,
        None => false,
    }
}

/// Analyses one file at `path` whose text is `content`, or `None` where it
/// could not be read. A file with no grammar has an empty list of symbols,
/// whether or not it was read. A file with a grammar has its extracted symbols,
/// or none, the mark of a failure, where it could not be read.
pub fn analyze_file(path: String, content: Option<&str>) -> (r: FileReport)
    ensures
        r.path@ == path@,
        spec_path_grammar(path@) is None ==> (r.symbols is Some && r.symbols.unwrap()@.len() == 0),
        spec_path_grammar(path@) is Some && content is None ==> r.symbols is None,
        spec_path_grammar(path@) is Some && content is Some ==> r.symbols is Some,
        r.symbols is Some ==> sorted_strict(views(r.symbols.unwrap()@), false),
        spec_path_grammar(path@) is Some && content is Some && content.unwrap()@.len() == 0
            ==> r.symbols.unwrap()@.len() == 0,
        spec_path_grammar(path@) is Some && content is Some && content.unwrap()@.len() > 0
            ==> forall|t: Seq<char>| views(r.symbols.unwrap()@).contains(t) <==> capture_records(
                captures_of(spec_path_grammar(path@).unwrap(), content.unwrap()@),
            ).contains(t),
{
    let ext = match extension_of(file_name_of(path.as_str())) {
        Some(e) => e,
        None => return FileReport { path, symbols: Some(Vec::new()) },
    };
    match grammar_for_extension(ext.as_str()) {
        Some(_) => {},
        None => return FileReport { path, symbols: Some(Vec::new()) },
    }
    let symbols = match content {
        None => None,
        Some(c) => Some(extract_symbols(ext.as_str(), c)),
    };
    FileReport { path, symbols }
}

/// Renders the analysed files: the statistical summary when the limits ask
/// for it only, else the full tree.
pub fn render_workspace(root: &str, files: Vec<FileReport>, limits: Limits) -> (r: String)
    requires
        spec_total_symbols(files@) <= usize::MAX,
    ensures
        limits.summary_only ==> exists|h: Seq<(String, usize)>|
            is_histogram(h, spec_exts(files@)) && r@ == spec_summary_text(
                files@,
                limits.max_symbols_per_file as nat,
                root@,
                h,
            ),
        !limits.summary_only ==> exists|t: Seq<FileReport>|
            is_tree_of(t, files@) && r@ == spec_tree_text(t, files@, limits.max_symbols_per_file as nat, root@),
{
    if limits.summary_only {
        format_workspace_summary(root, &files, limits.max_symbols_per_file)
    } else {
        format_workspace_tree_with_limits(root, files, limits.max_symbols_per_file)
    }
}

/// Accepts the workspace only where it is an existing directory; otherwise
/// the request fails with a message that names the path, before any analysis.
pub fn check_workspace(path: &str, is_dir: bool) -> (r: Result<(), String>)
    ensures
        r is Ok <==> is_dir,
        r matches Err(m) ==> m@ == "Workspace directory does not exist: "@ + path@,
{
    if is_dir {
        Ok(())
    } else {
        Err(String::from_str("Workspace directory does not exist: ").concat(path))
    }
}

} // verus!
