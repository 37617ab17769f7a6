use vstd::prelude::*;
use vstd::string::*;
use crate::text::{seq_contains, sort_unique, sorted_strict, str_contains, str_eq, views};

verus! {

/// What `str::to_lowercase` makes of a string.
pub uninterp spec fn lower_of(s: Seq<char>) -> Seq<char>;

/// Relies on str::to_lowercase: the lowercase form depends on the characters alone.
#[verifier::external_body]
pub(crate) fn lowercase(s: &str) -> (r: String)
    ensures
        r@ == lower_of(s@),
{
    s.to_lowercase()
}

/// Directory names whose whole subtree is left out of a walk.
pub open spec fn spec_is_ignored_dir(name: Seq<char>) -> bool {
    name == ".git"@ || name == "target"@ || name == "node_modules"@ || name == ".next"@
        || name == "dist"@ || name == "build"@ || name == "coverage"@ || name == ".nyc_output"@
        || name == "vendor"@ || name == "__pycache__"@ || name == ".pytest_cache"@
        || name == ".vscode"@ || name == ".idea"@ || name == "tmp"@ || name == "temp"@
        || name == ".cache"@ || name == ".DS_Store"@
}

/// Whether a directory with this name is left out, with all it holds.
pub fn is_ignored_dir(name: &str) -> (r: bool)
    ensures
        r == spec_is_ignored_dir(name@),
{
    str_eq(name, ".git") || str_eq(name, "target") || str_eq(name, "node_modules") || str_eq(
        name,
        ".next",
    ) || str_eq(name, "dist") || str_eq(name, "build") || str_eq(name, "coverage") || str_eq(
        name,
        ".nyc_output",
    ) || str_eq(name, "vendor") || str_eq(name, "__pycache__") || str_eq(name, ".pytest_cache")
        || str_eq(name, ".vscode") || str_eq(name, ".idea") || str_eq(name, "tmp") || str_eq(
        name,
        "temp",
    ) || str_eq(name, ".cache") || str_eq(name, ".DS_Store")
}

/// Lowercase file names that hold one of these are noise (lock files, logs,
/// bundles and the like).
pub open spec fn spec_is_noise(name: Seq<char>) -> bool {
    seq_contains(name, ".lock"@) || seq_contains(name, ".log"@) || seq_contains(name, ".tmp"@)
        || seq_contains(name, ".cache"@) || seq_contains(name, ".DS_Store"@) || seq_contains(
        name,
        "thumbs.db"@,
    ) || seq_contains(name, ".min.js"@) || seq_contains(name, ".min.css"@) || seq_contains(
        name,
        ".bundle.js"@,
    ) || seq_contains(name, ".bundle.css"@) || seq_contains(name, "package-lock.json"@)
        || seq_contains(name, "yarn.lock"@) || seq_contains(name, "Cargo.lock"@)
}

fn is_noise(name: &str) -> (r: bool)
    ensures
        r == spec_is_noise(name@),
{
    str_contains(name, ".lock") || str_contains(name, ".log") || str_contains(name, ".tmp")
        || str_contains(name, ".cache") || str_contains(name, ".DS_Store") || str_contains(
        name,
        "thumbs.db",
    ) || str_contains(name, ".min.js") || str_contains(name, ".min.css") || str_contains(
        name,
        ".bundle.js",
    ) || str_contains(name, ".bundle.css") || str_contains(name, "package-lock.json")
        || str_contains(name, "yarn.lock") || str_contains(name, "Cargo.lock")
}

/// Extensions of the primary programming languages.
pub open spec fn spec_is_priority_ext(e: Seq<char>) -> bool {
    e == "rs"@ || e == "js"@ || e == "ts"@ || e == "tsx"@ || e == "jsx"@ || e == "py"@ || e
        == "go"@ || e == "java"@
}

/// Extensions of markup, configuration, scripts and other recognised files.
pub open spec fn spec_is_secondary_ext(e: Seq<char>) -> bool {
    e == "c"@ || e == "cpp"@ || e == "h"@ || e == "hpp"@ || e == "cs"@ || e == "php"@ || e
        == "rb"@ || e == "kt"@ || e == "swift"@ || e == "scala"@ || e == "sh"@ || e == "bash"@
        || e == "zsh"@ || e == "sql"@ || e == "vue"@ || e == "svelte"@ || e == "md"@ || e
        == "yaml"@ || e == "yml"@ || e == "json"@ || e == "toml"@ || e == "xml"@ || e
        == "makefile"@ || e == "dockerfile"@
}

fn is_priority_ext(e: &str) -> (r: bool)
    ensures
        r == spec_is_priority_ext(e@),
{
    str_eq(e, "rs") || str_eq(e, "js") || str_eq(e, "ts") || str_eq(e, "tsx") || str_eq(e, "jsx")
        || str_eq(e, "py") || str_eq(e, "go") || str_eq(e, "java")
}

fn is_secondary_ext(e: &str) -> (r: bool)
    ensures
        r == spec_is_secondary_ext(e@),
{
    str_eq(e, "c") || str_eq(e, "cpp") || str_eq(e, "h") || str_eq(e, "hpp") || str_eq(e, "cs")
        || str_eq(e, "php") || str_eq(e, "rb") || str_eq(e, "kt") || str_eq(e, "swift") || str_eq(
        e,
        "scala",
    ) || str_eq(e, "sh") || str_eq(e, "bash") || str_eq(e, "zsh") || str_eq(e, "sql") || str_eq(
        e,
        "vue",
    ) || str_eq(e, "svelte") || str_eq(e, "md") || str_eq(e, "yaml") || str_eq(e, "yml")
        || str_eq(e, "json") || str_eq(e, "toml") || str_eq(e, "xml") || str_eq(e, "makefile")
        || str_eq(e, "dockerfile")
}

/// Extensionless build files that are kept.
pub open spec fn spec_is_build_file(name: Seq<char>) -> bool {
    name == "makefile"@ || name == "dockerfile"@ || name == "rakefile"@
}

/// How a file is admitted to the collection.
#[derive(Debug, Clone, Copy, PartialEq, Eq)]
pub enum Tier {
    Priority,
    Secondary,
    Skipped,
}

/// Index of the last `.` among the first `i` characters of `name`, or -1.
pub open spec fn last_dot(name: Seq<char>, i: int) -> int
    decreases i,
{
    if i <= 0 {
        -1
    } else if name[i - 1] == '.' {
        i - 1
    } else {
        last_dot(name, i - 1)
    }
}

/// The extension of a file name: what follows its last dot, where that dot is
/// not the first character.
pub open spec fn spec_extension(name: Seq<char>) -> Option<Seq<char>> {
    let d = last_dot(name, name.len() as int);
    if d <= 0 {
        None
    } else {
        Some(name.subrange(d + 1, name.len() as int))
    }
}

/// The extension of a file name, if it has one.
pub fn extension_of(name: &str) -> (r: Option<String>)
    ensures
        r matches Some(e) ==> spec_extension(name@) == Some(e@),
        r is None ==> spec_extension(name@) is None,
{
    let n = name.unicode_len();
    let mut i: usize = n;
    while i > 0 && name.get_char(i - 1) != '.'
        invariant
            n == name@.len(),
            i <= n,
            last_dot(name@, n as int) == last_dot(name@, i as int),
        decreases i,
    {
        i = i - 1;
    }
    if i <= 1 {
        return None;
    }
    Some(String::from_str(name.substring_char(i, n)))
}

/// The tier of a file from its lowercase name and lowercase extension.
pub open spec fn spec_tier(name_lower: Seq<char>, ext_lower: Option<Seq<char>>) -> Tier {
    match ext_lower {
        Some(e) => if spec_is_noise(name_lower) {
            Tier::Skipped
        } else if spec_is_priority_ext(e) {
            Tier::Priority
        } else if spec_is_secondary_ext(e) {
            Tier::Secondary
        } else {
            Tier::Skipped
        },
        None => if spec_is_build_file(name_lower) {
            Tier::Secondary
        } else {
            Tier::Skipped
        },
    }
}

/// The tier of a file, given its name and extension already in lowercase.
pub fn tier_of_lowered(name_lower: &str, ext_lower: Option<&str>) -> (r: Tier)
    ensures
        r == spec_tier(name_lower@, match ext_lower { Some(e) => Some(e@), None => None }),
{
    match ext_lower {
        Some(e) => {
            if is_noise(name_lower) {
                Tier::Skipped
            } else if is_priority_ext(e) {
                Tier::Priority
            } else if is_secondary_ext(e) {
                Tier::Secondary
            } else {
                Tier::Skipped
            }
        },
        None => {
            if str_eq(name_lower, "makefile") || str_eq(name_lower, "dockerfile") || str_eq(
                name_lower,
                "rakefile",
            ) {
                Tier::Secondary
            } else {
                Tier::Skipped
            }
        },
    }
}

/// The tier of a file name: its name and its extension are compared in lowercase.
pub open spec fn spec_file_tier(name: Seq<char>) -> Tier {
    spec_tier(
        lower_of(name),
        match spec_extension(name) {
            Some(e) => Some(lower_of(e)),
            None => None,
        },
    )
}

/// The tier of a file, from its name.
pub fn classify_file(name: &str) -> (r: Tier)
    ensures
        r == spec_file_tier(name@),
{
    let name_lower = lowercase(name);
    match extension_of(name) {
        Some(e) => {
            let ext_lower = lowercase(e.as_str());
            tier_of_lowered(name_lower.as_str(), Some(ext_lower.as_str()))
        },
        None => tier_of_lowered(name_lower.as_str(), None),
    }
}

/// Whether a walk goes down into a directory with this name.
pub fn should_descend(dir_name: &str) -> (r: bool)
    ensures
        r == !spec_is_ignored_dir(dir_name@),
{
    !is_ignored_dir(dir_name)
}

/// The directories of a path, each followed by `/`.
pub open spec fn spec_dir_prefix(dirs: Seq<Seq<char>>) -> Seq<char>
    decreases dirs.len(),
{
    if dirs.len() == 0 {
        Seq::empty()
    } else {
        spec_dir_prefix(dirs.drop_last()) + dirs.last() + seq!['/']
    }
}

/// The relative path of file `name` under the directories `dirs`.
pub open spec fn spec_join(dirs: Seq<Seq<char>>, name: Seq<char>) -> Seq<char> {
    spec_dir_prefix(dirs) + name
}

/// Joins directory names and a file name with `/`.
pub fn join_path(dirs: &Vec<String>, name: &str) -> (r: String)
    ensures
        r@ == spec_join(views(dirs@), name@),
{
    let mut p = String::new();
    let mut i: usize = 0;
    proof {
        reveal_strlit("/");
    }
    assert(views(dirs@).take(0) =~= Seq::<Seq<char>>::empty());
    while i < dirs.len()
        invariant
            i <= dirs.len(),
            p@ == spec_dir_prefix(views(dirs@).take(i as int)),
            "/"@ == seq!['/'],
        decreases dirs.len() - i,
    {
        p = p.concat(dirs[i].as_str()).concat("/");
        assert(views(dirs@).take(i + 1).drop_last() =~= views(dirs@).take(i as int));
        assert(views(dirs@).take(i + 1).last() == dirs@[i as int]@);
        i = i + 1;
    }
    assert(views(dirs@).take(dirs.len() as int) =~= views(dirs@));
    p.concat(name)
}

/// Keeps the first `max` entries of the sorted priority files, then fills what
/// room is left with the sorted secondary files.
pub open spec fn spec_assemble(sp: Seq<Seq<char>>, ss: Seq<Seq<char>>, max: nat) -> Seq<Seq<char>> {
    let a = if sp.len() < max { sp.len() } else { max };
    let room = (max - a) as nat;
    let b = if ss.len() < room { ss.len() } else { room };
    sp.take(a as int) + ss.take(b as int)
}

/// `s` holds, sorted and without repeats, exactly the elements of `t`.
pub open spec fn sorted_contents_of(s: Seq<Seq<char>>, t: Seq<Seq<char>>) -> bool {
    sorted_strict(s, true) && forall|x: Seq<char>| s.contains(x) <==> t.contains(x)
}

/// The assembled list never exceeds the cap, and when the priority files fill
/// the cap on their own no secondary file is kept.
pub proof fn lemma_assembly_respects_cap(sp: Seq<Seq<char>>, ss: Seq<Seq<char>>, max: nat)
    ensures
        spec_assemble(sp, ss, max).len() <= max,
        sp.len() >= max ==> spec_assemble(sp, ss, max) == sp.take(max as int),
        sp.len() >= max ==> forall|x: Seq<char>| spec_assemble(sp, ss, max).contains(x) ==> sp.contains(x),
{
    if sp.len() >= max {
        assert(ss.take(0) =~= Seq::<Seq<char>>::empty());
        assert(spec_assemble(sp, ss, max) =~= sp.take(max as int));
        assert forall|x: Seq<char>| spec_assemble(sp, ss, max).contains(x) implies sp.contains(x) by {
            let i = choose|i: int| 0 <= i < max && sp.take(max as int)[i] == x;
            assert(sp[i] == x);
        }
    }
}

/// Gathers the files of a walk into a priority tier and a secondary tier,
/// bounded by a file cap and a depth.
pub struct FileCollector {
    max_files: usize,
    max_depth: usize,
    priority: Vec<String>,
    secondary: Vec<String>,
}

impl FileCollector {
    pub closed spec fn spec_max_files(&self) -> nat {
        self.max_files as nat
    }

    pub closed spec fn spec_max_depth(&self) -> nat {
        self.max_depth as nat
    }

    /// The priority files admitted so far, in the order offered.
    pub closed spec fn spec_priority(&self) -> Seq<Seq<char>> {
        views(self.priority@)
    }

    /// The secondary files admitted so far, in the order offered.
    pub closed spec fn spec_secondary(&self) -> Seq<Seq<char>> {
        views(self.secondary@)
    }

    /// As many files as the cap allows have been admitted.
    pub open spec fn spec_is_full(&self) -> bool {
        self.spec_priority().len() + self.spec_secondary().len() >= self.spec_max_files()
    }

    /// A file named `name` under directories `dirs` is admitted by `offer`.
    pub open spec fn spec_admits(&self, dirs: Seq<Seq<char>>, name: Seq<char>) -> bool {
        !self.spec_is_full() && dirs.len() < self.spec_max_depth() && (forall|i: int|
            0 <= i < dirs.len() ==> !spec_is_ignored_dir(#[trigger] dirs[i])) && spec_file_tier(name)
            != Tier::Skipped
    }

    /// An empty collector.
    pub fn new(max_files: usize, max_depth: usize) -> (r: Self)
        ensures
            r.spec_max_files() == max_files,
            r.spec_max_depth() == max_depth,
            r.spec_priority().len() == 0,
            r.spec_secondary().len() == 0,
    {
        FileCollector { max_files, max_depth, priority: Vec::new(), secondary: Vec::new() }
    }

    /// Whether the cap has been reached, so that the walk can stop.
    pub fn is_full(&self) -> (r: bool)
        ensures
            r == self.spec_is_full(),
    {
        self.priority.len() >= self.max_files || self.secondary.len() >= self.max_files
            - self.priority.len()
    }

    /// Offers the file `name` found under the directories `dirs` (relative to the
    /// root of the walk). It is admitted, to its tier, unless the cap is reached,
    /// it lies deeper than the depth bound, one of its directories is ignored, or
    /// its name is not of a recognised kind.
    pub fn offer(&mut self, dirs: &Vec<String>, name: &str)
        ensures
            final(self).spec_max_files() == old(self).spec_max_files(),
            final(self).spec_max_depth() == old(self).spec_max_depth(),
            final(self).spec_priority() == if old(self).spec_admits(views(dirs@), name@)
                && spec_file_tier(name@) == Tier::Priority {
                old(self).spec_priority().push(spec_join(views(dirs@), name@))
            } else {
                old(self).spec_priority()
            },
            final(self).spec_secondary() == if old(self).spec_admits(views(dirs@), name@)
                && spec_file_tier(name@) == Tier::Secondary {
                old(self).spec_secondary().push(spec_join(views(dirs@), name@))
            } else {
                old(self).spec_secondary()
            },
    {
        if self.is_full() || dirs.len() >= self.max_depth {
            return;
        }
        let mut i: usize = 0;
        while i < dirs.len()
            invariant
                i <= dirs.len(),
                forall|k: int| 0 <= k < i ==> !spec_is_ignored_dir(#[trigger] views(dirs@)[k]),
            decreases dirs.len() - i,
        {
            if is_ignored_dir(dirs[i].as_str()) {
                assert(spec_is_ignored_dir(views(dirs@)[i as int]));
                return;
            }
            i = i + 1;
        }
        let tier = classify_file(name);
        match tier {
            Tier::Priority => {
                let p = join_path(dirs, name);
                self.priority.push(p);
                assert(views(self.priority@) =~= views(old(self).priority@).push(p@));
            },
            Tier::Secondary => {
                let p = join_path(dirs, name);
                self.secondary.push(p);
                assert(views(self.secondary@) =~= views(old(self).secondary@).push(p@));
            },
            Tier::Skipped => {},
        }
    }

    /// The collected files: the priority tier sorted, cut to the cap, then as many
    /// of the sorted secondary tier as there is room for. Paths are sorted segment
    /// by segment and appear once.
    pub fn finish(&self) -> (r: Vec<String>)
        ensures
            exists|sp: Seq<Seq<char>>, ss: Seq<Seq<char>>|
                sorted_contents_of(sp, self.spec_priority()) && sorted_contents_of(
                    ss,
                    self.spec_secondary(),
                ) && views(r@) == spec_assemble(sp, ss, self.spec_max_files()),
    {
        let sp = sort_unique(&self.priority, true);
        let ss = sort_unique(&self.secondary, true);
        let a: usize = if sp.len() < self.max_files { sp.len() } else { self.max_files };
        let room: usize = self.max_files - a;
        let b: usize = if ss.len() < room { ss.len() } else { room };
        let mut out: Vec<String> = Vec::new();
        let mut i: usize = 0;
        while i < a
            invariant
                a <= sp.len(),
                i <= a,
                views(out@) == views(sp@).take(i as int),
            decreases a - i,
        {
            let ghost before = out@;
            let x = sp[i].clone();
            assert(x@ == sp@[i as int]@);
            out.push(x);
            assert(out@ == before.push(x));
            assert(views(out@) =~= views(before).push(x@));
            assert(views(out@) =~= views(sp@).take(i + 1));
            i = i + 1;
        }
        let mut j: usize = 0;
        while j < b
            invariant
                a <= sp.len(),
                b <= ss.len(),
                j <= b,
                views(out@) == views(sp@).take(a as int) + views(ss@).take(j as int),
            decreases b - j,
        {
            let ghost before = out@;
            let x = ss[j].clone();
            assert(x@ == ss@[j as int]@);
            out.push(x);
            assert(views(out@) =~= views(before).push(x@));
            assert(views(out@) =~= views(sp@).take(a as int) + views(ss@).take(j + 1));
            j = j + 1;
        }
        assert(views(out@) == spec_assemble(views(sp@), views(ss@), self.spec_max_files()));
        out
    }
}

/// A file under an ignored directory is never admitted, however deep it lies,
/// so the collector is left unchanged by it.
pub proof fn lemma_ignored_dirs_contribute_nothing(
    c: FileCollector,
    dirs: Seq<Seq<char>>,
    name: Seq<char>,
    i: int,
)
    requires
        0 <= i < dirs.len(),
        spec_is_ignored_dir(dirs[i]),
    ensures
        !c.spec_admits(dirs, name),
{
}

} // verus!
