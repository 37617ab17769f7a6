use vstd::prelude::*;
use vstd::string::*;
use crate::collect::{extension_of, lower_of, lowercase, spec_extension};
use crate::text::{
    decimal, push_decimal, seq_contains, seq_starts_with, sorted_strict, str_contains,
    str_starts_with, str_less, str_eq, views, seq_less, lemma_less_total, lemma_less_transitive,
};

verus! {

/// The outcome of analysing one file: its relative path (segments joined by
/// `/`) and its symbol records, or `None` where extraction failed.
#[derive(Debug, Clone)]
pub struct FileReport {
    pub path: String,
    pub symbols: Option<Vec<String>>,
}

/// The icon shown before a symbol record, chosen by its leading keyword.
pub open spec fn spec_symbol_icon(s: Seq<char>) -> Seq<char> {
    if seq_starts_with(s, "fn "@) || seq_contains(s, "function"@) {
        "🔧 "@
    } else if seq_starts_with(s, "struct "@) || seq_starts_with(s, "class "@) {
        "🏗️  "@
    } else if seq_starts_with(s, "enum "@) {
        "🔢 "@
    } else if seq_starts_with(s, "trait "@) || seq_starts_with(s, "interface "@) {
        "🎭 "@
    } else if seq_starts_with(s, "impl "@) {
        "⚙️  "@
    } else if seq_starts_with(s, "mod "@) || seq_starts_with(s, "module "@) {
        "📦 "@
    } else if seq_starts_with(s, "const "@) || seq_starts_with(s, "static "@) {
        "📌 "@
    } else if seq_starts_with(s, "let "@) || seq_starts_with(s, "var "@) {
        "📊 "@
    } else {
        "🔍 "@
    }
}

fn symbol_icon(s: &str) -> (r: &'static str)
    ensures
        r@ == spec_symbol_icon(s@),
{
    if str_starts_with(s, "fn ") || str_contains(s, "function") {
        "🔧 "
    } else if str_starts_with(s, "struct ") || str_starts_with(s, "class ") {
        "🏗️  "
    } else if str_starts_with(s, "enum ") {
        "🔢 "
    } else if str_starts_with(s, "trait ") || str_starts_with(s, "interface ") {
        "🎭 "
    } else if str_starts_with(s, "impl ") {
        "⚙️  "
    } else if str_starts_with(s, "mod ") || str_starts_with(s, "module ") {
        "📦 "
    } else if str_starts_with(s, "const ") || str_starts_with(s, "static ") {
        "📌 "
    } else if str_starts_with(s, "let ") || str_starts_with(s, "var ") {
        "📊 "
    } else {
        "🔍 "
    }
}

/// A symbol record with its icon in front.
pub fn format_symbol(symbol: &str) -> (r: String)
    ensures
        r@ == spec_symbol_icon(symbol@) + symbol@,
{
    String::from_str(symbol_icon(symbol)).concat(symbol)
}

/// The number of symbols of a report; a failed extraction counts none.
pub open spec fn spec_symbols_of(f: FileReport) -> nat {
    match f.symbols {
        Some(v) => v@.len(),
        None => 0,
    }
}

/// The total number of symbols over the reports.
pub open spec fn spec_total_symbols(files: Seq<FileReport>) -> nat
    decreases files.len(),
{
    if files.len() == 0 {
        0
    } else {
        spec_total_symbols(files.drop_last()) + spec_symbols_of(files.last())
    }
}

/// The number of reports with at least one symbol.
pub open spec fn spec_files_with_symbols(files: Seq<FileReport>) -> nat
    decreases files.len(),
{
    if files.len() == 0 {
        0
    } else {
        spec_files_with_symbols(files.drop_last()) + if spec_symbols_of(files.last()) > 0 {
            1nat
        } else {
            0nat
        }
    }
}

/// Counts the files that yielded symbols and the symbols over all files.
pub fn symbol_statistics(files: &Vec<FileReport>) -> (r: (usize, usize))
    requires
        spec_total_symbols(files@) <= usize::MAX,
    ensures
        r.0 == spec_files_with_symbols(files@),
        r.1 == spec_total_symbols(files@),
{
    let mut with: usize = 0;
    let mut total: usize = 0;
    let mut k: usize = 0;
    while k < files.len()
        invariant
            k <= files.len(),
            spec_total_symbols(files@) <= usize::MAX,
            with == spec_files_with_symbols(files@.take(k as int)),
            total == spec_total_symbols(files@.take(k as int)),
            with <= k,
        decreases files.len() - k,
    {
        proof {
            assert(files@.take(k + 1).drop_last() =~= files@.take(k as int));
            lemma_total_prefix(files@, k + 1);
        }
        match &files[k].symbols {
            Some(v) => {
                if v.len() > 0 {
                    total = total + v.len();
                    with = with + 1;
                }
            },
            None => {},
        }
        k = k + 1;
    }
    assert(files@.take(files.len() as int) =~= files@);
    (with, total)
}

proof fn lemma_total_prefix(files: Seq<FileReport>, k: int)
    requires
        0 <= k <= files.len(),
    ensures
        spec_total_symbols(files.take(k)) <= spec_total_symbols(files),
    decreases files.len() - k,
{
    if k < files.len() {
        lemma_total_prefix(files, k + 1);
        assert(files.take(k + 1).drop_last() =~= files.take(k));
    } else {
        assert(files.take(k) =~= files);
    }
}

/// The part of a path after its last `/`.
pub open spec fn spec_file_name(p: Seq<char>) -> Seq<char>
    decreases p.len(),
{
    if p.len() == 0 {
        p
    } else if p.last() == '/' {
        Seq::empty()
    } else {
        spec_file_name(p.drop_last()).push(p.last())
    }
}

/// The lowercase extension of a path's file name, if it has one.
pub open spec fn spec_lower_ext(p: Seq<char>) -> Option<Seq<char>> {
    match spec_extension(spec_file_name(p)) {
        Some(e) => Some(lower_of(e)),
        None => None,
    }
}

/// The file name of a path: what follows its last `/`.
pub fn file_name_of(p: &str) -> (r: &str)
    ensures
        r@ == spec_file_name(p@),
{
    let n = p.unicode_len();
    let mut i: usize = n;
    assert(p@.subrange(0, n as int) =~= p@);
    assert(p@.subrange(n as int, n as int) =~= Seq::<char>::empty());
    assert(spec_file_name(p@) + Seq::<char>::empty() =~= spec_file_name(p@));
    while i > 0 && p.get_char(i - 1) != '/'
        invariant
            n == p@.len(),
            i <= n,
            spec_file_name(p@) == spec_file_name(p@.subrange(0, i as int)) + p@.subrange(
                i as int,
                n as int,
            ),
        decreases i,
    {
        let ghost pre = p@.subrange(0, i as int);
        assert(pre.drop_last() =~= p@.subrange(0, i - 1));
        assert(pre.last() == p@[i - 1]);
        assert(p@.subrange(i - 1, n as int) =~= seq![p@[i - 1]] + p@.subrange(i as int, n as int));
        assert(spec_file_name(pre) == spec_file_name(pre.drop_last()).push(pre.last()));
        assert(spec_file_name(pre.drop_last()).push(pre.last()) + p@.subrange(i as int, n as int)
            =~= spec_file_name(pre.drop_last()) + p@.subrange(i - 1, n as int));
        i = i - 1;
    }
    assert(p@.subrange(0, n as int) =~= p@);
    if i > 0 {
        let ghost pre = p@.subrange(0, i as int);
        assert(pre.last() == '/');
        assert(spec_file_name(pre) == Seq::<char>::empty());
    } else {
        assert(p@.subrange(0, 0) =~= Seq::<char>::empty());
    }
    assert(spec_file_name(p@) =~= p@.subrange(i as int, n as int));
    p.substring_char(i, n)
}

/// The lowercase extension of a path's file name, if it has one.
pub fn lower_ext_of(p: &str) -> (r: Option<String>)
    ensures
        r matches Some(e) ==> spec_lower_ext(p@) == Some(e@),
        r is None ==> spec_lower_ext(p@) is None,
{
    match extension_of(file_name_of(p)) {
        Some(e) => Some(lowercase(e.as_str())),
        None => None,
    }
}

/// The lowercase extensions of the reports' paths.
pub open spec fn spec_exts(files: Seq<FileReport>) -> Seq<Option<Seq<char>>> {
    files.map_values(|f: FileReport| spec_lower_ext(f.path@))
}

/// How many of `exts` are `e`.
pub open spec fn count_ext(exts: Seq<Option<Seq<char>>>, e: Seq<char>) -> nat
    decreases exts.len(),
{
    if exts.len() == 0 {
        0
    } else {
        count_ext(exts.drop_last(), e) + if exts.last() == Some(e) {
            1nat
        } else {
            0nat
        }
    }
}

proof fn lemma_count_bound(exts: Seq<Option<Seq<char>>>, e: Seq<char>)
    ensures
        count_ext(exts, e) <= exts.len(),
    decreases exts.len(),
{
    if exts.len() > 0 {
        lemma_count_bound(exts.drop_last(), e);
    }
}

/// The keys of a histogram.
pub open spec fn hist_keys(h: Seq<(String, usize)>) -> Seq<Seq<char>> {
    h.map_values(|p: (String, usize)| p.0@)
}

/// `h` lists, sorted by extension and once each, every extension that occurs
/// in `exts` with the number of times it occurs.
pub open spec fn is_histogram(h: Seq<(String, usize)>, exts: Seq<Option<Seq<char>>>) -> bool {
    &&& sorted_strict(hist_keys(h), false)
    &&& forall|i: int| 0 <= i < h.len() ==> (#[trigger] h[i]).1 == count_ext(exts, h[i].0@) && h[i].1 > 0
    &&& forall|e: Seq<char>| count_ext(exts, e) > 0 ==> hist_keys(h).contains(e)
}

/// Tallies the files by lowercase extension; files without one are not counted.
pub fn extension_counts(files: &Vec<FileReport>) -> (r: Vec<(String, usize)>)
    ensures
        is_histogram(r@, spec_exts(files@)),
{
    let mut h: Vec<(String, usize)> = Vec::new();
    let mut k: usize = 0;
    while k < files.len()
        invariant
            k <= files.len(),
            is_histogram(h@, spec_exts(files@).take(k as int)),
            forall|i: int| 0 <= i < h@.len() ==> (#[trigger] h@[i]).1 <= k,
        decreases files.len() - k,
    {
        let ghost prev = spec_exts(files@).take(k as int);
        let ghost next = spec_exts(files@).take(k + 1);
        assert(next.drop_last() =~= prev);
        assert(next.last() == spec_lower_ext(files@[k as int].path@));
        match lower_ext_of(files[k].path.as_str()) {
            None => {
                assert forall|e: Seq<char>| count_ext(next, e) == count_ext(prev, e) by {}
            },
            Some(e) => {
                let mut p: usize = 0;
                while p < h.len() && str_less(h[p].0.as_str(), e.as_str(), false)
                    invariant
                        p <= h@.len(),
                        forall|i: int| 0 <= i < p ==> seq_less(#[trigger] hist_keys(h@)[i], e@, false),
                    decreases h.len() - p,
                {
                    p = p + 1;
                }
                let ghost before = h@;
                if p < h.len() && str_eq(h[p].0.as_str(), e.as_str()) {
                    let c = h[p].1;
                    proof {
                        lemma_count_bound(prev, e@);
                    }
                    let key = h[p].0.clone();
                    h.set(p, (key, c + 1));
                    assert(hist_keys(h@) =~= hist_keys(before));
                    assert forall|i: int| 0 <= i < h@.len() implies (#[trigger] h@[i]).1 == count_ext(next, h@[i].0@) && h@[i].1 > 0 by {
                        if i != p {
                            assert(hist_keys(before)[i] != hist_keys(before)[p as int]) by {
                                crate::text::lemma_sorted_strict_distinct(hist_keys(before), false);
                            }
                        }
                    }
                    assert forall|x: Seq<char>| count_ext(next, x) > 0 implies hist_keys(h@).contains(x) by {
                        if x != e@ {
                            assert(count_ext(prev, x) > 0);
                        } else {
                            assert(hist_keys(h@)[p as int] == x);
                        }
                    }
                } else {
                    proof {
                        if p < h.len() {
                            lemma_less_total(hist_keys(h@)[p as int], e@, false);
                        }
                    }
                    h.insert(p, (e, 1));
                    let ghost after = hist_keys(h@);
                    let ghost bk = hist_keys(before);
                    assert(after =~= bk.insert(p as int, e@));
                    assert forall|i: int, j: int| 0 <= i < j < after.len() implies seq_less(
                        #[trigger] after[i],
                        #[trigger] after[j],
                        false,
                    ) by {
                        if j < p {
                        } else if i < p && j == p {
                        } else if i < p {
                            assert(after[j] == bk[j - 1]);
                            lemma_less_transitive(after[i], e@, bk[p as int], false);
                            if j - 1 > p {
                                lemma_less_transitive(after[i], bk[p as int], bk[j - 1], false);
                            }
                        } else if i == p {
                            assert(after[j] == bk[j - 1]);
                            if j - 1 > p {
                                lemma_less_transitive(e@, bk[p as int], bk[j - 1], false);
                            }
                        } else {
                            assert(after[i] == bk[i - 1]);
                            assert(after[j] == bk[j - 1]);
                        }
                    }
                    assert(count_ext(prev, e@) == 0) by {
                        if count_ext(prev, e@) > 0 {
                            assert(bk.contains(e@));
                            let q = choose|q: int| 0 <= q < bk.len() && bk[q] == e@;
                            if q < p {
                                crate::text::lemma_less_irreflexive(e@, false);
                            } else {
                                if q > p {
                                    crate::text::lemma_less_irreflexive(e@, false);
                                    lemma_less_transitive(e@, bk[p as int], bk[q], false);
                                } else {
                                    crate::text::lemma_less_irreflexive(e@, false);
                                }
                            }
                        }
                    }
                    assert forall|i: int| 0 <= i < h@.len() implies (#[trigger] h@[i]).1 == count_ext(next, h@[i].0@) && h@[i].1 > 0 by {
                        if i < p {
                            assert(h@[i] == before[i]);
                            assert(bk[i] != e@) by {
                                crate::text::lemma_less_irreflexive(e@, false);
                            }
                        } else if i > p {
                            assert(h@[i] == before[i - 1]);
                            assert(bk[i - 1] != e@) by {
                                crate::text::lemma_less_irreflexive(e@, false);
                                if i - 1 > p {
                                    lemma_less_transitive(e@, bk[p as int], bk[i - 1], false);
                                }
                            }
                        }
                    }
                    assert forall|x: Seq<char>| count_ext(next, x) > 0 implies after.contains(x) by {
                        if x != e@ {
                            assert(count_ext(prev, x) > 0);
                            assert(bk.contains(x));
                            let q = choose|q: int| 0 <= q < bk.len() && bk[q] == x;
                            if q < p {
                                assert(after[q] == x);
                            } else {
                                assert(after[q + 1] == x);
                            }
                        } else {
                            assert(after[p as int] == x);
                        }
                    }
                }
            },
        }
        k = k + 1;
    }
    assert(spec_exts(files@).take(files.len() as int) =~= spec_exts(files@));
    h
}

/// The histogram lines of the summary.
pub open spec fn spec_hist_lines(h: Seq<(String, usize)>) -> Seq<char>
    decreases h.len(),
{
    if h.len() == 0 {
        Seq::empty()
    } else {
        spec_hist_lines(h.drop_last()) + "  • ."@ + h.last().0@ + ": "@ + decimal(h.last().1 as nat)
            + " files\n"@
    }
}

/// The summary text for a histogram `h` of the files.
pub open spec fn spec_summary_text(
    files: Seq<FileReport>,
    max: nat,
    root: Seq<char>,
    h: Seq<(String, usize)>,
) -> Seq<char> {
    "📁 Workspace Summary\n═══════════════════\n\n📂 File Types:\n"@ + spec_hist_lines(h)
        + "\n📊 Statistics:\n• "@ + decimal(files.len()) + " total files\n• "@ + decimal(
        spec_files_with_symbols(files),
    ) + " files with symbols\n• "@ + decimal(spec_total_symbols(files)) + " total symbols\n• Max "@ + decimal(max)
        + " symbols shown per file\n• Root: "@
        + root + "\n"@
}

/// Renders the statistical summary of the files: a histogram of their
/// lowercase extensions, then the file and symbol counts, the per-file symbol
/// cap and the root.
pub fn format_workspace_summary(
    root: &str,
    files: &Vec<FileReport>,
    max_symbols_per_file: usize,
) -> (r: String)
    requires
        spec_total_symbols(files@) <= usize::MAX,
    ensures
        exists|h: Seq<(String, usize)>|
            is_histogram(h, spec_exts(files@)) && r@ == spec_summary_text(
                files@,
                max_symbols_per_file as nat,
                root@,
                h,
            ),
{
    let h = extension_counts(files);
    let (with, total) = symbol_statistics(files);
    let mut out = String::from_str("📁 Workspace Summary\n═══════════════════\n\n📂 File Types:\n");
    let mut i: usize = 0;
    while i < h.len()
        invariant
            i <= h.len(),
            out@ == "📁 Workspace Summary\n═══════════════════\n\n📂 File Types:\n"@ + spec_hist_lines(h@.take(i as int)),
        decreases h.len() - i,
    {
        out.append("  • .");
        out.append(h[i].0.as_str());
        out.append(": ");
        push_decimal(&mut out, h[i].1);
        out.append(" files\n");
        assert(h@.take(i + 1).drop_last() =~= h@.take(i as int));
        i = i + 1;
    }
    assert(h@.take(h.len() as int) =~= h@);
    out.append("\n📊 Statistics:\n• ");
    push_decimal(&mut out, files.len());
    out.append(" total files\n• ");
    push_decimal(&mut out, with);
    out.append(" files with symbols\n• ");
    push_decimal(&mut out, total);
    out.append(" total symbols\n• Max ");
    push_decimal(&mut out, max_symbols_per_file);
    out.append(" symbols shown per file\n• Root: ");
    out.append(root);
    out.append("\n");
    assert(out@ =~= spec_summary_text(files@, max_symbols_per_file as nat, root@, h@));
    out
}

proof fn lemma_hist_lines_by_view(h1: Seq<(String, usize)>, h2: Seq<(String, usize)>)
    requires
        h1.len() == h2.len(),
        forall|i: int| 0 <= i < h1.len() ==> (#[trigger] h1[i]).0@ == h2[i].0@ && h1[i].1 == h2[i].1,
    ensures
        spec_hist_lines(h1) == spec_hist_lines(h2),
    decreases h1.len(),
{
    if h1.len() > 0 {
        let d1 = h1.drop_last();
        let d2 = h2.drop_last();
        assert forall|i: int| 0 <= i < d1.len() implies (#[trigger] d1[i]).0@ == d2[i].0@ && d1[i].1 == d2[i].1 by {
            assert(d1[i] == h1[i] && d2[i] == h2[i]);
        }
        lemma_hist_lines_by_view(d1, d2);
        assert(h1.last() == h1[h1.len() - 1]);
    }
}

/// The histogram of a list of files is unique, so the summary of the same
/// files and root is always the same text.
pub proof fn lemma_summary_text_deterministic(
    h1: Seq<(String, usize)>,
    h2: Seq<(String, usize)>,
    files: Seq<FileReport>,
    max: nat,
    root: Seq<char>,
)
    requires
        is_histogram(h1, spec_exts(files)),
        is_histogram(h2, spec_exts(files)),
    ensures
        spec_summary_text(files, max, root, h1) == spec_summary_text(files, max, root, h2),
{
    let exts = spec_exts(files);
    assert forall|x: Seq<char>| hist_keys(h1).contains(x) <==> hist_keys(h2).contains(x) by {
        if hist_keys(h1).contains(x) {
            let i = choose|i: int| 0 <= i < hist_keys(h1).len() && hist_keys(h1)[i] == x;
            assert(h1[i].1 == count_ext(exts, x));
        }
        if hist_keys(h2).contains(x) {
            let i = choose|i: int| 0 <= i < hist_keys(h2).len() && hist_keys(h2)[i] == x;
            assert(h2[i].1 == count_ext(exts, x));
        }
    }
    crate::text::lemma_sorted_strict_unique(hist_keys(h1), hist_keys(h2), false);
    assert(h1.len() == hist_keys(h1).len() && h2.len() == hist_keys(h2).len());
    assert forall|i: int| 0 <= i < h1.len() implies (#[trigger] h1[i]).0@ == h2[i].0@ && h1[i].1 == h2[i].1 by {
        assert(hist_keys(h1)[i] == hist_keys(h2)[i]);
    }
    lemma_hist_lines_by_view(h1, h2);
}

/// Each extension's count in a histogram is the number of files whose
/// lowercase extension it is, and every such extension is listed.
pub proof fn lemma_histogram_counts(h: Seq<(String, usize)>, files: Seq<FileReport>, e: Seq<char>)
    requires
        is_histogram(h, spec_exts(files)),
    ensures
        count_ext(spec_exts(files), e) > 0 ==> exists|i: int| 0 <= i < h.len() && h[i].0@ == e,
        forall|i: int| 0 <= i < h.len() && (#[trigger] h[i]).0@ == e ==> h[i].1 == count_ext(spec_exts(files), e),
{
    if count_ext(spec_exts(files), e) > 0 {
        assert(hist_keys(h).contains(e));
        let i = choose|i: int| 0 <= i < hist_keys(h).len() && hist_keys(h)[i] == e;
        assert(h[i].0@ == e);
    }
}

} // verus!
