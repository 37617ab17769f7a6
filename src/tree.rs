use vstd::prelude::*;
use vstd::string::*;
use crate::render::{
    spec_symbol_icon, format_symbol, FileReport, spec_total_symbols, spec_files_with_symbols,
    symbol_statistics,
};
use crate::text::{
    decimal, push_decimal, str_eq, str_less, views, seq_less, sorted_strict, lemma_less_total,
    lemma_less_transitive, lemma_less_irreflexive,
};

verus! {

/// Number of sibling entries shown at one level of the tree.
pub const MAX_ENTRIES_PER_LEVEL: usize = 50;

/// The end of the path segment that begins at `i`: the next `/`, or the end.
pub open spec fn seg_end(p: Seq<char>, i: int) -> int
    decreases p.len() - i,
{
    if i >= p.len() {
        p.len() as int
    } else if p[i] == '/' {
        i
    } else {
        seg_end(p, i + 1)
    }
}

/// The path segment that begins at `start`.
pub open spec fn seg(p: Seq<char>, start: int) -> Seq<char> {
    if 0 <= start <= p.len() {
        p.subrange(start, seg_end(p, start))
    } else {
        Seq::empty()
    }
}

/// The first index from `j` on (below `hi`) whose segment at `start` differs
/// from that of entry `lo`.
pub open spec fn run_end(fs: Seq<FileReport>, lo: int, hi: int, start: int, j: int) -> int
    decreases hi - j,
{
    if j >= hi || j < 0 || lo < 0 || hi > fs.len() {
        hi
    } else if seg(fs[j].path@, start) == seg(fs[lo].path@, start) {
        run_end(fs, lo, hi, start, j + 1)
    } else {
        j
    }
}

/// The end of the run of entries that share the segment of entry `lo`.
pub open spec fn next_run(fs: Seq<FileReport>, lo: int, hi: int, start: int) -> int {
    let e = run_end(fs, lo, hi, start, lo + 1);
    if e <= lo {
        lo + 1
    } else if e > hi {
        hi
    } else {
        e
    }
}

/// How many distinct segments (runs) the entries `lo..hi` have at `start`.
pub open spec fn count_runs(fs: Seq<FileReport>, lo: int, hi: int, start: int) -> nat
    decreases hi - lo,
{
    if lo >= hi {
        0
    } else {
        1 + count_runs(fs, next_run(fs, lo, hi, start), hi, start)
    }
}

/// The connector before an entry's name.
pub open spec fn connector(is_root: bool, is_last: bool) -> Seq<char> {
    if is_root {
        Seq::empty()
    } else if is_last {
        "└── "@
    } else {
        "├── "@
    }
}

/// The indentation under an entry.
pub open spec fn indent(is_root: bool, is_last: bool) -> Seq<char> {
    if is_root {
        Seq::empty()
    } else if is_last {
        "    "@
    } else {
        "│   "@
    }
}

/// The symbol lines `j..shown` of a file.
pub open spec fn sym_lines(
    v: Seq<Seq<char>>,
    j: int,
    shown: int,
    max: nat,
    no_children: bool,
    lead: Seq<char>,
) -> Seq<char>
    decreases shown - j,
{
    if j >= shown || j >= v.len() || j < 0 {
        Seq::empty()
    } else {
        lead + "  "@ + (if j + 1 == max || (j + 1 == v.len() && no_children) {
            "└─ "@
        } else {
            "├─ "@
        }) + spec_symbol_icon(v[j]) + v[j] + "\n"@ + sym_lines(v, j + 1, shown, max, no_children, lead)
    }
}

/// The lines under a file: its symbols, capped at `max` with a line that counts
/// the rest, or a marker where extraction failed.
pub open spec fn symbols_text(
    syms: Option<Vec<String>>,
    max: nat,
    no_children: bool,
    lead: Seq<char>,
) -> Seq<char> {
    match syms {
        None => lead + "  └─ ⚠️  (parsing error)\n"@,
        Some(v) => {
            let vs = views(v@);
            if vs.len() == 0 {
                Seq::empty()
            } else {
                let shown = if vs.len() < max {
                    vs.len()
                } else {
                    max
                };
                sym_lines(vs, 0, shown as int, max, no_children, lead) + if vs.len() > max {
                    lead + "  └─ ... ("@ + decimal((vs.len() - max) as nat) + " more symbols)\n"@
                } else {
                    Seq::empty()
                }
            }
        },
    }
}

/// The text of the entries `lo..hi`, which share the path up to `start`: at
/// most `MAX_ENTRIES_PER_LEVEL` distinct segments, then a line that counts the
/// rest.
pub open spec fn spec_level(
    fs: Seq<FileReport>,
    lo: int,
    hi: int,
    start: int,
    prefix: Seq<char>,
    is_root: bool,
    max: nat,
    bound: int,
) -> Seq<char>
    decreases bound - start, hi - lo, 2int,
{
    if start > bound || lo < 0 || hi > fs.len() || lo >= hi {
        Seq::empty()
    } else {
        let n = count_runs(fs, lo, hi, start);
        let shown = if n < 50 {
            n
        } else {
            50
        };
        spec_entries(fs, lo, hi, start, prefix, is_root, max, bound, 0, shown as int) + if n > 50 {
            prefix + "... ("@ + decimal((n - 50) as nat) + " more items not shown)\n"@
        } else {
            Seq::empty()
        }
    }
}

/// The text of the runs numbered `i..shown` among the entries `lo..hi`.
pub open spec fn spec_entries(
    fs: Seq<FileReport>,
    lo: int,
    hi: int,
    start: int,
    prefix: Seq<char>,
    is_root: bool,
    max: nat,
    bound: int,
    i: int,
    shown: int,
) -> Seq<char>
    decreases bound - start, hi - lo, 1int,
{
    if start > bound || lo < 0 || hi > fs.len() || lo >= hi || i >= shown {
        Seq::empty()
    } else {
        let e = next_run(fs, lo, hi, start);
        spec_entry(fs, lo, e, start, prefix, is_root, i + 1 == shown, max, bound) + spec_entries(
            fs,
            e,
            hi,
            start,
            prefix,
            is_root,
            max,
            bound,
            i + 1,
            shown,
        )
    }
}

/// The line of an entry named by its segment at `start`, with the symbol lines
/// of a file.
pub open spec fn entry_head(
    f: FileReport,
    start: int,
    prefix: Seq<char>,
    is_root: bool,
    is_last: bool,
    max: nat,
    has_children: bool,
) -> Seq<char> {
    let p = f.path@;
    let name = seg(p, start);
    if seg_end(p, start) >= p.len() {
        prefix + connector(is_root, is_last) + name + "\n"@ + symbols_text(
            f.symbols,
            max,
            !has_children,
            prefix + indent(is_root, is_last),
        )
    } else {
        prefix + connector(is_root, is_last) + "📁 "@ + name + "/\n"@
    }
}

/// The text of one run `lo..e`: the entry's line, the symbols of a file, then
/// what lies below it.
pub open spec fn spec_entry(
    fs: Seq<FileReport>,
    lo: int,
    e: int,
    start: int,
    prefix: Seq<char>,
    is_root: bool,
    is_last: bool,
    max: nat,
    bound: int,
) -> Seq<char>
    decreases bound - start, e - lo, 0int,
{
    if start > bound || lo < 0 || e > fs.len() || lo >= e {
        Seq::empty()
    } else {
        let p = fs[lo].path@;
        let end = seg_end(p, start);
        let child_lo = if end >= p.len() {
            lo + 1
        } else {
            lo
        };
        let has_children = child_lo < e;
        let cs = end + 1;
        let child_prefix = if is_root {
            Seq::empty()
        } else {
            prefix + indent(false, is_last)
        };
        entry_head(fs[lo], start, prefix, is_root, is_last, max, has_children) + if has_children
            && start < cs <= bound {
            spec_level(fs, child_lo, e, cs, child_prefix, false, max, bound)
        } else {
            Seq::empty()
        }
    }
}

fn seg_end_of(p: &str, i: usize) -> (r: usize)
    ensures
        r == seg_end(p@, i as int),
{
    let n = p.unicode_len();
    let mut j: usize = i;
    while j < n && p.get_char(j) != '/'
        invariant
            n == p@.len(),
            i <= j,
            seg_end(p@, i as int) == seg_end(p@, j as int),
        decreases n - j,
    {
        j = j + 1;
    }
    if j >= n {
        n
    } else {
        j
    }
}

fn seg_of(p: &str, start: usize) -> (r: &str)
    ensures
        r@ == seg(p@, start as int),
{
    let n = p.unicode_len();
    if start > n {
        proof {
            reveal_strlit("");
        }
        return "";
    }
    let end = seg_end_of(p, start);
    proof {
        lemma_seg_end_bounds(p@, start as int);
    }
    p.substring_char(start, end)
}

proof fn lemma_seg_end_bounds(p: Seq<char>, i: int)
    requires
        0 <= i <= p.len(),
    ensures
        i <= seg_end(p, i) <= p.len(),
    decreases p.len() - i,
{
    if i < p.len() && p[i] != '/' {
        lemma_seg_end_bounds(p, i + 1);
    }
}

proof fn lemma_run_end_bounds(fs: Seq<FileReport>, lo: int, hi: int, start: int, j: int)
    requires
        0 <= lo < hi <= fs.len(),
        lo < j <= hi,
    ensures
        j <= run_end(fs, lo, hi, start, j) <= hi,
    decreases hi - j,
{
    if j < hi && seg(fs[j].path@, start) == seg(fs[lo].path@, start) {
        lemma_run_end_bounds(fs, lo, hi, start, j + 1);
    }
}

fn next_run_of(fs: &Vec<FileReport>, lo: usize, hi: usize, start: usize) -> (r: usize)
    requires
        lo < hi <= fs@.len(),
    ensures
        r == next_run(fs@, lo as int, hi as int, start as int),
        lo < r <= hi,
{
    let first = seg_of(fs[lo].path.as_str(), start);
    let mut j: usize = lo + 1;
    while j < hi && str_eq(seg_of(fs[j].path.as_str(), start), first)
        invariant
            lo < j <= hi,
            hi <= fs@.len(),
            first@ == seg(fs@[lo as int].path@, start as int),
            run_end(fs@, lo as int, hi as int, start as int, lo + 1) == run_end(
                fs@,
                lo as int,
                hi as int,
                start as int,
                j as int,
            ),
        decreases hi - j,
    {
        j = j + 1;
    }
    proof {
        lemma_run_end_bounds(fs@, lo as int, hi as int, start as int, lo + 1);
    }
    j
}

proof fn lemma_count_runs_bound(fs: Seq<FileReport>, lo: int, hi: int, start: int)
    requires
        0 <= lo <= hi <= fs.len(),
    ensures
        count_runs(fs, lo, hi, start) <= hi - lo,
    decreases hi - lo,
{
    if lo < hi {
        let e = next_run(fs, lo, hi, start);
        lemma_run_end_bounds(fs, lo, hi, start, lo + 1);
        lemma_count_runs_bound(fs, e, hi, start);
    }
}

fn count_runs_of(fs: &Vec<FileReport>, lo: usize, hi: usize, start: usize) -> (r: usize)
    requires
        lo <= hi <= fs@.len(),
    ensures
        r == count_runs(fs@, lo as int, hi as int, start as int),
{
    let mut c: usize = 0;
    let mut cur: usize = lo;
    while cur < hi
        invariant
            lo <= cur <= hi,
            hi <= fs@.len(),
            c <= cur - lo,
            count_runs(fs@, lo as int, hi as int, start as int) == c + count_runs(
                fs@,
                cur as int,
                hi as int,
                start as int,
            ),
        decreases hi - cur,
    {
        cur = next_run_of(fs, cur, hi, start);
        c = c + 1;
    }
    c
}

fn push_sym_lines(
    out: &mut String,
    v: &Vec<String>,
    j: usize,
    shown: usize,
    max: usize,
    no_children: bool,
    lead: &str,
)
    requires
        shown <= v@.len(),
    ensures
        final(out)@ == old(out)@ + sym_lines(views(v@), j as int, shown as int, max as nat, no_children, lead@),
    decreases shown - j,
{
    if j >= shown {
        return;
    }
    out.append(lead);
    out.append("  ");
    if j + 1 == max || (j + 1 == v.len() && no_children) {
        out.append("└─ ");
    } else {
        out.append("├─ ");
    }
    let sym = format_symbol(v[j].as_str());
    out.append(sym.as_str());
    out.append("\n");
    push_sym_lines(out, v, j + 1, shown, max, no_children, lead);
    proof {
        let vs = views(v@);
        assert(vs[j as int] == v@[j as int]@);
    }
    assert(final(out)@ =~= old(out)@ + sym_lines(views(v@), j as int, shown as int, max as nat, no_children, lead@));
}

fn push_symbols_text(out: &mut String, syms: &Option<Vec<String>>, max: usize, no_children: bool, lead: &str)
    ensures
        final(out)@ == old(out)@ + symbols_text(*syms, max as nat, no_children, lead@),
{
    match syms {
        None => {
            out.append(lead);
            out.append("  └─ ⚠️  (parsing error)\n");
        },
        Some(v) => {
            if v.len() == 0 {
                return;
            }
            let shown: usize = if v.len() < max { v.len() } else { max };
            push_sym_lines(out, v, 0, shown, max, no_children, lead);
            if v.len() > max {
                out.append(lead);
                out.append("  └─ ... (");
                push_decimal(out, v.len() - max);
                out.append(" more symbols)\n");
            }
        },
    }
    assert(final(out)@ =~= old(out)@ + symbols_text(*syms, max as nat, no_children, lead@));
}

fn push_level(
    out: &mut String,
    fs: &Vec<FileReport>,
    lo: usize,
    hi: usize,
    start: usize,
    prefix: &str,
    is_root: bool,
    max: usize,
    bound: usize,
)
    ensures
        final(out)@ == old(out)@ + spec_level(fs@, lo as int, hi as int, start as int, prefix@, is_root, max as nat, bound as int),
    decreases bound - start, hi - lo, 2int,
{
    if start > bound || hi > fs.len() || lo >= hi {
        return;
    }
    let n = count_runs_of(fs, lo, hi, start);
    let shown: usize = if n < MAX_ENTRIES_PER_LEVEL { n } else { MAX_ENTRIES_PER_LEVEL };
    push_entries(out, fs, lo, hi, start, prefix, is_root, max, bound, 0, shown);
    if n > MAX_ENTRIES_PER_LEVEL {
        out.append(prefix);
        out.append("... (");
        push_decimal(out, n - MAX_ENTRIES_PER_LEVEL);
        out.append(" more items not shown)\n");
    }
    assert(final(out)@ =~= old(out)@ + spec_level(fs@, lo as int, hi as int, start as int, prefix@, is_root, max as nat, bound as int));
}

fn push_entries(
    out: &mut String,
    fs: &Vec<FileReport>,
    lo: usize,
    hi: usize,
    start: usize,
    prefix: &str,
    is_root: bool,
    max: usize,
    bound: usize,
    i: usize,
    shown: usize,
)
    ensures
        final(out)@ == old(out)@ + spec_entries(fs@, lo as int, hi as int, start as int, prefix@, is_root, max as nat, bound as int, i as int, shown as int),
    decreases bound - start, hi - lo, 1int,
{
    if start > bound || hi > fs.len() || lo >= hi || i >= shown {
        return;
    }
    let e = next_run_of(fs, lo, hi, start);
    push_entry(out, fs, lo, e, start, prefix, is_root, i + 1 == shown, max, bound);
    push_entries(out, fs, e, hi, start, prefix, is_root, max, bound, i + 1, shown);
    assert(final(out)@ =~= old(out)@ + spec_entries(fs@, lo as int, hi as int, start as int, prefix@, is_root, max as nat, bound as int, i as int, shown as int));
}

fn push_entry_head(
    out: &mut String,
    f: &FileReport,
    start: usize,
    prefix: &str,
    is_root: bool,
    is_last: bool,
    max: usize,
    has_children: bool,
)
    ensures
        final(out)@ == old(out)@ + entry_head(*f, start as int, prefix@, is_root, is_last, max as nat, has_children),
{
    let ghost s0 = out@;
    let p = f.path.as_str();
    let end = seg_end_of(p, start);
    let name = seg_of(p, start);
    let conn: &str = if is_root { "" } else if is_last { "└── " } else { "├── " };
    let ind: &str = if is_root { "" } else if is_last { "    " } else { "│   " };
    proof {
        reveal_strlit("");
    }
    assert(conn@ == connector(is_root, is_last));
    assert(ind@ == indent(is_root, is_last));
    out.append(prefix);
    out.append(conn);
    if end >= p.unicode_len() {
        out.append(name);
        out.append("\n");
        let lead = String::from_str(prefix).concat(ind);
        push_symbols_text(out, &f.symbols, max, !has_children, lead.as_str());
    } else {
        out.append("📁 ");
        out.append(name);
        out.append("/\n");
    }
    assert(out@ =~= s0 + entry_head(*f, start as int, prefix@, is_root, is_last, max as nat, has_children));
}

fn push_entry(
    out: &mut String,
    fs: &Vec<FileReport>,
    lo: usize,
    e: usize,
    start: usize,
    prefix: &str,
    is_root: bool,
    is_last: bool,
    max: usize,
    bound: usize,
)
    ensures
        final(out)@ == old(out)@ + spec_entry(fs@, lo as int, e as int, start as int, prefix@, is_root, is_last, max as nat, bound as int),
    decreases bound - start, e - lo, 0int,
{
    if start > bound || e > fs.len() || lo >= e {
        return;
    }
    let ghost s0 = out@;
    let p = fs[lo].path.as_str();
    let end = seg_end_of(p, start);
    let child_lo: usize = if end >= p.unicode_len() { lo + 1 } else { lo };
    let has_children = child_lo < e;
    push_entry_head(out, &fs[lo], start, prefix, is_root, is_last, max, has_children);
    if has_children && start <= end && end < bound {
        let child_prefix = if is_root {
            String::new()
        } else if is_last {
            String::from_str(prefix).concat("    ")
        } else {
            String::from_str(prefix).concat("│   ")
        };
        assert(child_prefix@ == (if is_root { Seq::empty() } else { prefix@ + indent(false, is_last) }));
        push_level(out, fs, child_lo, e, end + 1, child_prefix.as_str(), false, max, bound);
    } else {
        proof {
            lemma_seg_end_bounds_any(fs@[lo as int].path@, start as int);
        }
    }
    assert(out@ =~= s0 + spec_entry(fs@, lo as int, e as int, start as int, prefix@, is_root, is_last, max as nat, bound as int));
}

proof fn lemma_seg_end_bounds_any(p: Seq<char>, i: int)
    ensures
        seg_end(p, i) >= i || i > p.len(),
    decreases p.len() - i,
{
    if i < p.len() && p[i] != '/' {
        lemma_seg_end_bounds_any(p, i + 1);
    }
}

/// The paths of the reports.
pub open spec fn report_paths(fs: Seq<FileReport>) -> Seq<Seq<char>> {
    fs.map_values(|f: FileReport| f.path@)
}

/// `t` is the tree of `fs`: one report per distinct path, ordered by path
/// segment by segment, each the last report of `fs` with that path.
pub open spec fn is_tree_of(t: Seq<FileReport>, fs: Seq<FileReport>) -> bool {
    &&& sorted_strict(report_paths(t), true)
    &&& forall|x: Seq<char>| report_paths(t).contains(x) <==> report_paths(fs).contains(x)
    &&& forall|i: int| 0 <= i < t.len() ==> exists|j: int| 0 <= j < fs.len() && fs[j] == #[trigger] t[i]
        && forall|k: int| j < k < fs.len() ==> fs[k].path@ != t[i].path@
}

/// Folds the reports into the tree order: sorted by path segment by segment,
/// a repeated path keeping its last report.
pub fn build_tree(files: Vec<FileReport>) -> (r: Vec<FileReport>)
    ensures
        is_tree_of(r@, files@),
{
    let ghost orig = files@;
    let total_len = files.len();
    assert(orig.len() == total_len);
    let mut rest = files;
    let mut out: Vec<FileReport> = Vec::new();
    let mut k: usize = 0;
    while rest.len() > 0
        invariant
            k + rest@.len() == orig.len(),
            orig.len() <= usize::MAX,
            rest@ == orig.subrange(k as int, orig.len() as int),
            is_tree_of(out@, orig.subrange(0, k as int)),
        decreases rest@.len(),
    {
        let f = rest.remove(0);
        let ghost prev = orig.subrange(0, k as int);
        let ghost next = orig.subrange(0, k + 1);
        assert(f == orig[k as int]);
        assert(next =~= prev.push(f));
        let ghost before = out@;
        let mut p: usize = 0;
        while p < out.len() && str_less(out[p].path.as_str(), f.path.as_str(), true)
            invariant
                out@ == before,
                p <= out@.len(),
                forall|i: int| 0 <= i < p ==> seq_less(#[trigger] report_paths(out@)[i], f.path@, true),
            decreases out.len() - p,
        {
            p = p + 1;
        }
        let ghost bp = report_paths(before);
        if p < out.len() && str_eq(out[p].path.as_str(), f.path.as_str()) {
            out.set(p, f);
            proof {
                assert(report_paths(out@) =~= bp);
                lemma_tree_step_replace(before, out@, prev, next, p as int);
            }
        } else {
            proof {
                if p < before.len() {
                    lemma_less_total(bp[p as int], f.path@, true);
                }
            }
            out.insert(p, f);
            proof {
                lemma_tree_step_insert(before, out@, prev, next, p as int);
            }
        }
        k = k + 1;
        assert(rest@ =~= orig.subrange(k as int, orig.len() as int));
    }
    assert(orig.subrange(0, k as int) =~= orig);
    out
}

proof fn lemma_tree_step_replace(
    before: Seq<FileReport>,
    after: Seq<FileReport>,
    prev: Seq<FileReport>,
    next: Seq<FileReport>,
    p: int,
)
    requires
        is_tree_of(before, prev),
        next == prev.push(after[p]),
        0 <= p < before.len(),
        after == before.update(p, after[p]),
        before[p].path@ == after[p].path@,
    ensures
        is_tree_of(after, next),
{
    let f = after[p];
    assert(report_paths(after) =~= report_paths(before));
    assert forall|x: Seq<char>| report_paths(after).contains(x) <==> report_paths(next).contains(x) by {
        if report_paths(next).contains(x) {
            let q = choose|q: int| 0 <= q < next.len() && report_paths(next)[q] == x;
            if q < prev.len() {
                assert(report_paths(prev)[q] == x);
            } else {
                assert(report_paths(after)[p] == x);
            }
        }
        if report_paths(after).contains(x) {
            assert(report_paths(prev).contains(x));
            let q = choose|q: int| 0 <= q < prev.len() && report_paths(prev)[q] == x;
            assert(report_paths(next)[q] == x);
        }
    }
    assert forall|i: int| 0 <= i < after.len() implies exists|j: int| 0 <= j < next.len() && next[j] == #[trigger] after[i]
        && forall|k: int| j < k < next.len() ==> next[k].path@ != after[i].path@ by {
        if i == p {
            assert(next[prev.len() as int] == after[i]);
        } else {
            let j = choose|j: int| 0 <= j < prev.len() && prev[j] == #[trigger] before[i]
                && forall|k: int| j < k < prev.len() ==> prev[k].path@ != before[i].path@;
            assert(report_paths(before)[i] != report_paths(before)[p]) by {
                crate::text::lemma_sorted_strict_distinct(report_paths(before), true);
            }
            assert(next[j] == after[i]);
        }
    }
}

proof fn lemma_tree_step_insert(
    before: Seq<FileReport>,
    after: Seq<FileReport>,
    prev: Seq<FileReport>,
    next: Seq<FileReport>,
    p: int,
)
    requires
        is_tree_of(before, prev),
        0 <= p <= before.len(),
        after == before.insert(p, after[p]),
        next == prev.push(after[p]),
        forall|i: int| 0 <= i < p ==> seq_less(#[trigger] report_paths(before)[i], after[p].path@, true),
        p < before.len() ==> seq_less(after[p].path@, report_paths(before)[p], true),
    ensures
        is_tree_of(after, next),
{
    let f = after[p];
    let bp = report_paths(before);
    let ap = report_paths(after);
    assert(ap =~= bp.insert(p, f.path@));
    assert forall|i: int, j: int| 0 <= i < j < ap.len() implies seq_less(#[trigger] ap[i], #[trigger] ap[j], true) by {
        if j < p {
        } else if i < p && j == p {
        } else if i < p {
            assert(ap[j] == bp[j - 1]);
            lemma_less_transitive(ap[i], f.path@, bp[p], true);
            if j - 1 > p {
                lemma_less_transitive(ap[i], bp[p], bp[j - 1], true);
            }
        } else if i == p {
            assert(ap[j] == bp[j - 1]);
            if j - 1 > p {
                lemma_less_transitive(f.path@, bp[p], bp[j - 1], true);
            }
        } else {
            assert(ap[i] == bp[i - 1]);
            assert(ap[j] == bp[j - 1]);
        }
    }
    assert(!bp.contains(f.path@)) by {
        if bp.contains(f.path@) {
            let q = choose|q: int| 0 <= q < bp.len() && bp[q] == f.path@;
            lemma_less_irreflexive(f.path@, true);
            if q > p {
                lemma_less_transitive(f.path@, bp[p], bp[q], true);
            }
        }
    }
    assert forall|x: Seq<char>| ap.contains(x) <==> report_paths(next).contains(x) by {
        if report_paths(next).contains(x) {
            let q = choose|q: int| 0 <= q < next.len() && report_paths(next)[q] == x;
            if q < prev.len() {
                assert(report_paths(prev)[q] == x);
                assert(bp.contains(x));
                let r = choose|r: int| 0 <= r < bp.len() && bp[r] == x;
                if r < p {
                    assert(ap[r] == x);
                } else {
                    assert(ap[r + 1] == x);
                }
            } else {
                assert(ap[p] == x);
            }
        }
        if ap.contains(x) {
            let q = choose|q: int| 0 <= q < ap.len() && ap[q] == x;
            if q == p {
                assert(report_paths(next)[prev.len() as int] == x);
            } else {
                let r = if q < p { q } else { q - 1 };
                assert(bp[r] == x);
                assert(report_paths(prev).contains(x));
                let s = choose|s: int| 0 <= s < prev.len() && report_paths(prev)[s] == x;
                assert(report_paths(next)[s] == x);
            }
        }
    }
    assert forall|i: int| 0 <= i < after.len() implies exists|j: int| 0 <= j < next.len() && next[j] == #[trigger] after[i]
        && forall|k: int| j < k < next.len() ==> next[k].path@ != after[i].path@ by {
        if i == p {
            assert(next[prev.len() as int] == after[i]);
        } else {
            let r = if i < p { i } else { i - 1 };
            assert(after[i] == before[r]);
            let j = choose|j: int| 0 <= j < prev.len() && prev[j] == #[trigger] before[r]
                && forall|k: int| j < k < prev.len() ==> prev[k].path@ != before[r].path@;
            assert(bp[r] != f.path@);
            assert(next[j] == after[i]);
        }
    }
}

/// The heading of the tree text.
pub open spec fn tree_header() -> Seq<char> {
    "📁 Workspace Analysis\n══════════════════════════════════\n\n"@
}

/// The statistics that close the tree text.
pub open spec fn tree_footer(files: Seq<FileReport>, max: nat, root: Seq<char>) -> Seq<char> {
    "\n📊 Summary:\n• "@ + decimal(files.len()) + " files analyzed (limited for performance)\n• "@
        + decimal(spec_files_with_symbols(files)) + " files contain symbols\n• "@ + decimal(
        spec_total_symbols(files),
    ) + " total symbols found\n• Max "@ + decimal(max) + " symbols shown per file\n• Root: "@
        + root + "\n"@
}

/// The tree text of the tree `t`.
pub open spec fn spec_tree_text(
    t: Seq<FileReport>,
    files: Seq<FileReport>,
    max: nat,
    root: Seq<char>,
) -> Seq<char> {
    tree_header() + spec_level(t, 0, t.len() as int, 0, Seq::empty(), true, max, usize::MAX as int)
        + tree_footer(files, max, root)
}

/// Renders the reports as a tree of directories and files with their symbols,
/// followed by statistics over all the reports.
pub fn format_workspace_tree_with_limits(
    root: &str,
    files: Vec<FileReport>,
    max_symbols_per_file: usize,
) -> (r: String)
    requires
        spec_total_symbols(files@) <= usize::MAX,
    ensures
        exists|t: Seq<FileReport>|
            is_tree_of(t, files@) && r@ == spec_tree_text(t, files@, max_symbols_per_file as nat, root@),
{
    let ghost fs = files@;
    let (with, total) = symbol_statistics(&files);
    let n = files.len();
    let t = build_tree(files);
    let mut out = String::from_str("📁 Workspace Analysis\n══════════════════════════════════\n\n");
    proof {
        reveal_strlit("");
    }
    push_level(&mut out, &t, 0, t.len(), 0, "", true, max_symbols_per_file, usize::MAX);
    out.append("\n📊 Summary:\n• ");
    push_decimal(&mut out, n);
    out.append(" files analyzed (limited for performance)\n• ");
    push_decimal(&mut out, with);
    out.append(" files contain symbols\n• ");
    push_decimal(&mut out, total);
    out.append(" total symbols found\n• Max ");
    push_decimal(&mut out, max_symbols_per_file);
    out.append(" symbols shown per file\n• Root: ");
    out.append(root);
    out.append("\n");
    assert(""@ == Seq::<char>::empty());
    assert(out@ =~= spec_tree_text(t@, fs, max_symbols_per_file as nat, root@));
    out
}

/// The tree of a list of reports is unique, so rendering the same reports with
/// the same limits and root always gives the same text.
pub proof fn lemma_tree_text_deterministic(
    t1: Seq<FileReport>,
    t2: Seq<FileReport>,
    files: Seq<FileReport>,
    max: nat,
    root: Seq<char>,
)
    requires
        is_tree_of(t1, files),
        is_tree_of(t2, files),
    ensures
        t1 == t2,
        spec_tree_text(t1, files, max, root) == spec_tree_text(t2, files, max, root),
{
    crate::text::lemma_sorted_strict_unique(report_paths(t1), report_paths(t2), true);
    assert(t1.len() == report_paths(t1).len());
    assert forall|i: int| 0 <= i < t1.len() implies t1[i] == t2[i] by {
        assert(report_paths(t1)[i] == report_paths(t2)[i]);
        let j1 = choose|j: int| 0 <= j < files.len() && files[j] == #[trigger] t1[i]
            && forall|k: int| j < k < files.len() ==> files[k].path@ != t1[i].path@;
        let j2 = choose|j: int| 0 <= j < files.len() && files[j] == #[trigger] t2[i]
            && forall|k: int| j < k < files.len() ==> files[k].path@ != t2[i].path@;
        if j1 < j2 {
            assert(files[j2].path@ == t1[i].path@);
        } else if j2 < j1 {
            assert(files[j1].path@ == t2[i].path@);
        }
    }
    assert(t1 =~= t2);
}

/// With a cap of one symbol per file, a file with `n >= 2` symbols shows
/// exactly its first symbol and one line counting the `n - 1` others.
pub proof fn lemma_symbol_cap_of_one(v: Vec<String>, no_children: bool, lead: Seq<char>)
    requires
        v@.len() >= 2,
    ensures
        symbols_text(Some(v), 1, no_children, lead) == lead + "  "@ + "└─ "@ + spec_symbol_icon(v@[0]@)
            + v@[0]@ + "\n"@ + lead + "  └─ ... ("@ + decimal((v@.len() - 1) as nat) + " more symbols)\n"@,
{
    let vs = views(v@);
    assert(vs[0] == v@[0]@);
    assert(sym_lines(vs, 1, 1, 1, no_children, lead) == Seq::<char>::empty());
    assert(sym_lines(vs, 0, 1, 1, no_children, lead) == lead + "  "@ + "└─ "@ + spec_symbol_icon(vs[0])
        + vs[0] + "\n"@ + sym_lines(vs, 1, 1, 1, no_children, lead));
    assert(sym_lines(vs, 0, 1, 1, no_children, lead) =~= lead + "  "@ + "└─ "@ + spec_symbol_icon(vs[0])
        + vs[0] + "\n"@);
}

} // verus!
