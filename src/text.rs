use vstd::prelude::*;
use vstd::string::*;

verus! {

/// `needle` occurs as a contiguous run of characters in `hay` starting at `i`.
pub open spec fn occurs_at(hay: Seq<char>, needle: Seq<char>, i: int) -> bool {
    0 <= i && i + needle.len() <= hay.len() && hay.subrange(i, i + needle.len()) == needle
}

/// `needle` occurs somewhere in `hay`.
pub open spec fn seq_contains(hay: Seq<char>, needle: Seq<char>) -> bool {
    exists|i: int| occurs_at(hay, needle, i)
}

/// Whether character `x` orders before a different character `y`. With `paths`
/// the separator `/` orders before every other character, so that paths compare
/// segment by segment.
pub open spec fn char_before(x: char, y: char, paths: bool) -> bool {
    if paths && x == '/' {
        true
    } else if paths && y == '/' {
        false
    } else {
        (x as int) < (y as int)
    }
}

/// Strict lexicographic order on character sequences.
pub open spec fn seq_less(a: Seq<char>, b: Seq<char>, paths: bool) -> bool
    decreases a.len(),
{
    if a.len() == 0 {
        b.len() > 0
    } else if b.len() == 0 {
        false
    } else if a[0] != b[0] {
        char_before(a[0], b[0], paths)
    } else {
        seq_less(a.drop_first(), b.drop_first(), paths)
    }
}

pub proof fn lemma_less_irreflexive(a: Seq<char>, paths: bool)
    ensures
        !seq_less(a, a, paths),
    decreases a.len(),
{
    if a.len() > 0 {
        lemma_less_irreflexive(a.drop_first(), paths);
    }
}

pub proof fn lemma_less_total(a: Seq<char>, b: Seq<char>, paths: bool)
    ensures
        a == b || seq_less(a, b, paths) || seq_less(b, a, paths),
    decreases a.len(),
{
    if a.len() > 0 && b.len() > 0 && a[0] == b[0] {
        lemma_less_total(a.drop_first(), b.drop_first(), paths);
        if a.drop_first() == b.drop_first() {
            assert(a.drop_first().len() == a.len() - 1);
            assert(b.drop_first().len() == b.len() - 1);
            assert(a.len() == b.len());
            assert(a =~= b) by {
                assert forall|k: int| 0 <= k < a.len() implies a[k] == b[k] by {
                    if k > 0 {
                        assert(a[k] == a.drop_first()[k - 1]);
                        assert(b[k] == b.drop_first()[k - 1]);
                    }
                }
            }
        }
    } else if a.len() > 0 && b.len() > 0 {
        assert(a[0] != b[0]);
        if paths && (a[0] == '/' || b[0] == '/') {
        } else {
            assert(a[0] as int != b[0] as int);
        }
        assert(seq_less(a, b, paths) || seq_less(b, a, paths));
    } else if a.len() == 0 && b.len() == 0 {
        assert(a =~= b);
    } else {
        assert(seq_less(a, b, paths) || seq_less(b, a, paths));
    }
}

pub proof fn lemma_less_asymmetric(a: Seq<char>, b: Seq<char>, paths: bool)
    requires
        seq_less(a, b, paths),
    ensures
        !seq_less(b, a, paths),
    decreases a.len(),
{
    if a.len() > 0 && b.len() > 0 && a[0] == b[0] {
        lemma_less_asymmetric(a.drop_first(), b.drop_first(), paths);
    }
}

pub proof fn lemma_less_transitive(a: Seq<char>, b: Seq<char>, c: Seq<char>, paths: bool)
    requires
        seq_less(a, b, paths),
        seq_less(b, c, paths),
    ensures
        seq_less(a, c, paths),
    decreases a.len(),
{
    if a.len() > 0 && b.len() > 0 && c.len() > 0 {
        if a[0] == b[0] && b[0] == c[0] {
            lemma_less_transitive(a.drop_first(), b.drop_first(), c.drop_first(), paths);
        } else if a[0] == c[0] {
            if paths && (a[0] == '/' || b[0] == '/') {
            } else {
                assert(a[0] as int != b[0] as int || a[0] == b[0]);
            }
        }
    }
}

/// Whether two strings hold the same characters.
pub fn str_eq(a: &str, b: &str) -> (r: bool)
    ensures
        r == (a@ == b@),
{
    let n = a.unicode_len();
    if n != b.unicode_len() {
        return false;
    }
    let mut i: usize = 0;
    while i < n
        invariant
            n == a@.len(),
            n == b@.len(),
            i <= n,
            a@.subrange(0, i as int) == b@.subrange(0, i as int),
        decreases n - i,
    {
        if a.get_char(i) != b.get_char(i) {
            return false;
        }
        assert(a@.subrange(0, i + 1) == a@.subrange(0, i as int).push(a@[i as int]));
        assert(b@.subrange(0, i + 1) == b@.subrange(0, i as int).push(b@[i as int]));
        i = i + 1;
    }
    assert(a@ == a@.subrange(0, n as int));
    assert(b@ == b@.subrange(0, n as int));
    true
}

/// Whether `needle` occurs in `hay`.
pub fn str_contains(hay: &str, needle: &str) -> (r: bool)
    ensures
        r == seq_contains(hay@, needle@),
{
    let h = hay.unicode_len();
    let m = needle.unicode_len();
    if m > h {
        return false;
    }
    if m == 0 {
        assert(hay@.subrange(0, 0) =~= needle@);
        assert(occurs_at(hay@, needle@, 0));
        return true;
    }
    let mut i: usize = 0;
    while i <= h - m
        invariant
            h == hay@.len(),
            m == needle@.len(),
            m <= h,
            i <= h - m + 1,
            forall|k: int| 0 <= k < i ==> !occurs_at(hay@, needle@, k),
        decreases h - m + 1 - i,
    {
        let mut j: usize = 0;
        let mut same = true;
        while j < m
            invariant
                h == hay@.len(),
                m == needle@.len(),
                i + m <= h,
                j <= m,
                same == forall|k: int| 0 <= k < j ==> hay@[i + k] == needle@[k],
            decreases m - j,
        {
            if same && hay.get_char(i + j) != needle.get_char(j) {
                same = false;
            }
            j = j + 1;
        }
        if same {
            assert(hay@.subrange(i as int, i + m) =~= needle@);
            assert(occurs_at(hay@, needle@, i as int));
            return true;
        }
        assert(!occurs_at(hay@, needle@, i as int)) by {
            if occurs_at(hay@, needle@, i as int) {
                assert forall|k: int| 0 <= k < m implies hay@[i + k] == needle@[k] by {
                    assert(hay@.subrange(i as int, i + m)[k] == hay@[i + k]);
                }
            }
        }
        i = i + 1;
    }
    assert forall|k: int| !occurs_at(hay@, needle@, k) by {
        if 0 <= k < i {
        }
    }
    false
}

/// Strict lexicographic comparison of two strings by character.
pub fn str_less(a: &str, b: &str, paths: bool) -> (r: bool)
    ensures
        r == seq_less(a@, b@, paths),
{
    let n = a.unicode_len();
    let m = b.unicode_len();
    let mut i: usize = 0;
    assert(a@.subrange(0, n as int) =~= a@);
    assert(b@.subrange(0, m as int) =~= b@);
    while i < n && i < m
        invariant
            n == a@.len(),
            m == b@.len(),
            i <= n,
            i <= m,
            seq_less(a@, b@, paths) == seq_less(a@.subrange(i as int, n as int), b@.subrange(i as int, m as int), paths),
        decreases n - i,
    {
        let x = a.get_char(i);
        let y = b.get_char(i);
        let ghost sa = a@.subrange(i as int, n as int);
        let ghost sb = b@.subrange(i as int, m as int);
        assert(sa[0] == x && sb[0] == y);
        if x != y {
            if paths && x == '/' {
                return true;
            } else if paths && y == '/' {
                return false;
            }
            return x < y;
        }
        assert(sa.drop_first() == a@.subrange(i + 1, n as int));
        assert(sb.drop_first() == b@.subrange(i + 1, m as int));
        i = i + 1;
    }
    i < m && i >= n
}

/// The character sequences held by a sequence of strings.
pub open spec fn views(v: Seq<String>) -> Seq<Seq<char>> {
    v.map_values(|s: String| s@)
}

/// Every element orders strictly before every later one.
pub open spec fn sorted_strict(s: Seq<Seq<char>>, paths: bool) -> bool {
    forall|i: int, j: int| 0 <= i < j < s.len() ==> seq_less(#[trigger] s[i], #[trigger] s[j], paths)
}

/// A strictly sorted sequence has no repeated element.
pub proof fn lemma_sorted_strict_distinct(s: Seq<Seq<char>>, paths: bool)
    requires
        sorted_strict(s, paths),
    ensures
        forall|i: int, j: int| 0 <= i < s.len() && 0 <= j < s.len() && i != j ==> s[i] != s[j],
{
    assert forall|i: int, j: int| 0 <= i < s.len() && 0 <= j < s.len() && i != j implies s[i] != s[j] by {
        lemma_less_irreflexive(s[i], paths);
        lemma_less_irreflexive(s[j], paths);
    }
}

/// Adds `s` to a strictly sorted vector, unless it is already there.
fn insert_sorted(out: &mut Vec<String>, s: &String, paths: bool)
    requires
        sorted_strict(views(old(out)@), paths),
    ensures
        sorted_strict(views(final(out)@), paths),
        forall|t: Seq<char>| views(final(out)@).contains(t) <==> (views(old(out)@).contains(t) || t == s@),
{
    let ghost before = views(out@);
    let mut p: usize = 0;
    while p < out.len() && str_less(out[p].as_str(), s.as_str(), paths)
        invariant
            out@ == old(out)@,
            p <= out.len(),
            forall|i: int| 0 <= i < p ==> seq_less(#[trigger] views(out@)[i], s@, paths),
        decreases out.len() - p,
    {
        p = p + 1;
    }
    if p < out.len() && str_eq(out[p].as_str(), s.as_str()) {
        assert(views(out@)[p as int] == s@);
        return;
    }
    proof {
        if p < out.len() {
            lemma_less_total(out@[p as int]@, s@, paths);
        }
    }
    out.insert(p, s.clone());
    let ghost after = views(out@);
    assert(after =~= before.insert(p as int, s@));
    assert forall|i: int, j: int| 0 <= i < j < after.len() implies seq_less(
        #[trigger] after[i],
        #[trigger] after[j],
        paths,
    ) by {
        if j < p {
        } else if i < p && j == p {
        } else if i < p {
            assert(after[j] == before[j - 1]);
            lemma_less_transitive(after[i], s@, before[p as int], paths);
            if j - 1 > p {
                lemma_less_transitive(after[i], before[p as int], before[j - 1], paths);
            }
        } else if i == p {
            assert(after[j] == before[j - 1]);
            if j - 1 > p {
                lemma_less_transitive(s@, before[p as int], before[j - 1], paths);
            }
        } else {
            assert(after[i] == before[i - 1]);
            assert(after[j] == before[j - 1]);
        }
    }
    assert forall|t: Seq<char>| after.contains(t) <==> (before.contains(t) || t == s@) by {
        if after.contains(t) {
            let k = choose|k: int| 0 <= k < after.len() && after[k] == t;
            if k < p {
                assert(before[k] == t);
            } else if k > p {
                assert(before[k - 1] == t);
            }
        }
        if before.contains(t) {
            let k = choose|k: int| 0 <= k < before.len() && before[k] == t;
            if k < p {
                assert(after[k] == t);
            } else {
                assert(after[k + 1] == t);
            }
        }
        if t == s@ {
            assert(after[p as int] == t);
        }
    }
}

/// The strings of `items`, sorted strictly (so without repeats) in the order of
/// `seq_less`.
pub fn sort_unique(items: &Vec<String>, paths: bool) -> (r: Vec<String>)
    ensures
        sorted_strict(views(r@), paths),
        forall|t: Seq<char>| views(r@).contains(t) <==> views(items@).contains(t),
{
    let mut out: Vec<String> = Vec::new();
    let mut k: usize = 0;
    while k < items.len()
        invariant
            k <= items.len(),
            sorted_strict(views(out@), paths),
            forall|t: Seq<char>| views(out@).contains(t) <==> views(items@.subrange(0, k as int)).contains(t),
        decreases items.len() - k,
    {
        insert_sorted(&mut out, &items[k], paths);
        proof {
            let prev = views(items@.subrange(0, k as int));
            let next = views(items@.subrange(0, k + 1));
            assert(next =~= prev.push(items@[k as int]@));
            assert forall|t: Seq<char>| next.contains(t) <==> (prev.contains(t) || t == items@[k as int]@) by {
                if next.contains(t) {
                    let j = choose|j: int| 0 <= j < next.len() && next[j] == t;
                    if j < k {
                        assert(prev[j] == t);
                    }
                }
                if prev.contains(t) {
                    let j = choose|j: int| 0 <= j < prev.len() && prev[j] == t;
                    assert(next[j] == t);
                }
                if t == items@[k as int]@ {
                    assert(next[k as int] == t);
                }
            }
        }
        k = k + 1;
    }
    assert(items@.subrange(0, items.len() as int) =~= items@);
    out
}

/// `s` begins with `p`.
pub open spec fn seq_starts_with(s: Seq<char>, p: Seq<char>) -> bool {
    p.len() <= s.len() && s.subrange(0, p.len() as int) == p
}

/// Whether `s` begins with `p`.
pub fn str_starts_with(s: &str, p: &str) -> (r: bool)
    ensures
        r == seq_starts_with(s@, p@),
{
    let n = s.unicode_len();
    let m = p.unicode_len();
    if m > n {
        return false;
    }
    let r = str_eq(s.substring_char(0, m), p);
    r
}

/// The decimal digits.
pub open spec fn digits() -> Seq<char> {
    seq!['0', '1', '2', '3', '4', '5', '6', '7', '8', '9']
}

/// The decimal notation of `n`, without leading zeros.
pub open spec fn decimal(n: nat) -> Seq<char>
    decreases n,
{
    if n < 10 {
        seq![digits()[n as int]]
    } else {
        decimal(n / 10) + seq![digits()[(n % 10) as int]]
    }
}

/// Appends the decimal notation of `n`.
pub fn push_decimal(out: &mut String, n: usize)
    ensures
        final(out)@ == old(out)@ + decimal(n as nat),
    decreases n,
{
    if n >= 10 {
        push_decimal(out, n / 10);
    }
    let d: usize = n % 10;
    let ds: &str = "0123456789";
    proof {
        reveal_strlit("0123456789");
        assert(ds@ =~= digits());
    }
    out.append(ds.substring_char(d, d + 1));
    assert(ds@.subrange(d as int, d + 1) =~= seq![digits()[d as int]]);
    proof {
        if n >= 10 {
            assert(decimal(n as nat) == decimal((n / 10) as nat) + seq![digits()[(n % 10) as int]]);
        }
    }
    assert(old(out)@ + decimal(n as nat) =~= out@) by {
        if n >= 10 {
        }
    };
}

/// Two strictly sorted sequences with the same elements are the same sequence.
pub proof fn lemma_sorted_strict_unique(a: Seq<Seq<char>>, b: Seq<Seq<char>>, paths: bool)
    requires
        sorted_strict(a, paths),
        sorted_strict(b, paths),
        forall|x: Seq<char>| a.contains(x) <==> b.contains(x),
    ensures
        a == b,
    decreases a.len(),
{
    if a.len() == 0 {
        if b.len() > 0 {
            assert(b.contains(b[0]));
        }
        assert(a =~= b);
    } else if b.len() == 0 {
        assert(a.contains(a[0]));
    } else {
        assert(a.contains(a[0]));
        assert(b.contains(b[0]));
        let j = choose|j: int| 0 <= j < b.len() && b[j] == a[0];
        let i = choose|i: int| 0 <= i < a.len() && a[i] == b[0];
        lemma_less_irreflexive(a[0], paths);
        lemma_less_irreflexive(b[0], paths);
        if a[0] != b[0] {
            assert(j > 0 && i > 0);
            lemma_less_asymmetric(b[0], a[0], paths);
        }
        let a1 = a.drop_first();
        let b1 = b.drop_first();
        assert forall|x: Seq<char>| a1.contains(x) <==> b1.contains(x) by {
            if a1.contains(x) {
                let q = choose|q: int| 0 <= q < a1.len() && a1[q] == x;
                assert(a[q + 1] == x);
                assert(a[0] != x);
                assert(b.contains(x));
                let r = choose|r: int| 0 <= r < b.len() && b[r] == x;
                assert(r != 0);
                assert(b1[r - 1] == x);
            }
            if b1.contains(x) {
                let q = choose|q: int| 0 <= q < b1.len() && b1[q] == x;
                assert(b[q + 1] == x);
                assert(b[0] != x);
                assert(a.contains(x));
                let r = choose|r: int| 0 <= r < a.len() && a[r] == x;
                assert(r != 0);
                assert(a1[r - 1] == x);
            }
        }
        assert(sorted_strict(a1, paths)) by {
            assert forall|p: int, q: int| 0 <= p < q < a1.len() implies seq_less(#[trigger] a1[p], #[trigger] a1[q], paths) by {
                assert(a1[p] == a[p + 1] && a1[q] == a[q + 1]);
            }
        }
        assert(sorted_strict(b1, paths)) by {
            assert forall|p: int, q: int| 0 <= p < q < b1.len() implies seq_less(#[trigger] b1[p], #[trigger] b1[q], paths) by {
                assert(b1[p] == b[p + 1] && b1[q] == b[q + 1]);
            }
        }
        lemma_sorted_strict_unique(a1, b1, paths);
        assert(a =~= b) by {
            assert forall|k: int| 0 <= k < a.len() implies a[k] == b[k] by {
                if k > 0 {
                    assert(a[k] == a1[k - 1] && b[k] == b1[k - 1]);
                }
            }
        }
    }
}

} // verus!
