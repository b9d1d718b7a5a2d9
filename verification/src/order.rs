use vstd::prelude::*;

use std::cmp::Ordering;

use crate::cli::SortKey;
use crate::entry::FileInfo;
use crate::text::{chars_of, lowercase, to_lowercase};

verus! {

// ---------------------------------------------------------------------------
// Comparison results
// ---------------------------------------------------------------------------

/// An ordering as a number: -1, 0 or 1.
pub open spec fn ordering_value(o: Ordering) -> int {
    match o {
        Ordering::Less => -1,
        Ordering::Equal => 0,
        Ordering::Greater => 1,
    }
}

/// Lexicographic order of character sequences (by code point): -1, 0 or 1.
/// This is the order of `str` and `String`, whose byte-wise order on UTF-8 is
/// the code-point order.
pub open spec fn lex_order(a: Seq<char>, b: Seq<char>) -> int
    decreases a.len(),
{
    if a.len() == 0 {
        if b.len() == 0 { 0 } else { -1 }
    } else if b.len() == 0 {
        1
    } else if a[0] < b[0] {
        -1
    } else if a[0] > b[0] {
        1
    } else {
        lex_order(a.drop_first(), b.drop_first())
    }
}

pub proof fn lemma_lex_order_antisym(a: Seq<char>, b: Seq<char>)
    ensures
        lex_order(a, b) == -lex_order(b, a),
        -1 <= lex_order(a, b) <= 1,
        lex_order(a, b) == 0 <==> a == b,
    decreases a.len(),
{
    if a.len() > 0 && b.len() > 0 && a[0] == b[0] {
        lemma_lex_order_antisym(a.drop_first(), b.drop_first());
        if a.drop_first() == b.drop_first() {
            assert(a =~= seq![a[0]] + a.drop_first());
            assert(b =~= seq![b[0]] + b.drop_first());
        }
    }
    if a == b && a.len() > 0 {
        assert(a.drop_first() == b.drop_first());
    }
    if a.len() == 0 && b.len() == 0 {
        assert(a =~= b);
    }
}

pub proof fn lemma_lex_order_trans(a: Seq<char>, b: Seq<char>, c: Seq<char>)
    requires
        lex_order(a, b) <= 0,
        lex_order(b, c) <= 0,
    ensures
        lex_order(a, c) <= 0,
    decreases a.len(),
{
    if a.len() > 0 && b.len() > 0 && c.len() > 0 && a[0] == b[0] && b[0] == c[0] {
        lemma_lex_order_trans(a.drop_first(), b.drop_first(), c.drop_first());
    }
}

// ---------------------------------------------------------------------------
// Orders on entries
// ---------------------------------------------------------------------------

/// The key by which names are compared: the name in lower case.
pub open spec fn name_key(f: FileInfo) -> Seq<char> {
    lowercase(f.name@)
}

/// The time by which entries are compared: the modification time, or the epoch
/// when it is unknown.
pub open spec fn time_key(f: FileInfo) -> i128 {
    match f.modified {
        Some(t) => t,
        None => 0,
    }
}

/// How `a` compares to `b` under a sort key: -1 when `a` comes first, 1 when `b`
/// does, 0 when they tie. By name: case-insensitively, ascending. By size:
/// descending, ties by name. By modification time: most recent first, ties by
/// name.
pub open spec fn compare_files(key: SortKey, a: FileInfo, b: FileInfo) -> int {
    match key {
        SortKey::Name => lex_order(name_key(a), name_key(b)),
        SortKey::Size => if a.size > b.size {
            -1
        } else if a.size < b.size {
            1
        } else {
            lex_order(name_key(a), name_key(b))
        },
        SortKey::Modified => if time_key(a) > time_key(b) {
            -1
        } else if time_key(a) < time_key(b) {
            1
        } else {
            lex_order(name_key(a), name_key(b))
        },
    }
}

/// The comparison is antisymmetric and takes the values -1, 0, 1.
pub proof fn lemma_compare_antisym(key: SortKey, a: FileInfo, b: FileInfo)
    ensures
        compare_files(key, a, b) == -compare_files(key, b, a),
        -1 <= compare_files(key, a, b) <= 1,
{
    lemma_lex_order_antisym(name_key(a), name_key(b));
}

/// "Comes no later" is transitive.
pub proof fn lemma_compare_trans(key: SortKey, a: FileInfo, b: FileInfo, c: FileInfo)
    requires
        compare_files(key, a, b) <= 0,
        compare_files(key, b, c) <= 0,
    ensures
        compare_files(key, a, c) <= 0,
{
    if lex_order(name_key(a), name_key(b)) <= 0 && lex_order(name_key(b), name_key(c)) <= 0 {
        lemma_lex_order_trans(name_key(a), name_key(b), name_key(c));
    }
}

/// "Comes strictly first" carries through "comes no later", on either side.
pub proof fn lemma_compare_strict(key: SortKey, a: FileInfo, b: FileInfo, c: FileInfo)
    requires
        compare_files(key, a, b) <= 0,
        compare_files(key, b, c) <= 0,
        compare_files(key, a, b) < 0 || compare_files(key, b, c) < 0,
    ensures
        compare_files(key, a, c) < 0,
{
    lemma_compare_trans(key, a, b, c);
    lemma_compare_antisym(key, a, b);
    lemma_compare_antisym(key, b, c);
    lemma_compare_antisym(key, a, c);
    if compare_files(key, a, c) == 0 {
        if compare_files(key, a, b) < 0 {
            lemma_compare_trans(key, b, c, a);
        } else {
            lemma_compare_trans(key, c, a, b);
        }
    }
}

fn lex_value(a: &Vec<char>, b: &Vec<char>) -> (res: i8)
    ensures
        res == lex_order(a@, b@),
{
    let mut i: usize = 0;
    assert(a@.skip(0) =~= a@);
    assert(b@.skip(0) =~= b@);
    loop
        invariant
            i <= a@.len(),
            i <= b@.len(),
            lex_order(a@, b@) == lex_order(a@.skip(i as int), b@.skip(i as int)),
        decreases a@.len() - i,
    {
        if i == a.len() {
            if i == b.len() {
                return 0;
            } else {
                return -1;
            }
        }
        if i == b.len() {
            return 1;
        }
        let x = a[i];
        let y = b[i];
        assert(a@.skip(i as int)[0] == x && b@.skip(i as int)[0] == y);
        if x < y {
            return -1;
        }
        if x > y {
            return 1;
        }
        assert(a@.skip(i as int).drop_first() =~= a@.skip(i + 1));
        assert(b@.skip(i as int).drop_first() =~= b@.skip(i + 1));
        i = i + 1;
    }
}

/// Compares two (already lower-cased) names by code point, lexicographically.
pub fn compare_lowered(left: &str, right: &str) -> (res: Ordering)
    ensures
        ordering_value(res) == lex_order(left@, right@),
{
    let v = lex_value(&chars_of(left), &chars_of(right));
    proof {
        lemma_lex_order_antisym(left@, right@);
    }
    if v < 0 {
        Ordering::Less
    } else if v > 0 {
        Ordering::Greater
    } else {
        Ordering::Equal
    }
}

/// Compares entries case-insensitively by name, ascending.
pub fn compare_by_name(left: &FileInfo, right: &FileInfo) -> (res: Ordering)
    ensures
        ordering_value(res) == compare_files(SortKey::Name, *left, *right),
{
    let l = to_lowercase(left.name.as_str());
    let r = to_lowercase(right.name.as_str());
    compare_lowered(l.as_str(), r.as_str())
}

/// Compares entries by file size, descending, breaking ties by name.
pub fn compare_by_size(left: &FileInfo, right: &FileInfo) -> (res: Ordering)
    ensures
        ordering_value(res) == compare_files(SortKey::Size, *left, *right),
{
    if right.size < left.size {
        Ordering::Less
    } else if right.size > left.size {
        Ordering::Greater
    } else {
        compare_by_name(left, right)
    }
}

fn time_or_epoch(f: &FileInfo) -> (res: i128)
    ensures
        res == time_key(*f),
{
    match f.modified {
        Some(t) => t,
        None => 0,
    }
}

/// Compares entries by modification time, most recent first, treating unknown
/// timestamps as the Unix epoch and breaking ties by name.
pub fn compare_by_modified(left: &FileInfo, right: &FileInfo) -> (res: Ordering)
    ensures
        ordering_value(res) == compare_files(SortKey::Modified, *left, *right),
{
    let left_time = time_or_epoch(left);
    let right_time = time_or_epoch(right);
    if right_time < left_time {
        Ordering::Less
    } else if right_time > left_time {
        Ordering::Greater
    } else {
        compare_by_name(left, right)
    }
}

/// Whether `a` must come strictly after `b` under the sort key.
fn comes_after(key: SortKey, a: &FileInfo, b: &FileInfo) -> (res: bool)
    ensures
        res == (compare_files(key, *a, *b) > 0),
{
    let o = match key {
        SortKey::Name => compare_by_name(a, b),
        SortKey::Size => compare_by_size(a, b),
        SortKey::Modified => compare_by_modified(a, b),
    };
    match o {
        Ordering::Greater => true,
        _ => false,
    }
}

// ---------------------------------------------------------------------------
// Sorting
// ---------------------------------------------------------------------------

/// `p` maps each of `n` positions to a distinct position below `n`.
pub open spec fn is_permutation(p: Seq<int>, n: nat) -> bool {
    &&& p.len() == n
    &&& forall|i: int| 0 <= i < n ==> 0 <= #[trigger] p[i] < n
    &&& forall|i: int, j: int| 0 <= i < j < n ==> p[i] != p[j]
}

/// `after` is `before` sorted stably under `key`, the element at position `i` of
/// `after` being the one at position `p[i]` of `before`: `after` is in order, and
/// entries that tie keep their relative order.
pub open spec fn stable_sort_of(
    before: Seq<FileInfo>,
    after: Seq<FileInfo>,
    key: SortKey,
    p: Seq<int>,
) -> bool {
    &&& after.len() == before.len()
    &&& is_permutation(p, before.len())
    &&& forall|i: int| 0 <= i < after.len() ==> after[i] == before[#[trigger] p[i]]
    &&& forall|i: int, j: int|
        0 <= i < j < after.len() ==> compare_files(key, #[trigger] after[i], #[trigger] after[j]) <= 0
    &&& forall|i: int, j: int|
        0 <= i < j < after.len() && compare_files(key, #[trigger] after[i], #[trigger] after[j]) == 0
            ==> p[i] < p[j]
}

/// `s` is in order under `key`.
pub open spec fn sorted_by(key: SortKey, s: Seq<FileInfo>) -> bool {
    forall|i: int, j: int| 0 <= i < j < s.len() ==> compare_files(key, #[trigger] s[i], #[trigger] s[j]) <= 0
}

/// What holds while merging the sorted `a` (of `c = a + b`, its first `na`
/// entries) and the sorted `b` from their ends: `a` and `b` keep their first `i`
/// and `j` entries; `rev` holds the rest, last first, `rev[t]` being `c[src[t]]`;
/// and nothing left comes after anything taken.
spec fn merge_inv(
    key: SortKey,
    c: Seq<FileInfo>,
    na: int,
    i: int,
    j: int,
    rev: Seq<FileInfo>,
    src: Seq<int>,
) -> bool {
    let n = c.len();
    &&& 0 <= i <= na <= n
    &&& 0 <= j <= n - na
    &&& rev.len() == src.len() == (na - i) + (n - na - j)
    &&& forall|t: int| 0 <= t < rev.len() ==> rev[t] == c[#[trigger] src[t]]
    &&& forall|t: int| 0 <= t < rev.len() ==> (i <= #[trigger] src[t] < na || na + j <= src[t] < n)
    &&& forall|t1: int, t2: int| 0 <= t1 < t2 < rev.len() ==> src[t1] != src[t2]
    &&& forall|t1: int, t2: int|
        0 <= t1 < t2 < rev.len() ==> compare_files(key, #[trigger] rev[t2], #[trigger] rev[t1]) <= 0 && (
        compare_files(key, rev[t2], rev[t1]) == 0 ==> src[t2] < src[t1])
    &&& forall|u: int, t: int|
        (0 <= u < i || na <= u < na + j) && 0 <= t < rev.len() ==> compare_files(
            key,
            #[trigger] c[u],
            #[trigger] rev[t],
        ) <= 0 && (compare_files(key, c[u], rev[t]) == 0 ==> u < src[t])
}

/// Taking the entry at `u` (the last one left of `a` or of `b`) keeps the merge
/// invariant, when every entry left comes no later than it, and ties with it only
/// from before it.
proof fn lemma_merge_take(
    key: SortKey,
    c: Seq<FileInfo>,
    na: int,
    i: int,
    j: int,
    rev: Seq<FileInfo>,
    src: Seq<int>,
    u: int,
)
    requires
        merge_inv(key, c, na, i, j, rev, src),
        (u == i - 1 && i > 0) || (u == na + j - 1 && j > 0),
        forall|w: int|
            (0 <= w < i || na <= w < na + j) && w != u ==> compare_files(key, #[trigger] c[w], c[u]) <= 0
                && (compare_files(key, c[w], c[u]) == 0 ==> w < u),
    ensures
        merge_inv(
            key,
            c,
            na,
            if u == i - 1 { i - 1 } else { i },
            if u == i - 1 { j } else { j - 1 },
            rev.push(c[u]),
            src.push(u),
        ),
{
    let r2 = rev.push(c[u]);
    let s2 = src.push(u);
    let i2 = if u == i - 1 { i - 1 } else { i };
    let j2 = if u == i - 1 { j } else { j - 1 };
    assert forall|t: int| 0 <= t < r2.len() implies r2[t] == c[#[trigger] s2[t]] by {}
    assert forall|t: int| 0 <= t < r2.len() implies (i2 <= #[trigger] s2[t] < na || na + j2 <= s2[t]
        < c.len()) by {}
    assert forall|t1: int, t2: int| 0 <= t1 < t2 < r2.len() implies s2[t1] != s2[t2] by {
        if t2 == rev.len() {
            assert(i <= src[t1] < na || na + j <= src[t1] < c.len());
        }
    }
    assert forall|t1: int, t2: int| 0 <= t1 < t2 < r2.len() implies compare_files(
        key,
        #[trigger] r2[t2],
        #[trigger] r2[t1],
    ) <= 0 && (compare_files(key, r2[t2], r2[t1]) == 0 ==> s2[t2] < s2[t1]) by {
        if t2 == rev.len() {
            assert(r2[t1] == rev[t1]);
            assert(compare_files(key, c[u], rev[t1]) <= 0);
        }
    }
    assert forall|w: int, t: int|
        (0 <= w < i2 || na <= w < na + j2) && 0 <= t < r2.len() implies compare_files(
        key,
        #[trigger] c[w],
        #[trigger] r2[t],
    ) <= 0 && (compare_files(key, c[w], r2[t]) == 0 ==> w < s2[t]) by {
        if t < rev.len() {
            assert(r2[t] == rev[t]);
        }
    }
}

/// Merges the sorted `a` and `b` into one sorted vector, taking from `a` first
/// among ties: the result is `a + b` sorted stably.
fn merge(a: Vec<FileInfo>, b: Vec<FileInfo>, key: SortKey) -> (res: (Vec<FileInfo>, Ghost<Seq<int>>))
    requires
        sorted_by(key, a@),
        sorted_by(key, b@),
    ensures
        stable_sort_of(a@ + b@, res.0@, key, res.1@),
{
    let ghost c = a@ + b@;
    let ghost na = a@.len() as int;
    let mut a = a;
    let mut b = b;
    let mut rev: Vec<FileInfo> = Vec::new();
    let ghost mut src: Seq<int> = Seq::empty();
    loop
        invariant
            merge_inv(key, c, na, a@.len() as int, b@.len() as int, rev@, src),
            a@ == c.subrange(0, a@.len() as int),
            b@ == c.subrange(na, na + b@.len()),
            c.len() == na + (c.len() - na),
            sorted_by(key, c.subrange(0, na)),
            sorted_by(key, c.subrange(na, c.len() as int)),
        ensures
            merge_inv(key, c, na, 0, 0, rev@, src),
        decreases a@.len() + b@.len(),
    {
        let i = a.len();
        let j = b.len();
        if i == 0 && j == 0 {
            break;
        }
        let take_a = if i == 0 {
            false
        } else if j == 0 {
            true
        } else {
            comes_after(key, &a[i - 1], &b[j - 1])
        };
        let ghost ca = c.subrange(0, na);
        let ghost cb = c.subrange(na, c.len() as int);
        if take_a {
            let ghost u = i - 1;
            proof {
                assert forall|w: int| (0 <= w < i || na <= w < na + j) && w != u implies compare_files(
                    key,
                    #[trigger] c[w],
                    c[u],
                ) <= 0 && (compare_files(key, c[w], c[u]) == 0 ==> w < u) by {
                    if w < i {
                        assert(c[w] == ca[w] && c[u] == ca[u]);
                    } else {
                        assert(c[w] == cb[w - na] && c[na + j - 1] == cb[j - 1]);
                        lemma_compare_antisym(key, c[u], c[na + j - 1]);
                        if w < na + j - 1 {
                            assert(compare_files(key, cb[w - na], cb[j - 1]) <= 0);
                            lemma_compare_strict(key, c[w], c[na + j - 1], c[u]);
                        }
                    }
                }
                lemma_merge_take(key, c, na, i as int, j as int, rev@, src, u);
                src = src.push(u);
            }
            let x = a.pop().unwrap();
            rev.push(x);
            assert(a@ =~= c.subrange(0, a@.len() as int));
        } else {
            let ghost u = na + j - 1;
            proof {
                assert forall|w: int| (0 <= w < i || na <= w < na + j) && w != u implies compare_files(
                    key,
                    #[trigger] c[w],
                    c[u],
                ) <= 0 && (compare_files(key, c[w], c[u]) == 0 ==> w < u) by {
                    if w < i {
                        assert(c[w] == ca[w] && c[i - 1] == ca[i - 1]);
                        if w < i - 1 {
                            lemma_compare_trans(key, c[w], c[i - 1], c[u]);
                        }
                    } else {
                        assert(c[w] == cb[w - na] && c[u] == cb[j - 1]);
                    }
                }
                lemma_merge_take(key, c, na, i as int, j as int, rev@, src, u);
                src = src.push(u);
            }
            let y = b.pop().unwrap();
            rev.push(y);
            assert(b@ =~= c.subrange(na, na + b@.len()));
        }
    }
    // Reverse into the result.
    let n = rev.len();
    let ghost r = rev@;
    let mut out: Vec<FileInfo> = Vec::new();
    assert(merge_inv(key, c, na, 0, 0, r, src));
    while rev.len() > 0
        invariant
            merge_inv(key, c, na, 0, 0, r, src),
            n == c.len(),
            rev@ == r.subrange(0, rev@.len() as int),
            r.len() == n,
            out@.len() == n - rev@.len(),
            forall|t: int| 0 <= t < out@.len() ==> out@[t] == r[n - 1 - t],
        decreases rev@.len(),
    {
        let e = rev.pop().unwrap();
        out.push(e);
    }
    let ghost p = Seq::new(n as nat, |t: int| src[n - 1 - t]);
    proof {
        assert forall|t: int| 0 <= t < n implies out@[t] == c[#[trigger] p[t]] by {}
        assert forall|t: int| 0 <= t < n implies 0 <= #[trigger] p[t] < n by {
            assert(0 <= src[n - 1 - t] < c.len());
        }
        assert forall|t1: int, t2: int| 0 <= t1 < t2 < n implies p[t1] != p[t2] by {
            assert(src[n - 1 - t2] != src[n - 1 - t1]);
        }
        assert forall|t1: int, t2: int| 0 <= t1 < t2 < n implies compare_files(
            key,
            #[trigger] out@[t1],
            #[trigger] out@[t2],
        ) <= 0 && (compare_files(key, out@[t1], out@[t2]) == 0 ==> p[t1] < p[t2]) by {
            assert(out@[t1] == r[n - 1 - t1] && out@[t2] == r[n - 1 - t2]);
        }
    }
    (out, Ghost(p))
}

/// Sorts `v` stably under `key`: returns the sorted vector and where each of its
/// entries came from.
fn merge_sort(v: Vec<FileInfo>, key: SortKey) -> (res: (Vec<FileInfo>, Ghost<Seq<int>>))
    ensures
        stable_sort_of(v@, res.0@, key, res.1@),
    decreases v@.len(),
{
    let n = v.len();
    if n <= 1 {
        let ghost p = Seq::new(n as nat, |k: int| k);
        return (v, Ghost(p));
    }
    let mid = n / 2;
    let mut left = v;
    let right = left.split_off(mid);
    let ghost lv = left@;
    let ghost rv = right@;
    let (ls, Ghost(pl)) = merge_sort(left, key);
    let (rs, Ghost(pr)) = merge_sort(right, key);
    let ghost a = ls@;
    let ghost b = rs@;
    let (out, Ghost(pm)) = merge(ls, rs, key);
    let ghost c = a + b;
    let ghost m = mid as int;
    let ghost q = Seq::new(n as nat, |t: int| if pm[t] < m { pl[pm[t]] } else { m + pr[pm[t] - m] });
    proof {
        let orig = lv + rv;
        assert(orig =~= v@);
        assert forall|t: int| 0 <= t < n implies out@[t] == v@[#[trigger] q[t]] by {
            let u = pm[t];
            if u < m {
                assert(c[u] == a[u]);
            } else {
                assert(c[u] == b[u - m]);
            }
        }
        assert forall|t: int| 0 <= t < n implies 0 <= #[trigger] q[t] < n by {
            let u = pm[t];
            if u >= m {
                assert(0 <= pr[u - m] < rv.len());
            }
        }
        assert forall|t1: int, t2: int| 0 <= t1 < t2 < n implies q[t1] != q[t2] by {
            let u1 = pm[t1];
            let u2 = pm[t2];
            assert(u1 != u2);
            if u1 < m && u2 < m {
            } else if u1 >= m && u2 >= m {
                if u1 - m < u2 - m {
                    assert(pr[u1 - m] != pr[u2 - m]);
                } else {
                    assert(pr[u2 - m] != pr[u1 - m]);
                }
            } else if u1 < m {
                assert(0 <= pl[u1] < m);
            } else {
                assert(0 <= pl[u2] < m);
            }
        }
        assert forall|t1: int, t2: int|
            0 <= t1 < t2 < n && compare_files(key, #[trigger] out@[t1], #[trigger] out@[t2]) == 0
            implies q[t1] < q[t2] by {
            let u1 = pm[t1];
            let u2 = pm[t2];
            assert(u1 < u2);
            if u1 < m && u2 < m {
                assert(c[u1] == a[u1] && c[u2] == a[u2]);
            } else if u1 >= m && u2 >= m {
                assert(c[u1] == b[u1 - m] && c[u2] == b[u2 - m]);
            } else {
                assert(0 <= pl[u1] < m);
            }
        }
    }
    (out, Ghost(q))
}

/// Sorts `files` in place according to `sort_key`, stably.
pub fn sort_files(files: &mut Vec<FileInfo>, sort_key: SortKey)
    ensures
        exists|p: Seq<int>| stable_sort_of(old(files)@, final(files)@, sort_key, p),
{
    let mut taken: Vec<FileInfo> = Vec::new();
    std::mem::swap(files, &mut taken);
    let (sorted, Ghost(p)) = merge_sort(taken, sort_key);
    *files = sorted;
    assert(stable_sort_of(old(files)@, files@, sort_key, p));
}

} // verus!
