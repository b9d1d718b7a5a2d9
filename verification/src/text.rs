use vstd::prelude::*;

verus! {

// ---------------------------------------------------------------------------
// Characters of a string
// ---------------------------------------------------------------------------

/// The characters of `s`, in order, as a vector.
pub fn chars_of(s: &str) -> (res: Vec<char>)
    ensures
        res@ == s@,
{
    let mut res: Vec<char> = Vec::new();
    for c in it: s.chars()
        invariant
            res@ == it.seq().take(it.index() as int),
            it.seq() == s@,
    {
        res.push(c);
    }
    res
}

// ---------------------------------------------------------------------------
// Character classes
// ---------------------------------------------------------------------------

/// The Unicode `White_Space` property, which `str::trim` strips.
pub open spec fn is_white_space(c: char) -> bool {
    ||| ('\u{9}' <= c && c <= '\u{d}')
    ||| c == ' '
    ||| c == '\u{85}'
    ||| c == '\u{a0}'
    ||| c == '\u{1680}'
    ||| ('\u{2000}' <= c && c <= '\u{200a}')
    ||| c == '\u{2028}'
    ||| c == '\u{2029}'
    ||| c == '\u{202f}'
    ||| c == '\u{205f}'
    ||| c == '\u{3000}'
}

/// Executable test for [`is_white_space`].
pub fn white_space(c: char) -> (res: bool)
    ensures
        res == is_white_space(c),
{
    ('\u{9}' <= c && c <= '\u{d}') || c == ' ' || c == '\u{85}' || c == '\u{a0}'
        || c == '\u{1680}' || ('\u{2000}' <= c && c <= '\u{200a}') || c == '\u{2028}'
        || c == '\u{2029}' || c == '\u{202f}' || c == '\u{205f}' || c == '\u{3000}'
}

// ---------------------------------------------------------------------------
// Substring search
// ---------------------------------------------------------------------------

/// `pat` occurs in `s` starting at index `i`.
pub open spec fn matches_at(s: Seq<char>, pat: Seq<char>, i: int) -> bool {
    0 <= i && i + pat.len() <= s.len() && s.subrange(i, i + pat.len()) == pat
}

/// The first index at or after `i` where `pat` occurs in `s`.
pub open spec fn find_from(s: Seq<char>, pat: Seq<char>, i: int) -> Option<int>
    decreases s.len() + 1 - i,
{
    if i < 0 || i + pat.len() > s.len() {
        None
    } else if matches_at(s, pat, i) {
        Some(i)
    } else {
        find_from(s, pat, i + 1)
    }
}

/// The first index where `pat` occurs in `s` (as `str::find`, counted in characters).
pub open spec fn find(s: Seq<char>, pat: Seq<char>) -> Option<int> {
    find_from(s, pat, 0)
}

/// `pat` occurs somewhere in `s`.
pub open spec fn contains(s: Seq<char>, pat: Seq<char>) -> bool {
    find(s, pat) is Some
}

pub open spec fn starts_with(s: Seq<char>, pat: Seq<char>) -> bool {
    matches_at(s, pat, 0)
}

pub open spec fn ends_with(s: Seq<char>, pat: Seq<char>) -> bool {
    matches_at(s, pat, s.len() - pat.len())
}

/// What `find_from` returns: the least matching index at or after `i`.
pub proof fn lemma_find_from(s: Seq<char>, pat: Seq<char>, i: int)
    requires
        0 <= i,
    ensures
        match find_from(s, pat, i) {
            Some(k) => i <= k && matches_at(s, pat, k) && forall|j: int|
                i <= j < k ==> !matches_at(s, pat, j),
            None => forall|j: int| i <= j ==> !matches_at(s, pat, j),
        },
    decreases s.len() + 1 - i,
{
    if i + pat.len() > s.len() {
    } else if matches_at(s, pat, i) {
    } else {
        lemma_find_from(s, pat, i + 1);
    }
}

/// `find` is the least index where `pat` occurs.
pub proof fn lemma_find(s: Seq<char>, pat: Seq<char>)
    ensures
        match find(s, pat) {
            Some(k) => matches_at(s, pat, k) && forall|j: int| 0 <= j < k ==> !matches_at(s, pat, j),
            None => forall|j: int| !matches_at(s, pat, j),
        },
{
    lemma_find_from(s, pat, 0);
}

/// Whether `pat` occurs in `s` at index `i` (executable).
pub fn matches_at_exec(s: &Vec<char>, pat: &Vec<char>, i: usize) -> (res: bool)
    ensures
        res == matches_at(s@, pat@, i as int),
{
    if i > s.len() || pat.len() > s.len() - i {
        return false;
    }
    let mut k: usize = 0;
    while k < pat.len()
        invariant
            i + pat@.len() <= s@.len(),
            s@.len() == s.len(),
            k <= pat@.len(),
            forall|j: int| 0 <= j < k ==> s@[i + j] == pat@[j],
        decreases pat@.len() - k,
    {
        if s[i + k] != pat[k] {
            assert(s@.subrange(i as int, i + pat@.len())[k as int] != pat@[k as int]);
            return false;
        }
        k = k + 1;
    }
    assert(s@.subrange(i as int, i + pat@.len()) =~= pat@);
    true
}

/// The first index at or after `from` where `pat` occurs in `s`.
pub fn find_from_exec(s: &Vec<char>, pat: &Vec<char>, from: usize) -> (res: Option<usize>)
    ensures
        match res {
            Some(k) => find_from(s@, pat@, from as int) == Some(k as int),
            None => find_from(s@, pat@, from as int) is None,
        },
{
    proof {
        lemma_find_from(s@, pat@, from as int);
    }
    if pat.len() > s.len() || from > s.len() - pat.len() {
        return None;
    }
    let last = s.len() - pat.len();
    let mut i: usize = from;
    loop
        invariant
            from <= i <= last,
            last + pat@.len() == s@.len(),
            forall|j: int| from <= j < i ==> !matches_at(s@, pat@, j),
            match find_from(s@, pat@, from as int) {
                Some(k) => from <= k && matches_at(s@, pat@, k) && forall|j: int|
                    from <= j < k ==> !matches_at(s@, pat@, j),
                None => forall|j: int| from <= j ==> !matches_at(s@, pat@, j),
            },
        decreases last - i,
    {
        if matches_at_exec(s, pat, i) {
            return Some(i);
        }
        if i == last {
            assert forall|j: int| from <= j implies !matches_at(s@, pat@, j) by {
                if j > i {
                    assert(j + pat@.len() > s@.len());
                }
            }
            return None;
        }
        i = i + 1;
    }
}


/// `find_from` on `s` at `start` is `find` on the suffix of `s` from `start`, shifted.
pub proof fn lemma_find_from_skip(s: Seq<char>, pat: Seq<char>, start: int)
    requires
        0 <= start <= s.len(),
    ensures
        find_from(s, pat, start) == match find(s.skip(start), pat) {
            Some(k) => Some(k + start),
            None => None::<int>,
        },
{
    let t = s.skip(start);
    lemma_find_from(s, pat, start);
    lemma_find(t, pat);
    assert forall|j: int| 0 <= j implies matches_at(t, pat, j) == matches_at(s, pat, j + start) by {
        if j + pat.len() <= t.len() {
            assert(t.subrange(j, j + pat.len()) =~= s.subrange(j + start, j + start + pat.len()));
        }
    }
    match find(t, pat) {
        Some(k) => {
            match find_from(s, pat, start) {
                Some(m) => {
                    if m < k + start {
                        assert(matches_at(t, pat, m - start));
                    } else if m > k + start {
                        assert(matches_at(s, pat, k + start));
                    }
                },
                None => {
                    assert(matches_at(s, pat, k + start));
                },
            }
        },
        None => {
            match find_from(s, pat, start) {
                Some(m) => {
                    assert(matches_at(t, pat, m - start));
                },
                None => {},
            }
        },
    }
}

// ---------------------------------------------------------------------------
// Trimming
// ---------------------------------------------------------------------------

/// `s` without its leading white space.
pub open spec fn trim_start(s: Seq<char>) -> Seq<char>
    decreases s.len(),
{
    if s.len() > 0 && is_white_space(s[0]) {
        trim_start(s.drop_first())
    } else {
        s
    }
}

/// `s` without its trailing white space.
pub open spec fn trim_end(s: Seq<char>) -> Seq<char>
    decreases s.len(),
{
    if s.len() > 0 && is_white_space(s.last()) {
        trim_end(s.drop_last())
    } else {
        s
    }
}

/// `s` without leading and trailing white space (as `str::trim`).
pub open spec fn trim(s: Seq<char>) -> Seq<char> {
    trim_end(trim_start(s))
}

proof fn lemma_trim_start_skip(s: Seq<char>, k: int)
    requires
        0 <= k <= s.len(),
        forall|j: int| 0 <= j < k ==> is_white_space(s[j]),
        k == s.len() || !is_white_space(s[k]),
    ensures
        trim_start(s) == s.skip(k),
    decreases k,
{
    if k == 0 {
        assert(s.skip(0) =~= s);
    } else {
        lemma_trim_start_skip(s.drop_first(), k - 1);
        assert(s.drop_first().skip(k - 1) =~= s.skip(k));
    }
}

proof fn lemma_trim_end_take(s: Seq<char>, k: int)
    requires
        0 <= k <= s.len(),
        forall|j: int| k <= j < s.len() ==> is_white_space(s[j]),
        k == 0 || !is_white_space(s[k - 1]),
    ensures
        trim_end(s) == s.take(k),
    decreases s.len() - k,
{
    if k == s.len() {
        assert(s.take(k) =~= s);
    } else {
        lemma_trim_end_take(s.drop_last(), k);
        assert(s.drop_last().take(k) =~= s.take(k));
    }
}

/// The bounds, within `s`, of `s[from..to]` trimmed.
pub fn trim_bounds(s: &Vec<char>, from: usize, to: usize) -> (res: (usize, usize))
    requires
        from <= to <= s@.len(),
    ensures
        from <= res.0 <= res.1 <= to,
        s@.subrange(res.0 as int, res.1 as int) == trim(s@.subrange(from as int, to as int)),
{
    let mut lo = from;
    while lo < to && white_space(s[lo])
        invariant
            from <= lo <= to <= s@.len(),
            forall|j: int| from <= j < lo ==> is_white_space(s@[j]),
        decreases to - lo,
    {
        lo = lo + 1;
    }
    let mut hi = to;
    while hi > lo && white_space(s[hi - 1])
        invariant
            from <= lo <= hi <= to <= s@.len(),
            forall|j: int| hi <= j < to ==> is_white_space(s@[j]),
        decreases hi - lo,
    {
        hi = hi - 1;
    }
    proof {
        let t = s@.subrange(from as int, to as int);
        lemma_trim_start_skip(t, lo - from);
        let u = t.skip(lo - from);
        assert(u =~= s@.subrange(lo as int, to as int));
        lemma_trim_end_take(u, hi - lo);
        assert(u.take(hi - lo) =~= s@.subrange(lo as int, hi as int));
    }
    (lo, hi)
}

/// A copy of `s[from..to]`.
pub fn sub_chars(s: &Vec<char>, from: usize, to: usize) -> (res: Vec<char>)
    requires
        from <= to <= s@.len(),
    ensures
        res@ == s@.subrange(from as int, to as int),
{
    let mut res: Vec<char> = Vec::new();
    let mut i = from;
    while i < to
        invariant
            from <= i <= to <= s@.len(),
            res@ == s@.subrange(from as int, i as int),
        decreases to - i,
    {
        res.push(s[i]);
        assert(res@ =~= s@.subrange(from as int, i + 1));
        i = i + 1;
    }
    res
}

/// `s` trimmed, as a new vector.
pub fn trim_chars(s: &Vec<char>) -> (res: Vec<char>)
    ensures
        res@ == trim(s@),
{
    let (lo, hi) = trim_bounds(s, 0, s.len());
    assert(s@.subrange(0, s@.len() as int) =~= s@);
    sub_chars(s, lo, hi)
}

// ---------------------------------------------------------------------------
// Lines
// ---------------------------------------------------------------------------

/// The lines of `s` split at each `'\n'`; a final empty line is not produced
/// (as `str::lines`, up to a trailing `'\r'`, which every caller trims away).
pub open spec fn split_lines(s: Seq<char>) -> Seq<Seq<char>>
    decreases s.len(),
{
    if s.len() == 0 {
        seq![]
    } else {
        match find(s, seq!['\n']) {
            Some(i) => if 0 <= i < s.len() {
                seq![s.take(i)] + split_lines(s.skip(i + 1))
            } else {
                seq![s]
            },
            None => seq![s],
        }
    }
}

/// The character sequences held by a sequence of vectors.
pub open spec fn char_views(v: Seq<Vec<char>>) -> Seq<Seq<char>> {
    v.map_values(|x: Vec<char>| x@)
}

/// The lines of `s`, each as a vector of characters.
pub fn lines_of(s: &Vec<char>) -> (res: Vec<Vec<char>>)
    ensures
        char_views(res@) == split_lines(s@),
{
    let mut nl: Vec<char> = Vec::new();
    nl.push('\n');
    assert(nl@ =~= seq!['\n']);
    let mut res: Vec<Vec<char>> = Vec::new();
    let mut start: usize = 0;
    assert(s@.skip(0) =~= s@);
    while start < s.len()
        invariant
            start <= s@.len(),
            nl@ == seq!['\n'],
            split_lines(s@) =~= char_views(res@) + split_lines(s@.skip(start as int)),
        decreases s@.len() - start,
    {
        let found = find_from_exec(s, &nl, start);
        proof {
            lemma_find_from_skip(s@, nl@, start as int);
            lemma_find_from(s@, nl@, start as int);
        }
        let ghost rest = s@.skip(start as int);
        match found {
            Some(i) => {
                let line = sub_chars(s, start, i);
                let ghost before = char_views(res@);
                proof {
                    assert(rest.take(i - start) =~= line@);
                    assert(rest.skip(i - start + 1) =~= s@.skip(i + 1));
                    assert(split_lines(rest) == seq![line@] + split_lines(s@.skip(i + 1)));
                }
                res.push(line);
                assert(char_views(res@) =~= before.push(line@));
                start = i + 1;
            },
            None => {
                let line = sub_chars(s, start, s.len());
                let ghost before = char_views(res@);
                proof {
                    assert(rest =~= line@);
                    assert(s@.skip(s@.len() as int) =~= Seq::<char>::empty());
                    assert(split_lines(rest) == seq![line@]);
                }
                res.push(line);
                assert(char_views(res@) =~= before.push(line@));
                start = s.len();
            },
        }
    }
    assert(s@.skip(start as int) =~= Seq::<char>::empty());
    res
}

// ---------------------------------------------------------------------------
// Building strings
// ---------------------------------------------------------------------------

/// Appends `c` to `s`: `String::push`, whose contract here says the string
/// gains exactly that character at its end.
#[verifier::external_body]
pub(crate) fn push_char(s: &mut String, c: char)
    ensures
        final(s)@ == old(s)@.push(c),
{
    s.push(c)
}

/// A `String` holding the characters of `v`.
pub fn string_from_chars(v: &Vec<char>) -> (res: String)
    ensures
        res@ == v@,
{
    let mut res = String::new();
    let mut i: usize = 0;
    while i < v.len()
        invariant
            i <= v@.len(),
            res@ == v@.take(i as int),
        decreases v@.len() - i,
    {
        push_char(&mut res, v[i]);
        assert(res@ =~= v@.take(i + 1));
        i = i + 1;
    }
    assert(v@.take(v@.len() as int) =~= v@);
    res
}

/// Appends the characters of `t` to `v`.
pub fn extend_chars(v: &mut Vec<char>, t: &Vec<char>)
    ensures
        final(v)@ == old(v)@ + t@,
{
    let mut i: usize = 0;
    while i < t.len()
        invariant
            i <= t@.len(),
            v@ == old(v)@ + t@.take(i as int),
        decreases t@.len() - i,
    {
        v.push(t[i]);
        assert(v@ =~= old(v)@ + t@.take(i + 1));
        i = i + 1;
    }
    assert(t@.take(t@.len() as int) =~= t@);
}

// ---------------------------------------------------------------------------
// Lower case
// ---------------------------------------------------------------------------

/// What `str::to_lowercase` gives for a string: the Unicode lower-case mapping,
/// applied with the context rules of the Unicode standard (such as the final
/// sigma).
pub uninterp spec fn lowercase(s: Seq<char>) -> Seq<char>;

/// `str::to_lowercase`. The contract claims only that the result is a function
/// of the input characters, named [`lowercase`]; nothing more of the Unicode
/// mapping is stated.
#[verifier::external_body]
pub(crate) fn to_lowercase(s: &str) -> (res: String)
    ensures
        res@ == lowercase(s@),
{
    s.to_lowercase()
}

// ---------------------------------------------------------------------------
// Decimal numbers
// ---------------------------------------------------------------------------

/// The decimal digit character for `d` (0 to 9).
pub open spec fn digit_char(d: nat) -> char {
    if d == 0 { '0' }
    else if d == 1 { '1' }
    else if d == 2 { '2' }
    else if d == 3 { '3' }
    else if d == 4 { '4' }
    else if d == 5 { '5' }
    else if d == 6 { '6' }
    else if d == 7 { '7' }
    else if d == 8 { '8' }
    else { '9' }
}

/// The decimal representation of `n`, without leading zeros.
pub open spec fn decimal(n: nat) -> Seq<char>
    decreases n,
{
    if n < 10 {
        seq![digit_char(n)]
    } else {
        decimal(n / 10) + seq![digit_char(n % 10)]
    }
}

pub fn digit(d: u128) -> (c: char)
    requires
        d < 10,
    ensures
        c == digit_char(d as nat),
{
    if d == 0 { '0' }
    else if d == 1 { '1' }
    else if d == 2 { '2' }
    else if d == 3 { '3' }
    else if d == 4 { '4' }
    else if d == 5 { '5' }
    else if d == 6 { '6' }
    else if d == 7 { '7' }
    else if d == 8 { '8' }
    else { '9' }
}

/// Appends the decimal representation of `n` to `out`.
pub fn push_decimal(out: &mut Vec<char>, n: u128)
    ensures
        final(out)@ == old(out)@ + decimal(n as nat),
    decreases n,
{
    if n >= 10 {
        push_decimal(out, n / 10);
    }
    out.push(digit(n % 10));
    assert(out@ =~= old(out)@ + decimal(n as nat));
}

// ---------------------------------------------------------------------------
// Replacing
// ---------------------------------------------------------------------------

/// `s` with every occurrence of `pat` replaced by `to`, scanning left to right
/// over non-overlapping occurrences (as `str::replace` with a non-empty pattern).
pub open spec fn replace_all(s: Seq<char>, pat: Seq<char>, to: Seq<char>) -> Seq<char>
    decreases s.len(),
{
    if s.len() == 0 {
        s
    } else if pat.len() > 0 && starts_with(s, pat) {
        to + replace_all(s.skip(pat.len() as int), pat, to)
    } else {
        seq![s[0]] + replace_all(s.drop_first(), pat, to)
    }
}

/// Replaces every occurrence of `pat` in `s` by `to`.
pub fn replace_chars(s: &Vec<char>, pat: &Vec<char>, to: &Vec<char>) -> (res: Vec<char>)
    requires
        pat@.len() > 0,
    ensures
        res@ == replace_all(s@, pat@, to@),
{
    let mut res: Vec<char> = Vec::new();
    let mut i: usize = 0;
    assert(s@.skip(0) =~= s@);
    while i < s.len()
        invariant
            i <= s@.len(),
            pat@.len() > 0,
            replace_all(s@, pat@, to@) == res@ + replace_all(s@.skip(i as int), pat@, to@),
        decreases s@.len() - i,
    {
        let ghost rest = s@.skip(i as int);
        if matches_at_exec(s, pat, i) {
            proof {
                assert(rest.subrange(0, pat@.len() as int) =~= s@.subrange(i as int, i + pat@.len()));
                assert(rest.skip(pat@.len() as int) =~= s@.skip(i + pat@.len()));
            }
            let ghost before = res@;
            extend_chars(&mut res, to);
            assert(before + replace_all(rest, pat@, to@) =~= res@ + replace_all(
                s@.skip(i + pat@.len()),
                pat@,
                to@,
            ));
            i = i + pat.len();
        } else {
            proof {
                if pat@.len() <= rest.len() {
                    assert(rest.subrange(0, pat@.len() as int) =~= s@.subrange(i as int, i + pat@.len()));
                }
                assert(rest.drop_first() =~= s@.skip(i + 1));
            }
            let ghost before = res@;
            res.push(s[i]);
            assert(before + replace_all(rest, pat@, to@) =~= res@ + replace_all(
                s@.skip(i + 1),
                pat@,
                to@,
            ));
            i = i + 1;
        }
    }
    assert(s@.skip(i as int) =~= Seq::<char>::empty());
    res
}

// ---------------------------------------------------------------------------
// Splitting at a separator
// ---------------------------------------------------------------------------

/// The pieces of `s` between occurrences of `sep` (as `str::split` with a
/// character): always at least one piece.
pub open spec fn split_on(s: Seq<char>, sep: char) -> Seq<Seq<char>>
    decreases s.len(),
{
    match find(s, seq![sep]) {
        Some(i) => if 0 <= i < s.len() {
            seq![s.take(i)] + split_on(s.skip(i + 1), sep)
        } else {
            seq![s]
        },
        None => seq![s],
    }
}

/// The pieces of `s` between occurrences of `sep`.
pub fn split_chars(s: &Vec<char>, sep: char) -> (res: Vec<Vec<char>>)
    ensures
        char_views(res@) == split_on(s@, sep),
{
    let mut pat: Vec<char> = Vec::new();
    pat.push(sep);
    assert(pat@ =~= seq![sep]);
    let mut res: Vec<Vec<char>> = Vec::new();
    let mut start: usize = 0;
    assert(s@.skip(0) =~= s@);
    loop
        invariant
            start <= s@.len(),
            pat@ == seq![sep],
            split_on(s@, sep) =~= char_views(res@) + split_on(s@.skip(start as int), sep),
        decreases s@.len() - start,
    {
        let found = find_from_exec(s, &pat, start);
        proof {
            lemma_find_from_skip(s@, pat@, start as int);
            lemma_find_from(s@, pat@, start as int);
        }
        let ghost rest = s@.skip(start as int);
        match found {
            Some(i) => {
                let piece = sub_chars(s, start, i);
                let ghost before = char_views(res@);
                proof {
                    assert(rest.take(i - start) =~= piece@);
                    assert(rest.skip(i - start + 1) =~= s@.skip(i + 1));
                    assert(split_on(rest, sep) == seq![piece@] + split_on(s@.skip(i + 1), sep));
                }
                res.push(piece);
                assert(char_views(res@) =~= before.push(piece@));
                assert(i < s.len());
                start = i + 1;
            },
            None => {
                let piece = sub_chars(s, start, s.len());
                let ghost before = char_views(res@);
                proof {
                    assert(rest =~= piece@);
                    assert(split_on(rest, sep) == seq![piece@]);
                }
                res.push(piece);
                assert(char_views(res@) =~= before.push(piece@));
                return res;
            },
        }
    }
}

/// The pieces joined again with `*` between them.
pub open spec fn join_stars(ps: Seq<Seq<char>>) -> Seq<char>
    decreases ps.len(),
{
    if ps.len() == 0 {
        seq![]
    } else if ps.len() == 1 {
        ps[0]
    } else {
        ps[0] + seq!['*'] + join_stars(ps.drop_first())
    }
}

/// Splitting at `*` and joining again gives back the string, every piece is free
/// of `*`, and there is at least one piece.
pub proof fn lemma_split_join(s: Seq<char>)
    ensures
        split_on(s, '*').len() >= 1,
        join_stars(split_on(s, '*')) == s,
        forall|k: int, j: int| 0 <= k < split_on(s, '*').len() && 0 <= j < split_on(s, '*')[k].len()
            ==> split_on(s, '*')[k][j] != '*',
    decreases s.len(),
{
    lemma_find(s, seq!['*']);
    match find(s, seq!['*']) {
        Some(i) => {
            if 0 <= i < s.len() {
                let rest = s.skip(i + 1);
                lemma_split_join(rest);
                let ps = split_on(s, '*');
                assert(ps == seq![s.take(i)] + split_on(rest, '*'));
                assert(ps.drop_first() =~= split_on(rest, '*'));
                assert(s.subrange(i, i + 1) =~= seq!['*']);
                assert(s =~= s.take(i) + seq!['*'] + rest) by {
                    assert(s[i] == s.subrange(i, i + 1)[0]);
                }
                assert forall|j: int| 0 <= j < i implies s.take(i)[j] != '*' by {
                    if s.take(i)[j] == '*' {
                        assert(s.subrange(j, j + 1) =~= seq!['*']);
                        assert(matches_at(s, seq!['*'], j));
                    }
                }
                assert forall|k: int, j: int| 0 <= k < ps.len() && 0 <= j < ps[k].len()
                    implies ps[k][j] != '*' by {
                    if k > 0 {
                        assert(ps[k] == split_on(rest, '*')[k - 1]);
                    }
                }
            }
        },
        None => {
            assert forall|j: int| 0 <= j < s.len() implies s[j] != '*' by {
                if s[j] == '*' {
                    assert(s.subrange(j, j + 1) =~= seq!['*']);
                    assert(matches_at(s, seq!['*'], j));
                }
            }
        },
    }
}

/// Whether two character vectors are equal.
pub fn chars_equal(a: &Vec<char>, b: &Vec<char>) -> (res: bool)
    ensures
        res == (a@ == b@),
{
    if a.len() != b.len() {
        return false;
    }
    let mut i: usize = 0;
    while i < a.len()
        invariant
            i <= a@.len(),
            a@.len() == b@.len(),
            forall|j: int| 0 <= j < i ==> a@[j] == b@[j],
        decreases a@.len() - i,
    {
        if a[i] != b[i] {
            return false;
        }
        i = i + 1;
    }
    assert(a@ =~= b@);
    true
}

// ---------------------------------------------------------------------------
// Stripping a repeated prefix character
// ---------------------------------------------------------------------------

/// `s` without its leading `c` characters (as `trim_start_matches(c)`).
pub open spec fn strip_leading(s: Seq<char>, c: char) -> Seq<char>
    decreases s.len(),
{
    if s.len() > 0 && s[0] == c {
        strip_leading(s.drop_first(), c)
    } else {
        s
    }
}

/// `s` without its leading `c` characters, as a new vector.
pub fn strip_leading_chars(s: &Vec<char>, c: char) -> (res: Vec<char>)
    ensures
        res@ == strip_leading(s@, c),
{
    let mut i: usize = 0;
    assert(s@.skip(0) =~= s@);
    while i < s.len() && s[i] == c
        invariant
            i <= s@.len(),
            strip_leading(s@, c) == strip_leading(s@.skip(i as int), c),
        decreases s@.len() - i,
    {
        assert(s@.skip(i as int).drop_first() =~= s@.skip(i + 1));
        i = i + 1;
    }
    assert(s@.skip(i as int) =~= s@.subrange(i as int, s@.len() as int));
    sub_chars(s, i, s.len())
}

} // verus!
