use vstd::prelude::*;

use crate::text::{
    chars_equal, chars_of, char_views, ends_with, find, find_from_exec, join_stars, lemma_find,
    lemma_find_from, lemma_find_from_skip, lemma_split_join, matches_at, matches_at_exec, split_chars,
    starts_with, contains, sub_chars, trim, split_lines, lines_of, trim_chars, string_from_chars,
    strip_leading, strip_leading_chars,
};

verus! {

// ---------------------------------------------------------------------------
// Glob semantics
// ---------------------------------------------------------------------------

/// `name` matches the glob `pattern`, in which `*` stands for any run of
/// characters (possibly empty) and every other character stands for itself.
pub open spec fn glob(pattern: Seq<char>, name: Seq<char>) -> bool
    decreases pattern.len(), name.len(),
{
    if pattern.len() == 0 {
        name.len() == 0
    } else if pattern[0] == '*' {
        glob(pattern.drop_first(), name) || (name.len() > 0 && glob(pattern, name.drop_first()))
    } else {
        name.len() > 0 && name[0] == pattern[0] && glob(pattern.drop_first(), name.drop_first())
    }
}

/// `s` holds no `*`.
pub open spec fn star_free(s: Seq<char>) -> bool {
    forall|i: int| 0 <= i < s.len() ==> s[i] != '*'
}

/// A star-free prefix of the pattern must be matched literally.
pub proof fn lemma_glob_literal_prefix(q: Seq<char>, rest: Seq<char>, s: Seq<char>)
    requires
        star_free(q),
    ensures
        glob(q + rest, s) == (starts_with(s, q) && glob(rest, s.skip(q.len() as int))),
    decreases q.len(),
{
    if q.len() == 0 {
        assert(q + rest =~= rest);
        assert(s.skip(0) =~= s);
        assert(s.subrange(0, 0) =~= q);
    } else {
        let p = q + rest;
        assert(p[0] == q[0]);
        assert(p.drop_first() =~= q.drop_first() + rest);
        if s.len() > 0 {
            lemma_glob_literal_prefix(q.drop_first(), rest, s.drop_first());
            if q.len() <= s.len() {
                assert(s.drop_first().skip(q.len() - 1) =~= s.skip(q.len() as int));
                let a = s.subrange(0, q.len() as int);
                let b = s.drop_first().subrange(0, q.len() - 1);
                assert(a =~= seq![s[0]] + b);
                assert(q =~= seq![q[0]] + q.drop_first());
                if a == q {
                    assert(a[0] == q[0]);
                    assert(b =~= q.drop_first());
                }
            }
        }
    }
}

/// A star-free pattern matches exactly itself.
pub proof fn lemma_glob_literal(q: Seq<char>, s: Seq<char>)
    requires
        star_free(q),
    ensures
        glob(q, s) == (s == q),
{
    lemma_glob_literal_prefix(q, seq![], s);
    assert(q + seq![] =~= q);
    if starts_with(s, q) && s.skip(q.len() as int).len() == 0 {
        assert(s =~= s.subrange(0, q.len() as int));
    }
    if s == q {
        assert(s.skip(q.len() as int) =~= Seq::<char>::empty());
        assert(s.subrange(0, q.len() as int) =~= s);
    }
}

/// A leading `*` may skip any number of characters.
pub proof fn lemma_glob_star_intro(rest: Seq<char>, s: Seq<char>, k: int)
    requires
        0 <= k <= s.len(),
        glob(rest, s.skip(k)),
    ensures
        glob(seq!['*'] + rest, s),
    decreases k,
{
    let p = seq!['*'] + rest;
    assert(p.drop_first() =~= rest);
    if k == 0 {
        assert(s.skip(0) =~= s);
    } else {
        assert(s.drop_first().skip(k - 1) =~= s.skip(k));
        lemma_glob_star_intro(rest, s.drop_first(), k - 1);
    }
}

/// A match of a leading `*` skips some number of characters.
proof fn lemma_glob_star_elim(rest: Seq<char>, s: Seq<char>) -> (k: int)
    requires
        glob(seq!['*'] + rest, s),
    ensures
        0 <= k <= s.len(),
        glob(rest, s.skip(k)),
    decreases s.len(),
{
    let p = seq!['*'] + rest;
    assert(p.drop_first() =~= rest);
    if glob(rest, s) {
        assert(s.skip(0) =~= s);
        0
    } else {
        let k = lemma_glob_star_elim(rest, s.drop_first());
        assert(s.drop_first().skip(k) =~= s.skip(k + 1));
        k + 1
    }
}

/// Skipping more before a leading `*` can only lose matches.
proof fn lemma_glob_star_mono(rest: Seq<char>, s: Seq<char>, a: int, b: int)
    requires
        0 <= a <= b <= s.len(),
        glob(seq!['*'] + rest, s.skip(b)),
    ensures
        glob(seq!['*'] + rest, s.skip(a)),
{
    let k = lemma_glob_star_elim(rest, s.skip(b));
    assert(s.skip(b).skip(k) =~= s.skip(a).skip(b - a + k));
    lemma_glob_star_intro(rest, s.skip(a), b - a + k);
}

/// The greedy step: after a `*`, a star-free part followed by another `*` can be
/// matched at its first occurrence without losing any match.
proof fn lemma_glob_greedy(q: Seq<char>, tail: Seq<char>, s: Seq<char>)
    requires
        star_free(q),
    ensures
        glob(seq!['*'] + q + seq!['*'] + tail, s) == match find(s, q) {
            Some(k) => glob(seq!['*'] + tail, s.skip(k + q.len())),
            None => false,
        },
{
    let after = seq!['*'] + tail;
    let inner = q + after;
    assert(seq!['*'] + q + seq!['*'] + tail =~= seq!['*'] + inner);
    lemma_find(s, q);
    if glob(seq!['*'] + inner, s) {
        let k = lemma_glob_star_elim(inner, s);
        lemma_glob_literal_prefix(q, after, s.skip(k));
        assert(s.skip(k).subrange(0, q.len() as int) =~= s.subrange(k, k + q.len()));
        assert(matches_at(s, q, k));
        assert(s.skip(k).skip(q.len() as int) =~= s.skip(k + q.len()));
        let k0 = find(s, q)->0;
        assert(k0 <= k);
        lemma_glob_star_mono(tail, s, k0 + q.len(), k + q.len());
    }
    match find(s, q) {
        Some(k0) => {
            if glob(after, s.skip(k0 + q.len())) {
                lemma_glob_literal_prefix(q, after, s.skip(k0));
                assert(s.skip(k0).subrange(0, q.len() as int) =~= s.subrange(k0, k0 + q.len()));
                assert(s.skip(k0).skip(q.len() as int) =~= s.skip(k0 + q.len()));
                lemma_glob_star_intro(inner, s, k0);
            }
        },
        None => {},
    }
}

/// After a `*`, a star-free last part must end the name.
pub proof fn lemma_glob_star_suffix(q: Seq<char>, s: Seq<char>)
    requires
        star_free(q),
    ensures
        glob(seq!['*'] + q, s) == ends_with(s, q),
{
    if glob(seq!['*'] + q, s) {
        let k = lemma_glob_star_elim(q, s);
        lemma_glob_literal(q, s.skip(k));
        assert(s.subrange(s.len() - q.len(), s.len() as int) =~= s.skip(k));
    }
    if ends_with(s, q) {
        let k = s.len() - q.len();
        assert(s.subrange(k, s.len() as int) =~= s.skip(k));
        lemma_glob_literal(q, s.skip(k));
        lemma_glob_star_intro(q, s, k);
    }
}

// ---------------------------------------------------------------------------
// Wildcard matching
// ---------------------------------------------------------------------------

proof fn lemma_join_step(ps: Seq<Seq<char>>, i: int)
    requires
        0 <= i < ps.len() - 1,
    ensures
        join_stars(ps.skip(i)) == ps[i] + seq!['*'] + join_stars(ps.skip(i + 1)),
{
    assert(ps.skip(i).drop_first() =~= ps.skip(i + 1));
}

/// Matches `name` against a glob-style `pattern` containing `*` wildcards: the
/// first piece must start the name, each middle piece is taken at its first
/// occurrence after the previous one, and the last piece must end what is left.
/// This greedy scan decides exactly the glob semantics.
pub fn matches_wildcard(pattern: &str, name: &str) -> (res: bool)
    ensures
        res == glob(pattern@, name@),
{
    let p = chars_of(pattern);
    let s = chars_of(name);
    let parts = split_chars(&p, '*');
    let ghost ps = char_views(parts@);
    proof {
        lemma_split_join(p@);
    }
    let n = parts.len();
    assert(ps.len() == n);
    if n == 1 {
        proof {
            assert(p@ == ps[0]);
            lemma_glob_literal(p@, s@);
        }
        return chars_equal(&p, &s);
    }
    let first = &parts[0];
    assert(first@ == ps[0]);
    proof {
        lemma_join_step(ps, 0);
        assert(ps.skip(0) =~= ps);
        assert(p@ =~= ps[0] + (seq!['*'] + join_stars(ps.skip(1))));
        lemma_glob_literal_prefix(ps[0], seq!['*'] + join_stars(ps.skip(1)), s@);
    }
    if !matches_at_exec(&s, first, 0) {
        return false;
    }
    let mut rem: usize = first.len();
    let mut idx: usize = 1;
    while idx < n - 1
        invariant
            n == parts@.len() == ps.len(),
            n >= 2,
            1 <= idx <= n - 1,
            rem <= s@.len(),
            p@ == pattern@,
            s@ == name@,
            ps == char_views(parts@),
            forall|k: int, j: int| 0 <= k < ps.len() && 0 <= j < ps[k].len() ==> ps[k][j] != '*',
            glob(p@, s@) == glob(seq!['*'] + join_stars(ps.skip(idx as int)), s@.skip(rem as int)),
        decreases n - idx,
    {
        let part = &parts[idx];
        let found = find_from_exec(&s, part, rem);
        proof {
            assert(part@ == ps[idx as int]);
            lemma_join_step(ps, idx as int);
            let q = ps[idx as int];
            let tail = join_stars(ps.skip(idx + 1));
            assert(seq!['*'] + join_stars(ps.skip(idx as int)) =~= seq!['*'] + q + seq!['*'] + tail);
            lemma_glob_greedy(q, tail, s@.skip(rem as int));
            lemma_find_from_skip(s@, q, rem as int);
            lemma_find_from(s@, q, rem as int);
            lemma_find(s@.skip(rem as int), q);
        }
        match found {
            Some(k) => {
                proof {
                    let q = ps[idx as int];
                    let k0 = k - rem;
                    assert(s@.skip(rem as int).skip(k0 + q.len()) =~= s@.skip(k + q.len()));
                    assert(matches_at(s@, q, k as int));
                    assert(k + part@.len() <= s@.len());
                    assert(s@.len() == s.len());
                }
                rem = k + part.len();
            },
            None => {
                return false;
            },
        }
        idx = idx + 1;
    }
    let last = &parts[n - 1];
    proof {
        let q = ps[n - 1];
        assert(last@ == q);
        assert(ps.skip(n - 1) =~= seq![q]);
        lemma_glob_star_suffix(q, s@.skip(rem as int));
        let r = s@.skip(rem as int);
        if q.len() <= r.len() {
            assert(r.subrange(r.len() - q.len(), r.len() as int) =~= s@.subrange(
                s@.len() - q.len(),
                s@.len() as int,
            ));
        }
    }
    last.len() <= s.len() - rem && matches_at_exec(&s, last, s.len() - last.len())
}

// ---------------------------------------------------------------------------
// Patterns
// ---------------------------------------------------------------------------

/// Whether a single `.gitignore` pattern excludes the entry `name`: a pattern with
/// a trailing `/` matches only a directory of exactly that name; a pattern with a
/// `*` is matched as a glob; any other pattern must equal the name.
pub open spec fn pattern_matches(pattern: Seq<char>, name: Seq<char>, is_dir: bool) -> bool {
    if pattern.len() > 0 && pattern.last() == '/' {
        is_dir && pattern.drop_last() == name
    } else if contains(pattern, seq!['*']) {
        glob(pattern, name)
    } else {
        pattern == name
    }
}

/// Returns `true` if `pattern` matches the entry `name`; `is_dir` tells whether
/// the entry is a directory, which only a pattern with a trailing `/` asks.
pub fn matches_gitignore_pattern(pattern: &str, name: &str, is_dir: bool) -> (res: bool)
    ensures
        res == pattern_matches(pattern@, name@, is_dir),
{
    let p = chars_of(pattern);
    let s = chars_of(name);
    let n = p.len();
    if n > 0 && p[n - 1] == '/' {
        let dir_part = sub_chars(&p, 0, n - 1);
        assert(dir_part@ =~= p@.drop_last());
        return is_dir && chars_equal(&dir_part, &s);
    }
    let mut star: Vec<char> = Vec::new();
    star.push('*');
    assert(star@ =~= seq!['*']);
    let found = find_from_exec(&p, &star, 0);
    if found.is_some() {
        return matches_wildcard(pattern, name);
    }
    chars_equal(&p, &s)
}

/// Patterns loaded from `.gitignore` to exclude entries from output.
pub struct GitignoreRules {
    pub patterns: Vec<String>,
}

/// The characters of each string.
pub open spec fn string_views(v: Seq<String>) -> Seq<Seq<char>> {
    v.map_values(|x: String| x@)
}

/// A trimmed line holds a pattern: it is not blank, not a comment (`#`) and not a
/// negation (`!`).
pub open spec fn is_pattern_line(t: Seq<char>) -> bool {
    t.len() > 0 && t[0] != '#' && t[0] != '!'
}

/// The patterns that the given lines hold, in order: each line trimmed, the
/// blank, comment and negation lines left out, and leading `/` stripped.
pub open spec fn patterns_of_lines(ls: Seq<Seq<char>>) -> Seq<Seq<char>>
    decreases ls.len(),
{
    if ls.len() == 0 {
        seq![]
    } else {
        let before = patterns_of_lines(ls.drop_last());
        let t = trim(ls.last());
        if is_pattern_line(t) {
            before.push(strip_leading(t, '/'))
        } else {
            before
        }
    }
}

/// The patterns of a `.gitignore` file's content.
pub open spec fn gitignore_patterns(content: Seq<char>) -> Seq<Seq<char>> {
    patterns_of_lines(split_lines(content))
}

/// Parses `.gitignore` content into patterns, skipping blank lines, comments
/// (`#`) and negations (`!`), and stripping leading `/`.
pub fn parse_gitignore_patterns(content: &str) -> (res: Vec<String>)
    ensures
        string_views(res@) == gitignore_patterns(content@),
{
    let chars = chars_of(content);
    let lines = lines_of(&chars);
    let ghost ls = char_views(lines@);
    let mut res: Vec<String> = Vec::new();
    let mut i: usize = 0;
    while i < lines.len()
        invariant
            i <= lines@.len(),
            ls == char_views(lines@),
            string_views(res@) == patterns_of_lines(ls.take(i as int)),
        decreases lines@.len() - i,
    {
        let t = trim_chars(&lines[i]);
        proof {
            assert(ls.take(i + 1).drop_last() =~= ls.take(i as int));
            assert(ls.take(i + 1).last() == lines@[i as int]@);
        }
        if t.len() > 0 && t[0] != '#' && t[0] != '!' {
            let stripped = strip_leading_chars(&t, '/');
            let ghost before = string_views(res@);
            res.push(string_from_chars(&stripped));
            assert(string_views(res@) =~= before.push(stripped@));
        }
        i = i + 1;
    }
    assert(ls.take(lines@.len() as int) =~= ls);
    res
}

impl GitignoreRules {
    /// The patterns, as character sequences.
    pub open spec fn pattern_views(&self) -> Seq<Seq<char>> {
        string_views(self.patterns@)
    }

    /// Builds the rule set from the content of a `.gitignore` file, or an empty
    /// rule set when the file is missing or unreadable (`None`).
    pub fn load(content: Option<&str>) -> (res: Self)
        ensures
            res.pattern_views() == match content {
                Some(c) => gitignore_patterns(c@),
                None => Seq::<Seq<char>>::empty(),
            },
    {
        match content {
            Some(c) => GitignoreRules { patterns: parse_gitignore_patterns(c) },
            None => {
                let patterns: Vec<String> = Vec::new();
                assert(string_views(patterns@) =~= Seq::<Seq<char>>::empty());
                GitignoreRules { patterns }
            },
        }
    }

    /// Returns `true` if any loaded pattern matches the entry `name`.
    pub fn is_ignored(&self, name: &str, is_dir: bool) -> (res: bool)
        ensures
            res == exists|i: int|
                0 <= i < self.patterns@.len() && #[trigger] pattern_matches(
                    self.patterns@[i]@,
                    name@,
                    is_dir,
                ),
    {
        let mut i: usize = 0;
        while i < self.patterns.len()
            invariant
                i <= self.patterns@.len(),
                forall|j: int| 0 <= j < i ==> !#[trigger] pattern_matches(self.patterns@[j]@, name@, is_dir),
            decreases self.patterns@.len() - i,
        {
            if matches_gitignore_pattern(self.patterns[i].as_str(), name, is_dir) {
                return true;
            }
            i = i + 1;
        }
        false
    }
}

} // verus!
