use vstd::prelude::*;

use crate::cli::{
    apply_flags, flag_step, sort_flag, is_help_arg, is_long_arg, is_option_arg, is_version_arg, parse_from,
    short_flags, ArgsErrorView, ArgsState, Flags,
};
use crate::details::{between, cleaned_title, pdf_title, readme_tagline, tagline_after, tagline_heading};
use crate::entry::{
    f64_spacing, modified_text, nearest_f64, FileInfo, rounded_tenths, size_text, unit_divisor, unit_index, unit_name,
};
use crate::gitignore::{
    gitignore_patterns, glob, is_pattern_line, lemma_glob_literal, lemma_glob_literal_prefix,
    lemma_glob_star_intro, lemma_glob_star_suffix, pattern_matches, patterns_of_lines, star_free,
};
use crate::cli::SortKey;
use crate::order::{compare_files, lemma_lex_order_antisym, lex_order};
use crate::text::{
    contains, decimal, digit_char, ends_with, find, lowercase, lemma_find, matches_at, split_lines, starts_with, strip_leading, trim,
};

verus! {

// ---------------------------------------------------------------------------
// Bundled flags
// ---------------------------------------------------------------------------

/// Applying the flags of `f1 + f2` is applying those of `f1`, then, unless an
/// error stopped it, those of `f2`.
pub proof fn law_flags_compose(f1: Seq<char>, f2: Seq<char>, st: Flags)
    ensures
        apply_flags(f1 + f2, st) == (match apply_flags(f1, st) {
            (s1, None) => apply_flags(f2, s1),
            (s1, Some(e)) => (s1, Some(e)),
        }),
    decreases f1.len(),
{
    if f1.len() == 0 {
        assert(f1 + f2 =~= f2);
    } else {
        assert((f1 + f2)[0] == f1[0]);
        assert((f1 + f2).drop_first() =~= f1.drop_first() + f2);
        match flag_step(f1[0], st) {
            Ok(next) => law_flags_compose(f1.drop_first(), f2, next),
            Err(_) => {},
        }
    }
}

/// A group of flags that may stand alone as a short option: not empty, not
/// starting with `-`, and not `h` or `V` alone (which, alone, ask for help or
/// the version; bundled, they are unknown flags).
pub open spec fn plain_flag_group(f: Seq<char>) -> bool {
    f.len() > 0 && f[0] != '-' && f != seq!['h'] && f != seq!['V']
}

proof fn lemma_plain_option(f: Seq<char>)
    requires
        plain_flag_group(f),
    ensures
        short_flags(seq!['-'] + f) == f,
        !is_help_arg(seq!['-'] + f),
        !is_version_arg(seq!['-'] + f),
        seq!['-'] + f != "--completions"@,
        !is_long_arg(seq!['-'] + f),
        is_option_arg(seq!['-'] + f),
{
    let a = seq!['-'] + f;
    assert(a.drop_first() =~= f);
    assert(a[1] == f[0]);
    reveal_strlit("--help");
    reveal_strlit("-h");
    reveal_strlit("--version");
    reveal_strlit("-V");
    reveal_strlit("--completions");
    reveal_strlit("-");
    if a == "--help"@ || a == "--version"@ || a == "--completions"@ {
        assert(a[1] == '-');
    }
    if a == "-h"@ {
        assert(f =~= seq!['h']);
    }
    if a == "-V"@ {
        assert(f =~= seq!['V']);
    }
    assert(a.len() > 1);
}

/// Short flags may be bundled: `-xy...` parses as `-x...` followed by `-y...`,
/// for any two groups of flags that may stand alone as options.
pub proof fn law_bundled_flags(
    f1: Seq<char>,
    f2: Seq<char>,
    rest: Seq<Seq<char>>,
    st: ArgsState,
)
    requires
        plain_flag_group(f1),
        plain_flag_group(f2),
    ensures
        parse_from(seq![seq!['-'] + f1 + f2] + rest, st) == parse_from(
            seq![seq!['-'] + f1, seq!['-'] + f2] + rest,
            st,
        ),
{
    let bundle = seq!['-'] + f1 + f2;
    let o1 = seq!['-'] + f1;
    let o2 = seq!['-'] + f2;
    let f12 = f1 + f2;
    assert(bundle =~= seq!['-'] + f12);
    assert(plain_flag_group(f12)) by {
        assert(f12[0] == f1[0]);
        if f12 == seq!['h'] || f12 == seq!['V'] {
            assert(f12.len() == f1.len() + f2.len());
        }
    }
    lemma_plain_option(f12);
    lemma_plain_option(f1);
    lemma_plain_option(f2);
    law_flags_compose(f1, f2, st.1);
    let a1 = seq![bundle] + rest;
    let a2 = seq![o1, o2] + rest;
    let tail = seq![o2] + rest;
    assert(a1[0] == bundle);
    assert(a1.drop_first() =~= rest);
    assert(a2[0] == o1);
    assert(a2.drop_first() =~= tail);
    assert(tail[0] == o2);
    assert(tail.drop_first() =~= rest);
    let out1 = apply_flags(f1, st.1);
    assert(parse_from(a2, st) == match out1.1 {
        Some(e) => Err(e),
        None => parse_from(tail, (st.0, out1.0, st.2)),
    });
    if out1.1 is None {
        let out2 = apply_flags(f2, out1.0);
        assert(parse_from(tail, (st.0, out1.0, st.2)) == match out2.1 {
            Some(e) => Err(e),
            None => parse_from(rest, (st.0, out2.0, st.2)),
        });
    }
    assert(parse_from(a1, st) == match apply_flags(f12, st.1).1 {
        Some(e) => Err(e),
        None => parse_from(rest, (st.0, apply_flags(f12, st.1).0, st.2)),
    });
}

/// The sort options exclude each other: once a sort key is set, a sort flag,
/// short or long, bundled or separate, for a different key is an error, while
/// repeating the same key leaves the flags as they are.
pub proof fn law_one_sort_option(c: char, st: Flags)
    requires
        st.2 is Some,
        sort_flag(c) is Some,
    ensures
        st.2 != sort_flag(c) ==> flag_step(c, st) == Err::<Flags, ArgsErrorView>(
            ArgsErrorView::ConflictingSortFlags,
        ),
        st.2 == sort_flag(c) ==> flag_step(c, st) == Ok::<Flags, ArgsErrorView>(st),
{
}

// ---------------------------------------------------------------------------
// Text between markers
// ---------------------------------------------------------------------------

/// A first occurrence in `u` stays the first occurrence when text is appended.
proof fn lemma_find_extend(u: Seq<char>, v: Seq<char>, pat: Seq<char>, k: int)
    requires
        find(u, pat) == Some(k),
    ensures
        find(u + v, pat) == Some(k),
{
    lemma_find(u, pat);
    lemma_find(u + v, pat);
    let w = u + v;
    assert(u.subrange(k, k + pat.len()) =~= w.subrange(k, k + pat.len()));
    assert(matches_at(w, pat, k));
    match find(w, pat) {
        Some(m) => {
            if m < k {
                assert(u.subrange(m, m + pat.len()) =~= w.subrange(m, m + pat.len()));
                assert(matches_at(u, pat, m));
            }
        },
        None => {},
    }
}

/// The text between two markers is given back: when `start` first occurs in
/// `p + start` at its end, and `end` first occurs in `s + end` at its end, the
/// text between `start` and `end` in `p + start + s + end + q` is `s`, for any
/// `q`.
pub proof fn law_between_round_trip(
    p: Seq<char>,
    start: Seq<char>,
    s: Seq<char>,
    end: Seq<char>,
    q: Seq<char>,
)
    requires
        find(p + start, start) == Some(p.len() as int),
        find(s + end, end) == Some(s.len() as int),
    ensures
        between(p + start + s + end + q, start, end) == Some(s),
{
    let t = p + start + s + end + q;
    assert(t =~= (p + start) + (s + end + q));
    lemma_find_extend(p + start, s + end + q, start, p.len() as int);
    let rest = t.skip((p.len() + start.len()) as int);
    assert(rest =~= (s + end) + q);
    lemma_find_extend(s + end, q, end, s.len() as int);
    assert(rest.take(s.len() as int) =~= s);
}

// ---------------------------------------------------------------------------
// Sizes
// ---------------------------------------------------------------------------

/// Sizes below 1024 are shown as whole bytes.
pub proof fn law_small_sizes_in_bytes(size: u64)
    requires
        size < 1024,
    ensures
        size_text(size) == decimal(size as nat) + "B"@,
{
}

/// A whole number of KB, MB, GB or TB (binary prefixes: 1 KB = 1024 B) is shown
/// as `1.0` of that unit.
pub proof fn law_whole_units(k: nat)
    requires
        1 <= k <= 4,
    ensures
        size_text(unit_divisor(k) as u64) == "1.0"@ + unit_name(k),
{
    reveal_strlit("1.0");
    let d = unit_divisor(k);
    assert(decimal(1) == seq!['1']);
    assert(d < 0x20_0000_0000_0000);
    assert(f64_spacing(d) == 1);
    assert(nearest_f64(d) == d);
    assert(unit_index(d) == k);
    assert(rounded_tenths(d, k) == 10);
    assert(digit_char(0) == '0');
    assert("1.0"@ =~= seq!['1', '.', '0']);
    assert(size_text(d as u64) =~= "1.0"@ + unit_name(k));
}

// ---------------------------------------------------------------------------
// .gitignore patterns
// ---------------------------------------------------------------------------

proof fn lemma_strip_leading_no_lead(s: Seq<char>, c: char)
    ensures
        !(strip_leading(s, c).len() > 0 && strip_leading(s, c)[0] == c),
    decreases s.len(),
{
    if s.len() > 0 && s[0] == c {
        lemma_strip_leading_no_lead(s.drop_first(), c);
    }
}

proof fn lemma_patterns_no_slash(ls: Seq<Seq<char>>)
    ensures
        forall|i: int| 0 <= i < patterns_of_lines(ls).len() ==> !(#[trigger] patterns_of_lines(ls)[i].len() > 0
            && patterns_of_lines(ls)[i][0] == '/'),
    decreases ls.len(),
{
    if ls.len() > 0 {
        let before = patterns_of_lines(ls.drop_last());
        lemma_patterns_no_slash(ls.drop_last());
        lemma_strip_leading_no_lead(trim(ls.last()), '/');
        let all = patterns_of_lines(ls);
        assert forall|i: int| 0 <= i < all.len() implies !(#[trigger] all[i].len() > 0 && all[i][0] == '/') by {
            if i < before.len() {
                assert(all[i] == before[i]);
            }
        }
    }
}

/// No parsed `.gitignore` pattern starts with `/`.
pub proof fn law_patterns_have_no_leading_slash(content: Seq<char>)
    ensures
        forall|i: int| 0 <= i < gitignore_patterns(content).len() ==> !(
        #[trigger] gitignore_patterns(content)[i].len() > 0 && gitignore_patterns(content)[i][0]
            == '/'),
{
    lemma_patterns_no_slash(split_lines(content));
}

proof fn lemma_patterns_are_pattern_lines(ls: Seq<Seq<char>>)
    requires
        forall|i: int| 0 <= i < ls.len() && is_pattern_line(#[trigger] trim(ls[i])) ==> is_pattern_line(
            strip_leading(trim(ls[i]), '/'),
        ),
    ensures
        forall|i: int| 0 <= i < patterns_of_lines(ls).len() ==> is_pattern_line(
            #[trigger] patterns_of_lines(ls)[i],
        ),
    decreases ls.len(),
{
    if ls.len() > 0 {
        let init = ls.drop_last();
        assert forall|i: int| 0 <= i < init.len() && is_pattern_line(#[trigger] trim(init[i]))
            implies is_pattern_line(strip_leading(trim(init[i]), '/')) by {
            assert(init[i] == ls[i]);
        }
        lemma_patterns_are_pattern_lines(init);
        assert(ls.last() == ls[ls.len() - 1]);
        let before = patterns_of_lines(init);
        let all = patterns_of_lines(ls);
        assert forall|i: int| 0 <= i < all.len() implies is_pattern_line(#[trigger] all[i]) by {
            if i < before.len() {
                assert(all[i] == before[i]);
            }
        }
    }
}

/// Parsed patterns are neither empty, comments nor negations, unless a line
/// became one only when its leading `/` were stripped (as the line `/` or `/#x`
/// does): for content without such lines, every pattern is a pattern line.
pub proof fn law_patterns_are_not_comments(content: Seq<char>)
    requires
        forall|i: int|
            0 <= i < split_lines(content).len() && is_pattern_line(
                #[trigger] trim(split_lines(content)[i]),
            ) ==> is_pattern_line(strip_leading(trim(split_lines(content)[i]), '/')),
    ensures
        forall|i: int| 0 <= i < gitignore_patterns(content).len() ==> is_pattern_line(
            #[trigger] gitignore_patterns(content)[i],
        ),
{
    lemma_patterns_are_pattern_lines(split_lines(content));
}

// ---------------------------------------------------------------------------
// README taglines and PDF titles
// ---------------------------------------------------------------------------

proof fn lemma_tagline_is_line(ls: Seq<Seq<char>>, found: bool)
    ensures
        match tagline_after(ls, found) {
            Some(t) => t.len() > 0 && t[0] != '#' && exists|i: int| 0 <= i < ls.len() && t == trim(#[trigger] ls[i]),
            None => true,
        },
    decreases ls.len(),
{
    if ls.len() > 0 {
        let t = trim(ls[0]);
        if !(found && t.len() > 0 && t[0] != '#') {
            let f2 = found || crate::details::tagline_heading(t);
            lemma_tagline_is_line(ls.drop_first(), f2);
            match tagline_after(ls.drop_first(), f2) {
                Some(u) => {
                    let i = choose|i: int| 0 <= i < ls.drop_first().len() && u == trim(#[trigger] ls.drop_first()[i]);
                    assert(ls[i + 1] == ls.drop_first()[i]);
                },
                None => {},
            }
        } else {
            assert(t == trim(ls[0]));
        }
    }
}

/// A README tagline is a whole line of the README, trimmed, that is not empty
/// and not a heading.
pub proof fn law_tagline_is_content_line(content: Seq<char>)
    ensures
        match readme_tagline(content) {
            Some(t) => t.len() > 0 && t[0] != '#' && exists|i: int|
                0 <= i < split_lines(content).len() && t == trim(#[trigger] split_lines(content)[i]),
            None => true,
        },
{
    lemma_tagline_is_line(split_lines(content), false);
}

/// A PDF title, when there is one, is never empty.
pub proof fn law_pdf_title_not_empty(text: Seq<char>)
    ensures
        match pdf_title(text) {
            Some(t) => t.len() > 0,
            None => true,
        },
{
}

// ---------------------------------------------------------------------------
// Wildcards
// ---------------------------------------------------------------------------

/// A pattern without `*` matches exactly the name equal to it.
pub proof fn law_literal_pattern(q: Seq<char>, name: Seq<char>)
    requires
        star_free(q),
    ensures
        glob(q, name) == (name == q),
{
    lemma_glob_literal(q, name);
}

/// `*` followed by a literal matches exactly the names that end with it.
pub proof fn law_wildcard_suffix(q: Seq<char>, name: Seq<char>)
    requires
        star_free(q),
    ensures
        glob(seq!['*'] + q, name) == ends_with(name, q),
{
    lemma_glob_star_suffix(q, name);
}

/// A literal followed by `*` matches exactly the names that start with it.
pub proof fn law_wildcard_prefix(q: Seq<char>, name: Seq<char>)
    requires
        star_free(q),
    ensures
        glob(q + seq!['*'], name) == starts_with(name, q),
{
    lemma_glob_literal_prefix(q, seq!['*'], name);
    if starts_with(name, q) {
        let t = name.skip(q.len() as int);
        assert(t.skip(t.len() as int) =~= Seq::<char>::empty());
        assert(seq!['*'] + Seq::<char>::empty() =~= seq!['*']);
        assert(glob(Seq::<char>::empty(), t.skip(t.len() as int)));
        lemma_glob_star_intro(Seq::<char>::empty(), t, t.len() as int);
    }
}

// ---------------------------------------------------------------------------
// Name order
// ---------------------------------------------------------------------------

/// `a` comes strictly before `b` in code-point lexicographic order: `a` is a
/// proper prefix of `b`, or at the first position where they differ, `a` has the
/// smaller character.
pub open spec fn lex_less(a: Seq<char>, b: Seq<char>) -> bool {
    ||| (a.len() < b.len() && a == b.take(a.len() as int))
    ||| exists|i: int| 0 <= i < a.len() && i < b.len() && a.take(i) == b.take(i) && a[i] < b[i]
}

proof fn lemma_lex_order_less(a: Seq<char>, b: Seq<char>)
    ensures
        (lex_order(a, b) < 0) == lex_less(a, b),
    decreases a.len(),
{
    if a.len() == 0 {
        if b.len() > 0 {
            assert(a =~= b.take(0));
        }
    } else if b.len() == 0 {
    } else if a[0] < b[0] {
        assert(a.take(0) =~= b.take(0));
    } else if a[0] > b[0] {
        if lex_less(a, b) {
            if a.len() < b.len() && a == b.take(a.len() as int) {
                assert(a[0] == b.take(a.len() as int)[0]);
            } else {
                let i = choose|i: int| 0 <= i < a.len() && i < b.len() && a.take(i) == b.take(i) && a[i] < b[i];
                if i > 0 {
                    assert(a.take(i)[0] == b.take(i)[0]);
                }
            }
        }
    } else {
        let a1 = a.drop_first();
        let b1 = b.drop_first();
        lemma_lex_order_less(a1, b1);
        if lex_less(a1, b1) {
            if a1.len() < b1.len() && a1 == b1.take(a1.len() as int) {
                assert forall|k: int| 0 <= k < a.len() implies a[k] == b.take(a.len() as int)[k] by {
                    if k > 0 {
                        assert(a[k] == a1[k - 1]);
                        assert(b[k] == b1[k - 1]);
                        assert(a1[k - 1] == b1.take(a1.len() as int)[k - 1]);
                    }
                }
                assert(a =~= b.take(a.len() as int));
            } else {
                let i = choose|i: int| 0 <= i < a1.len() && i < b1.len() && a1.take(i) == b1.take(i) && a1[i] < b1[i];
                assert forall|k: int| 0 <= k < i + 1 implies #[trigger] a.take(i + 1)[k] == b.take(i + 1)[k] by {
                    if k > 0 {
                        assert(a[k] == a1[k - 1]);
                        assert(b[k] == b1[k - 1]);
                        assert(a1.take(i)[k - 1] == b1.take(i)[k - 1]);
                    }
                }
                assert(a.take(i + 1) =~= b.take(i + 1));
                assert(a[i + 1] == a1[i] && b[i + 1] == b1[i]);
            }
        }
        if lex_less(a, b) {
            if a.len() < b.len() && a == b.take(a.len() as int) {
                assert(a1 =~= b1.take(a1.len() as int));
            } else {
                let i = choose|i: int| 0 <= i < a.len() && i < b.len() && a.take(i) == b.take(i) && a[i] < b[i];
                assert(i > 0);
                assert forall|k: int| 0 <= k < i - 1 implies #[trigger] a1.take(i - 1)[k] == b1.take(i - 1)[k] by {
                    assert(a.take(i)[k + 1] == b.take(i)[k + 1]);
                }
                assert(a1.take(i - 1) =~= b1.take(i - 1));
                assert(a1[i - 1] == a[i] && b1[i - 1] == b[i]);
            }
        }
    }
}

/// Names are compared as whole lower-cased names: two entries tie exactly when
/// their names are equal in lower case, and otherwise the one whose lower-cased
/// name comes first in code-point lexicographic order comes first.
pub proof fn law_name_order(a: FileInfo, b: FileInfo)
    ensures
        (compare_files(SortKey::Name, a, b) == 0) == (lowercase(a.name@) == lowercase(b.name@)),
        (compare_files(SortKey::Name, a, b) < 0) == lex_less(lowercase(a.name@), lowercase(b.name@)),
        (compare_files(SortKey::Name, a, b) > 0) == lex_less(lowercase(b.name@), lowercase(a.name@)),
{
    let la = lowercase(a.name@);
    let lb = lowercase(b.name@);
    lemma_lex_order_antisym(la, lb);
    lemma_lex_order_less(la, lb);
    lemma_lex_order_less(lb, la);
}

/// By size, the larger entry comes first, and entries of equal size are ordered
/// by name.
pub proof fn law_size_order(a: FileInfo, b: FileInfo)
    ensures
        a.size > b.size ==> compare_files(SortKey::Size, a, b) < 0,
        a.size < b.size ==> compare_files(SortKey::Size, a, b) > 0,
        a.size == b.size ==> compare_files(SortKey::Size, a, b) == compare_files(SortKey::Name, a, b),
{
}

/// By modification time, the more recent entry comes first (an unknown time
/// counting as the epoch), and entries of equal time are ordered by name.
pub proof fn law_time_order(a: FileInfo, b: FileInfo)
    ensures
        ({
            let ta: int = match a.modified { Some(t) => t as int, None => 0 };
            let tb: int = match b.modified { Some(t) => t as int, None => 0 };
            &&& ta > tb ==> compare_files(SortKey::Modified, a, b) < 0
            &&& ta < tb ==> compare_files(SortKey::Modified, a, b) > 0
            &&& ta == tb ==> compare_files(SortKey::Modified, a, b) == compare_files(
                SortKey::Name,
                a,
                b,
            )
        }),
{
}

// ---------------------------------------------------------------------------
// Pattern kinds
// ---------------------------------------------------------------------------

/// The pattern ends with `/`.
pub open spec fn is_directory_pattern(p: Seq<char>) -> bool {
    p.len() > 0 && p.last() == '/'
}

proof fn lemma_star_free_contains(p: Seq<char>)
    ensures
        star_free(p) == !contains(p, seq!['*']),
{
    lemma_find(p, seq!['*']);
    if star_free(p) {
        if contains(p, seq!['*']) {
            let k = find(p, seq!['*'])->0;
            assert(p.subrange(k, k + 1)[0] == p[k]);
        }
    } else {
        let j = choose|j: int| 0 <= j < p.len() && p[j] == '*';
        assert(p.subrange(j, j + 1) =~= seq!['*']);
        assert(matches_at(p, seq!['*'], j));
    }
}

/// How a `.gitignore` pattern matches an entry: a pattern ending in `/` matches
/// exactly a directory whose name is the pattern without the `/`; any other
/// pattern matches regardless of whether the entry is a directory, a pattern
/// without `*` exactly the name equal to it, and one with `*` as a glob.
pub proof fn law_pattern_kinds(p: Seq<char>, name: Seq<char>, is_dir: bool)
    ensures
        is_directory_pattern(p) ==> pattern_matches(p, name, is_dir) == (is_dir && p.drop_last()
            == name),
        !is_directory_pattern(p) ==> pattern_matches(p, name, true) == pattern_matches(
            p,
            name,
            false,
        ),
        !is_directory_pattern(p) && star_free(p) ==> pattern_matches(p, name, is_dir) == (p
            == name),
        !is_directory_pattern(p) && !star_free(p) ==> pattern_matches(p, name, is_dir) == glob(
            p,
            name,
        ),
{
    lemma_star_free_contains(p);
}

// ---------------------------------------------------------------------------
// README taglines, line by line
// ---------------------------------------------------------------------------

/// A trimmed line can be a tagline: it is not empty and not a heading.
pub open spec fn content_line(t: Seq<char>) -> bool {
    t.len() > 0 && t[0] != '#'
}

/// Line `j` of `ls` can be the tagline: it is a content line and a tagline
/// heading came before it (or before all of `ls`, when `found`).
pub open spec fn tagline_candidate(ls: Seq<Seq<char>>, j: int, found: bool) -> bool {
    &&& 0 <= j < ls.len()
    &&& content_line(trim(ls[j]))
    &&& (found || exists|h: int| 0 <= h < j && tagline_heading(#[trigger] trim(ls[h])))
}

proof fn lemma_tagline_first_candidate(ls: Seq<Seq<char>>, found: bool)
    ensures
        match tagline_after(ls, found) {
            Some(t) => exists|j: int|
                #[trigger] tagline_candidate(ls, j, found) && t == trim(ls[j]) && forall|k: int|
                    0 <= k < j ==> !tagline_candidate(ls, k, found),
            None => forall|j: int| !#[trigger] tagline_candidate(ls, j, found),
        },
    decreases ls.len(),
{
    if ls.len() == 0 {
        return;
    }
    let t0 = trim(ls[0]);
    if found && content_line(t0) {
        assert(tagline_candidate(ls, 0, found));
        return;
    }
    let rest = ls.drop_first();
    let f2 = found || tagline_heading(t0);
    lemma_tagline_first_candidate(rest, f2);
    assert(!tagline_candidate(ls, 0, found));
    assert forall|j: int| 0 <= j < rest.len() implies #[trigger] tagline_candidate(ls, j + 1, found)
        == tagline_candidate(rest, j, f2) by {
        assert(ls[j + 1] == rest[j]);
        if tagline_candidate(rest, j, f2) && !found {
            if tagline_heading(t0) {
                assert(0 <= 0 < j + 1 && tagline_heading(trim(ls[0])));
            } else {
                let h = choose|h: int| 0 <= h < j && tagline_heading(#[trigger] trim(rest[h]));
                assert(rest[h] == ls[h + 1]);
                assert(tagline_heading(trim(ls[h + 1])));
            }
        }
        if tagline_candidate(ls, j + 1, found) && !f2 {
            let h = choose|h: int| 0 <= h < j + 1 && tagline_heading(#[trigger] trim(ls[h]));
            assert(h > 0);
            assert(rest[h - 1] == ls[h]);
            assert(tagline_heading(trim(rest[h - 1])));
        }
    }
    match tagline_after(rest, f2) {
        Some(t) => {
            let j = choose|j: int|
                #[trigger] tagline_candidate(rest, j, f2) && t == trim(rest[j]) && forall|k: int|
                    0 <= k < j ==> !tagline_candidate(rest, k, f2);
            assert(tagline_candidate(ls, j + 1, found));
            assert(ls[j + 1] == rest[j]);
            assert forall|k: int| 0 <= k < j + 1 implies !tagline_candidate(ls, k, found) by {
                if k > 0 {
                    assert(tagline_candidate(ls, (k - 1) + 1, found) == tagline_candidate(rest, k - 1, f2));
                }
            }
        },
        None => {
            assert forall|j: int| !#[trigger] tagline_candidate(ls, j, found) by {
                if 0 < j < ls.len() {
                    assert(tagline_candidate(ls, (j - 1) + 1, found) == tagline_candidate(rest, j - 1, f2));
                }
            }
        },
    }
}

/// The README tagline is the first trimmed line of the README that is not empty,
/// does not start with `#`, and comes after some tagline heading; there is none
/// when no line is like that. Blank lines and other lines in between do not
/// matter.
pub proof fn law_readme_tagline_first_candidate(content: Seq<char>)
    ensures
        match readme_tagline(content) {
            Some(t) => exists|j: int|
                #[trigger] tagline_candidate(split_lines(content), j, false) && t == trim(
                    split_lines(content)[j],
                ) && forall|k: int| 0 <= k < j ==> !tagline_candidate(split_lines(content), k, false),
            None => forall|j: int| !#[trigger] tagline_candidate(split_lines(content), j, false),
        },
{
    lemma_tagline_first_candidate(split_lines(content), false);
}

// ---------------------------------------------------------------------------
// PDF title order
// ---------------------------------------------------------------------------

/// The title as found in an entry: the raw text cleaned, none when that is empty.
pub open spec fn title_from(raw: Seq<char>) -> Option<Seq<char>> {
    if cleaned_title(raw).len() > 0 {
        Some(cleaned_title(raw))
    } else {
        None
    }
}

/// The PDF title sources are tried in order: a `/Title (...)` entry decides the
/// title whatever else the text holds; without one, a `<dc:title>` element does;
/// without either, a `<title>` element; with none of them there is no title.
pub proof fn law_pdf_title_order(text: Seq<char>)
    ensures
        match (
            between(text, "/Title ("@, ")"@),
            between(text, "<dc:title>"@, "</dc:title>"@),
            between(text, "<title>"@, "</title>"@),
        ) {
            (Some(x), _, _) => pdf_title(text) == title_from(x),
            (None, Some(x), _) => pdf_title(text) == title_from(x),
            (None, None, Some(x)) => pdf_title(text) == title_from(x),
            (None, None, None) => pdf_title(text) is None,
        },
{
}

// ---------------------------------------------------------------------------
// Modification times as numbers
// ---------------------------------------------------------------------------

/// `s` consists of decimal digits only.
pub open spec fn all_digits(s: Seq<char>) -> bool {
    forall|i: int| 0 <= i < s.len() ==> '0' <= #[trigger] s[i] && s[i] <= '9'
}

/// The number that the decimal digits `s` denote.
pub open spec fn digits_value(s: Seq<char>) -> int
    decreases s.len(),
{
    if s.len() == 0 {
        0
    } else {
        digits_value(s.drop_last()) * 10 + (s.last() as int - '0' as int)
    }
}

proof fn lemma_decimal_value(n: nat)
    ensures
        decimal(n).len() > 0,
        all_digits(decimal(n)),
        digits_value(decimal(n)) == n,
        decimal(n)[0] == '0' ==> n == 0,
    decreases n,
{
    if n < 10 {
        let d = decimal(n);
        assert(d == seq![digit_char(n)]);
        assert(d.drop_last() =~= Seq::<char>::empty());
        assert(digits_value(d.drop_last()) == 0);
        assert(d.last() == digit_char(n));
        assert(digit_char(n) as int - '0' as int == n);
        assert(digits_value(d) == digits_value(d.drop_last()) * 10 + (d.last() as int - '0' as int));
    } else {
        lemma_decimal_value(n / 10);
        let d = decimal(n);
        let hi = decimal(n / 10);
        assert(d == hi + seq![digit_char(n % 10)]);
        assert(d.drop_last() =~= hi);
        assert(digit_char((n % 10) as nat) as int - '0' as int == n % 10);
        assert(d.last() == digit_char((n % 10) as nat));
        assert(digits_value(d) == digits_value(hi) * 10 + (n % 10));
        assert forall|i: int| 0 <= i < d.len() implies '0' <= #[trigger] d[i] && d[i] <= '9' by {
            if i < hi.len() {
                assert(d[i] == hi[i]);
            }
        }
        assert(d[0] == hi[0]);
    }
}

/// A known modification time at or after the epoch is shown as the whole number
/// of seconds since the epoch, in decimal digits without leading zeros,
/// followed by `s`; an unknown time or one before the epoch as `-`.
pub proof fn law_modified_time_seconds(time: Option<i128>)
    ensures
        match time {
            Some(t) => if t >= 0 {
                let text = modified_text(time);
                &&& text.len() >= 2
                &&& text.last() == 's'
                &&& all_digits(text.drop_last())
                &&& digits_value(text.drop_last()) == t / 1_000_000_000
                &&& (text[0] == '0' ==> text.len() == 2)
            } else {
                modified_text(time) == seq!['-']
            },
            None => modified_text(time) == seq!['-'],
        },
{
    if let Some(t) = time {
        if t >= 0 {
            let n = (t / 1_000_000_000) as nat;
            lemma_decimal_value(n);
            let text = modified_text(time);
            assert(text == decimal(n) + seq!['s']);
            assert(text.drop_last() =~= decimal(n));
            assert(text[0] == decimal(n)[0]);
            if n == 0 {
                assert(decimal(0) == seq![digit_char(0)]);
            }
        }
    }
}

} // verus!
