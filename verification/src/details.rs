use vstd::prelude::*;

use crate::text::{
    chars_of, char_views, contains, find, find_from_exec, lines_of, lowercase,
    replace_all, replace_chars, split_lines, starts_with, string_from_chars, sub_chars,
    to_lowercase, trim, trim_chars, lemma_find_from_skip, lemma_find_from,
};

verus! {

// ---------------------------------------------------------------------------
// README taglines
// ---------------------------------------------------------------------------

/// A (trimmed) line is a Markdown heading that mentions "tagline", in any case.
pub open spec fn tagline_heading(line: Seq<char>) -> bool {
    starts_with(line, seq!['#']) && contains(lowercase(line), "tagline"@)
}

/// Returns `true` if `line` is a Markdown heading containing "tagline"
/// (case-insensitive).
pub fn is_tagline_heading(line: &str) -> (res: bool)
    ensures
        res == tagline_heading(line@),
{
    let chars = chars_of(line);
    if chars.len() == 0 || chars[0] != '#' {
        proof {
            if chars@.len() > 0 {
                assert(chars@.subrange(0, 1)[0] == chars@[0]);
            }
        }
        return false;
    }
    assert(chars@.subrange(0, 1) =~= seq!['#']);
    let lower = to_lowercase(line);
    contains_tagline(lower.as_str())
}

/// Returns `true` if the (already lower-cased) text `lowered` contains the word
/// "tagline".
pub fn contains_tagline(lowered: &str) -> (res: bool)
    ensures
        res == contains(lowered@, "tagline"@),
{
    let chars = chars_of(lowered);
    let word = chars_of("tagline");
    find_from_exec(&chars, &word, 0).is_some()
}

/// The first non-empty, non-heading line after a tagline heading, scanning the
/// trimmed lines `ls`; `found` tells whether such a heading came before them.
pub open spec fn tagline_after(ls: Seq<Seq<char>>, found: bool) -> Option<Seq<char>>
    decreases ls.len(),
{
    if ls.len() == 0 {
        None
    } else {
        let t = trim(ls[0]);
        if found && t.len() > 0 && t[0] != '#' {
            Some(t)
        } else {
            tagline_after(ls.drop_first(), found || tagline_heading(t))
        }
    }
}

/// The tagline of a README: the first non-empty line not starting with `#` that
/// follows (after trimming) the first tagline heading.
pub open spec fn readme_tagline(content: Seq<char>) -> Option<Seq<char>> {
    tagline_after(split_lines(content), false)
}

/// Returns the first non-empty, non-heading line that follows a tagline heading
/// in `content`.
pub fn extract_readme_tagline(content: &str) -> (res: Option<String>)
    ensures
        match res {
            Some(t) => readme_tagline(content@) == Some(t@),
            None => readme_tagline(content@) is None,
        },
{
    let chars = chars_of(content);
    let lines = lines_of(&chars);
    let ghost ls = char_views(lines@);
    let mut found = false;
    let mut i: usize = 0;
    assert(ls.skip(0) =~= ls);
    while i < lines.len()
        invariant
            i <= lines@.len(),
            ls == char_views(lines@),
            ls == split_lines(content@),
            tagline_after(ls, false) == tagline_after(ls.skip(i as int), found),
        decreases lines@.len() - i,
    {
        let t = trim_chars(&lines[i]);
        proof {
            assert(ls.skip(i as int)[0] == lines@[i as int]@);
            assert(ls.skip(i as int).drop_first() =~= ls.skip(i + 1));
        }
        if found && t.len() > 0 && t[0] != '#' {
            return Some(string_from_chars(&t));
        }
        let t_string = string_from_chars(&t);
        if is_tagline_heading(t_string.as_str()) {
            found = true;
        }
        i = i + 1;
    }
    assert(ls.skip(i as int) =~= Seq::<Seq<char>>::empty());
    None
}

// ---------------------------------------------------------------------------
// PDF files
// ---------------------------------------------------------------------------

/// The last index of `c` in `s`.
pub open spec fn last_index_of(s: Seq<char>, c: char) -> Option<int>
    decreases s.len(),
{
    if s.len() == 0 {
        None
    } else if s.last() == c {
        Some(s.len() - 1)
    } else {
        last_index_of(s.drop_last(), c)
    }
}

/// The extension of a file name, as `Path::extension`: what follows the last
/// `.`, unless there is none, the name starts with its only `.`, or the name is
/// `..`.
pub open spec fn file_extension(name: Seq<char>) -> Option<Seq<char>> {
    if name == seq!['.', '.'] {
        None
    } else {
        match last_index_of(name, '.') {
            Some(k) => if k == 0 { None } else { Some(name.skip(k + 1)) },
            None => None,
        }
    }
}

/// `e` is `pdf` ignoring ASCII case.
pub open spec fn is_pdf_extension(e: Seq<char>) -> bool {
    &&& e.len() == 3
    &&& (e[0] == 'p' || e[0] == 'P')
    &&& (e[1] == 'd' || e[1] == 'D')
    &&& (e[2] == 'f' || e[2] == 'F')
}

/// The file name has a `.pdf` extension, in any ASCII case.
pub open spec fn pdf_name(name: Seq<char>) -> bool {
    match file_extension(name) {
        Some(e) => is_pdf_extension(e),
        None => false,
    }
}

/// Returns `true` if the file `name` has a `.pdf` extension (case-insensitive).
pub fn is_pdf(name: &str) -> (res: bool)
    ensures
        res == pdf_name(name@),
{
    let s = chars_of(name);
    let n = s.len();
    if n == 2 && s[0] == '.' && s[1] == '.' {
        assert(s@ =~= seq!['.', '.']);
        return false;
    }
    assert(s@ != seq!['.', '.']) by {
        if s@ == seq!['.', '.'] {
            assert(s@.len() == 2 && s@[0] == '.' && s@[1] == '.');
        }
    }
    let mut k = n;
    assert(s@.take(n as int) =~= s@);
    while k > 0 && s[k - 1] != '.'
        invariant
            k <= n == s@.len(),
            last_index_of(s@, '.') == last_index_of(s@.take(k as int), '.'),
        decreases k,
    {
        assert(s@.take(k as int).drop_last() =~= s@.take(k - 1));
        k = k - 1;
    }
    if k == 0 {
        assert(s@.take(0) =~= Seq::<char>::empty());
        return false;
    }
    assert(last_index_of(s@.take(k as int), '.') == Some(k - 1));
    if k == 1 {
        return false;
    }
    proof {
        assert(s@.skip(k as int).len() == n - k);
    }
    if n - k != 3 {
        return false;
    }
    assert(s@.skip(k as int)[0] == s@[k as int]);
    assert(s@.skip(k as int)[1] == s@[k + 1]);
    assert(s@.skip(k as int)[2] == s@[k + 2]);
    (s[k] == 'p' || s[k] == 'P') && (s[k + 1] == 'd' || s[k + 1] == 'D') && (s[k + 2] == 'f'
        || s[k + 2] == 'F')
}

/// The text strictly between the first occurrence of `start` in `text` and the
/// next occurrence of `end` after it.
pub open spec fn between(text: Seq<char>, start: Seq<char>, end: Seq<char>) -> Option<Seq<char>> {
    match find(text, start) {
        Some(i) => {
            let rest = text.skip(i + start.len());
            match find(rest, end) {
                Some(j) => Some(rest.take(j)),
                None => None,
            }
        },
        None => None,
    }
}

fn between_chars(text: &Vec<char>, start: &Vec<char>, end: &Vec<char>) -> (res: Option<Vec<char>>)
    ensures
        match res {
            Some(r) => between(text@, start@, end@) == Some(r@),
            None => between(text@, start@, end@) is None,
        },
{
    match find_from_exec(text, start, 0) {
        None => None,
        Some(i) => {
            proof {
                lemma_find_from(text@, start@, 0);
            }
            assert(i + start@.len() <= text@.len());
            assert(text@.len() == text.len());
            let from = i + start.len();
            let found = find_from_exec(text, end, from);
            proof {
                lemma_find_from_skip(text@, end@, from as int);
                lemma_find_from(text@, end@, from as int);
            }
            match found {
                None => None,
                Some(j) => {
                    let r = sub_chars(text, from, j);
                    assert(text@.skip(from as int).take(j - from) =~= r@);
                    Some(r)
                },
            }
        },
    }
}

/// Returns the substring of `text` strictly between the first occurrence of
/// `start` and the following occurrence of `end`.
pub fn extract_between(text: &str, start: &str, end: &str) -> (res: Option<String>)
    ensures
        match res {
            Some(r) => between(text@, start@, end@) == Some(r@),
            None => between(text@, start@, end@) is None,
        },
{
    let t = chars_of(text);
    let s = chars_of(start);
    let e = chars_of(end);
    match between_chars(&t, &s, &e) {
        Some(r) => Some(string_from_chars(&r)),
        None => None,
    }
}

/// A raw PDF title with the string escapes `\(`, `\)` and `\\` undone (in that
/// order) and surrounding white space trimmed.
pub open spec fn cleaned_title(title: Seq<char>) -> Seq<char> {
    trim(
        replace_all(
            replace_all(replace_all(title, "\\("@, "("@), "\\)"@, ")"@),
            "\\\\"@,
            "\\"@,
        ),
    )
}

/// Unescapes PDF string escapes (`\(`, `\)`, `\\`) and trims whitespace.
pub fn clean_pdf_title(title: String) -> (res: String)
    ensures
        res@ == cleaned_title(title@),
{
    let t = chars_of(title.as_str());
    let r = clean_title_chars(&t);
    string_from_chars(&r)
}

fn clean_title_chars(t: &Vec<char>) -> (res: Vec<char>)
    ensures
        res@ == cleaned_title(t@),
{
    let open_esc = chars_of("\\(");
    let open = chars_of("(");
    let close_esc = chars_of("\\)");
    let close = chars_of(")");
    let back_esc = chars_of("\\\\");
    let back = chars_of("\\");
    proof {
        reveal_strlit("\\(");
        reveal_strlit("\\)");
        reveal_strlit("\\\\");
    }
    let a = replace_chars(t, &open_esc, &open);
    let b = replace_chars(&a, &close_esc, &close);
    let c = replace_chars(&b, &back_esc, &back);
    trim_chars(&c)
}

/// The title of a PDF read as text: the `/Title (...)` info entry, else the
/// Dublin Core `<dc:title>`, else an HTML-style `<title>`, cleaned; none when
/// no such entry exists or the cleaned title is empty.
pub open spec fn pdf_title(text: Seq<char>) -> Option<Seq<char>> {
    let raw = match between(text, "/Title ("@, ")"@) {
        Some(x) => Some(x),
        None => match between(text, "<dc:title>"@, "</dc:title>"@) {
            Some(x) => Some(x),
            None => between(text, "<title>"@, "</title>"@),
        },
    };
    match raw {
        Some(x) => if cleaned_title(x).len() > 0 {
            Some(cleaned_title(x))
        } else {
            None
        },
        None => None,
    }
}

/// Extracts a PDF title from raw PDF bytes decoded as text, trying the
/// `/Title (...)` info dictionary entry, then Dublin Core `<dc:title>`, then
/// HTML-style `<title>`, in that order.
pub fn extract_pdf_title(text: &str) -> (res: Option<String>)
    ensures
        match res {
            Some(r) => pdf_title(text@) == Some(r@),
            None => pdf_title(text@) is None,
        },
{
    let t = chars_of(text);
    let raw = match between_chars(&t, &chars_of("/Title ("), &chars_of(")")) {
        Some(x) => Some(x),
        None => match between_chars(&t, &chars_of("<dc:title>"), &chars_of("</dc:title>")) {
            Some(x) => Some(x),
            None => between_chars(&t, &chars_of("<title>"), &chars_of("</title>")),
        },
    };
    match raw {
        Some(x) => {
            let c = clean_title_chars(&x);
            if c.len() > 0 {
                Some(string_from_chars(&c))
            } else {
                None
            }
        },
        None => None,
    }
}

// ---------------------------------------------------------------------------
// Extension info
// ---------------------------------------------------------------------------

/// Where an entry's extension info comes from.
#[derive(Debug, Clone, Copy, PartialEq, Eq)]
pub enum InfoSource {
    /// A directory: the tagline of its `README.md`.
    Readme,
    /// A PDF file: its title.
    Pdf,
    /// No extension info.
    Nothing,
}

/// Decides where the extension info of an entry comes from: a README tagline
/// for directories, a title for PDF files, nothing otherwise.
pub fn extension_source(is_dir: bool, name: &str) -> (res: InfoSource)
    ensures
        res == (if is_dir {
            InfoSource::Readme
        } else if pdf_name(name@) {
            InfoSource::Pdf
        } else {
            InfoSource::Nothing
        }),
{
    if is_dir {
        InfoSource::Readme
    } else if is_pdf(name) {
        InfoSource::Pdf
    } else {
        InfoSource::Nothing
    }
}

/// The extension info for an entry, given the text read from its source (the
/// README for a directory, the PDF decoded as text for a PDF; `None` when it
/// could not be read).
pub open spec fn extension_info(source: InfoSource, content: Option<Seq<char>>) -> Option<Seq<char>> {
    match (source, content) {
        (InfoSource::Readme, Some(c)) => match readme_tagline(c) {
            Some(t) => Some("README: "@ + t),
            None => None,
        },
        (InfoSource::Pdf, Some(c)) => match pdf_title(c) {
            Some(t) => Some("PDF: "@ + t),
            None => None,
        },
        _ => None,
    }
}

/// Builds the extra descriptive info for an entry from the text of its source:
/// a README tagline for directories, or a title for PDF files.
pub fn find_extension_info(source: InfoSource, content: Option<&str>) -> (res: Option<String>)
    ensures
        match res {
            Some(r) => extension_info(source, match content {
                Some(c) => Some(c@),
                None => None,
            }) == Some(r@),
            None => extension_info(source, match content {
                Some(c) => Some(c@),
                None => None,
            }) is None,
        },
{
    match (source, content) {
        (InfoSource::Readme, Some(c)) => match extract_readme_tagline(c) {
            Some(t) => {
                let mut r = String::from_str("README: ");
                r.append(t.as_str());
                Some(r)
            },
            None => None,
        },
        (InfoSource::Pdf, Some(c)) => match extract_pdf_title(c) {
            Some(t) => {
                let mut r = String::from_str("PDF: ");
                r.append(t.as_str());
                Some(r)
            },
            None => None,
        },
        _ => None,
    }
}

} // verus!
