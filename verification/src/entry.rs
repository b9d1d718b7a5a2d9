use vstd::prelude::*;

use crate::gitignore::{pattern_matches, GitignoreRules};
use crate::text::{
    chars_of, decimal, digit, digit_char, push_decimal, starts_with, string_from_chars,
};

verus! {

// ---------------------------------------------------------------------------
// Entries
// ---------------------------------------------------------------------------

/// The kind of a directory entry, as its own metadata tells it.
#[derive(Debug, Clone, Copy, PartialEq, Eq, Structural)]
pub enum EntryKind {
    Dir,
    File,
    Other,
}

/// Metadata for a single directory entry, including optional extended info.
///
/// `modified` is the modification time in nanoseconds relative to the Unix epoch
/// (negative before it), or `None` when the platform cannot report it.
#[derive(Debug)]
pub struct FileInfo {
    pub name: String,
    pub kind: EntryKind,
    pub size: u64,
    pub modified: Option<i128>,
    pub extension_info: Option<String>,
}

/// A name is hidden when it starts with a dot.
pub open spec fn hidden_name(name: Seq<char>) -> bool {
    starts_with(name, seq!['.'])
}

/// Returns `true` if `name` starts with a dot, per Unix hidden-file convention.
pub fn is_hidden_file(name: &str) -> (res: bool)
    ensures
        res == hidden_name(name@),
{
    let chars = chars_of(name);
    let res = chars.len() > 0 && chars[0] == '.';
    proof {
        if chars@.len() > 0 {
            assert(chars@.subrange(0, 1) =~= seq![chars@[0]]);
            if chars@[0] == '.' {
                assert(chars@.subrange(0, 1) =~= seq!['.']);
            } else {
                assert(chars@.subrange(0, 1)[0] != seq!['.'][0]);
            }
        }
    }
    res
}

/// An entry is left out of the listing: a hidden one unless hidden files are
/// shown, or one that a `.gitignore` pattern matches.
pub open spec fn skipped(name: Seq<char>, is_dir: bool, show_hidden: bool, rules: Seq<Seq<char>>) -> bool {
    (!show_hidden && hidden_name(name)) || exists|i: int|
        0 <= i < rules.len() && #[trigger] pattern_matches(rules[i], name, is_dir)
}

/// Returns `true` if the entry `name` should be excluded from output: a hidden
/// file when `show_hidden` is false, or an entry matched by `.gitignore` rules;
/// `is_dir` tells whether the entry is a directory.
pub fn should_skip_entry(name: &str, is_dir: bool, show_hidden: bool, rules: &GitignoreRules) -> (res: bool)
    ensures
        res == skipped(name@, is_dir, show_hidden, rules.pattern_views()),
{
    let hidden = !show_hidden && is_hidden_file(name);
    let ignored = rules.is_ignored(name, is_dir);
    proof {
        let pv = rules.pattern_views();
        if ignored {
            let i = choose|i: int| 0 <= i < rules.patterns@.len() && #[trigger] pattern_matches(
                rules.patterns@[i]@, name@, is_dir);
            assert(pv[i] == rules.patterns@[i]@);
        }
        if exists|i: int| 0 <= i < pv.len() && #[trigger] pattern_matches(pv[i], name@, is_dir) {
            let i = choose|i: int| 0 <= i < pv.len() && #[trigger] pattern_matches(pv[i], name@, is_dir);
            assert(pv[i] == rules.patterns@[i]@);
        }
    }
    hidden || ignored
}

/// The short label for an entry kind.
pub open spec fn kind_label(kind: EntryKind) -> Seq<char> {
    match kind {
        EntryKind::Dir => "dir"@,
        EntryKind::File => "file"@,
        EntryKind::Other => "etc"@,
    }
}

/// Returns a short label describing the entry kind: `dir`, `file`, or `etc`.
pub fn file_kind_label(kind: EntryKind) -> (res: &'static str)
    ensures
        res@ == kind_label(kind),
{
    match kind {
        EntryKind::Dir => "dir",
        EntryKind::File => "file",
        EntryKind::Other => "etc",
    }
}

// ---------------------------------------------------------------------------
// Modification times
// ---------------------------------------------------------------------------

/// A modification time in whole seconds since the epoch followed by `s`, or `-`
/// when it is unknown or before the epoch.
pub open spec fn modified_text(time: Option<i128>) -> Seq<char> {
    match time {
        Some(t) => if t >= 0 {
            decimal((t / 1_000_000_000) as nat) + seq!['s']
        } else {
            seq!['-']
        },
        None => seq!['-'],
    }
}

/// Formats a modification time (nanoseconds since the Unix epoch) as seconds
/// since the epoch, or `"-"` when the time is unavailable or before the epoch.
pub fn format_modified_time(time: Option<i128>) -> (res: String)
    ensures
        res@ == modified_text(time),
{
    let mut out: Vec<char> = Vec::new();
    match time {
        Some(t) => {
            if t >= 0 {
                let secs: u128 = (t / 1_000_000_000) as u128;
                push_decimal(&mut out, secs);
                out.push('s');
            } else {
                out.push('-');
            }
        },
        None => {
            out.push('-');
        },
    }
    assert(out@ =~= modified_text(time));
    string_from_chars(&out)
}

// ---------------------------------------------------------------------------
// Sizes for humans
// ---------------------------------------------------------------------------

/// The spacing of the `f64` values around `n` (for `n < 2^64`): 1 below 2^53,
/// doubling at each further power of two.
pub open spec fn f64_spacing(n: nat) -> nat {
    if n < 0x20_0000_0000_0000 { 1 }
    else if n < 0x40_0000_0000_0000 { 2 }
    else if n < 0x80_0000_0000_0000 { 4 }
    else if n < 0x100_0000_0000_0000 { 8 }
    else if n < 0x200_0000_0000_0000 { 16 }
    else if n < 0x400_0000_0000_0000 { 32 }
    else if n < 0x800_0000_0000_0000 { 64 }
    else if n < 0x1000_0000_0000_0000 { 128 }
    else if n < 0x2000_0000_0000_0000 { 256 }
    else if n < 0x4000_0000_0000_0000 { 512 }
    else if n < 0x8000_0000_0000_0000 { 1024 }
    else { 2048 }
}

/// The `f64` nearest to `n` (`n as f64`): `n` rounded to a multiple of the
/// spacing, a tie going to the even multiple.
pub open spec fn nearest_f64(n: nat) -> nat {
    let d = f64_spacing(n);
    let r = n % d;
    if 2 * r > d || (2 * r == d && (n / d) % 2 == 1) {
        (n - r + d) as nat
    } else {
        (n - r) as nat
    }
}

/// The number of times 1024 divides into `v` while a larger unit is left.
pub open spec fn unit_index(v: nat) -> nat {
    if v >= 0x100_0000_0000 { 4 }
    else if v >= 0x4000_0000 { 3 }
    else if v >= 0x10_0000 { 2 }
    else if v >= 0x400 { 1 }
    else { 0 }
}

/// 1024 to the power `k`.
pub open spec fn unit_divisor(k: nat) -> nat {
    if k == 0 { 1 }
    else if k == 1 { 0x400 }
    else if k == 2 { 0x10_0000 }
    else if k == 3 { 0x4000_0000 }
    else { 0x100_0000_0000 }
}

/// The name of unit `k`.
pub open spec fn unit_name(k: nat) -> Seq<char> {
    if k == 0 { "B"@ }
    else if k == 1 { "KB"@ }
    else if k == 2 { "MB"@ }
    else if k == 3 { "GB"@ }
    else { "TB"@ }
}

/// `v / 1024^k` in tenths, rounded to the nearest tenth, a tie going to the even
/// one.
pub open spec fn rounded_tenths(v: nat, k: nat) -> nat {
    let d = unit_divisor(k);
    let t = (10 * v) / d;
    let r = (10 * v) % d;
    if 2 * r > d || (2 * r == d && t % 2 == 1) {
        t + 1
    } else {
        t
    }
}

/// A byte count for humans, computed as in `f64` arithmetic: the size is
/// converted to the nearest `f64`, divided by 1024 (exactly) while it is at least
/// 1024 and a larger unit is left, and shown with one decimal; sizes below 1024
/// are shown as whole bytes.
pub open spec fn size_text(size: u64) -> Seq<char> {
    let v = nearest_f64(size as nat);
    let k = unit_index(v);
    if k == 0 {
        decimal(size as nat) + "B"@
    } else {
        let t = rounded_tenths(v, k);
        decimal(t / 10) + seq!['.', digit_char(t % 10)] + unit_name(k)
    }
}

fn spacing(n: u128) -> (d: u128)
    requires
        n < 0x1_0000_0000_0000_0000,
    ensures
        d == f64_spacing(n as nat),
{
    if n < 0x20_0000_0000_0000 { 1 }
    else if n < 0x40_0000_0000_0000 { 2 }
    else if n < 0x80_0000_0000_0000 { 4 }
    else if n < 0x100_0000_0000_0000 { 8 }
    else if n < 0x200_0000_0000_0000 { 16 }
    else if n < 0x400_0000_0000_0000 { 32 }
    else if n < 0x800_0000_0000_0000 { 64 }
    else if n < 0x1000_0000_0000_0000 { 128 }
    else if n < 0x2000_0000_0000_0000 { 256 }
    else if n < 0x4000_0000_0000_0000 { 512 }
    else if n < 0x8000_0000_0000_0000 { 1024 }
    else { 2048 }
}

/// Converts a raw byte count to a human-readable string, with binary prefixes
/// (1 KB = 1024 B) and one decimal for every unit above bytes.
pub fn human_readable_size(size: u64) -> (res: String)
    ensures
        res@ == size_text(size),
{
    let n: u128 = size as u128;
    let d = spacing(n);
    let r = n % d;
    let v: u128 = if 2 * r > d || (2 * r == d && (n / d) % 2 == 1) {
        n - r + d
    } else {
        n - r
    };
    assert(v == nearest_f64(size as nat));
    let mut out: Vec<char> = Vec::new();
    let (k, div): (u128, u128) = if v >= 0x100_0000_0000 {
        (4, 0x100_0000_0000)
    } else if v >= 0x4000_0000 {
        (3, 0x4000_0000)
    } else if v >= 0x10_0000 {
        (2, 0x10_0000)
    } else if v >= 0x400 {
        (1, 0x400)
    } else {
        (0, 1)
    };
    assert(k == unit_index(v as nat) && div == unit_divisor(k as nat));
    if k == 0 {
        push_decimal(&mut out, n);
        out.push('B');
        proof {
            reveal_strlit("B");
        }
        assert(out@ =~= size_text(size));
        return string_from_chars(&out);
    }
    let t0 = (10 * v) / div;
    let rem = (10 * v) % div;
    let t = if 2 * rem > div || (2 * rem == div && t0 % 2 == 1) {
        t0 + 1
    } else {
        t0
    };
    assert(t == rounded_tenths(v as nat, k as nat));
    push_decimal(&mut out, t / 10);
    out.push('.');
    out.push(digit(t % 10));
    if k == 1 {
        out.push('K');
    } else if k == 2 {
        out.push('M');
    } else if k == 3 {
        out.push('G');
    } else {
        out.push('T');
    }
    out.push('B');
    proof {
        reveal_strlit("KB");
        reveal_strlit("MB");
        reveal_strlit("GB");
        reveal_strlit("TB");
    }
    assert(out@ =~= size_text(size));
    string_from_chars(&out)
}

// ---------------------------------------------------------------------------
// Output lines
// ---------------------------------------------------------------------------

/// `n` spaces.
pub open spec fn spaces(n: nat) -> Seq<char> {
    Seq::new(n, |i: int| ' ')
}

/// `s` padded with spaces on the right to at least `width` characters
/// (as `{:<width}`).
pub open spec fn pad_right(s: Seq<char>, width: nat) -> Seq<char> {
    if s.len() >= width {
        s
    } else {
        s + spaces((width - s.len()) as nat)
    }
}

/// `s` padded with spaces on the left to at least `width` characters
/// (as `{:>width}`).
pub open spec fn pad_left(s: Seq<char>, width: nat) -> Seq<char> {
    if s.len() >= width {
        s
    } else {
        spaces((width - s.len()) as nat) + s
    }
}

/// The extension info as shown after the name: two spaces and the text, or
/// nothing.
pub open spec fn info_suffix(info: Option<Seq<char>>) -> Seq<char> {
    match info {
        Some(t) => "  "@ + t,
        None => seq![],
    }
}

/// The long-format line of an entry: kind, size, modification time, name and
/// extension info.
pub open spec fn long_line(file: FileInfo) -> Seq<char> {
    pad_right(kind_label(file.kind), 3) + seq![' '] + pad_left(size_text(file.size), 8) + seq![' ']
        + pad_right(modified_text(file.modified), 14) + seq![' '] + file.name@ + info_suffix(
        match file.extension_info {
            Some(t) => Some(t@),
            None => None,
        },
    )
}

fn push_spaces(out: &mut Vec<char>, n: usize)
    ensures
        final(out)@ == old(out)@ + spaces(n as nat),
{
    let mut i: usize = 0;
    while i < n
        invariant
            i <= n,
            out@ == old(out)@ + spaces(i as nat),
        decreases n - i,
    {
        out.push(' ');
        assert(out@ =~= old(out)@ + spaces((i + 1) as nat));
        i = i + 1;
    }
}

fn push_padded(out: &mut Vec<char>, s: &Vec<char>, width: usize, left: bool)
    ensures
        final(out)@ == old(out)@ + if left {
            pad_left(s@, width as nat)
        } else {
            pad_right(s@, width as nat)
        },
{
    if left && s.len() < width {
        push_spaces(out, width - s.len());
    }
    crate::text::extend_chars(out, s);
    if !left && s.len() < width {
        push_spaces(out, width - s.len());
    }
    assert(out@ =~= old(out)@ + if left {
        pad_left(s@, width as nat)
    } else {
        pad_right(s@, width as nat)
    });
}

/// Formats a single entry in long format: kind, size, modified time, name, and
/// any extension info.
pub fn format_long_line(file: &FileInfo) -> (res: String)
    ensures
        res@ == long_line(*file),
{
    let mut out: Vec<char> = Vec::new();
    push_padded(&mut out, &chars_of(file_kind_label(file.kind)), 3, false);
    out.push(' ');
    push_padded(&mut out, &chars_of(human_readable_size(file.size).as_str()), 8, true);
    out.push(' ');
    push_padded(&mut out, &chars_of(format_modified_time(file.modified).as_str()), 14, false);
    out.push(' ');
    crate::text::extend_chars(&mut out, &chars_of(file.name.as_str()));
    match &file.extension_info {
        Some(t) => {
            crate::text::extend_chars(&mut out, &chars_of("  "));
            crate::text::extend_chars(&mut out, &chars_of(t.as_str()));
        },
        None => {},
    }
    assert(out@ =~= long_line(*file));
    string_from_chars(&out)
}

/// The line printed for an entry: the long-format line, or the name alone.
pub open spec fn entry_line(file: FileInfo, long_format: bool) -> Seq<char> {
    if long_format {
        long_line(file)
    } else {
        file.name@
    }
}

/// Formats an entry, one line per entry, using long format when requested.
pub fn format_file(file: &FileInfo, long_format: bool) -> (res: String)
    ensures
        res@ == entry_line(*file, long_format),
{
    if long_format {
        format_long_line(file)
    } else {
        file.name.clone()
    }
}

} // verus!
