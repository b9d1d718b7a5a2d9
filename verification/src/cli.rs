use vstd::prelude::*;

use crate::text::{chars_of, string_from_chars};

verus! {

/// Determines how entries are ordered in the output.
#[derive(Debug, Clone, Copy, PartialEq, Eq, Structural)]
pub enum SortKey {
    Name,
    Size,
    Modified,
}

/// Runtime configuration parsed from command-line arguments.
#[derive(Debug)]
pub struct Config {
    pub path: String,
    pub show_hidden: bool,
    pub long_format: bool,
    pub sort_key: SortKey,
}

/// A shell for which a completion script can be written.
#[derive(Debug, Clone, Copy, PartialEq, Eq, Structural)]
pub enum Shell {
    Bash,
    Zsh,
    Fish,
    PowerShell,
    Elvish,
}

/// Why the arguments do not describe a listing: either a request that is
/// answered with a text instead (help, version, completion script), or an error.
#[derive(Debug, PartialEq, Eq)]
pub enum ArgsError {
    /// `--help` or `-h` was given: the usage text is to be shown.
    HelpRequested,
    /// `--version` or `-V` was given: the version is to be shown.
    VersionRequested,
    /// `--completions <SHELL>` was given: the completion script is to be shown.
    CompletionsRequested(Shell),
    /// More than one path was given.
    TooManyPaths,
    /// Two different sort options among `-s`, `-t`, `-n` (or their long forms)
    /// were given.
    ConflictingSortFlags,
    /// A short option held a flag character that is not known.
    UnknownOption(char),
    /// A long option (starting with `--`) that is not known.
    UnknownLongOption(String),
    /// `--completions` was given without a shell name.
    MissingShell,
    /// `--completions` was given a name that is not a known shell.
    UnknownShell(String),
}

/// [`ArgsError`] with its texts as character sequences.
pub enum ArgsErrorView {
    HelpRequested,
    VersionRequested,
    CompletionsRequested(Shell),
    TooManyPaths,
    ConflictingSortFlags,
    UnknownOption(char),
    UnknownLongOption(Seq<char>),
    MissingShell,
    UnknownShell(Seq<char>),
}

impl View for ArgsError {
    type V = ArgsErrorView;

    open spec fn view(&self) -> ArgsErrorView {
        match self {
            ArgsError::HelpRequested => ArgsErrorView::HelpRequested,
            ArgsError::VersionRequested => ArgsErrorView::VersionRequested,
            ArgsError::CompletionsRequested(sh) => ArgsErrorView::CompletionsRequested(*sh),
            ArgsError::TooManyPaths => ArgsErrorView::TooManyPaths,
            ArgsError::ConflictingSortFlags => ArgsErrorView::ConflictingSortFlags,
            ArgsError::UnknownOption(c) => ArgsErrorView::UnknownOption(*c),
            ArgsError::UnknownLongOption(s) => ArgsErrorView::UnknownLongOption(s@),
            ArgsError::MissingShell => ArgsErrorView::MissingShell,
            ArgsError::UnknownShell(s) => ArgsErrorView::UnknownShell(s@),
        }
    }
}

/// The option flags: show hidden files, long format, and the sort key if a sort
/// option has been given.
pub type Flags = (bool, bool, Option<SortKey>);

/// The sort key a flag character selects, if it is a sort flag.
pub open spec fn sort_flag(c: char) -> Option<SortKey> {
    if c == 's' {
        Some(SortKey::Size)
    } else if c == 't' {
        Some(SortKey::Modified)
    } else if c == 'n' {
        Some(SortKey::Name)
    } else {
        None
    }
}

/// The flags after one flag character: `a` shows hidden files, `l` selects the
/// long format, `s`, `t`, `n` select the sort key, and selecting a different
/// one from a key already selected is an error (repeating the same one is not);
/// any other character is unknown.
pub open spec fn flag_step(c: char, st: Flags) -> Result<Flags, ArgsErrorView> {
    if c == 'a' {
        Ok((true, st.1, st.2))
    } else if c == 'l' {
        Ok((st.0, true, st.2))
    } else if sort_flag(c) is Some {
        if st.2 is Some && st.2 != sort_flag(c) {
            Err(ArgsErrorView::ConflictingSortFlags)
        } else {
            Ok((st.0, st.1, sort_flag(c)))
        }
    } else {
        Err(ArgsErrorView::UnknownOption(c))
    }
}

/// Applies the flag characters in order: the flags reached, and the error at
/// which applying stopped, if there is one.
pub open spec fn apply_flags(flags: Seq<char>, st: Flags) -> (Flags, Option<ArgsErrorView>)
    decreases flags.len(),
{
    if flags.len() == 0 {
        (st, None)
    } else {
        match flag_step(flags[0], st) {
            Ok(next) => apply_flags(flags.drop_first(), next),
            Err(e) => (st, Some(e)),
        }
    }
}

/// The flag characters of a short option: the argument without its leading `-`.
pub open spec fn short_flags(option: Seq<char>) -> Seq<char> {
    if option.len() > 0 && option[0] == '-' {
        option.drop_first()
    } else {
        option
    }
}

fn step(
    c: char,
    show_hidden: &mut bool,
    long_format: &mut bool,
    sort_key: &mut Option<SortKey>,
) -> (res: Result<(), ArgsError>)
    ensures
        match flag_step(c, (*old(show_hidden), *old(long_format), *old(sort_key))) {
            Ok(next) => res is Ok && (*final(show_hidden), *final(long_format), *final(sort_key))
                == next,
            Err(e) => res matches Err(x) && x@ == e && (
            *final(show_hidden),
            *final(long_format),
            *final(sort_key),
            ) == (*old(show_hidden), *old(long_format), *old(sort_key)),
        },
{
    if c == 'a' {
        *show_hidden = true;
        Ok(())
    } else if c == 'l' {
        *long_format = true;
        Ok(())
    } else if c == 's' || c == 't' || c == 'n' {
        let key = if c == 's' {
            SortKey::Size
        } else if c == 't' {
            SortKey::Modified
        } else {
            SortKey::Name
        };
        let conflict = match sort_key {
            Some(k) => *k != key,
            None => false,
        };
        if conflict {
            Err(ArgsError::ConflictingSortFlags)
        } else {
            *sort_key = Some(key);
            Ok(())
        }
    } else {
        Err(ArgsError::UnknownOption(c))
    }
}

/// Applies a single short option argument, which may bundle multiple flags
/// (e.g. `-al`). Returns an error for the first unrecognized flag character or
/// for a second sort flag; the flags before it have been applied.
pub fn apply_option(
    option: &str,
    show_hidden: &mut bool,
    long_format: &mut bool,
    sort_key: &mut Option<SortKey>,
) -> (res: Result<(), ArgsError>)
    ensures
        ({
            let out = apply_flags(
                short_flags(option@),
                (*old(show_hidden), *old(long_format), *old(sort_key)),
            );
            &&& (*final(show_hidden), *final(long_format), *final(sort_key)) == out.0
            &&& match out.1 {
                Some(e) => res matches Err(x) && x@ == e,
                None => res is Ok,
            }
        }),
{
    let chars = chars_of(option);
    let skip: usize = if chars.len() > 0 && chars[0] == '-' {
        1
    } else {
        0
    };
    let ghost flags = short_flags(option@);
    assert(chars@.skip(skip as int) =~= flags);
    let ghost start: Flags = (*show_hidden, *long_format, *sort_key);
    let mut sh = *show_hidden;
    let mut lf = *long_format;
    let mut sk = *sort_key;
    let mut failure: Option<ArgsError> = None;
    let mut i: usize = skip;
    while i < chars.len()
        invariant_except_break
            skip <= i <= chars@.len(),
            failure is None,
            flags == chars@.skip(skip as int),
            apply_flags(flags, start) == apply_flags(chars@.skip(i as int), (sh, lf, sk)),
        ensures
            match failure {
                Some(x) => apply_flags(flags, start).1 == Some(x@),
                None => apply_flags(flags, start).1 is None,
            },
            apply_flags(flags, start).0 == (sh, lf, sk),
        decreases chars@.len() - i,
    {
        let c = chars[i];
        assert(chars@.skip(i as int)[0] == c);
        assert(chars@.skip(i as int).drop_first() =~= chars@.skip(i + 1));
        match step(c, &mut sh, &mut lf, &mut sk) {
            Ok(()) => {},
            Err(e) => {
                failure = Some(e);
                break;
            },
        }
        i = i + 1;
        if i == chars.len() {
            assert(chars@.skip(i as int) =~= Seq::<char>::empty());
        }
    }
    if i == chars.len() && failure.is_none() {
        assert(chars@.skip(i as int) =~= Seq::<char>::empty());
    }
    *show_hidden = sh;
    *long_format = lf;
    *sort_key = sk;
    match failure {
        Some(e) => Err(e),
        None => Ok(()),
    }
}

/// The shell of a name, if it is a known one.
pub open spec fn shell_named(name: Seq<char>) -> Option<Shell> {
    if name == "bash"@ {
        Some(Shell::Bash)
    } else if name == "zsh"@ {
        Some(Shell::Zsh)
    } else if name == "fish"@ {
        Some(Shell::Fish)
    } else if name == "powershell"@ {
        Some(Shell::PowerShell)
    } else if name == "elvish"@ {
        Some(Shell::Elvish)
    } else {
        None
    }
}

fn shell_from_name(name: &str) -> (res: Option<Shell>)
    ensures
        res == shell_named(name@),
{
    if str_equal(name, "bash") {
        Some(Shell::Bash)
    } else if str_equal(name, "zsh") {
        Some(Shell::Zsh)
    } else if str_equal(name, "fish") {
        Some(Shell::Fish)
    } else if str_equal(name, "powershell") {
        Some(Shell::PowerShell)
    } else if str_equal(name, "elvish") {
        Some(Shell::Elvish)
    } else {
        None
    }
}

/// The flag character a long option stands for: `--all` for `a`, `--long` for
/// `l`, `--size` for `s`, `--time` for `t`, `--name` for `n`.
pub open spec fn long_flag(a: Seq<char>) -> Option<char> {
    if a == "--all"@ {
        Some('a')
    } else if a == "--long"@ {
        Some('l')
    } else if a == "--size"@ {
        Some('s')
    } else if a == "--time"@ {
        Some('t')
    } else if a == "--name"@ {
        Some('n')
    } else {
        None
    }
}

fn long_flag_of(a: &str) -> (res: Option<char>)
    ensures
        res == long_flag(a@),
{
    if str_equal(a, "--all") {
        Some('a')
    } else if str_equal(a, "--long") {
        Some('l')
    } else if str_equal(a, "--size") {
        Some('s')
    } else if str_equal(a, "--time") {
        Some('t')
    } else if str_equal(a, "--name") {
        Some('n')
    } else {
        None
    }
}

/// The state of argument parsing: the path seen so far, the flags, and the shell
/// whose completion script was asked for.
pub type ArgsState = (Option<Seq<char>>, Flags, Option<Shell>);

/// An argument asks for the usage text.
pub open spec fn is_help_arg(a: Seq<char>) -> bool {
    a == "--help"@ || a == "-h"@
}

/// An argument asks for the version.
pub open spec fn is_version_arg(a: Seq<char>) -> bool {
    a == "--version"@ || a == "-V"@
}

/// An argument is a long option: it starts with `--`.
pub open spec fn is_long_arg(a: Seq<char>) -> bool {
    a.len() >= 2 && a[0] == '-' && a[1] == '-'
}

/// An argument is a short option: it starts with `-` and is not `-` alone.
pub open spec fn is_option_arg(a: Seq<char>) -> bool {
    a.len() > 0 && a[0] == '-' && a != "-"@
}

/// Processes the arguments in order from the given state: help and version
/// requests answer at once; `--completions` takes the next argument as a shell
/// name; long options stand for one flag each; other arguments starting with
/// `-` (but not `-` alone) bundle short flags; the first other argument is the
/// path, and a second one is an error.
pub open spec fn parse_from(args: Seq<Seq<char>>, st: ArgsState) -> Result<ArgsState, ArgsErrorView>
    decreases args.len(),
{
    if args.len() == 0 {
        Ok(st)
    } else {
        let a = args[0];
        if is_help_arg(a) {
            Err(ArgsErrorView::HelpRequested)
        } else if is_version_arg(a) {
            Err(ArgsErrorView::VersionRequested)
        } else if a == "--completions"@ {
            if args.len() < 2 {
                Err(ArgsErrorView::MissingShell)
            } else {
                match shell_named(args[1]) {
                    Some(sh) => parse_from(args.skip(2), (st.0, st.1, Some(sh))),
                    None => Err(ArgsErrorView::UnknownShell(args[1])),
                }
            }
        } else if is_long_arg(a) {
            match long_flag(a) {
                Some(c) => match flag_step(c, st.1) {
                    Ok(next) => parse_from(args.drop_first(), (st.0, next, st.2)),
                    Err(e) => Err(e),
                },
                None => Err(ArgsErrorView::UnknownLongOption(a)),
            }
        } else if is_option_arg(a) {
            let out = apply_flags(short_flags(a), st.1);
            match out.1 {
                Some(e) => Err(e),
                None => parse_from(args.drop_first(), (st.0, out.0, st.2)),
            }
        } else if st.0 is None {
            parse_from(args.drop_first(), (Some(a), st.1, st.2))
        } else {
            Err(ArgsErrorView::TooManyPaths)
        }
    }
}

/// The outcome of parsing the arguments: a request for a completion script once
/// all arguments are accepted, else the path (`.` when none was given) and the
/// flags, starting from hidden files hidden, short format, sorted by name.
pub open spec fn parsed_args(args: Seq<Seq<char>>) -> Result<(Seq<char>, (bool, bool, SortKey)), ArgsErrorView> {
    match parse_from(args, (None, (false, false, None), None)) {
        Ok(st) => match st.2 {
            Some(sh) => Err(ArgsErrorView::CompletionsRequested(sh)),
            None => Ok(
                (
                    match st.0 {
                        Some(p) => p,
                        None => "."@,
                    },
                    (
                        st.1.0,
                        st.1.1,
                        match st.1.2 {
                            Some(k) => k,
                            None => SortKey::Name,
                        },
                    ),
                ),
            ),
        },
        Err(e) => Err(e),
    }
}

/// The characters of each argument.
pub open spec fn arg_views(args: Seq<String>) -> Seq<Seq<char>> {
    args.map_values(|a: String| a@)
}

fn str_equal(a: &str, b: &str) -> (res: bool)
    ensures
        res == (a@ == b@),
{
    let x = chars_of(a);
    let y = chars_of(b);
    crate::text::chars_equal(&x, &y)
}

/// Parses command-line arguments (without the program name) into a `Config`.
///
/// Recognizes `--help`/`-h`, `--version`/`-V` and `--completions <SHELL>`
/// (reported as requests in [`ArgsError`]), the options `-a`/`--all`,
/// `-l`/`--long`, and one of `-s`/`--size`, `-t`/`--time`, `-n`/`--name`
/// (possibly repeated, but not combined with another of them), short
/// flags bundled (e.g. `-al`), and at most one positional path argument
/// (defaults to `.` when omitted).
pub fn parse_args(args: &Vec<String>) -> (res: Result<Config, ArgsError>)
    ensures
        match parsed_args(arg_views(args@)) {
            Ok((path, flags)) => res matches Ok(c) && c.path@ == path && (
            c.show_hidden,
            c.long_format,
            c.sort_key,
            ) == flags,
            Err(e) => res matches Err(x) && x@ == e,
        },
{
    let ghost views = arg_views(args@);
    let ghost init: ArgsState = (None, (false, false, None), None);
    let mut path: Option<String> = None;
    let mut show_hidden = false;
    let mut long_format = false;
    let mut sort_key: Option<SortKey> = None;
    let mut completions: Option<Shell> = None;
    let mut i: usize = 0;
    assert(views.skip(0) =~= views);
    while i < args.len()
        invariant
            i <= args@.len(),
            views == arg_views(args@),
            init == (None::<Seq<char>>, (false, false, None::<SortKey>), None::<Shell>),
            parse_from(views, init) == parse_from(
                views.skip(i as int),
                (
                    match path {
                        Some(p) => Some(p@),
                        None => None,
                    },
                    (show_hidden, long_format, sort_key),
                    completions,
                ),
            ),
        decreases args@.len() - i,
    {
        let arg = &args[i];
        let ghost rest = views.skip(i as int);
        let ghost st: ArgsState = (
            match &path {
                Some(p) => Some(p@),
                None => None,
            },
            (show_hidden, long_format, sort_key),
            completions,
        );
        assert(rest[0] == arg@);
        assert(rest.drop_first() =~= views.skip(i + 1));
        let a = arg.as_str();
        if str_equal(a, "--help") || str_equal(a, "-h") {
            assert(parse_from(rest, st) == Err::<ArgsState, ArgsErrorView>(ArgsErrorView::HelpRequested));
            return Err(ArgsError::HelpRequested);
        }
        if str_equal(a, "--version") || str_equal(a, "-V") {
            assert(parse_from(rest, st) == Err::<ArgsState, ArgsErrorView>(ArgsErrorView::VersionRequested));
            return Err(ArgsError::VersionRequested);
        }
        let chars = chars_of(a);
        if str_equal(a, "--completions") {
            if i + 1 >= args.len() {
                assert(parse_from(rest, st) == Err::<ArgsState, ArgsErrorView>(ArgsErrorView::MissingShell));
                return Err(ArgsError::MissingShell);
            }
            let name = &args[i + 1];
            assert(rest[1] == name@);
            assert(rest.skip(2) =~= views.skip(i + 2));
            match shell_from_name(name.as_str()) {
                Some(sh) => {
                    assert(parse_from(rest, st) == parse_from(views.skip(i + 2), (st.0, st.1, Some(sh))));
                    completions = Some(sh);
                },
                None => {
                    let e = ArgsError::UnknownShell(name.clone());
                    assert(parse_from(rest, st) == Err::<ArgsState, ArgsErrorView>(e@));
                    return Err(e);
                },
            }
            i = i + 2;
        } else if chars.len() >= 2 && chars[0] == '-' && chars[1] == '-' {
            assert(is_long_arg(arg@));
            match long_flag_of(a) {
                Some(c) => {
                    match step(c, &mut show_hidden, &mut long_format, &mut sort_key) {
                        Ok(()) => {
                            assert(parse_from(rest, st) == parse_from(
                                views.skip(i + 1),
                                (st.0, (show_hidden, long_format, sort_key), st.2),
                            ));
                        },
                        Err(e) => {
                            assert(parse_from(rest, st) == Err::<ArgsState, ArgsErrorView>(e@));
                            return Err(e);
                        },
                    }
                },
                None => {
                    let e = ArgsError::UnknownLongOption(arg.clone());
                    assert(parse_from(rest, st) == Err::<ArgsState, ArgsErrorView>(e@));
                    return Err(e);
                },
            }
            i = i + 1;
        } else if chars.len() > 0 && chars[0] == '-' && !str_equal(a, "-") {
            assert(!is_long_arg(arg@));
            assert(is_option_arg(arg@));
            match apply_option(a, &mut show_hidden, &mut long_format, &mut sort_key) {
                Ok(()) => {
                    assert(parse_from(rest, st) == parse_from(
                        views.skip(i + 1),
                        (st.0, (show_hidden, long_format, sort_key), st.2),
                    ));
                },
                Err(e) => {
                    assert(parse_from(rest, st) == Err::<ArgsState, ArgsErrorView>(e@));
                    return Err(e);
                },
            }
            i = i + 1;
        } else if path.is_none() {
            assert(!is_long_arg(arg@) && !is_option_arg(arg@));
            path = Some(arg.clone());
            i = i + 1;
        } else {
            assert(!is_long_arg(arg@) && !is_option_arg(arg@));
            assert(parse_from(rest, st) == Err::<ArgsState, ArgsErrorView>(ArgsErrorView::TooManyPaths));
            return Err(ArgsError::TooManyPaths);
        }
    }
    assert(views.skip(i as int) =~= Seq::<Seq<char>>::empty());
    if let Some(sh) = completions {
        return Err(ArgsError::CompletionsRequested(sh));
    }
    let path = match path {
        Some(p) => p,
        None => String::from_str("."),
    };
    let key = match sort_key {
        Some(k) => k,
        None => SortKey::Name,
    };
    Ok(Config { path, show_hidden, long_format, sort_key: key })
}

/// The usage text shown for `--help`.
pub const USAGE: &'static str = "Usage: ustam [OPTIONS] [PATH]\n\nOptions:\n  -a, --all                隠しファイルを表示\n  -l, --long               サイズ・更新日時・拡張情報を表示\n  -s, --size               ファイルサイズ順にソート\n  -t, --time               更新日時順にソート\n  -n, --name               名前順にソート（デフォルト）\n      --completions <SHELL>  補完スクリプトを出力 (bash/zsh/fish/powershell/elvish)\n  -h, --help               ヘルプを表示\n  -V, --version            バージョンを表示";

/// The text shown for `--version`.
pub const VERSION: &'static str = "ustam 0.1.0";

/// The message for a second path.
pub const TOO_MANY_PATHS: &'static str = "パスは1つだけ指定できます";

/// The message for a second sort option.
pub const CONFLICTING_SORT: &'static str = "-s/-t/-n は同時に指定できません";

/// The start of the message for an unknown flag, which the flag follows.
pub const UNKNOWN_OPTION: &'static str = "未知のオプションです: -";

/// The start of the message for an unknown long option, which the option follows.
pub const UNKNOWN_LONG_OPTION: &'static str = "未知のオプションです: ";

/// The message for `--completions` without a shell.
pub const MISSING_SHELL: &'static str = "--completions にはシェル名を指定してください";

/// The start of the message for an unknown shell, which the name follows.
pub const UNKNOWN_SHELL: &'static str = "未知のシェルです: ";

/// The start of the message for a path that does not exist.
pub const NO_SUCH_PATH: &'static str = "パスが存在しません: ";

/// The start of the message for a path that is not a directory.
pub const NOT_A_DIRECTORY: &'static str = "ディレクトリを指定してください: ";

/// The bash completion script.
pub const BASH_COMPLETION: &'static str = r#"_ustam() {
    local cur prev
    cur="${COMP_WORDS[COMP_CWORD]}"
    prev="${COMP_WORDS[COMP_CWORD-1]}"
    if [ "$prev" = "--completions" ]; then
        COMPREPLY=($(compgen -W "bash zsh fish powershell elvish" -- "$cur"))
        return 0
    fi
    if [[ "$cur" == -* ]]; then
        COMPREPLY=($(compgen -W "-a --all -l --long -s --size -t --time -n --name --completions -h --help -V --version" -- "$cur"))
        return 0
    fi
    COMPREPLY=($(compgen -d -- "$cur"))
}
complete -F _ustam ustam"#;

/// The zsh completion script.
pub const ZSH_COMPLETION: &'static str = r#"#compdef ustam
_arguments \
  '(-a --all)'{-a,--all}'[隠しファイルを表示]' \
  '(-l --long)'{-l,--long}'[サイズ・更新日時・拡張情報を表示]' \
  '(-s --size -t --time -n --name)'{-s,--size}'[ファイルサイズ順にソート]' \
  '(-s --size -t --time -n --name)'{-t,--time}'[更新日時順にソート]' \
  '(-s --size -t --time -n --name)'{-n,--name}'[名前順にソート]' \
  '--completions[補完スクリプトを出力]:shell:(bash zsh fish powershell elvish)' \
  '(- *)'{-h,--help}'[ヘルプを表示]' \
  '(- *)'{-V,--version}'[バージョンを表示]' \
  '::path:_directories'"#;

/// The fish completion script.
pub const FISH_COMPLETION: &'static str = r#"complete -c ustam -s a -l all -d '隠しファイルを表示'
complete -c ustam -s l -l long -d 'サイズ・更新日時・拡張情報を表示'
complete -c ustam -s s -l size -d 'ファイルサイズ順にソート'
complete -c ustam -s t -l time -d '更新日時順にソート'
complete -c ustam -s n -l name -d '名前順にソート'
complete -c ustam -l completions -x -a 'bash zsh fish powershell elvish' -d '補完スクリプトを出力'
complete -c ustam -s h -l help -d 'ヘルプを表示'
complete -c ustam -s V -l version -d 'バージョンを表示'"#;

/// The PowerShell completion script.
pub const POWERSHELL_COMPLETION: &'static str = r#"Register-ArgumentCompleter -Native -CommandName 'ustam' -ScriptBlock {
    param($wordToComplete, $commandAst, $cursorPosition)
    @('-a', '--all', '-l', '--long', '-s', '--size', '-t', '--time', '-n', '--name',
      '--completions', '-h', '--help', '-V', '--version') |
        Where-Object { $_ -like "$wordToComplete*" } |
        ForEach-Object { [System.Management.Automation.CompletionResult]::new($_, $_, 'ParameterName', $_) }
}"#;

/// The elvish completion script.
pub const ELVISH_COMPLETION: &'static str = r#"set edit:completion:arg-completer[ustam] = {|@words|
    put -a --all -l --long -s --size -t --time -n --name --completions -h --help -V --version
}"#;

/// The completion script for a shell.
pub open spec fn completion_text(shell: Shell) -> Seq<char> {
    match shell {
        Shell::Bash => BASH_COMPLETION@,
        Shell::Zsh => ZSH_COMPLETION@,
        Shell::Fish => FISH_COMPLETION@,
        Shell::PowerShell => POWERSHELL_COMPLETION@,
        Shell::Elvish => ELVISH_COMPLETION@,
    }
}

/// Returns the completion script for `shell`.
pub fn completion_script(shell: Shell) -> (res: &'static str)
    ensures
        res@ == completion_text(shell),
{
    match shell {
        Shell::Bash => BASH_COMPLETION,
        Shell::Zsh => ZSH_COMPLETION,
        Shell::Fish => FISH_COMPLETION,
        Shell::PowerShell => POWERSHELL_COMPLETION,
        Shell::Elvish => ELVISH_COMPLETION,
    }
}

impl ArgsErrorView {
    /// The text the request is answered with: the usage text, the version or the
    /// completion script for a request, else the error message.
    pub open spec fn text(self) -> Seq<char> {
        match self {
            ArgsErrorView::HelpRequested => USAGE@,
            ArgsErrorView::VersionRequested => VERSION@,
            ArgsErrorView::CompletionsRequested(sh) => completion_text(sh),
            ArgsErrorView::TooManyPaths => TOO_MANY_PATHS@,
            ArgsErrorView::ConflictingSortFlags => CONFLICTING_SORT@,
            ArgsErrorView::UnknownOption(c) => UNKNOWN_OPTION@.push(c),
            ArgsErrorView::UnknownLongOption(s) => UNKNOWN_LONG_OPTION@ + s,
            ArgsErrorView::MissingShell => MISSING_SHELL@,
            ArgsErrorView::UnknownShell(s) => UNKNOWN_SHELL@ + s,
        }
    }
}

impl ArgsError {
    /// The text the request is answered with (see [`ArgsErrorView::text`]).
    pub fn message(&self) -> (res: String)
        ensures
            res@ == self@.text(),
    {
        match self {
            ArgsError::HelpRequested => String::from_str(USAGE),
            ArgsError::VersionRequested => String::from_str(VERSION),
            ArgsError::CompletionsRequested(sh) => String::from_str(completion_script(*sh)),
            ArgsError::TooManyPaths => String::from_str(TOO_MANY_PATHS),
            ArgsError::ConflictingSortFlags => String::from_str(CONFLICTING_SORT),
            ArgsError::UnknownOption(c) => {
                let mut chars = chars_of(UNKNOWN_OPTION);
                chars.push(*c);
                string_from_chars(&chars)
            },
            ArgsError::UnknownLongOption(s) => {
                let mut m = String::from_str(UNKNOWN_LONG_OPTION);
                m.append(s.as_str());
                m
            },
            ArgsError::MissingShell => String::from_str(MISSING_SHELL),
            ArgsError::UnknownShell(s) => {
                let mut m = String::from_str(UNKNOWN_SHELL);
                m.append(s.as_str());
                m
            },
        }
    }
}

/// The error for a target path, if any: one that does not exist, else one that is
/// not a directory.
pub open spec fn target_path_error(path: Seq<char>, exists: bool, is_dir: bool) -> Option<Seq<char>> {
    if !exists {
        Some(NO_SUCH_PATH@ + path)
    } else if !is_dir {
        Some(NOT_A_DIRECTORY@ + path)
    } else {
        None
    }
}

/// Returns an error if the target `path` does not exist (`exists`) or is not a
/// directory (`is_dir`), as found on the file system.
pub fn validate_target_path(path: &str, exists: bool, is_dir: bool) -> (res: Result<(), String>)
    ensures
        match target_path_error(path@, exists, is_dir) {
            Some(m) => res matches Err(e) && e@ == m,
            None => res is Ok,
        },
{
    if !exists {
        let mut m = String::from_str(NO_SUCH_PATH);
        m.append(path);
        return Err(m);
    }
    if !is_dir {
        let mut m = String::from_str(NOT_A_DIRECTORY);
        m.append(path);
        return Err(m);
    }
    Ok(())
}

} // verus!
