use std::cmp::Ordering;

use lib::cli::{
    apply_option, completion_script, parse_args, validate_target_path, ArgsError, Shell, SortKey,
};
use lib::details::{
    contains_tagline, extension_source, extract_between, find_extension_info, is_pdf, is_tagline_heading,
    InfoSource,
};
use lib::entry::{
    file_kind_label, format_file, format_long_line, format_modified_time, should_skip_entry,
    EntryKind, FileInfo,
};
use lib::gitignore::{matches_gitignore_pattern, matches_wildcard, GitignoreRules};
use lib::order::{
    compare_by_modified, compare_by_name, compare_by_size, compare_lowered, sort_files,
};

fn args(v: &[&str]) -> Vec<String> {
    v.iter().map(|s| s.to_string()).collect()
}

fn file(name: &str, size: u64, modified: Option<i128>) -> FileInfo {
    FileInfo {
        name: name.to_string(),
        kind: EntryKind::File,
        size,
        modified,
        extension_info: None,
    }
}

fn names(files: &[FileInfo]) -> Vec<String> {
    files.iter().map(|f| f.name.clone()).collect()
}

// --- listing filters (from the command-line scenarios) ---

#[test]
fn hidden_entries_skipped_by_default() {
    let rules = GitignoreRules::load(None);
    let config = parse_args(&args(&[])).unwrap();
    assert!(should_skip_entry(".hidden", false, config.show_hidden, &rules));
    assert!(!should_skip_entry("visible.txt", false, config.show_hidden, &rules));
}

#[test]
fn hidden_entries_shown_with_a() {
    let rules = GitignoreRules::load(None);
    let config = parse_args(&args(&["-a"])).unwrap();
    assert!(!should_skip_entry(".hidden", false, config.show_hidden, &rules));
}

#[test]
fn gitignore_rules_skip_matching_entries() {
    let rules = GitignoreRules::load(Some("*.log\n"));
    assert!(should_skip_entry("ignore.log", false, false, &rules));
    assert!(!should_skip_entry("keep.txt", false, false, &rules));
}

#[test]
fn directory_patterns_match_only_directories() {
    let rules = GitignoreRules::load(Some("target/\n"));
    assert!(rules.is_ignored("target", true));
    assert!(!rules.is_ignored("target", false));
    assert!(matches_gitignore_pattern("target/", "target", true));
    assert!(!matches_gitignore_pattern("target/", "target", false));
    assert!(matches_gitignore_pattern("dist", "dist", false));
    assert!(!matches_gitignore_pattern("dist", "dist2", false));
}

#[test]
fn gitignore_load_without_file_is_empty() {
    assert!(GitignoreRules::load(None).patterns.is_empty());
    let rules = GitignoreRules::load(Some("  # only a comment\n\n!neg\n"));
    assert!(rules.patterns.is_empty());
}

#[test]
fn gitignore_strips_all_leading_slashes_and_crlf() {
    let rules = GitignoreRules::load(Some("//build\r\n  spaced  \n"));
    assert_eq!(rules.patterns, vec!["build".to_string(), "spaced".to_string()]);
}

#[test]
fn wildcards_follow_glob_semantics() {
    assert!(matches_wildcard("a*b*c", "aXbYc"));
    assert!(matches_wildcard("a*b*c", "abc"));
    assert!(!matches_wildcard("a*b*c", "acb"));
    assert!(matches_wildcard("*", ""));
    assert!(matches_wildcard("**", "anything"));
    assert!(!matches_wildcard("a*a", "a"));
    assert!(matches_wildcard("a*a", "aa"));
    assert!(matches_wildcard("*ab*ab", "xabyab"));
    assert!(!matches_wildcard("*ab*ab", "xab"));
    assert!(matches_wildcard("no_star", "no_star"));
    assert!(!matches_wildcard("no_star", "no_stars"));
}

// --- options ---

#[test]
fn apply_option_sets_flags() {
    let (mut a, mut l, mut k) = (false, false, None);
    assert_eq!(apply_option("-alt", &mut a, &mut l, &mut k), Ok(()));
    assert!(a && l);
    assert_eq!(k, Some(SortKey::Modified));
}

#[test]
fn apply_option_stops_at_unknown_flag() {
    let (mut a, mut l, mut k) = (false, false, None);
    assert_eq!(
        apply_option("-sxl", &mut a, &mut l, &mut k),
        Err(ArgsError::UnknownOption('x'))
    );
    assert_eq!(k, Some(SortKey::Size));
    assert!(!l);
}

#[test]
fn apply_option_rejects_second_sort_flag() {
    let (mut a, mut l, mut k) = (false, false, None);
    assert_eq!(
        apply_option("-as", &mut a, &mut l, &mut k),
        Ok(())
    );
    assert_eq!(
        apply_option("-n", &mut a, &mut l, &mut k),
        Err(ArgsError::ConflictingSortFlags)
    );
    assert_eq!(k, Some(SortKey::Size));
}

#[test]
fn sort_flags_are_mutually_exclusive() {
    assert_eq!(
        parse_args(&args(&["-s", "-t"])).unwrap_err(),
        ArgsError::ConflictingSortFlags
    );
    assert_eq!(
        parse_args(&args(&["-tn"])).unwrap_err(),
        ArgsError::ConflictingSortFlags
    );
    assert_eq!(
        parse_args(&args(&["--size", "-n"])).unwrap_err(),
        ArgsError::ConflictingSortFlags
    );
    assert_eq!(parse_args(&args(&["-s", "-s"])).unwrap().sort_key, SortKey::Size);
    assert_eq!(parse_args(&args(&["-nn"])).unwrap().sort_key, SortKey::Name);
    assert_eq!(parse_args(&args(&["--time", "-t"])).unwrap().sort_key, SortKey::Modified);
    assert_eq!(parse_args(&args(&["-sl"])).unwrap().sort_key, SortKey::Size);
}

#[test]
fn long_options_set_only_their_own_setting() {
    let c = parse_args(&args(&["--all"])).unwrap();
    assert!(c.show_hidden && !c.long_format);
    assert_eq!(c.sort_key, SortKey::Name);
    let c = parse_args(&args(&["--long"])).unwrap();
    assert!(!c.show_hidden && c.long_format);
    assert_eq!(parse_args(&args(&["--size"])).unwrap().sort_key, SortKey::Size);
    assert_eq!(parse_args(&args(&["--time"])).unwrap().sort_key, SortKey::Modified);
    assert_eq!(parse_args(&args(&["--name"])).unwrap().sort_key, SortKey::Name);
    let c = parse_args(&args(&["--all", "-l", "--time", "dir"])).unwrap();
    assert!(c.show_hidden && c.long_format);
    assert_eq!(c.sort_key, SortKey::Modified);
    assert_eq!(c.path, "dir".to_string());
}

#[test]
fn unknown_long_options_are_errors() {
    assert_eq!(
        parse_args(&args(&["--color"])).unwrap_err(),
        ArgsError::UnknownLongOption("--color".to_string())
    );
    assert_eq!(
        parse_args(&args(&["--"])).unwrap_err(),
        ArgsError::UnknownLongOption("--".to_string())
    );
}

#[test]
fn version_is_requested() {
    assert_eq!(parse_args(&args(&["-V"])).unwrap_err(), ArgsError::VersionRequested);
    assert_eq!(
        parse_args(&args(&["-l", "--version"])).unwrap_err(),
        ArgsError::VersionRequested
    );
    assert_eq!(ArgsError::VersionRequested.message(), "ustam 0.1.0");
}

#[test]
fn completions_are_requested() {
    assert_eq!(
        parse_args(&args(&["--completions", "bash"])).unwrap_err(),
        ArgsError::CompletionsRequested(Shell::Bash)
    );
    assert_eq!(
        parse_args(&args(&["--completions", "zsh", "dir"])).unwrap_err(),
        ArgsError::CompletionsRequested(Shell::Zsh)
    );
    assert_eq!(
        parse_args(&args(&["--completions"])).unwrap_err(),
        ArgsError::MissingShell
    );
    assert_eq!(
        parse_args(&args(&["--completions", "tcsh"])).unwrap_err(),
        ArgsError::UnknownShell("tcsh".to_string())
    );
    assert_eq!(
        parse_args(&args(&["--completions", "fish", "-z"])).unwrap_err(),
        ArgsError::UnknownOption('z')
    );
    for (name, shell) in [
        ("bash", Shell::Bash),
        ("zsh", Shell::Zsh),
        ("fish", Shell::Fish),
        ("powershell", Shell::PowerShell),
        ("elvish", Shell::Elvish),
    ] {
        let e = parse_args(&args(&["--completions", name])).unwrap_err();
        assert_eq!(e, ArgsError::CompletionsRequested(shell));
        assert_eq!(e.message(), completion_script(shell));
        assert!(completion_script(shell).contains("ustam"));
    }
}

#[test]
fn bundled_flags_equal_separate_flags() {
    let a = parse_args(&args(&["-sl", "dir"])).unwrap();
    let b = parse_args(&args(&["-s", "-l", "dir"])).unwrap();
    assert_eq!((a.path, a.show_hidden, a.long_format, a.sort_key), (b.path, b.show_hidden, b.long_format, b.sort_key));
}

#[test]
fn dash_alone_is_a_path() {
    assert_eq!(parse_args(&args(&["-"])).unwrap().path, "-".to_string());
}

#[test]
fn help_comes_before_later_errors_only() {
    assert_eq!(
        parse_args(&args(&["--help", "-z"])).unwrap_err(),
        ArgsError::HelpRequested
    );
    assert_eq!(
        parse_args(&args(&["-z", "--help"])).unwrap_err(),
        ArgsError::UnknownOption('z')
    );
    assert_eq!(
        parse_args(&args(&["a", "b", "-h"])).unwrap_err(),
        ArgsError::TooManyPaths
    );
}

#[test]
fn error_messages() {
    assert_eq!(ArgsError::UnknownOption('z').message(), "未知のオプションです: -z");
    assert_eq!(ArgsError::TooManyPaths.message(), "パスは1つだけ指定できます");
    assert!(ArgsError::HelpRequested.message().starts_with("Usage:"));
    assert!(ArgsError::HelpRequested.message().contains("--completions <SHELL>"));
    assert_eq!(
        ArgsError::ConflictingSortFlags.message(),
        "-s/-t/-n は同時に指定できません"
    );
    assert_eq!(
        ArgsError::UnknownLongOption("--x".to_string()).message(),
        "未知のオプションです: --x"
    );
    assert_eq!(
        ArgsError::UnknownShell("tcsh".to_string()).message(),
        "未知のシェルです: tcsh"
    );
    assert_eq!(
        ArgsError::MissingShell.message(),
        "--completions にはシェル名を指定してください"
    );
}

#[test]
fn target_path_errors() {
    assert_eq!(
        validate_target_path("/missing", false, false),
        Err("パスが存在しません: /missing".to_string())
    );
    assert_eq!(
        validate_target_path("file.txt", true, false),
        Err("ディレクトリを指定してください: file.txt".to_string())
    );
    assert_eq!(validate_target_path("src", true, true), Ok(()));
}

// --- sorting ---

#[test]
fn names_compare_case_insensitively() {
    let b = file("B", 0, None);
    let a = file("a", 0, None);
    assert_eq!(compare_by_name(&a, &b), Ordering::Less);
    assert_eq!(compare_by_name(&b, &a), Ordering::Greater);
    assert_eq!(compare_by_name(&file("X", 0, None), &file("x", 0, None)), Ordering::Equal);
}

#[test]
fn sizes_compare_descending_then_by_name() {
    assert_eq!(compare_by_size(&file("a", 10, None), &file("b", 20, None)), Ordering::Greater);
    assert_eq!(compare_by_size(&file("a", 10, None), &file("b", 10, None)), Ordering::Less);
}

#[test]
fn times_compare_most_recent_first() {
    assert_eq!(
        compare_by_modified(&file("a", 0, Some(5)), &file("b", 0, Some(9))),
        Ordering::Greater
    );
    assert_eq!(
        compare_by_modified(&file("a", 0, None), &file("b", 0, Some(0))),
        Ordering::Less
    );
    assert_eq!(
        compare_by_modified(&file("a", 0, Some(-3)), &file("b", 0, None)),
        Ordering::Greater
    );
}

#[test]
fn sort_by_name_is_stable() {
    let mut files = vec![
        file("b", 1, None),
        file("A", 2, None),
        file("a", 3, None),
        file("C", 4, None),
    ];
    sort_files(&mut files, SortKey::Name);
    assert_eq!(names(&files), vec!["A", "a", "b", "C"]);
}

#[test]
fn sort_by_size_descending() {
    let mut files = vec![
        file("small", 1, None),
        file("big", 100, None),
        file("mid2", 50, None),
        file("Mid1", 50, None),
    ];
    sort_files(&mut files, SortKey::Size);
    assert_eq!(names(&files), vec!["big", "Mid1", "mid2", "small"]);
}

#[test]
fn sort_by_modified_newest_first() {
    let mut files = vec![
        file("old", 0, Some(1)),
        file("none", 0, None),
        file("new", 0, Some(1_000)),
        file("before", 0, Some(-7)),
    ];
    sort_files(&mut files, SortKey::Modified);
    assert_eq!(names(&files), vec!["new", "old", "none", "before"]);
}

#[test]
fn sort_handles_large_directories() {
    let mut files: Vec<FileInfo> = (0..50_000u64)
        .map(|i| file(&format!("F{:05}", (i * 7919) % 50_000), (i * 31) % 97, None))
        .collect();
    sort_files(&mut files, SortKey::Size);
    for w in files.windows(2) {
        assert!(compare_by_size(&w[0], &w[1]) != Ordering::Greater);
    }
    assert_eq!(files.len(), 50_000);
}

#[test]
fn sort_handles_many_entries() {
    let mut files: Vec<FileInfo> = (0..200u64)
        .map(|i| file(&format!("f{:03}", (i * 37) % 200), i % 7, None))
        .collect();
    sort_files(&mut files, SortKey::Size);
    for w in files.windows(2) {
        assert!(compare_by_size(&w[0], &w[1]) != Ordering::Greater);
    }
    assert_eq!(files.len(), 200);
}

// --- output ---

#[test]
fn long_format_shows_kind_size_time_and_name() {
    let mut f = file("file.txt", 5, Some(2_500_000_000));
    assert_eq!(
        format_long_line(&f),
        format!("{:<3} {:>8} {:<14} {}", "file", "5B", "2s", "file.txt")
    );
    f.kind = EntryKind::Dir;
    f.extension_info = Some("README: hi".to_string());
    assert_eq!(
        format_long_line(&f),
        format!("{:<3} {:>8} {:<14} {}  README: hi", "dir", "5B", "2s", "file.txt")
    );
    assert_eq!(format_long_line(&f), "dir       5B 2s             file.txt  README: hi");
    assert_eq!(format_file(&f, false), "file.txt");
}

#[test]
fn kind_labels() {
    assert_eq!(file_kind_label(EntryKind::Dir), "dir");
    assert_eq!(file_kind_label(EntryKind::File), "file");
    assert_eq!(file_kind_label(EntryKind::Other), "etc");
}

#[test]
fn modified_times_before_epoch_are_dashes() {
    assert_eq!(format_modified_time(Some(-1)), "-");
    assert_eq!(format_modified_time(Some(999_999_999)), "0s");
    assert_eq!(format_modified_time(Some(1_000_000_000)), "1s");
}

// --- extension info ---

#[test]
fn extension_sources() {
    assert_eq!(extension_source(true, "docs.pdf"), InfoSource::Readme);
    assert_eq!(extension_source(false, "a.Pdf"), InfoSource::Pdf);
    assert_eq!(extension_source(false, "a.txt"), InfoSource::Nothing);
}

#[test]
fn extension_info_texts() {
    assert_eq!(
        find_extension_info(InfoSource::Readme, Some("## Tagline\n  hello  \n")),
        Some("README: hello".to_string())
    );
    assert_eq!(
        find_extension_info(InfoSource::Pdf, Some("/Title (A \\(b\\))")),
        Some("PDF: A (b\\".to_string())
    );
    assert_eq!(find_extension_info(InfoSource::Pdf, None), None);
    assert_eq!(find_extension_info(InfoSource::Nothing, Some("x")), None);
}

#[test]
fn pdf_names() {
    assert!(!is_pdf(".pdf"));
    assert!(is_pdf("a.b.pdf"));
    assert!(!is_pdf("pdf"));
    assert!(!is_pdf("a.pdfx"));
}

#[test]
fn tagline_heading_needs_lowercase_mapping() {
    assert!(is_tagline_heading("# TAGLINE"));
    assert!(!is_tagline_heading("# TAG LINE"));
}

#[test]
fn between_markers() {
    assert_eq!(extract_between("x[ab]y[c]", "[", "]"), Some("ab".to_string()));
    assert_eq!(extract_between("x[ab", "[", "]"), None);
    assert_eq!(extract_between("xab]", "[", "]"), None);
}

#[test]
fn slash_only_lines_become_odd_patterns() {
    // Stripping leading slashes happens after the comment and blank checks.
    let rules = GitignoreRules::load(Some("/\n/#x\n/!y\n"));
    assert_eq!(
        rules.patterns,
        vec!["".to_string(), "#x".to_string(), "!y".to_string()]
    );
    assert!(rules.is_ignored("#x", false));
}

#[test]
fn lowered_text_helpers() {
    assert!(contains_tagline("## tagline（概要）"));
    assert!(!contains_tagline("## TAGLINE"));
    assert_eq!(compare_lowered("a", "b"), Ordering::Less);
    assert_eq!(compare_lowered("b", "a"), Ordering::Greater);
    assert_eq!(compare_lowered("ab", "a"), Ordering::Greater);
    assert_eq!(compare_lowered("é", "z"), Ordering::Greater);
    assert_eq!(compare_lowered("same", "same"), Ordering::Equal);
}

#[test]
fn between_gives_back_the_enclosed_text() {
    assert_eq!(
        extract_between("pre<a>mid</a>post</a>", "<a>", "</a>"),
        Some("mid".to_string())
    );
    assert_eq!(extract_between("[]", "[", "]"), Some(String::new()));
}
