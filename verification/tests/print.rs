//! `--print` end to end over an in-memory tree: what the walk would hand the
//! library (paths and their bytes), and what the library prints back.
//!
//! The tree: `conf.toml`, `src/main.rs`, the dotfile `.hidden.txt` and the
//! gitignored `build/out.txt`. Which of them a walk visits is decided by the
//! walk filters, tested here through `WalkOpts::filters`.

use ripf::print::{exit_code, print_files, GrepPrint};
use ripf::search::{display_path, WalkOpts};

const CONF: &str = "needle = true\n";
const MAIN: &str = "fn main() {\n    let needle = 1;\n    println!(\"Needle {}\", needle);\n}\n";
const HIDDEN: &str = "a needle in a dotfile\n";
const OUT: &str = "needle in the build output\n";

/// The files a walk with `opts` visits, in walk order.
fn walk(opts: WalkOpts) -> Vec<(&'static str, &'static str)> {
    let f = opts.filters();
    let mut files = vec![("./src/main.rs", MAIN), ("./conf.toml", CONF)];
    if !f.hidden {
        files.push(("./.hidden.txt", HIDDEN));
    }
    if !f.git_ignore {
        files.push(("./build/out.txt", OUT));
    }
    files
}

/// `--print QUERY` with `-t` types over the walked files: printed lines,
/// exit code, and the error message when the search never started.
fn grep(query: &str, types: &[&str], files: &[(&str, &str)]) -> (Vec<String>, i32, String) {
    let types: Vec<String> = types.iter().map(|t| t.to_string()).collect();
    match GrepPrint::new(query, &types) {
        Ok(mut run) => {
            for (path, text) in files {
                run.add_file(&display_path(path), text.as_bytes());
            }
            let (lines, code) = run.finish();
            (lines, code, String::new())
        }
        Err(e) => (Vec::new(), exit_code(true, 0), e),
    }
}

/// `--print -f QUERY` over the walked files.
fn files(query: &str, walked: &[(&str, &str)]) -> (Vec<String>, i32) {
    let paths: Vec<String> = walked.iter().map(|(p, _)| display_path(p)).collect();
    print_files(&paths, query)
}

#[test]
fn finds_matches_across_file_types() {
    let (lines, code, _) = grep("needle", &[], &walk(WalkOpts::default()));
    assert_eq!(code, 0);
    assert_eq!(lines, ["conf.toml:1:1", "src/main.rs:2:9", "src/main.rs:3:15"]);
}

#[test]
fn output_is_sorted_despite_the_parallel_walk() {
    let mut walked = walk(WalkOpts::default());
    let (a, _, _) = grep("needle", &[], &walked);
    walked.reverse();
    let (b, _, _) = grep("needle", &[], &walked);
    assert_eq!(a, b);
}

#[test]
fn skips_gitignored_and_hidden_files() {
    let f = WalkOpts::default().filters();
    assert!(f.hidden && f.git_ignore && f.git_global && f.git_exclude && f.ignore && f.parents);
    let (lines, _, _) = grep("needle", &[], &walk(WalkOpts::default()));
    assert!(
        !lines.iter().any(|l| l.contains("build/out.txt")),
        "gitignored file was searched: {lines:?}"
    );
    assert!(
        !lines.iter().any(|l| l.contains("hidden")),
        "hidden file was searched: {lines:?}"
    );
}

#[test]
fn smart_case_lowercase_query_is_insensitive() {
    let (lines, _, _) = grep("needle", &[], &walk(WalkOpts::default()));
    assert!(lines.contains(&"src/main.rs:3:15".to_string()));
}

#[test]
fn smart_case_uppercase_query_is_sensitive() {
    let (lines, _, _) = grep("Needle", &[], &walk(WalkOpts::default()));
    assert_eq!(lines, ["src/main.rs:3:15"]);
}

#[test]
fn type_filter_restricts_results() {
    let (lines, _, _) = grep("needle", &["toml"], &walk(WalkOpts::default()));
    assert_eq!(lines, ["conf.toml:1:1"]);
}

#[test]
fn no_matches_exits_one_like_grep() {
    let (lines, code, _) = grep("zzzznope", &[], &walk(WalkOpts::default()));
    assert!(lines.is_empty());
    assert_eq!(code, 1);
}

#[test]
fn invalid_regex_exits_two_with_a_message() {
    let (_, code, stderr) = grep("foo(", &[], &walk(WalkOpts::default()));
    assert_eq!(code, 2);
    assert!(stderr.contains("regex parse error"), "unhelpful error: {stderr}");
}

#[test]
fn file_mode_lists_every_searchable_file() {
    let (mut lines, code) = files("", &walk(WalkOpts::default()));
    lines.sort();
    assert_eq!(code, 0);
    assert_eq!(lines, ["conf.toml", "src/main.rs"]);
}

#[test]
fn file_mode_respects_the_same_ignore_rules() {
    let (lines, _) = files("", &walk(WalkOpts::default()));
    assert!(
        !lines.iter().any(|l| l.contains("build/out.txt")),
        "gitignored file listed: {lines:?}"
    );
    assert!(
        !lines.iter().any(|l| l.contains("hidden")),
        "hidden file listed: {lines:?}"
    );
}

#[test]
fn file_mode_fuzzy_matches_non_contiguous_characters() {
    let (lines, _) = files("mainrs", &walk(WalkOpts::default()));
    assert_eq!(lines, ["src/main.rs"]);
}

#[test]
fn file_mode_ranks_best_match_first() {
    let mut walked = walk(WalkOpts::default());
    let (a, _) = files("o", &walked);
    walked.reverse();
    let (b, _) = files("o", &walked);
    assert_eq!(a, b, "ranking is unstable between runs");
    assert!(!a.is_empty());
}

#[test]
fn file_mode_no_match_exits_one() {
    let (lines, code) = files("zzzqqqnope", &walk(WalkOpts::default()));
    assert!(lines.is_empty());
    assert_eq!(code, 1);
}

#[test]
fn hidden_flag_includes_dotfiles() {
    let hidden = WalkOpts { hidden: true, no_ignore: false };
    assert!(!hidden.filters().hidden);
    assert!(hidden.filters().git_ignore);
    let (without, _, _) = grep("needle", &[], &walk(WalkOpts::default()));
    let (with, _, _) = grep("needle", &[], &walk(hidden));
    assert!(!without.iter().any(|l| l.contains(".hidden.txt")));
    assert!(
        with.iter().any(|l| l.contains(".hidden.txt")),
        "--hidden did not reach the dotfile: {with:?}"
    );
}

#[test]
fn no_ignore_flag_includes_gitignored_files() {
    let no_ignore = WalkOpts { hidden: false, no_ignore: true };
    let f = no_ignore.filters();
    assert!(f.hidden);
    assert!(!f.git_ignore && !f.git_global && !f.git_exclude && !f.ignore && !f.parents);
    let (without, _, _) = grep("needle", &[], &walk(WalkOpts::default()));
    let (with, _, _) = grep("needle", &[], &walk(no_ignore));
    assert!(!without.iter().any(|l| l.contains("build/out.txt")));
    assert!(
        with.iter().any(|l| l.contains("build/out.txt")),
        "--no-ignore did not reach the ignored file: {with:?}"
    );
}

#[test]
fn ignore_overrides_apply_in_file_mode_too() {
    let both = WalkOpts { hidden: true, no_ignore: true };
    let (with, _) = files("", &walk(both));
    assert!(with.iter().any(|l| l.contains(".hidden.txt")));
    assert!(with.iter().any(|l| l.contains("build/out.txt")));
}

#[test]
fn query_starting_with_a_dash_is_not_a_flag() {
    let (_, code, stderr) = grep("-needle", &[], &walk(WalkOpts::default()));
    assert_ne!(code, 2, "treated as a flag: {stderr}");
}

#[test]
fn walked_paths_drop_the_leading_dot_slash() {
    assert_eq!(display_path("./src/x.rs"), "src/x.rs");
    assert_eq!(display_path("src/x.rs"), "src/x.rs");
    assert_eq!(display_path("."), ".");
    assert_eq!(display_path(".hidden"), ".hidden");
}

#[test]
fn content_hits_stop_at_the_cap() {
    let mut run = GrepPrint::new("x", &[]).ok().unwrap();
    let text = "x\n".repeat(3000);
    run.add_file("a", text.as_bytes());
    assert!(!run.is_full());
    run.add_file("b", text.as_bytes());
    assert!(run.is_full());
    run.add_file("c", text.as_bytes());
    let (lines, code) = run.finish();
    assert_eq!(code, 0);
    assert_eq!(lines.len(), ripf::search::MAX_HITS);
    assert_eq!(lines.iter().filter(|l| l.starts_with("b:")).count(), 2000);
    assert!(!lines.iter().any(|l| l.starts_with("c:")));
    assert_eq!(lines[0], "a:1:1");
    assert_eq!(lines[1], "a:2:1");
}
