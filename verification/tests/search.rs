use ripf::print::{exit_code, file_lines, grep_lines};
use ripf::search::engine::{
    admitted, build_matcher, build_types, first_line, walk_should_quit, HitSink, BATCH,
};
use ripf::search::files::{in_batches, rank, ranked_hits};
use ripf::search::{Hit, MAX_HITS};

#[test]
fn first_line_skips_blank_lines_and_trims() {
    assert_eq!(first_line("\n  \r\n  regex parse error:  \n    foo(\n"), "regex parse error:");
    assert_eq!(first_line(""), "search failed");
    assert_eq!(first_line(" \n\t\n"), "search failed");
    assert_eq!(first_line("one"), "one");
}

#[test]
fn invalid_regex_reports_its_first_line() {
    let err = build_matcher("foo(").err().expect("`foo(` must not compile");
    assert!(err.contains("regex parse error"), "unhelpful error: {err}");
    assert!(!err.contains('\n'));
}

#[test]
fn unknown_file_type_is_an_error() {
    assert!(build_types(&["rust".to_string(), "toml".to_string()]).is_ok());
    let err = build_types(&["nosuchtype".to_string()]).err().expect("must fail");
    assert!(err.contains("nosuchtype"), "unhelpful error: {err}");
}

#[test]
fn sink_builds_hits_with_smart_case_columns() {
    let lower = build_matcher("needle").ok().unwrap();
    let mut sink = HitSink::new("src/main.rs".to_string(), 4);
    assert!(sink.is_current(4));
    assert!(!sink.is_current(5));
    let (go, flush) = sink.matched(4, 0, &lower, Some(3), b"    let Needle = 1;\t \n");
    assert!(go && !flush);
    let batch = sink.take_batch();
    assert_eq!(batch.len(), 1);
    assert_eq!(batch[0].path, "src/main.rs");
    assert_eq!(batch[0].line_number, 3);
    assert_eq!(batch[0].col, 9);
    assert_eq!(batch[0].line_text, "    let Needle = 1;");
    assert!(sink.batch.is_empty());
    let upper = build_matcher("Needle").ok().unwrap();
    sink.matched(4, 1, &upper, None, b"needle Needle");
    assert_eq!(sink.batch[0].col, 8);
    assert_eq!(sink.batch[0].line_number, 0);
    // Invalid UTF-8 is replaced, not dropped.
    sink.matched(4, 2, &upper, Some(1), b"\xffNeedle");
    assert_eq!(sink.batch[1].line_text, "\u{FFFD}Needle");
    assert_eq!(sink.batch[1].col, 2);
}

#[test]
fn sink_stops_at_the_cap_and_flushes_in_batches() {
    let m = build_matcher("x").ok().unwrap();
    let mut sink = HitSink::new("f".to_string(), 0);
    assert_eq!(sink.matched(0, MAX_HITS, &m, Some(1), b"x"), (false, false));
    assert!(sink.batch.is_empty());
    let mut flushes = 0;
    for i in 0..49 {
        let (go, flush) = sink.matched(0, i, &m, Some(1), b"x");
        assert!(go);
        if flush {
            flushes += 1;
        }
    }
    assert_eq!(flushes, 0);
    assert_eq!(sink.matched(0, 49, &m, Some(1), b"x"), (true, true));
    assert!(walk_should_quit(1, 0, 0));
    assert!(walk_should_quit(0, 0, MAX_HITS));
    assert!(!walk_should_quit(0, 0, MAX_HITS - 1));
}

fn paths(ps: &[&str]) -> Vec<String> {
    ps.iter().map(|p| p.to_string()).collect()
}

#[test]
fn fuzzy_rank_matches_non_contiguous_characters() {
    let ps = paths(&["conf.toml", "src/main.rs", "src/domain/parser.rs"]);
    // Both src/main.rs and src/domain/parser.rs hold m-a-i-n-r-s in order;
    // the path bonuses put main.rs first, and conf.toml does not match.
    let r = rank(&ps, "mainrs", 100);
    assert_eq!(r, vec![1, 2]);
    assert!(rank(&ps, "zzzqqqnope", 100).is_empty());
}

#[test]
fn fuzzy_rank_is_deterministic_and_capped() {
    let ps = paths(&["b/o.rs", "a/o.rs", "conf.toml", "src/main.rs", "zz"]);
    let a = rank(&ps, "o", 100);
    let b = rank(&ps, "o", 100);
    assert_eq!(a, b);
    assert!(!a.contains(&3) && !a.contains(&4));
    assert_eq!(a.len(), 3);
    assert_eq!(rank(&ps, "o", 2), a[..2].to_vec());
    // Equal scores fall back to the path: "a/o.rs" before "b/o.rs".
    let pa = a.iter().position(|&i| i == 1).unwrap();
    let pb = a.iter().position(|&i| i == 0).unwrap();
    assert!(pa < pb);
}

#[test]
fn empty_query_lists_every_path_by_path() {
    let ps = paths(&["src/main.rs", "conf.toml"]);
    assert_eq!(rank(&ps, "", 100), vec![1, 0]);
    let hits = ranked_hits(&ps, &[1, 0]);
    assert_eq!(hits[0].path, "conf.toml");
    assert_eq!((hits[0].line_number, hits[0].col), (1, 1));
    assert_eq!(hits[0].line_text, "");
    assert_eq!(file_lines(&hits), vec!["conf.toml", "src/main.rs"]);
}

fn h(path: &str, line: u64, col: u64) -> Hit {
    Hit { path: path.to_string(), line_number: line, col, line_text: String::new() }
}

#[test]
fn print_lines_are_sorted_by_path_line_and_column() {
    let hits = vec![h("src/main.rs", 3, 15), h("conf.toml", 1, 1), h("src/main.rs", 2, 9), h("src/main.rs", 2, 1)];
    assert_eq!(
        grep_lines(&hits),
        vec!["conf.toml:1:1", "src/main.rs:2:1", "src/main.rs:2:9", "src/main.rs:3:15"]
    );
    assert!(grep_lines(&vec![]).is_empty());
}

#[test]
fn exit_codes_follow_grep() {
    assert_eq!(exit_code(false, 3), 0);
    assert_eq!(exit_code(false, 0), 1);
    assert_eq!(exit_code(true, 0), 2);
    assert_eq!(exit_code(true, 5), 2);
}

#[test]
fn ranked_hits_go_out_in_batches_of_fifty() {
    let hits: Vec<Hit> = (0..120).map(|i| h(&format!("p{i}"), 1, 1)).collect();
    let batches = in_batches(&hits);
    assert_eq!(batches.iter().map(|b| b.len()).collect::<Vec<_>>(), vec![BATCH, BATCH, 20]);
    assert_eq!(batches[2][19].path, "p119");
    assert_eq!(batches[1][0].path, "p50");
    assert!(in_batches(&Vec::new()).is_empty());
}

#[test]
fn a_stale_generation_stops_the_file() {
    let m = build_matcher("x").ok().unwrap();
    let mut sink = HitSink::new("f".to_string(), 7);
    assert_eq!(sink.matched(7, 0, &m, Some(1), b"x"), (true, false));
    assert_eq!(sink.matched(8, 1, &m, Some(2), b"x"), (false, false));
    assert_eq!(sink.batch.len(), 1);
    sink.take_batch();
    assert!(sink.search(8, &m, b"x
x
", 0).is_empty());
    let batches = sink.search(7, &m, b"x
x
", 0);
    assert_eq!(batches.len(), 1);
    assert_eq!(batches[0].len(), 2);
}

#[test]
fn the_cap_admits_what_is_left() {
    assert_eq!(admitted(0, 50), 50);
    assert_eq!(admitted(MAX_HITS - 10, 50), 10);
    assert_eq!(admitted(MAX_HITS, 50), 0);
    assert_eq!(admitted(MAX_HITS + 3, 1), 0);
}

#[test]
fn a_nul_byte_ends_the_search_of_its_buffer() {
    let m = build_matcher("x").ok().unwrap();
    let mut sink = HitSink::new("f".to_string(), 0);
    assert!(sink.search(0, &m, b"x\n\x00x\n", 0).is_empty());
    // The first buffer read has no NUL and is searched; the buffer that
    // holds the NUL, and the match in it, is not.
    let mut bytes = b"x\n".to_vec();
    bytes.extend("y\n".repeat(60_000).into_bytes());
    bytes.extend(b"x\n\x00");
    let batches = sink.search(0, &m, &bytes, 0);
    assert_eq!(batches.len(), 1);
    assert_eq!(batches[0].len(), 1);
    assert_eq!(batches[0][0].line_number, 1);
}

#[test]
fn the_longest_fuzzy_query_scores_without_overflow() {
    let q = "a".repeat(ripf::search::files::MAX_QUERY_CHARS);
    let ps = paths(&[&q, "b"]);
    assert_eq!(rank(&ps, &q, 10), vec![0]);
    let spaced: String = "a/".repeat(ripf::search::files::MAX_QUERY_CHARS);
    let ps = paths(&[&spaced]);
    assert_eq!(rank(&ps, &q, 10), vec![0]);
}

#[test]
fn batches_are_full_but_for_the_last() {
    let hits: Vec<Hit> = (0..101).map(|i| h(&format!("p{i}"), 1, 1)).collect();
    let batches = in_batches(&hits);
    assert_eq!(batches.iter().map(|b| b.len()).collect::<Vec<_>>(), vec![BATCH, BATCH, 1]);
    let m = build_matcher("x").ok().unwrap();
    let mut sink = HitSink::new("f".to_string(), 0);
    let text = "x\n".repeat(120);
    let sizes: Vec<usize> = sink.search(0, &m, text.as_bytes(), 0).iter().map(|b| b.len()).collect();
    assert_eq!(sizes, vec![BATCH, BATCH, 20]);
}
