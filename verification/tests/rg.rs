use ripf::rg::{
    checks_generation, hit_from_match, rg_args, rg_outcome, RgCollect, RgStep, MAX_HITS,
};

fn one() -> Option<ripf::rg::Hit> {
    hit_from_match("a.rs".to_string(), "let col = 1;\n", Some(1), Some(4))
}

#[test]
fn a_match_message_becomes_a_hit() {
    let hit = one().expect("should parse");
    assert_eq!(hit.path, "a.rs");
    assert_eq!(hit.line_number, 1);
    assert_eq!(hit.col, 5);
    assert_eq!(hit.line_text, "let col = 1;");
    assert!(hit_from_match("a.rs".to_string(), "x", None, Some(0)).is_none());
    assert_eq!(hit_from_match("a.rs".to_string(), "x", Some(2), None).unwrap().col, 1);
}

#[test]
fn the_generation_is_checked_every_64_lines() {
    assert!(checks_generation(0));
    assert!(!checks_generation(1));
    assert!(!checks_generation(63));
    assert!(checks_generation(128));
}

#[test]
fn a_stale_generation_cancels_only_where_it_is_checked() {
    let mut c = RgCollect::new();
    assert_eq!(c.line(1, true, one()), RgStep::Continue);
    assert_eq!(c.hits.len(), 1);
    assert_eq!(c.line(2, false, None), RgStep::Continue);
    assert_eq!(c.line(64, true, one()), RgStep::Cancelled);
    assert_eq!(c.hits.len(), 1);
}

#[test]
fn the_cap_stops_the_run() {
    let mut c = RgCollect::new();
    for i in 1..MAX_HITS {
        assert_eq!(c.line(i, false, one()), RgStep::Continue);
    }
    assert_eq!(c.line(MAX_HITS, false, one()), RgStep::Full);
    assert_eq!(c.hits.len(), MAX_HITS);
}

#[test]
fn exit_code_two_is_a_failure_with_rgs_words() {
    assert_eq!(rg_outcome(Some(0), ""), Ok(()));
    assert_eq!(rg_outcome(Some(1), "ignored"), Ok(()));
    assert_eq!(rg_outcome(None, ""), Ok(()));
    assert_eq!(
        rg_outcome(Some(2), "  regex parse error:\n  foo(\n"),
        Err("rg failed: regex parse error:\n  foo(".to_string())
    );
}

#[test]
fn rg_is_run_with_json_types_and_the_query_after_a_double_dash() {
    let types = vec!["rust".to_string(), "toml".to_string()];
    assert_eq!(
        rg_args("-needle", &types),
        vec!["--json", "--color=never", "--type", "rust", "--type", "toml", "--", "-needle"]
    );
    assert_eq!(rg_args("x", &[]), vec!["--json", "--color=never", "--", "x"]);
}
