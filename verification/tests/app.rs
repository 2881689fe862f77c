use ripf::app::{App, Mode};
use ripf::search::{Hit, MAX_HITS};

fn hit(path: &str, line: u64) -> Hit {
    Hit { path: path.to_string(), line_number: line, col: 1, line_text: String::new() }
}

#[test]
fn new_puts_the_caret_at_the_end() {
    let app = App::new("héllo".to_string());
    assert_eq!(app.cursor, 6);
    assert_eq!(app.cursor_col(), 5);
    assert!(app.hits.is_empty());
    assert_eq!(app.selected, 0);
    assert_eq!(app.generation, 0);
    assert_eq!(app.status, "");
}

#[test]
fn typing_and_deleting_multibyte_chars() {
    let mut app = App::new(String::new());
    app.insert('a');
    app.insert('é');
    app.insert('€');
    app.insert('😀');
    assert_eq!(app.query, "aé€😀");
    assert_eq!(app.cursor, 1 + 2 + 3 + 4);
    assert_eq!(app.cursor_col(), 4);
    app.backspace();
    assert_eq!(app.query, "aé€");
    assert_eq!(app.cursor, 6);
    app.move_left();
    app.move_left();
    assert_eq!(app.cursor, 1);
    app.insert('x');
    assert_eq!(app.query, "axé€");
    assert_eq!(app.cursor_col(), 2);
}

#[test]
fn backspace_undoes_insert_anywhere() {
    let mut app = App::new("ab€d".to_string());
    app.move_left();
    app.move_left();
    let (q, c) = (app.query.clone(), app.cursor);
    app.insert('Ω');
    assert_eq!(app.query, "abΩ€d");
    app.backspace();
    assert_eq!(app.query, q);
    assert_eq!(app.cursor, c);
}

#[test]
fn caret_stops_at_both_ends() {
    let mut app = App::new("ab".to_string());
    app.move_right();
    assert_eq!(app.cursor, 2);
    app.move_left();
    app.move_left();
    app.move_left();
    assert_eq!(app.cursor, 0);
    app.backspace();
    assert_eq!(app.query, "ab");
    app.move_right();
    assert_eq!(app.cursor, 1);
}

#[test]
fn selection_is_clamped() {
    let mut app = App::new(String::new());
    app.move_selection(3);
    assert_eq!(app.selected, 0);
    app.set_hits(0, vec![hit("a", 1), hit("b", 2), hit("c", 3)], 7);
    app.move_selection(10);
    assert_eq!(app.selected, 2);
    app.move_selection(-1);
    assert_eq!(app.selected, 1);
    app.move_selection(isize::MIN);
    assert_eq!(app.selected, 0);
    app.move_selection(isize::MAX);
    assert_eq!(app.selected, 2);
}

#[test]
fn marks_toggle_and_targets_follow_index_order() {
    let mut app = App::new(String::new());
    app.toggle_mark();
    assert!(app.marked.is_empty());
    app.set_hits(0, vec![hit("a", 1), hit("b", 2), hit("c", 3)], 7);
    assert_eq!(app.targets().iter().map(|h| h.path.as_str()).collect::<Vec<_>>(), ["a"]);
    app.move_selection(2);
    app.toggle_mark();
    app.move_selection(-2);
    app.toggle_mark();
    let paths: Vec<&str> = app.targets().iter().map(|h| h.path.as_str()).collect();
    assert_eq!(paths, ["a", "c"]);
    app.toggle_mark();
    let paths: Vec<&str> = app.targets().iter().map(|h| h.path.as_str()).collect();
    assert_eq!(paths, ["c"]);
    // A mark past the end of the results is skipped.
    app.marked.insert(9);
    let paths: Vec<&str> = app.targets().iter().map(|h| h.path.as_str()).collect();
    assert_eq!(paths, ["c"]);
}

#[test]
fn stale_results_and_errors_are_dropped() {
    let mut app = App::new(String::new());
    app.generation = 3;
    app.set_hits(2, vec![hit("a", 1)], 5);
    assert!(app.hits.is_empty());
    assert_eq!(app.status, "");
    app.set_error(1, "boom".to_string());
    assert_eq!(app.status, "");
    app.set_hits(3, vec![hit("a", 1), hit("b", 1)], 12);
    assert_eq!(app.status, "2 matches in 12ms");
    app.toggle_mark();
    app.set_error(3, "regex parse error".to_string());
    assert!(app.hits.is_empty());
    assert!(app.marked.is_empty());
    assert_eq!(app.status, "regex parse error");
}

#[test]
fn capped_results_get_a_plus() {
    let mut app = App::new(String::new());
    let hits: Vec<Hit> = (0..MAX_HITS as u64).map(|i| hit("f", i + 1)).collect();
    app.set_hits(0, hits, 0);
    assert_eq!(app.status, "5000+ matches in 0ms");
}

#[test]
fn mode_labels_and_toggle() {
    assert_eq!(Mode::Grep.label(), "GREP");
    assert_eq!(Mode::Files.label(), "FILES");
    assert_eq!(Mode::Grep.toggled(), Mode::Files);
    assert_eq!(Mode::Files.toggled(), Mode::Grep);
}
