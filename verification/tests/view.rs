use ripf::app::{App, Mode};
use ripf::preview::Preview;
use ripf::search::Hit;
use ripf::view::{preview_rows, result_rows};

fn hit(path: &str, line: u64, text: &str) -> Hit {
    Hit { path: path.to_string(), line_number: line, col: 1, line_text: text.to_string() }
}

fn app_with(hits: Vec<Hit>) -> App {
    let mut app = App::new(String::new());
    app.set_hits(0, hits, 3);
    app
}

#[test]
fn grep_rows_show_location_and_trimmed_text() {
    let mut app = app_with(vec![hit("src/a.rs", 12, "    let x = 1;  "), hit("b.rs", 3, "y")]);
    app.move_selection(1);
    app.toggle_mark();
    let rows = result_rows(&app, Mode::Grep);
    assert_eq!(rows.len(), 2);
    assert!(!rows[0].marked);
    assert_eq!(rows[0].location.as_deref(), Some("src/a.rs:12"));
    assert_eq!(rows[0].text, "let x = 1;");
    assert!(rows[1].marked);
    assert_eq!(rows[1].location.as_deref(), Some("b.rs:3"));
}

#[test]
fn file_rows_are_the_path() {
    let app = app_with(vec![hit("src/main.rs", 1, "")]);
    let rows = result_rows(&app, Mode::Files);
    assert_eq!(rows.len(), 1);
    assert_eq!(rows[0].location, None);
    assert_eq!(rows[0].text, "src/main.rs");
}

fn preview(line: u64, n: u64) -> Preview {
    let read: Vec<String> = (1..=n).map(|i| format!("line\t{i}")).collect();
    Preview::assemble("a.rs".to_string(), line, read)
}

#[test]
fn preview_rows_put_the_match_a_third_of_the_way_down() {
    let p = preview(50, 200);
    // Loaded lines 30..=89; line 50 is the 21st.
    assert_eq!(p.lines.first().map(|l| l.0), Some(30));
    assert_eq!(p.lines.last().map(|l| l.0), Some(89));
    let rows = preview_rows(&p, 12);
    assert_eq!(rows.len(), 12);
    // 20 - 12 / 3 = 16 lines are scrolled away.
    assert_eq!(rows[0].gutter, "   46 ");
    assert_eq!(rows[4].gutter, "   50 ");
    assert!(rows[4].is_hit);
    assert!(!rows[3].is_hit);
    assert_eq!(rows[4].text, "line    50");
}

#[test]
fn preview_rows_near_the_top_and_bottom() {
    let p = preview(2, 5);
    let rows = preview_rows(&p, 40);
    assert_eq!(rows.len(), 5);
    assert_eq!(rows[0].gutter, "    1 ");
    assert!(rows[1].is_hit);
    let empty = preview(3, 0);
    assert!(preview_rows(&empty, 10).is_empty());
    assert!(preview_rows(&p, 0).is_empty());
}

#[test]
fn wide_line_numbers_are_not_cut() {
    let read: Vec<String> = (1..=123_460).map(|_| String::new()).collect();
    let p = Preview::assemble("big".to_string(), 123_456, read);
    let rows = preview_rows(&p, 3);
    assert_eq!(rows[0].gutter, "123455 ");
    assert_eq!(rows[1].gutter, "123456 ");
    assert!(rows[1].is_hit);
}

#[test]
fn previews_reach_the_last_line_numbers_whose_window_fits() {
    let line = u64::MAX - 40;
    let p = Preview::assemble("big".to_string(), line, Vec::new());
    assert_eq!(p.line, line);
    assert!(p.lines.is_empty());
    assert_eq!(ripf::preview::window(line), (u64::MAX - 60, u64::MAX));
    assert_eq!(ripf::preview::window(1), (1, 61));
    assert_eq!(ripf::preview::window(25), (5, 65));
}
