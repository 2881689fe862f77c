use ripf::preview::{window, Preview};
use ripf::text::{char_after, char_before, chars_before, is_whitespace, push_decimal, trimmed, trimmed_end};

#[test]
fn decimal_digits() {
    let mut s = String::from("n=");
    push_decimal(&mut s, 0);
    s.push(',');
    push_decimal(&mut s, 1234567890123456789012345);
    assert_eq!(s, "n=0,1234567890123456789012345");
}

#[test]
fn chars_around_a_byte_offset() {
    let s = "aé😀z";
    assert_eq!(char_before(s, 0), None);
    assert_eq!(char_before(s, 3), Some('é'));
    assert_eq!(char_after(s, 3), Some('😀'));
    assert_eq!(char_after(s, 8), None);
    assert_eq!(chars_before(s, 7), 3);
}

#[test]
fn trimming_uses_unicode_whitespace() {
    assert_eq!(trimmed("\u{3000} a b \u{85}"), "a b");
    assert_eq!(trimmed_end("  x \t\r\n"), "  x");
    assert!(is_whitespace('\u{2009}'));
    assert!(!is_whitespace('\u{200B}'));
}

#[test]
fn preview_window_and_tabs() {
    assert_eq!(window(1), (1, 61));
    assert_eq!(window(21), (1, 61));
    assert_eq!(window(100), (80, 140));
    let read: Vec<String> = (1..=100).map(|n| format!("\tline {n}")).collect();
    let p = Preview::assemble("f.rs".to_string(), 100, read);
    assert_eq!(p.lines.len(), 21);
    assert_eq!(p.lines[0], (80, "    line 80".to_string()));
    assert_eq!(p.lines[20].0, 100);
    assert_eq!(p.scroll_start(30), 10);
    assert_eq!(p.scroll_start(90), 0);
    let short = Preview::assemble("g.rs".to_string(), 2, vec!["a".into(), "b\tc".into()]);
    assert_eq!(short.lines, vec![(1, "a".to_string()), (2, "b    c".to_string())]);
    assert_eq!(short.scroll_start(3), 0);
}
