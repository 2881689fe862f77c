use ripf::keys::{parse, Chord, KeyCode, KeyModifiers, Keymap};

#[test]
fn parses_a_modifier_and_a_char() {
    assert_eq!(
        parse("ctrl-f").unwrap(),
        Chord::new(KeyCode::Char('f'), KeyModifiers::control())
    );
}

#[test]
fn parses_a_bare_named_key() {
    assert_eq!(
        parse("tab").unwrap(),
        Chord::new(KeyCode::Tab, KeyModifiers::none())
    );
}

#[test]
fn parses_stacked_modifiers_case_insensitively() {
    let got = parse("Alt-Shift-P").unwrap();
    assert_eq!(
        got,
        Chord::new(KeyCode::Char('p'), KeyModifiers::alt().union(KeyModifiers::shift()))
    );
}

#[test]
fn rejects_unknown_modifiers_and_keys() {
    assert!(parse("hyper-f").is_err());
    assert!(parse("ctrl-nonsense").is_err());
    assert!(parse("").is_err());
}

#[test]
fn matching_ignores_irrelevant_modifier_bits() {
    let chord = Chord::new(KeyCode::Tab, KeyModifiers::none());
    assert!(chord.matches(KeyCode::Tab, KeyModifiers::none()));
    assert!(!chord.matches(KeyCode::Tab, KeyModifiers::control()));
}

#[test]
fn matching_drops_bits_other_than_ctrl_alt_shift() {
    let chord = Chord::new(KeyCode::Char('f'), KeyModifiers::control());
    // 0b1000 is the terminal's SUPER bit, 0b10_0000 its META bit.
    assert!(chord.matches(KeyCode::Char('f'), KeyModifiers { bits: 0b0010_1010 }));
    assert!(!chord.matches(KeyCode::Char('g'), KeyModifiers::control()));
}

#[test]
fn error_messages_name_the_culprit_and_the_binding() {
    assert_eq!(parse("hyper-f").unwrap_err(), "unknown modifier `hyper` in `hyper-f`");
    assert_eq!(parse("ctrl-nonsense").unwrap_err(), "unknown key `nonsense` in `ctrl-nonsense`");
    assert_eq!(parse("   ").unwrap_err(), "empty key binding");
    // The first unknown modifier is the one reported.
    assert_eq!(parse(" Foo-Bar-x ").unwrap_err(), "unknown modifier `foo` in ` Foo-Bar-x `");
}

#[test]
fn named_keys_and_space() {
    assert_eq!(parse("space").unwrap(), Chord::new(KeyCode::Char(' '), KeyModifiers::none()));
    assert_eq!(parse(" ESC ").unwrap(), Chord::new(KeyCode::Esc, KeyModifiers::none()));
    assert_eq!(parse("shift-up").unwrap(), Chord::new(KeyCode::Up, KeyModifiers::shift()));
    assert_eq!(
        parse("ctrl-ctrl-backspace").unwrap(),
        Chord::new(KeyCode::Backspace, KeyModifiers::control())
    );
    // A dash key cannot be named: "ctrl--" has an empty modifier.
    assert!(parse("ctrl--").is_err());
}

#[test]
fn default_keymap() {
    let k = Keymap::default();
    assert_eq!(k.toggle_mode, Chord::new(KeyCode::Char('f'), KeyModifiers::control()));
    assert_eq!(k.toggle_preview, Chord::new(KeyCode::Char('p'), KeyModifiers::control()));
    assert_eq!(k.refresh, Chord::new(KeyCode::Char('r'), KeyModifiers::control()));
    assert_eq!(k.mark, Chord::new(KeyCode::Tab, KeyModifiers::none()));
}

#[test]
fn bindings_differing_only_in_case_are_the_same_chord() {
    assert_eq!(parse("CTRL-F"), parse("ctrl-f"));
    assert_eq!(parse(" Alt-Shift-P "), parse("alt-shift-p"));
    assert!(parse("HYPER-f").is_err() && parse("hyper-f").is_err());
}

#[test]
fn a_parsed_chord_matches_its_own_key() {
    for b in ["ctrl-f", "alt-shift-p", "tab", "ctrl-alt-shift-x"] {
        let c = parse(b).unwrap();
        assert!(c.matches(c.code, c.mods), "{b} cannot be pressed");
    }
}

#[test]
fn padding_and_case_do_not_change_a_binding() {
    for b in ["ctrl-f", "alt-shift-p", "tab", "space", "hyper-x", "ctrl-nonsense"] {
        let padded = format!(" {} ", b.to_ascii_uppercase());
        assert_eq!(parse(b).ok(), parse(&padded).ok());
        assert_eq!(parse(b).is_ok(), parse(&padded).is_ok());
    }
}

#[test]
fn parsed_chords_use_three_modifiers_and_lowercase_keys() {
    for b in ["Ctrl-Alt-Shift-Q", "SHIFT-A", "x", "Enter"] {
        let c = parse(b).unwrap();
        assert_eq!(c.mods.bits & 0b111, c.mods.bits);
        assert!(!matches!(c.code, KeyCode::Char(k) if k.is_ascii_uppercase()));
    }
}
