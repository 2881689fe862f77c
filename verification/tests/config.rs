use ripf::cli::Cli;
use ripf::config::{pick_open_command, Config, ResolveError, Settings};

#[test]
fn cli_beats_config_and_editor() {
    let got = pick_open_command(
        Some("a {file}".into()),
        Some("b {file}".into()),
        Some("vim".into()),
    );
    assert_eq!(got.as_deref(), Some("a {file}"));
}

#[test]
fn config_beats_editor() {
    let got = pick_open_command(None, Some("b {file}".into()), Some("vim".into()));
    assert_eq!(got.as_deref(), Some("b {file}"));
}

#[test]
fn editor_is_last_resort() {
    let got = pick_open_command(None, None, Some("vim".into()));
    assert_eq!(got.as_deref(), Some("vim {file}"));
}

#[test]
fn blank_or_absent_editor_is_no_fallback() {
    assert_eq!(pick_open_command(None, None, Some("  ".into())), None);
    assert_eq!(pick_open_command(None, None, None), None);
}

#[test]
fn editor_is_trimmed_before_the_placeholder() {
    let got = pick_open_command(None, None, Some("\t nvim \n".into()));
    assert_eq!(got.as_deref(), Some("nvim {file}"));
}

fn cli(open: Option<&str>, print: bool) -> Cli {
    Cli {
        query: Some("needle".into()),
        open: open.map(|s| s.to_string()),
        print,
        types: vec!["rust".into()],
        files: false,
        resume: false,
        hidden: false,
        no_ignore: false,
    }
}

#[test]
fn resolve_without_any_editor_fails_unless_printing() {
    let err = Settings::resolve(cli(None, false), Config::default(), None);
    assert!(matches!(err, Err(ResolveError::NoEditor)));
    let ok = Settings::resolve(cli(None, true), Config::default(), None).unwrap();
    assert!(ok.open_command.is_none());
    assert!(ok.print);
}

#[test]
fn resolve_defaults_quit_on_open_to_true() {
    let s = Settings::resolve(cli(Some("code -g {file}"), false), Config::default(), None).unwrap();
    assert!(s.quit_on_open);
    assert_eq!(s.open_command.as_deref(), Some("code -g {file}"));
    assert_eq!(s.query.as_deref(), Some("needle"));
    assert_eq!(s.types, vec!["rust".to_string()]);
    let config = Config { open_command: None, quit_on_open: Some(false) };
    let s = Settings::resolve(cli(None, false), config, Some("hx".into())).unwrap();
    assert!(!s.quit_on_open);
    assert_eq!(s.open_command.as_deref(), Some("hx {file}"));
}

#[test]
fn no_editor_message_names_the_config_path() {
    let m = ResolveError::NoEditor.message("/home/u/.config/ripf/config.toml");
    assert_eq!(
        m,
        "no editor configured.\n  set open_command in /home/u/.config/ripf/config.toml\n  e.g. open_command = \"cursor -g {file}:{line}:{col}\"\n  or pass --open \"...\", or set $EDITOR"
    );
}
