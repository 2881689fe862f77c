use ripf::open::{argv_from_words, build_argv, OpenError};

#[test]
fn subsitute_all_placeholders() {
    let argv = build_argv("cursor -g {file}:{line}:{col}", "src/main.rs", 42, 7).unwrap();
    assert_eq!(argv, vec!["cursor", "-g", "src/main.rs:42:7"]);
}

#[test]
fn path_with_spaces_stays_one_arg() {
    let argv = build_argv("cursor -g {file}:{line}:{col}", "my dir/a.rs", 1, 1).unwrap();
    assert_eq!(argv, vec!["cursor", "-g", "my dir/a.rs:1:1"]);
}

#[test]
fn template_without_col_is_valid() {
    let argv = build_argv("nvim +{line} {file}", "a.rs", 9, 3).unwrap();
    assert_eq!(argv, vec!["nvim", "+9", "a.rs"]);
}

#[test]
fn empty_template_errors() {
    assert!(build_argv("", "a.rs", 1, 1).is_err());
}

#[test]
fn empty_template_is_the_empty_error() {
    assert!(matches!(build_argv("   ", "a.rs", 1, 1), Err(OpenError::Empty)));
    assert_eq!(OpenError::Empty.message(), "open_command is empty");
}

#[test]
fn unterminated_quote_is_a_syntax_error() {
    match build_argv("code \"{file}", "a.rs", 1, 1) {
        Err(e @ OpenError::InvalidSyntax(_)) => {
            assert_eq!(e.message(), "open_command is not valid shell syntax: `code \"{file}`")
        }
        other => panic!("expected a syntax error, got {other:?}"),
    }
}

#[test]
fn quoted_words_and_repeated_placeholders() {
    let argv = build_argv("emacsclient '+{line}:{col}' {file} {file}", "x y.rs", 120, 0).unwrap();
    assert_eq!(argv, vec!["emacsclient", "+120:0", "x y.rs", "x y.rs"]);
}

#[test]
fn placeholders_in_the_path_are_substituted_too() {
    // `{file}` goes first, so a path spelling `{line}` gets the line number.
    let argv = argv_from_words(vec!["{file}".to_string()], "a{line}.rs", 5, 6).unwrap();
    assert_eq!(argv, vec!["a5.rs"]);
    assert!(matches!(argv_from_words(vec![], "a.rs", 1, 1), Err(OpenError::Empty)));
}

#[test]
fn one_argument_per_template_word() {
    let argv = build_argv("hx {file}:{line}:{col} --verbose", "a b;c 'd'.rs", 3, 4).unwrap();
    assert_eq!(argv, vec!["hx", "a b;c 'd'.rs:3:4", "--verbose"]);
}
