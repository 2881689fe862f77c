//! The config file's contents and how they combine with the command line.
use crate::cli::Cli;
use crate::text::{trim, trimmed};
use vstd::prelude::*;

verus! {

/// Mirrors config.toml. Every field optional so that a partial file works.
pub struct Config {
    pub open_command: Option<String>,
    /// Option, not bool: an absent key must mean `true`, which
    /// `Settings::resolve` fills in.
    pub quit_on_open: Option<bool>,
}

impl Default for Config {
    fn default() -> (c: Self)
        ensures
            c.open_command is None,
            c.quit_on_open is None,
    {
        Config { open_command: None, quit_on_open: None }
    }
}

/// An optional string by its chars.
pub open spec fn opt_chars(o: Option<String>) -> Option<Seq<char>> {
    match o {
        Some(s) => Some(s@),
        None => None,
    }
}

/// The open command that wins: `--open`, then the config file, then
/// `$EDITOR` (trimmed, blank meaning unset) followed by ` {file}`.
pub open spec fn chosen_open_command(
    cli_open: Option<Seq<char>>,
    config_open: Option<Seq<char>>,
    editor: Option<Seq<char>>,
) -> Option<Seq<char>> {
    if cli_open is Some {
        cli_open
    } else if config_open is Some {
        config_open
    } else {
        match editor {
            None => None,
            Some(e) => if trim(e).len() == 0 {
                None
            } else {
                Some(trim(e) + " {file}"@)
            },
        }
    }
}

/// Precedence, whatever `$EDITOR` holds: `--open` wins over everything,
/// and without it the config file's command is used; `$EDITOR` (trimmed,
/// with ` {file}` added) only when neither is given, and nothing when it is
/// unset or blank.
pub proof fn law_open_command_precedence(
    cli_open: Option<Seq<char>>,
    config_open: Option<Seq<char>>,
    editor: Option<Seq<char>>,
)
    ensures
        cli_open matches Some(c) ==> chosen_open_command(cli_open, config_open, editor) == Some(c),
        cli_open is None && config_open is Some ==> chosen_open_command(
            cli_open,
            config_open,
            editor,
        ) == config_open,
        cli_open is None && config_open is None ==> chosen_open_command(
            cli_open,
            config_open,
            editor,
        ) == match editor {
            Some(e) => if trim(e).len() > 0 {
                Some(trim(e) + " {file}"@)
            } else {
                None
            },
            None => None,
        },
{
}

/// Precedence: --open > config file > $EDITOR. Reading `$EDITOR` is the
/// caller's job, which keeps this pure.
pub fn pick_open_command(
    cli_open: Option<String>,
    config_open: Option<String>,
    editor: Option<String>,
) -> (r: Option<String>)
    ensures
        opt_chars(r) == chosen_open_command(
            opt_chars(cli_open),
            opt_chars(config_open),
            opt_chars(editor),
        ),
        cli_open is Some ==> r == cli_open,
        cli_open is None && config_open is Some ==> r == config_open,
        cli_open is None && config_open is None && editor is None ==> r is None,
{
    if cli_open.is_some() {
        return cli_open;
    }
    if config_open.is_some() {
        return config_open;
    }
    match editor {
        None => None,
        Some(e) => {
            let mut t = trimmed(e.as_str());
            if t.as_str().is_empty() {
                None
            } else {
                // The $EDITOR shortcut drops the line number: `+{line}` would
                // suit vim but break `code` or `cursor` used as $EDITOR.
                t.append(" {file}");
                Some(t)
            }
        },
    }
}

/// Why the command line and the config file do not make a usable setup.
#[derive(Debug)]
pub enum ResolveError {
    /// No open command anywhere, and not in `--print` mode.
    NoEditor,
}

impl ResolveError {
    /// The message shown to the user; `config_path` is where the config
    /// file is looked for.
    pub fn message(&self, config_path: &str) -> (m: String)
        ensures
            m@ == "no editor configured.\n  set open_command in "@ + config_path@
                + "\n  e.g. open_command = \"cursor -g {file}:{line}:{col}\"\n  or pass --open \"...\", or set $EDITOR"@,
    {
        let mut m = String::from_str("no editor configured.\n  set open_command in ");
        m.append(config_path);
        m.append(
            "\n  e.g. open_command = \"cursor -g {file}:{line}:{col}\"\n  or pass --open \"...\", or set $EDITOR",
        );
        m
    }
}

/// Command line and config file merged into one resolved view.
pub struct Settings {
    /// `None` only when `print` is true, which `resolve` enforces.
    pub open_command: Option<String>,
    pub query: Option<String>,
    pub print: bool,
    pub types: Vec<String>,
    pub quit_on_open: bool,
}

impl Settings {
    /// Merges the command line, the config file and the value of `$EDITOR`.
    pub fn resolve(cli: Cli, config: Config, editor: Option<String>) -> (r: Result<
        Self,
        ResolveError,
    >)
        ensures
            ({
                let chosen = chosen_open_command(
                    opt_chars(cli.open),
                    opt_chars(config.open_command),
                    opt_chars(editor),
                );
                match r {
                    Err(_) => chosen is None && !cli.print,
                    Ok(s) => {
                        &&& (chosen is Some || cli.print)
                        &&& opt_chars(s.open_command) == chosen
                        &&& s.query == cli.query
                        &&& s.print == cli.print
                        &&& s.types == cli.types
                        &&& s.quit_on_open == match config.quit_on_open {
                            Some(b) => b,
                            None => true,
                        }
                    },
                }
            }),
    {
        let open_command = pick_open_command(cli.open, config.open_command, editor);
        if open_command.is_none() && !cli.print {
            return Err(ResolveError::NoEditor);
        }
        let quit_on_open = match config.quit_on_open {
            Some(b) => b,
            None => true,
        };
        Ok(Settings {
            open_command,
            query: cli.query,
            print: cli.print,
            types: cli.types,
            quit_on_open,
        })
    }
}

} // verus!
