//! The command line, as plain values. The argument parser itself lives with
//! the program; this is what it hands over.
use vstd::prelude::*;

verus! {

/// Everything the command line can say.
pub struct Cli {
    /// Search query. `None` opens the TUI with an empty query.
    pub query: Option<String>,
    /// Command used to open a result, e.g. "cursor -g {file}:{line}:{col}".
    /// Overrides the config file.
    pub open: Option<String>,
    /// Print `file:line:col` matches to stdout instead of opening an editor.
    pub print: bool,
    /// Restrict to file types, e.g. `rust`. Repeatable.
    pub types: Vec<String>,
    /// Start in filename fuzzy mode.
    pub files: bool,
    /// Restore the last session's query, mode and selection.
    pub resume: bool,
    /// Include hidden files.
    pub hidden: bool,
    /// Do not apply `.gitignore` and friends.
    pub no_ignore: bool,
}

} // verus!
