//! What both search engines share: the hit record, the messages a worker
//! streams to the UI, the result cap and the walk flags.
use vstd::prelude::*;

pub mod engine;
pub mod files;

verus! {

/// Cap on results held in memory, shared by both engines. A query like `e`
/// would otherwise eat memory and stall rendering.
pub const MAX_HITS: usize = 5000;

/// One matching *line*, not one match. A line with three matches yields one
/// hit, with `col` taken from the first.
#[derive(Clone, Debug)]
pub struct Hit {
    pub path: String,
    pub line_number: u64,
    pub col: u64,
    pub line_text: String,
}

impl Hit {
    /// The hit as its four field values, strings by their chars.
    pub open spec fn model(&self) -> (Seq<char>, u64, u64, Seq<char>) {
        (self.path@, self.line_number, self.col, self.line_text@)
    }

    /// A copy of the hit.
    pub fn copied(&self) -> (h: Hit)
        ensures
            h == *self,
    {
        Hit {
            path: self.path.clone(),
            line_number: self.line_number,
            col: self.col,
            line_text: self.line_text.clone(),
        }
    }
}

/// Streamed from a worker to the UI. Every variant carries the generation it
/// belongs to so that the UI can drop stale traffic.
#[derive(Debug)]
pub enum SearchMsg {
    /// A batch of results. Many of these arrive per search.
    Hits(u64, Vec<Hit>),
    /// The walk finished (or was cancelled). Carries elapsed milliseconds.
    Done(u64, u128),
    /// The search never started: bad regex, bad type filter.
    Error(u64, String),
}

/// Walk-level flags shared by both engines, straight from the command line.
#[derive(Clone, Copy, Debug)]
pub struct WalkOpts {
    pub hidden: bool,
    pub no_ignore: bool,
}

impl Default for WalkOpts {
    fn default() -> (w: WalkOpts)
        ensures
            !w.hidden,
            !w.no_ignore,
    {
        WalkOpts { hidden: false, no_ignore: false }
    }
}

/// The walker's filters, each on when it is applied. The walker's builder
/// takes "should I apply this filter", while the flags say "should I bypass
/// it".
#[derive(Clone, Copy, Debug)]
pub struct WalkFilters {
    pub hidden: bool,
    pub git_ignore: bool,
    pub git_global: bool,
    pub git_exclude: bool,
    pub ignore: bool,
    pub parents: bool,
}

impl WalkOpts {
    /// The filters both engines walk with: dotfiles are skipped unless
    /// `hidden`; every ignore file is obeyed unless `no_ignore`.
    pub fn filters(self) -> (f: WalkFilters)
        ensures
            f.hidden == !self.hidden,
            f.git_ignore == !self.no_ignore,
            f.git_global == !self.no_ignore,
            f.git_exclude == !self.no_ignore,
            f.ignore == !self.no_ignore,
            f.parents == !self.no_ignore,
    {
        WalkFilters {
            hidden: !self.hidden,
            git_ignore: !self.no_ignore,
            git_global: !self.no_ignore,
            git_exclude: !self.no_ignore,
            ignore: !self.no_ignore,
            parents: !self.no_ignore,
        }
    }
}

/// How a walked path is shown: the walk starts at "." so every path comes
/// back as "./src/x"; editors and `--print` consumers want "src/x".
pub open spec fn shown_path(p: Seq<char>) -> Seq<char> {
    if p.len() >= 2 && p[0] == '.' && p[1] == '/' {
        p.skip(2)
    } else {
        p
    }
}

/// The walked path as it is shown.
pub fn display_path(p: &str) -> (r: String)
    ensures
        r@ == shown_path(p@),
{
    let v = crate::text::to_chars(p);
    if v.len() >= 2 && v[0] == '.' && v[1] == '/' {
        crate::text::string_of(v.as_slice(), 2, v.len())
    } else {
        crate::text::string_of(v.as_slice(), 0, v.len())
    }
}

} // verus!
