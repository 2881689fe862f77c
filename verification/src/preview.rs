//! A window of file contents around the selected match. Reading the file is
//! the program's part; the lines it read arrive here.
use crate::text::{replace, replace_all, string_of, to_chars};
use vstd::prelude::*;

verus! {

/// Lines loaded around the match. Generous enough to fill a tall pane.
pub const WINDOW: u64 = 60;

pub struct Preview {
    pub path: String,
    /// The line the match is on, so that the renderer can mark it.
    pub line: u64,
    pub lines: Vec<(u64, String)>,
}

/// First and one-past-last line numbers of the window around `line`:
/// a third of the window above the match, never before line 1.
pub open spec fn window_of(line: u64) -> (int, int) {
    let start: int = if line > WINDOW / 3 + 1 {
        line - WINDOW / 3
    } else {
        1
    };
    (start, start + WINDOW)
}

/// A line as shown: tabs expanded to four spaces.
pub open spec fn shown(text: Seq<char>) -> Seq<char> {
    replace_all(text, seq!['\t'], "    "@)
}

/// The window around `line`; its end fits a `u64` for every line up to
/// `u64::MAX - (WINDOW - WINDOW / 3)`.
pub fn window(line: u64) -> (w: (u64, u64))
    requires
        line <= u64::MAX - (WINDOW - WINDOW / 3),
    ensures
        w.0 == window_of(line).0,
        w.1 == window_of(line).1,
{
    let sub = if line >= WINDOW / 3 {
        line - WINDOW / 3
    } else {
        0
    };
    let start = if sub > 1 {
        sub
    } else {
        1
    };
    (start, start + WINDOW)
}

fn expand_tabs(text: &str) -> (r: String)
    ensures
        r@ == shown(text@),
{
    let v = to_chars(text);
    let mut tab: Vec<char> = Vec::new();
    tab.push('\t');
    let spaces = to_chars("    ");
    let e = replace(v.as_slice(), tab.as_slice(), spaces.as_slice());
    assert(tab@ =~= seq!['\t']);
    string_of(e.as_slice(), 0, e.len())
}

impl Preview {
    /// The preview of `path` around `line`, from the lines read off the
    /// file: `read[i]` is line `i + 1`, and reading stops at the end of the
    /// window, the end of the file, or the first line that is not UTF-8.
    pub fn assemble(path: String, line: u64, read: Vec<String>) -> (p: Preview)
        requires
            line <= u64::MAX - (WINDOW - WINDOW / 3),
        ensures
            p.path == path,
            p.line == line,
            ({
                let (start, end) = window_of(line);
                let last: int = if end < read@.len() + 1 {
                    end
                } else {
                    read@.len() + 1int
                };
                let count: int = if last > start {
                    last - start
                } else {
                    0
                };
                &&& p.lines@.len() == count
                &&& forall|i: int|
                    0 <= i < count ==> (#[trigger] p.lines@[i]).0 == start + i && p.lines@[i].1@
                        == shown(read@[start + i - 1]@)
            }),
    {
        let (start, end) = window(line);
        let mut lines: Vec<(u64, String)> = Vec::new();
        let mut n: u64 = start;
        let len: u64 = read.len() as u64;
        while n < end && n - 1 < len
            invariant
                start == window_of(line).0,
                end == window_of(line).1,
                start <= n <= end,
                1 <= start,
                len == read@.len(),
                n == start || n <= len + 1,
                lines@.len() == n - start,
                forall|i: int|
                    0 <= i < n - start ==> (#[trigger] lines@[i]).0 == start + i
                        && lines@[i].1@ == shown(read@[start + i - 1]@),
            decreases end - n,
        {
            let idx: usize = (n - 1) as usize;
            let text = expand_tabs(read[idx].as_str());
            let ghost before = lines@;
            lines.push((n, text));
            assert forall|i: int| 0 <= i < n + 1 - start implies (#[trigger] lines@[i]).0 == start
                + i && lines@[i].1@ == shown(read@[start + i - 1]@) by {
                if i < n - start {
                    assert(lines@[i] == before[i]);
                }
            }
            n = n + 1;
        }
        Preview { path, line, lines }
    }

    /// Where to start drawing `height` lines so that the matched line sits
    /// about a third of the way down (from the top if it is not loaded).
    pub fn scroll_start(&self, height: usize) -> (s: usize)
        ensures
            ({
                let hit = index_from(self.lines@, self.line, 0);
                s == if hit > height / 3 {
                    hit - height / 3
                } else {
                    0
                }
            }),
    {
        let mut i: usize = 0;
        while i < self.lines.len() && self.lines[i].0 != self.line
            invariant
                i <= self.lines@.len(),
                index_from(self.lines@, self.line, 0) == index_from(self.lines@, self.line, i as int),
            decreases self.lines@.len() - i,
        {
            i = i + 1;
        }
        let hit: usize = if i < self.lines.len() {
            i
        } else {
            0
        };
        let third = height / 3;
        if hit > third {
            hit - third
        } else {
            0
        }
    }
}

/// The position of the first loaded line numbered `line`, at or after `i`;
/// 0 when there is none.
pub open spec fn index_from(lines: Seq<(u64, String)>, line: u64, i: int) -> int
    decreases lines.len() - i,
{
    if i < 0 || i >= lines.len() {
        0
    } else if lines[i].0 == line {
        i
    } else {
        index_from(lines, line, i + 1)
    }
}

} // verus!
