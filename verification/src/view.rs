//! What the screen shows, as plain values: the rows of the result list and
//! of the preview pane. Laying them out and styling them is the program's
//! part.
use crate::app::{App, Mode};
use crate::preview::{index_from, Preview};
use crate::search::Hit;
use crate::text::{decimal, push_decimal, string_push, to_chars, trim, trimmed};
use vstd::prelude::*;

verus! {

/// One row of the result list.
pub struct ResultRow {
    /// The result is marked for opening.
    pub marked: bool,
    /// `path:line`, drawn highlighted before the text; content mode only.
    pub location: Option<String>,
    /// The matched line, trimmed; in filename mode the path.
    pub text: String,
}

impl ResultRow {
    /// The row by its field values, strings by their chars.
    pub open spec fn model(&self) -> (bool, Option<Seq<char>>, Seq<char>) {
        (
            self.marked,
            match self.location {
                Some(l) => Some(l@),
                None => None,
            },
            self.text@,
        )
    }
}

/// The row a result is drawn as.
pub open spec fn row_of(h: Hit, marked: bool, mode: Mode) -> (bool, Option<Seq<char>>, Seq<char>) {
    match mode {
        Mode::Grep => (marked, Some(h.path@ + ":"@ + decimal(h.line_number as nat)), trim(
            h.line_text@,
        )),
        Mode::Files => (marked, None, h.path@),
    }
}

/// In every mode a row shows its mark exactly when its result is marked,
/// and a row shows its own result's path.
pub proof fn law_rows_show_marks_and_paths(h: Hit, marked: bool, mode: Mode)
    ensures
        row_of(h, marked, mode).0 == marked,
        mode == Mode::Files ==> row_of(h, marked, mode).2 == h.path@,
        mode == Mode::Grep ==> (row_of(h, marked, mode).1 matches Some(loc) && h.path@.is_prefix_of(
            loc,
        )),
{
    if mode == Mode::Grep {
        let loc = h.path@ + ":"@ + decimal(h.line_number as nat);
        assert(loc.subrange(0, h.path@.len() as int) =~= h.path@);
    }
}

/// The rows of the result list, one per result, in result order.
pub fn result_rows(app: &App, mode: Mode) -> (r: Vec<ResultRow>)
    ensures
        r@.len() == app.hits@.len(),
        forall|i: int| 0 <= i < r@.len() ==> (#[trigger] r@[i]).marked == app.marked@.contains(i as usize),
        forall|i: int|
            0 <= i < r@.len() && mode == Mode::Files ==> (#[trigger] r@[i]).text@ == app.hits@[i].path@,
        forall|i: int|
            0 <= i < r@.len() ==> (#[trigger] r@[i]).model() == row_of(
                app.hits@[i],
                app.marked@.contains(i as usize),
                mode,
            ),
{
    let mut r: Vec<ResultRow> = Vec::new();
    let mut i: usize = 0;
    while i < app.hits.len()
        invariant
            i <= app.hits@.len(),
            r@.len() == i,
            forall|k: int|
                0 <= k < i ==> (#[trigger] r@[k]).model() == row_of(
                    app.hits@[k],
                    app.marked@.contains(k as usize),
                    mode,
                ),
        decreases app.hits@.len() - i,
    {
        let h = &app.hits[i];
        let marked = app.marked.contains(&i);
        let row = match mode {
            Mode::Grep => {
                let mut loc = h.path.clone();
                loc.append(":");
                push_decimal(&mut loc, h.line_number as u128);
                ResultRow { marked, location: Some(loc), text: trimmed(h.line_text.as_str()) }
            },
            Mode::Files => ResultRow { marked, location: None, text: h.path.clone() },
        };
        let ghost before = r@;
        r.push(row);
        assert forall|k: int| 0 <= k < i + 1 implies (#[trigger] r@[k]).model() == row_of(
            app.hits@[k],
            app.marked@.contains(k as usize),
            mode,
        ) by {
            if k < i {
                assert(r@[k] == before[k]);
            }
        }
        i = i + 1;
    }
    r
}

/// `s` right-aligned in `w` columns: spaces before it where it is shorter.
pub open spec fn pad_left(s: Seq<char>, w: nat) -> Seq<char> {
    if s.len() >= w {
        s
    } else {
        Seq::new((w - s.len()) as nat, |i: int| ' ') + s
    }
}

/// The gutter before a preview line: its number right-aligned in five
/// columns, then a space.
pub open spec fn gutter_of(n: u64) -> Seq<char> {
    pad_left(decimal(n as nat), 5).push(' ')
}

fn gutter(n: u64) -> (s: String)
    ensures
        s@ == gutter_of(n),
{
    let mut digits = String::new();
    push_decimal(&mut digits, n as u128);
    assert(Seq::<char>::empty() + decimal(n as nat) =~= decimal(n as nat));
    let len = to_chars(digits.as_str()).len();
    let mut s = String::new();
    let mut k: usize = len;
    let ghost pad: nat = if len < 5 {
        (5 - len) as nat
    } else {
        0
    };
    while k < 5
        invariant
            len <= k <= 5 || (len > 5 && k == len),
            len == decimal(n as nat).len(),
            s@ == Seq::new((k - len) as nat, |i: int| ' '),
        decreases 5 - k,
    {
        string_push(&mut s, ' ');
        assert(s@ =~= Seq::new((k + 1 - len) as nat, |i: int| ' '));
        k = k + 1;
    }
    let ghost spaces = s@;
    s.append(digits.as_str());
    string_push(&mut s, ' ');
    proof {
        if len >= 5 {
            assert(spaces =~= Seq::<char>::empty());
            assert(s@ =~= gutter_of(n));
        } else {
            assert(s@ =~= gutter_of(n));
        }
    }
    s
}

/// One line of the preview pane.
pub struct PreviewRow {
    /// The line number, right-aligned, and a space.
    pub gutter: String,
    /// The line as loaded.
    pub text: String,
    /// The line holds the match; it is drawn bold.
    pub is_hit: bool,
}

/// Where the pane starts drawing `height` lines: the matched line sits
/// about a third of the way down (from the top if it is not loaded).
pub open spec fn scroll_of(lines: Seq<(u64, String)>, line: u64, height: int) -> int {
    let hit = index_from(lines, line, 0);
    if hit > height / 3 {
        hit - height / 3
    } else {
        0
    }
}

/// The lines the preview pane shows in `height` rows.
pub open spec fn shown_lines(p: Preview, height: int) -> Seq<(u64, String)> {
    let s = scroll_of(p.lines@, p.line, height);
    let rest = p.lines@.skip(s);
    if rest.len() > height {
        rest.take(height)
    } else {
        rest
    }
}

proof fn lemma_index_from_bound(lines: Seq<(u64, String)>, line: u64, i: int)
    requires
        0 <= i,
    ensures
        0 <= index_from(lines, line, i),
        lines.len() == 0 || index_from(lines, line, i) < lines.len(),
    decreases lines.len() - i,
{
    if i < lines.len() && lines[i].0 != line {
        lemma_index_from_bound(lines, line, i + 1);
    }
}

/// The rows of the preview pane for `height` lines inside its border.
pub fn preview_rows(p: &Preview, height: usize) -> (r: Vec<PreviewRow>)
    ensures
        r@.len() == shown_lines(*p, height as int).len(),
        forall|i: int|
            0 <= i < r@.len() ==> {
                let l = #[trigger] shown_lines(*p, height as int)[i];
                &&& r@[i].gutter@ == gutter_of(l.0)
                &&& r@[i].text@ == l.1@
                &&& r@[i].is_hit == (l.0 == p.line)
            },
{
    let start = p.scroll_start(height);
    proof {
        lemma_index_from_bound(p.lines@, p.line, 0);
    }
    let ghost shown = shown_lines(*p, height as int);
    assert(start <= p.lines@.len());
    let mut r: Vec<PreviewRow> = Vec::new();
    let mut i: usize = start;
    while i < p.lines.len() && i - start < height
        invariant
            start <= i <= p.lines@.len(),
            start == scroll_of(p.lines@, p.line, height as int),
            shown == shown_lines(*p, height as int),
            r@.len() == i - start,
            r@.len() <= height,
            forall|k: int|
                0 <= k < r@.len() ==> {
                    let l = #[trigger] p.lines@[start + k];
                    &&& r@[k].gutter@ == gutter_of(l.0)
                    &&& r@[k].text@ == l.1@
                    &&& r@[k].is_hit == (l.0 == p.line)
                },
        decreases p.lines@.len() - i,
    {
        let (n, ref text) = p.lines[i];
        let row = PreviewRow { gutter: gutter(n), text: text.clone(), is_hit: n == p.line };
        let ghost before = r@;
        r.push(row);
        assert forall|k: int| 0 <= k < r@.len() implies {
            let l = #[trigger] p.lines@[start + k];
            &&& r@[k].gutter@ == gutter_of(l.0)
            &&& r@[k].text@ == l.1@
            &&& r@[k].is_hit == (l.0 == p.line)
        } by {
            if k < before.len() {
                assert(r@[k] == before[k]);
            }
        }
        i = i + 1;
    }
    proof {
        assert forall|k: int| 0 <= k < r@.len() implies shown[k] == p.lines@[start + k] by {}
    }
    r
}

} // verus!
