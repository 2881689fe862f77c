//! The interactive session: the query being edited, its caret, the results
//! of the latest search, the selection and the marks.
use crate::search::{Hit, MAX_HITS};
use crate::text::{
    at_boundary, byte_len, char_after, char_before, char_pos, char_width, chars_before, decimal,
    lemma_boundary, lemma_byte_len_concat, lemma_byte_len_take_mono, lemma_byte_len_take_step,
    lemma_char_pos, lemma_encode_single, lemma_take_all, lemma_width, push_decimal, string_insert,
    string_push, string_remove, width,
};
use std::collections::BTreeSet;
use vstd::std_specs::iter::IteratorSpec;
use vstd::prelude::*;

verus! {

/// Which engine the query goes to.
#[derive(Clone, Copy, Debug, PartialEq, Eq, Structural)]
pub enum Mode {
    /// The query is a regex searched through file contents.
    Grep,
    /// The query fuzzy-matches file paths.
    Files,
}

impl Mode {
    /// The label shown in the status bar.
    pub fn label(&self) -> (s: &'static str)
        ensures
            *self == Mode::Grep ==> s@ == "GREP"@,
            *self == Mode::Files ==> s@ == "FILES"@,
    {
        match self {
            Mode::Grep => "GREP",
            Mode::Files => "FILES",
        }
    }

    /// The other mode (what `ctrl-f` switches to).
    pub fn toggled(&self) -> (m: Mode)
        ensures
            m == other_mode(*self),
    {
        match self {
            Mode::Grep => Mode::Files,
            Mode::Files => Mode::Grep,
        }
    }
}

/// The mode `ctrl-f` switches to from `m`.
pub open spec fn other_mode(m: Mode) -> Mode {
    match m {
        Mode::Grep => Mode::Files,
        Mode::Files => Mode::Grep,
    }
}

/// Switching modes twice comes back to where it started, and a switch
/// always changes the mode.
pub proof fn law_mode_switch_twice(m: Mode)
    ensures
        other_mode(other_mode(m)) == m,
        other_mode(m) != m,
{
}

pub struct App {
    pub query: String,
    /// Byte index into `query`, always on a char boundary.
    pub cursor: usize,
    pub hits: Vec<Hit>,
    pub selected: usize,
    pub marked: BTreeSet<usize>,
    /// Bumped on every query edit; results tagged with an older value are stale.
    pub generation: u64,
    pub status: String,
    pub should_quit: bool,
}

/// `lo` and `hi` clamp `x`.
pub open spec fn clamp(x: int, lo: int, hi: int) -> int {
    if x < lo {
        lo
    } else if x > hi {
        hi
    } else {
        x
    }
}

/// The status line after a search: the count, `+` when the cap was hit,
/// and the time taken.
pub open spec fn matches_status(count: nat, elapsed_ms: nat) -> Seq<char> {
    decimal(count) + (if count >= MAX_HITS {
        seq!['+']
    } else {
        Seq::<char>::empty()
    }) + " matches in "@ + decimal(elapsed_ms) + "ms"@
}

/// The query after typing `c` at char index `k`.
pub open spec fn inserted(q: Seq<char>, k: int, c: char) -> Seq<char> {
    q.take(k).push(c) + q.skip(k)
}

/// The query after deleting the char before char index `k` (none at 0).
pub open spec fn backspaced(q: Seq<char>, k: int) -> Seq<char> {
    if k > 0 {
        q.remove(k - 1)
    } else {
        q
    }
}

/// The caret one char to the left, stopping at the start.
pub open spec fn caret_left(k: int) -> int {
    if k > 0 {
        k - 1
    } else {
        0
    }
}

/// The caret one char to the right, stopping at the end (`len`).
pub open spec fn caret_right(k: int, len: int) -> int {
    if k < len {
        k + 1
    } else {
        k
    }
}

/// Left and right arrows undo each other away from the ends of the query.
pub proof fn law_left_right_inverse(k: int, len: int)
    requires
        0 <= k <= len,
    ensures
        k > 0 ==> caret_right(caret_left(k), len) == k,
        k < len ==> caret_left(caret_right(k, len)) == k,
{
}

/// The marks after toggling index `i`.
pub open spec fn toggled(m: Set<usize>, i: usize) -> Set<usize> {
    if m.contains(i) {
        m.remove(i)
    } else {
        m.insert(i)
    }
}

/// Backspace undoes a typed char: typing `c` at char index `k` and then
/// deleting before the caret (now at `k + 1`) gives back the query.
pub proof fn law_backspace_undoes_insert(q: Seq<char>, k: int, c: char)
    requires
        0 <= k <= q.len(),
    ensures
        backspaced(inserted(q, k, c), k + 1) == q,
{
    assert(backspaced(inserted(q, k, c), k + 1) =~= q);
}

/// Typing a char and then pressing backspace gives the session back as it
/// was: the same query and the same caret, byte offset included. The
/// requirements are what `insert` and then `backspace` ensure.
pub proof fn law_backspace_restores_session(before: App, typed: App, after: App, c: char)
    requires
        before.wf(),
        typed.wf(),
        after.wf(),
        typed.query@ == inserted(before.query@, before.caret(), c),
        typed.caret() == before.caret() + 1,
        after.query@ == backspaced(typed.query@, typed.caret()),
        after.caret() == if typed.caret() > 0 {
            typed.caret() - 1
        } else {
            0
        },
    ensures
        after.query@ == before.query@,
        after.caret() == before.caret(),
        after.cursor == before.cursor,
{
    lemma_boundary(before.query@, before.cursor as int);
    law_backspace_undoes_insert(before.query@, before.caret(), c);
    law_caret_fixes_cursor(after, before);
}

/// The caret's char index fixes its byte offset: two well-formed sessions
/// with the same query and the same caret have the same `cursor`.
pub proof fn law_caret_fixes_cursor(a: App, b: App)
    requires
        a.wf(),
        b.wf(),
        a.query@ == b.query@,
        a.caret() == b.caret(),
    ensures
        a.cursor == b.cursor,
{
    lemma_boundary(a.query@, a.cursor as int);
    lemma_boundary(b.query@, b.cursor as int);
}

/// Toggling the same mark twice leaves the marks as they were.
pub proof fn law_toggle_twice(m: Set<usize>, i: usize)
    ensures
        toggled(toggled(m, i), i) == m,
{
    if m.contains(i) {
        assert(toggled(toggled(m, i), i) =~= m);
    } else {
        assert(toggled(toggled(m, i), i) =~= m);
    }
}

/// What `enter` acts on is always among the current results.
pub proof fn law_targets_are_results(app: App)
    ensures
        forall|j: int|
            0 <= j < app.targets_spec().len() ==> app.hits@.contains(#[trigger] app.targets_spec()[j]),
{
    if !app.marked@.is_empty() {
        let n = app.hits.len();
        let kept = in_order(app.marked@).filter(|i: usize| i < n);
        assert forall|j: int| 0 <= j < kept.len() implies kept[j] < n by {
            in_order(app.marked@).lemma_filter_pred(|i: usize| i < n, j);
        }
        assert forall|j: int| 0 <= j < app.targets_spec().len() implies app.hits@.contains(
            #[trigger] app.targets_spec()[j],
        ) by {
            assert(app.targets_spec()[j] == app.hits@[kept[j] as int]);
        }
    }
}

/// Strictly increasing.
pub open spec fn ascending(s: Seq<usize>) -> bool {
    forall|i: int, j: int| 0 <= i < j < s.len() ==> s[i] < s[j]
}

/// The members of a finite set of indices, smallest first.
pub open spec fn in_order(m: Set<usize>) -> Seq<usize> {
    choose|q: Seq<usize>| ascending(q) && q.to_set() == m
}

/// A set has one ascending enumeration.
pub broadcast proof fn lemma_ascending_unique(a: Seq<usize>, b: Seq<usize>)
    requires
        #[trigger] ascending(a),
        #[trigger] ascending(b),
        a.to_set() == b.to_set(),
    ensures
        a == b,
    decreases a.len(),
{
    if a.len() == 0 {
        if b.len() > 0 {
            assert(b.to_set().contains(b[0]));
        }
        assert(a =~= b);
    } else {
        assert(a.to_set().contains(a[0]));
        assert(b.len() > 0);
        assert(b.to_set().contains(b[0]));
        let i = choose|i: int| 0 <= i < a.len() && a[i] == b[0];
        let j = choose|j: int| 0 <= j < b.len() && b[j] == a[0];
        assert(a[0] == b[0]);
        let a2 = a.drop_first();
        let b2 = b.drop_first();
        assert forall|x: usize| a2.to_set().contains(x) <==> b2.to_set().contains(x) by {
            if a2.to_set().contains(x) {
                let p = choose|p: int| 0 <= p < a2.len() && a2[p] == x;
                assert(a[p + 1] == x);
                assert(a.to_set().contains(x));
                let q = choose|q: int| 0 <= q < b.len() && b[q] == x;
                assert(q != 0);
                assert(b2[q - 1] == x);
            }
            if b2.to_set().contains(x) {
                let p = choose|p: int| 0 <= p < b2.len() && b2[p] == x;
                assert(b[p + 1] == x);
                assert(b.to_set().contains(x));
                let q = choose|q: int| 0 <= q < a.len() && a[q] == x;
                assert(q != 0);
                assert(a2[q - 1] == x);
            }
        }
        assert(a2.to_set() =~= b2.to_set());
        lemma_ascending_unique(a2, b2);
        assert(a.len() == b.len());
        assert forall|p: int| 0 <= p < a.len() implies a[p] == b[p] by {
            if p > 0 {
                assert(a[p] == a2[p - 1]);
                assert(b[p] == b2[p - 1]);
            }
        }
        assert(a =~= b);
    }
}

/// A set's iterator yields its members smallest first.
proof fn lemma_iter_ascending(rem: Seq<&usize>)
    requires
        vstd::std_specs::btree::increasing_seq(rem),
    ensures
        ascending(rem.unref()),
{
    assert forall|a: int, b: int| 0 <= a < b < rem.len() implies rem.unref()[a]
        < rem.unref()[b] by {
        assert(vstd::std_specs::cmp::OrdSpec::cmp_spec(&rem[a], &rem[b]) is Less);
    }
}

/// Saturating `x + d`, as `usize::saturating_add_signed` computes it.
fn saturating_add_signed(x: usize, d: isize) -> (r: usize)
    ensures
        r == clamp(x + d, 0, usize::MAX as int),
{
    if d >= 0 {
        let du: usize = d as usize;
        if x <= usize::MAX - du {
            x + du
        } else {
            usize::MAX
        }
    } else {
        let down: usize = ((-(d + 1)) as usize) + 1;
        if x >= down {
            x - down
        } else {
            0
        }
    }
}

impl App {
    /// The caret sits on a char boundary of the query.
    pub open spec fn wf(&self) -> bool {
        &&& at_boundary(self.query@, self.cursor as int)
        &&& byte_len(self.query@) <= usize::MAX
    }

    /// The caret as a char index into the query.
    pub open spec fn caret(&self) -> int {
        char_pos(self.query@, self.cursor as int)
    }

    /// The result-side state, everything but the query and its caret.
    pub open spec fn results_of(&self) -> (Seq<Hit>, usize, Set<usize>, u64, Seq<char>, bool) {
        (self.hits@, self.selected, self.marked@, self.generation, self.status@, self.should_quit)
    }

    /// The selection points into the results (or is 0 when there are none),
    /// and every mark is a result index.
    pub open spec fn selection_ok(&self) -> bool {
        &&& (self.hits.len() == 0 ==> self.selected == 0)
        &&& (self.hits.len() > 0 ==> self.selected < self.hits.len())
        &&& forall|i: usize| self.marked@.contains(i) ==> i < self.hits.len()
    }

    /// What `targets` yields: every marked result in index order, or the
    /// selected one when nothing is marked.
    pub open spec fn targets_spec(&self) -> Seq<Hit> {
        if self.marked@.is_empty() {
            if self.selected < self.hits.len() {
                seq![self.hits@[self.selected as int]]
            } else {
                Seq::<Hit>::empty()
            }
        } else {
            in_order(self.marked@).filter(|i: usize| i < self.hits.len()).map_values(
                |i: usize| self.hits@[i as int],
            )
        }
    }

    pub fn new(query: String) -> (app: Self)
        requires
            byte_len(query@) <= usize::MAX,
        ensures
            app.query@ == query@,
            app.cursor == byte_len(query@),
            app.wf(),
            app.caret() == query@.len(),
            app.hits@.len() == 0,
            app.selected == 0,
            app.marked@ == Set::<usize>::empty(),
            app.generation == 0,
            app.status@ == Seq::<char>::empty(),
            !app.should_quit,
            app.selection_ok(),
    {
        let cursor = query.as_str().len();
        proof {
            lemma_take_all(query@);
            lemma_char_pos(query@, query@.len() as int);
        }
        App {
            cursor,
            query,
            hits: Vec::new(),
            selected: 0,
            marked: BTreeSet::new(),
            generation: 0,
            status: String::new(),
            should_quit: false,
        }
    }

    /// Types `c` at the caret, which moves past it.
    pub fn insert(&mut self, c: char)
        requires
            old(self).wf(),
            byte_len(old(self).query@) + 4 <= usize::MAX,
        ensures
            final(self).wf(),
            final(self).query@ == inserted(old(self).query@, old(self).caret(), c),
            final(self).caret() == old(self).caret() + 1,
            final(self).cursor == old(self).cursor + width(c),
            final(self).results_of() == old(self).results_of(),
    {
        let ghost q = self.query@;
        let ghost k = self.caret();
        proof {
            lemma_boundary(q, self.cursor as int);
            lemma_width(c);
        }
        string_insert(&mut self.query, self.cursor, c);
        self.cursor = self.cursor + char_width(c);
        proof {
            let nq = self.query@;
            assert(nq.take(k + 1) =~= q.take(k).push(c));
            assert(q.take(k).push(c) =~= q.take(k) + seq![c]);
            lemma_byte_len_concat(q.take(k), seq![c]);
            lemma_encode_single(c);
            lemma_char_pos(nq, k + 1);
            assert(q =~= q.take(k) + q.skip(k));
            assert(nq =~= q.take(k) + (seq![c] + q.skip(k)));
            lemma_byte_len_concat(q.take(k), q.skip(k));
            lemma_byte_len_concat(q.take(k), seq![c] + q.skip(k));
            lemma_byte_len_concat(seq![c], q.skip(k));
        }
    }

    /// Deletes the char before the caret, if there is one.
    pub fn backspace(&mut self)
        requires
            old(self).wf(),
        ensures
            final(self).wf(),
            final(self).query@ == backspaced(old(self).query@, old(self).caret()),
            final(self).caret() == if old(self).caret() > 0 {
                old(self).caret() - 1
            } else {
                0
            },
            final(self).results_of() == old(self).results_of(),
    {
        let ghost q = self.query@;
        let ghost k = self.caret();
        proof {
            lemma_boundary(q, self.cursor as int);
        }
        let prev = match char_before(self.query.as_str(), self.cursor) {
            Some(p) => p,
            None => {
                return;
            },
        };
        proof {
            lemma_byte_len_take_step(q, k - 1);
            lemma_char_pos(q, k - 1);
        }
        self.cursor = self.cursor - char_width(prev);
        string_remove(&mut self.query, self.cursor);
        proof {
            let nq = self.query@;
            assert(nq.take(k - 1) =~= q.take(k - 1));
            lemma_char_pos(nq, k - 1);
            assert(q =~= q.take(k - 1) + (seq![q[k - 1]] + q.skip(k)));
            assert(nq =~= q.take(k - 1) + q.skip(k));
            lemma_byte_len_concat(q.take(k - 1), seq![q[k - 1]] + q.skip(k));
            lemma_byte_len_concat(seq![q[k - 1]], q.skip(k));
            lemma_byte_len_concat(q.take(k - 1), q.skip(k));
        }
    }

    /// Moves the caret one char to the left, if it can.
    pub fn move_left(&mut self)
        requires
            old(self).wf(),
        ensures
            final(self).wf(),
            final(self).query@ == old(self).query@,
            final(self).caret() == caret_left(old(self).caret()),
            final(self).results_of() == old(self).results_of(),
    {
        let ghost q = self.query@;
        let ghost k = self.caret();
        proof {
            lemma_boundary(q, self.cursor as int);
        }
        if let Some(prev) = char_before(self.query.as_str(), self.cursor) {
            proof {
                lemma_byte_len_take_step(q, k - 1);
                lemma_char_pos(q, k - 1);
            }
            self.cursor = self.cursor - char_width(prev);
        }
    }

    /// Moves the caret one char to the right, if it can.
    pub fn move_right(&mut self)
        requires
            old(self).wf(),
        ensures
            final(self).wf(),
            final(self).query@ == old(self).query@,
            final(self).caret() == caret_right(old(self).caret(), old(self).query@.len() as int),
            final(self).results_of() == old(self).results_of(),
    {
        let ghost q = self.query@;
        let ghost k = self.caret();
        proof {
            lemma_boundary(q, self.cursor as int);
        }
        if let Some(next) = char_after(self.query.as_str(), self.cursor) {
            proof {
                lemma_byte_len_take_step(q, k);
                lemma_char_pos(q, k + 1);
                lemma_take_all(q);
                if k + 1 < q.len() {
                    lemma_byte_len_take_mono(q, k + 1, q.len() as int);
                }
            }
            self.cursor = self.cursor + char_width(next);
        }
    }

    /// Column to draw the caret at: the number of chars before it, as a
    /// `u16` (wrapping past 65535, as the `as` cast does).
    pub fn cursor_col(&self) -> (col: u16)
        requires
            self.wf(),
        ensures
            col == self.caret() % 65536,
    {
        let n = chars_before(self.query.as_str(), self.cursor);
        let col: u16 = #[verifier::truncate] (n as u16);
        assert(col == n % 65536) by (bit_vector)
            requires
                col == #[verifier::truncate] (n as u16),
        ;
        col
    }

    /// Moves the selection by `delta`, clamped to the results.
    pub fn move_selection(&mut self, delta: isize)
        ensures
            old(self).hits.len() == 0 ==> final(self).selected == 0,
            old(self).hits.len() > 0 ==> final(self).selected == clamp(
                old(self).selected + delta,
                0,
                old(self).hits.len() - 1,
            ),
            final(self).query == old(self).query,
            final(self).cursor == old(self).cursor,
            final(self).hits == old(self).hits,
            final(self).marked == old(self).marked,
            final(self).generation == old(self).generation,
            final(self).status == old(self).status,
            final(self).should_quit == old(self).should_quit,
            old(self).selection_ok() ==> final(self).selection_ok(),
    {
        if self.hits.len() == 0 {
            self.selected = 0;
            return;
        }
        let last = self.hits.len() - 1;
        let moved = saturating_add_signed(self.selected, delta);
        self.selected = if moved < last {
            moved
        } else {
            last
        };
    }

    /// Marks the selected result, or unmarks it if it was marked.
    pub fn toggle_mark(&mut self)
        ensures
            old(self).hits.len() == 0 ==> final(self).marked@ == old(self).marked@,
            old(self).hits.len() > 0 ==> final(self).marked@ == toggled(
                old(self).marked@,
                old(self).selected,
            ),
            final(self).query == old(self).query,
            final(self).cursor == old(self).cursor,
            final(self).hits == old(self).hits,
            final(self).selected == old(self).selected,
            final(self).generation == old(self).generation,
            final(self).status == old(self).status,
            final(self).should_quit == old(self).should_quit,
            old(self).selection_ok() ==> final(self).selection_ok(),
    {
        if self.hits.len() == 0 {
            return;
        }
        let sel = self.selected;
        if !self.marked.insert(sel) {
            self.marked.remove(&sel);
        }
    }

    /// Accepts results only if they belong to the current generation.
    pub fn set_hits(&mut self, generation: u64, hits: Vec<Hit>, elapsed_ms: u128)
        ensures
            generation != old(self).generation ==> *final(self) == *old(self),
            generation == old(self).generation ==> {
                &&& final(self).hits@ == hits@
                &&& final(self).status@ == matches_status(hits@.len(), elapsed_ms as nat)
                &&& final(self).marked@ == Set::<usize>::empty()
                &&& final(self).selected == 0
                &&& final(self).query == old(self).query
                &&& final(self).cursor == old(self).cursor
                &&& final(self).generation == old(self).generation
                &&& final(self).should_quit == old(self).should_quit
                &&& final(self).selection_ok()
            },
    {
        if generation != self.generation {
            return;
        }
        let n = hits.len();
        let mut status = String::new();
        push_decimal(&mut status, n as u128);
        if n >= MAX_HITS {
            string_push(&mut status, '+');
        }
        status.append(" matches in ");
        push_decimal(&mut status, elapsed_ms);
        status.append("ms");
        self.status = status;
        self.hits = hits;
        self.marked.clear();
        self.selected = 0;
        proof {
            assert(self.status@ =~= matches_status(n as nat, elapsed_ms as nat));
        }
    }

    /// A failed search (bad regex, bad type filter): surfaces the message in
    /// the status bar rather than silently showing zero results.
    pub fn set_error(&mut self, generation: u64, message: String)
        ensures
            generation != old(self).generation ==> *final(self) == *old(self),
            generation == old(self).generation ==> {
                &&& final(self).hits@.len() == 0
                &&& final(self).status@ == message@
                &&& final(self).marked@ == Set::<usize>::empty()
                &&& final(self).selected == 0
                &&& final(self).query == old(self).query
                &&& final(self).cursor == old(self).cursor
                &&& final(self).generation == old(self).generation
                &&& final(self).should_quit == old(self).should_quit
                &&& final(self).selection_ok()
            },
    {
        if generation != self.generation {
            return;
        }
        self.hits.clear();
        self.marked.clear();
        self.selected = 0;
        self.status = message;
    }

    /// What `enter` acts on: every marked hit in index order (marks past the
    /// end of the results are skipped), or else the selected one.
    pub fn targets(&self) -> (r: Vec<&Hit>)
        ensures
            r@.map_values(|h: &Hit| *h) == self.targets_spec(),
    {
        broadcast use lemma_ascending_unique;

        let mut out: Vec<&Hit> = Vec::new();
        if self.marked.is_empty() {
            if self.selected < self.hits.len() {
                out.push(&self.hits[self.selected]);
            }
            proof {
                assert(out@.map_values(|h: &Hit| *h) =~= self.targets_spec());
            }
            return out;
        }
        let n = self.hits.len();
        let ghost keep = |i: usize| i < n;
        let ghost pick = |i: usize| self.hits@[i as int];
        proof {
            reveal(Seq::filter);
            assert(out@.map_values(|h: &Hit| *h) =~= Seq::<Hit>::empty());
        }
        let marks = self.marked.iter();
        proof {
            lemma_iter_ascending(marks.remaining());
        }
        for i in iter: marks
            invariant
                n == self.hits.len(),
                keep == (|i: usize| i < n),
                pick == (|i: usize| self.hits@[i as int]),
                iter.seq().unref().to_set() == self.marked@,
                ascending(iter.seq().unref()),
                iter.seq().unref() == in_order(self.marked@),
                out@.map_values(|h: &Hit| *h) == iter.seq().unref().take(
                    iter.index(),
                ).filter(keep).map_values(pick),
        {
            let ghost all = iter.seq().unref();
            let ghost done = iter.index();
            proof {
                assert(all[done] == *i);
                assert(all.take(done + 1) =~= all.take(done).push(*i));
                all.take(done).lemma_filter_push(*i, keep);
            }
            let ghost before = out@;
            let ghost prefix = all.take(done).filter(keep);
            if *i < n {
                out.push(&self.hits[*i]);
                proof {
                    assert(out@ =~= before.push(&self.hits@[*i as int]));
                    assert(out@.map_values(|h: &Hit| *h) =~= before.map_values(|h: &Hit| *h).push(
                        self.hits@[*i as int],
                    ));
                    assert(prefix.push(*i).map_values(pick) =~= prefix.map_values(pick).push(
                        pick(*i),
                    ));
                }
            }
            proof {
                assert(out@.map_values(|h: &Hit| *h) =~= all.take(done + 1).filter(keep).map_values(
                    pick,
                ));
            }
        }
        proof {
            let all = in_order(self.marked@);
            assert(all.take(all.len() as int) =~= all);
        }
        out
    }
}

} // verus!
