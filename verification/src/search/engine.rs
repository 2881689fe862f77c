//! The content (grep) engine: compiling the query, selecting file types,
//! and turning each matching line into a hit. Walking the tree and reading
//! files is the program's part; it calls in here for every decision.
use crate::search::{Hit, MAX_HITS};
use crate::text::{
    lemma_split_nonempty, split, split_bounds, string_of, to_chars, trim, trim_bounds, trim_end,
    trimmed_end,
};
use grep_matcher::Matcher;
use grep_searcher::sinks::Bytes;
use grep_searcher::{BinaryDetection, SearcherBuilder};
use vstd::prelude::*;
use vstd::utf8::{decode_utf8, valid_utf8};

verus! {

/// Hits per channel message. One send per hit would swamp the UI thread.
pub const BATCH: usize = 50;

#[verifier::external_type_specification]
#[verifier::external_body]
pub struct ExRegexMatcher(grep_regex::RegexMatcher);

#[verifier::external_type_specification]
#[verifier::external_body]
pub struct ExTypes(ignore::types::Types);

/// The error text `grep_regex` gives for `query` compiled with smart case
/// and `\n` as line terminator, or `None` when it compiles.
pub uninterp spec fn regex_error(query: Seq<char>) -> Option<Seq<char>>;

/// Where the first match of `pattern` (compiled as above) starts in
/// `haystack`, if it matches at all.
pub uninterp spec fn regex_first_match(pattern: Seq<char>, haystack: Seq<u8>) -> Option<usize>;

/// The error text `ignore`'s type builder gives for the default type
/// definitions with the names in `selected` selected, or `None` when it
/// builds.
pub uninterp spec fn types_error(selected: Seq<Seq<char>>) -> Option<Seq<char>>;

/// The text `String::from_utf8_lossy` makes of `bytes`.
pub uninterp spec fn utf8_lossy(bytes: Seq<u8>) -> Seq<char>;

/// A compiled query, together with the pattern it was compiled from.
pub struct GrepMatcher {
    pattern: String,
    inner: grep_regex::RegexMatcher,
}

impl GrepMatcher {
    /// The pattern this matcher was compiled from.
    pub closed spec fn pattern(&self) -> Seq<char> {
        self.pattern@
    }

    /// `grep_matcher::Matcher::find` on the compiled query: where its first
    /// match in `haystack` starts. The matcher's error type is uninhabited.
    #[verifier::external_body]
    fn find_start(&self, haystack: &[u8]) -> (r: Option<usize>)
        ensures
            r == regex_first_match(self.pattern(), haystack@),
    {
        self.inner.find(haystack).ok().flatten().map(|m| m.start())
    }
}

/// `grep_regex::RegexMatcherBuilder` with smart case and `\n` as line
/// terminator, building `query`; a failure is given as its message.
#[verifier::external_body]
fn compile_smart(query: &str) -> (r: Result<GrepMatcher, String>)
    ensures
        r is Ok <==> regex_error(query@) is None,
        r matches Ok(m) ==> m.pattern() == query@,
        r matches Err(e) ==> e@ == regex_error(query@).unwrap(),
{
    match grep_regex::RegexMatcherBuilder::new().case_smart(true).line_terminator(
        Some(b'\n'),
    ).build(query) {
        Ok(inner) => Ok(GrepMatcher { pattern: query.to_string(), inner }),
        Err(e) => Err(e.to_string()),
    }
}

/// Whether the file at `path` passes the type filter built from
/// `selected` (only its file name counts).
pub uninterp spec fn type_allows(selected: Seq<Seq<char>>, path: Seq<char>) -> bool;

/// The lines `grep_searcher` reports as matching `pattern` (compiled as
/// above) in `haystack`, with their 1-based line numbers and their bytes
/// (terminator included), when it reads `haystack` as a stream, the way it
/// reads a file: line numbers on, a UTF-16 byte-order mark transcoded, and
/// the search ended at the first buffer it reads that holds a NUL byte
/// (nothing of that buffer or after it is searched).
pub uninterp spec fn grep_slice(pattern: Seq<char>, haystack: Seq<u8>) -> Seq<(u64, Seq<u8>)>;

/// The type filter, together with the type names it selects.
pub struct TypeFilter {
    selected: Vec<String>,
    inner: ignore::types::Types,
}

impl TypeFilter {
    /// The type names this filter was built from.
    pub closed spec fn selected(&self) -> Seq<Seq<char>> {
        self.selected@.map_values(|s: String| s@)
    }

    /// `ignore::types::Types::matched` on the compiled filter for a file: it
    /// passes unless the filter ignores it. With nothing selected every file
    /// passes.
    #[verifier::external_body]
    pub(crate) fn allows(&self, path: &str) -> (b: bool)
        ensures
            b == type_allows(self.selected(), path@),
            self.selected().len() == 0 ==> b,
    {
        !self.inner.matched(path, false).is_ignore()
    }

    /// The compiled filter this value holds, the one `allows` consults.
    pub closed spec fn compiled(&self) -> ignore::types::Types {
        self.inner
    }

    /// The compiled filter, for a walker that applies it itself.
    pub fn types(&self) -> (t: &ignore::types::Types)
        ensures
            *t == self.compiled(),
    {
        &self.inner
    }
}

/// `ignore::types::TypesBuilder` with its default definitions and the
/// names in `selected` selected; a failure is given as its message. With
/// nothing selected it always builds.
#[verifier::external_body]
fn build_type_filter(selected: &[String]) -> (r: Result<TypeFilter, String>)
    ensures
        r is Ok <==> types_error(selected@.map_values(|s: String| s@)) is None,
        selected@.len() == 0 ==> r is Ok,
        r matches Ok(t) ==> t.selected() == selected@.map_values(|s: String| s@),
        r matches Err(e) ==> e@ == types_error(selected@.map_values(|s: String| s@)).unwrap(),
{
    let mut builder = ignore::types::TypesBuilder::new();
    builder.add_defaults();
    for t in selected {
        builder.select(t);
    }
    match builder.build() {
        Ok(inner) => Ok(TypeFilter { selected: selected.to_vec(), inner }),
        Err(e) => Err(e.to_string()),
    }
}

/// Copies one reported line into `lines`.
fn record_line(lines: &mut Vec<(u64, Vec<u8>)>, n: u64, line: &[u8])
    ensures
        final(lines)@.len() == old(lines)@.len() + 1,
        final(lines)@.drop_last() == old(lines)@,
        final(lines)@.last().0 == n,
        final(lines)@.last().1@ == line@,
{
    let mut copy: Vec<u8> = Vec::new();
    let mut i: usize = 0;
    while i < line.len()
        invariant
            i <= line@.len(),
            copy@ == line@.take(i as int),
        decreases line@.len() - i,
    {
        copy.push(line[i]);
        assert(line@.take(i + 1) =~= line@.take(i as int).push(line@[i as int]));
        i = i + 1;
    }
    assert(line@.take(line@.len() as int) =~= line@);
    let ghost before = lines@;
    lines.push((n, copy));
    assert(lines@.drop_last() =~= before);
}

/// The lines of a file as pairs of line number and bytes.
pub open spec fn line_pairs(lines: Seq<(u64, Vec<u8>)>) -> Seq<(u64, Seq<u8>)> {
    lines.map_values(|p: (u64, Vec<u8>)| (p.0, p.1@))
}

/// `grep_searcher::Searcher::search_reader` over the bytes, with line
/// numbers on and binary detection quitting at a NUL byte, collecting every
/// matching line; the sink's closure only records the line.
#[verifier::external_body]
fn matching_lines(m: &GrepMatcher, haystack: &[u8]) -> (r: Vec<(u64, Vec<u8>)>)
    ensures
        line_pairs(r@) == grep_slice(m.pattern(), haystack@),
{
    let mut searcher = SearcherBuilder::new().line_number(true).binary_detection(
        BinaryDetection::quit(0),
    ).build();
    let mut lines: Vec<(u64, Vec<u8>)> = Vec::new();
    let _ = searcher.search_reader(&m.inner, haystack, Bytes(|n, line| {
        record_line(&mut lines, n, line);
        Ok(true)
    }));
    lines
}

/// `String::from_utf8_lossy`: valid UTF-8 comes back as it is.
#[verifier::external_body]
fn lossy(bytes: &[u8]) -> (s: String)
    ensures
        s@ == utf8_lossy(bytes@),
        valid_utf8(bytes@) ==> s@ == decode_utf8(bytes@),
{
    String::from_utf8_lossy(bytes).into_owned()
}

/// The first of `lines`, trimmed, that is not blank.
pub open spec fn first_nonblank(lines: Seq<Seq<char>>) -> Option<Seq<char>>
    decreases lines.len(),
{
    if lines.len() == 0 {
        None
    } else if trim(lines[0]).len() > 0 {
        Some(trim(lines[0]))
    } else {
        first_nonblank(lines.drop_first())
    }
}

/// The first non-blank line of `s`, trimmed, or "search failed".
pub open spec fn first_line_of(s: Seq<char>) -> Seq<char> {
    match first_nonblank(split(s, '\n')) {
        Some(l) => l,
        None => "search failed"@,
    }
}

/// The status bar is one line; errors are often several.
pub fn first_line(s: &str) -> (r: String)
    ensures
        r@ == first_line_of(s@),
{
    let v = to_chars(s);
    let parts = split_bounds(v.as_slice(), '\n');
    let ghost lines = split(s@, '\n');
    let mut i: usize = 0;
    assert(lines.skip(0) =~= lines);
    while i < parts.len()
        invariant
            i <= parts@.len(),
            v@ == s@,
            lines == split(s@, '\n'),
            parts@.len() == lines.len(),
            forall|j: int|
                0 <= j < parts@.len() ==> {
                    &&& (#[trigger] parts@[j]).0 <= parts@[j].1 <= v@.len()
                    &&& v@.subrange(parts@[j].0 as int, parts@[j].1 as int) == lines[j]
                },
            first_nonblank(lines.skip(i as int)) == first_nonblank(lines),
        decreases parts@.len() - i,
    {
        let (a, b) = parts[i];
        let (x, y) = trim_bounds(v.as_slice(), a, b);
        assert(lines.skip(i as int)[0] == lines[i as int]);
        if x < y {
            return string_of(v.as_slice(), x, y);
        }
        assert(lines.skip(i as int).drop_first() =~= lines.skip(i + 1));
        i = i + 1;
    }
    assert(lines.skip(i as int).len() == 0);
    String::from_str("search failed")
}

/// Compiles the query: case-insensitive unless it holds an uppercase
/// letter. A failure is reported by the first line of its message.
pub fn build_matcher(query: &str) -> (r: Result<GrepMatcher, String>)
    ensures
        regex_error(query@) is None ==> (r matches Ok(m) && m.pattern() == query@),
        regex_error(query@) matches Some(e) ==> (r matches Err(msg) && msg@ == first_line_of(e)),
{
    match compile_smart(query) {
        Ok(m) => Ok(m),
        Err(e) => Err(first_line(e.as_str())),
    }
}

/// The file-type filter: ripgrep's own type definitions with `selected`
/// chosen. A failure is reported by the first line of its message.
pub fn build_types(selected: &[String]) -> (r: Result<TypeFilter, String>)
    ensures
        r is Ok <==> types_error(selected@.map_values(|s: String| s@)) is None,
        r matches Ok(t) ==> t.selected() == selected@.map_values(|s: String| s@),
        types_error(selected@.map_values(|s: String| s@)) matches Some(e) ==> (r matches Err(msg)
            && msg@ == first_line_of(e)),
{
    match build_type_filter(selected) {
        Ok(t) => Ok(t),
        Err(e) => Err(first_line(e.as_str())),
    }
}

/// Whether a walker thread should stop the whole walk: the query moved on,
/// or the cap is reached.
pub fn walk_should_quit(current_gen: u64, generation: u64, total: usize) -> (q: bool)
    ensures
        q == (current_gen != generation || total >= MAX_HITS),
{
    current_gen != generation || total >= MAX_HITS
}

/// How many of `n` further hits the cap still admits, `total_before` having
/// been accepted before them.
pub fn admitted(total_before: usize, n: usize) -> (r: usize)
    ensures
        r == if total_before >= MAX_HITS {
            0
        } else if n <= MAX_HITS - total_before {
            n
        } else {
            (MAX_HITS - total_before) as usize
        },
{
    if total_before >= MAX_HITS {
        0
    } else if n <= MAX_HITS - total_before {
        n
    } else {
        MAX_HITS - total_before
    }
}

/// The hit for one matching line: `col` is the 1-based byte offset of the
/// first match (1 when the matcher finds none on the line alone), the text
/// is the line with trailing whitespace dropped.
pub open spec fn line_hit(
    path: Seq<char>,
    pattern: Seq<char>,
    line_number: Option<u64>,
    bytes: Seq<u8>,
) -> (Seq<char>, u64, u64, Seq<char>) {
    let start: int = match regex_first_match(pattern, bytes) {
        Some(s) => s as int,
        None => 0,
    };
    (
        path,
        match line_number {
            Some(n) => n,
            None => 0,
        },
        if start < u64::MAX {
            (start + 1) as u64
        } else {
            u64::MAX
        },
        trim_end(utf8_lossy(bytes)),
    )
}

/// Receives matches for a single file and batches them up.
pub struct HitSink {
    pub path: String,
    pub generation: u64,
    pub batch: Vec<Hit>,
}

impl HitSink {
    pub fn new(path: String, generation: u64) -> (s: Self)
        ensures
            s.path == path,
            s.generation == generation,
            s.batch@.len() == 0,
    {
        HitSink { path, generation, batch: Vec::new() }
    }

    /// A match is only wanted while the UI is still on this generation.
    pub fn is_current(&self, current_gen: u64) -> (b: bool)
        ensures
            b == (current_gen == self.generation),
    {
        current_gen == self.generation
    }

    /// One matching line, the UI being on generation `current_gen` and the
    /// search having accepted `total_before` hits before it. Returns whether
    /// to go on searching this file and whether the batch is due to be sent.
    /// A match is dropped, and the file's search stopped, once the UI has
    /// moved on or the cap is reached.
    pub fn matched(
        &mut self,
        current_gen: u64,
        total_before: usize,
        matcher: &GrepMatcher,
        line_number: Option<u64>,
        bytes: &[u8],
    ) -> (r: (bool, bool))
        ensures
            current_gen != old(self).generation ==> r == (false, false) && final(self).batch@
                == old(self).batch@,
            current_gen == old(self).generation && total_before >= MAX_HITS ==> r == (false, false)
                && final(self).batch@ == old(self).batch@,
            current_gen == old(self).generation && total_before < MAX_HITS ==> {
                &&& r.0
                &&& final(self).batch@.len() == old(self).batch@.len() + 1
                &&& final(self).batch@.drop_last() == old(self).batch@
                &&& final(self).batch@.last().model() == line_hit(
                    old(self).path@,
                    matcher.pattern(),
                    line_number,
                    bytes@,
                )
                &&& r.1 == (final(self).batch@.len() >= BATCH)
            },
            final(self).path == old(self).path,
            final(self).generation == old(self).generation,
    {
        if !self.is_current(current_gen) {
            return (false, false);
        }
        if total_before >= MAX_HITS {
            return (false, false);
        }
        let start: usize = match matcher.find_start(bytes) {
            Some(s) => s,
            None => 0,
        };
        let s64: u64 = start as u64;
        let col: u64 = if s64 < u64::MAX {
            s64 + 1
        } else {
            u64::MAX
        };
        let text = lossy(bytes);
        let line_text = trimmed_end(text.as_str());
        let ln = match line_number {
            Some(n) => n,
            None => 0,
        };
        let hit = Hit { path: self.path.clone(), line_number: ln, col, line_text };
        let ghost before = self.batch@;
        self.batch.push(hit);
        assert(self.batch@.drop_last() =~= before);
        (true, self.batch.len() >= BATCH)
    }

    /// Hands over the batch, leaving it empty (`flush`).
    pub fn take_batch(&mut self) -> (b: Vec<Hit>)
        ensures
            b@ == old(self).batch@,
            final(self).batch@.len() == 0,
            final(self).path == old(self).path,
            final(self).generation == old(self).generation,
    {
        let mut taken: Vec<Hit> = Vec::new();
        std::mem::swap(&mut taken, &mut self.batch);
        taken
    }
}

/// A hit by its field values.
pub type HitModel = (Seq<char>, u64, u64, Seq<char>);

/// Hits by their field values.
pub open spec fn models(hits: Seq<Hit>) -> Seq<HitModel> {
    hits.map_values(|h: Hit| h.model())
}

/// Batches laid end to end.
pub open spec fn flatten(batches: Seq<Vec<Hit>>) -> Seq<Hit>
    decreases batches.len(),
{
    if batches.len() == 0 {
        Seq::<Hit>::empty()
    } else {
        flatten(batches.drop_last()) + batches.last()@
    }
}

/// The hits a file gives, the search having accepted `total_before` hits
/// before it: its matching lines, as many as the cap leaves room for.
pub open spec fn file_hits(path: Seq<char>, pattern: Seq<char>, bytes: Seq<u8>, total_before: int) -> Seq<
    HitModel,
> {
    let lines = grep_slice(pattern, bytes);
    let room: int = if total_before < MAX_HITS {
        MAX_HITS - total_before
    } else {
        0
    };
    let n: int = if room < lines.len() {
        room
    } else {
        lines.len() as int
    };
    lines.take(n).map_values(
        |l: (u64, Seq<u8>)| line_hit(path, pattern, Some(l.0), l.1),
    )
}

impl HitSink {
    /// Searches one file's contents, the UI being on generation
    /// `current_gen` and the search having accepted `total_before` hits
    /// before this file, and hands back its hits in batches of at most
    /// `BATCH`, as they are to be sent. A search the UI has moved on from
    /// gives nothing.
    pub fn search(
        &mut self,
        current_gen: u64,
        matcher: &GrepMatcher,
        bytes: &[u8],
        total_before: usize,
    ) -> (batches: Vec<Vec<Hit>>)
        requires
            old(self).batch@.len() == 0,
        ensures
            current_gen != old(self).generation ==> batches@.len() == 0,
            current_gen == old(self).generation ==> models(flatten(batches@)) == file_hits(
                old(self).path@,
                matcher.pattern(),
                bytes@,
                total_before as int,
            ),
            forall|k: int| 0 <= k < batches@.len() ==> 0 < (#[trigger] batches@[k])@.len() <= BATCH,
            forall|k: int| 0 <= k < batches@.len() - 1 ==> (#[trigger] batches@[k])@.len() == BATCH,
            final(self).batch@.len() == 0,
            final(self).path == old(self).path,
            final(self).generation == old(self).generation,
    {
        if !self.is_current(current_gen) {
            return Vec::new();
        }
        let ghost path = self.path@;
        let ghost p0 = self.path;
        let ghost g0 = self.generation;
        let ghost pattern = matcher.pattern();
        let lines = matching_lines(matcher, bytes);
        let ghost want = file_hits(path, pattern, bytes@, total_before as int);
        let ghost all = grep_slice(pattern, bytes@);
        let mut batches: Vec<Vec<Hit>> = Vec::new();
        let mut k: usize = 0;
        let mut go = true;
        proof {
            assert(flatten(batches@) + self.batch@ =~= Seq::<Hit>::empty());
            assert(want.take(0) =~= Seq::<HitModel>::empty());
            assert(models(Seq::<Hit>::empty()) =~= Seq::<HitModel>::empty());
        }
        while go && k < lines.len()
            invariant
                path == self.path@,
                p0 == self.path,
                g0 == self.generation,
                current_gen == g0,
                pattern == matcher.pattern(),
                all == grep_slice(pattern, bytes@),
                line_pairs(lines@) == all,
                want == file_hits(path, pattern, bytes@, total_before as int),
                k <= lines@.len(),
                go ==> total_before + k <= MAX_HITS || k == 0,
                go ==> k <= want.len(),
                !go ==> k == want.len(),
                models(flatten(batches@) + self.batch@) == want.take(k as int),
                self.batch@.len() < BATCH,
                forall|j: int| 0 <= j < batches@.len() ==> (#[trigger] batches@[j])@.len() == BATCH,
            decreases lines@.len() - k + (if go { 1int } else { 0int }),
        {
            let (n, ref line) = lines[k];
            let ghost before = flatten(batches@) + self.batch@;
            let ghost old_batch = self.batch@;
            let (more, flush) = self.matched(
                current_gen,
                total_before + k,
                matcher,
                Some(n),
                line.as_slice(),
            );
            if !more {
                go = false;
            } else {
                proof {
                    assert(all[k as int] == (n, line@));
                    assert(k < want.len());
                    assert(self.batch@ =~= old_batch.push(self.batch@.last()));
                    assert(flatten(batches@) + self.batch@ =~= before.push(self.batch@.last()));
                    assert(models(before.push(self.batch@.last())) =~= models(before).push(
                        self.batch@.last().model(),
                    ));
                    assert(want.take(k + 1) =~= want.take(k as int).push(want[k as int]));
                }
                k = k + 1;
                if flush {
                    let ghost mid = flatten(batches@) + self.batch@;
                    let ghost old_batches = batches@;
                    let b = self.take_batch();
                    batches.push(b);
                    proof {
                        assert(batches@.drop_last() =~= old_batches);
                        assert(flatten(batches@) == flatten(old_batches) + batches@.last()@);
                        assert(flatten(batches@) + self.batch@ =~= mid);
                    }
                }
            }
        }
        proof {
            assert(k == want.len());
            assert(want.take(k as int) =~= want);
        }
        if self.batch.len() > 0 {
            let ghost mid = flatten(batches@) + self.batch@;
            let ghost old_batches = batches@;
            let b = self.take_batch();
            batches.push(b);
            proof {
                assert(batches@.drop_last() =~= old_batches);
                assert(flatten(batches@) == flatten(old_batches) + batches@.last()@);
                assert(flatten(batches@) =~= mid);
            }
        } else {
            assert(flatten(batches@) + self.batch@ =~= flatten(batches@));
        }
        batches
    }
}

} // verus!
