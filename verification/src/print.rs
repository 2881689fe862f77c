//! `--print`: results as lines for piping, and grep's exit-code convention.
use crate::rank::{
    lemma_key_total_ordering, lemma_map_to_multiset, lemma_perm_of_range, models, range,
    sort_indices, sorted_by, KeyModel, SortKey,
};
use crate::search::engine::{
    build_matcher, build_types, file_hits, first_line_of, regex_error, type_allows, types_error,
    GrepMatcher, HitModel, HitSink, TypeFilter,
};
use crate::search::files::{is_ranking, path_chars, rank, ranked_hits};
use crate::search::{Hit, MAX_HITS};
use crate::text::{decimal, push_decimal, string_push, to_chars};
use vstd::prelude::*;

verus! {

/// `file:line:col`, the line printed for a content hit.
pub open spec fn hit_line(h: Hit) -> Seq<char> {
    h.path@ + ":"@ + decimal(h.line_number as nat) + ":"@ + decimal(h.col as nat)
}

/// The order printed hits come in: by path, then line, then column.
pub open spec fn print_key(h: Hit) -> (u64, Seq<char>, u64, u64) {
    (0u64, h.path@, h.line_number, h.col)
}

fn hit_line_of(h: &Hit) -> (s: String)
    ensures
        s@ == hit_line(*h),
{
    let mut s = h.path.clone();
    s.append(":");
    push_decimal(&mut s, h.line_number as u128);
    s.append(":");
    push_decimal(&mut s, h.col as u128);
    s
}

/// `order` rearranges `hits` into the order they are printed in, and
/// `lines` are their `file:line:col` lines in that order.
pub open spec fn print_order(order: Seq<usize>, lines: Seq<String>, hits: Seq<Hit>) -> bool {
    &&& order.to_multiset() == range(hits.len()).to_multiset()
    &&& forall|k: int| 0 <= k < order.len() ==> order[k] < hits.len()
    &&& forall|a: int, b: int|
        0 <= a < b < order.len() ==> crate::rank::key_le(
            print_key(hits[order[a] as int]),
            print_key(hits[order[b] as int]),
        )
    &&& forall|k: int| 0 <= k < order.len() ==> (#[trigger] lines[k])@ == hit_line(hits[order[k] as int])
}

/// `lines` are the printed form of `hits`: one `file:line:col` per hit, in
/// an order of the hits sorted by path, line and column.
pub open spec fn prints_sorted(lines: Seq<String>, hits: Seq<Hit>) -> bool {
    &&& lines.len() == hits.len()
    &&& exists|order: Seq<usize>| print_order(order, lines, hits)
}

/// The lines `--print` writes for content hits: one `file:line:col` per
/// hit, sorted by path, line and column, so that the output does not depend
/// on the order in which a parallel walk found them.
pub fn grep_lines(hits: &Vec<Hit>) -> (r: Vec<String>)
    ensures
        prints_sorted(r@, hits@),
{
    let mut keys: Vec<SortKey> = Vec::new();
    let mut i: usize = 0;
    while i < hits.len()
        invariant
            i <= hits@.len(),
            keys@.len() == i,
            forall|k: int| 0 <= k < i ==> (#[trigger] keys@[k]).model() == print_key(hits@[k]),
        decreases hits@.len() - i,
    {
        let ghost before = keys@;
        keys.push(
            SortKey {
                primary: 0,
                text: to_chars(hits[i].path.as_str()),
                line: hits[i].line_number,
                col: hits[i].col,
            },
        );
        assert forall|k: int| 0 <= k < i + 1 implies (#[trigger] keys@[k]).model() == print_key(
            hits@[k],
        ) by {
            if k < i {
                assert(keys@[k] == before[k]);
            }
        }
        i = i + 1;
    }
    let order = sort_indices(&keys);
    proof {
        lemma_perm_of_range(order@, keys@.len());
    }
    let mut r: Vec<String> = Vec::new();
    let mut k: usize = 0;
    while k < order.len()
        invariant
            k <= order@.len(),
            order@.len() == hits@.len(),
            forall|p: int| 0 <= p < order@.len() ==> order@[p] < hits@.len(),
            r@.len() == k,
            forall|p: int|
                0 <= p < k ==> (#[trigger] r@[p])@ == hit_line(hits@[order@[p] as int]),
        decreases order@.len() - k,
    {
        let ghost before = r@;
        r.push(hit_line_of(&hits[order[k]]));
        assert forall|p: int| 0 <= p < k + 1 implies (#[trigger] r@[p])@ == hit_line(
            hits@[order@[p] as int],
        ) by {
            if p < k {
                assert(r@[p] == before[p]);
            }
        }
        k = k + 1;
    }
    proof {
        let ks = models(keys@);
        assert forall|a: int, b: int| 0 <= a < b < order@.len() implies crate::rank::key_le(
            print_key(hits@[order@[a] as int]),
            print_key(hits@[order@[b] as int]),
        ) by {
            assert(ks[order@[a] as int] == keys@[order@[a] as int].model());
            assert(ks[order@[b] as int] == keys@[order@[b] as int].model());
        }
        assert(print_order(order@, r@, hits@));
    }
    r
}

/// Hits are printed by path, then line, then column: of two printed hits,
/// one whose path sorts before the other's, or whose path is the same and
/// whose line comes before, is printed first, whatever the columns; on the
/// same line the smaller column comes first.
pub proof fn law_printed_by_path_then_line(order: Seq<usize>, lines: Seq<String>, hits: Seq<Hit>)
    requires
        print_order(order, lines, hits),
    ensures
        forall|a: int, b: int|
            #![trigger order[a], order[b]]
            0 <= a < b < order.len() ==> {
                let first = hits[order[a] as int];
                let second = hits[order[b] as int];
                &&& !crate::rank::text_lt(second.path@, first.path@)
                &&& (second.path@ == first.path@ ==> first.line_number <= second.line_number)
                &&& (second.path@ == first.path@ && second.line_number == first.line_number
                    ==> first.col <= second.col)
            },
{
    assert forall|a: int, b: int| #![trigger order[a], order[b]] 0 <= a < b < order.len() implies {
        let first = hits[order[a] as int];
        let second = hits[order[b] as int];
        &&& !crate::rank::text_lt(second.path@, first.path@)
        &&& (second.path@ == first.path@ ==> first.line_number <= second.line_number)
        &&& (second.path@ == first.path@ && second.line_number == first.line_number ==> first.col
            <= second.col)
    } by {
        let first = hits[order[a] as int];
        let second = hits[order[b] as int];
        assert(crate::rank::key_le(print_key(first), print_key(second)));
        assert(!crate::rank::key_lt(print_key(second), print_key(first)));
        assert(print_key(first).0 == 0 && print_key(second).0 == 0);
    }
}

/// The printed line of a hit, from its sort key.
pub open spec fn key_line(k: KeyModel) -> Seq<char> {
    k.1 + ":"@ + decimal(k.2 as nat) + ":"@ + decimal(k.3 as nat)
}

/// What `--print` writes for content hits depends only on which hits were
/// found, not on the order in which the walk found them.
pub proof fn law_print_ignores_walk_order(
    lines1: Seq<String>,
    hits1: Seq<Hit>,
    lines2: Seq<String>,
    hits2: Seq<Hit>,
)
    requires
        prints_sorted(lines1, hits1),
        prints_sorted(lines2, hits2),
        hits1.to_multiset() == hits2.to_multiset(),
        hits1.len() <= usize::MAX,
    ensures
        lines1.len() == lines2.len(),
        forall|k: int| 0 <= k < lines1.len() ==> (#[trigger] lines1[k])@ == lines2[k]@,
{
    broadcast use vstd::seq_lib::group_to_multiset_ensures;

    let leq = |a: KeyModel, b: KeyModel| crate::rank::key_le(a, b);
    let key = |h: Hit| print_key(h);
    let o1 = choose|order: Seq<usize>| print_order(order, lines1, hits1);
    let o2 = choose|order: Seq<usize>| print_order(order, lines2, hits2);
    let f1 = |i: usize| print_key(hits1[i as int]);
    let f2 = |i: usize| print_key(hits2[i as int]);
    let s1 = o1.map_values(f1);
    let s2 = o2.map_values(f2);
    assert(o1.len() == hits1.len()) by {
        assert(o1.to_multiset().len() == range(hits1.len()).to_multiset().len());
    }
    assert(o2.len() == hits2.len()) by {
        assert(o2.to_multiset().len() == range(hits2.len()).to_multiset().len());
    }
    lemma_map_to_multiset(o1, range(hits1.len()), f1);
    lemma_map_to_multiset(o2, range(hits2.len()), f2);
    assert(hits2.len() == hits1.len()) by {
        vstd::seq_lib::to_multiset_len(hits1);
        vstd::seq_lib::to_multiset_len(hits2);
    }
    assert(range(hits1.len()).map_values(f1) =~= hits1.map_values(key));
    assert(range(hits2.len()).map_values(f2) =~= hits2.map_values(key));
    lemma_map_to_multiset(hits1, hits2, key);
    assert(vstd::relations::sorted_by(s1, leq));
    assert(vstd::relations::sorted_by(s2, leq));
    lemma_key_total_ordering();
    vstd::seq_lib::lemma_sorted_unique(s1, s2, leq);
    assert forall|k: int| 0 <= k < lines1.len() implies (#[trigger] lines1[k])@ == lines2[k]@ by {
        assert(s1[k] == s2[k]);
        assert(hit_line(hits1[o1[k] as int]) == key_line(s1[k]));
        assert(hit_line(hits2[o2[k] as int]) == key_line(s2[k]));
    }
}

/// The lines `--print` writes in filename mode: the ranked paths, as ranked.
pub fn file_lines(hits: &Vec<Hit>) -> (r: Vec<String>)
    ensures
        r@.len() == hits@.len(),
        forall|k: int| 0 <= k < r@.len() ==> (#[trigger] r@[k])@ == hits@[k].path@,
{
    let mut r: Vec<String> = Vec::new();
    let mut k: usize = 0;
    while k < hits.len()
        invariant
            k <= hits@.len(),
            r@.len() == k,
            forall|p: int| 0 <= p < k ==> (#[trigger] r@[p])@ == hits@[p].path@,
        decreases hits@.len() - k,
    {
        let ghost before = r@;
        r.push(hits[k].path.clone());
        assert forall|p: int| 0 <= p < k + 1 implies (#[trigger] r@[p])@ == hits@[p].path@ by {
            if p < k {
                assert(r@[p] == before[p]);
            }
        }
        k = k + 1;
    }
    r
}

/// grep's convention: 0 when something matched, 1 when nothing did, 2 when
/// the search failed.
pub fn exit_code(failed: bool, printed: usize) -> (c: i32)
    ensures
        failed ==> c == 2,
        !failed && printed > 0 ==> c == 0,
        !failed && printed == 0 ==> c == 1,
{
    if failed {
        2
    } else if printed > 0 {
        0
    } else {
        1
    }
}

/// The type names as strings.
pub open spec fn type_names(types: Seq<String>) -> Seq<Seq<char>> {
    types.map_values(|s: String| s@)
}

/// The hits gathered for `--print` in content mode, file by file.
pub struct GrepPrint {
    matcher: GrepMatcher,
    types: TypeFilter,
    hits: Vec<Hit>,
}

impl GrepPrint {
    /// The query the run compiled.
    pub closed spec fn pattern(&self) -> Seq<char> {
        self.matcher.pattern()
    }

    /// The type names the run filters by.
    pub closed spec fn selected(&self) -> Seq<Seq<char>> {
        self.types.selected()
    }

    /// The hits gathered so far, in the order their files were searched.
    pub closed spec fn found(&self) -> Seq<Hit> {
        self.hits@
    }

    /// No more hits than the cap.
    pub closed spec fn wf(&self) -> bool {
        self.hits@.len() <= MAX_HITS
    }

    /// Starts a run: the query is compiled first, then the type filter; the
    /// first that fails gives the error, by the first line of its message.
    pub fn new(query: &str, types: &[String]) -> (r: Result<GrepPrint, String>)
        ensures
            regex_error(query@) matches Some(e) ==> (r matches Err(msg) && msg@ == first_line_of(
                e,
            )),
            regex_error(query@) is None && types_error(type_names(types@)) is Some ==> (r matches Err(
                msg,
            ) && msg@ == first_line_of(types_error(type_names(types@)).unwrap())),
            regex_error(query@) is None && types_error(type_names(types@)) is None ==> (r matches Ok(
                p,
            ) && p.wf() && p.pattern() == query@ && p.selected() == type_names(types@)
                && p.found().len() == 0),
    {
        let matcher = match build_matcher(query) {
            Ok(m) => m,
            Err(e) => {
                return Err(e);
            },
        };
        let filter = match build_types(types) {
            Ok(t) => t,
            Err(e) => {
                return Err(e);
            },
        };
        assert(types@.map_values(|s: String| s@) == type_names(types@));
        Ok(GrepPrint { matcher, types: filter, hits: Vec::new() })
    }

    /// Whether the walk may stop: the cap is reached.
    pub fn is_full(&self) -> (b: bool)
        ensures
            b == (self.found().len() >= MAX_HITS),
    {
        self.hits.len() >= MAX_HITS
    }

    /// Searches one file the walk found: a file the type filter passes
    /// gives its matching lines, as many as the cap leaves room for; any
    /// other file gives nothing.
    pub fn add_file(&mut self, path: &str, bytes: &[u8])
        requires
            old(self).wf(),
        ensures
            final(self).wf(),
            final(self).pattern() == old(self).pattern(),
            final(self).selected() == old(self).selected(),
            crate::search::engine::models(final(self).found()) == crate::search::engine::models(
                old(self).found(),
            ) + if type_allows(old(self).selected(), path@) {
                file_hits(path@, old(self).pattern(), bytes@, old(self).found().len() as int)
            } else {
                Seq::<HitModel>::empty()
            },
    {
        let ghost before = self.hits@;
        let ghost pattern = self.matcher.pattern();
        let ghost selected = self.types.selected();
        if !self.types.allows(path) {
            assert(crate::search::engine::models(self.hits@) + Seq::<HitModel>::empty()
                =~= crate::search::engine::models(self.hits@));
            return;
        }
        let mut sink = HitSink::new(path.to_owned(), 0);
        let batches = sink.search(0, &self.matcher, bytes, self.hits.len());
        let mut b: usize = 0;
        assert(batches@.take(0) =~= Seq::<Vec<Hit>>::empty());
        assert(before + crate::search::engine::flatten(Seq::<Vec<Hit>>::empty()) =~= before);
        while b < batches.len()
            invariant
                b <= batches@.len(),
                self.hits@ == before + crate::search::engine::flatten(batches@.take(b as int)),
                self.matcher.pattern() == pattern,
                self.types.selected() == selected,
            decreases batches@.len() - b,
        {
            let mut j: usize = 0;
            let ghost mid = self.hits@;
            assert(batches@[b as int]@.take(0) =~= Seq::<Hit>::empty());
            assert(mid + Seq::<Hit>::empty() =~= mid);
            while j < batches[b].len()
                invariant
                    b < batches@.len(),
                    j <= batches@[b as int]@.len(),
                    self.hits@ == mid + batches@[b as int]@.take(j as int),
                    self.matcher.pattern() == pattern,
                    self.types.selected() == selected,
                decreases batches@[b as int]@.len() - j,
            {
                let copy = batches[b][j].copied();
                self.hits.push(copy);
                assert(batches@[b as int]@.take(j + 1) =~= batches@[b as int]@.take(j as int).push(
                    batches@[b as int]@[j as int],
                ));
                assert(self.hits@ =~= mid + batches@[b as int]@.take(j + 1));
                j = j + 1;
            }
            proof {
                assert(batches@[b as int]@.take(j as int) =~= batches@[b as int]@);
                assert(batches@.take(b + 1).drop_last() =~= batches@.take(b as int));
                assert(batches@.take(b + 1).last() == batches@[b as int]);
                assert(self.hits@ =~= before + crate::search::engine::flatten(
                    batches@.take(b + 1),
                ));
            }
            b = b + 1;
        }
        proof {
            assert(batches@.take(b as int) =~= batches@);
            let got = crate::search::engine::flatten(batches@);
            assert(crate::search::engine::models(before + got) =~= crate::search::engine::models(
                before,
            ) + crate::search::engine::models(got));
        }
    }

    /// What the run prints, and its exit code: the hits sorted as
    /// `file:line:col` lines; 0 when there were hits, 1 when there were none.
    pub fn finish(&self) -> (r: (Vec<String>, i32))
        ensures
            prints_sorted(r.0@, self.found()),
            r.1 == if self.found().len() > 0 {
                0i32
            } else {
                1i32
            },
    {
        let lines = grep_lines(&self.hits);
        let code = exit_code(false, lines.len());
        (lines, code)
    }
}

/// `--print` in filename mode: the walked paths ranked against the query,
/// one per line, best first, at most `MAX_HITS` of them; the exit code is 0
/// when something matched and 1 when nothing did.
pub fn print_files(paths: &Vec<String>, query: &str) -> (r: (Vec<String>, i32))
    requires
        query@.len() <= crate::search::files::MAX_QUERY_CHARS,
    ensures
        exists|order: Seq<usize>|
            {
                &&& is_ranking(order, path_chars(paths@), query@, MAX_HITS as nat)
                &&& r.0@.len() == order.len()
                &&& forall|k: int|
                    0 <= k < order.len() ==> (#[trigger] r.0@[k])@ == paths@[order[k] as int]@
            },
        r.1 == if r.0@.len() > 0 {
            0i32
        } else {
            1i32
        },
{
    let order = rank(paths, query, MAX_HITS);
    proof {
        assert forall|k: int| 0 <= k < order@.len() implies order@[k] < paths@.len() by {
            assert(crate::search::files::is_match(path_chars(paths@), query@, order@[k]));
        }
    }
    let hits = ranked_hits(paths, order.as_slice());
    let lines = file_lines(&hits);
    let code = exit_code(false, lines.len());
    proof {
        let o = order@;
        assert(is_ranking(o, path_chars(paths@), query@, MAX_HITS as nat));
        assert forall|k: int| 0 <= k < o.len() implies (#[trigger] lines@[k])@ == paths@[o[k] as int]@ by {
            assert(hits@[k].model().0 == paths@[o[k] as int]@);
        }
    }
    (lines, code)
}

} // verus!
