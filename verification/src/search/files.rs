//! The filename (fuzzy) engine: ranking the cached paths against the query.
//! Walking the tree to fill the cache, and streaming the results, is the
//! program's part.
use crate::rank::{
    key_le, key_lt, lemma_filter_count, lemma_key_antisymmetric, lemma_key_order, lemma_least_items_unique,
    lemma_map_add, lemma_map_to_multiset, lemma_nodup_count, lemma_perm_of_range,
    lemma_range_count, models, range, sort_indices, sorted_by, KeyModel, SortKey,
};
use vstd::multiset::Multiset;
use crate::search::engine::BATCH;
use crate::search::Hit;
use crate::text::to_chars;
use nucleo_matcher::pattern::{CaseMatching, Normalization, Pattern};
use nucleo_matcher::{Config, Matcher, Utf32String};
use vstd::prelude::*;

verus! {

#[verifier::external_type_specification]
#[verifier::external_body]
pub struct ExPattern(nucleo_matcher::pattern::Pattern);

#[verifier::external_type_specification]
#[verifier::external_body]
pub struct ExMatcher(nucleo_matcher::Matcher);

/// Every file in the tree, once, as found by the walk.
pub struct FileCache {
    pub paths: Vec<String>,
}

/// The score `nucleo_matcher` gives `path` (as a `Utf32String`) for `query`
/// (parsed with smart case and smart normalization, matched with its path
/// bonuses), or `None` where the path does not match.
pub uninterp spec fn path_score(query: Seq<char>, path: Seq<char>) -> Option<u32>;

/// `nucleo_matcher::pattern::Pattern::parse` with smart case matching and
/// smart normalization.
#[verifier::external_body]
fn parse_pattern(query: &str) -> Pattern {
    Pattern::parse(query, CaseMatching::Smart, Normalization::Smart)
}

/// `nucleo_matcher::Matcher::new` with the default configuration plus the
/// path bonuses (characters after a `/` score higher).
#[verifier::external_body]
fn path_matcher() -> Matcher {
    Matcher::new(Config::DEFAULT.match_paths())
}

/// The longest query, in chars, that filename mode scores. `nucleo_matcher`
/// adds up the score of each matched char of a query word in a `u16`; a
/// char scores at most 36 (16 for the match, twice the largest bonus of 10
/// for the first one), so a query this long stays well below `u16::MAX`.
/// Longer queries overflow there.
pub const MAX_QUERY_CHARS: usize = 1000;

/// A parsed query with its scratch space.
pub struct FuzzyMatcher {
    query: String,
    pattern: Pattern,
    matcher: Matcher,
}

impl FuzzyMatcher {
    /// The query this matcher was parsed from.
    pub closed spec fn query(&self) -> Seq<char> {
        self.query@
    }

    pub fn new(query: &str) -> (m: Self)
        ensures
            m.query() == query@,
    {
        let v = to_chars(query);
        FuzzyMatcher {
            query: crate::text::string_of(v.as_slice(), 0, v.len()),
            pattern: parse_pattern(query),
            matcher: path_matcher(),
        }
    }

    /// `Pattern::score` of `path`, made a `Utf32String` by its `From<&str>`
    /// (the form a cache of paths keeps). The source gives every path the
    /// score 0 when the query holds no words, as the empty query. It sums
    /// each matched char's score in a `u16`, which a query longer than
    /// `MAX_QUERY_CHARS` could overflow; such queries are left out.
    #[verifier::external_body]
    fn score(&mut self, path: &str) -> (r: Option<u32>)
        requires
            old(self).query().len() <= MAX_QUERY_CHARS,
        ensures
            r == path_score(old(self).query(), path@),
            old(self).query().len() == 0 ==> r == Some(0u32),
            final(self).query() == old(self).query(),
    {
        self.pattern.score(Utf32String::from(path).slice(..), &mut self.matcher)
    }
}

/// Path `i` matches the query.
pub open spec fn is_match(paths: Seq<Seq<char>>, query: Seq<char>, i: usize) -> bool {
    i < paths.len() && path_score(query, paths[i as int]) is Some
}

/// The order among matching paths: best score first, then by path.
pub open spec fn path_key(query: Seq<char>, path: Seq<char>) -> KeyModel {
    ((u32::MAX - path_score(query, path).unwrap()) as u64, path, 0, 0)
}

/// The key of path `i`.
pub open spec fn file_key(paths: Seq<Seq<char>>, query: Seq<char>, i: usize) -> KeyModel {
    path_key(query, paths[i as int])
}

/// The indices of the matching paths, in path order.
pub open spec fn matching(paths: Seq<Seq<char>>, query: Seq<char>) -> Seq<usize> {
    range(paths.len()).filter(|i: usize| is_match(paths, query, i))
}

/// `r` ranks the paths for `query`: matching paths only, each once, best
/// first, as many as there are up to `limit`, and no matching path left out
/// that ranks before one that was kept.
pub open spec fn is_ranking(r: Seq<usize>, paths: Seq<Seq<char>>, query: Seq<char>, limit: nat) -> bool {
    &&& r.no_duplicates()
    &&& forall|k: int| 0 <= k < r.len() ==> is_match(paths, query, #[trigger] r[k])
    &&& r.len() == if limit < matching(paths, query).len() {
        limit
    } else {
        matching(paths, query).len()
    }
    &&& forall|a: int, b: int|
        0 <= a < b < r.len() ==> key_le(
            file_key(paths, query, r[a]),
            file_key(paths, query, r[b]),
        )
    &&& forall|j: usize, a: int|
        is_match(paths, query, j) && !r.contains(j) && 0 <= a < r.len() ==> key_le(
            file_key(paths, query, r[a]),
            file_key(paths, query, j),
        )
}

/// The paths by their chars.
pub open spec fn path_chars(paths: Seq<String>) -> Seq<Seq<char>> {
    paths.map_values(|p: String| p@)
}

/// Fuzzy-matches `query` against every path and ranks the matches: best
/// score first, ties broken by path so that the list does not jitter
/// between runs; at most `limit` of them.
pub fn rank(paths: &Vec<String>, query: &str, limit: usize) -> (r: Vec<usize>)
    requires
        query@.len() <= MAX_QUERY_CHARS,
    ensures
        is_ranking(r@, path_chars(paths@), query@, limit as nat),
        forall|a: int, b: int|
            #![trigger r@[a], r@[b]]
            0 <= a < b < r@.len() ==> path_score(query@, paths@[r@[b] as int]@).unwrap()
                <= path_score(query@, paths@[r@[a] as int]@).unwrap(),
{
    let r = rank_matches(paths, query, limit);
    proof {
        law_ranking_follows_score(r@, path_chars(paths@), query@, limit as nat);
        assert forall|a: int, b: int| #![trigger r@[a], r@[b]] 0 <= a < b < r@.len() implies path_score(
            query@,
            paths@[r@[b] as int]@,
        ).unwrap() <= path_score(query@, paths@[r@[a] as int]@).unwrap() by {
            assert(path_chars(paths@)[r@[a] as int] == paths@[r@[a] as int]@);
            assert(path_chars(paths@)[r@[b] as int] == paths@[r@[b] as int]@);
        }
    }
    r
}

fn rank_matches(paths: &Vec<String>, query: &str, limit: usize) -> (r: Vec<usize>)
    requires
        query@.len() <= MAX_QUERY_CHARS,
    ensures
        is_ranking(r@, path_chars(paths@), query@, limit as nat),
{
    let ghost ps = path_chars(paths@);
    let ghost q = query@;
    let ghost pred = |i: usize| is_match(ps, q, i);
    let mut m = FuzzyMatcher::new(query);
    let mut cand: Vec<usize> = Vec::new();
    let mut keys: Vec<SortKey> = Vec::new();
    let mut i: usize = 0;
    proof {
        reveal(Seq::filter);
        assert(range(0).filter(pred) =~= Seq::<usize>::empty());
    }
    while i < paths.len()
        invariant
            i <= paths@.len(),
            ps == path_chars(paths@),
            pred == (|i: usize| is_match(ps, q, i)),
            m.query() == q,
            q.len() <= MAX_QUERY_CHARS,
            cand@ == range(i as nat).filter(pred),
            keys@.len() == cand@.len(),
            forall|k: int| 0 <= k < cand@.len() ==> cand@[k] < i,
            forall|a: int, b: int| 0 <= a < b < cand@.len() ==> cand@[a] < cand@[b],
            forall|k: int|
                0 <= k < cand@.len() ==> (#[trigger] keys@[k]).model() == file_key(
                    ps,
                    q,
                    cand@[k],
                ),
        decreases paths@.len() - i,
    {
        let sc = m.score(paths[i].as_str());
        assert(range((i + 1) as nat) =~= range(i as nat).push(i));
        proof {
            range(i as nat).lemma_filter_push(i, pred);
        }
        match sc {
            Some(s) => {
                let ghost before = keys@;
                cand.push(i);
                keys.push(
                    SortKey {
                        primary: (u32::MAX - s) as u64,
                        text: to_chars(paths[i].as_str()),
                        line: 0,
                        col: 0,
                    },
                );
                assert forall|k: int| 0 <= k < cand@.len() implies (#[trigger] keys@[k]).model()
                    == file_key(ps, q, cand@[k]) by {
                    if k < before.len() {
                        assert(keys@[k] == before[k]);
                    }
                }
            },
            None => {},
        }
        i = i + 1;
    }
    assert(range(paths@.len()) == range(ps.len()));
    let perm = sort_indices(&keys);
    proof {
        lemma_perm_of_range(perm@, keys@.len());
    }
    let count = perm.len();
    let take = if limit < count {
        limit
    } else {
        count
    };
    let ghost full = perm@.map_values(|t: usize| cand@[t as int]);
    let mut out: Vec<usize> = Vec::new();
    let mut k: usize = 0;
    while k < take
        invariant
            k <= take <= count,
            count == perm@.len(),
            count == cand@.len(),
            full == perm@.map_values(|t: usize| cand@[t as int]),
            forall|p: int| 0 <= p < perm@.len() ==> perm@[p] < cand@.len(),
            out@ == full.take(k as int),
        decreases take - k,
    {
        out.push(cand[perm[k]]);
        assert(full.take(k + 1) =~= full.take(k as int).push(full[k as int]));
        k = k + 1;
    }
    proof {
        let ks = models(keys@);
        assert(full.take(take as int) == out@);
        // Each matching path appears in `cand`, once.
        assert forall|j: usize| is_match(ps, q, j) implies cand@.contains(j) by {
            assert(range(ps.len())[j as int] == j);
            range(ps.len()).lemma_filter_contains(pred, j as int);
        }
        assert forall|a: int| 0 <= a < cand@.len() implies is_match(ps, q, #[trigger] cand@[a]) by {
            range(ps.len()).lemma_filter_pred(pred, a);
        }
        // The full arrangement is sorted.
        assert forall|a: int, b: int| 0 <= a < b < full.len() implies key_le(
            file_key(ps, q, full[a]),
            file_key(ps, q, full[b]),
        ) by {
            assert(ks[perm@[a] as int] == keys@[perm@[a] as int].model());
            assert(ks[perm@[b] as int] == keys@[perm@[b] as int].model());
        }
        assert(out@.no_duplicates()) by {
            assert forall|a: int, b: int| 0 <= a < out@.len() && 0 <= b < out@.len() && a != b implies out@[a]
                != out@[b] by {
                assert(perm@[a] != perm@[b]);
                if perm@[a] < perm@[b] {
                    assert(cand@[perm@[a] as int] < cand@[perm@[b] as int]);
                } else {
                    assert(cand@[perm@[b] as int] < cand@[perm@[a] as int]);
                }
            }
        }
        assert forall|j: usize, a: int|
            is_match(ps, q, j) && !out@.contains(j) && 0 <= a < out@.len() implies key_le(
            file_key(ps, q, out@[a]),
            file_key(ps, q, j),
        ) by {
            let t = choose|t: int| 0 <= t < cand@.len() && cand@[t] == j;
            assert(perm@.contains(t as usize));
            let p = choose|p: int| 0 <= p < perm@.len() && perm@[p] == t as usize;
            assert(full[p] == j);
            if p < take {
                assert(out@[p] == j);
            } else {
                assert(a < p);
            }
        }
    }
    out
}

/// The hits for ranked paths: a path has no position, and the opener
/// substitutes line 1, column 1.
pub fn ranked_hits(paths: &Vec<String>, order: &[usize]) -> (r: Vec<Hit>)
    requires
        forall|k: int| 0 <= k < order@.len() ==> order@[k] < paths@.len(),
    ensures
        r@.len() == order@.len(),
        forall|k: int|
            0 <= k < order@.len() ==> (#[trigger] r@[k]).model() == (
                paths@[order@[k] as int]@,
                1u64,
                1u64,
                Seq::<char>::empty(),
            ),
{
    let mut r: Vec<Hit> = Vec::new();
    let mut k: usize = 0;
    while k < order.len()
        invariant
            k <= order@.len(),
            forall|p: int| 0 <= p < order@.len() ==> order@[p] < paths@.len(),
            r@.len() == k,
            forall|p: int|
                0 <= p < k ==> (#[trigger] r@[p]).model() == (
                    paths@[order@[p] as int]@,
                    1u64,
                    1u64,
                    Seq::<char>::empty(),
                ),
        decreases order@.len() - k,
    {
        let ghost before = r@;
        r.push(Hit { path: paths[order[k]].clone(), line_number: 1, col: 1, line_text: String::new() });
        assert forall|p: int| 0 <= p < k + 1 implies (#[trigger] r@[p]).model() == (
            paths@[order@[p] as int]@,
            1u64,
            1u64,
            Seq::<char>::empty(),
        ) by {
            if p < k {
                assert(r@[p] == before[p]);
            }
        }
        k = k + 1;
    }
    r
}

/// The ranked hits cut into messages of at most `BATCH` hits, in order,
/// as the UI is sent them.
pub fn in_batches(hits: &Vec<Hit>) -> (r: Vec<Vec<Hit>>)
    ensures
        crate::search::engine::flatten(r@) == hits@,
        forall|k: int| 0 <= k < r@.len() ==> 0 < (#[trigger] r@[k])@.len() <= BATCH,
        forall|k: int| 0 <= k < r@.len() - 1 ==> (#[trigger] r@[k])@.len() == BATCH,
{
    let mut r: Vec<Vec<Hit>> = Vec::new();
    let mut cur: Vec<Hit> = Vec::new();
    let mut i: usize = 0;
    assert(crate::search::engine::flatten(r@) + cur@ =~= hits@.take(0));
    while i < hits.len()
        invariant
            i <= hits@.len(),
            crate::search::engine::flatten(r@) + cur@ == hits@.take(i as int),
            cur@.len() < BATCH,
            forall|k: int| 0 <= k < r@.len() ==> (#[trigger] r@[k])@.len() == BATCH,
        decreases hits@.len() - i,
    {
        let ghost before = crate::search::engine::flatten(r@) + cur@;
        let h = hits[i].copied();
        cur.push(h);
        i = i + 1;
        assert(hits@.take(i as int) =~= hits@.take(i - 1).push(h));
        assert(crate::search::engine::flatten(r@) + cur@ =~= before.push(h));
        if cur.len() == BATCH {
            let ghost mid = crate::search::engine::flatten(r@) + cur@;
            let ghost old_r = r@;
            let mut full: Vec<Hit> = Vec::new();
            std::mem::swap(&mut full, &mut cur);
            r.push(full);
            assert(r@.drop_last() =~= old_r);
            assert(crate::search::engine::flatten(r@) + cur@ =~= mid);
        }
    }
    if cur.len() > 0 {
        let ghost mid = crate::search::engine::flatten(r@) + cur@;
        let ghost old_r = r@;
        r.push(cur);
        assert(r@.drop_last() =~= old_r);
        assert(crate::search::engine::flatten(r@) =~= mid);
    } else {
        assert(crate::search::engine::flatten(r@) + cur@ =~= crate::search::engine::flatten(r@));
    }
    assert(hits@.take(hits@.len() as int) =~= hits@);
    r
}

/// A ranking follows the fuzzy score: of two ranked paths the one listed
/// first never scores lower, a path left out never scores higher than one
/// listed, and paths of equal score are listed in path order.
pub proof fn law_ranking_follows_score(
    r: Seq<usize>,
    paths: Seq<Seq<char>>,
    query: Seq<char>,
    limit: nat,
)
    requires
        is_ranking(r, paths, query, limit),
    ensures
        forall|a: int, b: int|
            #![trigger r[a], r[b]]
            0 <= a < b < r.len() ==> {
                &&& path_score(query, paths[r[a] as int]) is Some
                &&& path_score(query, paths[r[b] as int]).unwrap() <= path_score(
                    query,
                    paths[r[a] as int],
                ).unwrap()
                &&& (path_score(query, paths[r[b] as int]) == path_score(query, paths[r[a] as int])
                    ==> !crate::rank::text_lt(paths[r[b] as int], paths[r[a] as int]))
            },
        forall|j: usize, a: int|
            is_match(paths, query, j) && !r.contains(j) && 0 <= a < r.len() ==> path_score(
                query,
                paths[j as int],
            ).unwrap() <= path_score(query, paths[r[a] as int]).unwrap(),
{
    assert forall|a: int, b: int| #![trigger r[a], r[b]] 0 <= a < b < r.len() implies {
        &&& path_score(query, paths[r[a] as int]) is Some
        &&& path_score(query, paths[r[b] as int]).unwrap() <= path_score(
            query,
            paths[r[a] as int],
        ).unwrap()
        &&& (path_score(query, paths[r[b] as int]) == path_score(query, paths[r[a] as int])
            ==> !crate::rank::text_lt(paths[r[b] as int], paths[r[a] as int]))
    } by {
        assert(is_match(paths, query, r[a]));
        assert(is_match(paths, query, r[b]));
        let ka = file_key(paths, query, r[a]);
        let kb = file_key(paths, query, r[b]);
        let sa = path_score(query, paths[r[a] as int]).unwrap();
        let sb = path_score(query, paths[r[b] as int]).unwrap();
        assert(key_le(ka, kb));
        assert(ka.0 == (u32::MAX - sa) as u64);
        assert(kb.0 == (u32::MAX - sb) as u64);
        assert(!key_lt(kb, ka));
        assert(ka.1 == paths[r[a] as int] && kb.1 == paths[r[b] as int]);
    }
    assert forall|j: usize, a: int|
        is_match(paths, query, j) && !r.contains(j) && 0 <= a < r.len() implies path_score(
        query,
        paths[j as int],
    ).unwrap() <= path_score(query, paths[r[a] as int]).unwrap() by {
        assert(is_match(paths, query, r[a]));
        let ka = file_key(paths, query, r[a]);
        let kj = file_key(paths, query, j);
        assert(key_le(ka, kj));
        assert(ka.0 == (u32::MAX - path_score(query, paths[r[a] as int]).unwrap()) as u64);
        assert(kj.0 == (u32::MAX - path_score(query, paths[j as int]).unwrap()) as u64);
        assert(!key_lt(kj, ka));
    }
}

/// The paths a ranking lists, in its order.
pub open spec fn ranked_paths(r: Seq<usize>, paths: Seq<Seq<char>>) -> Seq<Seq<char>> {
    r.map_values(|i: usize| paths[i as int])
}

/// The matching paths found, with multiplicity.
pub open spec fn found_matches(paths: Seq<Seq<char>>, query: Seq<char>) -> Multiset<Seq<char>> {
    paths.to_multiset().filter(|p: Seq<char>| path_score(query, p) is Some)
}

/// Paths ordered by their keys.
pub open spec fn path_le(query: Seq<char>) -> spec_fn(Seq<char>, Seq<char>) -> bool {
    |a: Seq<char>, b: Seq<char>| key_le(path_key(query, a), path_key(query, b))
}

proof fn lemma_path_le_total(query: Seq<char>)
    ensures
        vstd::relations::total_ordering(path_le(query)),
{
    let leq = path_le(query);
    assert forall|x: Seq<char>| #[trigger] leq(x, x) by {
        lemma_key_order(path_key(query, x), path_key(query, x), path_key(query, x));
    }
    assert forall|x: Seq<char>, y: Seq<char>| #[trigger] leq(x, y) && #[trigger] leq(y, x) implies x
        == y by {
        lemma_key_antisymmetric(path_key(query, x), path_key(query, y));
    }
    assert forall|x: Seq<char>, y: Seq<char>, z: Seq<char>| #[trigger] leq(x, y) && #[trigger] leq(
        y,
        z,
    ) implies leq(x, z) by {
        lemma_key_order(path_key(query, x), path_key(query, y), path_key(query, z));
    }
    assert forall|x: Seq<char>, y: Seq<char>| #[trigger] leq(x, y) || #[trigger] leq(y, x) by {
        lemma_key_order(path_key(query, x), path_key(query, y), path_key(query, x));
    }
}

/// The indices below `n` that `keep` passes, and those it does not, map
/// back onto the paths.
proof fn lemma_split_paths(paths: Seq<Seq<char>>, keep: spec_fn(usize) -> bool)
    requires
        paths.len() <= usize::MAX,
    ensures
        paths.to_multiset() == range(paths.len()).filter(keep).map_values(
            |i: usize| paths[i as int],
        ).to_multiset().add(
            range(paths.len()).filter(|i: usize| !keep(i)).map_values(
                |i: usize| paths[i as int],
            ).to_multiset(),
        ),
{
    broadcast use vstd::multiset::group_multiset_axioms;

    let n = paths.len();
    let g = |i: usize| paths[i as int];
    let drop = |i: usize| !keep(i);
    let a = range(n).filter(keep);
    let b = range(n).filter(drop);
    assert forall|i: usize| (a + b).to_multiset().count(i) == range(n).to_multiset().count(i) by {
        vstd::seq_lib::lemma_multiset_commutative(a, b);
        lemma_filter_count(range(n), keep, i);
        lemma_filter_count(range(n), drop, i);
    }
    assert((a + b).to_multiset() =~= range(n).to_multiset());
    lemma_map_to_multiset(a + b, range(n), g);
    assert(range(n).map_values(g) =~= paths);
    lemma_map_add(a, b, g);
}

/// An item of the paths picked by `keep` is a path at an index `keep`
/// passes.
proof fn lemma_picked_path(paths: Seq<Seq<char>>, keep: spec_fn(usize) -> bool, y: Seq<char>)
    requires
        paths.len() <= usize::MAX,
        range(paths.len()).filter(keep).map_values(|i: usize| paths[i as int]).to_multiset().count(
            y,
        ) > 0,
    ensures
        exists|j: usize| (j as int) < paths.len() && keep(j) && paths[j as int] == y,
{
    broadcast use vstd::seq_lib::group_to_multiset_ensures;

    let n = paths.len();
    let a = range(n).filter(keep);
    let s = a.map_values(|i: usize| paths[i as int]);
    assert(s.contains(y));
    let k = choose|k: int| 0 <= k < s.len() && s[k] == y;
    let j = a[k];
    range(n).lemma_filter_pred(keep, k);
    assert(a.contains(j));
    lemma_filter_count(range(n), keep, j);
    lemma_range_count(n, j);
    assert((j as int) < n && keep(j) && paths[j as int] == y);
}

/// What a ranking says of the paths it lists: they are sorted, drawn from
/// the matching paths found, no matching path left out sorts before one of
/// them, and there are as many as the limit allows.
proof fn lemma_ranking_lists_least(r: Seq<usize>, paths: Seq<Seq<char>>, query: Seq<char>, limit: nat)
    requires
        is_ranking(r, paths, query, limit),
        paths.len() <= usize::MAX,
    ensures
        vstd::relations::sorted_by(ranked_paths(r, paths), path_le(query)),
        forall|y: Seq<char>|
            ranked_paths(r, paths).to_multiset().count(y) <= found_matches(paths, query).count(y),
        forall|y: Seq<char>, a: int|
            found_matches(paths, query).count(y) > ranked_paths(r, paths).to_multiset().count(y)
                && 0 <= a < r.len() ==> #[trigger] path_le(query)(ranked_paths(r, paths)[a], y),
        r.len() == if limit < found_matches(paths, query).len() {
            limit
        } else {
            found_matches(paths, query).len()
        },
{
    broadcast use vstd::seq_lib::group_to_multiset_ensures;
    broadcast use vstd::multiset::group_multiset_axioms;

    let n = paths.len();
    let g = |i: usize| paths[i as int];
    let f = |p: Seq<char>| path_score(query, p) is Some;
    let m = found_matches(paths, query);
    let p = ranked_paths(r, paths);
    let leq = path_le(query);
    // The ranking is sorted.
    assert forall|i: int, j: int| 0 <= i < j < p.len() implies #[trigger] leq(p[i], p[j]) by {
        assert(key_le(file_key(paths, query, r[i]), file_key(paths, query, r[j])));
    }
    // The ranking and the rest of the indices make up all of them.
    let inr = |i: usize| r.contains(i);
    let rest = range(n).filter(|i: usize| !inr(i)).map_values(g);
    lemma_split_paths(paths, inr);
    assert forall|i: usize| r.to_multiset().count(i) == range(n).filter(inr).to_multiset().count(
        i,
    ) by {
        lemma_nodup_count(r, i);
        lemma_filter_count(range(n), inr, i);
        lemma_range_count(n, i);
        if r.contains(i) {
            let k = choose|k: int| 0 <= k < r.len() && r[k] == i;
            assert(is_match(paths, query, r[k]));
        }
    }
    assert(r.to_multiset() =~= range(n).filter(inr).to_multiset());
    lemma_map_to_multiset(r, range(n).filter(inr), g);
    assert(paths.to_multiset() == p.to_multiset().add(rest.to_multiset()));
    assert forall|y: Seq<char>| p.to_multiset().count(y) <= m.count(y) by {
        if p.to_multiset().count(y) > 0 {
            assert(p.contains(y));
            let k = choose|k: int| 0 <= k < p.len() && p[k] == y;
            assert(is_match(paths, query, r[k]));
        }
    }
    assert forall|y: Seq<char>, a: int|
        m.count(y) > p.to_multiset().count(y) && 0 <= a < r.len() implies #[trigger] leq(p[a], y) by {
        assert(f(y));
        assert(rest.to_multiset().count(y) > 0);
        lemma_picked_path(paths, |i: usize| !inr(i), y);
        let j = choose|j: usize| (j as int) < n && !inr(j) && paths[j as int] == y;
        assert(is_match(paths, query, j));
        assert(key_le(file_key(paths, query, r[a]), file_key(paths, query, j)));
    }
    // As many as the limit allows: the matching indices map onto the
    // matching paths found.
    let pi = |i: usize| is_match(paths, query, i);
    let hits = matching(paths, query).map_values(g);
    let misses = range(n).filter(|i: usize| !pi(i)).map_values(g);
    lemma_split_paths(paths, pi);
    assert forall|y: Seq<char>| hits.to_multiset().count(y) == m.count(y) by {
        if misses.to_multiset().count(y) > 0 {
            lemma_picked_path(paths, |i: usize| !pi(i), y);
        }
        if hits.to_multiset().count(y) > 0 {
            lemma_picked_path(paths, pi, y);
        }
    }
    assert(hits.to_multiset() =~= m);
}

/// What filename mode lists depends only on which paths the walk found, not
/// on the order in which it found them.
pub proof fn law_ranking_ignores_walk_order(
    r1: Seq<usize>,
    paths1: Seq<Seq<char>>,
    r2: Seq<usize>,
    paths2: Seq<Seq<char>>,
    query: Seq<char>,
    limit: nat,
)
    requires
        is_ranking(r1, paths1, query, limit),
        is_ranking(r2, paths2, query, limit),
        paths1.to_multiset() == paths2.to_multiset(),
        paths1.len() <= usize::MAX,
    ensures
        ranked_paths(r1, paths1) == ranked_paths(r2, paths2),
{
    broadcast use vstd::seq_lib::group_to_multiset_ensures;

    assert(paths2.len() == paths1.len()) by {
        vstd::seq_lib::to_multiset_len(paths1);
        vstd::seq_lib::to_multiset_len(paths2);
    }
    assert(found_matches(paths1, query) == found_matches(paths2, query));
    lemma_ranking_lists_least(r1, paths1, query, limit);
    lemma_ranking_lists_least(r2, paths2, query, limit);
    lemma_path_le_total(query);
    lemma_least_items_unique(
        ranked_paths(r1, paths1),
        ranked_paths(r2, paths2),
        found_matches(paths1, query),
        path_le(query),
    );
}

} // verus!
