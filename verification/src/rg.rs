//! The `rg --json` engine: what a `match` message becomes. Running `rg` and
//! decoding its JSON lines is the program's part; the fields of a match
//! message arrive here as plain values.
use crate::text::{trim, trim_end, trimmed, trimmed_end};
use vstd::prelude::*;

pub use crate::search::Hit;

verus! {

/// Cap so that a query like `e` can't eat memory or stall rendering.
pub const MAX_HITS: usize = 5000;

/// The hit a `match` message describes, as its field values; `None` when
/// the message has no line number.
pub open spec fn match_hit(
    path: Seq<char>,
    lines_text: Seq<char>,
    line_number: Option<u64>,
    first_start: Option<u64>,
) -> Option<(Seq<char>, u64, u64, Seq<char>)> {
    match line_number {
        None => None,
        Some(n) => Some(
            (
                path,
                n,
                (match first_start {
                    Some(s) => s,
                    None => 0,
                } + 1) as u64,
                trim_end(lines_text),
            ),
        ),
    }
}

/// One match message: its path, its line text, its line number and the
/// byte offset of its first submatch. The column is 1-based for editors;
/// it counts bytes, not chars.
pub fn hit_from_match(
    path: String,
    lines_text: &str,
    line_number: Option<u64>,
    first_start: Option<u64>,
) -> (r: Option<Hit>)
    requires
        first_start != Some(u64::MAX),
    ensures
        match match_hit(path@, lines_text@, line_number, first_start) {
            None => r is None,
            Some(h) => r matches Some(hit) && hit.model() == h,
        },
{
    let n = match line_number {
        Some(n) => n,
        None => {
            return None;
        },
    };
    let start = match first_start {
        Some(s) => s,
        None => 0,
    };
    Some(Hit { path, line_number: n, col: start + 1, line_text: trimmed_end(lines_text) })
}

/// `--type NAME` for each type, in order.
pub open spec fn type_args(types: Seq<Seq<char>>) -> Seq<Seq<char>>
    decreases types.len(),
{
    if types.len() == 0 {
        Seq::<Seq<char>>::empty()
    } else {
        type_args(types.drop_last()) + seq!["--type"@, types.last()]
    }
}

/// The arguments `rg` is run with: JSON output without colour, the type
/// filters, then `--` so that a query starting with `-` is not read as a
/// flag, and the query.
pub open spec fn rg_args_of(query: Seq<char>, types: Seq<Seq<char>>) -> Seq<Seq<char>> {
    seq!["--json"@, "--color=never"@] + type_args(types) + seq!["--"@, query]
}

/// The arguments for a search of `query` restricted to `types`.
pub fn rg_args(query: &str, types: &[String]) -> (r: Vec<String>)
    ensures
        r@.map_values(|a: String| a@) == rg_args_of(query@, types@.map_values(|t: String| t@)),
{
    let ghost ts = types@.map_values(|t: String| t@);
    let mut r: Vec<String> = Vec::new();
    r.push(String::from_str("--json"));
    r.push(String::from_str("--color=never"));
    let mut i: usize = 0;
    proof {
        assert(ts.take(0) =~= Seq::<Seq<char>>::empty());
        assert(r@.map_values(|a: String| a@) =~= seq!["--json"@, "--color=never"@] + type_args(
            ts.take(0),
        ));
    }
    while i < types.len()
        invariant
            i <= types@.len(),
            ts == types@.map_values(|t: String| t@),
            r@.map_values(|a: String| a@) == seq!["--json"@, "--color=never"@] + type_args(
                ts.take(i as int),
            ),
        decreases types@.len() - i,
    {
        let ghost before = r@.map_values(|a: String| a@);
        r.push(String::from_str("--type"));
        r.push(types[i].clone());
        proof {
            assert(ts.take(i + 1).drop_last() =~= ts.take(i as int));
            assert(ts.take(i + 1).last() == types@[i as int]@);
            assert(r@.map_values(|a: String| a@) =~= before + seq!["--type"@, types@[i as int]@]);
        }
        i = i + 1;
    }
    let ghost mid = r@.map_values(|a: String| a@);
    r.push(String::from_str("--"));
    r.push(query.to_owned());
    proof {
        assert(ts.take(types@.len() as int) =~= ts);
        assert(r@.map_values(|a: String| a@) =~= mid + seq!["--"@, query@]);
    }
    r
}

/// What reading one more line of `rg --json` output leads to.
#[derive(Clone, Copy, Debug, PartialEq, Eq, Structural)]
pub enum RgStep {
    /// Read on.
    Continue,
    /// The query moved on: stop `rg` and show nothing.
    Cancelled,
    /// The cap is reached: stop `rg` and show what was gathered.
    Full,
}

/// Whether line `i` of the output is one at which the generation is
/// looked at: every 64 lines, so that an atomic load is not on the hot
/// path.
pub fn checks_generation(i: usize) -> (b: bool)
    ensures
        b == (i % 64 == 0),
{
    i % 64 == 0
}

/// The hits gathered from one run of `rg`.
pub struct RgCollect {
    pub hits: Vec<Hit>,
}

impl RgCollect {
    pub fn new() -> (c: Self)
        ensures
            c.hits@.len() == 0,
    {
        RgCollect { hits: Vec::new() }
    }

    /// Line `i` of the output, which decoded to `hit` (`None` for a line
    /// that is not a match, or could not be decoded). `stale` says whether
    /// the query has moved on; it is only heeded where `checks_generation`.
    pub fn line(&mut self, i: usize, stale: bool, hit: Option<Hit>) -> (r: RgStep)
        requires
            old(self).hits@.len() < MAX_HITS,
        ensures
            i % 64 == 0 && stale ==> r == RgStep::Cancelled && final(self).hits@ == old(self).hits@,
            !(i % 64 == 0 && stale) ==> {
                &&& final(self).hits@ == match hit {
                    Some(h) => old(self).hits@.push(h),
                    None => old(self).hits@,
                }
                &&& r == if final(self).hits@.len() >= MAX_HITS {
                    RgStep::Full
                } else {
                    RgStep::Continue
                }
            },
    {
        if checks_generation(i) && stale {
            return RgStep::Cancelled;
        }
        if let Some(h) = hit {
            self.hits.push(h);
        }
        if self.hits.len() >= MAX_HITS {
            RgStep::Full
        } else {
            RgStep::Continue
        }
    }
}

/// How a finished `rg` run ends: exit code 2 is a real failure such as an
/// invalid regex, reported with `rg`'s own words; 0 (matches) and 1 (none)
/// are both normal outcomes.
pub fn rg_outcome(code: Option<i32>, stderr: &str) -> (r: Result<(), String>)
    ensures
        code == Some(2i32) ==> (r matches Err(m) && m@ == "rg failed: "@ + trim(stderr@)),
        code != Some(2i32) ==> r is Ok,
{
    if code == Some(2i32) {
        let mut m = String::from_str("rg failed: ");
        let t = trimmed(stderr);
        m.append(t.as_str());
        Err(m)
    } else {
        Ok(())
    }
}

} // verus!
