//! Ordering results: a sort key made of a number, a text and a position,
//! compared field by field, and a merge sort of indices by that key.
use vstd::prelude::*;

verus! {

/// What a result is ordered by, field by field: `primary`, then `text`
/// (char by char, by code point, a prefix first), then `line`, then `col`.
pub struct SortKey {
    pub primary: u64,
    pub text: Vec<char>,
    pub line: u64,
    pub col: u64,
}

/// A sort key by its values.
pub type KeyModel = (u64, Seq<char>, u64, u64);

impl SortKey {
    pub open spec fn model(&self) -> KeyModel {
        (self.primary, self.text@, self.line, self.col)
    }
}

/// `a` sorts before `b`, char by char by code point, a proper prefix first.
/// For text this is the order `String`'s `<` gives.
pub open spec fn text_lt(a: Seq<char>, b: Seq<char>) -> bool
    decreases a.len(),
{
    if a.len() == 0 {
        b.len() > 0
    } else if b.len() == 0 {
        false
    } else if a[0] != b[0] {
        (a[0] as u32) < (b[0] as u32)
    } else {
        text_lt(a.drop_first(), b.drop_first())
    }
}

/// `a` sorts strictly before `b`.
pub open spec fn key_lt(a: KeyModel, b: KeyModel) -> bool {
    ||| a.0 < b.0
    ||| a.0 == b.0 && text_lt(a.1, b.1)
    ||| a.0 == b.0 && a.1 == b.1 && a.2 < b.2
    ||| a.0 == b.0 && a.1 == b.1 && a.2 == b.2 && a.3 < b.3
}

/// `a` may sort before `b`.
pub open spec fn key_le(a: KeyModel, b: KeyModel) -> bool {
    !key_lt(b, a)
}

/// `order` lists the keys in non-decreasing order.
pub open spec fn sorted_by(order: Seq<usize>, keys: Seq<KeyModel>) -> bool {
    forall|i: int, j: int|
        0 <= i < j < order.len() ==> key_le(keys[order[i] as int], keys[order[j] as int])
}

proof fn lemma_text_lt_irreflexive(a: Seq<char>)
    ensures
        !text_lt(a, a),
    decreases a.len(),
{
    if a.len() > 0 {
        lemma_text_lt_irreflexive(a.drop_first());
    }
}

proof fn lemma_text_lt_trans(a: Seq<char>, b: Seq<char>, c: Seq<char>)
    requires
        text_lt(a, b),
        text_lt(b, c),
    ensures
        text_lt(a, c),
    decreases a.len(),
{
    if a.len() > 0 && b.len() > 0 && c.len() > 0 && a[0] == b[0] && b[0] == c[0] {
        lemma_text_lt_trans(a.drop_first(), b.drop_first(), c.drop_first());
    }
}

proof fn lemma_text_lt_total(a: Seq<char>, b: Seq<char>)
    ensures
        a == b || text_lt(a, b) || text_lt(b, a),
        !(text_lt(a, b) && text_lt(b, a)),
    decreases a.len(),
{
    if a.len() > 0 && b.len() > 0 {
        if a[0] == b[0] {
            lemma_text_lt_total(a.drop_first(), b.drop_first());
            if a.drop_first() == b.drop_first() {
                assert forall|i: int| 0 <= i < a.len() implies a[i] == b[i] by {
                    if i > 0 {
                        assert(a[i] == a.drop_first()[i - 1]);
                        assert(b[i] == b.drop_first()[i - 1]);
                    }
                }
                assert(a =~= b);
            }
        } else {
            vstd::utf8::char_u32_cast(a[0], a[0] as u32);
            vstd::utf8::char_u32_cast(b[0], b[0] as u32);
            assert((a[0] as u32) != (b[0] as u32));
        }
    } else if a.len() == 0 && b.len() == 0 {
        assert(a =~= b);
    }
}

/// `key_le` is a total preorder.
pub proof fn lemma_key_order(a: KeyModel, b: KeyModel, c: KeyModel)
    ensures
        key_le(a, a),
        key_le(a, b) || key_le(b, a),
        key_le(a, b) && key_le(b, c) ==> key_le(a, c),
        key_lt(a, b) ==> key_le(a, b),
{
    lemma_text_lt_irreflexive(a.1);
    lemma_text_lt_total(a.1, b.1);
    lemma_text_lt_total(b.1, c.1);
    lemma_text_lt_total(a.1, c.1);
    if text_lt(a.1, b.1) && text_lt(b.1, c.1) {
        lemma_text_lt_trans(a.1, b.1, c.1);
    }
    if text_lt(c.1, b.1) && text_lt(b.1, a.1) {
        lemma_text_lt_trans(c.1, b.1, a.1);
    }
    if text_lt(c.1, a.1) && text_lt(a.1, b.1) {
        lemma_text_lt_trans(c.1, a.1, b.1);
    }
    if text_lt(b.1, c.1) && text_lt(c.1, a.1) {
        lemma_text_lt_trans(b.1, c.1, a.1);
    }
    if text_lt(a.1, c.1) && text_lt(c.1, b.1) {
        lemma_text_lt_trans(a.1, c.1, b.1);
    }
    if text_lt(b.1, a.1) && text_lt(a.1, c.1) {
        lemma_text_lt_trans(b.1, a.1, c.1);
    }
}

/// Keys that may each sort before the other are the same key.
pub proof fn lemma_key_antisymmetric(a: KeyModel, b: KeyModel)
    requires
        key_le(a, b),
        key_le(b, a),
    ensures
        a == b,
{
    lemma_text_lt_total(a.1, b.1);
}

/// `key_le` is a total order on keys.
pub proof fn lemma_key_total_ordering()
    ensures
        vstd::relations::total_ordering(|a: KeyModel, b: KeyModel| key_le(a, b)),
{
    let leq = |a: KeyModel, b: KeyModel| key_le(a, b);
    assert forall|x: KeyModel| #[trigger] leq(x, x) by {
        lemma_key_order(x, x, x);
    }
    assert forall|x: KeyModel, y: KeyModel| #[trigger] leq(x, y) && #[trigger] leq(y, x) implies x
        == y by {
        lemma_key_antisymmetric(x, y);
    }
    assert forall|x: KeyModel, y: KeyModel, z: KeyModel| #[trigger] leq(x, y) && #[trigger] leq(
        y,
        z,
    ) implies leq(x, z) by {
        lemma_key_order(x, y, z);
    }
    assert forall|x: KeyModel, y: KeyModel| #[trigger] leq(x, y) || #[trigger] leq(y, x) by {
        lemma_key_order(x, y, x);
    }
}

/// Rearranging a sequence rearranges what a function makes of its items.
pub proof fn lemma_map_to_multiset<A, B>(a: Seq<A>, b: Seq<A>, f: spec_fn(A) -> B)
    requires
        a.to_multiset() == b.to_multiset(),
    ensures
        a.map_values(f).to_multiset() == b.map_values(f).to_multiset(),
    decreases a.len(),
{
    broadcast use vstd::seq_lib::group_to_multiset_ensures;
    broadcast use vstd::multiset::group_multiset_axioms;

    if a.len() == 0 {
        assert(b.to_multiset().len() == 0);
        assert(b.len() == 0);
        assert(a.map_values(f) =~= b.map_values(f));
    } else {
        let x = a.last();
        assert(a.contains(x)) by {
            assert(a[a.len() - 1] == x);
        }
        assert(b.to_multiset().count(x) > 0);
        assert(b.contains(x));
        let j = choose|j: int| 0 <= j < b.len() && b[j] == x;
        let a2 = a.drop_last();
        let b2 = b.remove(j);
        assert(a =~= a2.push(x));
        assert(a2.to_multiset() =~= a.to_multiset().remove(x)) by {
            assert(a.remove(a.len() - 1) =~= a2);
        }
        assert(b2.to_multiset() == b.to_multiset().remove(x));
        lemma_map_to_multiset(a2, b2, f);
        assert(a.map_values(f) =~= a2.map_values(f).push(f(x)));
        assert(b.map_values(f) =~= b2.map_values(f).insert(j, f(x)));
    }
}

/// `text_lt` on chars.
fn text_less(a: &[char], b: &[char]) -> (r: bool)
    ensures
        r == text_lt(a@, b@),
{
    let mut i: usize = 0;
    assert(a@.skip(0) =~= a@);
    assert(b@.skip(0) =~= b@);
    while i < a.len() && i < b.len() && a[i] == b[i]
        invariant
            i <= a@.len(),
            i <= b@.len(),
            text_lt(a@, b@) == text_lt(a@.skip(i as int), b@.skip(i as int)),
        decreases a@.len() - i,
    {
        assert(a@.skip(i as int).drop_first() =~= a@.skip(i + 1));
        assert(b@.skip(i as int).drop_first() =~= b@.skip(i + 1));
        i = i + 1;
    }
    assert(a@.skip(0) =~= a@);
    if i == a.len() {
        i < b.len()
    } else if i == b.len() {
        false
    } else {
        assert(a@.skip(i as int)[0] == a@[i as int]);
        assert(b@.skip(i as int)[0] == b@[i as int]);
        (a[i] as u32) < (b[i] as u32)
    }
}

/// `key_lt` on keys.
pub fn key_less(a: &SortKey, b: &SortKey) -> (r: bool)
    ensures
        r == key_lt(a.model(), b.model()),
{
    if a.primary != b.primary {
        return a.primary < b.primary;
    }
    if text_less(a.text.as_slice(), b.text.as_slice()) {
        return true;
    }
    if text_less(b.text.as_slice(), a.text.as_slice()) {
        proof {
            lemma_text_lt_total(a.text@, b.text@);
        }
        return false;
    }
    proof {
        lemma_text_lt_total(a.text@, b.text@);
    }
    if a.line != b.line {
        return a.line < b.line;
    }
    a.col < b.col
}

/// The keys by their values.
pub open spec fn models(keys: Seq<SortKey>) -> Seq<KeyModel> {
    keys.map_values(|k: SortKey| k.model())
}

/// Merges two sorted index lists.
fn merge(keys: &Vec<SortKey>, left: Vec<usize>, right: Vec<usize>) -> (r: Vec<usize>)
    requires
        forall|i: int| 0 <= i < left@.len() ==> left@[i] < keys@.len(),
        forall|i: int| 0 <= i < right@.len() ==> right@[i] < keys@.len(),
        sorted_by(left@, models(keys@)),
        sorted_by(right@, models(keys@)),
    ensures
        r@.to_multiset() == left@.to_multiset().add(right@.to_multiset()),
        r@.len() == left@.len() + right@.len(),
        forall|i: int| 0 <= i < r@.len() ==> r@[i] < keys@.len(),
        sorted_by(r@, models(keys@)),
{
    broadcast use vstd::seq_lib::group_to_multiset_ensures;

    let ghost ks = models(keys@);
    let mut out: Vec<usize> = Vec::new();
    let mut i: usize = 0;
    let mut j: usize = 0;
    assert(left@.take(0) =~= Seq::<usize>::empty());
    assert(right@.take(0) =~= Seq::<usize>::empty());
    while i < left.len() || j < right.len()
        invariant
            ks == models(keys@),
            i <= left@.len(),
            j <= right@.len(),
            forall|p: int| 0 <= p < left@.len() ==> left@[p] < keys@.len(),
            forall|p: int| 0 <= p < right@.len() ==> right@[p] < keys@.len(),
            sorted_by(left@, ks),
            sorted_by(right@, ks),
            out@.len() == i + j,
            out@.to_multiset() == left@.take(i as int).to_multiset().add(
                right@.take(j as int).to_multiset(),
            ),
            forall|p: int| 0 <= p < out@.len() ==> out@[p] < keys@.len(),
            sorted_by(out@, ks),
            forall|p: int, q: int|
                0 <= p < out@.len() && i <= q < left@.len() ==> key_le(
                    ks[out@[p] as int],
                    ks[left@[q] as int],
                ),
            forall|p: int, q: int|
                0 <= p < out@.len() && j <= q < right@.len() ==> key_le(
                    ks[out@[p] as int],
                    ks[right@[q] as int],
                ),
        decreases left@.len() + right@.len() - i - j,
    {
        let take_left = if i == left.len() {
            false
        } else if j == right.len() {
            true
        } else {
            !key_less(&keys[right[j]], &keys[left[i]])
        };
        let ghost before = out@;
        if take_left {
            let x = left[i];
            proof {
                if j < right@.len() {
                    assert(key_le(ks[x as int], ks[right@[j as int] as int]));
                }
                assert forall|q: int| j <= q < right@.len() implies key_le(
                    ks[x as int],
                    ks[right@[q] as int],
                ) by {
                    lemma_key_order(
                        ks[x as int],
                        ks[right@[j as int] as int],
                        ks[right@[q] as int],
                    );
                }
            }
            out.push(x);
            assert(left@.take(i + 1) =~= left@.take(i as int).push(x));
            assert(out@ =~= before.push(x));
            proof {
                vstd::seq_lib::to_multiset_build(before, x);
                vstd::seq_lib::to_multiset_build(left@.take(i as int), x);
            }
            assert(out@.to_multiset() =~= left@.take(i + 1).to_multiset().add(
                right@.take(j as int).to_multiset(),
            ));
            i = i + 1;
        } else {
            let y = right[j];
            proof {
                if i < left@.len() {
                    lemma_key_order(ks[y as int], ks[left@[i as int] as int], ks[y as int]);
                }
                assert forall|q: int| i <= q < left@.len() implies key_le(
                    ks[y as int],
                    ks[left@[q] as int],
                ) by {
                    lemma_key_order(ks[y as int], ks[left@[i as int] as int], ks[left@[q] as int]);
                }
            }
            out.push(y);
            assert(right@.take(j + 1) =~= right@.take(j as int).push(y));
            assert(out@ =~= before.push(y));
            proof {
                vstd::seq_lib::to_multiset_build(before, y);
                vstd::seq_lib::to_multiset_build(right@.take(j as int), y);
            }
            assert(out@.to_multiset() =~= left@.take(i as int).to_multiset().add(
                right@.take(j + 1).to_multiset(),
            ));
            j = j + 1;
        }
        proof {
            let z = out@.last();
            assert forall|p: int, q: int| 0 <= p < q < out@.len() implies key_le(
                ks[out@[p] as int],
                ks[out@[q] as int],
            ) by {
                if q == out@.len() - 1 {
                    assert(out@[p] == before[p]);
                }
            }
            assert forall|p: int, q: int| 0 <= p < out@.len() && i <= q < left@.len() implies key_le(
                ks[out@[p] as int],
                ks[left@[q] as int],
            ) by {
                if p < before.len() {
                    assert(out@[p] == before[p]);
                    if take_left {
                        lemma_key_order(ks[out@[p] as int], ks[left@[i - 1] as int], ks[left@[q] as int]);
                    }
                }
            }
            assert forall|p: int, q: int|
                0 <= p < out@.len() && j <= q < right@.len() implies key_le(
                ks[out@[p] as int],
                ks[right@[q] as int],
            ) by {
                if p < before.len() {
                    assert(out@[p] == before[p]);
                    if !take_left {
                        lemma_key_order(
                            ks[out@[p] as int],
                            ks[right@[j - 1] as int],
                            ks[right@[q] as int],
                        );
                    }
                }
            }
        }
    }
    assert(left@.take(left@.len() as int) =~= left@);
    assert(right@.take(right@.len() as int) =~= right@);
    out
}

/// `order`, sorted by the keys it indexes.
fn merge_sort(keys: &Vec<SortKey>, order: Vec<usize>) -> (r: Vec<usize>)
    requires
        forall|i: int| 0 <= i < order@.len() ==> order@[i] < keys@.len(),
    ensures
        r@.to_multiset() == order@.to_multiset(),
        r@.len() == order@.len(),
        forall|i: int| 0 <= i < r@.len() ==> r@[i] < keys@.len(),
        sorted_by(r@, models(keys@)),
    decreases order@.len(),
{
    broadcast use vstd::seq_lib::group_to_multiset_ensures;

    let n = order.len();
    if n <= 1 {
        return order;
    }
    let mid = n / 2;
    let mut left: Vec<usize> = Vec::new();
    let mut right: Vec<usize> = Vec::new();
    let mut i: usize = 0;
    while i < n
        invariant
            i <= n,
            n == order@.len(),
            mid <= n,
            left@ == order@.take(if i < mid {
                i as int
            } else {
                mid as int
            }),
            right@ == if i < mid {
                Seq::<usize>::empty()
            } else {
                order@.subrange(mid as int, i as int)
            },
        decreases n - i,
    {
        if i < mid {
            left.push(order[i]);
            assert(order@.take(i + 1) =~= order@.take(i as int).push(order@[i as int]));
        } else {
            right.push(order[i]);
            assert(order@.subrange(mid as int, i + 1) =~= order@.subrange(mid as int, i as int).push(
                order@[i as int],
            ));
        }
        i = i + 1;
    }
    assert(order@ =~= left@ + right@);
    proof {
        vstd::seq_lib::lemma_multiset_commutative(left@, right@);
    }
    let l = merge_sort(keys, left);
    let r = merge_sort(keys, right);
    merge(keys, l, r)
}

/// The indices `0..keys.len()`, ordered by their keys.
pub fn sort_indices(keys: &Vec<SortKey>) -> (r: Vec<usize>)
    ensures
        r@.to_multiset() == Seq::new(keys@.len(), |i: int| i as usize).to_multiset(),
        r@.len() == keys@.len(),
        sorted_by(r@, models(keys@)),
{
    let mut order: Vec<usize> = Vec::new();
    let mut i: usize = 0;
    while i < keys.len()
        invariant
            i <= keys@.len(),
            order@ == Seq::new(i as nat, |p: int| p as usize),
        decreases keys@.len() - i,
    {
        order.push(i);
        assert(order@ =~= Seq::new((i + 1) as nat, |p: int| p as usize));
        i = i + 1;
    }
    merge_sort(keys, order)
}

} // verus!

verus! {

/// The indices `0..n`, in order.
pub open spec fn range(n: nat) -> Seq<usize> {
    Seq::new(n, |i: int| i as usize)
}

/// A rearrangement of `0..n` holds each index exactly once.
pub proof fn lemma_perm_of_range(r: Seq<usize>, n: nat)
    requires
        r.to_multiset() == range(n).to_multiset(),
        n <= usize::MAX + 1,
    ensures
        r.no_duplicates(),
        forall|i: usize| i < n ==> #[trigger] r.contains(i),
        forall|k: int| 0 <= k < r.len() ==> r[k] < n,
{
    broadcast use vstd::seq_lib::group_to_multiset_ensures;

    let g = range(n);
    assert(g.no_duplicates()) by {
        assert forall|a: int, b: int| 0 <= a < g.len() && 0 <= b < g.len() && a != b implies g[a]
            != g[b] by {}
    }
    g.lemma_multiset_has_no_duplicates();
    r.lemma_multiset_has_no_duplicates_conv();
    assert forall|i: usize| i < n implies #[trigger] r.contains(i) by {
        assert(g[i as int] == i);
        assert(g.contains(i));
        assert(g.to_multiset().count(i) > 0);
        assert(r.to_multiset().count(i) > 0);
    }
    assert forall|k: int| 0 <= k < r.len() implies r[k] < n by {
        assert(r.contains(r[k]));
        assert(r.to_multiset().count(r[k]) > 0);
        assert(g.to_multiset().count(r[k]) > 0);
        assert(g.contains(r[k]));
    }
}

/// `filter` keeps each item as often as the sequence holds it, if it
/// passes, and never otherwise.
pub proof fn lemma_filter_count<A>(s: Seq<A>, f: spec_fn(A) -> bool, x: A)
    ensures
        s.filter(f).to_multiset().count(x) == if f(x) {
            s.to_multiset().count(x)
        } else {
            0
        },
    decreases s.len(),
{
    broadcast use vstd::seq_lib::group_to_multiset_ensures;
    broadcast use vstd::multiset::group_multiset_axioms;

    reveal(Seq::filter);
    if s.len() == 0 {
        assert(s.to_multiset().len() == 0);
        assert(s.filter(f).len() == 0);
        assert(s.filter(f).to_multiset().len() == 0);
    } else {
        let d = s.drop_last();
        lemma_filter_count(d, f, x);
        assert(s =~= d.push(s.last()));
        if f(s.last()) {
            assert(s.filter(f) == d.filter(f).push(s.last()));
        } else {
            assert(s.filter(f) == d.filter(f));
        }
    }
}

/// Each index below `n` occurs once in `range(n)`, and nothing else does.
pub proof fn lemma_range_count(n: nat, i: usize)
    requires
        n <= usize::MAX + 1,
    ensures
        range(n).to_multiset().count(i) == if (i as int) < n {
            1nat
        } else {
            0nat
        },
{
    broadcast use vstd::seq_lib::group_to_multiset_ensures;

    let g = range(n);
    assert(g.no_duplicates()) by {
        assert forall|a: int, b: int| 0 <= a < g.len() && 0 <= b < g.len() && a != b implies g[a]
            != g[b] by {}
    }
    g.lemma_multiset_has_no_duplicates();
    if (i as int) < n {
        assert(g[i as int] == i);
        assert(g.contains(i));
    } else {
        assert(!g.contains(i));
    }
}

/// In a sequence without duplicates each item occurs once at most.
pub proof fn lemma_nodup_count<A>(s: Seq<A>, x: A)
    requires
        s.no_duplicates(),
    ensures
        s.to_multiset().count(x) == if s.contains(x) {
            1nat
        } else {
            0nat
        },
{
    broadcast use vstd::seq_lib::group_to_multiset_ensures;

    s.lemma_multiset_has_no_duplicates();
}

/// What `map_values` makes of two sequences laid end to end.
pub proof fn lemma_map_add<A, B>(a: Seq<A>, b: Seq<A>, f: spec_fn(A) -> B)
    ensures
        (a + b).map_values(f).to_multiset() == a.map_values(f).to_multiset().add(
            b.map_values(f).to_multiset(),
        ),
{
    assert((a + b).map_values(f) =~= a.map_values(f) + b.map_values(f));
    vstd::seq_lib::lemma_multiset_commutative(a.map_values(f), b.map_values(f));
}

/// Two sorted sequences of the same length, each holding the smallest
/// items of `m` (with multiplicity), are the same sequence.
pub proof fn lemma_least_items_unique<T>(
    p1: Seq<T>,
    p2: Seq<T>,
    m: vstd::multiset::Multiset<T>,
    leq: spec_fn(T, T) -> bool,
)
    requires
        vstd::relations::total_ordering(leq),
        vstd::relations::sorted_by(p1, leq),
        vstd::relations::sorted_by(p2, leq),
        p1.len() == p2.len(),
        forall|y: T| p1.to_multiset().count(y) <= m.count(y),
        forall|y: T| p2.to_multiset().count(y) <= m.count(y),
        forall|y: T, i: int|
            m.count(y) > p1.to_multiset().count(y) && 0 <= i < p1.len() ==> #[trigger] leq(
                p1[i],
                y,
            ),
        forall|y: T, i: int|
            m.count(y) > p2.to_multiset().count(y) && 0 <= i < p2.len() ==> #[trigger] leq(
                p2[i],
                y,
            ),
    ensures
        p1 == p2,
    decreases p1.len(),
{
    broadcast use vstd::seq_lib::group_to_multiset_ensures;
    broadcast use vstd::multiset::group_multiset_axioms;

    if p1.len() == 0 {
        assert(p1 =~= p2);
    } else {
        let x1 = p1[0];
        let x2 = p2[0];
        assert(p1.contains(x1));
        assert(p2.contains(x2));
        assert(leq(x2, x1)) by {
            if m.count(x1) <= p2.to_multiset().count(x1) {
                assert(p2.contains(x1));
                let j = choose|j: int| 0 <= j < p2.len() && p2[j] == x1;
                if j > 0 {
                    assert(leq(p2[0], p2[j]));
                }
            }
        }
        assert(leq(x1, x2)) by {
            if m.count(x2) <= p1.to_multiset().count(x2) {
                assert(p1.contains(x2));
                let j = choose|j: int| 0 <= j < p1.len() && p1[j] == x2;
                if j > 0 {
                    assert(leq(p1[0], p1[j]));
                }
            }
        }
        assert(x1 == x2);
        let q1 = p1.drop_first();
        let q2 = p2.drop_first();
        let m2 = m.remove(x1);
        assert(p1 =~= seq![x1] + q1);
        assert(p2 =~= seq![x1] + q2);
        vstd::seq_lib::lemma_multiset_commutative(seq![x1], q1);
        vstd::seq_lib::lemma_multiset_commutative(seq![x1], q2);
        assert(seq![x1] =~= Seq::<T>::empty().push(x1));
        assert(seq![x1].to_multiset() =~= vstd::multiset::Multiset::<T>::empty().insert(x1));
        assert forall|y: T| q1.to_multiset().count(y) <= m2.count(y) by {}
        assert forall|y: T| q2.to_multiset().count(y) <= m2.count(y) by {}
        assert forall|y: T, i: int|
            m2.count(y) > q1.to_multiset().count(y) && 0 <= i < q1.len() implies #[trigger] leq(
            q1[i],
            y,
        ) by {
            assert(q1[i] == p1[i + 1]);
            assert(m.count(y) > p1.to_multiset().count(y));
        }
        assert forall|y: T, i: int|
            m2.count(y) > q2.to_multiset().count(y) && 0 <= i < q2.len() implies #[trigger] leq(
            q2[i],
            y,
        ) by {
            assert(q2[i] == p2[i + 1]);
            assert(m.count(y) > p2.to_multiset().count(y));
        }
        assert(vstd::relations::sorted_by(q1, leq)) by {
            assert forall|i: int, j: int| 0 <= i < j < q1.len() implies #[trigger] leq(
                q1[i],
                q1[j],
            ) by {
                assert(leq(p1[i + 1], p1[j + 1]));
            }
        }
        assert(vstd::relations::sorted_by(q2, leq)) by {
            assert forall|i: int, j: int| 0 <= i < j < q2.len() implies #[trigger] leq(
                q2[i],
                q2[j],
            ) by {
                assert(leq(p2[i + 1], p2[j + 1]));
            }
        }
        lemma_least_items_unique(q1, q2, m2, leq);
        assert(p1 =~= p2);
    }
}

} // verus!
