//! Characters, UTF-8 byte offsets and small string helpers shared by the
//! rest of the library.
use vstd::prelude::*;
use vstd::utf8::*;
use vstd::std_specs::iter::IteratorSpec;

verus! {

/// Number of bytes the UTF-8 encoding of `c` takes.
pub open spec fn width(c: char) -> nat {
    encode_scalar(c as u32).len()
}

/// Number of bytes the UTF-8 encoding of `s` takes.
pub open spec fn byte_len(s: Seq<char>) -> nat {
    encode_utf8(s).len()
}

/// The width of a char, by code point range.
pub proof fn lemma_width(c: char)
    ensures
        (c as u32) < 0x80 ==> width(c) == 1,
        0x80 <= (c as u32) < 0x800 ==> width(c) == 2,
        0x800 <= (c as u32) < 0x10000 ==> width(c) == 3,
        0x10000 <= (c as u32) ==> width(c) == 4,
        1 <= width(c) <= 4,
{
    char_is_scalar(c);
}

/// `char::len_utf8`, computed from the code point.
pub fn char_width(c: char) -> (n: usize)
    ensures
        n == width(c),
        1 <= n <= 4,
{
    proof {
        lemma_width(c);
    }
    let u = c as u32;
    if u < 0x80 {
        1
    } else if u < 0x800 {
        2
    } else if u < 0x10000 {
        3
    } else {
        4
    }
}

} // verus!

verus! {

/// Encoding distributes over concatenation.
pub proof fn lemma_encode_concat(a: Seq<char>, b: Seq<char>)
    ensures
        encode_utf8(a + b) == encode_utf8(a) + encode_utf8(b),
    decreases a.len(),
{
    if a.len() == 0 {
        assert(a + b =~= b);
        assert(encode_utf8(a) =~= Seq::<u8>::empty());
        assert(encode_utf8(a) + encode_utf8(b) =~= encode_utf8(b));
    } else {
        assert((a + b).drop_first() =~= a.drop_first() + b);
        lemma_encode_concat(a.drop_first(), b);
        assert(encode_utf8(a + b) =~= encode_utf8(a) + encode_utf8(b));
    }
}

/// The byte length of a prefix grows by the width of the next char.
pub proof fn lemma_byte_len_take_step(s: Seq<char>, k: int)
    requires
        0 <= k < s.len(),
    ensures
        byte_len(s.take(k + 1)) == byte_len(s.take(k)) + width(s[k]),
{
    assert(s.take(k + 1) =~= s.take(k) + seq![s[k]]);
    lemma_encode_concat(s.take(k), seq![s[k]]);
    lemma_encode_single(s[k]);
}

/// A single char encodes as its scalar.
pub proof fn lemma_encode_single(c: char)
    ensures
        encode_utf8(seq![c]) == encode_scalar(c as u32),
        byte_len(seq![c]) == width(c),
{
    assert(seq![c].drop_first() =~= Seq::<char>::empty());
    assert(encode_utf8(Seq::<char>::empty()) =~= Seq::<u8>::empty());
    assert(encode_utf8(seq![c]) =~= encode_scalar(c as u32));
}

/// Byte length is additive.
pub proof fn lemma_byte_len_concat(a: Seq<char>, b: Seq<char>)
    ensures
        byte_len(a + b) == byte_len(a) + byte_len(b),
{
    lemma_encode_concat(a, b);
}

/// Byte lengths of prefixes strictly grow with the prefix.
pub proof fn lemma_byte_len_take_mono(s: Seq<char>, i: int, j: int)
    requires
        0 <= i < j <= s.len(),
    ensures
        byte_len(s.take(i)) < byte_len(s.take(j)),
        byte_len(s.take(i)) + (j - i) <= byte_len(s.take(j)),
    decreases j - i,
{
    lemma_byte_len_take_step(s, j - 1);
    lemma_width(s[j - 1]);
    if i < j - 1 {
        lemma_byte_len_take_mono(s, i, j - 1);
    }
}

/// The whole sequence is its own prefix.
pub proof fn lemma_take_all(s: Seq<char>)
    ensures
        s.take(s.len() as int) == s,
{
    assert(s.take(s.len() as int) =~= s);
}

/// `b` is a byte offset into the UTF-8 encoding of `s` that falls between
/// two chars (or at either end).
pub open spec fn at_boundary(s: Seq<char>, b: int) -> bool {
    exists|k: int| 0 <= k <= s.len() && #[trigger] byte_len(s.take(k)) == b
}

/// The number of chars before the byte offset `b`, for a boundary offset.
pub open spec fn char_pos(s: Seq<char>, b: int) -> int {
    choose|k: int| 0 <= k <= s.len() && #[trigger] byte_len(s.take(k)) == b
}

/// A char index determines its boundary offset and the other way round.
pub proof fn lemma_char_pos(s: Seq<char>, k: int)
    requires
        0 <= k <= s.len(),
    ensures
        at_boundary(s, byte_len(s.take(k)) as int),
        char_pos(s, byte_len(s.take(k)) as int) == k,
{
    let b = byte_len(s.take(k)) as int;
    assert(0 <= k <= s.len() && byte_len(s.take(k)) == b);
    let j = char_pos(s, b);
    if j < k {
        lemma_byte_len_take_mono(s, j, k);
    } else if k < j {
        lemma_byte_len_take_mono(s, k, j);
    }
}

/// Facts about a boundary offset.
pub proof fn lemma_boundary(s: Seq<char>, b: int)
    requires
        at_boundary(s, b),
    ensures
        0 <= char_pos(s, b) <= s.len(),
        byte_len(s.take(char_pos(s, b))) == b,
        0 <= b <= byte_len(s),
        b == 0 <==> char_pos(s, b) == 0,
        b == byte_len(s) <==> char_pos(s, b) == s.len(),
{
    let k = char_pos(s, b);
    lemma_take_all(s);
    if k < s.len() {
        lemma_byte_len_take_mono(s, k, s.len() as int);
    }
    if 0 < k {
        lemma_byte_len_take_mono(s, 0, k);
    }
    assert(s.take(0) =~= Seq::<char>::empty());
}

} // verus!

verus! {

broadcast use vstd::string::group_string_axioms;

/// Walks the chars of `s` up to the boundary offset `b`: the iterator
/// left there, the number of chars walked, and the last one walked.
fn walk_to(s: &str, b: usize) -> (res: (std::str::Chars<'_>, usize, Option<char>))
    requires
        at_boundary(s@, b as int),
    ensures
        res.1 == char_pos(s@, b as int),
        res.0.remaining() == s@.skip(res.1 as int),
        res.1 == 0 ==> res.2 is None,
        res.1 > 0 ==> res.2 == Some(s@[res.1 - 1]),
{
    proof {
        lemma_boundary(s@, b as int);
    }
    let ghost k = char_pos(s@, b as int);
    let mut it = s.chars();
    let mut acc: usize = 0;
    let mut count: usize = 0;
    let mut prev: Option<char> = None;
    assert(s@.take(0) =~= Seq::<char>::empty());
    assert(s@.skip(0) =~= s@);
    while acc < b
        invariant
            0 <= count <= k,
            k == char_pos(s@, b as int),
            0 <= k <= s@.len(),
            byte_len(s@.take(k)) == b,
            acc == byte_len(s@.take(count as int)),
            count <= acc,
            it.remaining() == s@.skip(count as int),
            count == 0 ==> prev is None,
            count > 0 ==> prev == Some(s@[count - 1]),
        decreases s@.len() - count,
    {
        proof {
            if count > k {
                lemma_byte_len_take_mono(s@, k, count as int);
            }
        }
        let next = it.next();
        assert(s@.skip(count as int).drop_first() =~= s@.skip(count + 1));
        match next {
            Some(c) => {
                proof {
                    lemma_byte_len_take_step(s@, count as int);
                    if count + 1 < k {
                        lemma_byte_len_take_mono(s@, count + 1, k);
                    }
                }
                let w = char_width(c);
                acc = acc + w;
                prev = Some(c);
                count = count + 1;
            },
            None => {
                assert(false);
            },
        }
    }
    proof {
        if count < k {
            lemma_byte_len_take_mono(s@, count as int, k);
        }
    }
    (it, count, prev)
}

/// The char that ends just before byte offset `b`, if any
/// (`s[..b].chars().next_back()`).
pub fn char_before(s: &str, b: usize) -> (r: Option<char>)
    requires
        at_boundary(s@, b as int),
    ensures
        char_pos(s@, b as int) == 0 ==> r is None,
        char_pos(s@, b as int) > 0 ==> r == Some(s@[char_pos(s@, b as int) - 1]),
{
    walk_to(s, b).2
}

/// The char that starts at byte offset `b`, if any (`s[b..].chars().next()`).
pub fn char_after(s: &str, b: usize) -> (r: Option<char>)
    requires
        at_boundary(s@, b as int),
    ensures
        char_pos(s@, b as int) == s@.len() ==> r is None,
        char_pos(s@, b as int) < s@.len() ==> r == Some(s@[char_pos(s@, b as int)]),
{
    proof {
        lemma_boundary(s@, b as int);
    }
    let (mut it, count, _) = walk_to(s, b);
    let r = it.next();
    proof {
        if count < s@.len() {
            assert(s@.skip(count as int)[0] == s@[count as int]);
        }
    }
    r
}

/// The number of chars before byte offset `b` (`s[..b].chars().count()`).
pub fn chars_before(s: &str, b: usize) -> (n: usize)
    requires
        at_boundary(s@, b as int),
    ensures
        n == char_pos(s@, b as int),
{
    walk_to(s, b).1
}

} // verus!

verus! {

/// `String::insert`: std inserts `c` at byte position `idx`, and panics
/// unless `idx` lies on a char boundary. Stated here in chars.
#[verifier::external_body]
pub(crate) fn string_insert(s: &mut String, idx: usize, c: char)
    requires
        at_boundary(old(s)@, idx as int),
    ensures
        final(s)@ == old(s)@.take(char_pos(old(s)@, idx as int)).push(c) + old(s)@.skip(
            char_pos(old(s)@, idx as int),
        ),
{
    s.insert(idx, c)
}

/// `String::remove`: std removes and returns the char that starts at byte
/// position `idx`, and panics unless `idx` is a char boundary before the end.
#[verifier::external_body]
pub(crate) fn string_remove(s: &mut String, idx: usize) -> (c: char)
    requires
        at_boundary(old(s)@, idx as int),
        char_pos(old(s)@, idx as int) < old(s)@.len(),
    ensures
        c == old(s)@[char_pos(old(s)@, idx as int)],
        final(s)@ == old(s)@.remove(char_pos(old(s)@, idx as int)),
{
    s.remove(idx)
}

/// `String::push`: std appends `c` to the end of the string.
#[verifier::external_body]
pub(crate) fn string_push(s: &mut String, c: char)
    ensures
        final(s)@ == old(s)@.push(c),
{
    s.push(c)
}

} // verus!

verus! {

/// The ASCII digit for `d` (0..=9).
pub open spec fn digit_char(d: nat) -> char {
    (48 + d) as char
}

/// The decimal representation of `n`, as `u64::to_string` and friends
/// print it: no sign, no leading zeros, "0" for zero.
pub open spec fn decimal(n: nat) -> Seq<char>
    decreases n,
{
    if n < 10 {
        seq![digit_char(n)]
    } else {
        decimal(n / 10).push(digit_char(n % 10))
    }
}

fn digit(d: u128) -> (c: char)
    requires
        d < 10,
    ensures
        c == digit_char(d as nat),
{
    let b: u8 = 48u8 + (d as u8);
    b as char
}

/// Appends the decimal representation of `n` to `s`.
pub fn push_decimal(s: &mut String, n: u128)
    ensures
        final(s)@ == old(s)@ + decimal(n as nat),
{
    let mut digits: Vec<char> = Vec::new();
    let mut m: u128 = n;
    loop
        invariant_except_break
            m > 0 || m == n,
            decimal(n as nat) == decimal(m as nat) + digits@.reverse(),
        ensures
            decimal(n as nat) == digits@.reverse(),
        decreases m,
    {
        let ghost before = digits@;
        digits.push(digit(m % 10));
        assert(digits@.reverse() =~= seq![digit_char((m % 10) as nat)] + before.reverse());
        if m < 10 {
            assert(decimal(m as nat) =~= seq![digit_char((m % 10) as nat)]);
            assert(decimal(n as nat) =~= digits@.reverse());
            break;
        }
        assert(decimal(m as nat) =~= decimal((m / 10) as nat).push(digit_char((m % 10) as nat)));
        assert(decimal(n as nat) =~= decimal((m / 10) as nat) + digits@.reverse());
        m = m / 10;
    }
    let ghost start = s@;
    let mut i: usize = digits.len();
    while i > 0
        invariant
            i <= digits.len(),
            s@ == start + digits@.reverse().take(digits@.len() - i),
            decimal(n as nat) == digits@.reverse(),
        decreases i,
    {
        i = i - 1;
        string_push(s, digits[i]);
        assert(digits@.reverse().take(digits@.len() - i) =~= digits@.reverse().take(
            digits@.len() - i - 1,
        ).push(digits@[i as int]));
    }
    assert(digits@.reverse().take(digits@.len() as int) =~= digits@.reverse());
}

} // verus!

verus! {

/// The chars of `s`, in order (`s.chars().collect()`).
pub fn to_chars(s: &str) -> (v: Vec<char>)
    ensures
        v@ == s@,
{
    let mut v: Vec<char> = Vec::new();
    let mut it = s.chars();
    let ghost mut n: int = 0;
    assert(s@.skip(0) =~= s@);
    loop
        invariant
            0 <= n <= s@.len(),
            it.remaining() == s@.skip(n),
            v@ == s@.take(n),
        ensures
            v@ == s@,
        decreases s@.len() - n,
    {
        let next = it.next();
        match next {
            Some(c) => {
                proof {
                    assert(s@.skip(n).len() > 0);
                    assert(s@.skip(n)[0] == s@[n]);
                    assert(s@.skip(n).drop_first() =~= s@.skip(n + 1));
                }
                v.push(c);
                proof {
                    assert(s@.take(n + 1) =~= s@.take(n).push(c));
                    n = n + 1;
                }
            },
            None => {
                proof {
                    assert(s@.skip(n).len() == 0);
                    assert(s@.take(n) =~= s@);
                }
                break;
            },
        }
    }
    v
}

/// Appends `v[from..to]` to `s`.
pub fn push_chars(s: &mut String, v: &[char], from: usize, to: usize)
    requires
        from <= to <= v@.len(),
    ensures
        final(s)@ == old(s)@ + v@.subrange(from as int, to as int),
{
    let ghost start = s@;
    let mut i = from;
    while i < to
        invariant
            from <= i <= to <= v@.len(),
            s@ == start + v@.subrange(from as int, i as int),
        decreases to - i,
    {
        string_push(s, v[i]);
        assert(v@.subrange(from as int, i + 1) =~= v@.subrange(from as int, i as int).push(
            v@[i as int],
        ));
        i = i + 1;
    }
}

/// A string made of `v[from..to]`.
pub fn string_of(v: &[char], from: usize, to: usize) -> (s: String)
    requires
        from <= to <= v@.len(),
    ensures
        s@ == v@.subrange(from as int, to as int),
{
    let mut s = String::new();
    push_chars(&mut s, v, from, to);
    assert(Seq::<char>::empty() + v@.subrange(from as int, to as int) =~= v@.subrange(
        from as int,
        to as int,
    ));
    s
}

/// Unicode `White_Space`, the property `char::is_whitespace` tests.
pub open spec fn is_ws(c: char) -> bool {
    let u = c as u32;
    ||| 0x09 <= u <= 0x0D
    ||| u == 0x20
    ||| u == 0x85
    ||| u == 0xA0
    ||| u == 0x1680
    ||| 0x2000 <= u <= 0x200A
    ||| u == 0x2028
    ||| u == 0x2029
    ||| u == 0x202F
    ||| u == 0x205F
    ||| u == 0x3000
}

/// `char::is_whitespace`.
pub fn is_whitespace(c: char) -> (b: bool)
    ensures
        b == is_ws(c),
{
    let u = c as u32;
    (0x09 <= u && u <= 0x0D) || u == 0x20 || u == 0x85 || u == 0xA0 || u == 0x1680 || (0x2000
        <= u && u <= 0x200A) || u == 0x2028 || u == 0x2029 || u == 0x202F || u == 0x205F || u
        == 0x3000
}

/// `s` without its leading whitespace.
pub open spec fn trim_start(s: Seq<char>) -> Seq<char>
    decreases s.len(),
{
    if s.len() > 0 && is_ws(s[0]) {
        trim_start(s.drop_first())
    } else {
        s
    }
}

/// `s` without its trailing whitespace (`str::trim_end`).
pub open spec fn trim_end(s: Seq<char>) -> Seq<char>
    decreases s.len(),
{
    if s.len() > 0 && is_ws(s.last()) {
        trim_end(s.drop_last())
    } else {
        s
    }
}

/// `s` without leading or trailing whitespace (`str::trim`).
pub open spec fn trim(s: Seq<char>) -> Seq<char> {
    trim_end(trim_start(s))
}

/// Index of the first char of `v` at or after `from` that is not whitespace,
/// or `v.len()`; everything skipped is whitespace.
fn skip_ws(v: &[char], from: usize, to: usize) -> (i: usize)
    requires
        from <= to <= v@.len(),
    ensures
        from <= i <= to,
        trim_start(v@.subrange(from as int, to as int)) == v@.subrange(i as int, to as int),
{
    let mut i = from;
    while i < to && is_whitespace(v[i])
        invariant
            from <= i <= to <= v@.len(),
            trim_start(v@.subrange(from as int, to as int)) == trim_start(
                v@.subrange(i as int, to as int),
            ),
        decreases to - i,
    {
        assert(v@.subrange(i as int, to as int).drop_first() =~= v@.subrange(i + 1, to as int));
        i = i + 1;
    }
    i
}

/// The end of `v[from..to]` once its trailing whitespace is dropped.
fn back_ws(v: &[char], from: usize, to: usize) -> (j: usize)
    requires
        from <= to <= v@.len(),
    ensures
        from <= j <= to,
        trim_end(v@.subrange(from as int, to as int)) == v@.subrange(from as int, j as int),
{
    let mut j = to;
    while j > from && is_whitespace(v[j - 1])
        invariant
            from <= j <= to <= v@.len(),
            trim_end(v@.subrange(from as int, to as int)) == trim_end(
                v@.subrange(from as int, j as int),
            ),
        decreases j,
    {
        assert(v@.subrange(from as int, j as int).drop_last() =~= v@.subrange(
            from as int,
            j - 1,
        ));
        j = j - 1;
    }
    j
}

/// Bounds of `trim(v[from..to])` within `v`.
pub fn trim_bounds(v: &[char], from: usize, to: usize) -> (r: (usize, usize))
    requires
        from <= to <= v@.len(),
    ensures
        from <= r.0 <= r.1 <= to,
        trim(v@.subrange(from as int, to as int)) == v@.subrange(r.0 as int, r.1 as int),
{
    let i = skip_ws(v, from, to);
    let j = back_ws(v, i, to);
    (i, j)
}

/// `s.trim()` as an owned string.
pub fn trimmed(s: &str) -> (r: String)
    ensures
        r@ == trim(s@),
{
    let v = to_chars(s);
    let (a, b) = trim_bounds(v.as_slice(), 0, v.len());
    assert(v@.subrange(0, v@.len() as int) =~= v@);
    string_of(v.as_slice(), a, b)
}

/// `s.trim_end()` as an owned string.
pub fn trimmed_end(s: &str) -> (r: String)
    ensures
        r@ == trim_end(s@),
{
    let v = to_chars(s);
    let j = back_ws(v.as_slice(), 0, v.len());
    assert(v@.subrange(0, v@.len() as int) =~= v@);
    string_of(v.as_slice(), 0, j)
}

} // verus!

verus! {

/// The pieces of `s` between occurrences of `sep` (`str::split`): one more
/// piece than there are separators, possibly empty ones.
pub open spec fn split(s: Seq<char>, sep: char) -> Seq<Seq<char>>
    decreases s.len(),
{
    if s.len() == 0 {
        seq![Seq::<char>::empty()]
    } else {
        let rest = split(s.drop_last(), sep);
        if s.last() == sep {
            rest.push(Seq::<char>::empty())
        } else {
            rest.update(rest.len() - 1, rest.last().push(s.last()))
        }
    }
}

/// The bounds of the pieces of `v` between occurrences of `sep`.
pub fn split_bounds(v: &[char], sep: char) -> (r: Vec<(usize, usize)>)
    ensures
        r@.len() == split(v@, sep).len(),
        forall|i: int|
            0 <= i < r@.len() ==> {
                &&& (#[trigger] r@[i]).0 <= r@[i].1 <= v@.len()
                &&& v@.subrange(r@[i].0 as int, r@[i].1 as int) == split(v@, sep)[i]
            },
{
    let mut r: Vec<(usize, usize)> = Vec::new();
    r.push((0, 0));
    let mut i: usize = 0;
    assert(v@.take(0) =~= Seq::<char>::empty());
    while i < v.len()
        invariant
            i <= v@.len(),
            r@.len() == split(v@.take(i as int), sep).len(),
            r@.len() > 0,
            r@.last().1 == i,
            forall|j: int|
                0 <= j < r@.len() ==> {
                    &&& (#[trigger] r@[j]).0 <= r@[j].1 <= i
                    &&& v@.subrange(r@[j].0 as int, r@[j].1 as int) == split(
                        v@.take(i as int),
                        sep,
                    )[j]
                },
        decreases v@.len() - i,
    {
        let ghost pre = v@.take(i as int);
        let ghost post = v@.take(i + 1);
        assert(post.drop_last() =~= pre);
        assert(post.last() == v@[i as int]);
        if v[i] == sep {
            r.push((i + 1, i + 1));
        } else {
            let last = r.len() - 1;
            let (a, _) = r[last];
            r.set(last, (a, i + 1));
            assert(v@.subrange(a as int, i + 1) =~= v@.subrange(a as int, i as int).push(
                v@[i as int],
            ));
        }
        i = i + 1;
        assert forall|j: int| 0 <= j < r@.len() implies v@.subrange(
            (#[trigger] r@[j]).0 as int,
            r@[j].1 as int,
        ) == split(v@.take(i as int), sep)[j] by {}
    }
    assert(v@.take(v@.len() as int) =~= v@);
    r
}

/// Whether `v[a..b]` spells `lit`.
pub fn spells(v: &[char], a: usize, b: usize, lit: &str) -> (r: bool)
    requires
        a <= b <= v@.len(),
    ensures
        r == (v@.subrange(a as int, b as int) == lit@),
{
    let l = to_chars(lit);
    if b - a != l.len() {
        assert(v@.subrange(a as int, b as int).len() != lit@.len());
        return false;
    }
    let mut i: usize = 0;
    while i < l.len()
        invariant
            i <= l@.len(),
            l@ == lit@,
            b - a == l@.len(),
            a <= b <= v@.len(),
            forall|j: int| 0 <= j < i ==> v@[a + j] == l@[j],
        decreases l@.len() - i,
    {
        if v[a + i] != l[i] {
            assert(v@.subrange(a as int, b as int)[i as int] != lit@[i as int]);
            return false;
        }
        i = i + 1;
    }
    assert(v@.subrange(a as int, b as int) =~= lit@);
    true
}

/// `split` never yields nothing.
pub proof fn lemma_split_nonempty(s: Seq<char>, sep: char)
    ensures
        split(s, sep).len() > 0,
    decreases s.len(),
{
    if s.len() > 0 {
        lemma_split_nonempty(s.drop_last(), sep);
    }
}

} // verus!

verus! {

/// `s` with every occurrence of `pat` replaced by `rep`, scanning left to
/// right without overlaps (`str::replace`, for a non-empty `pat`).
pub open spec fn replace_all(s: Seq<char>, pat: Seq<char>, rep: Seq<char>) -> Seq<char>
    decreases s.len(),
{
    if pat.len() == 0 || s.len() < pat.len() {
        s
    } else if s.take(pat.len() as int) == pat {
        rep + replace_all(s.skip(pat.len() as int), pat, rep)
    } else {
        seq![s[0]] + replace_all(s.drop_first(), pat, rep)
    }
}

/// `replace_all` on chars.
pub fn replace(s: &[char], pat: &[char], rep: &[char]) -> (r: Vec<char>)
    requires
        pat@.len() > 0,
    ensures
        r@ == replace_all(s@, pat@, rep@),
{
    let mut out: Vec<char> = Vec::new();
    let mut i: usize = 0;
    let n = s.len();
    let p = pat.len();
    assert(s@.skip(0) =~= s@);
    while i < n
        invariant
            i <= n,
            n == s@.len(),
            p == pat@.len(),
            p > 0,
            out@ + replace_all(s@.skip(i as int), pat@, rep@) == replace_all(s@, pat@, rep@),
        decreases n - i,
    {
        let ghost rest = s@.skip(i as int);
        let mut hit = p <= n - i;
        let mut j: usize = 0;
        while hit && j < p
            invariant
                i <= n,
                n == s@.len(),
                p == pat@.len(),
                j <= p,
                hit ==> p <= n - i,
                hit ==> forall|k: int| 0 <= k < j ==> s@[i + k] == pat@[k],
                !hit ==> (p > n - i || exists|k: int| 0 <= k < p && s@[i + k] != pat@[k]),
            decreases p - j,
        {
            if s[i + j] != pat[j] {
                hit = false;
            }
            j = j + 1;
        }
        if hit {
            assert(rest.take(p as int) =~= pat@);
            let mut k: usize = 0;
            let ghost before = out@;
            while k < rep.len()
                invariant
                    k <= rep@.len(),
                    out@ == before + rep@.take(k as int),
                decreases rep@.len() - k,
            {
                out.push(rep[k]);
                assert(rep@.take(k + 1) =~= rep@.take(k as int).push(rep@[k as int]));
                k = k + 1;
            }
            assert(rep@.take(rep@.len() as int) =~= rep@);
            assert(rest.skip(p as int) =~= s@.skip(i + p));
            assert(out@ + replace_all(s@.skip(i + p), pat@, rep@) =~= before + replace_all(
                rest,
                pat@,
                rep@,
            ));
            i = i + p;
        } else {
            proof {
                if p <= n - i {
                    let k = choose|k: int| 0 <= k < p && s@[i + k] != pat@[k];
                    assert(rest.take(p as int)[k] != pat@[k]);
                }
            }
            let ghost before = out@;
            out.push(s[i]);
            assert(rest.drop_first() =~= s@.skip(i + 1));
            assert(out@ + replace_all(s@.skip(i + 1), pat@, rep@) =~= before + replace_all(
                rest,
                pat@,
                rep@,
            ));
            i = i + 1;
        }
    }
    assert(out@ + replace_all(s@.skip(n as int), pat@, rep@) =~= out@);
    out
}

/// `pat` occurs somewhere in `s`.
pub open spec fn occurs(s: Seq<char>, pat: Seq<char>) -> bool {
    exists|i: int| 0 <= i <= s.len() - pat.len() && #[trigger] s.subrange(i, i + pat.len()) == pat
}

/// Replacing a pattern that does not occur changes nothing.
pub proof fn lemma_replace_absent(s: Seq<char>, pat: Seq<char>, rep: Seq<char>)
    requires
        pat.len() > 0,
        !occurs(s, pat),
    ensures
        replace_all(s, pat, rep) == s,
    decreases s.len(),
{
    if s.len() >= pat.len() {
        assert(s.subrange(0, pat.len() as int) =~= s.take(pat.len() as int));
        assert(s.take(pat.len() as int) != pat) by {
            if s.take(pat.len() as int) == pat {
                assert(s.subrange(0int, 0int + pat.len()) == pat);
            }
        }
        let d = s.drop_first();
        assert(!occurs(d, pat)) by {
            if occurs(d, pat) {
                let i = choose|i: int|
                    0 <= i <= d.len() - pat.len() && #[trigger] d.subrange(i, i + pat.len()) == pat;
                assert(s.subrange(i + 1, i + 1 + pat.len()) =~= d.subrange(i, i + pat.len()));
            }
        }
        lemma_replace_absent(d, pat, rep);
        assert(seq![s[0]] + d =~= s);
    }
}

} // verus!
