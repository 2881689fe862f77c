//! Parsing for the `[keys]` table in config.toml.
//!
//! Only actions with a single default binding are rebindable. Movement
//! (arrows and ctrl-j/k), enter and esc stay fixed: they have two bindings
//! each or are load-bearing enough that unbinding them would be a footgun.
use crate::text::{
    is_ws, lemma_split_nonempty, split, split_bounds, spells, string_of, to_chars, trim, trim_end,
    trim_start, trimmed,
};
use vstd::prelude::*;

verus! {

/// A key, as the terminal reports it. Keys that carry media or modifier
/// key codes are all `Other`.
#[derive(Clone, Copy, Debug, PartialEq, Eq, Structural)]
pub enum KeyCode {
    Backspace,
    Enter,
    Left,
    Right,
    Up,
    Down,
    Home,
    End,
    PageUp,
    PageDown,
    Tab,
    BackTab,
    Delete,
    Insert,
    F(u8),
    Char(char),
    Null,
    Esc,
    CapsLock,
    ScrollLock,
    NumLock,
    PrintScreen,
    Pause,
    Menu,
    KeypadBegin,
    Other,
}

/// Modifier bits, laid out as the terminal library lays them out.
#[derive(Clone, Copy, Debug, PartialEq, Eq, Structural)]
pub struct KeyModifiers {
    pub bits: u8,
}

/// The bit of each modifier a binding can name.
pub open spec fn shift_bit() -> u8 {
    1
}

pub open spec fn control_bit() -> u8 {
    2
}

pub open spec fn alt_bit() -> u8 {
    4
}

impl KeyModifiers {
    pub fn none() -> (m: Self)
        ensures
            m.bits == 0,
    {
        KeyModifiers { bits: 0 }
    }

    pub fn shift() -> (m: Self)
        ensures
            m.bits == shift_bit(),
    {
        KeyModifiers { bits: 1 }
    }

    pub fn control() -> (m: Self)
        ensures
            m.bits == control_bit(),
    {
        KeyModifiers { bits: 2 }
    }

    pub fn alt() -> (m: Self)
        ensures
            m.bits == alt_bit(),
    {
        KeyModifiers { bits: 4 }
    }

    /// Both sets of modifiers (`|`).
    pub fn union(self, other: Self) -> (m: Self)
        ensures
            m.bits == self.bits | other.bits,
    {
        KeyModifiers { bits: self.bits | other.bits }
    }
}

#[derive(Clone, Copy, Debug, PartialEq, Eq, Structural)]
pub struct Chord {
    pub code: KeyCode,
    pub mods: KeyModifiers,
}

impl Chord {
    pub fn new(code: KeyCode, mods: KeyModifiers) -> (c: Self)
        ensures
            c.code == code,
            c.mods == mods,
    {
        Chord { code, mods }
    }

    /// Whether a key event is this chord. Terminals set extra modifier bits
    /// that a plain `==` would reject, so only ctrl, alt and shift count.
    pub fn matches(&self, code: KeyCode, mods: KeyModifiers) -> (b: bool)
        ensures
            b == chord_matches(*self, code, mods.bits),
    {
        let relevant = mods.bits & (2u8 | 4u8 | 1u8);
        assert((2u8 | 4u8 | 1u8) == 7u8) by (bit_vector);
        self.code == code && relevant == self.mods.bits
    }
}

/// A key event with these modifier bits is the chord: the key is the same,
/// and so are ctrl, alt and shift.
pub open spec fn chord_matches(c: Chord, code: KeyCode, bits: u8) -> bool {
    c.code == code && (bits & 7u8) == c.mods.bits
}

/// Modifier bits other than ctrl, alt and shift never change whether a key
/// event is a chord.
pub proof fn law_extra_modifier_bits_ignored(c: Chord, code: KeyCode, bits: u8, extra: u8)
    requires
        extra & 7u8 == 0,
    ensures
        chord_matches(c, code, bits | extra) == chord_matches(c, code, bits),
{
    assert((bits | extra) & 7u8 == bits & 7u8) by (bit_vector)
        requires
            extra & 7u8 == 0,
    ;
}

/// ASCII letters lowered, everything else kept (`char::to_ascii_lowercase`).
pub open spec fn ascii_lower(c: char) -> char {
    if 'A' <= c <= 'Z' {
        ((c as u32) + 32) as char
    } else {
        c
    }
}

/// `str::to_ascii_lowercase`.
pub open spec fn lowercase(s: Seq<char>) -> Seq<char> {
    s.map_values(|c: char| ascii_lower(c))
}

/// The bit a modifier name stands for.
pub open spec fn modifier_bit(part: Seq<char>) -> Option<u8> {
    if part == "ctrl"@ {
        Some(control_bit())
    } else if part == "alt"@ {
        Some(alt_bit())
    } else if part == "shift"@ {
        Some(shift_bit())
    } else {
        None
    }
}

/// All the modifiers named, or the first name that is not one.
pub open spec fn modifiers(parts: Seq<Seq<char>>) -> Result<u8, Seq<char>>
    decreases parts.len(),
{
    if parts.len() == 0 {
        Ok(0u8)
    } else {
        match modifiers(parts.drop_last()) {
            Err(e) => Err(e),
            Ok(m) => match modifier_bit(parts.last()) {
                None => Err(parts.last()),
                Some(b) => Ok(m | b),
            },
        }
    }
}

/// The key a key name stands for.
pub open spec fn key_named(key: Seq<char>) -> Option<KeyCode> {
    if key == "tab"@ {
        Some(KeyCode::Tab)
    } else if key == "enter"@ {
        Some(KeyCode::Enter)
    } else if key == "esc"@ {
        Some(KeyCode::Esc)
    } else if key == "space"@ {
        Some(KeyCode::Char(' '))
    } else if key == "backspace"@ {
        Some(KeyCode::Backspace)
    } else if key == "up"@ {
        Some(KeyCode::Up)
    } else if key == "down"@ {
        Some(KeyCode::Down)
    } else if key == "left"@ {
        Some(KeyCode::Left)
    } else if key == "right"@ {
        Some(KeyCode::Right)
    } else if key.len() == 1 {
        Some(KeyCode::Char(key[0]))
    } else {
        None
    }
}

/// What a binding such as `"ctrl-f"`, `"tab"` or `"alt-shift-p"` means:
/// trimmed and lowered, split on `-`; the last piece is the key, the others
/// modifiers. Errors carry the message shown to the user.
pub open spec fn parse_binding(binding: Seq<char>) -> Result<Chord, Seq<char>> {
    let lower = lowercase(trim(binding));
    let parts = split(lower, '-');
    let key = parts.last();
    if lower.len() == 0 {
        Err("empty key binding"@)
    } else {
        match modifiers(parts.drop_last()) {
            Err(other) => Err("unknown modifier `"@ + other + "` in `"@ + binding + "`"@),
            Ok(bits) => match key_named(key) {
                None => Err("unknown key `"@ + key + "` in `"@ + binding + "`"@),
                Some(code) => Ok(Chord { code, mods: KeyModifiers { bits } }),
            },
        }
    }
}

/// A parse result with its message by chars.
pub open spec fn parse_model(r: Result<Chord, String>) -> Result<Chord, Seq<char>> {
    match r {
        Ok(c) => Ok(c),
        Err(e) => Err(e@),
    }
}

fn lower_chars(s: &str) -> (v: Vec<char>)
    ensures
        v@ == lowercase(s@),
{
    let chars = to_chars(s);
    let mut v: Vec<char> = Vec::new();
    let mut i: usize = 0;
    while i < chars.len()
        invariant
            i <= chars@.len(),
            chars@ == s@,
            v@ == lowercase(s@.take(i as int)),
        decreases chars@.len() - i,
    {
        let c = chars[i];
        let l = if 'A' <= c && c <= 'Z' {
            let u: u8 = (c as u8) + 32;
            assert(u == (c as u32) + 32);
            u as char
        } else {
            c
        };
        assert(l == ascii_lower(c));
        v.push(l);
        assert(lowercase(s@.take(i + 1)) =~= lowercase(s@.take(i as int)).push(ascii_lower(c)));
        i = i + 1;
    }
    assert(s@.take(chars@.len() as int) =~= s@);
    v
}

/// Parses `"ctrl-f"`, `"tab"`, `"alt-shift-p"`. Case-insensitive.
pub fn parse(binding: &str) -> (r: Result<Chord, String>)
    ensures
        parse_model(r) == parse_binding(binding@),
{
    let t = trimmed(binding);
    let lower = lower_chars(t.as_str());
    if lower.len() == 0 {
        return Err(String::from_str("empty key binding"));
    }
    let parts = split_bounds(lower.as_slice(), '-');
    let ghost pieces = split(lower@, '-');
    let n = parts.len();
    proof {
        assert(n > 0) by {
            lemma_split_nonempty(lower@, '-');
        }
    }
    let mut bits: u8 = 0;
    let mut i: usize = 0;
    assert(pieces.take(0) =~= Seq::<Seq<char>>::empty());
    while i < n - 1
        invariant
            n == parts@.len(),
            n == pieces.len(),
            n > 0,
            i <= n - 1,
            pieces == split(lower@, '-'),
            lower@ == lowercase(trim(binding@)),
            lower@.len() > 0,
            forall|j: int|
                0 <= j < parts@.len() ==> {
                    &&& (#[trigger] parts@[j]).0 <= parts@[j].1 <= lower@.len()
                    &&& lower@.subrange(parts@[j].0 as int, parts@[j].1 as int) == pieces[j]
                },
            modifiers(pieces.take(i as int)) == Ok::<u8, Seq<char>>(bits),
        decreases n - 1 - i,
    {
        let (a, b) = parts[i];
        assert(pieces.take(i + 1).drop_last() =~= pieces.take(i as int));
        assert(pieces.take(i + 1).last() == pieces[i as int]);
        if spells(lower.as_slice(), a, b, "ctrl") {
            bits = bits | 2u8;
        } else if spells(lower.as_slice(), a, b, "alt") {
            bits = bits | 4u8;
        } else if spells(lower.as_slice(), a, b, "shift") {
            bits = bits | 1u8;
        } else {
            let mut m = String::from_str("unknown modifier `");
            let other = string_of(lower.as_slice(), a, b);
            m.append(other.as_str());
            m.append("` in `");
            m.append(binding);
            m.append("`");
            proof {
                assert(pieces.drop_last().take(i as int) =~= pieces.take(i as int));
                lemma_modifiers_prefix_err(pieces.drop_last(), i as int);
                assert(pieces.drop_last().take(i + 1) =~= pieces.take(i + 1));
            }
            return Err(m);
        }
        i = i + 1;
    }
    assert(pieces.take(n - 1) =~= pieces.drop_last());
    let (a, b) = parts[n - 1];
    let code = if spells(lower.as_slice(), a, b, "tab") {
        KeyCode::Tab
    } else if spells(lower.as_slice(), a, b, "enter") {
        KeyCode::Enter
    } else if spells(lower.as_slice(), a, b, "esc") {
        KeyCode::Esc
    } else if spells(lower.as_slice(), a, b, "space") {
        KeyCode::Char(' ')
    } else if spells(lower.as_slice(), a, b, "backspace") {
        KeyCode::Backspace
    } else if spells(lower.as_slice(), a, b, "up") {
        KeyCode::Up
    } else if spells(lower.as_slice(), a, b, "down") {
        KeyCode::Down
    } else if spells(lower.as_slice(), a, b, "left") {
        KeyCode::Left
    } else if spells(lower.as_slice(), a, b, "right") {
        KeyCode::Right
    } else if b - a == 1 {
        KeyCode::Char(lower[a])
    } else {
        let mut m = String::from_str("unknown key `");
        let other = string_of(lower.as_slice(), a, b);
        m.append(other.as_str());
        m.append("` in `");
        m.append(binding);
        m.append("`");
        return Err(m);
    };
    Ok(Chord { code, mods: KeyModifiers { bits } })
}

/// An unknown modifier at `i`, after known ones, is the error for any
/// longer list of modifiers.
proof fn lemma_modifiers_prefix_err(parts: Seq<Seq<char>>, i: int)
    requires
        0 <= i < parts.len(),
        modifiers(parts.take(i)) is Ok,
        modifier_bit(parts[i]) is None,
    ensures
        modifiers(parts) == Err::<u8, Seq<char>>(parts[i]),
    decreases parts.len(),
{
    if i < parts.len() - 1 {
        assert(parts.drop_last().take(i) =~= parts.take(i));
        lemma_modifiers_prefix_err(parts.drop_last(), i);
    } else {
        assert(parts.drop_last() =~= parts.take(i));
    }
}

proof fn lemma_ws_lower(c: char)
    ensures
        is_ws(ascii_lower(c)) == is_ws(c),
{
}

proof fn lemma_trim_start_lower(s: Seq<char>)
    ensures
        lowercase(trim_start(s)) == trim_start(lowercase(s)),
    decreases s.len(),
{
    if s.len() > 0 {
        lemma_ws_lower(s[0]);
        assert(lowercase(s)[0] == ascii_lower(s[0]));
        assert(lowercase(s).drop_first() =~= lowercase(s.drop_first()));
        lemma_trim_start_lower(s.drop_first());
    } else {
        assert(lowercase(s) =~= s);
    }
}

proof fn lemma_trim_end_lower(s: Seq<char>)
    ensures
        lowercase(trim_end(s)) == trim_end(lowercase(s)),
    decreases s.len(),
{
    if s.len() > 0 {
        lemma_ws_lower(s.last());
        assert(lowercase(s).last() == ascii_lower(s.last()));
        assert(lowercase(s).drop_last() =~= lowercase(s.drop_last()));
        lemma_trim_end_lower(s.drop_last());
    } else {
        assert(lowercase(s) =~= s);
    }
}

/// Bindings that differ only in the case of ASCII letters bind the same
/// chord, or are both refused.
pub proof fn law_parse_ignores_case(a: Seq<char>, b: Seq<char>)
    requires
        lowercase(a) == lowercase(b),
    ensures
        parse_binding(a) is Ok <==> parse_binding(b) is Ok,
        parse_binding(a) is Ok ==> parse_binding(a) == parse_binding(b),
{
    lemma_trim_start_lower(a);
    lemma_trim_start_lower(b);
    lemma_trim_end_lower(trim_start(a));
    lemma_trim_end_lower(trim_start(b));
    assert(lowercase(trim(a)) == lowercase(trim(b)));
}

/// ASCII letters raised, everything else kept (`char::to_ascii_uppercase`).
pub open spec fn ascii_upper(c: char) -> char {
    if 'a' <= c <= 'z' {
        ((c as u32) - 32) as char
    } else {
        c
    }
}

/// `str::to_ascii_uppercase`.
pub open spec fn uppercase(s: Seq<char>) -> Seq<char> {
    s.map_values(|c: char| ascii_upper(c))
}

/// An uppercase ASCII letter.
pub open spec fn is_ascii_upper(c: char) -> bool {
    'A' <= c <= 'Z'
}

proof fn lemma_trim_start_append(y: Seq<char>, z: Seq<char>)
    ensures
        trim_start(y + z) == if trim_start(y).len() > 0 {
            trim_start(y) + z
        } else {
            trim_start(z)
        },
    decreases y.len(),
{
    if y.len() == 0 {
        assert(y + z =~= z);
    } else {
        assert((y + z)[0] == y[0]);
        if is_ws(y[0]) {
            assert((y + z).drop_first() =~= y.drop_first() + z);
            lemma_trim_start_append(y.drop_first(), z);
        }
    }
}

/// A space on either side does not change what `trim` leaves.
proof fn lemma_trim_padded(y: Seq<char>)
    ensures
        trim(seq![' '] + y + seq![' ']) == trim(y),
{
    let p = seq![' '] + y + seq![' '];
    assert(is_ws(' '));
    assert(p[0] == ' ');
    assert(p.drop_first() =~= y + seq![' ']);
    lemma_trim_start_append(y, seq![' ']);
    if trim_start(y).len() > 0 {
        let t = trim_start(y) + seq![' '];
        assert(t.last() == ' ');
        assert(t.drop_last() =~= trim_start(y));
    } else {
        let sp = seq![' '];
        assert(sp.drop_first() =~= Seq::<char>::empty());
        assert(trim_start(sp) == trim_start(Seq::<char>::empty()));
    }
}

/// Surrounding spaces and the case of ASCII letters do not matter: a
/// binding and its uppercase form padded with a space on each side bind
/// the same chord, or are both refused.
pub proof fn law_parse_ignores_padding_and_case(binding: Seq<char>)
    ensures
        parse_binding(binding) is Ok <==> parse_binding(
            seq![' '] + uppercase(binding) + seq![' '],
        ) is Ok,
        parse_binding(binding) is Ok ==> parse_binding(binding) == parse_binding(
            seq![' '] + uppercase(binding) + seq![' '],
        ),
{
    let u = uppercase(binding);
    let p = seq![' '] + u + seq![' '];
    assert(lowercase(u) =~= lowercase(binding)) by {
        assert forall|i: int| 0 <= i < binding.len() implies ascii_lower(ascii_upper(binding[i]))
            == ascii_lower(binding[i]) by {
            let c = binding[i];
            if 'a' <= c <= 'z' {
                vstd::utf8::char_u32_cast(c, c as u32);
            }
        }
    }
    assert(lowercase(p) =~= seq![' '] + lowercase(u) + seq![' ']);
    lemma_trim_start_lower(p);
    lemma_trim_end_lower(trim_start(p));
    lemma_trim_start_lower(binding);
    lemma_trim_end_lower(trim_start(binding));
    lemma_trim_padded(lowercase(binding));
    assert(lowercase(trim(p)) == lowercase(trim(binding)));
}

/// Every piece of a split holds only chars of the text split.
proof fn lemma_split_keeps_lowercase(s: Seq<char>, sep: char)
    requires
        forall|i: int| 0 <= i < s.len() ==> !is_ascii_upper(#[trigger] s[i]),
    ensures
        forall|j: int, k: int|
            0 <= j < split(s, sep).len() && 0 <= k < split(s, sep)[j].len() ==> !is_ascii_upper(
                #[trigger] split(s, sep)[j][k],
            ),
    decreases s.len(),
{
    if s.len() > 0 {
        let d = s.drop_last();
        lemma_split_keeps_lowercase(d, sep);
        lemma_split_nonempty(d, sep);
        let rest = split(d, sep);
        if s.last() != sep {
            let n = rest.len() - 1;
            assert forall|j: int, k: int|
                0 <= j < split(s, sep).len() && 0 <= k < split(s, sep)[j].len() implies !is_ascii_upper(
                #[trigger] split(s, sep)[j][k],
            ) by {
                if j == n {
                    if k < rest[n].len() {
                        assert(split(s, sep)[j][k] == rest[n][k]);
                    } else {
                        assert(split(s, sep)[j][k] == s.last());
                    }
                } else {
                    assert(split(s, sep)[j] == rest[j]);
                }
            }
        } else {
            assert forall|j: int, k: int|
                0 <= j < split(s, sep).len() && 0 <= k < split(s, sep)[j].len() implies !is_ascii_upper(
                #[trigger] split(s, sep)[j][k],
            ) by {
                if j < rest.len() {
                    assert(split(s, sep)[j] == rest[j]);
                }
            }
        }
    }
}

proof fn lemma_modifiers_in_range(parts: Seq<Seq<char>>)
    ensures
        modifiers(parts) matches Ok(bits) ==> bits & 7u8 == bits,
    decreases parts.len(),
{
    assert(0u8 & 7u8 == 0u8 && 1u8 & 7u8 == 1u8 && 2u8 & 7u8 == 2u8 && 4u8 & 7u8 == 4u8) by (
    bit_vector);
    if parts.len() > 0 {
        lemma_modifiers_in_range(parts.drop_last());
        if let Ok(m) = modifiers(parts.drop_last()) {
            if let Some(b) = modifier_bit(parts.last()) {
                assert((m & 7u8 == m && b & 7u8 == b) ==> (m | b) & 7u8 == (m | b)) by (
                bit_vector);
            }
        }
    }
}

/// Every chord a binding parses to can be pressed: the key with its
/// modifiers is that chord.
pub proof fn law_parsed_chord_matches_itself(binding: Seq<char>)
    ensures
        parse_binding(binding) matches Ok(c) ==> chord_matches(c, c.code, c.mods.bits),
{
    let parts = split(lowercase(trim(binding)), '-');
    lemma_modifiers_in_range(parts.drop_last());
}

/// A parsed chord names only ctrl, alt and shift among the modifiers, and
/// its key is never an uppercase ASCII letter (shift is a modifier of its
/// own).
pub proof fn law_parsed_chord_shape(binding: Seq<char>)
    ensures
        parse_binding(binding) matches Ok(c) ==> {
            &&& c.mods.bits & 7u8 == c.mods.bits
            &&& !(c.code matches KeyCode::Char(k) && is_ascii_upper(k))
        },
{
    let lower = lowercase(trim(binding));
    let parts = split(lower, '-');
    lemma_modifiers_in_range(parts.drop_last());
    assert forall|i: int| 0 <= i < lower.len() implies !is_ascii_upper(#[trigger] lower[i]) by {
        let c = trim(binding)[i];
        assert(lower[i] == ascii_lower(c));
        if 'A' <= c <= 'Z' {
            vstd::utf8::char_u32_cast(c, c as u32);
        }
    }
    lemma_split_keeps_lowercase(lower, '-');
    lemma_split_nonempty(lower, '-');
    if parts.last().len() == 1 {
        assert(parts.last()[0] == parts[parts.len() - 1][0]);
    }
}

/// The key a binding names, after its modifiers: the last `-` piece of
/// the trimmed, lowered binding.
pub open spec fn key_piece(binding: Seq<char>) -> Seq<char> {
    split(lowercase(trim(binding)), '-').last()
}

/// Each key name binds its own key: whatever modifiers come before it,
/// `left` is the left arrow, `right` the right arrow, and so on through the
/// names the config may use; a single char binds that char.
pub proof fn law_key_names_bind_their_keys(binding: Seq<char>)
    requires
        parse_binding(binding) is Ok,
    ensures
        ({
            let code = parse_binding(binding)->Ok_0.code;
            let key = key_piece(binding);
            &&& (key == "tab"@ ==> code == KeyCode::Tab)
            &&& (key == "enter"@ ==> code == KeyCode::Enter)
            &&& (key == "esc"@ ==> code == KeyCode::Esc)
            &&& (key == "space"@ ==> code == KeyCode::Char(' '))
            &&& (key == "backspace"@ ==> code == KeyCode::Backspace)
            &&& (key == "up"@ ==> code == KeyCode::Up)
            &&& (key == "down"@ ==> code == KeyCode::Down)
            &&& (key == "left"@ ==> code == KeyCode::Left)
            &&& (key == "right"@ ==> code == KeyCode::Right)
            &&& (key.len() == 1 ==> code == KeyCode::Char(key[0]))
        }),
{
    let key = key_piece(binding);
    let code = parse_binding(binding)->Ok_0.code;
    assert(key_named(key) == Some(code));
    reveal_strlit("tab");
    reveal_strlit("enter");
    reveal_strlit("esc");
    reveal_strlit("space");
    reveal_strlit("backspace");
    reveal_strlit("up");
    reveal_strlit("down");
    reveal_strlit("left");
    reveal_strlit("right");
    assert("tab"@.len() == 3 && "enter"@.len() == 5 && "esc"@.len() == 3);
    assert("space"@.len() == 5 && "backspace"@.len() == 9 && "up"@.len() == 2);
    assert("down"@.len() == 4 && "left"@.len() == 4 && "right"@.len() == 5);
    assert("tab"@[0] == 't' && "esc"@[0] == 'e');
    if key == "left"@ {
        assert(key != "tab"@ && key != "enter"@ && key != "esc"@ && key != "space"@);
        assert(key != "backspace"@ && key != "up"@);
        assert(key[0] != "down"@[0]);
        assert(key != "down"@);
    }
    if key == "right"@ {
        assert(key[0] != "space"@[0]);
        assert(key[0] != "enter"@[0]);
        assert(key != "space"@ && key != "enter"@);
        assert(key[0] != "left"@[0]);
        assert(key != "left"@);
    }
    if key == "enter"@ {
        assert(key[0] != "space"@[0]);
    }
    if key == "space"@ {
        assert(key[0] != "enter"@[0]);
    }
    if key == "down"@ {
        assert(key[0] != "left"@[0]);
    }
}

proof fn lemma_split_without_sep(s: Seq<char>, sep: char)
    requires
        forall|i: int| 0 <= i < s.len() ==> s[i] != sep,
    ensures
        split(s, sep) == seq![s],
    decreases s.len(),
{
    if s.len() > 0 {
        let d = s.drop_last();
        assert forall|i: int| 0 <= i < d.len() implies d[i] != sep by {
            assert(d[i] == s[i]);
        }
        lemma_split_without_sep(d, sep);
        assert(s[s.len() - 1] != sep);
        assert(d.push(s.last()) =~= s);
        let rest = split(d, sep);
        assert(rest.last() == d);
        assert(rest.update(rest.len() - 1, rest.last().push(s.last())) =~= seq![s]);
    } else {
        assert(s =~= Seq::<char>::empty());
        assert(split(s, sep) =~= seq![s]);
    }
}

/// A binding of one lowercase word, with no space or `-` in it, names just
/// that key.
proof fn lemma_plain_binding(s: Seq<char>)
    requires
        s.len() > 0,
        forall|i: int| 0 <= i < s.len() ==> s[i] != '-' && !is_ws(s[i]) && !is_ascii_upper(s[i]),
    ensures
        parse_binding(s) == match key_named(s) {
            None => Err("unknown key `"@ + s + "` in `"@ + s + "`"@),
            Some(code) => Ok::<Chord, Seq<char>>(Chord { code, mods: KeyModifiers { bits: 0 } }),
        },
{
    assert(trim_start(s) == s);
    assert(trim_end(s) == s);
    assert(lowercase(s) =~= s);
    lemma_split_without_sep(s, '-');
    assert(split(s, '-').drop_last() =~= Seq::<Seq<char>>::empty());
}

/// The names of the keys, each parsed alone, bind the keys they name.
pub proof fn law_key_names_alone()
    ensures
        parse_binding("tab"@) == Ok::<Chord, Seq<char>>(
            Chord { code: KeyCode::Tab, mods: KeyModifiers { bits: 0 } },
        ),
        parse_binding("enter"@) == Ok::<Chord, Seq<char>>(
            Chord { code: KeyCode::Enter, mods: KeyModifiers { bits: 0 } },
        ),
        parse_binding("esc"@) == Ok::<Chord, Seq<char>>(
            Chord { code: KeyCode::Esc, mods: KeyModifiers { bits: 0 } },
        ),
        parse_binding("space"@) == Ok::<Chord, Seq<char>>(
            Chord { code: KeyCode::Char(' '), mods: KeyModifiers { bits: 0 } },
        ),
        parse_binding("backspace"@) == Ok::<Chord, Seq<char>>(
            Chord { code: KeyCode::Backspace, mods: KeyModifiers { bits: 0 } },
        ),
        parse_binding("up"@) == Ok::<Chord, Seq<char>>(
            Chord { code: KeyCode::Up, mods: KeyModifiers { bits: 0 } },
        ),
        parse_binding("down"@) == Ok::<Chord, Seq<char>>(
            Chord { code: KeyCode::Down, mods: KeyModifiers { bits: 0 } },
        ),
        parse_binding("left"@) == Ok::<Chord, Seq<char>>(
            Chord { code: KeyCode::Left, mods: KeyModifiers { bits: 0 } },
        ),
        parse_binding("right"@) == Ok::<Chord, Seq<char>>(
            Chord { code: KeyCode::Right, mods: KeyModifiers { bits: 0 } },
        ),
{
    reveal_strlit("tab");
    reveal_strlit("enter");
    reveal_strlit("esc");
    reveal_strlit("space");
    reveal_strlit("backspace");
    reveal_strlit("up");
    reveal_strlit("down");
    reveal_strlit("left");
    reveal_strlit("right");
    assert("tab"@.len() == 3 && "enter"@.len() == 5 && "esc"@.len() == 3);
    assert("space"@.len() == 5 && "backspace"@.len() == 9 && "up"@.len() == 2);
    assert("down"@.len() == 4 && "left"@.len() == 4 && "right"@.len() == 5);
    lemma_plain_binding("tab"@);
    lemma_plain_binding("enter"@);
    lemma_plain_binding("esc"@);
    lemma_plain_binding("space"@);
    lemma_plain_binding("backspace"@);
    lemma_plain_binding("up"@);
    lemma_plain_binding("down"@);
    lemma_plain_binding("left"@);
    lemma_plain_binding("right"@);
    assert("esc"@ != "tab"@ && "enter"@[0] != "space"@[0] && "left"@[0] != "down"@[0]);
    assert("right"@[0] != "enter"@[0] && "right"@[0] != "space"@[0] && "right"@[0] != "left"@[0]);
}

/// The rebindable actions and their chords.
#[derive(Clone, Copy, Debug)]
pub struct Keymap {
    pub toggle_mode: Chord,
    pub toggle_preview: Chord,
    pub refresh: Chord,
    pub mark: Chord,
}

impl Default for Keymap {
    fn default() -> (k: Self)
        ensures
            k.toggle_mode == (Chord { code: KeyCode::Char('f'), mods: KeyModifiers { bits: 2 } }),
            k.toggle_preview == (Chord {
                code: KeyCode::Char('p'),
                mods: KeyModifiers { bits: 2 },
            }),
            k.refresh == (Chord { code: KeyCode::Char('r'), mods: KeyModifiers { bits: 2 } }),
            k.mark == (Chord { code: KeyCode::Tab, mods: KeyModifiers { bits: 0 } }),
    {
        Keymap {
            toggle_mode: Chord::new(KeyCode::Char('f'), KeyModifiers::control()),
            toggle_preview: Chord::new(KeyCode::Char('p'), KeyModifiers::control()),
            refresh: Chord::new(KeyCode::Char('r'), KeyModifiers::control()),
            mark: Chord::new(KeyCode::Tab, KeyModifiers::none()),
        }
    }
}

} // verus!
