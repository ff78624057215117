//! The Omarchy theme: colours from the theme's `colors.toml`, the icon and
//! GTK theme names from their settings files, and a stamp that changes when
//! any of those files does.
//!
//! Reading the files is left to the caller; the font size, which is a
//! floating-point value, is handled there too.
use crate::fspath::{join_path, path_join};
use crate::paths::{opt_view, pair_view};
use crate::text::{
    chars_of, concat, has_prefix, is_ascii_seq, lines, lines_of, parse_u64_radix, parse_unsigned,
    str_eq, string_of_range, strip_prefix, to_lowercase, trim, trim_char, trim_char_str,
    trim_start_char, trim_str, unicode_lowercase,
};
use vstd::prelude::*;

verus! {

/// The `color-scheme` setting of the Settings portal.
#[derive(Clone, Copy, Debug, PartialEq, Eq, Structural)]
pub enum ColorScheme {
    NoPreference,
    PreferDark,
    PreferLight,
}

impl ColorScheme {
    /// The number the portal sends for the scheme.
    pub open spec fn code(self) -> u32 {
        match self {
            ColorScheme::NoPreference => 0,
            ColorScheme::PreferDark => 1,
            ColorScheme::PreferLight => 2,
        }
    }

    /// The number the portal sends for the scheme: 0 for no preference, 1
    /// for dark, 2 for light.
    pub fn color_scheme_u32(&self) -> (out: u32)
        ensures
            out == self.code(),
    {
        match self {
            ColorScheme::NoPreference => 0,
            ColorScheme::PreferDark => 1,
            ColorScheme::PreferLight => 2,
        }
    }
}

// ---------------------------------------------------------------------------
// Hex colours
// ---------------------------------------------------------------------------
/// Bytes a character takes in UTF-8.
pub open spec fn utf8_width(c: char) -> nat {
    let u = c as u32;
    if u < 0x80 {
        1
    } else if u < 0x800 {
        2
    } else if u < 0x10000 {
        3
    } else {
        4
    }
}

/// Length of a text in UTF-8 bytes (`str::len`).
pub open spec fn byte_len(s: Seq<char>) -> nat
    decreases s.len(),
{
    if s.len() == 0 {
        0
    } else {
        byte_len(s.drop_last()) + utf8_width(s.last())
    }
}

/// Whether byte offset `k` falls between two characters of `s`.
pub open spec fn char_boundary(s: Seq<char>, k: nat) -> bool {
    exists|i: int| 0 <= i <= s.len() && #[trigger] byte_len(s.take(i)) == k
}

/// What `parse_hex` reads: the trimmed text without its leading `'#'`s.
pub open spec fn hex_body(input: Seq<char>) -> Seq<char> {
    trim_start_char(trim(input), '#')
}

/// Inputs that `parse_hex` can slice: a three-byte body is ASCII, and a
/// six-byte body splits into three two-byte pieces.
pub open spec fn hex_sliceable(input: Seq<char>) -> bool {
    let s = hex_body(input);
    &&& byte_len(s) == 3 ==> is_ascii_seq(s)
    &&& byte_len(s) == 6 ==> char_boundary(s, 2) && char_boundary(s, 4)
}

/// A byte read from hexadecimal digits (`u8::from_str_radix(_, 16)`).
pub open spec fn hex_byte(s: Seq<char>) -> Option<u8> {
    match parse_unsigned(s, 16) {
        Some(v) => if v < 256 {
            Some(v as u8)
        } else {
            None
        },
        None => None,
    }
}

pub open spec fn rgb_of(r: Option<u8>, g: Option<u8>, b: Option<u8>) -> Option<(u8, u8, u8)> {
    match (r, g, b) {
        (Some(x), Some(y), Some(z)) => Some((x, y, z)),
        _ => None,
    }
}

/// A colour written `#rgb` or `#rrggbb` (the `'#'` optional): each digit of
/// the short form stands for two.
pub open spec fn parse_hex_spec(input: Seq<char>) -> Option<(u8, u8, u8)> {
    let s = hex_body(input);
    if !is_ascii_seq(s) {
        None
    } else if s.len() == 3 {
        rgb_of(
            hex_byte(seq![s[0], s[0]]),
            hex_byte(seq![s[1], s[1]]),
            hex_byte(seq![s[2], s[2]]),
        )
    } else if s.len() == 6 {
        rgb_of(hex_byte(s.subrange(0, 2)), hex_byte(s.subrange(2, 4)), hex_byte(s.subrange(4, 6)))
    } else {
        None
    }
}

pub open spec fn rgb_view(a: [u8; 3]) -> (u8, u8, u8) {
    (a@[0], a@[1], a@[2])
}

proof fn lemma_ascii_byte_len(s: Seq<char>)
    requires
        is_ascii_seq(s),
    ensures
        byte_len(s) == s.len(),
    decreases s.len(),
{
    if s.len() > 0 {
        assert(is_ascii_seq(s.drop_last()));
        lemma_ascii_byte_len(s.drop_last());
    }
}

proof fn lemma_byte_len_take_step(s: Seq<char>, i: int)
    requires
        0 <= i < s.len(),
    ensures
        byte_len(s.take(i + 1)) == byte_len(s.take(i)) + utf8_width(s[i]),
{
    assert(s.take(i + 1).drop_last() =~= s.take(i));
}

proof fn lemma_byte_len_monotone(s: Seq<char>, i: int, j: int)
    requires
        0 <= i <= j <= s.len(),
    ensures
        byte_len(s.take(i)) + (j - i) <= byte_len(s.take(j)),
    decreases j - i,
{
    if i < j {
        lemma_byte_len_monotone(s, i, j - 1);
        lemma_byte_len_take_step(s, j - 1);
    }
}

/// The byte length of `v` (any value above 6 standing for every larger
/// one) and whether offsets 2 and 4 are character boundaries.
pub(crate) fn byte_facts(v: &Vec<char>) -> (out: (usize, bool, bool, bool))
    ensures
        out.0 <= 6 ==> out.0 == byte_len(v@),
        out.0 > 6 ==> byte_len(v@) > 6,
        out.1 == char_boundary(v@, 2),
        out.2 == char_boundary(v@, 4),
        out.3 == char_boundary(v@, 6),
{
    let mut n: usize = 0;
    let mut at2 = false;
    let mut at4 = false;
    let mut at6 = false;
    let mut i: usize = 0;
    proof {
        assert(v@.take(0) =~= Seq::<char>::empty());
    }
    while i < v.len() && n <= 6
        invariant
            i <= v.len(),
            n == byte_len(v@.take(i as int)),
            n <= 10,
            at2 == exists|j: int| 0 <= j <= i && #[trigger] byte_len(v@.take(j)) == 2,
            at4 == exists|j: int| 0 <= j <= i && #[trigger] byte_len(v@.take(j)) == 4,
            at6 == exists|j: int| 0 <= j <= i && #[trigger] byte_len(v@.take(j)) == 6,
        decreases v.len() - i,
    {
        let u = v[i] as u32;
        let w: usize = if u < 0x80 {
            1
        } else if u < 0x800 {
            2
        } else if u < 0x10000 {
            3
        } else {
            4
        };
        proof {
            lemma_byte_len_take_step(v@, i as int);
        }
        n = n + w;
        if n == 2 {
            at2 = true;
        }
        if n == 4 {
            at4 = true;
        }
        if n == 6 {
            at6 = true;
        }
        proof {
            assert forall|j: int| 0 <= j <= i + 1 && #[trigger] byte_len(v@.take(j)) == 6 implies (
            j <= i || n == 6) by {}
            if n == 6 {
                assert(byte_len(v@.take(i + 1)) == 6);
            }
            assert forall|j: int| 0 <= j <= i + 1 && #[trigger] byte_len(v@.take(j)) == 2 implies (
            j <= i || n == 2) by {}
            assert forall|j: int| 0 <= j <= i + 1 && #[trigger] byte_len(v@.take(j)) == 4 implies (
            j <= i || n == 4) by {}
            if n == 2 {
                assert(byte_len(v@.take(i + 1)) == 2);
            }
            if n == 4 {
                assert(byte_len(v@.take(i + 1)) == 4);
            }
        }
        i += 1;
    }
    proof {
        assert(v@.take(v@.len() as int) =~= v@);
        lemma_byte_len_monotone(v@, i as int, v@.len() as int);
        assert forall|j: int| i < j <= v@.len() implies #[trigger] byte_len(v@.take(j)) > 6 || n
            <= 6 by {
            lemma_byte_len_monotone(v@, i as int, j);
        }
    }
    (n, at2, at4, at6)
}

/// Whether `parse_hex` can read `input` without slicing inside a character.
pub fn hex_input_sliceable(input: &str) -> (out: bool)
    ensures
        out == hex_sliceable(input@),
{
    let t = trim_str(input);
    let body = crate::text::trim_start_char_str(t.as_str(), '#');
    let v = chars_of(body.as_str());
    let (n, at2, at4, _) = byte_facts(&v);
    if n == 3 {
        return all_ascii(&v);
    }
    if n == 6 {
        return at2 && at4;
    }
    true
}

/// Whether every character of `v` is ASCII.
fn all_ascii(v: &Vec<char>) -> (out: bool)
    ensures
        out == is_ascii_seq(v@),
{
    let mut i: usize = 0;
    while i < v.len()
        invariant
            i <= v.len(),
            forall|k: int| 0 <= k < i ==> (v@[k] as u32) < 128,
        decreases v.len() - i,
    {
        if (v[i] as u32) >= 128 {
            return false;
        }
        i += 1;
    }
    true
}

/// A byte from two hexadecimal characters.
pub(crate) fn hex_pair(a: char, b: char) -> (out: Option<u8>)
    ensures
        match hex_byte(seq![a, b]) {
            Some(x) => out == Some(x),
            None => out is None,
        },
{
    let mut s = String::new();
    s.push(a);
    s.push(b);
    proof {
        assert(s@ =~= seq![a, b]);
    }
    match parse_u64_radix(s.as_str(), 16) {
        Some(v) => if v < 256 {
            Some(v as u8)
        } else {
            None
        },
        None => None,
    }
}

/// A colour written `#rgb` or `#rrggbb`, the `'#'` optional and surrounding
/// white space ignored; `None` for anything else.
pub fn parse_hex(input: &str) -> (out: Option<[u8; 3]>)
    requires
        hex_sliceable(input@),
    ensures
        match parse_hex_spec(input@) {
            Some(c) => out matches Some(a) && rgb_view(a) == c,
            None => out is None,
        },
{
    let t = trim_str(input);
    let body = crate::text::trim_start_char_str(t.as_str(), '#');
    let v = chars_of(body.as_str());
    if !all_ascii(&v) {
        return None;
    }
    proof {
        lemma_ascii_byte_len(v@);
    }
    if v.len() == 3 {
        let r = hex_pair(v[0], v[0]);
        let g = hex_pair(v[1], v[1]);
        let b = hex_pair(v[2], v[2]);
        match (r, g, b) {
            (Some(x), Some(y), Some(z)) => Some([x, y, z]),
            _ => None,
        }
    } else if v.len() == 6 {
        let r = hex_pair(v[0], v[1]);
        let g = hex_pair(v[2], v[3]);
        let b = hex_pair(v[4], v[5]);
        proof {
            assert(v@.subrange(0, 2) =~= seq![v@[0], v@[1]]);
            assert(v@.subrange(2, 4) =~= seq![v@[2], v@[3]]);
            assert(v@.subrange(4, 6) =~= seq![v@[4], v@[5]]);
        }
        match (r, g, b) {
            (Some(x), Some(y), Some(z)) => Some([x, y, z]),
            _ => None,
        }
    } else {
        None
    }
}

/// The hexadecimal digit of `n < 16`, in upper or lower case.
pub open spec fn hex_digit_char(n: nat, upper: bool) -> char {
    if n < 10 {
        ((n + 48) as u32) as char
    } else if upper {
        ((n + 55) as u32) as char
    } else {
        ((n + 87) as u32) as char
    }
}

/// `b` as two hexadecimal digits, as `{:02x}` (or `{:02X}`) writes it.
pub open spec fn hex2(b: u8, upper: bool) -> Seq<char> {
    seq![hex_digit_char((b / 16) as nat, upper), hex_digit_char((b % 16) as nat, upper)]
}

/// A leading `'#'`, or nothing.
pub open spec fn hash_prefix(hash: bool) -> Seq<char> {
    if hash {
        seq!['#']
    } else {
        Seq::empty()
    }
}

proof fn lemma_hex_digit(n: nat, upper: bool)
    requires
        n < 16,
    ensures
        crate::text::digit_value(hex_digit_char(n, upper), 16) == Some(n),
        (hex_digit_char(n, upper) as u32) < 128,
        !crate::text::is_ws(hex_digit_char(n, upper)),
        hex_digit_char(n, upper) != '#',
        hex_digit_char(n, upper) != '+',
{
    let c = hex_digit_char(n, upper);
    if n < 10 {
        assert((c as u32) == n + 48);
    } else if upper {
        assert((c as u32) == n + 55);
    } else {
        assert((c as u32) == n + 87);
    }
}

proof fn lemma_hex_byte_of_digits(hi: nat, lo: nat, upper_hi: bool, upper_lo: bool)
    requires
        hi < 16,
        lo < 16,
    ensures
        hex_byte(seq![hex_digit_char(hi, upper_hi), hex_digit_char(lo, upper_lo)]) == Some((hi * 16 + lo) as u8),
{
    let s = seq![hex_digit_char(hi, upper_hi), hex_digit_char(lo, upper_lo)];
    lemma_hex_digit(hi, upper_hi);
    lemma_hex_digit(lo, upper_lo);
    assert(s.drop_last() =~= seq![s[0]]);
    let one = seq![s[0]];
    assert(one.drop_last() =~= Seq::<char>::empty());
    assert(one.last() == hex_digit_char(hi, upper_hi));
    assert(crate::text::digits_value(Seq::<char>::empty(), 16) == Some(0nat));
    assert(crate::text::digits_value(one, 16) == Some(hi));
    assert(crate::text::digits_value(s, 16) == Some(hi * 16 + lo));
}

/// The body is read back from behind an optional `'#'`.
proof fn lemma_hex_body(hash: bool, body: Seq<char>)
    requires
        body.len() > 0,
        forall|i: int| 0 <= i < body.len() ==> !crate::text::is_ws(#[trigger] body[i]) && body[i] != '#',
    ensures
        hex_body(hash_prefix(hash) + body) == body,
{
    let s = hash_prefix(hash) + body;
    assert(s.last() == body[body.len() - 1]);
    assert(!crate::text::is_ws(s[0])) by {
        if !hash {
            assert(s[0] == body[0]);
        }
    }
    assert(trim(s) == s);
    if hash {
        assert(s.drop_first() =~= body);
        assert(trim_start_char(body, '#') == body);
    } else {
        assert(s =~= body);
    }
}

proof fn lemma_hex_sliceable(hash: bool, body: Seq<char>)
    requires
        hex_body(hash_prefix(hash) + body) == body,
        is_ascii_seq(body),
    ensures
        hex_sliceable(hash_prefix(hash) + body),
{
    lemma_ascii_byte_len(body);
    if body.len() >= 4 {
        assert(is_ascii_seq(body.take(2)));
        assert(is_ascii_seq(body.take(4)));
        lemma_ascii_byte_len(body.take(2));
        lemma_ascii_byte_len(body.take(4));
        assert(byte_len(body.take(2)) == 2);
        assert(byte_len(body.take(4)) == 4);
    }
}

/// A colour written as six hexadecimal digits (`#rrggbb`, in either case,
/// the `'#'` optional) reads back as its three bytes, and `parse_hex` can
/// take it.
pub proof fn law_hex_reads_back(r: u8, g: u8, b: u8, hash: bool, upper: bool)
    ensures
        hex_sliceable(hash_prefix(hash) + hex2(r, upper) + hex2(g, upper) + hex2(b, upper)),
        parse_hex_spec(hash_prefix(hash) + hex2(r, upper) + hex2(g, upper) + hex2(b, upper)) == Some((r, g, b)),
{
    let body = hex2(r, upper) + hex2(g, upper) + hex2(b, upper);
    let input = hash_prefix(hash) + hex2(r, upper) + hex2(g, upper) + hex2(b, upper);
    assert(input =~= hash_prefix(hash) + body);
    lemma_hex_digit((r / 16) as nat, upper);
    lemma_hex_digit((r % 16) as nat, upper);
    lemma_hex_digit((g / 16) as nat, upper);
    lemma_hex_digit((g % 16) as nat, upper);
    lemma_hex_digit((b / 16) as nat, upper);
    lemma_hex_digit((b % 16) as nat, upper);
    assert(body.len() == 6);
    assert forall|i: int| 0 <= i < body.len() implies !crate::text::is_ws(#[trigger] body[i]) && body[i] != '#'
        && (body[i] as u32) < 128 by {
        if i == 0 {
            assert(body[i] == hex_digit_char((r / 16) as nat, upper));
        } else if i == 1 {
            assert(body[i] == hex_digit_char((r % 16) as nat, upper));
        } else if i == 2 {
            assert(body[i] == hex_digit_char((g / 16) as nat, upper));
        } else if i == 3 {
            assert(body[i] == hex_digit_char((g % 16) as nat, upper));
        } else if i == 4 {
            assert(body[i] == hex_digit_char((b / 16) as nat, upper));
        } else {
            assert(body[i] == hex_digit_char((b % 16) as nat, upper));
        }
    }
    lemma_hex_body(hash, body);
    lemma_hex_sliceable(hash, body);
    assert(body.subrange(0, 2) =~= hex2(r, upper));
    assert(body.subrange(2, 4) =~= hex2(g, upper));
    assert(body.subrange(4, 6) =~= hex2(b, upper));
    lemma_hex_byte_of_digits((r / 16) as nat, (r % 16) as nat, upper, upper);
    lemma_hex_byte_of_digits((g / 16) as nat, (g % 16) as nat, upper, upper);
    lemma_hex_byte_of_digits((b / 16) as nat, (b % 16) as nat, upper, upper);
}

/// A colour written as three hexadecimal digits (`#rgb`, in either case,
/// the `'#'` optional) reads back with each digit doubled: `x` gives
/// `x * 17`.
pub proof fn law_short_hex_doubles(x: u8, y: u8, z: u8, hash: bool, upper: bool)
    requires
        x < 16,
        y < 16,
        z < 16,
    ensures
        hex_sliceable(
            hash_prefix(hash) + seq![
                hex_digit_char(x as nat, upper),
                hex_digit_char(y as nat, upper),
                hex_digit_char(z as nat, upper),
            ],
        ),
        parse_hex_spec(
            hash_prefix(hash) + seq![
                hex_digit_char(x as nat, upper),
                hex_digit_char(y as nat, upper),
                hex_digit_char(z as nat, upper),
            ],
        ) == Some(((x * 17) as u8, (y * 17) as u8, (z * 17) as u8)),
{
    let body = seq![hex_digit_char(x as nat, upper), hex_digit_char(y as nat, upper), hex_digit_char(z as nat, upper)];
    lemma_hex_digit(x as nat, upper);
    lemma_hex_digit(y as nat, upper);
    lemma_hex_digit(z as nat, upper);
    assert forall|i: int| 0 <= i < body.len() implies !crate::text::is_ws(#[trigger] body[i]) && body[i] != '#'
        && (body[i] as u32) < 128 by {}
    lemma_hex_body(hash, body);
    lemma_hex_sliceable(hash, body);
    lemma_hex_byte_of_digits(x as nat, x as nat, upper, upper);
    lemma_hex_byte_of_digits(y as nat, y as nat, upper, upper);
    lemma_hex_byte_of_digits(z as nat, z as nat, upper, upper);
}

// ---------------------------------------------------------------------------
// Theme colours (`colors.toml`)
// ---------------------------------------------------------------------------
/// The top-level entries of a TOML document, in the order of its table,
/// each with its value when that is a string.
pub uninterp spec fn toml_top_entries(text: Seq<char>) -> Option<Seq<(Seq<char>, Option<Seq<char>>)>>;

pub open spec fn entries_view(e: Seq<(String, Option<String>)>) -> Seq<(Seq<char>, Option<Seq<char>>)> {
    e.map_values(|x: (String, Option<String>)| (x.0@, opt_view(x.1)))
}

/// Parses `text` with `toml`'s `Value` parser and lists the entries of the
/// top-level table, each value through `Value::as_str`. The contract names
/// the result, `None` when the text is not a TOML document.
#[verifier::external_body]
fn toml_entries(text: &str) -> (r: Option<Vec<(String, Option<String>)>>)
    ensures
        match toml_top_entries(text@) {
            Some(e) => r matches Some(v) && entries_view(v@) == e,
            None => r is None,
        },
{
    let value: toml::Value = text.parse().ok()?;
    let table = value.as_table()?;
    Some(table.iter().map(|(k, v)| (k.clone(), v.as_str().map(|s| s.to_string()))).collect())
}

/// The string value of `key`: that of its first entry, `None` when there is
/// none or its value is not a string.
pub open spec fn toml_get(e: Seq<(Seq<char>, Option<Seq<char>>)>, key: Seq<char>) -> Option<Seq<char>>
    decreases e.len(),
{
    if e.len() == 0 {
        None
    } else if e[0].0 == key {
        e[0].1
    } else {
        toml_get(e.drop_first(), key)
    }
}

/// The text of a colour: the value of `key`, else of `alt` (when given),
/// else `default`.
pub open spec fn color_text(
    e: Seq<(Seq<char>, Option<Seq<char>>)>,
    key: Seq<char>,
    alt: Option<Seq<char>>,
    default: Seq<char>,
) -> Seq<char> {
    match toml_get(e, key) {
        Some(v) => v,
        None => match alt {
            Some(a) => match toml_get(e, a) {
                Some(v) => v,
                None => default,
            },
            None => default,
        },
    }
}

/// The colour of a text, or `fallback` when it is no colour.
pub open spec fn color_or(text: Seq<char>, fallback: (u8, u8, u8)) -> (u8, u8, u8) {
    match parse_hex_spec(text) {
        Some(c) => c,
        None => fallback,
    }
}

pub open spec fn accent_text(e: Seq<(Seq<char>, Option<Seq<char>>)>) -> Seq<char> {
    color_text(e, "accent"@, None, "#89b4fa"@)
}

pub open spec fn background_text(e: Seq<(Seq<char>, Option<Seq<char>>)>) -> Seq<char> {
    color_text(e, "background"@, None, "#1e1e2e"@)
}

pub open spec fn foreground_text(e: Seq<(Seq<char>, Option<Seq<char>>)>) -> Seq<char> {
    color_text(e, "foreground"@, None, "#cdd6f4"@)
}

pub open spec fn panel_text(e: Seq<(Seq<char>, Option<Seq<char>>)>) -> Seq<char> {
    color_text(e, "lighter_background"@, Some("panel"@), "#313244"@)
}

pub open spec fn muted_text(e: Seq<(Seq<char>, Option<Seq<char>>)>) -> Seq<char> {
    color_text(e, "muted"@, Some("dark_foreground"@), "#585b70"@)
}

pub open spec fn red_text(e: Seq<(Seq<char>, Option<Seq<char>>)>) -> Seq<char> {
    color_text(e, "red"@, None, "#f38ba8"@)
}

pub open spec fn selection_text(e: Seq<(Seq<char>, Option<Seq<char>>)>) -> Seq<char> {
    color_text(e, "selection"@, None, "#45475a"@)
}

/// Every colour text of the entries can be read by `parse_hex`.
pub open spec fn colors_sliceable(e: Seq<(Seq<char>, Option<Seq<char>>)>) -> bool {
    &&& hex_sliceable(accent_text(e))
    &&& hex_sliceable(background_text(e))
    &&& hex_sliceable(foreground_text(e))
    &&& hex_sliceable(panel_text(e))
    &&& hex_sliceable(muted_text(e))
    &&& hex_sliceable(red_text(e))
    &&& hex_sliceable(selection_text(e))
}

/// The scheme a theme asks for: light when its `mode` (else
/// `color-scheme`) is `light` in any case, dark otherwise.
pub open spec fn mode_of(e: Seq<(Seq<char>, Option<Seq<char>>)>) -> ColorScheme {
    let m = match toml_get(e, "mode"@) {
        Some(v) => v,
        None => match toml_get(e, "color-scheme"@) {
            Some(v) => v,
            None => Seq::empty(),
        },
    };
    if unicode_lowercase(m) == "light"@ {
        ColorScheme::PreferLight
    } else {
        ColorScheme::PreferDark
    }
}

/// The colours of an Omarchy theme.
#[derive(Clone, Copy, Debug, PartialEq, Eq)]
pub struct ThemeColors {
    pub mode: ColorScheme,
    pub accent_rgb: [u8; 3],
    pub background: [u8; 3],
    pub foreground: [u8; 3],
    pub panel: [u8; 3],
    pub muted: [u8; 3],
    pub red: [u8; 3],
    pub selection: [u8; 3],
}

/// Why a `colors.toml` text gave no colours.
#[derive(Clone, Copy, Debug, PartialEq, Eq, Structural)]
pub enum ThemeTextError {
    /// The text is not a TOML document.
    NotToml,
    /// A colour value has a length that makes the hex reader cut a character.
    UnreadableColor,
}

/// The colours that [`ThemeColors::from_entries`] gives.
pub open spec fn colors_spec(e: Seq<(Seq<char>, Option<Seq<char>>)>, c: ThemeColors) -> bool {
    let panel = color_or(panel_text(e), (0x31, 0x32, 0x44));
    &&& c.mode == mode_of(e)
    &&& rgb_view(c.accent_rgb) == color_or(accent_text(e), (0x89, 0xb4, 0xfa))
    &&& rgb_view(c.background) == color_or(background_text(e), (0x1e, 0x1e, 0x2e))
    &&& rgb_view(c.foreground) == color_or(foreground_text(e), (0xcd, 0xd6, 0xf4))
    &&& rgb_view(c.panel) == panel
    &&& rgb_view(c.muted) == color_or(muted_text(e), (0x58, 0x5b, 0x70))
    &&& rgb_view(c.red) == color_or(red_text(e), (0xf3, 0x8b, 0xa8))
    &&& rgb_view(c.selection) == color_or(selection_text(e), panel)
}

/// The value of `key` among the entries.
fn entry_get(e: &Vec<(String, Option<String>)>, key: &str) -> (out: Option<String>)
    ensures
        opt_view(out) == toml_get(entries_view(e@), key@),
{
    let ghost ev = entries_view(e@);
    let mut i: usize = 0;
    proof {
        assert(ev.skip(0) =~= ev);
    }
    while i < e.len()
        invariant
            i <= e.len(),
            ev == entries_view(e@),
            toml_get(ev, key@) == toml_get(ev.skip(i as int), key@),
        decreases e.len() - i,
    {
        proof {
            assert(ev.skip(i as int)[0] == (e@[i as int].0@, opt_view(e@[i as int].1)));
            assert(ev.skip(i as int).drop_first() =~= ev.skip(i + 1));
        }
        if str_eq(e[i].0.as_str(), key) {
            return e[i].1.clone();
        }
        i += 1;
    }
    proof {
        assert(ev.skip(e.len() as int).len() == 0);
    }
    None
}

/// The text of a colour, as [`color_text`] says.
fn color_text_of(e: &Vec<(String, Option<String>)>, key: &str, alt: Option<&str>, default: &str) -> (out:
    String)
    ensures
        out@ == color_text(
            entries_view(e@),
            key@,
            match alt {
                Some(a) => Some(a@),
                None => None,
            },
            default@,
        ),
{
    match entry_get(e, key) {
        Some(v) => v,
        None => match alt {
            Some(a) => match entry_get(e, a) {
                Some(v) => v,
                None => default.to_owned(),
            },
            None => default.to_owned(),
        },
    }
}

/// The colour of `text`, or `fallback`.
fn color_or_exec(text: &str, fallback: [u8; 3]) -> (out: [u8; 3])
    requires
        hex_sliceable(text@),
    ensures
        rgb_view(out) == color_or(text@, rgb_view(fallback)),
{
    match parse_hex(text) {
        Some(c) => c,
        None => fallback,
    }
}

impl ThemeColors {
    /// The colours used when a theme gives none.
    pub fn default_colors() -> (out: ThemeColors)
        ensures
            out.mode == ColorScheme::PreferDark,
            rgb_view(out.accent_rgb) == (0x89u8, 0xb4u8, 0xfau8),
            rgb_view(out.background) == (0x1eu8, 0x1eu8, 0x2eu8),
            rgb_view(out.foreground) == (0xcdu8, 0xd6u8, 0xf4u8),
            rgb_view(out.panel) == (0x31u8, 0x32u8, 0x44u8),
            rgb_view(out.muted) == (0x58u8, 0x5bu8, 0x70u8),
            rgb_view(out.red) == (0xf3u8, 0x8bu8, 0xa8u8),
            rgb_view(out.selection) == (0x45u8, 0x47u8, 0x5au8),
    {
        ThemeColors {
            mode: ColorScheme::PreferDark,
            accent_rgb: [0x89, 0xb4, 0xfa],
            background: [0x1e, 0x1e, 0x2e],
            foreground: [0xcd, 0xd6, 0xf4],
            panel: [0x31, 0x32, 0x44],
            muted: [0x58, 0x5b, 0x70],
            red: [0xf3, 0x8b, 0xa8],
            selection: [0x45, 0x47, 0x5a],
        }
    }

    /// Whether every colour of the entries can be read by `parse_hex`.
    pub fn entries_readable(e: &Vec<(String, Option<String>)>) -> (out: bool)
        ensures
            out == colors_sliceable(entries_view(e@)),
    {
        let a = color_text_of(e, "accent", None, "#89b4fa");
        let b = color_text_of(e, "background", None, "#1e1e2e");
        let f = color_text_of(e, "foreground", None, "#cdd6f4");
        let p = color_text_of(e, "lighter_background", Some("panel"), "#313244");
        let m = color_text_of(e, "muted", Some("dark_foreground"), "#585b70");
        let r = color_text_of(e, "red", None, "#f38ba8");
        let s = color_text_of(e, "selection", None, "#45475a");
        hex_input_sliceable(a.as_str()) && hex_input_sliceable(b.as_str()) && hex_input_sliceable(
            f.as_str(),
        ) && hex_input_sliceable(p.as_str()) && hex_input_sliceable(m.as_str())
            && hex_input_sliceable(r.as_str()) && hex_input_sliceable(s.as_str())
    }

    /// The colours of a theme from the entries of its `colors.toml`: each
    /// colour from its key (some have a second key), else its default; a
    /// value that is no colour gives the default too, and the selection then
    /// takes the panel colour.
    pub fn from_entries(e: &Vec<(String, Option<String>)>) -> (out: ThemeColors)
        requires
            colors_sliceable(entries_view(e@)),
        ensures
            colors_spec(entries_view(e@), out),
    {
        let mode_text = match entry_get(e, "mode") {
            Some(v) => v,
            None => match entry_get(e, "color-scheme") {
                Some(v) => v,
                None => String::new(),
            },
        };
        let lower = to_lowercase(mode_text.as_str());
        let mode = if str_eq(lower.as_str(), "light") {
            ColorScheme::PreferLight
        } else {
            ColorScheme::PreferDark
        };
        let a = color_text_of(e, "accent", None, "#89b4fa");
        let b = color_text_of(e, "background", None, "#1e1e2e");
        let f = color_text_of(e, "foreground", None, "#cdd6f4");
        let p = color_text_of(e, "lighter_background", Some("panel"), "#313244");
        let m = color_text_of(e, "muted", Some("dark_foreground"), "#585b70");
        let r = color_text_of(e, "red", None, "#f38ba8");
        let s = color_text_of(e, "selection", None, "#45475a");
        let panel = color_or_exec(p.as_str(), [0x31, 0x32, 0x44]);
        ThemeColors {
            mode,
            accent_rgb: color_or_exec(a.as_str(), [0x89, 0xb4, 0xfa]),
            background: color_or_exec(b.as_str(), [0x1e, 0x1e, 0x2e]),
            foreground: color_or_exec(f.as_str(), [0xcd, 0xd6, 0xf4]),
            panel,
            muted: color_or_exec(m.as_str(), [0x58, 0x5b, 0x70]),
            red: color_or_exec(r.as_str(), [0xf3, 0x8b, 0xa8]),
            selection: color_or_exec(s.as_str(), panel),
        }
    }

    /// The colours of a theme from the text of its `colors.toml`.
    pub fn from_toml(text: &str) -> (out: Result<ThemeColors, ThemeTextError>)
        ensures
            match toml_top_entries(text@) {
                None => out == Err::<ThemeColors, ThemeTextError>(ThemeTextError::NotToml),
                Some(e) => if colors_sliceable(e) {
                    out matches Ok(c) && colors_spec(e, c)
                } else {
                    out == Err::<ThemeColors, ThemeTextError>(ThemeTextError::UnreadableColor)
                },
            },
    {
        let e = match toml_entries(text) {
            Some(e) => e,
            None => return Err(ThemeTextError::NotToml),
        };
        if !Self::entries_readable(&e) {
            return Err(ThemeTextError::UnreadableColor);
        }
        Ok(Self::from_entries(&e))
    }
}

// ---------------------------------------------------------------------------
// GTK settings and the icon theme
// ---------------------------------------------------------------------------
/// The first non-empty value of a `key=value` line among `ls` whose prefix
/// is `prefix`: trimmed, without quotes, trimmed again.
pub open spec fn ini_value_in_lines(ls: Seq<Seq<char>>, prefix: Seq<char>) -> Option<Seq<char>>
    decreases ls.len(),
{
    if ls.len() == 0 {
        None
    } else {
        let l = trim(ls[0]);
        if has_prefix(l, prefix) {
            let v = trim(trim_char(trim(l.subrange(prefix.len() as int, l.len() as int)), '"'));
            if v.len() > 0 {
                Some(v)
            } else {
                ini_value_in_lines(ls.drop_first(), prefix)
            }
        } else {
            ini_value_in_lines(ls.drop_first(), prefix)
        }
    }
}

/// The value of `key` in the first of the settings texts that has one
/// (`None` for a file that could not be read).
pub open spec fn gtk_ini_value_spec(texts: Seq<Option<Seq<char>>>, key: Seq<char>) -> Option<
    Seq<char>,
>
    decreases texts.len(),
{
    if texts.len() == 0 {
        None
    } else {
        let here = match texts[0] {
            Some(t) => ini_value_in_lines(lines(t), key + "="@),
            None => None,
        };
        match here {
            Some(v) => Some(v),
            None => gtk_ini_value_spec(texts.drop_first(), key),
        }
    }
}

pub open spec fn opt_texts(texts: Seq<Option<String>>) -> Seq<Option<Seq<char>>> {
    texts.map_values(|t: Option<String>| opt_view(t))
}

/// The value of `key` in one settings text.
fn ini_value_in(text: &str, prefix: &str) -> (out: Option<String>)
    ensures
        opt_view(out) == ini_value_in_lines(lines(text@), prefix@),
{
    let ls = lines_of(text);
    let ghost lv = ls@.map_values(|l: String| l@);
    let mut i: usize = 0;
    proof {
        assert(lv.skip(0) =~= lv);
    }
    while i < ls.len()
        invariant
            i <= ls.len(),
            lv == ls@.map_values(|l: String| l@),
            lv == lines(text@),
            ini_value_in_lines(lv, prefix@) == ini_value_in_lines(lv.skip(i as int), prefix@),
        decreases ls.len() - i,
    {
        proof {
            assert(lv.skip(i as int)[0] == ls@[i as int]@);
            assert(lv.skip(i as int).drop_first() =~= lv.skip(i + 1));
        }
        let line = trim_str(ls[i].as_str());
        match strip_prefix(line.as_str(), prefix) {
            Some(rest) => {
                let a = trim_str(rest.as_str());
                let b = trim_char_str(a.as_str(), '"');
                let v = trim_str(b.as_str());
                if !v.as_str().is_empty() {
                    return Some(v);
                }
            },
            None => {},
        }
        i += 1;
    }
    proof {
        assert(lv.skip(ls.len() as int).len() == 0);
    }
    None
}

/// The value of `key` in the GTK settings texts, tried in order (`None` for a
/// file that could not be read).
pub fn gtk_ini_value(texts: &Vec<Option<String>>, key: &str) -> (out: Option<String>)
    ensures
        opt_view(out) == gtk_ini_value_spec(opt_texts(texts@), key@),
{
    let ghost tv = opt_texts(texts@);
    let prefix = concat(key, "=");
    let mut i: usize = 0;
    proof {
        assert(tv.skip(0) =~= tv);
    }
    while i < texts.len()
        invariant
            i <= texts.len(),
            tv == opt_texts(texts@),
            prefix@ == key@ + "="@,
            gtk_ini_value_spec(tv, key@) == gtk_ini_value_spec(tv.skip(i as int), key@),
        decreases texts.len() - i,
    {
        proof {
            assert(tv.skip(i as int)[0] == opt_view(texts@[i as int]));
            assert(tv.skip(i as int).drop_first() =~= tv.skip(i + 1));
        }
        match &texts[i] {
            Some(t) => {
                match ini_value_in(t.as_str(), prefix.as_str()) {
                    Some(v) => return Some(v),
                    None => {},
                }
            },
            None => {},
        }
        i += 1;
    }
    proof {
        assert(tv.skip(texts.len() as int).len() == 0);
    }
    None
}

/// The icon theme: the trimmed text of the theme's `icons.theme` when it is
/// not empty, else `gtk-icon-theme-name` from the GTK settings, else
/// `hicolor`.
pub fn icon_theme_name(icons_theme: Option<&str>, gtk_texts: &Vec<Option<String>>) -> (out: String)
    ensures
        out@ == ({
            let from_theme = match icons_theme {
                Some(t) => if trim(t@).len() > 0 {
                    Some(trim(t@))
                } else {
                    None
                },
                None => None,
            };
            match from_theme {
                Some(n) => n,
                None => match gtk_ini_value_spec(opt_texts(gtk_texts@), "gtk-icon-theme-name"@) {
                    Some(n) => n,
                    None => "hicolor"@,
                },
            }
        }),
{
    match icons_theme {
        Some(t) => {
            let name = trim_str(t);
            if !name.as_str().is_empty() {
                return name;
            }
        },
        None => {},
    }
    match gtk_ini_value(gtk_texts, "gtk-icon-theme-name") {
        Some(n) => n,
        None => "hicolor".to_owned(),
    }
}

// ---------------------------------------------------------------------------
// Change stamp
// ---------------------------------------------------------------------------
/// The files whose changes restyle the dialogs.
pub fn appearance_files(theme_dir: &str, config_home: &str) -> (out: Vec<String>)
    ensures
        out@.map_values(|s: String| s@) == seq![
            join_path(theme_dir@, "colors.toml"@),
            join_path(theme_dir@, "icons.theme"@),
            join_path(config_home@, "gtk-4.0/settings.ini"@),
            join_path(config_home@, "gtk-3.0/settings.ini"@),
        ],
{
    let mut out: Vec<String> = Vec::new();
    out.push(path_join(theme_dir, "colors.toml"));
    out.push(path_join(theme_dir, "icons.theme"));
    out.push(path_join(config_home, "gtk-4.0/settings.ini"));
    out.push(path_join(config_home, "gtk-3.0/settings.ini"));
    proof {
        assert(out@.map_values(|s: String| s@) =~= seq![
            join_path(theme_dir@, "colors.toml"@),
            join_path(theme_dir@, "icons.theme"@),
            join_path(config_home@, "gtk-4.0/settings.ini"@),
            join_path(config_home@, "gtk-3.0/settings.ini"@),
        ]);
    }
    out
}

pub open spec fn stamp_prime() -> nat {
    0x100000001b3
}

/// The stamp of the modification times (nanoseconds, 0 for a missing file):
/// an FNV-style fold, modulo 2^64.
pub open spec fn stamp_of(times: Seq<u64>) -> nat
    decreases times.len(),
{
    if times.len() == 0 {
        0
    } else {
        ((stamp_of(times.drop_last()) * stamp_prime() + times.last()) % 0x1_0000_0000_0000_0000) as nat
    }
}

/// The stamp of the appearance files' modification times.
pub fn appearance_stamp(times: &Vec<u64>) -> (out: u64)
    ensures
        out == stamp_of(times@),
{
    let mut stamp: u64 = 0;
    let mut i: usize = 0;
    while i < times.len()
        invariant
            i <= times.len(),
            stamp == stamp_of(times@.take(i as int)),
        decreases times.len() - i,
    {
        let ghost old_stamp = stamp;
        let m = stamp.wrapping_mul(0x100000001b3);
        stamp = m.wrapping_add(times[i]);
        proof {
            assert(times@.take(i + 1).drop_last() =~= times@.take(i as int));
            let big: int = 0x1_0000_0000_0000_0000;
            vstd::arithmetic::div_mod::lemma_add_mod_noop(
                old_stamp * 0x100000001b3,
                times@[i as int] as int,
                big,
            );
            assert((times@[i as int] as int) % big == times@[i as int]);
            assert(((old_stamp * 0x100000001b3) % big) % big == (old_stamp * 0x100000001b3) % big) by {
                vstd::arithmetic::div_mod::lemma_mod_twice(old_stamp * 0x100000001b3, big);
            }
        }
        i += 1;
    }
    proof {
        assert(times@.take(times.len() as int) =~= times@);
    }
    stamp
}

} // verus!
