//! Colours: the terminal escape codes they produce and how they are written
//! in format strings (names, palette numbers, `#rgb`, `#rrggbb`, `rgb(r,g,b)`).
use vstd::prelude::*;
use crate::text::{
    digit_value, digits_value, chars_eq, chars_of, decimal, ends_with, has_prefix, has_suffix, parse_number, parse_unsigned,
    push_decimal, split, split_chars, starts_with, sub_chars, trim, trim_chars,
};

verus! {

/// A colour: the terminal's own default, a 256-colour palette index, or RGB.
#[derive(Clone, Copy, Debug, PartialEq, Eq, Structural)]
pub enum ColorSpec {
    Default,
    EightBit(u8),
    Rgb(u8, u8, u8),
}

impl Default for ColorSpec {
    fn default() -> (r: Self)
        ensures
            r == ColorSpec::Default,
    {
        ColorSpec::Default
    }
}

/// `ESC [ 38 ; 5 ;` or `ESC [ 48 ; 5 ;`: start of a palette colour (`lead` is '3' or '4').
pub open spec fn palette_lead(lead: char) -> Seq<char> {
    seq!['\x1b', '[', lead, '8', ';', '5', ';']
}

/// `ESC [ 38 ; 2 ;` or `ESC [ 48 ; 2 ;`: start of an RGB colour.
pub open spec fn rgb_lead(lead: char) -> Seq<char> {
    seq!['\x1b', '[', lead, '8', ';', '2', ';']
}

/// The escape sequence that selects colour `c`, for the foreground when
/// `lead` is '3' and for the background when it is '4'; nothing for the default.
pub open spec fn color_code(c: ColorSpec, lead: char) -> Seq<char> {
    match c {
        ColorSpec::Default => Seq::empty(),
        ColorSpec::EightBit(n) => palette_lead(lead) + decimal(n as nat) + seq!['m'],
        ColorSpec::Rgb(r, g, b) => rgb_lead(lead) + decimal(r as nat) + seq![';'] + decimal(
            g as nat,
        ) + seq![';'] + decimal(b as nat) + seq!['m'],
    }
}

fn color_code_exec(c: ColorSpec, lead: char) -> (s: String)
    ensures
        s@ == color_code(c, lead),
{
    let mut s = String::new();
    match c {
        ColorSpec::Default => {},
        ColorSpec::EightBit(n) => {
            s.push('\x1b');
            s.push('[');
            s.push(lead);
            s.push('8');
            s.push(';');
            s.push('5');
            s.push(';');
            push_decimal(&mut s, n as u128);
            s.push('m');
        },
        ColorSpec::Rgb(r, g, b) => {
            s.push('\x1b');
            s.push('[');
            s.push(lead);
            s.push('8');
            s.push(';');
            s.push('2');
            s.push(';');
            push_decimal(&mut s, r as u128);
            s.push(';');
            push_decimal(&mut s, g as u128);
            s.push(';');
            push_decimal(&mut s, b as u128);
            s.push('m');
        },
    }
    assert(s@ =~= color_code(c, lead));
    s
}

impl ColorSpec {
    /// Escape sequence that sets this colour as the foreground.
    pub fn to_ansi_fg(self) -> (s: String)
        ensures
            s@ == color_code(self, '3'),
    {
        color_code_exec(self, '3')
    }

    /// Escape sequence that sets this colour as the background.
    pub fn to_ansi_bg(self) -> (s: String)
        ensures
            s@ == color_code(self, '4'),
    {
        color_code_exec(self, '4')
    }

    /// Whether this is the terminal's default colour.
    pub fn is_default(self) -> (b: bool)
        ensures
            b == (self == ColorSpec::Default),
    {
        match self {
            ColorSpec::Default => true,
            _ => false,
        }
    }
}


// ------------------------------------------------------------ UTF-8 bytes

/// Number of bytes of the UTF-8 encoding of `c`.
pub open spec fn utf8_width(c: char) -> nat {
    let u = c as u32;
    if u < 0x80 {
        1
    } else if u < 0x800 {
        2
    } else if u < 0x10000 {
        3
    } else {
        4
    }
}

/// Number of bytes of the UTF-8 encoding of `s` (what `str::len` returns).
pub open spec fn utf8_len(s: Seq<char>) -> nat
    decreases s.len(),
{
    if s.len() == 0 {
        0
    } else {
        utf8_width(s[0]) + utf8_len(s.drop_first())
    }
}

/// How many characters of `s` make up exactly its first `k` bytes; `None`
/// when byte `k` falls inside a character (slicing there panics).
pub open spec fn chars_in_bytes(s: Seq<char>, k: int) -> Option<int>
    decreases s.len(),
{
    if k == 0 {
        Some(0)
    } else if k < 0 || s.len() == 0 {
        None
    } else {
        match chars_in_bytes(s.drop_first(), k - utf8_width(s[0])) {
            Some(n) => Some(n + 1),
            None => None,
        }
    }
}

/// The characters of `s` between bytes `a` and `b`: the slice `&s[a..b]`,
/// `None` where that slice would panic.
pub open spec fn byte_piece(s: Seq<char>, a: int, b: int) -> Option<Seq<char>> {
    match (chars_in_bytes(s, a), chars_in_bytes(s, b)) {
        (Some(i), Some(j)) => if 0 <= i <= j <= s.len() {
            Some(s.subrange(i, j))
        } else {
            None
        },
        _ => None,
    }
}

fn utf8_width_exec(c: char) -> (w: usize)
    ensures
        w == utf8_width(c),
{
    let u = c as u32;
    if u < 0x80 {
        1
    } else if u < 0x800 {
        2
    } else if u < 0x10000 {
        3
    } else {
        4
    }
}

/// `min(utf8_len(s), cap)`.
fn utf8_len_capped(s: &[char], cap: usize) -> (n: usize)
    ensures
        n as nat == if utf8_len(s@) < cap {
            utf8_len(s@)
        } else {
            cap as nat
        },
{
    let mut i: usize = 0;
    let mut b: usize = 0;
    assert(s@.skip(0) =~= s@);
    while i < s.len()
        invariant
            i <= s@.len(),
            b < cap || (i == 0 && b == 0),
            utf8_len(s@) == b + utf8_len(s@.skip(i as int)),
        decreases s@.len() - i,
    {
        if b >= cap {
            return cap;
        }
        let w = utf8_width_exec(s[i]);
        assert(s@.skip(i as int).drop_first() =~= s@.skip(i + 1));
        if w >= cap - b {
            return cap;
        }
        b = b + w;
        i = i + 1;
    }
    assert(s@.skip(i as int) =~= Seq::<char>::empty());
    if b >= cap {
        return cap;
    }
    b
}

/// The index of the character that starts at byte `k`, if one does.
fn chars_in_bytes_exec(s: &[char], k: usize) -> (r: Option<usize>)
    ensures
        match r {
            Some(n) => chars_in_bytes(s@, k as int) == Some(n as int) && n <= s@.len(),
            None => chars_in_bytes(s@, k as int) is None,
        },
{
    let mut i: usize = 0;
    let mut b: usize = 0;
    assert(s@.skip(0) =~= s@);
    while b < k && i < s.len()
        invariant
            i <= s@.len(),
            b <= k,
            chars_in_bytes(s@, k as int) == match chars_in_bytes(s@.skip(i as int), k - b) {
                Some(n) => Some(n + i),
                None => None::<int>,
            },
        decreases s@.len() - i,
    {
        let w = utf8_width_exec(s[i]);
        assert(s@.skip(i as int).drop_first() =~= s@.skip(i + 1));
        if w > k - b {
            assert(chars_in_bytes(s@.skip(i + 1), k - b - w) is None);
            return None;
        }
        b = b + w;
        i = i + 1;
    }
    if b == k {
        Some(i)
    } else {
        assert(s@.skip(i as int).len() == 0);
        None
    }
}

/// The slice `&s[a..b]` as characters, `None` where it would panic.
fn byte_piece_exec(s: &[char], a: usize, b: usize) -> (r: Option<Vec<char>>)
    ensures
        match r {
            Some(v) => byte_piece(s@, a as int, b as int) == Some(v@),
            None => byte_piece(s@, a as int, b as int) is None,
        },
{
    match (chars_in_bytes_exec(s, a), chars_in_bytes_exec(s, b)) {
        (Some(i), Some(j)) => if i <= j {
            Some(sub_chars(s, i, j))
        } else {
            None
        },
        _ => None,
    }
}

// -------------------------------------------------------------- hex colours

/// Whether slicing the digits of a `#rgb` / `#rrggbb` colour stays on
/// character boundaries (otherwise the parse panics).
pub open spec fn hex_ok(h: Seq<char>) -> bool {
    &&& utf8_len(h) == 3 ==> {
        &&& byte_piece(h, 0, 1) is Some
        &&& byte_piece(h, 1, 2) is Some
        &&& byte_piece(h, 2, 3) is Some
    }
    &&& utf8_len(h) == 6 ==> {
        &&& byte_piece(h, 0, 2) is Some
        &&& byte_piece(h, 2, 4) is Some
        &&& byte_piece(h, 4, 6) is Some
    }
}

/// A hexadecimal byte, as `u8::from_str_radix(_, 16)` reads it.
pub open spec fn hex_byte(p: Seq<char>) -> Option<nat> {
    parse_unsigned(p, 16, 255)
}

/// The colour written as `rgb` (each digit doubled) or `rrggbb` in hexadecimal;
/// the lengths are in bytes, as the slicing of the original string counts them.
pub open spec fn parse_hex(h: Seq<char>) -> Option<(u8, u8, u8)> {
    if utf8_len(h) == 3 {
        match (
            hex_byte(byte_piece(h, 0, 1)->0),
            hex_byte(byte_piece(h, 1, 2)->0),
            hex_byte(byte_piece(h, 2, 3)->0),
        ) {
            (Some(r), Some(g), Some(b)) => Some(((r * 17) as u8, (g * 17) as u8, (b * 17) as u8)),
            _ => None,
        }
    } else if utf8_len(h) == 6 {
        match (
            hex_byte(byte_piece(h, 0, 2)->0),
            hex_byte(byte_piece(h, 2, 4)->0),
            hex_byte(byte_piece(h, 4, 6)->0),
        ) {
            (Some(r), Some(g), Some(b)) => Some((r as u8, g as u8, b as u8)),
            _ => None,
        }
    } else {
        None
    }
}

proof fn lemma_one_digit(p: Seq<char>)
    requires
        utf8_len(p) == 1,
        hex_byte(p) is Some,
    ensures
        hex_byte(p)->0 <= 15,
{
    assert(p.len() >= 1);
    assert(p.drop_first().len() == 0) by {
        if p.drop_first().len() > 0 {
            assert(utf8_len(p.drop_first()) >= 1);
        }
    }
    if p[0] == '+' {
        assert(p.drop_first().len() == 0);
    } else {
        assert(p.drop_last() =~= Seq::<char>::empty());
        assert(digits_value(p.drop_last(), 16) == Some(0nat));
        assert(p.last() == p[0]);
        assert(digits_value(p, 16) == Some(digit_value(p[0], 16)->0));
    }
}

/// Parses the digits of a hex colour: "444444" or "444".
pub fn parse_hex_color(hex: &[char]) -> (r: Option<(u8, u8, u8)>)
    requires
        hex_ok(hex@),
    ensures
        r == parse_hex(hex@),
{
    let n = utf8_len_capped(hex, 7);
    if n == 3 {
        let pr = byte_piece_exec(hex, 0, 1).unwrap();
        let pg = byte_piece_exec(hex, 1, 2).unwrap();
        let pb = byte_piece_exec(hex, 2, 3).unwrap();
        let r = parse_number(&pr, 16, 255);
        let g = parse_number(&pg, 16, 255);
        let b = parse_number(&pb, 16, 255);
        match (r, g, b) {
            (Some(r), Some(g), Some(b)) => {
                proof {
                    lemma_piece_len(hex@, 0, 1);
                    lemma_piece_len(hex@, 1, 2);
                    lemma_piece_len(hex@, 2, 3);
                    lemma_one_digit(pr@);
                    lemma_one_digit(pg@);
                    lemma_one_digit(pb@);
                }
                Some(((r * 17) as u8, (g * 17) as u8, (b * 17) as u8))
            },
            _ => None,
        }
    } else if n == 6 {
        let pr = byte_piece_exec(hex, 0, 2).unwrap();
        let pg = byte_piece_exec(hex, 2, 4).unwrap();
        let pb = byte_piece_exec(hex, 4, 6).unwrap();
        let r = parse_number(&pr, 16, 255);
        let g = parse_number(&pg, 16, 255);
        let b = parse_number(&pb, 16, 255);
        match (r, g, b) {
            (Some(r), Some(g), Some(b)) => Some((r as u8, g as u8, b as u8)),
            _ => None,
        }
    } else {
        None
    }
}

proof fn lemma_chars_in_bytes_prefix(s: Seq<char>, k: int)
    requires
        chars_in_bytes(s, k) is Some,
    ensures
        0 <= chars_in_bytes(s, k)->0 <= s.len(),
        utf8_len(s.take(chars_in_bytes(s, k)->0)) == k,
    decreases s.len(),
{
    if k != 0 {
        lemma_chars_in_bytes_prefix(s.drop_first(), k - utf8_width(s[0]));
        let n = chars_in_bytes(s.drop_first(), k - utf8_width(s[0]))->0;
        assert(s.take(n + 1).drop_first() =~= s.drop_first().take(n));
    } else {
        assert(s.take(0).len() == 0);
    }
}

proof fn lemma_utf8_len_split(s: Seq<char>, i: int)
    requires
        0 <= i <= s.len(),
    ensures
        utf8_len(s) == utf8_len(s.take(i)) + utf8_len(s.skip(i)),
    decreases i,
{
    if i > 0 {
        lemma_utf8_len_split(s.drop_first(), i - 1);
        assert(s.take(i).drop_first() =~= s.drop_first().take(i - 1));
        assert(s.skip(i) =~= s.drop_first().skip(i - 1));
    } else {
        assert(s.skip(0) =~= s);
    }
}

proof fn lemma_piece_len(s: Seq<char>, a: int, b: int)
    requires
        byte_piece(s, a, b) is Some,
    ensures
        utf8_len(byte_piece(s, a, b)->0) == b - a,
{
    let i = chars_in_bytes(s, a)->0;
    let j = chars_in_bytes(s, b)->0;
    lemma_chars_in_bytes_prefix(s, a);
    lemma_chars_in_bytes_prefix(s, b);
    lemma_utf8_len_split(s.take(j), i);
    assert(s.take(j).take(i) =~= s.take(i));
    assert(s.take(j).skip(i) =~= s.subrange(i, j));
}

// ------------------------------------------------------------ rgb(r,g,b)

/// A decimal byte, as `str::parse::<u8>` reads it.
pub open spec fn dec_byte(p: Seq<char>) -> Option<nat> {
    parse_unsigned(p, 10, 255)
}

/// The colour written "r,g,b" (the inside of `rgb(...)`), each part trimmed.
pub open spec fn parse_rgb(inner: Seq<char>) -> Option<(u8, u8, u8)> {
    let parts = split(inner, ',');
    if parts.len() != 3 {
        None
    } else {
        match (dec_byte(trim(parts[0])), dec_byte(trim(parts[1])), dec_byte(trim(parts[2]))) {
            (Some(r), Some(g), Some(b)) => Some((r as u8, g as u8, b as u8)),
            _ => None,
        }
    }
}

/// Parses "r,g,b" into a colour.
pub fn parse_rgb_func(inner: &[char]) -> (r: Option<(u8, u8, u8)>)
    ensures
        r == parse_rgb(inner@),
{
    let parts = split_chars(inner, ',');
    if parts.len() != 3 {
        return None;
    }
    let r = parse_number(&trim_chars(&parts[0]), 10, 255);
    let g = parse_number(&trim_chars(&parts[1]), 10, 255);
    let b = parse_number(&trim_chars(&parts[2]), 10, 255);
    assert(parts@[0]@ == split(inner@, ',')[0]);
    assert(parts@[1]@ == split(inner@, ',')[1]);
    assert(parts@[2]@ == split(inner@, ',')[2]);
    match (r, g, b) {
        (Some(r), Some(g), Some(b)) => Some((r as u8, g as u8, b as u8)),
        _ => None,
    }
}

// ------------------------------------------------------------ colour names

/// Lower-case form of `s` by Unicode rules, as `str::to_lowercase` gives it.
pub uninterp spec fn lowercase(s: Seq<char>) -> Seq<char>;

/// The ASCII lower-case form of a character: `A`–`Z` become `a`–`z`.
pub open spec fn ascii_lower(c: char) -> char {
    if 'A' <= c <= 'Z' {
        ((c as u32) + 32) as char
    } else {
        c
    }
}

/// Whether every character is ASCII.
pub open spec fn ascii_only(s: Seq<char>) -> bool {
    forall|i: int| 0 <= i < s.len() ==> (s[i] as u32) < 0x80
}

/// The ASCII lower-case form of a text.
pub open spec fn ascii_lowered(s: Seq<char>) -> Seq<char> {
    s.map_values(|c: char| ascii_lower(c))
}

/// Calls `str::to_lowercase` (std) on `s`. The contract claims that the
/// result is a function of the characters of `s` ([`lowercase`]) and, for
/// text made only of ASCII characters, that it is the ASCII lower-case form
/// (the Unicode lower-case mapping of those characters); the mapping of other
/// characters is not stated.
#[verifier::external_body]
pub(crate) fn to_lowercase(s: &str) -> (r: String)
    ensures
        r@ == lowercase(s@),
        ascii_only(s@) ==> r@ == ascii_lowered(s@),
{
    s.to_lowercase()
}

/// The colour a (lower-case) name stands for; unknown names give the default.
pub open spec fn named_color(s: Seq<char>) -> ColorSpec {
    if s == "none"@ || s == "default"@ || s == "reset"@ {
        ColorSpec::Default
    } else if s == "accent"@ || s == "primary"@ {
        ColorSpec::EightBit(39)
    } else if s == "secondary"@ {
        ColorSpec::EightBit(75)
    } else if s == "tertiary"@ {
        ColorSpec::EightBit(141)
    } else if s == "muted"@ || s == "quaternary"@ {
        ColorSpec::EightBit(245)
    } else if s == "dim"@ || s == "dimmed"@ {
        ColorSpec::EightBit(240)
    } else if s == "black"@ {
        ColorSpec::EightBit(0)
    } else if s == "red"@ || s == "error"@ || s == "warning"@ {
        ColorSpec::EightBit(196)
    } else if s == "green"@ || s == "success"@ || s == "ok"@ {
        ColorSpec::EightBit(82)
    } else if s == "yellow"@ {
        ColorSpec::EightBit(226)
    } else if s == "blue"@ {
        ColorSpec::EightBit(33)
    } else if s == "magenta"@ {
        ColorSpec::EightBit(201)
    } else if s == "cyan"@ {
        ColorSpec::EightBit(51)
    } else if s == "white"@ {
        ColorSpec::EightBit(15)
    } else if s == "orange"@ {
        ColorSpec::EightBit(208)
    } else if s == "gray"@ || s == "grey"@ {
        ColorSpec::EightBit(244)
    } else if s == "pink"@ {
        ColorSpec::EightBit(213)
    } else if s == "purple"@ {
        ColorSpec::EightBit(135)
    } else {
        ColorSpec::Default
    }
}

/// Whether the characters `s` spell the word `w`.
pub fn is_word(s: &[char], w: &str) -> (r: bool)
    ensures
        r == (s@ == w@),
{
    let wc = chars_of(w);
    chars_eq(s, &wc)
}

/// The colour that the lower-case name `lower` stands for.
pub fn named_color_spec(lower: &str) -> (c: ColorSpec)
    ensures
        c == named_color(lower@),
{
    let s = chars_of(lower);
    if is_word(&s, "none") || is_word(&s, "default") || is_word(&s, "reset") {
        ColorSpec::Default
    } else if is_word(&s, "accent") || is_word(&s, "primary") {
        ColorSpec::EightBit(39)
    } else if is_word(&s, "secondary") {
        ColorSpec::EightBit(75)
    } else if is_word(&s, "tertiary") {
        ColorSpec::EightBit(141)
    } else if is_word(&s, "muted") || is_word(&s, "quaternary") {
        ColorSpec::EightBit(245)
    } else if is_word(&s, "dim") || is_word(&s, "dimmed") {
        ColorSpec::EightBit(240)
    } else if is_word(&s, "black") {
        ColorSpec::EightBit(0)
    } else if is_word(&s, "red") || is_word(&s, "error") || is_word(&s, "warning") {
        ColorSpec::EightBit(196)
    } else if is_word(&s, "green") || is_word(&s, "success") || is_word(&s, "ok") {
        ColorSpec::EightBit(82)
    } else if is_word(&s, "yellow") {
        ColorSpec::EightBit(226)
    } else if is_word(&s, "blue") {
        ColorSpec::EightBit(33)
    } else if is_word(&s, "magenta") {
        ColorSpec::EightBit(201)
    } else if is_word(&s, "cyan") {
        ColorSpec::EightBit(51)
    } else if is_word(&s, "white") {
        ColorSpec::EightBit(15)
    } else if is_word(&s, "orange") {
        ColorSpec::EightBit(208)
    } else if is_word(&s, "gray") || is_word(&s, "grey") {
        ColorSpec::EightBit(244)
    } else if is_word(&s, "pink") {
        ColorSpec::EightBit(213)
    } else if is_word(&s, "purple") {
        ColorSpec::EightBit(135)
    } else {
        ColorSpec::Default
    }
}

// ------------------------------------------------------------ colour specs

/// "rgb(" as characters.
pub open spec fn rgb_open() -> Seq<char> {
    seq!['r', 'g', 'b', '(']
}

/// Whether parsing the colour `name` stays clear of the panic in hex slicing.
pub open spec fn color_ok(name: Seq<char>) -> bool {
    let t = trim(name);
    starts_with(t, seq!['#']) ==> hex_ok(t.drop_first())
}

/// The inside of `rgb(...)` when `t` has that shape.
pub open spec fn rgb_inner(t: Seq<char>) -> Option<Seq<char>> {
    if starts_with(t, rgb_open()) && ends_with(t.skip(4), seq![')']) {
        Some(t.subrange(4, t.len() - 1))
    } else {
        None
    }
}

/// The colour that `name` describes, once the case-insensitive name lookup is
/// done (`lower` is the lower-case form of the trimmed name): `#rgb` /
/// `#rrggbb`, then `rgb(r,g,b)`, then a palette number, then a name.
pub open spec fn parse_color_with(name: Seq<char>, lower: Seq<char>) -> ColorSpec {
    let t = trim(name);
    if starts_with(t, seq!['#']) && parse_hex(t.drop_first()) is Some {
        let (r, g, b) = parse_hex(t.drop_first())->0;
        ColorSpec::Rgb(r, g, b)
    } else if rgb_inner(t) is Some && parse_rgb(rgb_inner(t)->0) is Some {
        let (r, g, b) = parse_rgb(rgb_inner(t)->0)->0;
        ColorSpec::Rgb(r, g, b)
    } else if dec_byte(t) is Some {
        ColorSpec::EightBit(dec_byte(t)->0 as u8)
    } else {
        named_color(lower)
    }
}

/// The colour that `name` describes (see [`parse_color_with`]).
pub open spec fn parse_color(name: Seq<char>) -> ColorSpec {
    parse_color_with(name, lowercase(trim(name)))
}

/// The colour an ASCII name describes: [`parse_color_with`] with the name
/// lower-cased letter by letter.
pub open spec fn parse_ascii_color(name: Seq<char>) -> ColorSpec {
    parse_color_with(name, ascii_lowered(trim(name)))
}

/// Parses a colour: `#444`, `#444444`, `rgb(68,68,68)`, `238` or a name such
/// as "accent" or "red" in any case; anything else is the default colour.
pub fn parse_color_spec(name: &str) -> (c: ColorSpec)
    requires
        color_ok(name@),
    ensures
        c == parse_color(name@),
        ascii_only(trim(name@)) ==> c == parse_ascii_color(name@),
{
    let all = chars_of(name);
    let t = trim_chars(&all);
    proof {
        if t@.len() > 0 {
            assert(t@.take(1) =~= seq![t@[0]]);
            if t@[0] == '#' {
                assert(t@.take(1) =~= seq!['#']);
            }
            if starts_with(t@, seq!['#']) {
                assert(t@.take(1)[0] == '#');
            }
        }
    }
    if t.len() > 0 && t[0] == '#' {
        let hex = sub_chars(&t, 1, t.len());
        assert(hex@ =~= t@.drop_first());
        if let Some((r, g, b)) = parse_hex_color(&hex) {
            return ColorSpec::Rgb(r, g, b);
        }
    }
    assert(!(starts_with(t@, seq!['#']) && parse_hex(t@.drop_first()) is Some));
    let open = vec!['r', 'g', 'b', '('];
    assert(open@ =~= rgb_open());
    let close = vec![')'];
    assert(close@ =~= seq![')']);
    if has_prefix(&t, &open) {
        let rest = sub_chars(&t, 4, t.len());
        assert(rest@ =~= t@.skip(4));
        if has_suffix(&rest, &close) {
            let inner = sub_chars(&t, 4, t.len() - 1);
            assert(inner@ =~= t@.subrange(4, t@.len() - 1));
            assert(rgb_inner(t@) == Some(inner@));
            if let Some((r, g, b)) = parse_rgb_func(&inner) {
                return ColorSpec::Rgb(r, g, b);
            }
        }
    }
    assert(!(rgb_inner(t@) is Some && parse_rgb(rgb_inner(t@)->0) is Some));
    if let Some(n) = parse_number(&t, 10, 255) {
        return ColorSpec::EightBit(n as u8);
    }
    let ts = string_of_chars(&t);
    let lower = to_lowercase(ts.as_str());
    named_color_spec(lower.as_str())
}

fn string_of_chars(v: &Vec<char>) -> (s: String)
    ensures
        s@ == v@,
{
    crate::text::string_of(v.as_slice())
}


/// Whether the hex digits `h` can be sliced without panicking (see [`hex_ok`]).
pub fn hex_is_ok(h: &[char]) -> (b: bool)
    ensures
        b == hex_ok(h@),
{
    let n = utf8_len_capped(h, 7);
    if n == 3 {
        byte_piece_exec(h, 0, 1).is_some() && byte_piece_exec(h, 1, 2).is_some()
            && byte_piece_exec(h, 2, 3).is_some()
    } else if n == 6 {
        byte_piece_exec(h, 0, 2).is_some() && byte_piece_exec(h, 2, 4).is_some()
            && byte_piece_exec(h, 4, 6).is_some()
    } else {
        true
    }
}

/// Whether the colour `name` parses without panicking (see [`color_ok`]).
pub fn color_is_ok(name: &[char]) -> (b: bool)
    ensures
        b == color_ok(name@),
{
    let t = trim_chars(name);
    proof {
        if t@.len() > 0 {
            assert(t@.take(1) =~= seq![t@[0]]);
            if t@[0] == '#' {
                assert(t@.take(1) =~= seq!['#']);
            }
            if starts_with(t@, seq!['#']) {
                assert(t@.take(1)[0] == '#');
            }
        }
    }
    if t.len() > 0 && t[0] == '#' {
        let hex = sub_chars(&t, 1, t.len());
        assert(hex@ =~= t@.drop_first());
        hex_is_ok(&hex)
    } else {
        true
    }
}

} // verus!
