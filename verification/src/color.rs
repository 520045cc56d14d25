//! Colours and their hexadecimal notation.
use vstd::prelude::*;

use crate::text::{
    all_digits, ascii_lower, chars_of, digit_value, digits_value, parse_hex_i32, parse_hex_i32_range,
    unsigned_digits,
};

verus! {

/// An RGBA colour with 8 bits per channel.
#[derive(Clone, Copy, Debug, PartialEq, Eq, Structural)]
pub struct Color {
    pub r: u8,
    pub g: u8,
    pub b: u8,
    pub a: u8,
}

/// Integer division that rounds toward zero, as Rust's `/` does (`b > 0`).
pub open spec fn trunc_div(a: int, b: int) -> int {
    if a >= 0 {
        a / b
    } else {
        -((-a) / b)
    }
}

/// The remainder that goes with `trunc_div`, as Rust's `%` gives it.
pub open spec fn trunc_rem(a: int, b: int) -> int {
    a - b * trunc_div(a, b)
}

/// The low eight bits of `a`, which is what `a as u8` keeps.
pub open spec fn low_byte(a: int) -> u8 {
    (a % 256) as u8
}

/// The colour that raylib's `Color::from_hex` builds from the number it has
/// read: blue is the remainder by `0x100`, green the next remainder, red
/// what is left after dividing by `0x10000`, each cut to eight bits, and
/// alpha is 255.
pub open spec fn color_from_i32(v: int) -> Color {
    let b = trunc_rem(v, 0x100);
    let g = trunc_rem(trunc_div(v - b, 0x100), 0x100);
    let r = trunc_div(v - g, 0x10000);
    Color { r: low_byte(r), g: low_byte(g), b: low_byte(b), a: 255 }
}

/// The colour that raylib's `Color::from_hex` gives for `s`, or `None`
/// where it returns an error.
pub open spec fn hex_color(s: Seq<char>) -> Option<Color> {
    match parse_hex_i32(s) {
        Some(v) => Some(color_from_i32(v as int)),
        None => None,
    }
}

/// The colour `hex_color(s)`, or `fallback` where `s` is no colour.
pub open spec fn hex_color_or(s: Seq<char>, fallback: Color) -> Color {
    match hex_color(s) {
        Some(c) => c,
        None => fallback,
    }
}

/// The upper-case hex digit for `n < 16`.
pub open spec fn hex_digit(n: int) -> char {
    if n < 10 {
        ((n + 0x30) as u32) as char
    } else {
        ((n - 10 + 0x41) as u32) as char
    }
}

/// The six-digit notation `RRGGBB` of a colour's red, green and blue.
pub open spec fn hex_rgb(r: u8, g: u8, b: u8) -> Seq<char> {
    seq![
        hex_digit(r as int / 16),
        hex_digit(r as int % 16),
        hex_digit(g as int / 16),
        hex_digit(g as int % 16),
        hex_digit(b as int / 16),
        hex_digit(b as int % 16),
    ]
}

proof fn lemma_hex_digit_value(n: int)
    requires
        0 <= n < 16,
    ensures
        digit_value(hex_digit(n)) == n,
        hex_digit(n) != '+',
        hex_digit(n) != '-',
{
}

proof fn lemma_byte_from_parts(r: int, g: int, b: int)
    requires
        0 <= r < 256,
        0 <= g < 256,
        0 <= b < 256,
    ensures
        color_from_i32(r * 0x10000 + g * 0x100 + b) == (Color { r: r as u8, g: g as u8, b: b as u8, a: 255 }),
{
    let v = r * 0x10000 + g * 0x100 + b;
    assert(v % 0x100 == b && v / 0x100 == r * 0x100 + g) by (nonlinear_arith)
        requires
            v == r * 0x10000 + g * 0x100 + b,
            0 <= g < 256,
            0 <= b < 256,
    ;
    assert((r * 0x100 + g) % 0x100 == g) by (nonlinear_arith)
        requires
            0 <= g < 256,
    ;
    assert((v - g) / 0x10000 == r) by (nonlinear_arith)
        requires
            v == r * 0x10000 + g * 0x100 + b,
            0 <= r,
            0 <= g < 256,
            0 <= b < 256,
    ;
    assert(v >= 0) by (nonlinear_arith)
        requires
            v == r * 0x10000 + g * 0x100 + b,
            0 <= r,
            0 <= g,
            0 <= b,
    ;
}

proof fn lemma_digits_step(s: Seq<char>, k: int)
    requires
        0 <= k < s.len(),
    ensures
        digits_value(s.take(k + 1), 16) == digits_value(s.take(k), 16) * 16 + digit_value(s[k]),
{
    assert(s.take(k + 1).drop_last() =~= s.take(k));
}

/// Writing a colour as `RRGGBB` and reading it back gives the same opaque
/// colour.
pub proof fn lemma_hex_rgb_roundtrip(r: u8, g: u8, b: u8)
    ensures
        hex_color(hex_rgb(r, g, b)) == Some(Color { r, g, b, a: 255 }),
{
    let s = hex_rgb(r, g, b);
    let d = seq![r as int / 16, r as int % 16, g as int / 16, g as int % 16, b as int / 16, b as int % 16];
    assert forall|i: int| 0 <= i < 6 implies digit_value(#[trigger] s[i]) == d[i] && s[i] != '+' && s[i] != '-' by {
        lemma_hex_digit_value(d[i]);
    }
    assert(unsigned_digits(s, true) == s);
    assert(all_digits(s, 16));
    lemma_digits_step(s, 0);
    lemma_digits_step(s, 1);
    lemma_digits_step(s, 2);
    lemma_digits_step(s, 3);
    lemma_digits_step(s, 4);
    lemma_digits_step(s, 5);
    assert(digits_value(s.take(0), 16) == 0);
    assert(digits_value(s.take(1), 16) == d[0]);
    assert(digits_value(s.take(2), 16) == d[0] * 16 + d[1]);
    assert(digits_value(s.take(3), 16) == (d[0] * 16 + d[1]) * 16 + d[2]);
    assert(digits_value(s.take(4), 16) == ((d[0] * 16 + d[1]) * 16 + d[2]) * 16 + d[3]);
    assert(digits_value(s.take(5), 16) == (((d[0] * 16 + d[1]) * 16 + d[2]) * 16 + d[3]) * 16 + d[4]);
    assert(digits_value(s.take(6), 16) == ((((d[0] * 16 + d[1]) * 16 + d[2]) * 16 + d[3]) * 16 + d[4])
        * 16 + d[5]);
    assert(s.take(6) =~= s);
    let rv = r as int;
    let gv = g as int;
    let bv = b as int;
    assert(((((d[0] * 16 + d[1]) * 16 + d[2]) * 16 + d[3]) * 16 + d[4]) * 16 + d[5] == rv * 0x10000 + gv
        * 0x100 + bv) by (nonlinear_arith)
        requires
            d[0] == rv / 16,
            d[1] == rv % 16,
            d[2] == gv / 16,
            d[3] == gv % 16,
            d[4] == bv / 16,
            d[5] == bv % 16,
            0 <= rv,
            0 <= gv,
            0 <= bv,
    ;
    lemma_byte_from_parts(rv, gv, bv);
}

fn wrap_byte(x: i32) -> (b: u8)
    ensures
        b == low_byte(x as int),
{
    let m = x % 256;
    let m = if m < 0 {
        m + 256
    } else {
        m
    };
    m as u8
}

fn color_from_number(color: i32) -> (c: Color)
    ensures
        c == color_from_i32(color as int),
{
    let b = color % 0x100;
    let g = (color - b) / 0x100 % 0x100;
    let r = (color - g) / 0x10000;
    Color { r: wrap_byte(r), g: wrap_byte(g), b: wrap_byte(b), a: 255 }
}

/// Reads `s[start..end]` as a hexadecimal colour.
pub fn hex_color_range(s: &Vec<char>, start: usize, end: usize) -> (c: Option<Color>)
    requires
        start <= end <= s.len(),
    ensures
        c == hex_color(s@.subrange(start as int, end as int)),
{
    match parse_hex_i32_range(s, start, end) {
        Some(v) => Some(color_from_number(v)),
        None => None,
    }
}

impl Color {
    /// Reads a colour written in hexadecimal, such as `"CB2080"`.
    pub fn from_hex(hex: &str) -> (c: Option<Color>)
        ensures
            c == hex_color(hex@),
    {
        let v = chars_of(hex);
        proof {
            assert(v@.subrange(0, v@.len() as int) =~= v@);
        }
        hex_color_range(&v, 0, v.len())
    }

    /// Opaque black.
    pub fn black() -> (c: Color)
        ensures
            c == (Color { r: 0, g: 0, b: 0, a: 255 }),
    {
        Color { r: 0, g: 0, b: 0, a: 255 }
    }

    /// Opaque white.
    pub fn white() -> (c: Color)
        ensures
            c == (Color { r: 255, g: 255, b: 255, a: 255 }),
    {
        Color { r: 255, g: 255, b: 255, a: 255 }
    }

    /// Fully transparent black.
    pub fn transparent() -> (c: Color)
        ensures
            c == (Color { r: 0, g: 0, b: 0, a: 0 }),
    {
        Color { r: 0, g: 0, b: 0, a: 0 }
    }

    /// The CSS colour turquoise, `#40E0D0`.
    pub fn turquoise() -> (c: Color)
        ensures
            c == (Color { r: 0x40, g: 0xe0, b: 0xd0, a: 255 }),
    {
        Color { r: 0x40, g: 0xe0, b: 0xd0, a: 255 }
    }
}

proof fn lemma_digit_value_lower(c: char)
    ensures
        digit_value(ascii_lower(c)) == digit_value(c),
        ascii_lower(c) == '+' <==> c == '+',
        ascii_lower(c) == '-' <==> c == '-',
{
}

proof fn lemma_digits_value_lower(s: Seq<char>, radix: int)
    ensures
        digits_value(s.map_values(|c: char| ascii_lower(c)), radix) == digits_value(s, radix),
        all_digits(s.map_values(|c: char| ascii_lower(c)), radix) == all_digits(s, radix),
    decreases s.len(),
{
    let t = s.map_values(|c: char| ascii_lower(c));
    assert forall|i: int| 0 <= i < s.len() implies digit_value(#[trigger] t[i]) == digit_value(s[i]) by {
        lemma_digit_value_lower(s[i]);
    }
    if s.len() > 0 {
        assert(t.drop_last() =~= s.drop_last().map_values(|c: char| ascii_lower(c)));
        lemma_digits_value_lower(s.drop_last(), radix);
        lemma_digit_value_lower(s.last());
    }
    if all_digits(t, radix) {
        assert forall|i: int| 0 <= i < s.len() implies digit_value(#[trigger] s[i]) < radix by {
            assert(digit_value(t[i]) < radix);
        }
    }
    if all_digits(s, radix) {
        assert forall|i: int| 0 <= i < t.len() implies digit_value(#[trigger] t[i]) < radix by {
            assert(digit_value(s[i]) < radix);
        }
    }
}

/// Reading a hexadecimal colour does not depend on the case of its letters:
/// lowering every ASCII letter of the text gives the same colour (or the
/// same refusal).
pub proof fn lemma_hex_color_ignores_case(s: Seq<char>)
    ensures
        hex_color(s.map_values(|c: char| ascii_lower(c))) == hex_color(s),
{
    let t = s.map_values(|c: char| ascii_lower(c));
    if s.len() > 0 {
        lemma_digit_value_lower(s[0]);
    }
    let ds = unsigned_digits(s, true);
    let dt = unsigned_digits(t, true);
    if s.len() > 0 && (s[0] == '+' || s[0] == '-') {
        assert(dt =~= ds.map_values(|c: char| ascii_lower(c)));
    } else {
        assert(dt =~= ds.map_values(|c: char| ascii_lower(c)));
    }
    lemma_digits_value_lower(ds, 16);
}

/// Lower-case `rrggbb` notation reads as the same opaque colour as the
/// upper-case one.
pub proof fn lemma_hex_rgb_lower_case(r: u8, g: u8, b: u8)
    ensures
        hex_color(hex_rgb(r, g, b).map_values(|c: char| ascii_lower(c))) == Some(
            Color { r, g, b, a: 255 },
        ),
{
    lemma_hex_color_ignores_case(hex_rgb(r, g, b));
    lemma_hex_rgb_roundtrip(r, g, b);
}

} // verus!
