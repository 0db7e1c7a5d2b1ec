//! RGB colors.
//!
//! A color is a 24-bit RGB value. In the document format colors travel as
//! hex strings of the shape `"#rrggbb"`; this module constructs colors
//! from components or hex text and formats them back.

use vstd::prelude::*;
use crate::strutil::push_char;

verus! {

/// An RGB color, stored as a 24-bit value `0xRRGGBB`.
#[derive(Debug, Clone, Copy, PartialEq, Eq, Structural)]
pub struct Color {
    /// Packed value, `red * 0x10000 + green * 0x100 + blue`.
    pub value: u32,
}

/// A color is well formed when it fits in 24 bits.
pub open spec fn color_wf(c: Color) -> bool {
    c.value <= 0xFFFFFF
}

/// The numeric value of one hex digit character, or `None` when the
/// character is not a hex digit.
pub open spec fn spec_hex_digit(c: char) -> Option<nat> {
    if '0' <= c && c <= '9' {
        Some(((c as int) - ('0' as int)) as nat)
    } else if 'a' <= c && c <= 'f' {
        Some(((c as int) - ('a' as int) + 10) as nat)
    } else if 'A' <= c && c <= 'F' {
        Some(((c as int) - ('A' as int) + 10) as nat)
    } else {
        None
    }
}

/// Folds hex digits from the left onto `acc`. `None` when a character is
/// not a hex digit or the value leaves the 32-bit range.
pub open spec fn spec_hex_fold(s: Seq<char>, acc: nat) -> Option<nat>
    decreases s.len(),
{
    if s.len() == 0 {
        Some(acc)
    } else {
        match spec_hex_digit(s[0]) {
            None => None,
            Some(d) => {
                if acc * 16 + d > 0xFFFF_FFFFnat {
                    None
                } else {
                    spec_hex_fold(s.skip(1), acc * 16 + d)
                }
            },
        }
    }
}

/// The value of a whole hex numeral: at least one digit, all digits,
/// within 32 bits.
pub open spec fn spec_hex_value(s: Seq<char>) -> Option<nat> {
    if s.len() == 0 {
        None
    } else {
        spec_hex_fold(s, 0)
    }
}

/// The input with one leading `'#'` removed, if present.
pub open spec fn spec_strip_hash(s: Seq<char>) -> Seq<char> {
    if s.len() > 0 && s[0] == '#' {
        s.skip(1)
    } else {
        s
    }
}

/// The lowercase hex digit character for a value below 16.
pub open spec fn spec_hex_char(d: nat) -> char {
    if d == 0 { '0' }
    else if d == 1 { '1' }
    else if d == 2 { '2' }
    else if d == 3 { '3' }
    else if d == 4 { '4' }
    else if d == 5 { '5' }
    else if d == 6 { '6' }
    else if d == 7 { '7' }
    else if d == 8 { '8' }
    else if d == 9 { '9' }
    else if d == 10 { 'a' }
    else if d == 11 { 'b' }
    else if d == 12 { 'c' }
    else if d == 13 { 'd' }
    else if d == 14 { 'e' }
    else { 'f' }
}

/// Six lowercase hex digits of a 24-bit value, most significant first.
pub open spec fn spec_hex6(v: nat) -> Seq<char> {
    seq![
        spec_hex_char((v / 0x100000) % 16),
        spec_hex_char((v / 0x10000) % 16),
        spec_hex_char((v / 0x1000) % 16),
        spec_hex_char((v / 0x100) % 16),
        spec_hex_char((v / 0x10) % 16),
        spec_hex_char(v % 16),
    ]
}

/// The `"#rrggbb"` rendering of a well-formed color value.
pub open spec fn spec_color_string(v: nat) -> Seq<char> {
    seq!['#'] + spec_hex6(v)
}

pub(crate) fn hex_char(d: u32) -> (r: char)
    requires
        d < 16,
    ensures
        r == spec_hex_char(d as nat),
{
    if d == 0 { '0' }
    else if d == 1 { '1' }
    else if d == 2 { '2' }
    else if d == 3 { '3' }
    else if d == 4 { '4' }
    else if d == 5 { '5' }
    else if d == 6 { '6' }
    else if d == 7 { '7' }
    else if d == 8 { '8' }
    else if d == 9 { '9' }
    else if d == 10 { 'a' }
    else if d == 11 { 'b' }
    else if d == 12 { 'c' }
    else if d == 13 { 'd' }
    else if d == 14 { 'e' }
    else { 'f' }
}

pub(crate) fn hex_digit(c: char) -> (r: Option<u32>)
    ensures
        match r {
            Some(d) => spec_hex_digit(c) == Some(d as nat) && d < 16,
            None => spec_hex_digit(c) is None,
        },
{
    if '0' <= c && c <= '9' {
        Some((c as u32) - ('0' as u32))
    } else if 'a' <= c && c <= 'f' {
        Some((c as u32) - ('a' as u32) + 10)
    } else if 'A' <= c && c <= 'F' {
        Some((c as u32) - ('A' as u32) + 10)
    } else {
        None
    }
}

impl Color {
    /// Pack red, green and blue components into one color.
    pub fn rgb(r: u8, g: u8, b: u8) -> (c: Self)
        ensures
            c.value == (r as nat) * 0x10000 + (g as nat) * 0x100 + (b as nat),
            color_wf(c),
    {
        let value = ((r as u32) * 0x10000) + ((g as u32) * 0x100) + (b as u32);
        Color { value }
    }

    /// Keep the low 24 bits of a packed `0xRRGGBB` value.
    pub fn from_hex(hex: u32) -> (c: Self)
        ensures
            c.value == (hex as nat) % 0x1000000,
            color_wf(c),
    {
        let masked = hex % 0x1000000;
        Color { value: masked }
    }

    /// Parse a hex string of the shape `"#RRGGBB"` or `"RRGGBB"` (any
    /// number of hex digits up to a 32-bit value is accepted; the value
    /// is reduced to 24 bits). `None` when the digits are missing or
    /// malformed or the numeral overflows 32 bits.
    pub fn from_hex_str(s: &str) -> (r: Option<Self>)
        ensures
            match spec_hex_value(spec_strip_hash(s@)) {
                Some(v) => r matches Some(c) && c.value == v % 0x1000000 && color_wf(c),
                None => r is None,
            },
    {
        let chars = crate::strutil::str_to_chars(s);
        let n = chars.len();
        let start: usize = if n > 0 && chars[0] == '#' { 1 } else { 0 };
        let ghost t = spec_strip_hash(s@);
        proof {
            assert(t =~= chars@.skip(start as int));
        }
        if start == n {
            return None;
        }
        let mut acc: u32 = 0;
        let mut i: usize = start;
        while i < n
            invariant
                start <= i <= n,
                start < n,
                n == chars@.len(),
                t == spec_strip_hash(s@),
                t == chars@.skip(start as int),
                spec_hex_fold(t, 0) == spec_hex_fold(chars@.skip(i as int), acc as nat),
            decreases n - i,
        {
            proof {
                assert(chars@.skip(i as int)[0] == chars@[i as int]);
            }
            let d = match hex_digit(chars[i]) {
                Some(d) => d,
                None => {
                    proof {
                        assert(spec_hex_fold(chars@.skip(i as int), acc as nat) is None);
                    }
                    return None;
                },
            };
            if acc > (0xFFFF_FFFFu32 - d) / 16 {
                proof {
                    assert(acc * 16 + d > 0xFFFF_FFFFnat) by (nonlinear_arith)
                        requires acc > (0xFFFF_FFFFu32 - d) / 16 && d < 16;
                    assert(spec_hex_fold(chars@.skip(i as int), acc as nat) is None);
                }
                return None;
            }
            proof {
                assert(acc * 16 + d <= 0xFFFF_FFFFnat) by (nonlinear_arith)
                    requires acc <= (0xFFFF_FFFFu32 - d) / 16 && d < 16;
                assert(chars@.skip(i as int).skip(1) =~= chars@.skip(i as int + 1));
            }
            acc = acc * 16 + d;
            i = i + 1;
        }
        proof {
            assert(chars@.skip(n as int) =~= Seq::<char>::empty());
        }
        Some(Color { value: acc % 0x1000000 })
    }

    /// Red component.
    pub fn r(&self) -> (r: u8)
        ensures
            r == ((self.value as nat) / 0x10000) % 0x100,
    {
        ((self.value / 0x10000) % 0x100) as u8
    }

    /// Green component.
    pub fn g(&self) -> (r: u8)
        ensures
            r == ((self.value as nat) / 0x100) % 0x100,
    {
        ((self.value / 0x100) % 0x100) as u8
    }

    /// Blue component.
    pub fn b(&self) -> (r: u8)
        ensures
            r == (self.value as nat) % 0x100,
    {
        (self.value % 0x100) as u8
    }

    /// Black, `#000000`.
    pub fn black() -> (c: Self)
        ensures
            c.value == 0x000000 && color_wf(c),
    {
        Color { value: 0x000000 }
    }

    /// White, `#ffffff`.
    pub fn white() -> (c: Self)
        ensures
            c.value == 0xFFFFFF && color_wf(c),
    {
        Color { value: 0xFFFFFF }
    }

    /// Pure red, `#ff0000`.
    pub fn red() -> (c: Self)
        ensures
            c.value == 0xFF0000 && color_wf(c),
    {
        Color { value: 0xFF0000 }
    }

    /// Pure green, `#00ff00`.
    pub fn green() -> (c: Self)
        ensures
            c.value == 0x00FF00 && color_wf(c),
    {
        Color { value: 0x00FF00 }
    }

    /// Pure blue, `#0000ff`.
    pub fn blue() -> (c: Self)
        ensures
            c.value == 0x0000FF && color_wf(c),
    {
        Color { value: 0x0000FF }
    }

    /// Transparent renders as black; the alpha channel is not part of
    /// the packed value.
    pub fn transparent() -> (c: Self)
        ensures
            c.value == 0x000000 && color_wf(c),
    {
        Color { value: 0x000000 }
    }

    /// The packed `0xRRGGBB` value.
    pub fn as_hex(&self) -> (r: u32)
        ensures
            r == self.value,
    {
        self.value
    }

    /// Format as `"#rrggbb"`: a hash sign and six lowercase hex digits.
    pub fn to_hex_string(&self) -> (r: String)
        requires
            color_wf(*self),
        ensures
            r@ == spec_color_string(self.value as nat),
    {
        let v = self.value;
        let mut s = String::new();
        push_char(&mut s, '#');
        push_char(&mut s, hex_char((v / 0x100000) % 16));
        push_char(&mut s, hex_char((v / 0x10000) % 16));
        push_char(&mut s, hex_char((v / 0x1000) % 16));
        push_char(&mut s, hex_char((v / 0x100) % 16));
        push_char(&mut s, hex_char((v / 0x10) % 16));
        push_char(&mut s, hex_char(v % 16));
        proof {
            assert(s@ =~= spec_color_string(self.value as nat));
        }
        s
    }
}

} // verus!
