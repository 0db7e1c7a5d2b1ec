//! Dimension values.
//!
//! A dimension is a pixel count, a percentage, a flex factor, or
//! automatic sizing. In the document format dimensions travel as plain
//! strings (`"100px"`, `"50%"`, `"auto"`, `"1fr"`); this module formats
//! dimensions into that shape and parses them back. Parsing is
//! deliberately lenient: a string that fits no known shape falls back
//! to the automatic dimension instead of failing, a policy confined to
//! this scalar converter and never applied to the document schema.

use vstd::prelude::*;
use crate::num::{append_dec, parse_u32, spec_dec, sp_parse_u32, lemma_parse_dec_inversion,
    lemma_spec_dec_digits, is_digit};
use crate::strutil::{push_char, str_to_chars};

verus! {

/// A dimension value. Magnitudes are whole numbers.
#[derive(Debug, Clone, Copy, PartialEq, Eq, Structural)]
pub enum Dimension {
    /// A pixel count, rendered `"<n>px"`.
    Px(u32),
    /// A percentage, rendered `"<n>%"`.
    Percent(u32),
    /// Automatic sizing, rendered `"auto"`.
    Auto,
    /// A flex factor, rendered `"<n>fr"`.
    Flex(u32),
}

/// The string rendering of a dimension.
pub open spec fn spec_dim_display(d: Dimension) -> Seq<char> {
    match d {
        Dimension::Px(v) => spec_dec(v as nat) + "px"@,
        Dimension::Percent(v) => spec_dec(v as nat) + "%"@,
        Dimension::Auto => "auto"@,
        Dimension::Flex(v) => spec_dec(v as nat) + "fr"@,
    }
}

/// Does the string end in the given suffix?
pub open spec fn ends_with(s: Seq<char>, suf: Seq<char>) -> bool {
    s.len() >= suf.len() && s.subrange(s.len() - suf.len(), s.len() as int) == suf
}

/// The whole string read as an unsigned decimal number.
pub open spec fn full_u32(s: Seq<char>) -> Option<u32> {
    match sp_parse_u32(s, 0) {
        Some((v, j)) => if j == s.len() {
            Some(v)
        } else {
            None
        },
        None => None,
    }
}

/// The dimension a string stands for: `"auto"`, a number with the
/// suffix `px`, `%` or `fr`; anything else falls back to `Auto`.
pub open spec fn spec_dim_from(s: Seq<char>) -> Dimension {
    if s == "auto"@ {
        Dimension::Auto
    } else if ends_with(s, "px"@) && full_u32(s.subrange(0, s.len() - 2)) is Some {
        Dimension::Px(full_u32(s.subrange(0, s.len() - 2))->0)
    } else if ends_with(s, "%"@) && full_u32(s.subrange(0, s.len() - 1)) is Some {
        Dimension::Percent(full_u32(s.subrange(0, s.len() - 1))->0)
    } else if ends_with(s, "fr"@) && full_u32(s.subrange(0, s.len() - 2)) is Some {
        Dimension::Flex(full_u32(s.subrange(0, s.len() - 2))->0)
    } else {
        Dimension::Auto
    }
}

/// The whole character vector read as a number.
fn full_u32_of(t: &Vec<char>) -> (r: Option<u32>)
    ensures
        r == full_u32(t@),
{
    match parse_u32(t, 0) {
        Some((v, j)) => if j == t.len() {
            Some(v)
        } else {
            None
        },
        None => None,
    }
}

/// Copies the character range `[a, b)`.
fn chars_range(t: &Vec<char>, a: usize, b: usize) -> (r: Vec<char>)
    requires
        a <= b <= t@.len(),
    ensures
        r@ == t@.subrange(a as int, b as int),
{
    let mut r: Vec<char> = Vec::new();
    let mut i: usize = a;
    while i < b
        invariant
            a <= i <= b <= t@.len(),
            r@ == t@.subrange(a as int, i as int),
        decreases b - i,
    {
        r.push(t[i]);
        i = i + 1;
        proof {
            assert(r@ =~= t@.subrange(a as int, i as int));
        }
    }
    r
}

impl Dimension {
    /// A pixel dimension.
    pub fn px(value: u32) -> (d: Self)
        ensures
            d == Dimension::Px(value),
    {
        Dimension::Px(value)
    }

    /// A percentage dimension.
    pub fn percent(value: u32) -> (d: Self)
        ensures
            d == Dimension::Percent(value),
    {
        Dimension::Percent(value)
    }

    /// The automatic dimension.
    pub fn auto() -> (d: Self)
        ensures
            d == Dimension::Auto,
    {
        Dimension::Auto
    }

    /// A flex dimension.
    pub fn flex(value: u32) -> (d: Self)
        ensures
            d == Dimension::Flex(value),
    {
        Dimension::Flex(value)
    }

    /// Render the dimension as its string shape.
    pub fn to_display_string(&self) -> (r: String)
        ensures
            r@ == spec_dim_display(*self),
    {
        match self {
            Dimension::Px(v) => {
                let mut s = String::new();
                append_dec(&mut s, *v as u64);
                push_char(&mut s, 'p');
                push_char(&mut s, 'x');
                proof {
                    reveal_strlit("px");
                    assert(s@ =~= spec_dec(*v as nat) + "px"@);
                }
                s
            },
            Dimension::Percent(v) => {
                let mut s = String::new();
                append_dec(&mut s, *v as u64);
                push_char(&mut s, '%');
                proof {
                    reveal_strlit("%");
                    assert(s@ =~= spec_dec(*v as nat) + "%"@);
                }
                s
            },
            Dimension::Auto => {
                let s = String::from_str("auto");
                s
            },
            Dimension::Flex(v) => {
                let mut s = String::new();
                append_dec(&mut s, *v as u64);
                push_char(&mut s, 'f');
                push_char(&mut s, 'r');
                proof {
                    reveal_strlit("fr");
                    assert(s@ =~= spec_dec(*v as nat) + "fr"@);
                }
                s
            },
        }
    }

    /// Parse a dimension string, falling back to `Auto` on anything
    /// unrecognized.
    pub fn parse_str(s: &str) -> (d: Self)
        ensures
            d == spec_dim_from(s@),
    {
        proof {
            reveal_strlit("auto");
            reveal_strlit("px");
            reveal_strlit("%");
            reveal_strlit("fr");
        }
        let owned = s.to_owned();
        if owned.eq(&String::from_str("auto")) {
            return Dimension::Auto;
        }
        let chars = str_to_chars(s);
        let n = chars.len();
        if n >= 2 && chars[n - 2] == 'p' && chars[n - 1] == 'x' {
            proof {
                assert(s@.subrange(s@.len() - 2, s@.len() as int) =~= "px"@);
            }
            let body = chars_range(&chars, 0, n - 2);
            match full_u32_of(&body) {
                Some(v) => {
                    return Dimension::Px(v);
                },
                None => {},
            }
        } else {
            proof {
                if ends_with(s@, "px"@) {
                    assert(s@[s@.len() - 2] == s@.subrange(s@.len() - 2, s@.len() as int)[0]);
                    assert(s@[s@.len() - 1] == s@.subrange(s@.len() - 2, s@.len() as int)[1]);
                    assert(s@[s@.len() - 2] == 'p' && s@[s@.len() - 1] == 'x');
                }
            }
        }
        if n >= 1 && chars[n - 1] == '%' {
            proof {
                assert(s@.subrange(s@.len() - 1, s@.len() as int) =~= "%"@);
            }
            let body = chars_range(&chars, 0, n - 1);
            match full_u32_of(&body) {
                Some(v) => {
                    return Dimension::Percent(v);
                },
                None => {},
            }
        } else {
            proof {
                if ends_with(s@, "%"@) {
                    assert(s@[s@.len() - 1] == s@.subrange(s@.len() - 1, s@.len() as int)[0]);
                    assert(s@[s@.len() - 1] == '%');
                }
            }
        }
        if n >= 2 && chars[n - 2] == 'f' && chars[n - 1] == 'r' {
            proof {
                assert(s@.subrange(s@.len() - 2, s@.len() as int) =~= "fr"@);
            }
            let body = chars_range(&chars, 0, n - 2);
            match full_u32_of(&body) {
                Some(v) => {
                    return Dimension::Flex(v);
                },
                None => {},
            }
        } else {
            proof {
                if ends_with(s@, "fr"@) {
                    assert(s@[s@.len() - 2] == s@.subrange(s@.len() - 2, s@.len() as int)[0]);
                    assert(s@[s@.len() - 1] == s@.subrange(s@.len() - 2, s@.len() as int)[1]);
                    assert(s@[s@.len() - 2] == 'f' && s@[s@.len() - 1] == 'r');
                }
            }
        }
        Dimension::Auto
    }
}

impl<'a> From<&'a str> for Dimension {
    /// Parses the dimension string shape, with the `Auto` fallback.
    fn from(s: &'a str) -> (d: Dimension)
        ensures
            d == spec_dim_from(s@),
    {
        Dimension::parse_str(s)
    }
}

impl<'a> vstd::std_specs::convert::FromSpecImpl<&'a str> for Dimension {
    open spec fn obeys_from_spec() -> bool {
        true
    }

    open spec fn from_spec(s: &'a str) -> Dimension {
        spec_dim_from(s@)
    }
}

/// Dimension strings round-trip: rendering any dimension and parsing
/// the rendering yields the dimension back.
pub proof fn lemma_dimension_round_trip(d: Dimension)
    ensures
        spec_dim_from(spec_dim_display(d)) == d,
{
    reveal_strlit("auto");
    reveal_strlit("px");
    reveal_strlit("%");
    reveal_strlit("fr");
    match d {
        Dimension::Auto => {
        },
        Dimension::Px(v) => {
            let s = spec_dim_display(d);
            let dec = spec_dec(v as nat);
            lemma_spec_dec_digits(v as nat);
            assert(s[0] == dec[0]);
            assert(is_digit(s[0]));
            assert(s != "auto"@);
            assert(s.subrange(s.len() - 2, s.len() as int) =~= "px"@);
            assert(s.subrange(0, s.len() - 2) =~= dec);
            assert(dec.subrange(0, dec.len() as int) =~= dec);
            lemma_parse_dec_inversion(v, dec, 0);
            assert(full_u32(dec) == Some(v));
        },
        Dimension::Percent(v) => {
            let s = spec_dim_display(d);
            let dec = spec_dec(v as nat);
            lemma_spec_dec_digits(v as nat);
            assert(s[s.len() - 1] == '%');
            assert(s != "auto"@);
            assert(!ends_with(s, "px"@)) by {
                if ends_with(s, "px"@) {
                    assert(s.subrange(s.len() - 2, s.len() as int)[1] == 'x');
                }
            }
            assert(s.subrange(s.len() - 1, s.len() as int) =~= "%"@);
            assert(s.subrange(0, s.len() - 1) =~= dec);
            assert(dec.subrange(0, dec.len() as int) =~= dec);
            lemma_parse_dec_inversion(v, dec, 0);
            assert(full_u32(dec) == Some(v));
        },
        Dimension::Flex(v) => {
            let s = spec_dim_display(d);
            let dec = spec_dec(v as nat);
            lemma_spec_dec_digits(v as nat);
            assert(s[s.len() - 1] == 'r');
            assert(s != "auto"@);
            assert(!ends_with(s, "px"@)) by {
                if ends_with(s, "px"@) {
                    assert(s.subrange(s.len() - 2, s.len() as int)[1] == 'x');
                }
            }
            assert(!ends_with(s, "%"@)) by {
                if ends_with(s, "%"@) {
                    assert(s.subrange(s.len() - 1, s.len() as int)[0] == '%');
                }
            }
            assert(s.subrange(s.len() - 2, s.len() as int) =~= "fr"@);
            assert(s.subrange(0, s.len() - 2) =~= dec);
            assert(dec.subrange(0, dec.len() as int) =~= dec);
            lemma_parse_dec_inversion(v, dec, 0);
            assert(full_u32(dec) == Some(v));
        },
    }
}

} // verus!
