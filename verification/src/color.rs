//! Colors, held as 8-bit channels, and the textual color notation used by
//! the book configuration: `#rgb`, `#rrggbb`, or a small set of names.

use vstd::prelude::*;

verus! {

/// An RGB color with 8-bit channels. The renderer maps each channel onto
/// the unit interval when it draws.
#[derive(Debug, Clone, Copy, PartialEq, Eq, Structural)]
pub struct Color {
    pub r: u8,
    pub g: u8,
    pub b: u8,
}

/// Why a color string was rejected.
#[derive(Debug, Clone, Copy, PartialEq, Eq, Structural)]
pub enum ColorError {
    /// The value was empty.
    Empty,
    /// A `#`-prefixed value was not three or six hex digits.
    BadHex,
    /// The value named no known color.
    UnknownName,
}

/// The numeric value of a hex digit, if `c` is one.
pub open spec fn hex_digit_value(c: char) -> Option<u8> {
    if '0' <= c && c <= '9' {
        Some(((c as u32 - '0' as u32) as u8))
    } else if 'a' <= c && c <= 'f' {
        Some(((c as u32 - 'a' as u32 + 10) as u8))
    } else if 'A' <= c && c <= 'F' {
        Some(((c as u32 - 'A' as u32 + 10) as u8))
    } else {
        None
    }
}

/// ASCII letters fold to lower case; everything else is unchanged.
pub open spec fn ascii_lower(c: char) -> char {
    if 'A' <= c && c <= 'Z' {
        (((c as u32 + 32) as u8) as char)
    } else {
        c
    }
}

impl Color {
    /// The color with the given 8-bit channels.
    pub fn new_u8(r: u8, g: u8, b: u8) -> (c: Color)
        ensures
            c == (Color { r, g, b }),
    {
        Color { r, g, b }
    }
}

/// The value of a hex digit, or `BadHex` for any other character.
pub fn parse_hex_component(ch: char) -> (r: Result<u8, ColorError>)
    ensures
        r == (match hex_digit_value(ch) {
            Some(v) => Result::<u8, ColorError>::Ok(v),
            None => Result::<u8, ColorError>::Err(ColorError::BadHex),
        }),
{
    if '0' <= ch && ch <= '9' {
        Ok((ch as u32 - '0' as u32) as u8)
    } else if 'a' <= ch && ch <= 'f' {
        Ok((ch as u32 - 'a' as u32 + 10) as u8)
    } else if 'A' <= ch && ch <= 'F' {
        Ok((ch as u32 - 'A' as u32 + 10) as u8)
    } else {
        Err(ColorError::BadHex)
    }
}

/// What a `#`-stripped hex body denotes: three digits replicate each digit
/// (`#abc` = `#aabbcc`), six digits pair up, anything else is rejected.
pub open spec fn spec_parse_hex(body: Seq<char>) -> Result<Color, ColorError> {
    if body.len() == 3 {
        match (hex_digit_value(body[0]), hex_digit_value(body[1]), hex_digit_value(body[2])) {
            (Some(r), Some(g), Some(b)) => Ok(
                Color { r: (r * 17) as u8, g: (g * 17) as u8, b: (b * 17) as u8 },
            ),
            _ => Err(ColorError::BadHex),
        }
    } else if body.len() == 6 {
        match (
            hex_digit_value(body[0]),
            hex_digit_value(body[1]),
            hex_digit_value(body[2]),
            hex_digit_value(body[3]),
            hex_digit_value(body[4]),
            hex_digit_value(body[5]),
        ) {
            (Some(r1), Some(r2), Some(g1), Some(g2), Some(b1), Some(b2)) => Ok(
                Color {
                    r: (r1 * 16 + r2) as u8,
                    g: (g1 * 16 + g2) as u8,
                    b: (b1 * 16 + b2) as u8,
                },
            ),
            _ => Err(ColorError::BadHex),
        }
    } else {
        Err(ColorError::BadHex)
    }
}

/// Parses the digits that follow a `#`.
pub fn parse_hex(body: &Vec<char>) -> (r: Result<Color, ColorError>)
    ensures
        r == spec_parse_hex(body@),
{
    if body.len() == 3 {
        let d0 = parse_hex_component(body[0]);
        let d1 = parse_hex_component(body[1]);
        let d2 = parse_hex_component(body[2]);
        match (d0, d1, d2) {
            (Ok(r0), Ok(g0), Ok(b0)) => Ok(Color { r: r0 * 17, g: g0 * 17, b: b0 * 17 }),
            _ => Err(ColorError::BadHex),
        }
    } else if body.len() == 6 {
        let d0 = parse_hex_component(body[0]);
        let d1 = parse_hex_component(body[1]);
        let d2 = parse_hex_component(body[2]);
        let d3 = parse_hex_component(body[3]);
        let d4 = parse_hex_component(body[4]);
        let d5 = parse_hex_component(body[5]);
        match (d0, d1, d2, d3, d4, d5) {
            (Ok(r1), Ok(r2), Ok(g1), Ok(g2), Ok(b1), Ok(b2)) => Ok(
                Color { r: r1 * 16 + r2, g: g1 * 16 + g2, b: b1 * 16 + b2 },
            ),
            _ => Err(ColorError::BadHex),
        }
    } else {
        Err(ColorError::BadHex)
    }
}

/// What a named color denotes, after ASCII lower-casing.
pub open spec fn spec_named_color(low: Seq<char>) -> Option<Color> {
    if low == seq!['b', 'l', 'a', 'c', 'k'] {
        Some(Color { r: 0, g: 0, b: 0 })
    } else if low == seq!['w', 'h', 'i', 't', 'e'] {
        Some(Color { r: 255, g: 255, b: 255 })
    } else if low == seq!['r', 'e', 'd'] {
        Some(Color { r: 255, g: 0, b: 0 })
    } else if low == seq!['b', 'l', 'u', 'e'] {
        Some(Color { r: 0, g: 0, b: 255 })
    } else if low == seq!['g', 'r', 'e', 'e', 'n'] {
        Some(Color { r: 0, g: 128, b: 0 })
    } else if low == seq!['g', 'r', 'a', 'y'] || low == seq!['g', 'r', 'e', 'y'] {
        Some(Color { r: 128, g: 128, b: 128 })
    } else if low == seq!['d', 'a', 'r', 'k', 'g', 'r', 'a', 'y'] || low == seq![
        'd', 'a', 'r', 'k', 'g', 'r', 'e', 'y',
    ] {
        Some(Color { r: 64, g: 64, b: 64 })
    } else if low == seq!['l', 'i', 'g', 'h', 't', 'g', 'r', 'a', 'y'] || low == seq![
        'l', 'i', 'g', 'h', 't', 'g', 'r', 'e', 'y',
    ] {
        Some(Color { r: 200, g: 200, b: 200 })
    } else {
        None
    }
}

/// What a color string denotes: empty is rejected, `#` introduces hex
/// digits, and anything else must be a known name, case-insensitively.
pub open spec fn spec_parse_color(raw: Seq<char>) -> Result<Color, ColorError> {
    let t = crate::chars::spec_trim(raw);
    if t.len() == 0 {
        Err(ColorError::Empty)
    } else if t[0] == '#' {
        spec_parse_hex(t.skip(1))
    } else {
        match spec_named_color(t.map_values(|c: char| ascii_lower(c))) {
            Some(c) => Ok(c),
            None => Err(ColorError::UnknownName),
        }
    }
}

impl Color {
    /// Parses a color value: `#rgb`, `#rrggbb`, or a known name.
    #[verifier::loop_isolation(false)]
    pub fn parse(raw: &Vec<char>) -> (r: Result<Color, ColorError>)
        ensures
            r == spec_parse_color(raw@),
    {
        let t = crate::chars::trim(raw);
        if t.len() == 0 {
            return Err(ColorError::Empty);
        }
        if t[0] == '#' {
            let body = crate::chars::subvec(&t, 1, t.len());
            proof {
                assert(body@ =~= t@.skip(1));
            }
            return parse_hex(&body);
        }
        let ghost fl = |c: char| ascii_lower(c);
        let mut low: Vec<char> = Vec::new();
        let mut i: usize = 0;
        proof {
            assert(low@ =~= t@.subrange(0, 0).map_values(fl));
        }
        while i < t.len()
            invariant
                i <= t@.len(),
                fl == (|c: char| ascii_lower(c)),
                low@ == t@.subrange(0, i as int).map_values(fl),
            decreases t@.len() - i,
        {
            proof {
                assert(t@.subrange(0, i as int + 1) =~= t@.subrange(0, i as int) + seq![
                    t@[i as int],
                ]);
                assert((t@.subrange(0, i as int) + seq![t@[i as int]]).map_values(fl)
                    =~= t@.subrange(0, i as int).map_values(fl) + seq![fl(t@[i as int])]);
            }
            let c = t[i];
            let lc: char = if 'A' <= c && c <= 'Z' {
                (((c as u32) + 32) as u8) as char
            } else {
                c
            };
            low.push(lc);
            proof {
                assert(low@ =~= t@.subrange(0, i as int).map_values(fl) + seq![fl(t@[i as int])]);
            }
            i = i + 1;
        }
        proof {
            assert(t@.subrange(0, t@.len() as int) =~= t@);
        }
        let n = low.len();
        if n == 5 && low[0] == 'b' && low[1] == 'l' && low[2] == 'a' && low[3] == 'c' && low[4]
            == 'k' {
            proof {
                assert(low@ =~= seq!['b', 'l', 'a', 'c', 'k']);
            }
            return Ok(Color { r: 0, g: 0, b: 0 });
        }
        if n == 5 && low[0] == 'w' && low[1] == 'h' && low[2] == 'i' && low[3] == 't' && low[4]
            == 'e' {
            proof {
                assert(low@ =~= seq!['w', 'h', 'i', 't', 'e']);
            }
            return Ok(Color { r: 255, g: 255, b: 255 });
        }
        if n == 3 && low[0] == 'r' && low[1] == 'e' && low[2] == 'd' {
            proof {
                assert(low@ =~= seq!['r', 'e', 'd']);
            }
            return Ok(Color { r: 255, g: 0, b: 0 });
        }
        if n == 4 && low[0] == 'b' && low[1] == 'l' && low[2] == 'u' && low[3] == 'e' {
            proof {
                assert(low@ =~= seq!['b', 'l', 'u', 'e']);
            }
            return Ok(Color { r: 0, g: 0, b: 255 });
        }
        if n == 5 && low[0] == 'g' && low[1] == 'r' && low[2] == 'e' && low[3] == 'e' && low[4]
            == 'n' {
            proof {
                assert(low@ =~= seq!['g', 'r', 'e', 'e', 'n']);
            }
            return Ok(Color { r: 0, g: 128, b: 0 });
        }
        if n == 4 && low[0] == 'g' && low[1] == 'r' && (low[2] == 'a' || low[2] == 'e') && low[3]
            == 'y' {
            proof {
                if low@[2] == 'a' {
                    assert(low@ =~= seq!['g', 'r', 'a', 'y']);
                } else {
                    assert(low@ =~= seq!['g', 'r', 'e', 'y']);
                }
            }
            return Ok(Color { r: 128, g: 128, b: 128 });
        }
        if n == 8 && low[0] == 'd' && low[1] == 'a' && low[2] == 'r' && low[3] == 'k' && low[4]
            == 'g' && low[5] == 'r' && (low[6] == 'a' || low[6] == 'e') && low[7] == 'y' {
            proof {
                if low@[6] == 'a' {
                    assert(low@ =~= seq!['d', 'a', 'r', 'k', 'g', 'r', 'a', 'y']);
                } else {
                    assert(low@ =~= seq!['d', 'a', 'r', 'k', 'g', 'r', 'e', 'y']);
                }
            }
            return Ok(Color { r: 64, g: 64, b: 64 });
        }
        if n == 9 && low[0] == 'l' && low[1] == 'i' && low[2] == 'g' && low[3] == 'h' && low[4]
            == 't' && low[5] == 'g' && low[6] == 'r' && (low[7] == 'a' || low[7] == 'e') && low[8]
            == 'y' {
            proof {
                if low@[7] == 'a' {
                    assert(low@ =~= seq!['l', 'i', 'g', 'h', 't', 'g', 'r', 'a', 'y']);
                } else {
                    assert(low@ =~= seq!['l', 'i', 'g', 'h', 't', 'g', 'r', 'e', 'y']);
                }
            }
            return Ok(Color { r: 200, g: 200, b: 200 });
        }
        Err(ColorError::UnknownName)
    }
}

} // verus!
