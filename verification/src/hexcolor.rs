//! Hex colour strings as the overlay configuration carries them:
//! `#RGB`, `#RGBA`, `#RRGGBB` and `#RRGGBBAA`, case-insensitive.
use vstd::prelude::*;

verus! {

/// An 8-bit-per-channel colour.
#[derive(Clone, Copy, Debug, PartialEq, Eq, Structural)]
pub struct Rgba {
    pub r: u8,
    pub g: u8,
    pub b: u8,
    pub a: u8,
}

/// A hexadecimal digit, upper or lower case.
pub open spec fn is_hex_digit(b: u8) -> bool {
    (('0' as u8) <= b <= ('9' as u8)) || (('a' as u8) <= b <= ('f' as u8)) || (('A' as u8) <= b
        <= ('F' as u8))
}

/// Value of a hexadecimal digit.
pub open spec fn hex_val(b: u8) -> int {
    if ('0' as u8) <= b <= ('9' as u8) {
        b - ('0' as u8)
    } else if ('a' as u8) <= b <= ('f' as u8) {
        b - ('a' as u8) + 10
    } else {
        b - ('A' as u8) + 10
    }
}

/// Value of a two-digit hexadecimal pair.
pub open spec fn hex_pair(hi: u8, lo: u8) -> u8 {
    (16 * hex_val(hi) + hex_val(lo)) as u8
}

/// Value of a shorthand digit, duplicated into both nibbles.
pub open spec fn hex_short(d: u8) -> u8 {
    (17 * hex_val(d)) as u8
}

/// What parsing a hex colour string yields: the four accepted forms, or
/// nothing.
pub open spec fn spec_parse_hex(s: Seq<u8>) -> Option<Rgba> {
    if s.len() >= 1 && s[0] == ('#' as u8) && (forall|i: int|
        1 <= i < s.len() ==> is_hex_digit(#[trigger] s[i]))  {
        if s.len() == 4 {
            Option::Some(
                Rgba { r: hex_short(s[1]), g: hex_short(s[2]), b: hex_short(s[3]), a: 255 },
            )
        } else if s.len() == 5 {
            Option::Some(
                Rgba {
                    r: hex_short(s[1]),
                    g: hex_short(s[2]),
                    b: hex_short(s[3]),
                    a: hex_short(s[4]),
                },
            )
        } else if s.len() == 7 {
            Option::Some(
                Rgba {
                    r: hex_pair(s[1], s[2]),
                    g: hex_pair(s[3], s[4]),
                    b: hex_pair(s[5], s[6]),
                    a: 255,
                },
            )
        } else if s.len() == 9 {
            Option::Some(
                Rgba {
                    r: hex_pair(s[1], s[2]),
                    g: hex_pair(s[3], s[4]),
                    b: hex_pair(s[5], s[6]),
                    a: hex_pair(s[7], s[8]),
                },
            )
        } else {
            Option::None
        }
    } else {
        Option::None
    }
}

/// Reads one hexadecimal digit; `None` on any other byte.
fn hex_digit(b: u8) -> (r: Option<u8>)
    ensures
        match r {
            Option::Some(v) => is_hex_digit(b) && v == hex_val(b),
            Option::None => !is_hex_digit(b),
        },
{
    if b >= ('0' as u8) && b <= ('9' as u8) {
        Option::Some(b - ('0' as u8))
    } else if b >= ('a' as u8) && b <= ('f' as u8) {
        Option::Some(b - ('a' as u8) + 10)
    } else if b >= ('A' as u8) && b <= ('F' as u8) {
        Option::Some(b - ('A' as u8) + 10)
    } else {
        Option::None
    }
}

/// Parses a hex colour string, as the FPS counter and crosshair do with
/// their configured colours.
pub fn parse_hex_color(s: &Vec<u8>) -> (r: Option<Rgba>)
    ensures
        r == spec_parse_hex(s@),
{
    let n = s.len();
    if n == 0 || s[0] != ('#' as u8) {
        return Option::None;
    }
    if !(n == 4 || n == 5 || n == 7 || n == 9) {
        // the digits do not matter for these lengths
        return Option::None;
    }
    let mut digits: Vec<u8> = Vec::new();
    let mut i: usize = 1;
    while i < n
        invariant
            1 <= i <= n,
            n == s@.len(),
            digits@.len() == i - 1,
            forall|j: int| 1 <= j < i ==> is_hex_digit(#[trigger] s@[j]),
            forall|j: int| 0 <= j < i - 1 ==> digits@[j] == hex_val(s@[j + 1]),
        decreases n - i,
    {
        match hex_digit(s[i]) {
            Option::Some(v) => {
                digits.push(v);
            },
            Option::None => {
                return Option::None;
            },
        }
        i += 1;
    }
    if n == 4 {
        Option::Some(
            Rgba { r: 17 * digits[0], g: 17 * digits[1], b: 17 * digits[2], a: 255 },
        )
    } else if n == 5 {
        Option::Some(
            Rgba { r: 17 * digits[0], g: 17 * digits[1], b: 17 * digits[2], a: 17 * digits[3] },
        )
    } else if n == 7 {
        Option::Some(
            Rgba {
                r: 16 * digits[0] + digits[1],
                g: 16 * digits[2] + digits[3],
                b: 16 * digits[4] + digits[5],
                a: 255,
            },
        )
    } else {
        Option::Some(
            Rgba {
                r: 16 * digits[0] + digits[1],
                g: 16 * digits[2] + digits[3],
                b: 16 * digits[4] + digits[5],
                a: 16 * digits[6] + digits[7],
            },
        )
    }
}

/// The configured colour if it parses, the fallback otherwise, as the
/// feature renderers recover from malformed colour strings.
pub fn color_or(s: &Vec<u8>, fallback: Rgba) -> (r: Rgba)
    ensures
        r == match spec_parse_hex(s@) {
            Option::Some(c) => c,
            Option::None => fallback,
        },
{
    match parse_hex_color(s) {
        Option::Some(c) => c,
        Option::None => fallback,
    }
}

} // verus!
