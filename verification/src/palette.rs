//! The fixed 256-entry color palette and lowercase hexadecimal formatting
//! of color values.
//!
//! Indices 0-15 are the standard colors, 16-231 the 6x6x6 color cube, and
//! 232-255 the 24-step grayscale ramp.

use vstd::prelude::*;

verus! {

/// The channel value of a color-cube coordinate (0-5).
pub open spec fn cube_level(v: int) -> int {
    if v == 0 {
        0
    } else {
        40 * v + 55
    }
}

/// The red, green and blue channels of palette entry `i` (0-255).
pub open spec fn palette_rgb(i: int) -> (int, int, int) {
    if i == 0 {
        (0x00, 0x00, 0x00)
    } else if i == 1 {
        (0x80, 0x00, 0x00)
    } else if i == 2 {
        (0x00, 0x80, 0x00)
    } else if i == 3 {
        (0x80, 0x80, 0x00)
    } else if i == 4 {
        (0x00, 0x00, 0x80)
    } else if i == 5 {
        (0x80, 0x00, 0x80)
    } else if i == 6 {
        (0x00, 0x80, 0x80)
    } else if i == 7 {
        (0xc0, 0xc0, 0xc0)
    } else if i == 8 {
        (0x80, 0x80, 0x80)
    } else if i == 9 {
        (0xff, 0x00, 0x00)
    } else if i == 10 {
        (0x00, 0xff, 0x00)
    } else if i == 11 {
        (0xff, 0xff, 0x00)
    } else if i == 12 {
        (0x00, 0x00, 0xff)
    } else if i == 13 {
        (0xff, 0x00, 0xff)
    } else if i == 14 {
        (0x00, 0xff, 0xff)
    } else if i == 15 {
        (0xff, 0xff, 0xff)
    } else if i <= 231 {
        let c = i - 16;
        (cube_level(c / 36), cube_level((c / 6) % 6), cube_level(c % 6))
    } else {
        let g = 8 + 10 * (i - 232);
        (g, g, g)
    }
}

/// The lowercase hexadecimal digit for `n` (0-15).
pub open spec fn hex_char(n: int) -> char {
    if n == 0 {
        '0'
    } else if n == 1 {
        '1'
    } else if n == 2 {
        '2'
    } else if n == 3 {
        '3'
    } else if n == 4 {
        '4'
    } else if n == 5 {
        '5'
    } else if n == 6 {
        '6'
    } else if n == 7 {
        '7'
    } else if n == 8 {
        '8'
    } else if n == 9 {
        '9'
    } else if n == 10 {
        'a'
    } else if n == 11 {
        'b'
    } else if n == 12 {
        'c'
    } else if n == 13 {
        'd'
    } else if n == 14 {
        'e'
    } else {
        'f'
    }
}

/// Two lowercase hexadecimal digits for a byte value.
pub open spec fn hex2(n: int) -> Seq<char> {
    seq![hex_char(n / 16), hex_char(n % 16)]
}

/// Six lowercase hexadecimal digits for an RGB triple, channel order red,
/// green, blue.
pub open spec fn hex6(r: int, g: int, b: int) -> Seq<char> {
    hex2(r) + hex2(g) + hex2(b)
}

/// The six-digit hex form of palette entry `i`.
pub open spec fn palette_hex(i: int) -> Seq<char> {
    hex6(palette_rgb(i).0, palette_rgb(i).1, palette_rgb(i).2)
}

/// The channel value of a color-cube coordinate.
fn cube_level_exec(v: u8) -> (r: u8)
    requires
        v <= 5,
    ensures
        r as int == cube_level(v as int),
{
    if v == 0 {
        0
    } else {
        40 * v + 55
    }
}

/// The red, green and blue channels of palette entry `i`.
pub fn palette_rgb_exec(i: u8) -> (rgb: (u8, u8, u8))
    ensures
        rgb.0 as int == palette_rgb(i as int).0,
        rgb.1 as int == palette_rgb(i as int).1,
        rgb.2 as int == palette_rgb(i as int).2,
{
    if i < 16 {
        let v: (u8, u8, u8) = if i == 0 {
            (0x00, 0x00, 0x00)
        } else if i == 1 {
            (0x80, 0x00, 0x00)
        } else if i == 2 {
            (0x00, 0x80, 0x00)
        } else if i == 3 {
            (0x80, 0x80, 0x00)
        } else if i == 4 {
            (0x00, 0x00, 0x80)
        } else if i == 5 {
            (0x80, 0x00, 0x80)
        } else if i == 6 {
            (0x00, 0x80, 0x80)
        } else if i == 7 {
            (0xc0, 0xc0, 0xc0)
        } else if i == 8 {
            (0x80, 0x80, 0x80)
        } else if i == 9 {
            (0xff, 0x00, 0x00)
        } else if i == 10 {
            (0x00, 0xff, 0x00)
        } else if i == 11 {
            (0xff, 0xff, 0x00)
        } else if i == 12 {
            (0x00, 0x00, 0xff)
        } else if i == 13 {
            (0xff, 0x00, 0xff)
        } else if i == 14 {
            (0x00, 0xff, 0xff)
        } else {
            (0xff, 0xff, 0xff)
        };
        v
    } else if i <= 231 {
        let c = i - 16;
        assert(c / 36 <= 5 && (c / 6) % 6 <= 5 && c % 6 <= 5) by (nonlinear_arith)
            requires
                c <= 215,
        ;
        (cube_level_exec(c / 36), cube_level_exec((c / 6) % 6), cube_level_exec(c % 6))
    } else {
        let g = 8 + 10 * (i - 232);
        (g, g, g)
    }
}

/// The lowercase hexadecimal digit for `n`.
fn hex_char_exec(n: u8) -> (c: char)
    requires
        n < 16,
    ensures
        c == hex_char(n as int),
{
    if n == 0 {
        '0'
    } else if n == 1 {
        '1'
    } else if n == 2 {
        '2'
    } else if n == 3 {
        '3'
    } else if n == 4 {
        '4'
    } else if n == 5 {
        '5'
    } else if n == 6 {
        '6'
    } else if n == 7 {
        '7'
    } else if n == 8 {
        '8'
    } else if n == 9 {
        '9'
    } else if n == 10 {
        'a'
    } else if n == 11 {
        'b'
    } else if n == 12 {
        'c'
    } else if n == 13 {
        'd'
    } else if n == 14 {
        'e'
    } else {
        'f'
    }
}

/// Appends the two hex digits of a byte value.
pub fn push_hex2(out: &mut Vec<char>, n: u8)
    ensures
        final(out)@ == old(out)@ + hex2(n as int),
{
    out.push(hex_char_exec(n / 16));
    out.push(hex_char_exec(n % 16));
    proof {
        assert(out@ =~= old(out)@ + hex2(n as int));
    }
}

/// Appends the six hex digits of an RGB triple.
pub fn push_hex6(out: &mut Vec<char>, r: u8, g: u8, b: u8)
    ensures
        final(out)@ == old(out)@ + hex6(r as int, g as int, b as int),
{
    push_hex2(out, r);
    push_hex2(out, g);
    push_hex2(out, b);
    proof {
        assert(out@ =~= old(out)@ + hex6(r as int, g as int, b as int));
    }
}

} // verus!
