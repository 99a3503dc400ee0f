//! Compact icons that stand for a profile: an angle, a palette colour and a shade.

use vstd::prelude::*;

verus! {

/// Number of colours in the palette.
pub const PALETTE_LEN: u8 = 25;

/// Number of distinct angles: the icon turns in steps of 45 degrees.
pub const ANGLE_STEPS: u8 = 8;

/// A colour as red, green and blue.
#[derive(Copy, Clone, PartialEq, Eq, Hash, Debug, Structural)]
pub struct Rgb {
    pub r: u8,
    pub g: u8,
    pub b: u8,
}

#[derive(Copy, Clone, PartialEq, Eq, Hash, Debug, Structural)]
pub struct IconSpec {
    /// 0 starts horizontal, colour at top, rotating at 45 degree increments.
    pub angle: u8,
    /// Index into the palette.
    pub color: u8,
    /// Darkest, dim, lighter, light.
    pub shade: u8,
}

/// Byte `k` of the little-endian representation of `v`.
pub open spec fn le_byte(v: u32, k: nat) -> u8
    recommends
        k < 4,
{
    if k == 0 {
        (v % 0x100) as u8
    } else if k == 1 {
        (v / 0x100 % 0x100) as u8
    } else if k == 2 {
        (v / 0x1_0000 % 0x100) as u8
    } else {
        (v / 0x100_0000 % 0x100) as u8
    }
}

/// Whether palette colour `c` is easily taken for the colour after it.
pub open spec fn mistakable_for_next(c: int) -> bool {
    c == 1 || c == 2 || c == 4 || c == 5 || c == 6 || c == 9 || c == 11 || c == 12 || c == 14
        || c == 16 || c == 17 || c == 19 || c == 20 || c == 21 || c == 23 || c == 24
}

/// Whether angle `b` is one 45 degree step after angle `a`.
pub open spec fn angle_follows(a: int, b: int) -> bool {
    (a + 1) % (ANGLE_STEPS as int) == b
}

/// Whether two palette indices are the same colour, or neighbours of which the
/// lower is marked as mistakable for the next.
pub open spec fn colors_close(c1: int, c2: int) -> bool {
    let lo = if c1 <= c2 { c1 } else { c2 };
    let hi = if c1 <= c2 { c2 } else { c1 };
    lo == hi || ((lo + 1) % (PALETTE_LEN as int) == hi && mistakable_for_next(lo))
}

/// The palette, chosen to read well against a dark background.
pub open spec fn palette(i: int) -> Rgb {
    if i == 0 { Rgb { r: 0xb5, g: 0x58, b: 0x68 } }
    else if i == 1 { Rgb { r: 0xb5, g: 0x58, b: 0x58 } }
    else if i == 2 { Rgb { r: 0xb6, g: 0x67, b: 0x57 } }
    else if i == 3 { Rgb { r: 0xb7, g: 0x7d, b: 0x55 } }
    else if i == 4 { Rgb { r: 0xb8, g: 0x91, b: 0x54 } }
    else if i == 5 { Rgb { r: 0xb7, g: 0x9a, b: 0x55 } }
    else if i == 6 { Rgb { r: 0xb7, g: 0xa7, b: 0x55 } }
    else if i == 7 { Rgb { r: 0xb7, g: 0xb7, b: 0x55 } }
    else if i == 8 { Rgb { r: 0x9b, g: 0xb7, b: 0x55 } }
    else if i == 9 { Rgb { r: 0x7d, g: 0xb7, b: 0x55 } }
    else if i == 10 { Rgb { r: 0x57, g: 0xc0, b: 0x6b } }
    else if i == 11 { Rgb { r: 0x54, g: 0xb8, b: 0x8a } }
    else if i == 12 { Rgb { r: 0x58, g: 0xb5, b: 0x9b } }
    else if i == 13 { Rgb { r: 0x58, g: 0xb5, b: 0xaf } }
    else if i == 14 { Rgb { r: 0x5c, g: 0x9f, b: 0xbf } }
    else if i == 15 { Rgb { r: 0x59, g: 0x98, b: 0xd4 } }
    else if i == 16 { Rgb { r: 0x56, g: 0x7e, b: 0xd0 } }
    else if i == 17 { Rgb { r: 0x5a, g: 0x6e, b: 0xdd } }
    else if i == 18 { Rgb { r: 0x60, g: 0x61, b: 0xdf } }
    else if i == 19 { Rgb { r: 0x7f, g: 0x65, b: 0xc2 } }
    else if i == 20 { Rgb { r: 0x96, g: 0x62, b: 0xc0 } }
    else if i == 21 { Rgb { r: 0xac, g: 0x5e, b: 0xc9 } }
    else if i == 22 { Rgb { r: 0xbe, g: 0x62, b: 0xc1 } }
    else if i == 23 { Rgb { r: 0xb5, g: 0x58, b: 0x96 } }
    else { Rgb { r: 0xb5, g: 0x58, b: 0x7c } }
}

impl IconSpec {
    /// Unpacks an icon from the three low bytes of `v`: angle, colour, shade.
    /// No number is refused: the fields are not held to what can be drawn.
    pub fn new(v: u32) -> (r: Result<IconSpec, IconError>)
        ensures
            r == Ok::<IconSpec, IconError>(
                IconSpec { angle: le_byte(v, 0), color: le_byte(v, 1), shade: le_byte(v, 2) },
            ),
    {
        let angle: u8 = (v % 256) as u8;
        let color: u8 = ((v / 256) % 256) as u8;
        let shade: u8 = ((v / 65536) % 256) as u8;
        Ok(IconSpec { angle, color, shade })
    }

    /// The palette colour of this icon.
    pub fn color(&self) -> (c: Rgb)
        requires
            self.color < PALETTE_LEN,
        ensures
            c == palette(self.color as int),
    {
        palette_entry(self.color)
    }

    /// Whether the two icons could be taken for one another: their angles are
    /// one step apart and their colours are close. Any byte is taken as an
    /// angle or a colour; the step from an angle is counted modulo 8.
    pub fn similar(&self, other: &IconSpec) -> (b: bool)
        ensures
            b == ((angle_follows(self.angle as int, other.angle as int) || angle_follows(
                other.angle as int,
                self.angle as int,
            )) && colors_close(self.color as int, other.color as int)),
    {
        let a1: u16 = self.angle as u16;
        let a2: u16 = other.angle as u16;
        let steps: u16 = ANGLE_STEPS as u16;
        if !((a1 + 1) % steps == a2 || (a2 + 1) % steps == a1) {
            return false;
        }
        let lo: u8 = if self.color <= other.color { self.color } else { other.color };
        let hi: u8 = if self.color <= other.color { other.color } else { self.color };
        lo == hi || ((lo as u16 + 1) % (PALETTE_LEN as u16) == hi as u16 && is_mistakable_for_next(lo))
    }
}

/// Reason for which a number does not describe an icon. No function gives it
/// so far.
#[derive(Copy, Clone, PartialEq, Eq, Debug, Structural)]
pub enum IconError {
    /// A field is outside the range that can be drawn.
    OutOfRange,
}

/// Executable form of [`mistakable_for_next`].
pub fn is_mistakable_for_next(c: u8) -> (b: bool)
    ensures
        b == mistakable_for_next(c as int),
{
    match c {
        1 | 2 | 4 | 5 | 6 | 9 | 11 | 12 | 14 | 16 | 17 | 19 | 20 | 21 | 23 | 24 => true,
        _ => false,
    }
}

/// Executable form of [`palette`].
pub fn palette_entry(i: u8) -> (c: Rgb)
    requires
        i < PALETTE_LEN,
    ensures
        c == palette(i as int),
{
    match i {
        0 => Rgb { r: 0xb5, g: 0x58, b: 0x68 },
        1 => Rgb { r: 0xb5, g: 0x58, b: 0x58 },
        2 => Rgb { r: 0xb6, g: 0x67, b: 0x57 },
        3 => Rgb { r: 0xb7, g: 0x7d, b: 0x55 },
        4 => Rgb { r: 0xb8, g: 0x91, b: 0x54 },
        5 => Rgb { r: 0xb7, g: 0x9a, b: 0x55 },
        6 => Rgb { r: 0xb7, g: 0xa7, b: 0x55 },
        7 => Rgb { r: 0xb7, g: 0xb7, b: 0x55 },
        8 => Rgb { r: 0x9b, g: 0xb7, b: 0x55 },
        9 => Rgb { r: 0x7d, g: 0xb7, b: 0x55 },
        10 => Rgb { r: 0x57, g: 0xc0, b: 0x6b },
        11 => Rgb { r: 0x54, g: 0xb8, b: 0x8a },
        12 => Rgb { r: 0x58, g: 0xb5, b: 0x9b },
        13 => Rgb { r: 0x58, g: 0xb5, b: 0xaf },
        14 => Rgb { r: 0x5c, g: 0x9f, b: 0xbf },
        15 => Rgb { r: 0x59, g: 0x98, b: 0xd4 },
        16 => Rgb { r: 0x56, g: 0x7e, b: 0xd0 },
        17 => Rgb { r: 0x5a, g: 0x6e, b: 0xdd },
        18 => Rgb { r: 0x60, g: 0x61, b: 0xdf },
        19 => Rgb { r: 0x7f, g: 0x65, b: 0xc2 },
        20 => Rgb { r: 0x96, g: 0x62, b: 0xc0 },
        21 => Rgb { r: 0xac, g: 0x5e, b: 0xc9 },
        22 => Rgb { r: 0xbe, g: 0x62, b: 0xc1 },
        23 => Rgb { r: 0xb5, g: 0x58, b: 0x96 },
        _ => Rgb { r: 0xb5, g: 0x58, b: 0x7c },
    }
}

} // verus!
