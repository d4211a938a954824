//! The sixteen palette entries and the attribute byte built from them.
use vstd::prelude::*;

verus! {

/// One of the sixteen entries of the text-mode palette.
#[derive(Clone, Copy, Debug, PartialEq, Eq, Structural)]
pub enum Color {
    Black,
    Blue,
    Green,
    Cyan,
    Red,
    Magenta,
    Brown,
    LightGray,
    DarkGray,
    LightBlue,
    LightGreen,
    LightCyan,
    LightRed,
    Pink,
    Yellow,
    White,
}

impl Color {
    /// The 4-bit hardware code of this entry.
    pub open spec fn value(self) -> u8 {
        match self {
            Color::Black => 0,
            Color::Blue => 1,
            Color::Green => 2,
            Color::Cyan => 3,
            Color::Red => 4,
            Color::Magenta => 5,
            Color::Brown => 6,
            Color::LightGray => 7,
            Color::DarkGray => 8,
            Color::LightBlue => 9,
            Color::LightGreen => 10,
            Color::LightCyan => 11,
            Color::LightRed => 12,
            Color::Pink => 13,
            Color::Yellow => 14,
            Color::White => 15,
        }
    }

    /// The 4-bit hardware code of this entry.
    pub fn as_u8(self) -> (r: u8)
        ensures
            r == self.value(),
            r <= 15,
    {
        match self {
            Color::Black => 0,
            Color::Blue => 1,
            Color::Green => 2,
            Color::Cyan => 3,
            Color::Red => 4,
            Color::Magenta => 5,
            Color::Brown => 6,
            Color::LightGray => 7,
            Color::DarkGray => 8,
            Color::LightBlue => 9,
            Color::LightGreen => 10,
            Color::LightCyan => 11,
            Color::LightRed => 12,
            Color::Pink => 13,
            Color::Yellow => 14,
            Color::White => 15,
        }
    }
}

/// An attribute byte: background code in the high nibble, foreground code
/// in the low nibble; bit 7 doubles as the blink flag.
#[derive(Clone, Copy, Debug, PartialEq, Eq, Structural)]
pub struct ColorCode(pub u8);

impl ColorCode {
    /// Packs a foreground and a background color into one attribute byte.
    pub fn new(foreground: Color, background: Color) -> (r: ColorCode)
        ensures
            r.0 as int == 16 * background.value() + foreground.value(),
    {
        let f = foreground.as_u8();
        let b = background.as_u8();
        assert((b << 4u8) | f == 16 * b + f) by (bit_vector)
            requires
                b <= 15,
                f <= 15,
        ;
        ColorCode((b << 4) | f)
    }

    /// The same attribute with the blink bit (bit 7) set. On hardware this
    /// bit overlaps the top bit of the background code.
    pub fn blinking(&mut self) -> (r: ColorCode)
        ensures
            r.0 == old(self).0 | 0x80u8,
            *final(self) == *old(self),
    {
        let x = self.0;
        assert(x | (1u8 << 7u8) == x | 0x80u8) by (bit_vector);
        ColorCode(x | 1 << 7)
    }

    /// The attribute byte itself.
    pub fn byte(&self) -> (r: u8)
        ensures
            r == self.0,
    {
        self.0
    }
}

} // verus!
