use vstd::prelude::*;

verus! {

/// A console character attribute: one bit of the attribute word.
#[derive(Clone, Copy, PartialEq, Eq, Structural, Debug)]
pub enum Attributes {
    FGBlue,
    FGGreen,
    FGRed,
    FGIntensity,
    BGBlue,
    BGGreen,
    BGRed,
    BDIntensity,
    CMLVBLeading,
    CMLVBTrailing,
    CMLVBHorizontal,
    CMLVBLVertical,
    CMLVBRVertical,
    CMLVBReverse,
    CMLVBUnderscore,
}

/// The bit of the attribute word that stands for `a`.
pub open spec fn attr_bits(a: Attributes) -> u16 {
    match a {
        Attributes::FGBlue => 1,
        Attributes::FGGreen => 2,
        Attributes::FGRed => 4,
        Attributes::FGIntensity => 8,
        Attributes::BGBlue => 16,
        Attributes::BGGreen => 32,
        Attributes::BGRed => 64,
        Attributes::BDIntensity => 128,
        Attributes::CMLVBLeading => 256,
        Attributes::CMLVBTrailing => 512,
        Attributes::CMLVBHorizontal => 1024,
        Attributes::CMLVBLVertical => 2048,
        Attributes::CMLVBRVertical => 4096,
        Attributes::CMLVBReverse => 16384,
        Attributes::CMLVBUnderscore => 32768,
    }
}

impl Attributes {
    /// The attribute word of `self`.
    pub fn as_attr(&self) -> (r: u16)
        ensures
            r == attr_bits(*self),
    {
        match self {
            Attributes::FGBlue => 1,
            Attributes::FGGreen => 2,
            Attributes::FGRed => 4,
            Attributes::FGIntensity => 8,
            Attributes::BGBlue => 16,
            Attributes::BGGreen => 32,
            Attributes::BGRed => 64,
            Attributes::BDIntensity => 128,
            Attributes::CMLVBLeading => 256,
            Attributes::CMLVBTrailing => 512,
            Attributes::CMLVBHorizontal => 1024,
            Attributes::CMLVBLVertical => 2048,
            Attributes::CMLVBRVertical => 4096,
            Attributes::CMLVBReverse => 16384,
            Attributes::CMLVBUnderscore => 32768,
        }
    }

    /// Whether `self` and `value` share a bit of the attribute word.
    pub fn is_contained(&self, value: Attributes) -> (r: bool)
        ensures
            r == (attr_bits(*self) & attr_bits(value) != 0),
    {
        (self.as_attr() & value.as_attr()) != 0
    }

    /// The colour bits (foreground and background) of `self`.
    pub fn as_color(&self) -> (r: Color)
        ensures
            r.0 == (attr_bits(*self) & 0xff) as u8,
    {
        let a = self.as_attr();
        Color((a & 0xff) as u8)
    }
}

/// Foreground and background colour bits, one per [`Color`] id.
pub struct Color(pub u8);

/// Whether bit `id` of `bits` is set.
pub open spec fn color_bit(bits: u8, id: u8) -> bool {
    bits & (1u8 << id) != 0
}

impl Color {
    pub const ID_FG_BLUE: u8 = 0;
    pub const ID_FG_GREEN: u8 = 1;
    pub const ID_FG_RED: u8 = 2;
    pub const ID_FG_INT: u8 = 3;
    pub const ID_BG_BLUE: u8 = 4;
    pub const ID_BG_GREEN: u8 = 5;
    pub const ID_BG_RED: u8 = 6;
    pub const ID_BG_INT: u8 = 7;

    /// White foreground: the three foreground colour bits.
    pub fn fg_white() -> (r: Color)
        ensures
            r.0 == 7,
    {
        Color(7)
    }

    /// White background: the three background colour bits.
    pub fn bg_white() -> (r: Color)
        ensures
            r.0 == 112,
    {
        Color(112)
    }

    /// No colour bit set.
    pub fn black() -> (r: Color)
        ensures
            r.0 == 0,
    {
        Color(0)
    }

    /// The attribute word of these colours.
    pub fn as_attr(&self) -> (r: u16)
        ensures
            r == self.0 as u16,
    {
        self.0 as u16
    }

    /// Whether colour bit `id` is set.
    pub fn get(&self, id: u8) -> (r: bool)
        requires
            id < 8,
        ensures
            r == color_bit(self.0, id),
    {
        self.0 & (1u8 << id) != 0
    }

    /// Sets colour bit `id` to `value`; the other bits stay.
    pub fn set(&mut self, id: u8, value: bool)
        requires
            id < 8,
        ensures
            color_bit(final(self).0, id) == value,
            forall|j: u8| j < 8 && j != id ==> color_bit(final(self).0, j) == color_bit(old(self).0, j),
    {
        let old_bits = self.0;
        let v: u8 = if value {
            1
        } else {
            0
        };
        let new_bits = (old_bits & !(1u8 << id)) | (v << id);
        assert(new_bits & (1u8 << id) != 0 <==> v == 1) by (bit_vector)
            requires
                new_bits == (old_bits & !(1u8 << id)) | (v << id),
                id < 8,
                v <= 1,
        ;
        assert(forall|j: u8|
            j < 8 && j != id ==> (new_bits & (1u8 << j) != 0 <==> old_bits & (1u8 << j) != 0))
            by (bit_vector)
            requires
                new_bits == (old_bits & !(1u8 << id)) | (v << id),
                id < 8,
                v <= 1,
        ;
        self.0 = new_bits;
    }
}

/// The basic ANSI colours.
pub enum AnsiColor {
    Black,
    Red,
}

} // verus!
