use vstd::prelude::*;

verus! {

/// The red channel of a packed color: byte 0.
pub open spec fn red_of(p: u32) -> u8 {
    (p % 0x100) as u8
}

/// The green channel of a packed color: byte 1.
pub open spec fn green_of(p: u32) -> u8 {
    ((p / 0x100) % 0x100) as u8
}

/// The blue channel of a packed color: byte 2.
pub open spec fn blue_of(p: u32) -> u8 {
    ((p / 0x10000) % 0x100) as u8
}

/// The alpha channel of a packed color: byte 3.
pub open spec fn alpha_of(p: u32) -> u8 {
    (p / 0x1000000) as u8
}

/// The 32-bit word that holds the four channels, red in the least
/// significant byte and alpha in the most significant one.
pub open spec fn packed_of(r: u8, g: u8, b: u8, a: u8) -> u32 {
    (r as int + g as int * 0x100 + b as int * 0x10000 + a as int * 0x1000000) as u32
}

/// A color with four 8-bit channels that can be packed into one pixel word.
pub trait Color {
    /// The pixel word this color packs into.
    spec fn packed(&self) -> u32;

    fn red(&self) -> (r: u8)
        ensures
            r == red_of(self.packed()),
    ;

    fn green(&self) -> (r: u8)
        ensures
            r == green_of(self.packed()),
    ;

    fn blue(&self) -> (r: u8)
        ensures
            r == blue_of(self.packed()),
    ;

    fn alpha(&self) -> (r: u8)
        ensures
            r == alpha_of(self.packed()),
    ;

    fn pack(&self) -> (r: u32)
        ensures
            r == self.packed(),
    ;
}

/// Packs four channels into a pixel word.
fn pack_channels(r: u8, g: u8, b: u8, a: u8) -> (p: u32)
    ensures
        p == packed_of(r, g, b, a),
        red_of(p) == r,
        green_of(p) == g,
        blue_of(p) == b,
        alpha_of(p) == a,
{
    let p = ((r as u32 & 0xFF) << 0u32) | ((g as u32 & 0xFF) << 8u32) | ((b as u32 & 0xFF) << 16u32)
        | ((a as u32 & 0xFF) << 24u32);
    assert(p == r as u32 + g as u32 * 0x100 + b as u32 * 0x10000 + a as u32 * 0x1000000) by (bit_vector)
        requires
            p == ((r as u32 & 0xFF) << 0u32) | ((g as u32 & 0xFF) << 8u32) | ((b as u32 & 0xFF) << 16u32)
                | ((a as u32 & 0xFF) << 24u32),
    ;
    assert(p % 0x100 == r as u32 && (p / 0x100) % 0x100 == g as u32 && (p / 0x10000) % 0x100
        == b as u32 && p / 0x1000000 == a as u32) by (bit_vector)
        requires
            p == r as u32 + g as u32 * 0x100 + b as u32 * 0x10000 + a as u32 * 0x1000000,
    ;
    p
}

impl Color for u32 {
    open spec fn packed(&self) -> u32 {
        *self
    }

    fn red(&self) -> (r: u8) {
        let v = *self;
        assert((v & 0x000000FF) >> 0u32 == v % 0x100) by (bit_vector);
        ((v & 0x000000FF) >> 0u32) as u8
    }

    fn green(&self) -> (r: u8) {
        let v = *self;
        assert((v & 0x0000FF00) >> 8u32 == (v / 0x100) % 0x100) by (bit_vector);
        ((v & 0x0000FF00) >> 8u32) as u8
    }

    fn blue(&self) -> (r: u8) {
        let v = *self;
        assert((v & 0x00FF0000) >> 16u32 == (v / 0x10000) % 0x100) by (bit_vector);
        ((v & 0x00FF0000) >> 16u32) as u8
    }

    fn alpha(&self) -> (r: u8) {
        let v = *self;
        assert((v & 0xFF000000) >> 24u32 == v / 0x1000000) by (bit_vector);
        ((v & 0xFF000000) >> 24u32) as u8
    }

    fn pack(&self) -> (r: u32) {
        *self
    }
}

/// A color held as four separate 8-bit channels.
#[derive(Debug, Clone, Copy, PartialEq, Eq, Structural)]
pub struct RGBAColor {
    pub red: u8,
    pub green: u8,
    pub blue: u8,
    pub alpha: u8,
}

impl RGBAColor {
    /// An opaque color (alpha 255) from three channels.
    pub fn from_rgb(r: u8, g: u8, b: u8) -> (c: RGBAColor)
        ensures
            c == (RGBAColor { red: r, green: g, blue: b, alpha: 255 }),
    {
        RGBAColor { red: r, green: g, blue: b, alpha: 255 }
    }

    /// A color from all four channels.
    pub fn from_rgba(r: u8, g: u8, b: u8, a: u8) -> (c: RGBAColor)
        ensures
            c == (RGBAColor { red: r, green: g, blue: b, alpha: a }),
    {
        RGBAColor { red: r, green: g, blue: b, alpha: a }
    }
}

impl From<u32> for RGBAColor {
    /// Splits a pixel word into its four channels.
    fn from(p: u32) -> (c: RGBAColor) {
        RGBAColor { red: p.red(), green: p.green(), blue: p.blue(), alpha: p.alpha() }
    }
}

impl vstd::std_specs::convert::FromSpecImpl<u32> for RGBAColor {
    open spec fn obeys_from_spec() -> bool {
        true
    }

    open spec fn from_spec(p: u32) -> RGBAColor {
        RGBAColor { red: red_of(p), green: green_of(p), blue: blue_of(p), alpha: alpha_of(p) }
    }
}

impl From<RGBAColor> for u32 {
    /// Packs the four channels into a pixel word.
    fn from(c: RGBAColor) -> (p: u32) {
        c.pack()
    }
}

impl vstd::std_specs::convert::FromSpecImpl<RGBAColor> for u32 {
    open spec fn obeys_from_spec() -> bool {
        true
    }

    open spec fn from_spec(c: RGBAColor) -> u32 {
        packed_of(c.red, c.green, c.blue, c.alpha)
    }
}

impl Color for RGBAColor {
    open spec fn packed(&self) -> u32 {
        packed_of(self.red, self.green, self.blue, self.alpha)
    }

    fn red(&self) -> (r: u8) {
        proof { lemma_unpack_packed(self.red, self.green, self.blue, self.alpha); }
        self.red
    }

    fn green(&self) -> (r: u8) {
        proof { lemma_unpack_packed(self.red, self.green, self.blue, self.alpha); }
        self.green
    }

    fn blue(&self) -> (r: u8) {
        proof { lemma_unpack_packed(self.red, self.green, self.blue, self.alpha); }
        self.blue
    }

    fn alpha(&self) -> (r: u8) {
        proof { lemma_unpack_packed(self.red, self.green, self.blue, self.alpha); }
        self.alpha
    }

    fn pack(&self) -> (r: u32) {
        pack_channels(self.red, self.green, self.blue, self.alpha)
    }
}

/// Packing four channels into a pixel word and reading the channels back
/// gives back the same four channels.
pub proof fn lemma_unpack_packed(r: u8, g: u8, b: u8, a: u8)
    ensures
        red_of(packed_of(r, g, b, a)) == r,
        green_of(packed_of(r, g, b, a)) == g,
        blue_of(packed_of(r, g, b, a)) == b,
        alpha_of(packed_of(r, g, b, a)) == a,
{
    let p = packed_of(r, g, b, a);
    let (r32, g32, b32, a32) = (r as u32, g as u32, b as u32, a as u32);
    assert(r32 < 0x100 && g32 < 0x100 && b32 < 0x100 && a32 < 0x100);
    assert(p == r32 + g32 * 0x100 + b32 * 0x10000 + a32 * 0x1000000);
    assert(p % 0x100 == r32 && (p / 0x100) % 0x100 == g32 && (p / 0x10000) % 0x100 == b32 && p
        / 0x1000000 == a32) by (bit_vector)
        requires
            r32 < 0x100 && g32 < 0x100 && b32 < 0x100 && a32 < 0x100,
            p == r32 + g32 * 0x100 + b32 * 0x10000 + a32 * 0x1000000,
    ;
}

/// Reading the four channels of a pixel word and packing them again gives
/// the same word.
pub proof fn lemma_pack_unpacked(p: u32)
    ensures
        packed_of(red_of(p), green_of(p), blue_of(p), alpha_of(p)) == p,
{
    assert(p == p % 0x100 + ((p / 0x100) % 0x100) * 0x100 + ((p / 0x10000) % 0x100) * 0x10000 + (p
        / 0x1000000) * 0x1000000) by (bit_vector);
}

} // verus!
