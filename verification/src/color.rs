//! Four-channel colours and their packed 32-bit form.
//!
//! The packed layout is ARGB8888: alpha in bits 24..32, red in bits 16..24, green in
//! bits 8..16 and blue in bits 0..8. The pixel buffer stores this form verbatim.

use vstd::prelude::*;

verus! {

/// An RGBA colour with eight bits per channel.
#[derive(Copy, Clone, Debug, PartialEq, Eq, Structural)]
pub struct Color {
    pub r: u8,
    pub g: u8,
    pub b: u8,
    pub a: u8,
}

impl Color {
    /// The packed value of a colour, as a number: `a * 2^24 + r * 2^16 + g * 2^8 + b`.
    pub open spec fn spec_to_u32(self) -> u32 {
        (self.a as int * 0x100_0000 + self.r as int * 0x1_0000 + self.g as int * 0x100
            + self.b as int) as u32
    }

    /// The colour whose packed value is `p`: each channel is one base-256 digit of `p`.
    pub open spec fn spec_from_u32(p: u32) -> Color {
        Color {
            r: ((p as int / 0x1_0000) % 0x100) as u8,
            g: ((p as int / 0x100) % 0x100) as u8,
            b: (p as int % 0x100) as u8,
            a: (p as int / 0x100_0000) as u8,
        }
    }

    /// Builds a colour from its four channels.
    pub fn rgba(r: u8, g: u8, b: u8, a: u8) -> (c: Self)
        ensures
            c == (Color { r, g, b, a }),
    {
        Self { r, g, b, a }
    }

    /// Packs the colour into ARGB8888.
    #[verifier::when_used_as_spec(spec_to_u32)]
    pub fn to_u32(self) -> (p: u32)
        ensures
            p == self.spec_to_u32(),
    {
        let a: u32 = self.a as u32;
        let r: u32 = self.r as u32;
        let g: u32 = self.g as u32;
        let b: u32 = self.b as u32;
        assert((a << 24) | (r << 16) | (g << 8) | b == a * 0x100_0000 + r * 0x1_0000 + g * 0x100
            + b) by (bit_vector)
            requires
                a < 0x100,
                r < 0x100,
                g < 0x100,
                b < 0x100,
        ;
        (a << 24) | (r << 16) | (g << 8) | b
    }

    /// Unpacks an ARGB8888 value into its channels.
    #[verifier::when_used_as_spec(spec_from_u32)]
    pub fn from_u32(p: u32) -> (c: Color)
        ensures
            c == Color::spec_from_u32(p),
            c.spec_to_u32() == p,
    {
        let a: u32 = (p >> 24) & 0xFF;
        let r: u32 = (p >> 16) & 0xFF;
        let g: u32 = (p >> 8) & 0xFF;
        let b: u32 = p & 0xFF;
        assert((p >> 24) & 0xFF == p / 0x100_0000 && (p >> 16) & 0xFF == (p / 0x1_0000) % 0x100
            && (p >> 8) & 0xFF == (p / 0x100) % 0x100 && p & 0xFF == p % 0x100) by (bit_vector);
        proof {
            lemma_unpack_then_pack(p);
        }
        Color { r: r as u8, g: g as u8, b: b as u8, a: a as u8 }
    }
}

/// Unpacking a packed colour gives the colour back, channel for channel.
pub proof fn lemma_pack_then_unpack(c: Color)
    ensures
        Color::spec_from_u32(c.spec_to_u32()) == c,
{
    let p: int = c.a as int * 0x100_0000 + c.r as int * 0x1_0000 + c.g as int * 0x100
        + c.b as int;
    assert(0 <= p < 0x1_0000_0000);
    assert(c.spec_to_u32() as int == p);
}

/// Packing the channels of any 32-bit value gives the value back.
pub proof fn lemma_unpack_then_pack(p: u32)
    ensures
        Color::spec_from_u32(p).spec_to_u32() == p,
{
}

/// Two colours pack to the same value only if they are the same colour.
pub proof fn lemma_pack_injective(c: Color, d: Color)
    requires
        c.spec_to_u32() == d.spec_to_u32(),
    ensures
        c == d,
{
    lemma_pack_then_unpack(c);
    lemma_pack_then_unpack(d);
}

} // verus!
