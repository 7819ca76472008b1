//! RGBA colours packed into one `u32` the way `cosmic_text::Color` packs them.
use vstd::prelude::*;

verus! {

/// `a` in bits 24..32, `r` in 16..24, `g` in 8..16, `b` in 0..8.
pub open spec fn packed(r: u8, g: u8, b: u8, a: u8) -> u32 {
    ((a as u32) << 24u32) | ((r as u32) << 16u32) | ((g as u32) << 8u32) | (b as u32)
}

/// The `(r, g, b, a)` components of a packed colour.
pub open spec fn unpacked(v: u32) -> (u8, u8, u8, u8) {
    (
        ((v & 0x00ff_0000u32) >> 16u32) as u8,
        ((v & 0x0000_ff00u32) >> 8u32) as u8,
        (v & 0x0000_00ffu32) as u8,
        ((v & 0xff00_0000u32) >> 24u32) as u8,
    )
}

/// `cosmic_text::Color::rgba(r, g, b, a)`, taken by its packed value: per
/// its source, alpha in the top byte, then red, green and blue.
#[verifier::external_body]
fn color_rgba(r: u8, g: u8, b: u8, a: u8) -> (res: u32)
    ensures
        res == packed(r, g, b, a),
{
    cosmic_text::Color::rgba(r, g, b, a).0
}

/// `cosmic_text::Color::as_rgba_tuple` of the colour with packed value `v`:
/// per its source, the red, green, blue and alpha bytes of `v`.
#[verifier::external_body]
fn color_as_rgba_tuple(v: u32) -> (res: (u8, u8, u8, u8))
    ensures
        res == unpacked(v),
{
    cosmic_text::Color(v).as_rgba_tuple()
}

/// Packs `(r, g, b, a)` into a colour value.
pub fn pack_colour(colour: (u8, u8, u8, u8)) -> (res: u32)
    ensures
        res == packed(colour.0, colour.1, colour.2, colour.3),
{
    color_rgba(colour.0, colour.1, colour.2, colour.3)
}

/// The `(r, g, b, a)` components of a packed colour value.
pub fn unpack_colour(v: u32) -> (res: (u8, u8, u8, u8))
    ensures
        res == unpacked(v),
{
    color_as_rgba_tuple(v)
}

/// The alpha component of a packed colour value.
pub fn colour_alpha(v: u32) -> (res: u8)
    ensures
        res == unpacked(v).3,
{
    color_as_rgba_tuple(v).3
}

/// Unpacking gives back the components that were packed.
pub proof fn lemma_unpack_pack(r: u8, g: u8, b: u8, a: u8)
    ensures
        unpacked(packed(r, g, b, a)) == (r, g, b, a),
{
    let v = packed(r, g, b, a);
    assert(((v & 0x00ff_0000u32) >> 16u32) as u8 == r && ((v & 0x0000_ff00u32) >> 8u32) as u8 == g
        && (v & 0x0000_00ffu32) as u8 == b && ((v & 0xff00_0000u32) >> 24u32) as u8 == a) by (bit_vector)
        requires
            v == ((a as u32) << 24u32) | ((r as u32) << 16u32) | ((g as u32) << 8u32) | (b as u32),
    ;
}

/// Packing the unpacked components gives back the value.
pub proof fn lemma_pack_unpack(v: u32)
    ensures
        packed(unpacked(v).0, unpacked(v).1, unpacked(v).2, unpacked(v).3) == v,
{
    let r = ((v & 0x00ff_0000u32) >> 16u32) as u8;
    let g = ((v & 0x0000_ff00u32) >> 8u32) as u8;
    let b = (v & 0x0000_00ffu32) as u8;
    let a = ((v & 0xff00_0000u32) >> 24u32) as u8;
    assert(((a as u32) << 24u32) | ((r as u32) << 16u32) | ((g as u32) << 8u32) | (b as u32) == v) by (bit_vector)
        requires
            r == ((v & 0x00ff_0000u32) >> 16u32) as u8,
            g == ((v & 0x0000_ff00u32) >> 8u32) as u8,
            b == (v & 0x0000_00ffu32) as u8,
            a == ((v & 0xff00_0000u32) >> 24u32) as u8,
    ;
}

} // verus!
