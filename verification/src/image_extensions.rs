//! Conversion to the panel's native pixel encoding: RGB565, 5 bits of red,
//! 6 of green, 5 of blue, truncating the low bits, low byte first.

use vstd::prelude::*;

verus! {

/// The 16-bit RGB565 value of one pixel: red's top 5 bits, green's top 6,
/// blue's top 5.
pub open spec fn rgb565_value(r: u8, g: u8, b: u8) -> u16 {
    (((r as u16 & 0xF8) << 8) | ((g as u16 & 0xFC) << 3) | ((b as u16) >> 3)) as u16
}

/// The low byte of the pixel's RGB565 value: sent first on the wire.
pub open spec fn rgb565_lo(r: u8, g: u8, b: u8) -> u8 {
    (rgb565_value(r, g, b) & 0xFF) as u8
}

/// The high byte of the pixel's RGB565 value: sent second.
pub open spec fn rgb565_hi(r: u8, g: u8, b: u8) -> u8 {
    (rgb565_value(r, g, b) >> 8) as u8
}

/// The first n pixels of a packed RGB buffer (three bytes per pixel)
/// encoded as RGB565, two bytes per pixel, low byte first.
pub open spec fn rgb565_of_rgb(buf: Seq<u8>, n: nat) -> Seq<u8>
    decreases n,
{
    if n == 0 {
        Seq::empty()
    } else {
        let p = (n - 1) as int;
        rgb565_of_rgb(buf, (n - 1) as nat) + seq![
            rgb565_lo(buf[p * 3], buf[p * 3 + 1], buf[p * 3 + 2]),
            rgb565_hi(buf[p * 3], buf[p * 3 + 1], buf[p * 3 + 2]),
        ]
    }
}

/// The first n pixels of an RGBA buffer (four bytes per pixel) encoded as
/// RGB565; the alpha byte does not travel.
pub open spec fn rgb565_of_rgba(buf: Seq<u8>, n: nat) -> Seq<u8>
    decreases n,
{
    if n == 0 {
        Seq::empty()
    } else {
        let p = (n - 1) as int;
        rgb565_of_rgba(buf, (n - 1) as nat) + seq![
            rgb565_lo(buf[p * 4], buf[p * 4 + 1], buf[p * 4 + 2]),
            rgb565_hi(buf[p * 4], buf[p * 4 + 1], buf[p * 4 + 2]),
        ]
    }
}

/// Computes one pixel's RGB565 bytes, low byte first.
pub(crate) fn rgb565_pixel_bytes(r: u8, g: u8, b: u8) -> (out: (u8, u8))
    ensures
        out.0 == rgb565_lo(r, g, b),
        out.1 == rgb565_hi(r, g, b),
{
    let r16: u16 = r as u16;
    let g16: u16 = g as u16;
    let b16: u16 = b as u16;
    let value: u16 = ((r16 & 0xF8) << 8) | ((g16 & 0xFC) << 3) | (b16 >> 3);
    proof {
        assert(value & 0xFF <= 255 && value >> 8 <= 255) by (bit_vector);
    }
    ((value & 0xFF) as u8, (value >> 8) as u8)
}

/// Encodes a packed RGB buffer of exactly target_width * target_height
/// pixels into the panel's RGB565 byte stream.
pub fn convert_to_rgb565(rgb_data: &Vec<u8>, target_width: u32, target_height: u32) -> (out: Vec<
    u8,
>)
    requires
        rgb_data@.len() == target_width * target_height * 3,
    ensures
        out@ == rgb565_of_rgb(rgb_data@, (target_width * target_height) as nat),
{
    let mut out: Vec<u8> = Vec::new();
    let len: usize = rgb_data.len();
    let total: usize = len / 3;
    proof {
        assert(total == target_width * target_height) by {
            vstd::arithmetic::div_mod::lemma_fundamental_div_mod_converse(
                rgb_data@.len() as int,
                3,
                (target_width * target_height) as int,
                0,
            );
        }
    }
    let mut p: usize = 0;
    while p < total
        invariant
            len == rgb_data@.len(),
            len == total * 3,
            p <= total,
            out@ == rgb565_of_rgb(rgb_data@, p as nat),
        decreases total - p,
    {
        let idx: usize = p * 3;
        let (lo, hi) = rgb565_pixel_bytes(rgb_data[idx], rgb_data[idx + 1], rgb_data[idx + 2]);
        out.push(lo);
        out.push(hi);
        proof {
            assert(out@ =~= rgb565_of_rgb(rgb_data@, (p + 1) as nat));
        }
        p = p + 1;
    }
    out
}

} // verus!
