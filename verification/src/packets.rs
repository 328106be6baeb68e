//! Encoders for the panel's fixed-size binary command frames.
//!
//! Every command is a fixed-length byte frame (6 bytes, except the
//! orientation frame at 16) whose byte 5 is the command id; argument-less
//! commands are 6 bytes with the first 5 zero. Coordinates travel packed:
//! four fields share 5 bytes, so each field has 10 usable bits.

use vstd::prelude::*;
use crate::device::Orientation;

verus! {

/// The trailing command-id byte of each frame kind.
enum PacketIds {
    Hello,
    ScreenWhite,
    ScreenBlack,
    ScreenOff,
    ScreenOn,
    Brightness,
    Orientation,
    DisplayImage,
}

impl PacketIds {
    spec fn spec_id(&self) -> u8 {
        match self {
            PacketIds::Hello => 0xFF,
            PacketIds::ScreenWhite => 0x66,
            PacketIds::ScreenBlack => 0x67,
            PacketIds::ScreenOff => 0x6C,
            PacketIds::ScreenOn => 0x6D,
            PacketIds::Brightness => 0x6E,
            PacketIds::Orientation => 0x79,
            PacketIds::DisplayImage => 0xC5,
        }
    }

    fn get_id(&self) -> (r: u8)
        ensures
            r == self.spec_id(),
    {
        match self {
            PacketIds::Hello => 0xFF,
            PacketIds::ScreenWhite => 0x66,
            PacketIds::ScreenBlack => 0x67,
            PacketIds::ScreenOff => 0x6C,
            PacketIds::ScreenOn => 0x6D,
            PacketIds::Brightness => 0x6E,
            PacketIds::Orientation => 0x79,
            PacketIds::DisplayImage => 0xC5,
        }
    }
}

/// A 6-byte frame whose first five bytes are zero: the shape of every
/// argument-less command.
pub open spec fn simple_packet(id: u8) -> Seq<u8> {
    seq![0u8, 0u8, 0u8, 0u8, 0u8, id]
}

/// The five coordinate bytes shared by the orientation and image-header
/// frames: x, y, ex and ey packed into 40 bits.
pub open spec fn coord_bytes(x: u16, y: u16, ex: u16, ey: u16) -> Seq<u8> {
    seq![
        (x >> 2) as u8,
        (((x & 3) << 6) + (y >> 4)) as u8,
        (((y & 15) << 4) + (ex >> 6)) as u8,
        (((ex & 63) << 2) + (ey >> 8)) as u8,
        (ey & 255) as u8,
    ]
}

/// Reading the packed fields back out of the five coordinate bytes.
pub open spec fn decode_coord_x(b: Seq<u8>) -> u16 {
    (((b[0] as u16) << 2) | ((b[1] as u16) >> 6)) as u16
}

pub open spec fn decode_coord_y(b: Seq<u8>) -> u16 {
    ((((b[1] as u16) & 0x3F) << 4) | ((b[2] as u16) >> 4)) as u16
}

pub open spec fn decode_coord_ex(b: Seq<u8>) -> u16 {
    ((((b[2] as u16) & 0x0F) << 6) | ((b[3] as u16) >> 2)) as u16
}

pub open spec fn decode_coord_ey(b: Seq<u8>) -> u16 {
    ((((b[3] as u16) & 0x03) << 8) | (b[4] as u16)) as u16
}

/// Round-trip law for the coordinate packing: decoding the five packed bytes
/// recovers each field exactly. Each field has only 10 bits on the wire
/// (4 fields in 5 bytes), so the law holds for values up to 1023; a larger
/// value, such as x = 1024, loses its high bits in byte 0 and cannot be
/// recovered.
pub proof fn lemma_coord_round_trip(x: u16, y: u16, ex: u16, ey: u16)
    requires
        x < 1024,
        y < 1024,
        ex < 1024,
        ey < 1024,
    ensures
        decode_coord_x(coord_bytes(x, y, ex, ey)) == x,
        decode_coord_y(coord_bytes(x, y, ex, ey)) == y,
        decode_coord_ex(coord_bytes(x, y, ex, ey)) == ex,
        decode_coord_ey(coord_bytes(x, y, ex, ey)) == ey,
{
    let b0: u8 = (x >> 2) as u8;
    let b1: u8 = (((x & 3) << 6) + (y >> 4)) as u8;
    let b2: u8 = (((y & 15) << 4) + (ex >> 6)) as u8;
    let b3: u8 = (((ex & 63) << 2) + (ey >> 8)) as u8;
    let b4: u8 = (ey & 255) as u8;
    assert((((b0 as u16) << 2) | ((b1 as u16) >> 6)) == x
        && ((((b1 as u16) & 0x3F) << 4) | ((b2 as u16) >> 4)) == y
        && ((((b2 as u16) & 0x0F) << 6) | ((b3 as u16) >> 2)) == ex
        && ((((b3 as u16) & 0x03) << 8) | (b4 as u16)) == ey) by (bit_vector)
        requires
            x < 1024,
            y < 1024,
            ex < 1024,
            ey < 1024,
            b0 == (x >> 2) as u8,
            b1 == (((x & 3) << 6) + (y >> 4)) as u8,
            b2 == (((y & 15) << 4) + (ex >> 6)) as u8,
            b3 == (((ex & 63) << 2) + (ey >> 8)) as u8,
            b4 == (ey & 255) as u8;
}

pub fn create_hello_packet() -> (r: [u8; 6])
    ensures
        r@ == simple_packet(0xFF),
{
    let r = [0x00, 0x00, 0x00, 0x00, 0x00, PacketIds::Hello.get_id()];
    proof {
        assert(r@ =~= simple_packet(0xFF));
    }
    r
}

pub fn create_screen_white_packet() -> (r: [u8; 6])
    ensures
        r@ == simple_packet(0x66),
{
    let r = [0x00, 0x00, 0x00, 0x00, 0x00, PacketIds::ScreenWhite.get_id()];
    proof {
        assert(r@ =~= simple_packet(0x66));
    }
    r
}

pub fn create_screen_black_packet() -> (r: [u8; 6])
    ensures
        r@ == simple_packet(0x67),
{
    let r = [0x00, 0x00, 0x00, 0x00, 0x00, PacketIds::ScreenBlack.get_id()];
    proof {
        assert(r@ =~= simple_packet(0x67));
    }
    r
}

pub fn create_screen_on_packet() -> (r: [u8; 6])
    ensures
        r@ == simple_packet(0x6D),
{
    let r = [0x00, 0x00, 0x00, 0x00, 0x00, PacketIds::ScreenOn.get_id()];
    proof {
        assert(r@ =~= simple_packet(0x6D));
    }
    r
}

pub fn create_screen_off_packet() -> (r: [u8; 6])
    ensures
        r@ == simple_packet(0x6C),
{
    let r = [0x00, 0x00, 0x00, 0x00, 0x00, PacketIds::ScreenOff.get_id()];
    proof {
        assert(r@ =~= simple_packet(0x6C));
    }
    r
}

/// The 8-bit intensity sent for a brightness level: inverted (100, the
/// brightest, maps to the smallest wire value), with level/100 * 255 rounded
/// to the nearest integer (halves away from zero).
pub open spec fn brightness_level_absolute(level: u8) -> u8 {
    (255 - (level * 255 + 50) / 100) as u8
}

/// The brightness frame: only the top 6 bits of the intensity travel,
/// split over bytes 0 and 1.
pub open spec fn brightness_packet(level: u8) -> Seq<u8> {
    seq![
        brightness_level_absolute(level) >> 2,
        (brightness_level_absolute(level) & 0x03) << 6,
        0u8,
        0u8,
        0u8,
        0x6Eu8,
    ]
}

pub fn create_screen_brightness_packet(level: u8) -> (r: Result<[u8; 6], String>)
    ensures
        r is Ok <==> 1 <= level <= 100,
        r is Ok ==> r->Ok_0@ == brightness_packet(level),
{
    if level > 100 || level < 1 {
        return Err("Brightness level must be between 0 and 100".to_string());
    }

    // Map brightness level (1-100) to the panel's inverted 0-255 range.
    let rounded: u16 = (level as u16 * 255 + 50) / 100;
    let level_absolute: u8 = (255 - rounded) as u8;

    let packet = [
        level_absolute >> 2,
        (level_absolute & 0x03) << 6,
        0x00,
        0x00,
        0x00,
        PacketIds::Brightness.get_id(),
    ];
    proof {
        assert(rounded <= 255);
        assert(level_absolute == brightness_level_absolute(level));
        assert(packet@ =~= brightness_packet(level));
    }
    Ok(packet)
}

/// The 16-byte orientation frame: zero coordinates, the orientation command
/// id, the orientation's numeric id offset by 100, the effective width and
/// height big-endian, and five bytes of zero padding.
pub open spec fn orientation_packet(orientation: Orientation, width: u16, height: u16) -> Seq<u8> {
    seq![
        0u8,
        0u8,
        0u8,
        0u8,
        0u8,
        0x79u8,
        (orientation.spec_id() + 100) as u8,
        (width >> 8) as u8,
        (width & 255) as u8,
        (height >> 8) as u8,
        (height & 255) as u8,
        0u8,
        0u8,
        0u8,
        0u8,
        0u8,
    ]
}

pub fn create_orientation_packet(orientation: Orientation, width: u16, height: u16) -> (r: [u8;
    16])
    ensures
        r@ == orientation_packet(orientation, width, height),
{
    let id: u8 = orientation.get_id();
    proof {
        assert(width >> 8 <= 255 && width & 255 <= 255 && height >> 8 <= 255 && height & 255
            <= 255) by (bit_vector);
    }
    let r = [
        0x00,
        0x00,
        0x00,
        0x00,
        0x00,
        PacketIds::Orientation.get_id(),
        id + 100,
        (width >> 8) as u8,
        (width & 255) as u8,
        (height >> 8) as u8,
        (height & 255) as u8,
        0x00,
        0x00,
        0x00,
        0x00,
        0x00,
    ];
    proof {
        assert(r@ =~= orientation_packet(orientation, width, height));
    }
    r
}

/// The 6-byte image-header frame: the image rectangle's corners packed into
/// the coordinate bytes, then the image command id.
pub open spec fn display_image_packet(x: u16, y: u16, width: u16, height: u16) -> Seq<u8> {
    coord_bytes(x, y, (x + width - 1) as u16, (y + height - 1) as u16).push(0xC5u8)
}

pub fn create_display_image_packet(x: u16, y: u16, width: u16, height: u16) -> (r: [u8; 6])
    requires
        1 <= width,
        1 <= height,
        x + width - 1 < 4096,
        y + height - 1 < 4096,
    ensures
        r@ == display_image_packet(x, y, width, height),
{
    let ex: u16 = x + width - 1;
    let ey: u16 = y + height - 1;

    proof {
        assert((x & 3) << 6 <= 192 && y >> 4 <= 4095 && (y & 15) << 4 <= 240 && ex >> 6 <= 1023
            && (ex & 63) << 2 <= 252 && ey >> 8 <= 255 && ey & 255 <= 255) by (bit_vector);
    }
    let r = [
        #[verifier::truncate] ((x >> 2) as u8),
        #[verifier::truncate] ((((x & 3) << 6) + (y >> 4)) as u8),
        #[verifier::truncate] ((((y & 15) << 4) + (ex >> 6)) as u8),
        #[verifier::truncate] ((((ex & 63) << 2) + (ey >> 8)) as u8),
        (ey & 255) as u8,
        PacketIds::DisplayImage.get_id(),
    ];
    proof {
        assert(r@ =~= display_image_packet(x, y, width, height));
    }
    r
}

} // verus!
