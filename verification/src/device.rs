//! The panel driver: owns the serial channel, tracks the panel's geometry
//! and orientation, and writes command frames and chunked pixel payloads.
//!
//! Every frame handed to the channel in full is recorded in a ghost log of
//! writes, so each operation's contract states exactly which bytes left the
//! driver and in what order.

use vstd::prelude::*;
use vstd::seq_lib::lemma_flatten_concat;
use crate::packets::{
    brightness_packet, create_display_image_packet, create_hello_packet,
    create_orientation_packet, create_screen_black_packet, create_screen_brightness_packet,
    create_screen_off_packet, create_screen_on_packet, create_screen_white_packet,
    display_image_packet, orientation_packet, simple_packet,
};

verus! {

/// How an operation against the panel can fail: the serial channel
/// (open, write or timeout), an argument outside the protocol's range,
/// or a pixel buffer of the wrong shape.
#[derive(Debug)]
pub enum DeviceError {
    IoError(String),
    PacketError(String),
    ImageError(String),
}

pub enum Orientation {
    Portrait,
    Landscape,
    ReversePortrait,
    ReverseLandscape,
}

impl Orientation {
    pub open spec fn spec_id(&self) -> u8 {
        match self {
            Orientation::Portrait => 0,
            Orientation::ReversePortrait => 1,
            Orientation::Landscape => 2,
            Orientation::ReverseLandscape => 3,
        }
    }

    /// Whether this orientation swaps the panel's native width and height.
    pub open spec fn is_landscape(&self) -> bool {
        match self {
            Orientation::Landscape | Orientation::ReverseLandscape => true,
            Orientation::Portrait | Orientation::ReversePortrait => false,
        }
    }

    pub fn get_id(&self) -> (r: u8)
        ensures
            r == self.spec_id(),
    {
        match self {
            Orientation::Portrait => 0,
            Orientation::ReversePortrait => 1,
            Orientation::Landscape => 2,
            Orientation::ReverseLandscape => 3,
        }
    }
}

/// The width the panel reports after taking an orientation: the native
/// width, or the native height when the orientation is a landscape one.
pub open spec fn spec_effective_width(orientation: Orientation, device_width: u16, device_height: u16) -> u16 {
    if orientation.is_landscape() {
        device_height
    } else {
        device_width
    }
}

pub open spec fn spec_effective_height(orientation: Orientation, device_width: u16, device_height: u16) -> u16 {
    if orientation.is_landscape() {
        device_width
    } else {
        device_height
    }
}

/// Taking a landscape orientation swaps the effective dimensions that a
/// portrait orientation gives, exactly; taking portrait again restores them.
pub proof fn lemma_landscape_swaps_effective_dims(device_width: u16, device_height: u16)
    ensures
        spec_effective_width(Orientation::Landscape, device_width, device_height)
            == spec_effective_height(Orientation::Portrait, device_width, device_height),
        spec_effective_height(Orientation::Landscape, device_width, device_height)
            == spec_effective_width(Orientation::Portrait, device_width, device_height),
        spec_effective_width(Orientation::Portrait, device_width, device_height) == device_width,
        spec_effective_height(Orientation::Portrait, device_width, device_height) == device_height,
{
}

/// The effective (width, height) a panel with the given native dimensions
/// has under the given orientation.
pub fn effective_dimensions(orientation: &Orientation, device_width: u16, device_height: u16) -> (r: (u16, u16))
    ensures
        r.0 == spec_effective_width(*orientation, device_width, device_height),
        r.1 == spec_effective_height(*orientation, device_width, device_height),
{
    match orientation {
        Orientation::Portrait | Orientation::ReversePortrait => (device_width, device_height),
        Orientation::Landscape | Orientation::ReverseLandscape => (device_height, device_width),
    }
}

#[verifier::external_type_specification]
#[verifier::external_body]
pub struct ExTTYPort(serialport::TTYPort);

/// Relies on serialport::SerialPortBuilder::open_native: opens the named
/// serial channel at the given baud rate, with the given bound on how long
/// a blocking read or write may take.
#[verifier::external_body]
fn open_serial_channel(port_name: &str, baud_rate: u32, timeout_secs: u64) -> Result<
    serialport::TTYPort,
    String,
> {
    serialport::new(port_name, baud_rate)
        .timeout(std::time::Duration::from_secs(timeout_secs))
        .open_native()
        .map_err(|err| format!("{}", err))
}

/// Relies on std::io::Write::write_all for serialport::TTYPort: on Ok the
/// whole buffer was handed to the channel; on Err some prefix may have been.
#[verifier::external_body]
fn write_channel(conn: &mut serialport::TTYPort, bytes: &[u8]) -> Result<(), String> {
    std::io::Write::write_all(conn, bytes).map_err(|err| format!("{}", err))
}

/// The abstract state of a panel driver: its geometry, and the log of the
/// frames it has handed to the serial channel in full, in order.
pub ghost struct DeviceView {
    pub width: u16,
    pub height: u16,
    pub device_width: u16,
    pub device_height: u16,
    pub sent: Seq<Seq<u8>>,
}

pub struct Device {
    width: u16,
    height: u16,
    device_width: u16,
    device_height: u16,
    serial_connection: serialport::TTYPort,
    sent: Ghost<Seq<Seq<u8>>>,
}

/// Pixel payloads are streamed in fixed-size chunks: the native row width
/// (in RGB565, two bytes per pixel) times two rows. The chunk size is a
/// protocol constant of the hardware, not recomputed per image.
pub const CHUNK_SIZE: usize = 1920;

/// The payload split into chunks as the driver streams it: full chunks of
/// CHUNK_SIZE bytes, then whatever remains as a shorter final chunk.
pub open spec fn chunk_seqs(data: Seq<u8>) -> Seq<Seq<u8>>
    decreases data.len(),
{
    if data.len() == 0 {
        Seq::empty()
    } else if data.len() <= CHUNK_SIZE {
        seq![data]
    } else {
        seq![data.take(CHUNK_SIZE as int)] + chunk_seqs(data.skip(CHUNK_SIZE as int))
    }
}

/// Chunking law: the chunks concatenate back to the payload exactly, every
/// chunk but the last is exactly CHUNK_SIZE bytes, and the last is nonempty
/// and no larger than CHUNK_SIZE.
pub proof fn lemma_chunks_cover_payload(data: Seq<u8>)
    ensures
        chunk_seqs(data).flatten() == data,
        forall|i: int|
            0 <= i < chunk_seqs(data).len() - 1 ==> (#[trigger] chunk_seqs(data)[i]).len()
                == CHUNK_SIZE,
        chunk_seqs(data).len() > 0 ==> 0 < chunk_seqs(data).last().len() <= CHUNK_SIZE,
        chunk_seqs(data).len() == 0 ==> data.len() == 0,
    decreases data.len(),
{
    if data.len() == 0 {
        assert(chunk_seqs(data).flatten() =~= data);
    } else if data.len() <= CHUNK_SIZE {
        seq![data].lemma_flatten_one_element();
        assert(chunk_seqs(data).flatten() =~= data);
    } else {
        let head = seq![data.take(CHUNK_SIZE as int)];
        let rest = data.skip(CHUNK_SIZE as int);
        lemma_chunks_cover_payload(rest);
        lemma_flatten_concat(head, chunk_seqs(rest));
        head.lemma_flatten_one_element();
        assert(head.flatten() + chunk_seqs(rest).flatten() =~= data);
        assert forall|i: int| 0 <= i < chunk_seqs(data).len() - 1 implies (#[trigger] chunk_seqs(
            data,
        )[i]).len() == CHUNK_SIZE by {
            if i > 0 {
                assert(chunk_seqs(data)[i] == chunk_seqs(rest)[i - 1]);
            }
        }
        assert(chunk_seqs(data).last() == chunk_seqs(rest).last());
    }
}

/// One step of the streaming loop: extending a chunk-aligned prefix by one
/// more chunk appends exactly that chunk to the chunking of the prefix.
proof fn lemma_chunk_seqs_step(data: Seq<u8>, start: int, end: int)
    requires
        0 <= start < data.len(),
        start % (CHUNK_SIZE as int) == 0,
        end == if data.len() - start > CHUNK_SIZE {
            start + CHUNK_SIZE
        } else {
            data.len() as int
        },
    ensures
        chunk_seqs(data.take(end)) == chunk_seqs(data.take(start)).push(
            data.subrange(start, end),
        ),
    decreases start,
{
    let c = CHUNK_SIZE as int;
    if start == 0 {
        assert(data.take(end).len() == end);
        assert(chunk_seqs(data.take(end)) =~= seq![data.take(end)]);
        assert(chunk_seqs(data.take(0)) =~= Seq::<Seq<u8>>::empty());
        assert(data.take(end) =~= data.subrange(0, end));
        assert(chunk_seqs(data.take(end)) =~= chunk_seqs(data.take(0)).push(
            data.subrange(0, end),
        ));
    } else {
        assert(start >= c) by {
            assert(start % c == 0 && 0 < start);
        }
        let d2 = data.skip(c);
        assert((start - c) % c == 0) by {
            assert(start == (start - c) + c);
        }
        lemma_chunk_seqs_step(d2, start - c, end - c);
        // Unfold the chunking of take(end) and take(start) one level each.
        assert(data.take(end).len() == end && end > c);
        assert(data.take(end).take(c) =~= data.take(c));
        assert(data.take(end).skip(c) =~= d2.take(end - c));
        assert(chunk_seqs(data.take(end)) == seq![data.take(c)] + chunk_seqs(d2.take(end - c)));
        assert(data.take(start).len() == start);
        if start == c {
            assert(d2.take(start - c) =~= Seq::<u8>::empty());
            assert(chunk_seqs(d2.take(start - c)) =~= Seq::<Seq<u8>>::empty());
            assert(chunk_seqs(data.take(start)) =~= seq![data.take(c)] + chunk_seqs(
                d2.take(start - c),
            ));
        } else {
            assert(data.take(start).take(c) =~= data.take(c));
            assert(data.take(start).skip(c) =~= d2.take(start - c));
            assert(chunk_seqs(data.take(start)) == seq![data.take(c)] + chunk_seqs(
                d2.take(start - c),
            ));
        }
        assert(d2.subrange(start - c, end - c) =~= data.subrange(start, end));
        assert(seq![data.take(c)] + chunk_seqs(d2.take(start - c)).push(
            data.subrange(start, end),
        ) =~= (seq![data.take(c)] + chunk_seqs(d2.take(start - c))).push(
            data.subrange(start, end),
        ));
    }
}

/// Where the chunk that starts at `start` ends: one full CHUNK_SIZE further,
/// or at the end of the payload, whichever comes first.
pub fn chunk_end(start: usize, total: usize) -> (end: usize)
    requires
        start < total,
    ensures
        end == if total - start > CHUNK_SIZE {
            start + CHUNK_SIZE
        } else {
            total as int
        },
        start < end <= total,
        end - start <= CHUNK_SIZE,
{
    if total - start > CHUNK_SIZE {
        start + CHUNK_SIZE
    } else {
        total
    }
}

/// The frames the driver writes while initializing a fresh connection:
/// hello, brightness 10, screen on, brightness 10 again, then portrait
/// orientation with the native dimensions.
pub open spec fn init_frames(device_width: u16, device_height: u16) -> Seq<Seq<u8>> {
    seq![
        simple_packet(0xFF),
        brightness_packet(10),
        simple_packet(0x6D),
        brightness_packet(10),
        orientation_packet(Orientation::Portrait, device_width, device_height),
    ]
}

impl View for Device {
    type V = DeviceView;

    closed spec fn view(&self) -> DeviceView {
        DeviceView {
            width: self.width,
            height: self.height,
            device_width: self.device_width,
            device_height: self.device_height,
            sent: self.sent@,
        }
    }
}

impl Device {
    /// Opens the well-known serial channel of the 320 by 480 panel and runs
    /// the initialization sequence. On success the panel stands in portrait
    /// orientation and exactly the initialization frames have been sent.
    pub fn new() -> (r: Result<Self, DeviceError>)
        ensures
            r is Ok ==> r->Ok_0@.width == 320 && r->Ok_0@.height == 480
                && r->Ok_0@.device_width == 320 && r->Ok_0@.device_height == 480
                && r->Ok_0@.sent == init_frames(320, 480),
            r is Err ==> r->Err_0 is IoError,
    {
        let width: u16 = 320;
        let height: u16 = 480;
        let port_name = "COM4";
        let baud_rate: u32 = 115200;

        let open_serial = match open_serial_channel(port_name, baud_rate, 3) {
            Ok(conn) => conn,
            Err(err) => {
                return Err(DeviceError::IoError(err));
            },
        };

        let mut device = Self {
            width,
            height,
            device_width: width,
            device_height: height,
            serial_connection: open_serial,
            sent: Ghost(Seq::empty()),
        };

        device.init()?;

        proof {
            assert(device@.sent =~= init_frames(320, 480));
        }
        Ok(device)
    }

    fn init(&mut self) -> (r: Result<(), DeviceError>)
        requires
            old(self)@.sent == Seq::<Seq<u8>>::empty(),
        ensures
            final(self)@.device_width == old(self)@.device_width,
            final(self)@.device_height == old(self)@.device_height,
            r is Ok ==> final(self)@.width == old(self)@.device_width && final(self)@.height == old(
                self,
            )@.device_height && final(self)@.sent == init_frames(
                old(self)@.device_width,
                old(self)@.device_height,
            ),
            r is Err ==> r->Err_0 is IoError,
    {
        let hello_packet = create_hello_packet();
        match write_channel(&mut self.serial_connection, hello_packet.as_slice()) {
            Ok(()) => {},
            Err(err) => {
                return Err(DeviceError::IoError(err));
            },
        }
        proof {
            self.sent@ = self.sent@.push(hello_packet@);
        }

        self.set_brightness(10)?;
        self.screen_on()?;
        self.set_brightness(10)?;
        let r = self.set_orientation(Orientation::Portrait);
        proof {
            if r is Ok {
                assert(self@.sent =~= init_frames(
                    old(self)@.device_width,
                    old(self)@.device_height,
                ));
            }
        }
        r
    }

    /// Forces portrait orientation (the hardware requires it for the solid
    /// fill commands), then fills the screen black.
    pub fn screen_black(&mut self) -> (r: Result<(), DeviceError>)
        ensures
            final(self)@.device_width == old(self)@.device_width,
            final(self)@.device_height == old(self)@.device_height,
            final(self)@.width == old(self)@.device_width,
            final(self)@.height == old(self)@.device_height,
            r is Ok ==> final(self)@.sent == old(self)@.sent.push(
                orientation_packet(
                    Orientation::Portrait,
                    old(self)@.device_width,
                    old(self)@.device_height,
                ),
            ).push(simple_packet(0x67)),
            r is Err ==> r->Err_0 is IoError && old(self)@.sent.is_prefix_of(final(self)@.sent),
    {
        match self.set_orientation(Orientation::Portrait) {
            Ok(()) => {},
            Err(err) => {
                proof {
                    assert(old(self)@.sent.is_prefix_of(self@.sent)) by {
                        assert(old(self)@.sent =~= self@.sent.subrange(
                            0,
                            old(self)@.sent.len() as int,
                        ));
                    }
                }
                return Err(err);
            },
        }

        let screen_black_packet = create_screen_black_packet();
        match write_channel(&mut self.serial_connection, screen_black_packet.as_slice()) {
            Ok(()) => {},
            Err(err) => {
                proof {
                    assert(old(self)@.sent.is_prefix_of(self@.sent)) by {
                        assert(old(self)@.sent =~= self@.sent.subrange(
                            0,
                            old(self)@.sent.len() as int,
                        ));
                    }
                }
                return Err(DeviceError::IoError(err));
            },
        }
        proof {
            self.sent@ = self.sent@.push(screen_black_packet@);
        }
        Ok(())
    }

    /// Forces portrait orientation, then fills the screen white.
    pub fn screen_white(&mut self) -> (r: Result<(), DeviceError>)
        ensures
            final(self)@.device_width == old(self)@.device_width,
            final(self)@.device_height == old(self)@.device_height,
            final(self)@.width == old(self)@.device_width,
            final(self)@.height == old(self)@.device_height,
            r is Ok ==> final(self)@.sent == old(self)@.sent.push(
                orientation_packet(
                    Orientation::Portrait,
                    old(self)@.device_width,
                    old(self)@.device_height,
                ),
            ).push(simple_packet(0x66)),
            r is Err ==> r->Err_0 is IoError && old(self)@.sent.is_prefix_of(final(self)@.sent),
    {
        match self.set_orientation(Orientation::Portrait) {
            Ok(()) => {},
            Err(err) => {
                proof {
                    assert(old(self)@.sent.is_prefix_of(self@.sent)) by {
                        assert(old(self)@.sent =~= self@.sent.subrange(
                            0,
                            old(self)@.sent.len() as int,
                        ));
                    }
                }
                return Err(err);
            },
        }

        let screen_white_packet = create_screen_white_packet();
        match write_channel(&mut self.serial_connection, screen_white_packet.as_slice()) {
            Ok(()) => {},
            Err(err) => {
                proof {
                    assert(old(self)@.sent.is_prefix_of(self@.sent)) by {
                        assert(old(self)@.sent =~= self@.sent.subrange(
                            0,
                            old(self)@.sent.len() as int,
                        ));
                    }
                }
                return Err(DeviceError::IoError(err));
            },
        }
        proof {
            self.sent@ = self.sent@.push(screen_white_packet@);
        }
        Ok(())
    }

    pub fn screen_on(&mut self) -> (r: Result<(), DeviceError>)
        ensures
            final(self)@.width == old(self)@.width,
            final(self)@.height == old(self)@.height,
            final(self)@.device_width == old(self)@.device_width,
            final(self)@.device_height == old(self)@.device_height,
            r is Ok ==> final(self)@.sent == old(self)@.sent.push(simple_packet(0x6D)),
            r is Err ==> r->Err_0 is IoError && final(self)@.sent == old(self)@.sent,
    {
        let on_packet = create_screen_on_packet();
        match write_channel(&mut self.serial_connection, on_packet.as_slice()) {
            Ok(()) => {},
            Err(err) => {
                return Err(DeviceError::IoError(err));
            },
        }
        proof {
            self.sent@ = self.sent@.push(on_packet@);
        }
        Ok(())
    }

    pub fn screen_off(&mut self) -> (r: Result<(), DeviceError>)
        ensures
            final(self)@.width == old(self)@.width,
            final(self)@.height == old(self)@.height,
            final(self)@.device_width == old(self)@.device_width,
            final(self)@.device_height == old(self)@.device_height,
            r is Ok ==> final(self)@.sent == old(self)@.sent.push(simple_packet(0x6C)),
            r is Err ==> r->Err_0 is IoError && final(self)@.sent == old(self)@.sent,
    {
        let off_packet = create_screen_off_packet();
        match write_channel(&mut self.serial_connection, off_packet.as_slice()) {
            Ok(()) => {},
            Err(err) => {
                return Err(DeviceError::IoError(err));
            },
        }
        proof {
            self.sent@ = self.sent@.push(off_packet@);
        }
        Ok(())
    }

    /// Sends the brightness frame. A level outside 1 to 100 is rejected
    /// with PacketError before any byte is written.
    pub fn set_brightness(&mut self, brightness: u8) -> (r: Result<(), DeviceError>)
        ensures
            final(self)@.width == old(self)@.width,
            final(self)@.height == old(self)@.height,
            final(self)@.device_width == old(self)@.device_width,
            final(self)@.device_height == old(self)@.device_height,
            r is Ok ==> 1 <= brightness <= 100 && final(self)@.sent == old(self)@.sent.push(
                brightness_packet(brightness),
            ),
            !(1 <= brightness <= 100) ==> r is Err && r->Err_0 is PacketError && final(self)@.sent
                == old(self)@.sent,
            r is Err && 1 <= brightness <= 100 ==> r->Err_0 is IoError && final(self)@.sent == old(
                self,
            )@.sent,
    {
        let brightness_packet = match create_screen_brightness_packet(brightness) {
            Ok(p) => p,
            Err(err) => {
                return Err(DeviceError::PacketError(err));
            },
        };

        match write_channel(&mut self.serial_connection, brightness_packet.as_slice()) {
            Ok(()) => {},
            Err(err) => {
                return Err(DeviceError::IoError(err));
            },
        }
        proof {
            self.sent@ = self.sent@.push(brightness_packet@);
        }
        Ok(())
    }

    /// Recomputes the effective dimensions from the panel's fixed native
    /// dimensions (swapping them for landscape orientations), then sends the
    /// orientation frame carrying the new effective dimensions. The geometry
    /// is updated even when the write fails.
    pub fn set_orientation(&mut self, orientation: Orientation) -> (r: Result<(), DeviceError>)
        ensures
            final(self)@.device_width == old(self)@.device_width,
            final(self)@.device_height == old(self)@.device_height,
            final(self)@.width == spec_effective_width(
                orientation,
                old(self)@.device_width,
                old(self)@.device_height,
            ),
            final(self)@.height == spec_effective_height(
                orientation,
                old(self)@.device_width,
                old(self)@.device_height,
            ),
            r is Ok ==> final(self)@.sent == old(self)@.sent.push(
                orientation_packet(orientation, final(self)@.width, final(self)@.height),
            ),
            r is Err ==> r->Err_0 is IoError && final(self)@.sent == old(self)@.sent,
    {
        match orientation {
            Orientation::Portrait | Orientation::ReversePortrait => {
                self.width = self.device_width;
                self.height = self.device_height;
            },
            Orientation::Landscape | Orientation::ReverseLandscape => {
                self.width = self.device_height;
                self.height = self.device_width;
            },
        }

        let orientation_packet = create_orientation_packet(orientation, self.width, self.height);

        match write_channel(&mut self.serial_connection, orientation_packet.as_slice()) {
            Ok(()) => {},
            Err(err) => {
                return Err(DeviceError::IoError(err));
            },
        }
        proof {
            self.sent@ = self.sent@.push(orientation_packet@);
        }
        Ok(())
    }

    /// Writes the image-header frame for the given rectangle, then streams
    /// the RGB565 payload in CHUNK_SIZE-byte chunks. On success the log has
    /// grown by exactly the header and the payload's chunks; a failed write
    /// aborts the transfer.
    pub fn display_picture(
        &mut self,
        image_data: Vec<u8>,
        x: u16,
        y: u16,
        width: u16,
        height: u16,
    ) -> (r: Result<(), DeviceError>)
        requires
            1 <= width,
            1 <= height,
            x + width - 1 < 4096,
            y + height - 1 < 4096,
        ensures
            final(self)@.width == old(self)@.width,
            final(self)@.height == old(self)@.height,
            final(self)@.device_width == old(self)@.device_width,
            final(self)@.device_height == old(self)@.device_height,
            r is Ok ==> final(self)@.sent == old(self)@.sent.push(
                display_image_packet(x, y, width, height),
            ) + chunk_seqs(image_data@),
            r is Err ==> r->Err_0 is IoError && old(self)@.sent.is_prefix_of(final(self)@.sent),
    {
        let display_packet = create_display_image_packet(x, y, width, height);

        match write_channel(&mut self.serial_connection, display_packet.as_slice()) {
            Ok(()) => {},
            Err(err) => {
                proof {
                    assert(old(self)@.sent.is_prefix_of(self@.sent)) by {
                        assert(old(self)@.sent =~= self@.sent.subrange(
                            0,
                            old(self)@.sent.len() as int,
                        ));
                    }
                }
                return Err(DeviceError::IoError(err));
            },
        }
        proof {
            self.sent@ = self.sent@.push(display_packet@);
        }

        let total_size: usize = image_data.len();
        let mut start: usize = 0;

        proof {
            assert(self@.sent =~= old(self)@.sent.push(display_image_packet(x, y, width, height))
                + chunk_seqs(image_data@.take(0)));
        }
        while start < total_size
            invariant
                total_size == image_data@.len(),
                start <= total_size,
                start % CHUNK_SIZE == 0 || start == total_size,
                self@.width == old(self)@.width,
                self@.height == old(self)@.height,
                self@.device_width == old(self)@.device_width,
                self@.device_height == old(self)@.device_height,
                self@.sent == old(self)@.sent.push(display_image_packet(x, y, width, height))
                    + chunk_seqs(image_data@.take(start as int)),
            decreases total_size - start,
        {
            let end: usize = chunk_end(start, total_size);
            let chunk = vstd::slice::slice_subrange(image_data.as_slice(), start, end);

            match write_channel(&mut self.serial_connection, chunk) {
                Ok(()) => {},
                Err(err) => {
                    proof {
                        assert(old(self)@.sent.is_prefix_of(self@.sent)) by {
                            assert(old(self)@.sent =~= self@.sent.subrange(
                                0,
                                old(self)@.sent.len() as int,
                            ));
                        }
                    }
                    return Err(DeviceError::IoError(err));
                },
            }
            proof {
                lemma_chunk_seqs_step(image_data@, start as int, end as int);
                self.sent@ = self.sent@.push(chunk@);
                assert(self@.sent =~= old(self)@.sent.push(
                    display_image_packet(x, y, width, height),
                ) + chunk_seqs(image_data@.take(end as int)));
            }
            start = end;
        }
        proof {
            assert(image_data@.take(total_size as int) =~= image_data@);
        }
        Ok(())
    }

    pub fn get_width(&self) -> (r: u16)
        ensures
            r == self@.width,
    {
        self.width
    }

    pub fn get_height(&self) -> (r: u16)
        ensures
            r == self@.height,
    {
        self.height
    }
}

} // verus!
