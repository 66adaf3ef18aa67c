//! The Groovy protocol: video modes, commands and the status that the FPGA reports.

use crate::bytes;
use crate::double::Double;
use vstd::prelude::*;

verus! {

/// The UDP port that the Groovy core listens on.
pub const UDP_PORT: u16 = 32100;

/// The largest payload of one datagram.
pub const DEFAULT_MTU: usize = 1472;

/// Command byte: end the session.
pub const CMD_CLOSE: u8 = 0x01;

/// Command byte: start a session.
pub const CMD_INIT: u8 = 0x02;

/// Command byte: set the video mode.
pub const CMD_SWITCHRES: u8 = 0x03;

/// Command byte: audio follows.
pub const CMD_AUDIO: u8 = 0x04;

/// Command byte: ask for the status.
pub const CMD_GET_STATUS: u8 = 0x05;

/// Command byte: a field follows.
pub const CMD_BLIT: u8 = 0x07;

/// A video mode.
#[derive(Clone, Copy, Debug)]
pub struct Modeline {
    pub name: &'static str,
    /// Pixel clock in MHz.
    pub p_clock: Double,
    pub h_active: u16,
    pub h_begin: u16,
    pub h_end: u16,
    pub h_total: u16,
    pub v_active: u16,
    pub v_begin: u16,
    pub v_end: u16,
    pub v_total: u16,
    pub interlace: bool,
}

/// A mode with the given name, pixel clock and timings.
pub open spec fn preset(
    name: &'static str,
    p_clock: u64,
    h_active: u16,
    h_begin: u16,
    h_end: u16,
    h_total: u16,
    v_active: u16,
    v_begin: u16,
    v_end: u16,
    v_total: u16,
    interlace: bool,
) -> Modeline {
    Modeline {
        name,
        p_clock: Double { bits: p_clock },
        h_active,
        h_begin,
        h_end,
        h_total,
        v_active,
        v_begin,
        v_end,
        v_total,
        interlace,
    }
}

/// The modes that come with the library.
pub open spec fn preset_modelines() -> Seq<Modeline> {
    seq![
        preset("256x240 NTSC", 0x4013_9eb8_51eb_851f, 256, 264, 287, 312, 240, 241, 244, 262, false),
        preset("320x240 NTSC", 0x401a_cccc_cccc_cccd, 320, 336, 367, 426, 240, 244, 247, 262, false),
        preset("320x480i NTSC", 0x401a_cccc_cccc_cccd, 320, 336, 367, 426, 480, 488, 493, 525, true),
        preset("640x480i NTSC", 0x4028_ac08_3126_e979, 640, 662, 720, 784, 480, 488, 494, 525, true),
        preset("720x480i NTSC", 0x402b_b126_e978_d4fe, 720, 744, 809, 880, 480, 488, 494, 525, true),
        preset("256x240 PAL", 0x4015_47ae_147a_e148, 256, 269, 294, 341, 240, 270, 273, 312, false),
        preset("320x240 PAL", 0x401a_a3d7_0a3d_70a4, 320, 336, 367, 426, 240, 270, 273, 312, false),
        preset("320x480i PAL", 0x401a_a3d7_0a3d_70a4, 320, 336, 367, 426, 480, 540, 545, 625, true),
        preset("640x480i PAL", 0x402a_a3d7_0a3d_70a4, 640, 672, 734, 852, 480, 540, 545, 625, true),
        preset("720x576i PAL", 0x402b_c000_0000_0000, 720, 741, 806, 888, 576, 581, 586, 625, true),
    ]
}

fn new_preset(
    name: &'static str,
    p_clock: u64,
    h_active: u16,
    h_begin: u16,
    h_end: u16,
    h_total: u16,
    v_active: u16,
    v_begin: u16,
    v_end: u16,
    v_total: u16,
    interlace: bool,
) -> (m: Modeline)
    ensures
        m == preset(
            name,
            p_clock,
            h_active,
            h_begin,
            h_end,
            h_total,
            v_active,
            v_begin,
            v_end,
            v_total,
            interlace,
        ),
{
    Modeline {
        name,
        p_clock: Double { bits: p_clock },
        h_active,
        h_begin,
        h_end,
        h_total,
        v_active,
        v_begin,
        v_end,
        v_total,
        interlace,
    }
}

/// The modes that come with the library, standard NTSC and PAL.
pub fn modelines() -> (presets: Vec<Modeline>)
    ensures
        presets@ == preset_modelines(),
{
    let mut presets: Vec<Modeline> = Vec::new();
    presets.push(new_preset("256x240 NTSC", 0x4013_9eb8_51eb_851f, 256, 264, 287, 312, 240, 241, 244, 262, false));
    presets.push(new_preset("320x240 NTSC", 0x401a_cccc_cccc_cccd, 320, 336, 367, 426, 240, 244, 247, 262, false));
    presets.push(new_preset("320x480i NTSC", 0x401a_cccc_cccc_cccd, 320, 336, 367, 426, 480, 488, 493, 525, true));
    presets.push(new_preset("640x480i NTSC", 0x4028_ac08_3126_e979, 640, 662, 720, 784, 480, 488, 494, 525, true));
    presets.push(new_preset("720x480i NTSC", 0x402b_b126_e978_d4fe, 720, 744, 809, 880, 480, 488, 494, 525, true));
    presets.push(new_preset("256x240 PAL", 0x4015_47ae_147a_e148, 256, 269, 294, 341, 240, 270, 273, 312, false));
    presets.push(new_preset("320x240 PAL", 0x401a_a3d7_0a3d_70a4, 320, 336, 367, 426, 240, 270, 273, 312, false));
    presets.push(new_preset("320x480i PAL", 0x401a_a3d7_0a3d_70a4, 320, 336, 367, 426, 480, 540, 545, 625, true));
    presets.push(new_preset("640x480i PAL", 0x402a_a3d7_0a3d_70a4, 640, 672, 734, 852, 480, 540, 545, 625, true));
    presets.push(new_preset("720x576i PAL", 0x402b_c000_0000_0000, 720, 741, 806, 888, 576, 581, 586, 625, true));
    assert(presets@ =~= preset_modelines());
    presets
}

impl Modeline {
    /// The rows of one field.
    pub open spec fn field_rows(self) -> int {
        if self.interlace {
            self.v_active as int / 2
        } else {
            self.v_active as int
        }
    }

    /// The bytes of one field, three to a pixel.
    pub open spec fn field_length(self) -> int {
        self.h_active * self.field_rows() * 3
    }

    /// The rows of one field: half of the active rows where the mode is interlaced.
    pub fn field_height(&self) -> (rows: usize)
        ensures
            rows == self.field_rows(),
    {
        if self.interlace {
            (self.v_active / 2) as usize
        } else {
            self.v_active as usize
        }
    }

    /// The bytes of one field, three to a pixel.
    pub fn field_size(&self) -> (size: usize)
        requires
            self.field_length() <= usize::MAX,
        ensures
            size == self.field_length(),
    {
        let rows: usize = self.field_height();
        proof {
            assert(0 <= self.h_active * rows) by (nonlinear_arith);
        }
        self.h_active as usize * rows * 3
    }
}

/// The command that starts a session.
pub fn build_init(compression: u8, sample_rate: u8, channels: u8, rgb_mode: u8) -> (packet: Vec<u8>)
    ensures
        packet@ == init_packet(compression, sample_rate, channels, rgb_mode),
{
    let packet: Vec<u8> = vec![CMD_INIT, compression, sample_rate, channels, rgb_mode];
    assert(packet@ =~= init_packet(compression, sample_rate, channels, rgb_mode));
    packet
}

/// The command that starts a session: five bytes.
pub open spec fn init_packet(compression: u8, sample_rate: u8, channels: u8, rgb_mode: u8) -> Seq<
    u8,
> {
    seq![CMD_INIT, compression, sample_rate, channels, rgb_mode]
}

/// The command that sets a video mode: 26 bytes, the pixel clock as the eight bytes of a
/// double-precision number, then the timings and the interlace flag.
pub open spec fn switchres_packet(m: Modeline) -> Seq<u8> {
    seq![CMD_SWITCHRES] + bytes::le64(m.p_clock.bits) + bytes::le16(m.h_active) + bytes::le16(
        m.h_begin,
    ) + bytes::le16(m.h_end) + bytes::le16(m.h_total) + bytes::le16(m.v_active) + bytes::le16(
        m.v_begin,
    ) + bytes::le16(m.v_end) + bytes::le16(m.v_total) + seq![
        if m.interlace {
            1u8
        } else {
            0u8
        },
    ]
}

/// The command that sets a video mode.
pub fn build_switchres(m: &Modeline) -> (packet: Vec<u8>)
    ensures
        packet@ == switchres_packet(*m),
{
    let mut packet: Vec<u8> = vec![CMD_SWITCHRES];
    assert(packet@ =~= seq![CMD_SWITCHRES]);
    bytes::push64(&mut packet, m.p_clock.bits);
    bytes::push16(&mut packet, m.h_active);
    bytes::push16(&mut packet, m.h_begin);
    bytes::push16(&mut packet, m.h_end);
    bytes::push16(&mut packet, m.h_total);
    bytes::push16(&mut packet, m.v_active);
    bytes::push16(&mut packet, m.v_begin);
    bytes::push16(&mut packet, m.v_end);
    bytes::push16(&mut packet, m.v_total);
    packet.push(
        if m.interlace {
            1
        } else {
            0
        },
    );
    assert(packet@ =~= switchres_packet(*m));
    packet
}

/// The header of a field: frame number, field, the line of the vertical sync, and the payload's
/// size where the payload is compressed.
pub open spec fn blit_packet(frame: u32, field: u8, vsync: u16, compressed_size: Option<u32>) -> Seq<
    u8,
> {
    let header = seq![CMD_BLIT] + bytes::le32(frame) + seq![field] + bytes::le16(vsync);
    match compressed_size {
        Some(size) => header + bytes::le32(size),
        None => header,
    }
}

/// The header of a field: 12 bytes with a compressed size, 8 without.
pub fn build_blit_field_vsync(
    frame: u32,
    field: u8,
    vsync: u16,
    compressed_size: Option<u32>,
) -> (packet: Vec<u8>)
    ensures
        packet@ == blit_packet(frame, field, vsync, compressed_size),
{
    let mut packet: Vec<u8> = vec![CMD_BLIT];
    assert(packet@ =~= seq![CMD_BLIT]);
    bytes::push32(&mut packet, frame);
    packet.push(field);
    assert(packet@ =~= seq![CMD_BLIT] + bytes::le32(frame) + seq![field]);
    bytes::push16(&mut packet, vsync);
    if let Some(size) = compressed_size {
        bytes::push32(&mut packet, size);
    }
    packet
}

/// The header of a field, under its short name.
pub fn build_blit(frame: u32, field: u8, vsync: u16, compressed_size: Option<u32>) -> (packet: Vec<
    u8,
>)
    ensures
        packet@ == blit_packet(frame, field, vsync, compressed_size),
{
    build_blit_field_vsync(frame, field, vsync, compressed_size)
}

/// The header of an audio block of `size` bytes.
pub open spec fn audio_packet(size: u16) -> Seq<u8> {
    seq![CMD_AUDIO] + bytes::le16(size)
}

/// The header of an audio block of `size` bytes.
pub fn build_audio(size: u16) -> (packet: Vec<u8>)
    ensures
        packet@ == audio_packet(size),
{
    let mut packet: Vec<u8> = vec![CMD_AUDIO];
    assert(packet@ =~= seq![CMD_AUDIO]);
    bytes::push16(&mut packet, size);
    packet
}

/// The command that ends a session.
pub open spec fn close_packet() -> Seq<u8> {
    seq![CMD_CLOSE]
}

/// The command that ends a session.
pub fn build_close() -> (packet: Vec<u8>)
    ensures
        packet@ == close_packet(),
{
    let packet: Vec<u8> = vec![CMD_CLOSE];
    assert(packet@ =~= close_packet());
    packet
}

/// What the FPGA reports: the frame and raster line that it last acknowledged, those that it is at,
/// and its flags.
#[derive(Clone, Copy, Debug, PartialEq, Eq, Structural)]
pub struct FpgaStatus {
    pub frame_echo: u32,
    pub vcount_echo: u16,
    pub frame: u32,
    pub vcount: u16,
    pub vram_ready: bool,
    pub vram_end_frame: bool,
    pub vram_synced: bool,
    pub vga_vblank: bool,
}

/// The bytes of a status report.
pub const STATUS_LENGTH: usize = 13;

/// A status report: frame and line echoed, frame and line reached, flags.
pub open spec fn status_packet(
    frame_echo: u32,
    vcount_echo: u16,
    frame: u32,
    vcount: u16,
    bits: u8,
) -> Seq<u8> {
    bytes::le32(frame_echo) + bytes::le16(vcount_echo) + bytes::le32(frame) + bytes::le16(vcount)
        + seq![bits]
}

/// The status that a report of at least 13 bytes holds.
pub open spec fn reported(data: Seq<u8>) -> FpgaStatus {
    FpgaStatus {
        frame_echo: bytes::at32(data, 0),
        vcount_echo: bytes::at16(data, 4),
        frame: bytes::at32(data, 6),
        vcount: bytes::at16(data, 10),
        vram_ready: data[12] % 2 == 1,
        vram_end_frame: data[12] / 2 % 2 == 1,
        vram_synced: data[12] / 4 % 2 == 1,
        vga_vblank: data[12] / 16 % 2 == 1,
    }
}

impl FpgaStatus {
    /// The status before any report: all zero.
    pub open spec fn initial() -> FpgaStatus {
        FpgaStatus {
            frame_echo: 0,
            vcount_echo: 0,
            frame: 0,
            vcount: 0,
            vram_ready: false,
            vram_end_frame: false,
            vram_synced: false,
            vga_vblank: false,
        }
    }

    /// Reads a status report; `None` where there are fewer than 13 bytes.
    pub fn parse(data: &[u8]) -> (status: Option<FpgaStatus>)
        ensures
            status == if data@.len() < STATUS_LENGTH {
                None
            } else {
                Some(reported(data@))
            },
    {
        if data.len() < STATUS_LENGTH {
            return None;
        }
        let bits: u8 = data[12];
        Some(
            FpgaStatus {
                frame_echo: bytes::read32(data, 0),
                vcount_echo: bytes::read16(data, 4),
                frame: bytes::read32(data, 6),
                vcount: bytes::read16(data, 10),
                vram_ready: bits % 2 == 1,
                vram_end_frame: bits / 2 % 2 == 1,
                vram_synced: bits / 4 % 2 == 1,
                vga_vblank: bits / 16 % 2 == 1,
            },
        )
    }
}

impl Default for FpgaStatus {
    fn default() -> (status: FpgaStatus)
        ensures
            status == FpgaStatus::initial(),
    {
        FpgaStatus {
            frame_echo: 0,
            vcount_echo: 0,
            frame: 0,
            vcount: 0,
            vram_ready: false,
            vram_end_frame: false,
            vram_synced: false,
            vga_vblank: false,
        }
    }
}

/// Reading a status report gives back what was written into it.
pub proof fn law_status_round_trip(
    frame_echo: u32,
    vcount_echo: u16,
    frame: u32,
    vcount: u16,
    bits: u8,
)
    ensures
        status_packet(frame_echo, vcount_echo, frame, vcount, bits).len() == STATUS_LENGTH,
        reported(status_packet(frame_echo, vcount_echo, frame, vcount, bits)) == (FpgaStatus {
            frame_echo,
            vcount_echo,
            frame,
            vcount,
            vram_ready: bits % 2 == 1,
            vram_end_frame: bits / 2 % 2 == 1,
            vram_synced: bits / 4 % 2 == 1,
            vga_vblank: bits / 16 % 2 == 1,
        }),
{
    let a = bytes::le32(frame_echo);
    let b = bytes::le16(vcount_echo);
    let c = bytes::le32(frame);
    let d = bytes::le16(vcount);
    let e = seq![bits];
    let all = status_packet(frame_echo, vcount_echo, frame, vcount, bits);
    let none = Seq::<u8>::empty();
    bytes::law_read_written_32(none, frame_echo, b + c + d + e);
    assert(none + a + (b + c + d + e) =~= all);
    bytes::law_read_written_16(a, vcount_echo, c + d + e);
    assert(a + b + (c + d + e) =~= all);
    bytes::law_read_written_32(a + b, frame, d + e);
    assert(a + b + c + (d + e) =~= all);
    bytes::law_read_written_16(a + b + c, vcount, e);
}

/// A payload cut into datagrams of at most `mtu` bytes, all but the last of exactly that many.
pub open spec fn chunked(data: Seq<u8>, mtu: int) -> Seq<Seq<u8>>
    decreases data.len(),
{
    if data.len() == 0 || mtu <= 0 {
        seq![]
    } else if data.len() <= mtu {
        seq![data]
    } else {
        seq![data.take(mtu)] + chunked(data.skip(mtu), mtu)
    }
}

/// What the datagrams of a list hold, one after the other.
pub open spec fn joined(datagrams: Seq<Seq<u8>>) -> Seq<u8>
    decreases datagrams.len(),
{
    if datagrams.len() == 0 {
        seq![]
    } else {
        datagrams[0] + joined(datagrams.skip(1))
    }
}

/// Whether datagrams hold a payload, in order, and none is empty.
pub open spec fn is_cut(datagrams: Seq<Seq<u8>>, data: Seq<u8>) -> bool {
    &&& joined(datagrams) == data
    &&& forall|i: int| 0 <= i < datagrams.len() ==> (#[trigger] datagrams[i]).len() > 0
}

/// The datagrams of a payload hold the payload, in order, and none is empty or above the limit.
pub proof fn law_chunks_hold_payload(data: Seq<u8>, mtu: int)
    requires
        mtu > 0,
    ensures
        is_cut(chunked(data, mtu), data),
        forall|i: int|
            0 <= i < chunked(data, mtu).len() ==> 0 < (#[trigger] chunked(data, mtu)[i]).len()
                <= mtu,
    decreases data.len(),
{
    let all = chunked(data, mtu);
    if data.len() == 0 {
        assert(joined(all) =~= data);
    } else if data.len() <= mtu {
        assert(all.skip(1) =~= seq![]);
        assert(joined(all.skip(1)) =~= seq![]);
        assert(joined(all) =~= data);
    } else {
        law_chunks_hold_payload(data.skip(mtu), mtu);
        assert(all.skip(1) =~= chunked(data.skip(mtu), mtu));
        assert(data.take(mtu) + data.skip(mtu) =~= data);
        assert(joined(all) == data);
        assert forall|i: int| 0 <= i < all.len() implies 0 < (#[trigger] all[i]).len() <= mtu by {
            if i > 0 {
                assert(all[i] == chunked(data.skip(mtu), mtu)[i - 1]);
            }
        }
    }
}

/// The views of a list of datagrams.
pub open spec fn payloads(list: Seq<Vec<u8>>) -> Seq<Seq<u8>> {
    list.map_values(|d: Vec<u8>| d@)
}

/// Appends a payload, cut into datagrams of at most `mtu` bytes.
pub fn push_chunks(out: &mut Vec<Vec<u8>>, data: &[u8], mtu: usize)
    requires
        mtu > 0,
    ensures
        payloads(final(out)@) == payloads(old(out)@) + chunked(data@, mtu as int),
{
    let mut off: usize = 0;
    assert(data@.skip(0) =~= data@);
    assert(payloads(out@) + chunked(data@, mtu as int) =~= payloads(old(out)@) + chunked(
        data@,
        mtu as int,
    ));
    while off < data.len()
        invariant
            mtu > 0,
            off <= data@.len(),
            payloads(out@) + chunked(data@.skip(off as int), mtu as int) == payloads(old(out)@)
                + chunked(data@, mtu as int),
        decreases data@.len() - off,
    {
        let end: usize = if data.len() - off <= mtu {
            data.len()
        } else {
            off + mtu
        };
        let ghost rest = data@.skip(off as int);
        let ghost before = out@;
        let part: Vec<u8> = bytes::copy_range(data, off, end);
        out.push(part);
        proof {
            assert(payloads(out@) =~= payloads(before).push(part@));
            if rest.len() <= mtu {
                assert(part@ =~= rest);
                assert(data@.skip(end as int) =~= seq![]);
                assert(chunked(rest, mtu as int) =~= seq![rest]);
            } else {
                assert(part@ =~= rest.take(mtu as int));
                assert(data@.skip(end as int) =~= rest.skip(mtu as int));
            }
            assert(payloads(out@) + chunked(data@.skip(end as int), mtu as int) =~= payloads(before)
                + chunked(rest, mtu as int));
        }
        off = end;
    }
    assert(data@.skip(off as int) =~= seq![]);
    assert(payloads(out@) + chunked(data@.skip(off as int), mtu as int) =~= payloads(out@));
}

/// The header of a field can be read back: the command, the frame, the field, the line of the
/// vertical sync, and the size where there is one.
pub proof fn law_blit_header_reads_back(
    frame: u32,
    field: u8,
    vsync: u16,
    compressed_size: Option<u32>,
)
    ensures
        ({
            let packet = blit_packet(frame, field, vsync, compressed_size);
            &&& packet[0] == 7
            &&& bytes::at32(packet, 1) == frame
            &&& packet[5] == field
            &&& bytes::at16(packet, 6) == vsync
            &&& packet.len() == if compressed_size is Some {
                12int
            } else {
                8int
            }
            &&& compressed_size matches Some(size) ==> bytes::at32(packet, 8) == size
        }),
{
    let packet = blit_packet(frame, field, vsync, compressed_size);
    let a = seq![CMD_BLIT];
    let b = a + bytes::le32(frame) + seq![field];
    let c = b + bytes::le16(vsync);
    bytes::law_read_written_32(a, frame, packet.skip(5));
    assert(a + bytes::le32(frame) + packet.skip(5) =~= packet);
    bytes::law_read_written_16(b, vsync, packet.skip(8));
    assert(b + bytes::le16(vsync) + packet.skip(8) =~= packet);
    if let Some(size) = compressed_size {
        bytes::law_read_written_32(c, size, seq![]);
        assert(c + bytes::le32(size) + seq![] =~= packet);
    }
}

/// The payload is cut as seldom as the limit allows: every datagram but the last is full.
pub proof fn law_chunks_are_full(data: Seq<u8>, mtu: int)
    requires
        mtu > 0,
    ensures
        forall|i: int|
            0 <= i < chunked(data, mtu).len() - 1 ==> (#[trigger] chunked(data, mtu)[i]).len()
                == mtu,
        data.len() > 0 ==> chunked(data, mtu).len() > 0,
        data.len() == 0 ==> chunked(data, mtu).len() == 0,
    decreases data.len(),
{
    if data.len() > mtu {
        let rest = chunked(data.skip(mtu), mtu);
        law_chunks_are_full(data.skip(mtu), mtu);
        assert forall|i: int| 0 <= i < chunked(data, mtu).len() - 1 implies (#[trigger] chunked(
            data,
            mtu,
        )[i]).len() == mtu by {
            if i > 0 {
                assert(chunked(data, mtu)[i] == rest[i - 1]);
            }
        }
    }
}

/// A field holds three bytes for each of its pixels: those of all rows in a progressive mode, and of
/// half of them in an interlaced one, so that two fields make a frame.
pub proof fn law_fields_make_a_frame(m: Modeline)
    ensures
        !m.interlace ==> m.field_rows() == m.v_active,
        m.interlace ==> m.v_active - 1 <= 2 * m.field_rows() <= m.v_active,
        !m.interlace ==> m.field_length() == 3 * (m.h_active * m.v_active),
        m.interlace && m.v_active % 2 == 0 ==> 2 * m.field_length() == 3 * (m.h_active
            * m.v_active),
        m.field_length() == 3 * (m.h_active * m.field_rows()),
{
    let h = m.h_active as int;
    let rows = m.field_rows();
    let v = m.v_active as int;
    if m.interlace && v % 2 == 0 {
        assert(2 * (h * rows) == h * v) by (nonlinear_arith)
            requires
                v == 2 * rows,
        ;
    }
}

/// The flags of a report are the bits of its last byte, and a report that is too short is none.
pub proof fn law_flags_are_bits(data: Seq<u8>)
    requires
        data.len() >= 13,
    ensures
        reported(data).vram_ready <==> data[12] & 1 != 0,
        reported(data).vram_end_frame <==> data[12] & 2 != 0,
        reported(data).vram_synced <==> data[12] & 4 != 0,
        reported(data).vga_vblank <==> data[12] & 16 != 0,
{
    let bits = data[12];
    assert(bits & 1 != 0 <==> bits % 2 == 1) by (bit_vector);
    assert(bits & 2 != 0 <==> bits / 2 % 2 == 1) by (bit_vector);
    assert(bits & 4 != 0 <==> bits / 4 % 2 == 1) by (bit_vector);
    assert(bits & 16 != 0 <==> bits / 16 % 2 == 1) by (bit_vector);
}

/// A list of payloads has the bytes of each datagram, in its place, and what they hold together is
/// what each holds, one after the other.
pub proof fn law_payloads_keep_their_places(list: Seq<Vec<u8>>, i: int, first: Seq<u8>, rest: Seq<Seq<u8>>)
    ensures
        payloads(list).len() == list.len(),
        0 <= i < list.len() ==> payloads(list)[i] == list[i]@,
        joined(seq![]) == Seq::<u8>::empty(),
        joined(seq![first] + rest) == first + joined(rest),
{
    assert((seq![first] + rest).skip(1) =~= rest);
}

} // verus!
