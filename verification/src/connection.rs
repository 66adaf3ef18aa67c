//! The sending side of a session with the FPGA: which datagrams to send, how long to wait, and what
//! its status reports change.

use crate::bytes;
use crate::groovy;
use crate::groovy::{FpgaStatus, Modeline};
use crate::lz4;
use vstd::prelude::*;

verus! {

/// A compressed field above this size delays the next one.
pub const CONGESTION_SIZE: usize = 500_000;

/// The least time between two fields after a large one, in nanoseconds.
pub const CONGESTION_TIME_NS: u64 = 110_000;

/// The pause before a datagram is sent again that the socket would have blocked on, in microseconds.
pub const BLOCKED_PAUSE_US: u64 = 10;

/// The pause before a datagram is sent again that found the send buffer full, in microseconds.
pub const BUFFER_PAUSE_US: u64 = 100;

/// How long the answer to the init command is awaited, in milliseconds; the session goes on without.
pub const ACK_TIMEOUT_MS: u64 = 2000;

/// The pause behind the answered init command, in milliseconds.
pub const INIT_PAUSE_MS: u64 = 100;

/// The pause behind the init command of a session without compression, in milliseconds.
pub const RAW_INIT_PAUSE_MS: u64 = 200;

/// The pause behind the switchres command, in milliseconds.
pub const SWITCHRES_PAUSE_MS: u64 = 500;

/// What a session remembers between datagrams.
pub struct GroovyConnection {
    /// The last status report.
    pub status: FpgaStatus,
    /// The largest payload of a datagram.
    pub mtu: usize,
    /// The time of one field, in nanoseconds; zero before a mode is set.
    pub frame_time_ns: u64,
    /// Whether the last field was large.
    pub do_congestion: bool,
    /// All rows of the mode; zero before a mode is set.
    pub v_total: u16,
    pub interlace: bool,
}

/// A signed number by its 64 bits.
pub open spec fn as_signed(x: u64) -> int {
    if x <= i64::MAX {
        x as int
    } else {
        x - 0x1_0000_0000_0000_0000
    }
}

fn signed(x: u64) -> (s: i64)
    ensures
        s == as_signed(x),
{
    if x <= i64::MAX as u64 {
        x as i64
    } else {
        -((u64::MAX - x) as i64) - 1
    }
}

/// The unsigned number with the 64 bits of `x`.
pub open spec fn as_unsigned(x: int) -> int {
    if x < 0 {
        x + 0x1_0000_0000_0000_0000
    } else {
        x
    }
}

fn unsigned(x: i64) -> (u: u64)
    ensures
        u == as_unsigned(x as int),
{
    if x >= 0 {
        x as u64
    } else {
        u64::MAX - (-(x + 1)) as u64
    }
}

/// Half of `x`, rounded towards zero.
pub open spec fn halved(x: int) -> int {
    if x < 0 {
        -((-x) / 2)
    } else {
        x / 2
    }
}

/// What stays of `n` in 32 bits.
fn low32(n: usize) -> (low: u32)
    ensures
        low == n as int % 0x1_0000_0000,
{
    (n as u64 % 0x1_0000_0000) as u32
}

/// What stays of `n` in 16 bits.
fn low16(n: usize) -> (low: u16)
    ensures
        low == n as int % 0x1_0000,
{
    (n as u64 % 0x1_0000) as u16
}

/// The datagrams of a compressed field: a header that gives its size in 32 bits, then the payload.
pub open spec fn blit_datagrams(
    compressed: Seq<u8>,
    frame_num: u32,
    field: u8,
    vsync: u16,
    mtu: int,
) -> Seq<Seq<u8>> {
    seq![
        groovy::blit_packet(
            frame_num,
            field,
            vsync,
            Some((compressed.len() as int % 0x1_0000_0000) as u32),
        ),
    ] + groovy::chunked(compressed, mtu)
}

/// The datagrams of a field that is not compressed: a header without a size, then the payload.
pub open spec fn raw_datagrams(
    frame: Seq<u8>,
    frame_num: u32,
    field: u8,
    vsync: u16,
    mtu: int,
) -> Seq<Seq<u8>> {
    seq![groovy::blit_packet(frame_num, field, vsync, None)] + groovy::chunked(frame, mtu)
}

/// The datagrams of a block of audio: a header that gives its size in 16 bits, then the payload.
pub open spec fn audio_datagrams(pcm: Seq<u8>, mtu: int) -> Seq<Seq<u8>> {
    seq![groovy::audio_packet((pcm.len() as int % 0x1_0000) as u16)] + groovy::chunked(pcm, mtu)
}

/// The status after a report was looked at without waiting for it: a report of 13 bytes counts where
/// it echoes a later frame.
pub open spec fn polled(status: FpgaStatus, received: Seq<u8>) -> FpgaStatus {
    if received.len() == groovy::STATUS_LENGTH && groovy::reported(received).frame_echo
        > status.frame_echo {
        groovy::reported(received)
    } else {
        status
    }
}

/// The status after several reports.
pub open spec fn polled_all(status: FpgaStatus, received: Seq<Seq<u8>>) -> FpgaStatus
    decreases received.len(),
{
    if received.len() == 0 {
        status
    } else {
        polled(polled_all(status, received.drop_last()), received.last())
    }
}

/// After any reports the status echoes the latest frame among them and the one known before.
pub proof fn law_polling_keeps_latest(status: FpgaStatus, received: Seq<Seq<u8>>)
    ensures
        polled_all(status, received).frame_echo >= status.frame_echo,
        forall|i: int|
            0 <= i < received.len() && (#[trigger] received[i]).len() == groovy::STATUS_LENGTH
                ==> polled_all(status, received).frame_echo >= groovy::reported(
                received[i],
            ).frame_echo,
        polled_all(status, received) == status || exists|i: int|
            0 <= i < received.len() && (#[trigger] received[i]).len() == groovy::STATUS_LENGTH
                && polled_all(status, received) == groovy::reported(received[i]),
    decreases received.len(),
{
    if received.len() > 0 {
        let rest = received.drop_last();
        law_polling_keeps_latest(status, rest);
        let before = polled_all(status, rest);
        assert forall|i: int|
            0 <= i < received.len() && (#[trigger] received[i]).len()
                == groovy::STATUS_LENGTH implies polled_all(status, received).frame_echo
            >= groovy::reported(received[i]).frame_echo by {
            if i < rest.len() {
                assert(rest[i] == received[i]);
            }
        }
        if polled_all(status, received) != before {
            assert(received[received.len() - 1] == received.last());
        } else if before != status {
            let i = choose|i: int|
                0 <= i < rest.len() && (#[trigger] rest[i]).len() == groovy::STATUS_LENGTH
                    && before == groovy::reported(rest[i]);
            assert(received[i] == rest[i]);
        }
    }
}

proof fn lemma_line_bound(frame: int, rows: int)
    by (nonlinear_arith)
    requires
        0 <= frame <= 0xffff_ffff,
        0 <= rows <= 0xffff,
    ensures
        0 <= frame * rows <= 0xffff_ffff * 0xffff,
{
}

/// A field that took its whole time or more is not followed by a sleep, unless the sender is ahead
/// of the raster.
pub proof fn law_late_field_is_not_delayed(connection: GroovyConnection, emulation_time_ns: u64)
    requires
        emulation_time_ns >= connection.frame_time_ns,
        connection.status.frame_echo == 0 || connection.raster_lead() <= 0,
    ensures
        connection.sync_time(emulation_time_ns) == 0,
{
}

impl GroovyConnection {
    /// What every operation keeps: a datagram can carry something.
    pub open spec fn wf(self) -> bool {
        self.mtu > 0
    }

    /// The state before anything was sent.
    pub fn connect() -> (connection: GroovyConnection)
        ensures
            connection.wf(),
            connection == (GroovyConnection {
                status: FpgaStatus::initial(),
                mtu: groovy::DEFAULT_MTU,
                frame_time_ns: 0,
                do_congestion: false,
                v_total: 0,
                interlace: false,
            }),
    {
        GroovyConnection {
            status: FpgaStatus::default(),
            mtu: groovy::DEFAULT_MTU,
            frame_time_ns: 0,
            do_congestion: false,
            v_total: 0,
            interlace: false,
        }
    }

    /// The two commands that start a session in a mode, in their order: LZ4 compression, 48 kHz
    /// stereo sound and three bytes to a pixel; then the mode.
    pub fn init_packets(modeline: &Modeline) -> (packets: Vec<Vec<u8>>)
        ensures
            groovy::payloads(packets@) == seq![
                groovy::init_packet(1, 3, 2, 0),
                groovy::switchres_packet(*modeline),
            ],
    {
        let mut packets: Vec<Vec<u8>> = Vec::new();
        packets.push(groovy::build_init(1, 3, 2, 0));
        packets.push(groovy::build_switchres(modeline));
        assert(groovy::payloads(packets@) =~= seq![
            groovy::init_packet(1, 3, 2, 0),
            groovy::switchres_packet(*modeline),
        ]);
        packets
    }

    /// Takes over the timing of a mode whose commands have been sent.
    pub fn init(&mut self, modeline: &Modeline, field_time_ns: u64)
        requires
            old(self).wf(),
        ensures
            final(self).wf(),
            *final(self) == (GroovyConnection {
                frame_time_ns: field_time_ns,
                v_total: modeline.v_total,
                interlace: modeline.interlace,
                ..*old(self)
            }),
    {
        self.frame_time_ns = field_time_ns;
        self.v_total = modeline.v_total;
        self.interlace = modeline.interlace;
    }

    /// How long to wait before the next field, in nanoseconds, where the last one was sent
    /// `elapsed_ns` ago.
    pub fn congestion_delay(&self, elapsed_ns: u64) -> (delay: u64)
        ensures
            delay == if self.do_congestion && elapsed_ns < CONGESTION_TIME_NS {
                CONGESTION_TIME_NS - elapsed_ns
            } else {
                0
            },
            self.do_congestion ==> elapsed_ns + delay >= 110_000,
            !self.do_congestion ==> delay == 0,
            delay > 0 ==> elapsed_ns + delay == 110_000,
    {
        if self.do_congestion && elapsed_ns < CONGESTION_TIME_NS {
            CONGESTION_TIME_NS - elapsed_ns
        } else {
            0
        }
    }

    /// The datagrams that send a compressed field.
    pub fn blit_compressed(
        &mut self,
        compressed: &[u8],
        frame_num: u32,
        field: u8,
        vsync: u16,
    ) -> (datagrams: Vec<Vec<u8>>)
        requires
            old(self).wf(),
        ensures
            final(self).wf(),
            groovy::payloads(datagrams@) == blit_datagrams(
                compressed@,
                frame_num,
                field,
                vsync,
                old(self).mtu as int,
            ),
            *final(self) == (GroovyConnection {
                do_congestion: compressed@.len() > CONGESTION_SIZE,
                ..*old(self)
            }),
            final(self).do_congestion <==> compressed@.len() > 500_000,
            final(self).mtu == old(self).mtu,
            final(self).status == old(self).status,
    {
        let mut datagrams: Vec<Vec<u8>> = Vec::new();
        datagrams.push(
            groovy::build_blit(frame_num, field, vsync, Some(low32(compressed.len()))),
        );
        assert(groovy::payloads(datagrams@) =~= seq![
            groovy::blit_packet(
                frame_num,
                field,
                vsync,
                Some((compressed@.len() as int % 0x1_0000_0000) as u32),
            ),
        ]);
        groovy::push_chunks(&mut datagrams, compressed, self.mtu);
        self.do_congestion = compressed.len() > CONGESTION_SIZE;
        datagrams
    }

    /// The datagrams that send a field: the field is compressed, and sent as a header and as many
    /// datagrams as it takes.
    pub fn blit(&mut self, frame_data: &[u8], frame_num: u32, field: u8, vsync: u16) -> (datagrams:
        Vec<Vec<u8>>)
        requires
            old(self).wf(),
            frame_data@.len() * 110 <= usize::MAX,
        ensures
            final(self).wf(),
            exists|compressed: Seq<u8>|
                {
                    &&& #[trigger] lz4::compresses(frame_data@, compressed)
                    &&& groovy::payloads(datagrams@) == blit_datagrams(
                        compressed,
                        frame_num,
                        field,
                        vsync,
                        old(self).mtu as int,
                    )
                    &&& *final(self) == (GroovyConnection {
                        do_congestion: compressed.len() > CONGESTION_SIZE,
                        ..*old(self)
                    })
                },
    {
        let compressed: Vec<u8> = lz4::compress_prepend_size(frame_data);
        self.blit_compressed(compressed.as_slice(), frame_num, field, vsync)
    }

    /// The datagrams that send a block of audio.
    pub fn audio(&self, pcm_data: &[u8]) -> (datagrams: Vec<Vec<u8>>)
        requires
            self.wf(),
        ensures
            groovy::payloads(datagrams@) == audio_datagrams(pcm_data@, self.mtu as int),
    {
        let mut datagrams: Vec<Vec<u8>> = Vec::new();
        datagrams.push(groovy::build_audio(low16(pcm_data.len())));
        assert(groovy::payloads(datagrams@) =~= seq![
            groovy::audio_packet((pcm_data@.len() as int % 0x1_0000) as u16),
        ]);
        groovy::push_chunks(&mut datagrams, pcm_data, self.mtu);
        datagrams
    }

    /// The datagram that ends the session.
    pub fn close(&self) -> (packet: Vec<u8>)
        ensures
            packet@ == groovy::close_packet(),
    {
        groovy::build_close()
    }

    /// The rows of one field, as far as the timing knows them.
    pub open spec fn field_lines(self) -> int {
        if self.interlace {
            self.v_total as int / 2
        } else {
            self.v_total as int
        }
    }

    /// The place of a raster line in the whole run of lines since the first frame.
    pub open spec fn line_number(self, frame: int, line: int) -> int {
        if self.interlace {
            (frame * self.v_total + line) / 2
        } else {
            frame * self.v_total + line
        }
    }

    /// How far the frame that was echoed is ahead of the raster, in nanoseconds: half of the lines
    /// between the two, times the time of a line. Nothing where no mode is set.
    pub open spec fn raster_lead(self) -> int {
        if self.v_total == 0 {
            0
        } else {
            as_signed((self.frame_time_ns as int / self.field_lines()) as u64) * halved(
                self.line_number(self.status.frame_echo - 1, self.status.vcount_echo as int)
                    - self.line_number(self.status.frame as int, self.status.vcount as int),
            )
        }
    }

    /// What is left of the field's time.
    pub open spec fn time_left(self, emulation_time_ns: u64) -> int {
        if self.frame_time_ns > emulation_time_ns {
            self.frame_time_ns - emulation_time_ns
        } else {
            0
        }
    }

    /// Whether the numbers that [`Self::wait_sync`] goes through fit in 64 bits.
    pub open spec fn can_sync(self, emulation_time_ns: u64) -> bool {
        let left = self.time_left(emulation_time_ns);
        let lead = self.raster_lead();
        self.status.frame_echo > 0 ==> {
            &&& self.v_total > 0 ==> self.field_lines() > 0
            &&& i64::MIN < lead <= i64::MAX
            &&& lead < 0 && -lead > left || i64::MIN <= as_signed(left as u64) + lead <= i64::MAX
        }
    }

    /// How long to sleep until the next field, where making the last one took `emulation_time_ns`.
    pub open spec fn sync_time(self, emulation_time_ns: u64) -> int {
        let left = self.time_left(emulation_time_ns);
        let lead = self.raster_lead();
        if self.status.frame_echo == 0 {
            left
        } else if lead < 0 && -lead > left {
            0
        } else {
            as_unsigned(as_signed(left as u64) + lead)
        }
    }

    fn diff_time_raster(&self) -> (lead: i64)
        requires
            self.status.frame_echo > 0,
            self.v_total > 0 ==> self.field_lines() > 0,
            i64::MIN <= self.raster_lead() <= i64::MAX,
        ensures
            lead == self.raster_lead(),
    {
        if self.v_total == 0 {
            return 0;
        }
        let parts: u64 = if self.interlace {
            2
        } else {
            1
        };
        let rows: u64 = self.v_total as u64;
        let line_ns: u64 = self.frame_time_ns / (rows / parts);
        let echoed: u64 = self.status.frame_echo as u64 - 1;
        let reached: u64 = self.status.frame as u64;
        proof {
            lemma_line_bound(echoed as int, rows as int);
            lemma_line_bound(reached as int, rows as int);
        }
        let first: i64 = ((echoed * rows + self.status.vcount_echo as u64) / parts) as i64;
        let second: i64 = ((reached * rows + self.status.vcount as u64) / parts) as i64;
        let apart: i64 = first - second;
        let half: i64 = if apart < 0 {
            -((-apart) / 2)
        } else {
            apart / 2
        };
        signed(line_ns) * half
    }

    /// Whether [`Self::wait_sync`] can be asked, that is whether its numbers fit in 64 bits.
    pub fn can_wait_sync(&self, emulation_time_ns: u64) -> (yes: bool)
        ensures
            yes == self.can_sync(emulation_time_ns),
    {
        if self.status.frame_echo == 0 {
            return true;
        }
        let left: u64 = if self.frame_time_ns > emulation_time_ns {
            self.frame_time_ns - emulation_time_ns
        } else {
            0
        };
        let lead: i128 = if self.v_total == 0 {
            0
        } else {
            let parts: u64 = if self.interlace {
                2
            } else {
                1
            };
            let rows: u64 = self.v_total as u64;
            if rows / parts == 0 {
                return false;
            }
            let line_ns: i128 = signed(self.frame_time_ns / (rows / parts)) as i128;
            let echoed: u64 = self.status.frame_echo as u64 - 1;
            let reached: u64 = self.status.frame as u64;
            proof {
                lemma_line_bound(echoed as int, rows as int);
                lemma_line_bound(reached as int, rows as int);
            }
            let first: i128 = ((echoed * rows + self.status.vcount_echo as u64) / parts) as i128;
            let second: i128 = ((reached * rows + self.status.vcount as u64) / parts) as i128;
            let apart: i128 = first - second;
            let half: i128 = if apart < 0 {
                -((-apart) / 2)
            } else {
                apart / 2
            };
            proof {
                assert(-0x1_0000_0000_0000_0000_0000_0000_0000 <= line_ns * half
                    <= 0x1_0000_0000_0000_0000_0000_0000_0000) by (nonlinear_arith)
                    requires
                        -0x8000_0000_0000_0000 <= line_ns <= 0x7fff_ffff_ffff_ffff,
                        -0x1_0000_0000_0000 <= half <= 0x1_0000_0000_0000,
                ;
            }
            line_ns * half
        };
        assert(lead == self.raster_lead());
        let low: i128 = i64::MIN as i128;
        let high: i128 = i64::MAX as i128;
        if lead <= low || lead > high {
            return false;
        }
        let end: i128 = signed(left) as i128 + lead;
        lead < 0 && -lead > left as i128 || low <= end && end <= high
    }

    /// How long to sleep until the next field, in nanoseconds: what is left of the field's time,
    /// and as much more as the sender is ahead of the raster.
    pub fn wait_sync(&self, emulation_time_ns: u64) -> (sleep_ns: u64)
        requires
            self.can_sync(emulation_time_ns),
        ensures
            sleep_ns == self.sync_time(emulation_time_ns),
    {
        let left: u64 = if self.frame_time_ns > emulation_time_ns {
            self.frame_time_ns - emulation_time_ns
        } else {
            0
        };
        if self.status.frame_echo == 0 {
            return left;
        }
        let lead: i64 = self.diff_time_raster();
        if lead < 0 && (-lead) as u64 > left {
            0
        } else {
            unsigned(signed(left) + lead)
        }
    }

    /// Takes a datagram that came while the answer to the first command is awaited. Says whether it
    /// was the answer.
    pub fn wait_ack(&mut self, received: &[u8]) -> (answered: bool)
        requires
            old(self).wf(),
        ensures
            final(self).wf(),
            answered == (received@.len() == groovy::STATUS_LENGTH),
            *final(self) == if answered {
                GroovyConnection { status: groovy::reported(received@), ..*old(self) }
            } else {
                *old(self)
            },
    {
        if received.len() != groovy::STATUS_LENGTH {
            return false;
        }
        if let Some(status) = FpgaStatus::parse(received) {
            self.status = status;
        }
        true
    }

    /// Takes a datagram that was there without waiting for it; a report counts where it echoes a
    /// later frame. Says whether to look for another one.
    pub fn poll_ack(&mut self, received: &[u8]) -> (again: bool)
        requires
            old(self).wf(),
        ensures
            final(self).wf(),
            again == (received@.len() == groovy::STATUS_LENGTH),
            *final(self) == (GroovyConnection {
                status: polled(old(self).status, received@),
                ..*old(self)
            }),
    {
        if received.len() != groovy::STATUS_LENGTH {
            return false;
        }
        if let Some(status) = FpgaStatus::parse(received) {
            if status.frame_echo > self.status.frame_echo {
                self.status = status;
            }
        }
        true
    }
}

/// The two commands that start a session without compression, in their order: with 48 kHz stereo
/// sound or without sound, and with three bytes to a pixel; then the mode.
pub fn raw_init_packets(modeline: &Modeline, with_sound: bool) -> (packets: Vec<Vec<u8>>)
    ensures
        groovy::payloads(packets@) == seq![
            if with_sound {
                groovy::init_packet(0, 3, 2, 0)
            } else {
                groovy::init_packet(0, 0, 0, 0)
            },
            groovy::switchres_packet(*modeline),
        ],
{
    let mut packets: Vec<Vec<u8>> = Vec::new();
    if with_sound {
        packets.push(groovy::build_init(0, 3, 2, 0));
    } else {
        packets.push(groovy::build_init(0, 0, 0, 0));
    }
    packets.push(groovy::build_switchres(modeline));
    packets
}

/// The datagrams that send a field without compression.
pub fn raw_blit(frame: &[u8], frame_num: u32, field: u8, vsync: u16, mtu: usize) -> (datagrams: Vec<
    Vec<u8>,
>)
    requires
        mtu > 0,
    ensures
        groovy::payloads(datagrams@) == raw_datagrams(frame@, frame_num, field, vsync, mtu as int),
{
    let mut datagrams: Vec<Vec<u8>> = Vec::new();
    datagrams.push(groovy::build_blit_field_vsync(frame_num, field, vsync, None));
    assert(groovy::payloads(datagrams@) =~= seq![
        groovy::blit_packet(frame_num, field, vsync, None),
    ]);
    groovy::push_chunks(&mut datagrams, frame, mtu);
    datagrams
}

/// What the socket made of a datagram.
#[derive(Clone, Copy, Debug, PartialEq, Eq, Structural)]
pub enum SendOutcome {
    /// It was sent.
    Sent,
    /// The socket would have blocked.
    WouldBlock,
    /// The send buffer of the system is full.
    BufferFull,
    /// There was another error.
    Failed,
}

/// What is done after an attempt to send a datagram.
#[derive(Clone, Copy, Debug, PartialEq, Eq, Structural)]
pub enum SendStep {
    /// The datagram was sent.
    Done,
    /// It is sent again after a pause, in microseconds.
    Again { pause_us: u64 },
    /// It cannot be sent.
    GiveUp,
}

impl SendOutcome {
    /// What is done next.
    pub open spec fn step(self) -> SendStep {
        match self {
            SendOutcome::Sent => SendStep::Done,
            SendOutcome::WouldBlock => SendStep::Again { pause_us: BLOCKED_PAUSE_US },
            SendOutcome::BufferFull => SendStep::Again { pause_us: BUFFER_PAUSE_US },
            SendOutcome::Failed => SendStep::GiveUp,
        }
    }
}

/// What is done after an attempt to send a datagram: it is sent again after a socket that would
/// block and after a full send buffer, and another error is final.
pub fn after_send(outcome: SendOutcome) -> (step: SendStep)
    ensures
        step == outcome.step(),
{
    match outcome {
        SendOutcome::Sent => SendStep::Done,
        SendOutcome::WouldBlock => SendStep::Again { pause_us: BLOCKED_PAUSE_US },
        SendOutcome::BufferFull => SendStep::Again { pause_us: BUFFER_PAUSE_US },
        SendOutcome::Failed => SendStep::GiveUp,
    }
}

/// How often a datagram is offered to a socket that answers with the given outcomes in turn, and
/// whether it was sent in the end. `None` where the outcomes do not settle that.
pub open spec fn sending(outcomes: Seq<SendOutcome>) -> Option<(nat, bool)>
    decreases outcomes.len(),
{
    if outcomes.len() == 0 {
        None
    } else {
        match outcomes[0].step() {
            SendStep::Done => Some((1, true)),
            SendStep::GiveUp => Some((1, false)),
            SendStep::Again { .. } => match sending(outcomes.skip(1)) {
                Some((offers, sent)) => Some((offers + 1, sent)),
                None => None,
            },
        }
    }
}

/// A datagram is offered until the first outcome that is neither a socket that would block nor a
/// full send buffer, and that outcome alone decides whether it was sent.
pub proof fn law_first_other_outcome_decides(outcomes: Seq<SendOutcome>, k: int)
    requires
        0 <= k < outcomes.len(),
        outcomes[k] is Sent || outcomes[k] is Failed,
        forall|i: int|
            0 <= i < k ==> (#[trigger] outcomes[i]) is WouldBlock || outcomes[i] is BufferFull,
    ensures
        sending(outcomes) == Some(((k + 1) as nat, outcomes[k] is Sent)),
    decreases k,
{
    if k > 0 {
        let rest = outcomes.skip(1);
        assert forall|i: int| 0 <= i < k - 1 implies (#[trigger] rest[i]) is WouldBlock
            || rest[i] is BufferFull by {
            assert(rest[i] == outcomes[i + 1]);
        }
        assert(outcomes[0] is WouldBlock || outcomes[0] is BufferFull);
        law_first_other_outcome_decides(rest, k - 1);
    }
}

/// As long as the socket would block or the send buffer is full, a datagram is not given up.
pub proof fn law_waiting_does_not_fail(outcomes: Seq<SendOutcome>)
    requires
        forall|i: int|
            0 <= i < outcomes.len() ==> (#[trigger] outcomes[i]) is WouldBlock
                || outcomes[i] is BufferFull,
    ensures
        sending(outcomes) is None,
    decreases outcomes.len(),
{
    if outcomes.len() > 0 {
        let rest = outcomes.skip(1);
        assert forall|i: int| 0 <= i < rest.len() implies (#[trigger] rest[i]) is WouldBlock
            || rest[i] is BufferFull by {
            assert(rest[i] == outcomes[i + 1]);
        }
        assert(outcomes[0] is WouldBlock || outcomes[0] is BufferFull);
        law_waiting_does_not_fail(rest);
    }
}

/// The datagrams of a compressed field are a header of twelve bytes and then the field in order, cut
/// into datagrams that are not empty and not above the limit. The header gives the frame, the field,
/// the line of the vertical sync and how many bytes follow.
pub proof fn law_compressed_field_is_sent_in_full(
    compressed: Seq<u8>,
    frame_num: u32,
    field: u8,
    vsync: u16,
    mtu: int,
)
    requires
        mtu > 0,
        compressed.len() <= u32::MAX,
    ensures
        ({
            let all = blit_datagrams(compressed, frame_num, field, vsync, mtu);
            &&& all.len() > 0
            &&& groovy::joined(all.skip(1)) == compressed
            &&& forall|i: int| 1 <= i < all.len() ==> 0 < (#[trigger] all[i]).len() <= mtu
            &&& all[0].len() == 12
            &&& all[0][0] == 7
            &&& bytes::at32(all[0], 1) == frame_num
            &&& all[0][5] == field
            &&& bytes::at16(all[0], 6) == vsync
            &&& bytes::at32(all[0], 8) == compressed.len()
        }),
{
    let all = blit_datagrams(compressed, frame_num, field, vsync, mtu);
    let chunks = groovy::chunked(compressed, mtu);
    groovy::law_chunks_hold_payload(compressed, mtu);
    groovy::law_blit_header_reads_back(frame_num, field, vsync, Some(compressed.len() as u32));
    assert(compressed.len() as int % 0x1_0000_0000 == compressed.len());
    assert(all.skip(1) =~= chunks);
    assert forall|i: int| 1 <= i < all.len() implies 0 < (#[trigger] all[i]).len() <= mtu by {
        assert(all[i] == chunks[i - 1]);
    }
}

/// The datagrams of a field that is not compressed are a header of eight bytes, without a size, and
/// then the field in order, cut into datagrams that are not empty and not above the limit.
pub proof fn law_raw_field_is_sent_in_full(
    frame: Seq<u8>,
    frame_num: u32,
    field: u8,
    vsync: u16,
    mtu: int,
)
    requires
        mtu > 0,
    ensures
        ({
            let all = raw_datagrams(frame, frame_num, field, vsync, mtu);
            &&& all.len() > 0
            &&& groovy::joined(all.skip(1)) == frame
            &&& forall|i: int| 1 <= i < all.len() ==> 0 < (#[trigger] all[i]).len() <= mtu
            &&& all[0].len() == 8
            &&& all[0][0] == 7
            &&& bytes::at32(all[0], 1) == frame_num
            &&& all[0][5] == field
            &&& bytes::at16(all[0], 6) == vsync
        }),
{
    let all = raw_datagrams(frame, frame_num, field, vsync, mtu);
    let chunks = groovy::chunked(frame, mtu);
    groovy::law_chunks_hold_payload(frame, mtu);
    groovy::law_blit_header_reads_back(frame_num, field, vsync, None);
    assert(all.skip(1) =~= chunks);
    assert forall|i: int| 1 <= i < all.len() implies 0 < (#[trigger] all[i]).len() <= mtu by {
        assert(all[i] == chunks[i - 1]);
    }
}

/// The datagrams of a block of audio are a header of three bytes, which gives how many bytes follow,
/// and then the block in order, cut into datagrams that are not empty and not above the limit.
pub proof fn law_audio_is_sent_in_full(pcm: Seq<u8>, mtu: int)
    requires
        mtu > 0,
        pcm.len() <= u16::MAX,
    ensures
        ({
            let all = audio_datagrams(pcm, mtu);
            &&& all.len() > 0
            &&& groovy::joined(all.skip(1)) == pcm
            &&& forall|i: int| 1 <= i < all.len() ==> 0 < (#[trigger] all[i]).len() <= mtu
            &&& all[0].len() == 3
            &&& all[0][0] == 4
            &&& bytes::at16(all[0], 1) == pcm.len()
        }),
{
    let all = audio_datagrams(pcm, mtu);
    let chunks = groovy::chunked(pcm, mtu);
    groovy::law_chunks_hold_payload(pcm, mtu);
    assert(pcm.len() as int % 0x1_0000 == pcm.len());
    let n = pcm.len() as u16;
    bytes::law_read_written_16(seq![groovy::CMD_AUDIO], n, seq![]);
    assert(seq![groovy::CMD_AUDIO] + bytes::le16(n) + seq![] =~= groovy::audio_packet(n));
    assert(all.skip(1) =~= chunks);
    assert forall|i: int| 1 <= i < all.len() implies 0 < (#[trigger] all[i]).len() <= mtu by {
        assert(all[i] == chunks[i - 1]);
    }
}

/// A report replaces what is known just where it has thirteen bytes and echoes a later frame.
pub proof fn law_later_report_counts(status: FpgaStatus, received: Seq<u8>)
    ensures
        received.len() != 13 ==> polled(status, received) == status,
        received.len() == 13 && bytes::at32(received, 0) <= status.frame_echo ==> polled(
            status,
            received,
        ) == status,
        received.len() == 13 && bytes::at32(received, 0) > status.frame_echo ==> polled(
            status,
            received,
        ) == groovy::reported(received),
{
}

/// Before a frame was echoed the sleep lasts until the field's time is over, counted from where the
/// field was begun, and a field that took longer is followed by none.
pub proof fn law_field_fills_its_time(connection: GroovyConnection, emulation_time_ns: u64)
    requires
        connection.status.frame_echo == 0,
    ensures
        connection.sync_time(emulation_time_ns) >= 0,
        emulation_time_ns <= connection.frame_time_ns ==> emulation_time_ns
            + connection.sync_time(emulation_time_ns) == connection.frame_time_ns,
        emulation_time_ns > connection.frame_time_ns ==> connection.sync_time(emulation_time_ns)
            == 0,
{
}

/// Once a frame was echoed the sleep is longer by as much as the sender is ahead of the raster, and
/// shorter by as much as it is behind, down to none.
pub proof fn law_sleep_follows_the_raster(connection: GroovyConnection, emulation_time_ns: u64)
    requires
        connection.status.frame_echo > 0,
        connection.can_sync(emulation_time_ns),
        connection.frame_time_ns <= i64::MAX,
    ensures
        ({
            let left = if emulation_time_ns < connection.frame_time_ns {
                connection.frame_time_ns - emulation_time_ns
            } else {
                0
            };
            let lead = connection.raster_lead();
            &&& left + lead >= 0 ==> connection.sync_time(emulation_time_ns) == left + lead
            &&& left + lead < 0 ==> connection.sync_time(emulation_time_ns) == 0
        }),
{
}

/// In a progressive mode the lead is half of the lines between the frame that was echoed and the
/// raster, times the time of a line: it has the sign of that difference, and is exact to half a line.
pub proof fn law_lead_is_half_the_lines_between(connection: GroovyConnection)
    requires
        !connection.interlace,
        connection.v_total > 0,
        connection.frame_time_ns <= i64::MAX,
    ensures
        ({
            let s = connection.status;
            let rows = connection.v_total as int;
            let line_ns = connection.frame_time_ns as int / rows;
            let apart = (s.frame_echo - 1) * rows + s.vcount_echo - (s.frame * rows + s.vcount);
            let lead = connection.raster_lead();
            &&& apart == 0 ==> lead == 0
            &&& apart >= 0 ==> 0 <= 2 * lead <= line_ns * apart
            &&& apart <= 0 ==> line_ns * apart <= 2 * lead <= 0
            &&& apart >= 0 ==> line_ns * apart <= 2 * lead + line_ns
            &&& apart <= 0 ==> 2 * lead - line_ns <= line_ns * apart
        }),
{
    let s = connection.status;
    let rows = connection.v_total as int;
    let line_ns = connection.frame_time_ns as int / rows;
    let apart = (s.frame_echo - 1) * rows + s.vcount_echo - (s.frame * rows + s.vcount);
    lemma_lead(line_ns, apart);
    assert(0 <= line_ns <= connection.frame_time_ns) by (nonlinear_arith)
        requires
            rows > 0,
            line_ns == connection.frame_time_ns as int / rows,
    ;
}

proof fn lemma_lead(line_ns: int, apart: int)
    requires
        line_ns >= 0,
    ensures
        ({
            let lead = line_ns * halved(apart);
            &&& apart == 0 ==> lead == 0
            &&& apart >= 0 ==> 0 <= 2 * lead <= line_ns * apart
            &&& apart <= 0 ==> line_ns * apart <= 2 * lead <= 0
            &&& apart >= 0 ==> line_ns * apart <= 2 * lead + line_ns
            &&& apart <= 0 ==> 2 * lead - line_ns <= line_ns * apart
        }),
{
    let half = halved(apart);
    assert(apart >= 0 ==> 0 <= half && 2 * half <= apart <= 2 * half + 1);
    assert(apart <= 0 ==> half <= 0 && 2 * half - 1 <= apart <= 2 * half);
    if apart >= 0 {
        assert(0 <= 2 * (line_ns * half) <= line_ns * apart <= 2 * (line_ns * half) + line_ns)
            by (nonlinear_arith)
            requires
                line_ns >= 0,
                0 <= half,
                2 * half <= apart <= 2 * half + 1,
        ;
        assert(apart == 0 ==> line_ns * half == 0) by (nonlinear_arith)
            requires
                0 <= half,
                2 * half <= apart,
        ;
    }
    if apart <= 0 {
        assert(2 * (line_ns * half) - line_ns <= line_ns * apart <= 2 * (line_ns * half) <= 0)
            by (nonlinear_arith)
            requires
                line_ns >= 0,
                half <= 0,
                2 * half - 1 <= apart <= 2 * half,
        ;
    }
}

/// In an interlaced mode a field has half of the rows, so that a line takes twice as long, and lines
/// are counted by twos.
pub proof fn law_lead_in_an_interlaced_mode(connection: GroovyConnection)
    requires
        connection.interlace,
        connection.v_total > 1,
        connection.frame_time_ns <= i64::MAX,
    ensures
        ({
            let s = connection.status;
            let rows = connection.v_total as int;
            let line_ns = connection.frame_time_ns as int / (rows / 2);
            let apart = ((s.frame_echo - 1) * rows + s.vcount_echo) / 2 - (s.frame * rows
                + s.vcount) / 2;
            let lead = connection.raster_lead();
            &&& apart == 0 ==> lead == 0
            &&& apart >= 0 ==> 0 <= 2 * lead <= line_ns * apart <= 2 * lead + line_ns
            &&& apart <= 0 ==> 2 * lead - line_ns <= line_ns * apart <= 2 * lead <= 0
        }),
{
    let s = connection.status;
    let rows = connection.v_total as int;
    let line_ns = connection.frame_time_ns as int / (rows / 2);
    let apart = ((s.frame_echo - 1) * rows + s.vcount_echo) / 2 - (s.frame * rows + s.vcount) / 2;
    lemma_lead(line_ns, apart);
    let lines = rows / 2;
    assert(0 <= line_ns <= connection.frame_time_ns) by (nonlinear_arith)
        requires
            lines > 0,
            line_ns == connection.frame_time_ns as int / lines,
    ;
}

/// A datagram that was sent is done with; a socket that would block and a full send buffer are
/// waited for, the buffer longer; and any other error is final.
pub proof fn law_pauses_are_short(outcome: SendOutcome)
    ensures
        outcome is Sent <==> outcome.step() is Done,
        outcome is Failed <==> outcome.step() is GiveUp,
        outcome is WouldBlock ==> outcome.step() == (SendStep::Again { pause_us: 10 }),
        outcome is BufferFull ==> outcome.step() == (SendStep::Again { pause_us: 100 }),
{
}

/// The sleep can be computed for ordinary timings: where a mode is set that has rows, and the field's
/// time and the lead are below 2 to the power of 62 nanoseconds, which is more than a century.
pub proof fn law_ordinary_timing_can_be_synced(connection: GroovyConnection, emulation_time_ns: u64)
    requires
        connection.v_total > 1,
        connection.frame_time_ns < 0x4000_0000_0000_0000,
        -0x4000_0000_0000_0000 < connection.raster_lead() < 0x4000_0000_0000_0000,
    ensures
        connection.can_sync(emulation_time_ns),
{
}

} // verus!
